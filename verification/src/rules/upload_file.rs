//! The upload rule: a variable of the reserved `Upload` scalar type may
//! only be declared on a mutation. Declaring one on a query operation is
//! reported as a validation error at the variable's position.

use vstd::prelude::*;
use crate::ast::Operation;
use crate::ast::OperationKind;
use crate::ast::VariableDefinition;
use crate::ast::base_type_name;
use crate::context::ValidationErrorV;
use crate::context::ValidatorContext;
use crate::context::error_views;
use crate::registry::TypeDef;
use crate::registry::lookup_type_index;
use crate::visitor::Visitor;
use crate::visitor::ctx_extends;

verus! {

/// The fixed message this rule reports.
pub open spec fn upload_error_message() -> Seq<char> {
    "The Upload type is only allowed to be defined on a mutation"@
}

/// Whether a variable's declared type resolves to the reserved upload
/// scalar in the given type registry.
pub open spec fn is_upload_variable(types: Seq<TypeDef>, var: VariableDefinition) -> bool {
    match lookup_type_index(types, base_type_name(var.var_type)) {
        Some(i) => types[i].name@ == "Upload"@,
        None => false,
    }
}

/// The error this rule reports for one offending variable.
pub open spec fn upload_error(var: VariableDefinition) -> ValidationErrorV {
    ValidationErrorV { message: upload_error_message(), positions: seq![var.position] }
}

/// The errors this rule reports for a list of variable definitions of a
/// query operation, in declaration order.
pub open spec fn upload_var_errors(
    types: Seq<TypeDef>,
    vars: Seq<VariableDefinition>,
) -> Seq<ValidationErrorV>
    decreases vars,
{
    if vars.len() == 0 {
        Seq::empty()
    } else {
        upload_var_errors(types, vars.drop_last()) + (if is_upload_variable(types, vars.last()) {
            seq![upload_error(vars.last())]
        } else {
            Seq::empty()
        })
    }
}

/// Everything this rule reports on entering one operation definition:
/// nothing unless the operation is a query.
pub open spec fn upload_operation_errors(
    types: Seq<TypeDef>,
    op: Operation,
) -> Seq<ValidationErrorV> {
    if op.kind == OperationKind::Query {
        upload_var_errors(types, op.variable_definitions@)
    } else {
        Seq::empty()
    }
}

/// The rule itself. It holds no state of its own.
#[derive(Default)]
pub struct UploadFile;

impl UploadFile {
    /// Reports exactly `upload_operation_errors` for the operation, in
    /// declaration order, appended to whatever the context already holds.
    pub fn check_operation(ctx: &mut ValidatorContext, op: &Operation)
        ensures
            error_views(final(ctx).errors@) == error_views(old(ctx).errors@)
                + upload_operation_errors(old(ctx).registry.types@, *op),
            final(ctx).registry == old(ctx).registry,
            final(ctx).fragments == old(ctx).fragments,
    {
        let ghost types = old(ctx).registry.types@;
        if !matches!(op.kind, OperationKind::Query) {
            proof {
                assert(error_views(ctx.errors@) =~= error_views(old(ctx).errors@)
                    + upload_operation_errors(types, *op));
            }
            return ;
        }
        let upload = String::from_str("Upload");
        let mut v: usize = 0;
        while v < op.variable_definitions.len()
            invariant
                0 <= v <= op.variable_definitions@.len(),
                ctx.registry == old(ctx).registry,
                ctx.fragments == old(ctx).fragments,
                types == ctx.registry.types@,
                upload@ == "Upload"@,
                error_views(ctx.errors@) == error_views(old(ctx).errors@) + upload_var_errors(
                    types,
                    op.variable_definitions@.subrange(0, v as int),
                ),
            decreases op.variable_definitions@.len() - v,
        {
            let ghost seen = op.variable_definitions@.subrange(0, v as int);
            let ghost seen1 = op.variable_definitions@.subrange(0, v as int + 1);
            proof {
                assert(seen1.drop_last() =~= seen);
                assert(seen1.last() == op.variable_definitions@[v as int]);
            }
            let var = &op.variable_definitions[v];
            let reg = ctx.registry;
            let mut reported = false;
            match reg.basic_type_by_parsed_type(&var.var_type) {
                Some(ty) => {
                    if ty.name.eq(&upload) {
                        let mut positions: Vec<crate::ast::Pos> = Vec::new();
                        positions.push(var.position);
                        ctx.report_error(
                            positions,
                            "The Upload type is only allowed to be defined on a mutation",
                        );
                        reported = true;
                        proof {
                            assert(is_upload_variable(types, seen1.last()));
                            assert(error_views(ctx.errors@) =~= error_views(old(ctx).errors@)
                                + upload_var_errors(types, seen1));
                        }
                    }
                },
                None => {
                },
            }
            if !reported {
                proof {
                    assert(!is_upload_variable(types, seen1.last()));
                    assert(upload_var_errors(types, seen1) =~= upload_var_errors(types, seen));
                    assert(error_views(ctx.errors@) =~= error_views(old(ctx).errors@)
                        + upload_var_errors(types, seen1));
                }
            }
            v = v + 1;
        }
        proof {
            assert(op.variable_definitions@.subrange(0, op.variable_definitions@.len() as int)
                =~= op.variable_definitions@);
        }
    }
}

impl Visitor for UploadFile {
    open spec fn quiet(&self) -> bool {
        true
    }

    open spec fn op_contribution(&self, types: Seq<TypeDef>, op: Operation) -> Seq<
        ValidationErrorV,
    > {
        upload_operation_errors(types, op)
    }

    /// The hook the traversal calls. Its contract refines the trait's
    /// append-only clause to the rule's full behaviour: exactly
    /// `upload_operation_errors` is appended - so a query with an upload
    /// variable gains its one positioned error here, and a mutation, a
    /// subscription, or an undeclared type name leaves the context's
    /// errors untouched.
    fn enter_operation_definition(&mut self, ctx: &mut ValidatorContext, op: &Operation)
        ensures
            error_views(final(ctx).errors@) == error_views(old(ctx).errors@)
                + upload_operation_errors(old(ctx).registry.types@, *op),
    {
        UploadFile::check_operation(ctx, op);
        proof {
            let pre = error_views(old(ctx).errors@);
            let post = error_views(ctx.errors@);
            assert(pre =~= post.subrange(0, pre.len() as int));
        }
    }
}

/// LAW: the rule never reports anything for a mutation (or subscription):
/// a document re-typed from `query` to `mutation` validates cleanly as far
/// as this rule is concerned.
pub proof fn lemma_upload_rule_spares_mutation(types: Seq<TypeDef>, op: Operation)
    requires
        op.kind != OperationKind::Query,
    ensures
        upload_operation_errors(types, op) == Seq::<ValidationErrorV>::empty(),
{
}

/// Helper: a variable list without offending variables yields no errors.
pub proof fn lemma_upload_var_errors_none(types: Seq<TypeDef>, vars: Seq<VariableDefinition>)
    requires
        forall|j: int| 0 <= j < vars.len() ==> !is_upload_variable(types, #[trigger] vars[j]),
    ensures
        upload_var_errors(types, vars) == Seq::<ValidationErrorV>::empty(),
    decreases vars,
{
    if vars.len() > 0 {
        lemma_upload_var_errors_none(types, vars.drop_last());
        assert(upload_var_errors(types, vars) =~= Seq::<ValidationErrorV>::empty());
    }
}

/// LAW: on a query operation declaring exactly one upload-typed variable,
/// the rule reports exactly one error, carrying the fixed message and
/// positioned at that variable's declaration.
pub proof fn lemma_upload_rule_flags_query_variable(types: Seq<TypeDef>, op: Operation, k: int)
    requires
        op.kind == OperationKind::Query,
        0 <= k < op.variable_definitions@.len(),
        is_upload_variable(types, op.variable_definitions@[k]),
        forall|j: int|
            0 <= j < op.variable_definitions@.len() && j != k ==> !is_upload_variable(
                types,
                #[trigger] op.variable_definitions@[j],
            ),
    ensures
        upload_operation_errors(types, op) == seq![upload_error(op.variable_definitions@[k])],
{
    lemma_upload_var_errors_single(types, op.variable_definitions@, k);
}

/// Helper for the law above, by induction over the variable list.
proof fn lemma_upload_var_errors_single(types: Seq<TypeDef>, vars: Seq<VariableDefinition>, k: int)
    requires
        0 <= k < vars.len(),
        is_upload_variable(types, vars[k]),
        forall|j: int|
            0 <= j < vars.len() && j != k ==> !is_upload_variable(types, #[trigger] vars[j]),
    ensures
        upload_var_errors(types, vars) == seq![upload_error(vars[k])],
    decreases vars,
{
    if k == vars.len() - 1 {
        lemma_upload_var_errors_none(types, vars.drop_last());
        assert(upload_var_errors(types, vars) =~= seq![upload_error(vars[k])]);
    } else {
        lemma_upload_var_errors_single(types, vars.drop_last(), k);
        assert(vars.drop_last()[k] == vars[k]);
        assert(!is_upload_variable(types, vars.last()));
        assert(upload_var_errors(types, vars) =~= seq![upload_error(vars[k])]);
    }
}

/// LAW: the rule is deterministic and order-stable. Its error sequence is
/// a function of the registry's types and the operation's kind and
/// variable list alone: two logically identical operations get identical
/// error sequences.
pub proof fn lemma_upload_rule_deterministic(types: Seq<TypeDef>, a: Operation, b: Operation)
    requires
        a.kind == b.kind,
        a.variable_definitions@ == b.variable_definitions@,
    ensures
        upload_operation_errors(types, a) == upload_operation_errors(types, b),
{
}

} // verus!
