//! The AST visitor framework: a trait with one enter/leave hook pair per
//! node kind, a composite that runs an ordered sequence of rules as one
//! visitor, and the traversal that walks a document depth-first, expanding
//! fragment spreads with cycle detection.
//!
//! Every hook, and the traversal as a whole, may only extend the context:
//! errors are append-only, and the registry handle and fragment table are
//! left as they were. For quiet rules - rules whose only reports happen on
//! entering operation definitions, which every shipped rule is - the
//! accounting is exact: a completed pass appends precisely the
//! concatenation of the rules' per-operation contributions, in document
//! order. The traversal always terminates; a fragment spread chain that
//! revisits a fragment under expansion aborts the pass with a
//! [`FragmentCycle`] instead of recursing forever. That a reported cycle
//! names a declared fragment, and that a spread-free document never
//! aborts, stand in the contracts; that every reachable cycle is caught
//! stands in the code and its tests, not yet in a contract.

use vstd::prelude::*;
use crate::ast::Argument;
use crate::ast::Directive;
use crate::ast::Document;
use crate::ast::Field;
use crate::ast::FragmentDefinition;
use crate::ast::Operation;
use crate::ast::Pos;
use crate::ast::Selection;
use crate::ast::VariableDefinition;
use crate::ast::lemma_no_spread_index;
use crate::ast::lemma_selections_size_index;
use crate::ast::selection_has_spread;
use crate::ast::selections_have_spread;
use crate::ast::selection_size;
use crate::ast::selections_size;
use crate::context::ValidationErrorV;
use crate::context::ValidatorContext;
use crate::registry::TypeDef;
use crate::context::error_views;
use crate::context::lookup_fragment;
use crate::context::lemma_lookup_fragment;

verus! {

/// A fragment spread chain revisited a fragment that was still being
/// expanded: the one failure that aborts a validation pass.
#[derive(Debug)]
pub struct FragmentCycle {
    pub name: String,
    pub position: Pos,
}

/// `post` is `pre` with zero or more errors appended; everything else of
/// the context is untouched.
pub open spec fn ctx_extends(post: ValidatorContext, pre: ValidatorContext) -> bool {
    &&& error_views(pre.errors@).is_prefix_of(error_views(post.errors@))
    &&& post.registry == pre.registry
    &&& post.fragments == pre.fragments
}

/// Extension of a context is transitive.
pub proof fn lemma_extends_trans(a: ValidatorContext, b: ValidatorContext, c: ValidatorContext)
    requires
        ctx_extends(b, a),
        ctx_extends(c, b),
    ensures
        ctx_extends(c, a),
{
    let ea = error_views(a.errors@);
    let eb = error_views(b.errors@);
    let ec = error_views(c.errors@);
    assert forall|i: int| 0 <= i < ea.len() implies ea[i] == ec.subrange(0, ea.len() as int)[i] by {
        assert(ea[i] == eb.subrange(0, ea.len() as int)[i]);
        assert(eb[i] == ec.subrange(0, eb.len() as int)[i]);
    }
    assert(ea =~= ec.subrange(0, ea.len() as int));
}

/// One validation rule: typed callbacks over the node kinds of a document,
/// each a no-op unless the rule overrides it. A hook may report errors
/// through the context and may update the rule's own state, and nothing
/// else.
///
/// A rule whose `quiet` spec holds owes more: it keeps its own state, its
/// only reports happen on entering an operation definition, and there it
/// appends exactly `op_contribution`. Every shipped rule is quiet, which
/// is what lets a whole pass carry an exact error count; a rule reporting
/// at other nodes declares `quiet` false and keeps the append-only
/// guarantee alone.
pub trait Visitor: Sized {
    /// Whether this rule reports only on entering operation definitions,
    /// exactly as `op_contribution` says, leaving its own state alone.
    spec fn quiet(&self) -> bool;

    /// The errors this rule appends on entering one operation definition,
    /// binding when `quiet` holds.
    spec fn op_contribution(&self, types: Seq<TypeDef>, op: Operation) -> Seq<ValidationErrorV>;

    fn enter_document(&mut self, ctx: &mut ValidatorContext, doc: &Document)
        ensures
            ctx_extends(*final(ctx), *old(ctx)),
            old(self).quiet() ==> *final(ctx) == *old(ctx) && *final(self) == *old(self),
    {
    }

    fn leave_document(&mut self, ctx: &mut ValidatorContext, doc: &Document)
        ensures
            ctx_extends(*final(ctx), *old(ctx)),
            old(self).quiet() ==> *final(ctx) == *old(ctx) && *final(self) == *old(self),
    {
    }

    fn enter_operation_definition(&mut self, ctx: &mut ValidatorContext, op: &Operation)
        ensures
            ctx_extends(*final(ctx), *old(ctx)),
            old(self).quiet() ==> *final(self) == *old(self) && final(ctx).registry == old(
                ctx,
            ).registry && final(ctx).fragments == old(ctx).fragments && error_views(
                final(ctx).errors@,
            ) == error_views(old(ctx).errors@) + old(self).op_contribution(
                old(ctx).registry.types@,
                *op,
            ),
    ;

    fn leave_operation_definition(&mut self, ctx: &mut ValidatorContext, op: &Operation)
        ensures
            ctx_extends(*final(ctx), *old(ctx)),
            old(self).quiet() ==> *final(ctx) == *old(ctx) && *final(self) == *old(self),
    {
    }

    fn enter_fragment_definition(&mut self, ctx: &mut ValidatorContext, frag: &FragmentDefinition)
        ensures
            ctx_extends(*final(ctx), *old(ctx)),
            old(self).quiet() ==> *final(ctx) == *old(ctx) && *final(self) == *old(self),
    {
    }

    fn leave_fragment_definition(&mut self, ctx: &mut ValidatorContext, frag: &FragmentDefinition)
        ensures
            ctx_extends(*final(ctx), *old(ctx)),
            old(self).quiet() ==> *final(ctx) == *old(ctx) && *final(self) == *old(self),
    {
    }

    fn enter_variable_definition(&mut self, ctx: &mut ValidatorContext, var: &VariableDefinition)
        ensures
            ctx_extends(*final(ctx), *old(ctx)),
            old(self).quiet() ==> *final(ctx) == *old(ctx) && *final(self) == *old(self),
    {
    }

    fn leave_variable_definition(&mut self, ctx: &mut ValidatorContext, var: &VariableDefinition)
        ensures
            ctx_extends(*final(ctx), *old(ctx)),
            old(self).quiet() ==> *final(ctx) == *old(ctx) && *final(self) == *old(self),
    {
    }

    fn enter_directive(&mut self, ctx: &mut ValidatorContext, directive: &Directive)
        ensures
            ctx_extends(*final(ctx), *old(ctx)),
            old(self).quiet() ==> *final(ctx) == *old(ctx) && *final(self) == *old(self),
    {
    }

    fn leave_directive(&mut self, ctx: &mut ValidatorContext, directive: &Directive)
        ensures
            ctx_extends(*final(ctx), *old(ctx)),
            old(self).quiet() ==> *final(ctx) == *old(ctx) && *final(self) == *old(self),
    {
    }

    fn enter_argument(&mut self, ctx: &mut ValidatorContext, argument: &Argument)
        ensures
            ctx_extends(*final(ctx), *old(ctx)),
            old(self).quiet() ==> *final(ctx) == *old(ctx) && *final(self) == *old(self),
    {
    }

    fn leave_argument(&mut self, ctx: &mut ValidatorContext, argument: &Argument)
        ensures
            ctx_extends(*final(ctx), *old(ctx)),
            old(self).quiet() ==> *final(ctx) == *old(ctx) && *final(self) == *old(self),
    {
    }

    fn enter_field(&mut self, ctx: &mut ValidatorContext, field: &Field)
        ensures
            ctx_extends(*final(ctx), *old(ctx)),
            old(self).quiet() ==> *final(ctx) == *old(ctx) && *final(self) == *old(self),
    {
    }

    fn leave_field(&mut self, ctx: &mut ValidatorContext, field: &Field)
        ensures
            ctx_extends(*final(ctx), *old(ctx)),
            old(self).quiet() ==> *final(ctx) == *old(ctx) && *final(self) == *old(self),
    {
    }
}

/// The empty rule list: every hook leaves the context exactly as it was.
pub struct RuleNil;

impl Visitor for RuleNil {
    open spec fn quiet(&self) -> bool {
        true
    }

    open spec fn op_contribution(&self, types: Seq<TypeDef>, op: Operation) -> Seq<
        ValidationErrorV,
    > {
        Seq::empty()
    }

    fn enter_document(&mut self, ctx: &mut ValidatorContext, doc: &Document)
        ensures
            *final(ctx) == *old(ctx),
    {
    }

    fn leave_document(&mut self, ctx: &mut ValidatorContext, doc: &Document)
        ensures
            *final(ctx) == *old(ctx),
    {
    }

    fn enter_operation_definition(&mut self, ctx: &mut ValidatorContext, op: &Operation)
        ensures
            *final(ctx) == *old(ctx),
    {
        proof {
            assert(error_views(ctx.errors@) =~= error_views(ctx.errors@) + Seq::<
                ValidationErrorV,
            >::empty());
        }
    }

    fn leave_operation_definition(&mut self, ctx: &mut ValidatorContext, op: &Operation)
        ensures
            *final(ctx) == *old(ctx),
    {
    }

    fn enter_fragment_definition(&mut self, ctx: &mut ValidatorContext, frag: &FragmentDefinition)
        ensures
            *final(ctx) == *old(ctx),
    {
    }

    fn leave_fragment_definition(&mut self, ctx: &mut ValidatorContext, frag: &FragmentDefinition)
        ensures
            *final(ctx) == *old(ctx),
    {
    }

    fn enter_variable_definition(&mut self, ctx: &mut ValidatorContext, var: &VariableDefinition)
        ensures
            *final(ctx) == *old(ctx),
    {
    }

    fn leave_variable_definition(&mut self, ctx: &mut ValidatorContext, var: &VariableDefinition)
        ensures
            *final(ctx) == *old(ctx),
    {
    }

    fn enter_directive(&mut self, ctx: &mut ValidatorContext, directive: &Directive)
        ensures
            *final(ctx) == *old(ctx),
    {
    }

    fn leave_directive(&mut self, ctx: &mut ValidatorContext, directive: &Directive)
        ensures
            *final(ctx) == *old(ctx),
    {
    }

    fn enter_argument(&mut self, ctx: &mut ValidatorContext, argument: &Argument)
        ensures
            *final(ctx) == *old(ctx),
    {
    }

    fn leave_argument(&mut self, ctx: &mut ValidatorContext, argument: &Argument)
        ensures
            *final(ctx) == *old(ctx),
    {
    }

    fn enter_field(&mut self, ctx: &mut ValidatorContext, field: &Field)
        ensures
            *final(ctx) == *old(ctx),
    {
    }

    fn leave_field(&mut self, ctx: &mut ValidatorContext, field: &Field)
        ensures
            *final(ctx) == *old(ctx),
    {
    }
}

/// An ordered pair of rules run as one visitor: on entering a node the
/// first rule's hook runs before the rest's, on leaving the rest's hooks
/// run before the first's - the stack discipline of a composite. Chaining
/// pairs, ending in [`RuleNil`], gives an arbitrary ordered rule list.
pub struct RulePair<A: Visitor, B: Visitor> {
    pub first: A,
    pub rest: B,
}

impl<A: Visitor, B: Visitor> Visitor for RulePair<A, B> {
    open spec fn quiet(&self) -> bool {
        self.first.quiet() && self.rest.quiet()
    }

    open spec fn op_contribution(&self, types: Seq<TypeDef>, op: Operation) -> Seq<
        ValidationErrorV,
    > {
        self.first.op_contribution(types, op) + self.rest.op_contribution(types, op)
    }

    fn enter_document(&mut self, ctx: &mut ValidatorContext, doc: &Document) {
        let ghost pre = *ctx;
        self.first.enter_document(ctx, doc);
        let ghost mid = *ctx;
        self.rest.enter_document(ctx, doc);
        proof {
            lemma_extends_trans(pre, mid, *ctx);
        }
    }

    fn leave_document(&mut self, ctx: &mut ValidatorContext, doc: &Document) {
        let ghost pre = *ctx;
        self.rest.leave_document(ctx, doc);
        let ghost mid = *ctx;
        self.first.leave_document(ctx, doc);
        proof {
            lemma_extends_trans(pre, mid, *ctx);
        }
    }

    fn enter_operation_definition(&mut self, ctx: &mut ValidatorContext, op: &Operation) {
        let ghost pre = *ctx;
        self.first.enter_operation_definition(ctx, op);
        let ghost mid = *ctx;
        self.rest.enter_operation_definition(ctx, op);
        proof {
            lemma_extends_trans(pre, mid, *ctx);
            if old(self).quiet() {
                assert(error_views(ctx.errors@) =~= error_views(pre.errors@) + old(
                    self,
                ).op_contribution(pre.registry.types@, *op));
            }
        }
    }

    fn leave_operation_definition(&mut self, ctx: &mut ValidatorContext, op: &Operation) {
        let ghost pre = *ctx;
        self.rest.leave_operation_definition(ctx, op);
        let ghost mid = *ctx;
        self.first.leave_operation_definition(ctx, op);
        proof {
            lemma_extends_trans(pre, mid, *ctx);
        }
    }

    fn enter_fragment_definition(
        &mut self,
        ctx: &mut ValidatorContext,
        frag: &FragmentDefinition,
    ) {
        let ghost pre = *ctx;
        self.first.enter_fragment_definition(ctx, frag);
        let ghost mid = *ctx;
        self.rest.enter_fragment_definition(ctx, frag);
        proof {
            lemma_extends_trans(pre, mid, *ctx);
        }
    }

    fn leave_fragment_definition(
        &mut self,
        ctx: &mut ValidatorContext,
        frag: &FragmentDefinition,
    ) {
        let ghost pre = *ctx;
        self.rest.leave_fragment_definition(ctx, frag);
        let ghost mid = *ctx;
        self.first.leave_fragment_definition(ctx, frag);
        proof {
            lemma_extends_trans(pre, mid, *ctx);
        }
    }

    fn enter_variable_definition(&mut self, ctx: &mut ValidatorContext, var: &VariableDefinition) {
        let ghost pre = *ctx;
        self.first.enter_variable_definition(ctx, var);
        let ghost mid = *ctx;
        self.rest.enter_variable_definition(ctx, var);
        proof {
            lemma_extends_trans(pre, mid, *ctx);
        }
    }

    fn leave_variable_definition(&mut self, ctx: &mut ValidatorContext, var: &VariableDefinition) {
        let ghost pre = *ctx;
        self.rest.leave_variable_definition(ctx, var);
        let ghost mid = *ctx;
        self.first.leave_variable_definition(ctx, var);
        proof {
            lemma_extends_trans(pre, mid, *ctx);
        }
    }

    fn enter_directive(&mut self, ctx: &mut ValidatorContext, directive: &Directive) {
        let ghost pre = *ctx;
        self.first.enter_directive(ctx, directive);
        let ghost mid = *ctx;
        self.rest.enter_directive(ctx, directive);
        proof {
            lemma_extends_trans(pre, mid, *ctx);
        }
    }

    fn leave_directive(&mut self, ctx: &mut ValidatorContext, directive: &Directive) {
        let ghost pre = *ctx;
        self.rest.leave_directive(ctx, directive);
        let ghost mid = *ctx;
        self.first.leave_directive(ctx, directive);
        proof {
            lemma_extends_trans(pre, mid, *ctx);
        }
    }

    fn enter_argument(&mut self, ctx: &mut ValidatorContext, argument: &Argument) {
        let ghost pre = *ctx;
        self.first.enter_argument(ctx, argument);
        let ghost mid = *ctx;
        self.rest.enter_argument(ctx, argument);
        proof {
            lemma_extends_trans(pre, mid, *ctx);
        }
    }

    fn leave_argument(&mut self, ctx: &mut ValidatorContext, argument: &Argument) {
        let ghost pre = *ctx;
        self.rest.leave_argument(ctx, argument);
        let ghost mid = *ctx;
        self.first.leave_argument(ctx, argument);
        proof {
            lemma_extends_trans(pre, mid, *ctx);
        }
    }

    fn enter_field(&mut self, ctx: &mut ValidatorContext, field: &Field) {
        let ghost pre = *ctx;
        self.first.enter_field(ctx, field);
        let ghost mid = *ctx;
        self.rest.enter_field(ctx, field);
        proof {
            lemma_extends_trans(pre, mid, *ctx);
        }
    }

    fn leave_field(&mut self, ctx: &mut ValidatorContext, field: &Field) {
        let ghost pre = *ctx;
        self.rest.leave_field(ctx, field);
        let ghost mid = *ctx;
        self.first.leave_field(ctx, field);
        proof {
            lemma_extends_trans(pre, mid, *ctx);
        }
    }
}

/// The concatenated operation-enter contributions of a rule over a list
/// of operations, in document order.
pub open spec fn op_contributions<V: Visitor>(
    v: V,
    types: Seq<TypeDef>,
    ops: Seq<Operation>,
) -> Seq<ValidationErrorV>
    decreases ops,
{
    if ops.len() == 0 {
        Seq::empty()
    } else {
        op_contributions(v, types, ops.drop_last()) + v.op_contribution(types, ops.last())
    }
}

/// Names of the fragments a document declares.
pub open spec fn fragment_names(doc: Document) -> Set<Seq<char>> {
    doc.fragments@.map_values(|f: FragmentDefinition| f.name@).to_set()
}

/// Names currently under expansion.
pub open spec fn expanding_names(ex: Seq<String>) -> Set<Seq<char>> {
    ex.map_values(|s: String| s@).to_set()
}

/// The termination measure of fragment expansion: how many declared
/// fragments are not yet being expanded.
pub open spec fn frag_measure(doc: Document, ex: Seq<String>) -> nat {
    fragment_names(doc).difference(expanding_names(ex)).len()
}

/// The context's fragment table is the one built from the document.
pub open spec fn fragments_match(ctx: ValidatorContext, doc: Document) -> bool {
    &&& ctx.fragments@.len() == doc.fragments@.len()
    &&& forall|i: int|
        0 <= i < doc.fragments@.len() ==> #[trigger] ctx.fragments@[i].0@
            == doc.fragments@[i].name@ && ctx.fragments@[i].1 == i
}

/// Pushing a declared fragment name that is not yet under expansion
/// strictly shrinks the measure.
proof fn lemma_expand_decreases(doc: Document, ex: Seq<String>, s: String)
    requires
        fragment_names(doc).contains(s@),
        !expanding_names(ex).contains(s@),
    ensures
        frag_measure(doc, ex.push(s)) < frag_measure(doc, ex),
{
    broadcast use vstd::seq_lib::seq_to_set_is_finite;
    broadcast use vstd::set::axiom_set_difference_finite;
    broadcast use vstd::set::axiom_set_remove_len;

    let names = fragment_names(doc);
    let before = names.difference(expanding_names(ex));
    let after = names.difference(expanding_names(ex.push(s)));
    assert(ex.push(s).map_values(|t: String| t@) =~= ex.map_values(|t: String| t@).push(s@));
    ex.map_values(|t: String| t@).lemma_push_to_set_commute(s@);
    assert(expanding_names(ex.push(s)) == expanding_names(ex).insert(s@));
    assert(after =~= before.remove(s@));
    assert(before.contains(s@));
    assert(names.finite());
    assert(before.finite());
    assert(after.len() == before.len() - 1);
}

/// Whether the given name is among the names under expansion.
fn expanding_contains(ex: &Vec<String>, name: &String) -> (r: bool)
    ensures
        r == expanding_names(ex@).contains(name@),
{
    let mut k: usize = 0;
    while k < ex.len()
        invariant
            0 <= k <= ex@.len(),
            forall|j: int| 0 <= j < k ==> #[trigger] ex@[j]@ != name@,
        decreases ex@.len() - k,
    {
        if ex[k].eq(name) {
            proof {
                assert(ex@.map_values(|t: String| t@)[k as int] == name@);
            }
            return true;
        }
        k = k + 1;
    }
    proof {
        let mapped = ex@.map_values(|t: String| t@);
        assert forall|i: int| 0 <= i < mapped.len() implies mapped[i] != name@ by {
            assert(ex@[i]@ != name@);
        }
        assert(!mapped.contains(name@));
    }
    false
}

/// Runs the enter and leave hooks over every directive of a list, and over
/// each directive's arguments, in document order.
pub fn visit_directives<V: Visitor>(
    rules: &mut V,
    ctx: &mut ValidatorContext,
    directives: &Vec<Directive>,
)
    ensures
        ctx_extends(*final(ctx), *old(ctx)),
        old(rules).quiet() ==> *final(rules) == *old(rules) && *final(ctx) == *old(ctx),
{
    let mut k: usize = 0;
    while k < directives.len()
        invariant
            ctx_extends(*ctx, *old(ctx)),
            old(rules).quiet() ==> *rules == *old(rules) && *ctx == *old(ctx),
        decreases directives@.len() - k,
    {
        let ghost pre = *ctx;
        let d = &directives[k];
        rules.enter_directive(ctx, d);
        let mut a: usize = 0;
        while a < d.arguments.len()
            invariant
                ctx_extends(*ctx, pre),
                old(rules).quiet() ==> *rules == *old(rules) && *ctx == *old(ctx),
            decreases d.arguments@.len() - a,
        {
            let ghost p0 = *ctx;
            rules.enter_argument(ctx, &d.arguments[a]);
            let ghost p1 = *ctx;
            rules.leave_argument(ctx, &d.arguments[a]);
            proof {
                lemma_extends_trans(p0, p1, *ctx);
                lemma_extends_trans(pre, p0, *ctx);
            }
            a = a + 1;
        }
        let ghost p2 = *ctx;
        rules.leave_directive(ctx, d);
        proof {
            lemma_extends_trans(pre, p2, *ctx);
            lemma_extends_trans(*old(ctx), pre, *ctx);
        }
        k = k + 1;
    }
}

/// Walks one selection. Fragment spreads are expanded into the named
/// fragment's selection set; a spread of a fragment already under
/// expansion aborts with a [`FragmentCycle`].
fn visit_selection<V: Visitor>(
    rules: &mut V,
    ctx: &mut ValidatorContext,
    doc: &Document,
    s: &Selection,
    expanding: &mut Vec<String>,
) -> (r: Result<(), FragmentCycle>)
    requires
        fragments_match(*old(ctx), *doc),
    ensures
        ctx_extends(*final(ctx), *old(ctx)),
        fragments_match(*final(ctx), *doc),
        final(expanding)@ == old(expanding)@,
        r matches Err(e) ==> fragment_names(*doc).contains(e.name@),
        !selection_has_spread(*s) ==> r is Ok,
        old(rules).quiet() ==> *final(rules) == *old(rules) && *final(ctx) == *old(ctx),
    decreases frag_measure(*doc, old(expanding)@), selection_size(*s), 0nat,
{
    match s {
        Selection::Field(f) => {
            let ghost p0 = *ctx;
            rules.enter_field(ctx, f);
            let mut a: usize = 0;
            while a < f.arguments.len()
                invariant
                    ctx_extends(*ctx, p0),
                    fragments_match(*ctx, *doc),
                    old(rules).quiet() ==> *rules == *old(rules) && *ctx == *old(ctx),
                decreases f.arguments@.len() - a,
            {
                let ghost q0 = *ctx;
                rules.enter_argument(ctx, &f.arguments[a]);
                let ghost q1 = *ctx;
                rules.leave_argument(ctx, &f.arguments[a]);
                proof {
                    lemma_extends_trans(q0, q1, *ctx);
                    lemma_extends_trans(p0, q0, *ctx);
                }
                a = a + 1;
            }
            let ghost p1 = *ctx;
            visit_directives(rules, ctx, &f.directives);
            let ghost p2 = *ctx;
            let res = visit_selections(rules, ctx, doc, &f.selection_set, 0, expanding);
            let ghost p3 = *ctx;
            proof {
                lemma_extends_trans(p1, p2, p3);
                lemma_extends_trans(p0, p1, p3);
            }
            match res {
                Err(e) => Err(e),
                Ok(()) => {
                    rules.leave_field(ctx, f);
                    proof {
                        lemma_extends_trans(p0, p3, *ctx);
                    }
                    Ok(())
                },
            }
        },
        Selection::InlineFragment { selection_set, directives, .. } => {
            let ghost p0 = *ctx;
            visit_directives(rules, ctx, directives);
            let ghost p1 = *ctx;
            let res = visit_selections(rules, ctx, doc, selection_set, 0, expanding);
            proof {
                lemma_extends_trans(p0, p1, *ctx);
            }
            res
        },
        Selection::FragmentSpread { name, directives, position } => {
            let ghost p0 = *ctx;
            visit_directives(rules, ctx, directives);
            let ghost p1 = *ctx;
            match ctx.fragment_index(name) {
                None => {
                    proof {
                        lemma_extends_trans(p0, p1, *ctx);
                    }
                    Ok(())
                },
                Some(idx) => {
                    proof {
                        lemma_lookup_fragment(ctx.fragments@, name@);
                        assert(idx < doc.fragments@.len());
                        assert(doc.fragments@[idx as int].name@ == name@);
                    }
                    if expanding_contains(expanding, name) {
                        proof {
                            let mapped = doc.fragments@.map_values(
                                |f: FragmentDefinition| f.name@,
                            );
                            assert(mapped.contains(name@)) by {
                                assert(mapped[idx as int] == name@);
                            }
                        }
                        return Err(FragmentCycle { name: name.clone(), position: *position });
                    }
                    proof {
                        let mapped = doc.fragments@.map_values(|f: FragmentDefinition| f.name@);
                        assert(mapped[idx as int] == name@);
                        lemma_expand_decreases(*doc, expanding@, *name);
                    }
                    let ghost ex0 = expanding@;
                    expanding.push(name.clone());
                    proof {
                        assert(expanding@ =~= ex0.push(*name));
                        assert(frag_measure(*doc, expanding@) < frag_measure(*doc, ex0));
                    }
                    let frag = &doc.fragments[idx];
                    let res = visit_selections(rules, ctx, doc, &frag.selection_set, 0, expanding);
                    expanding.pop();
                    proof {
                        assert(expanding@ =~= ex0);
                        lemma_extends_trans(p0, p1, *ctx);
                    }
                    res
                },
            }
        },
    }
}

/// Walks the selections of a sequence from position `i` on, in document
/// order.
fn visit_selections<V: Visitor>(
    rules: &mut V,
    ctx: &mut ValidatorContext,
    doc: &Document,
    sels: &Vec<Selection>,
    i: usize,
    expanding: &mut Vec<String>,
) -> (r: Result<(), FragmentCycle>)
    requires
        fragments_match(*old(ctx), *doc),
        i <= sels@.len(),
    ensures
        ctx_extends(*final(ctx), *old(ctx)),
        fragments_match(*final(ctx), *doc),
        final(expanding)@ == old(expanding)@,
        r matches Err(e) ==> fragment_names(*doc).contains(e.name@),
        !selections_have_spread(sels@) ==> r is Ok,
        old(rules).quiet() ==> *final(rules) == *old(rules) && *final(ctx) == *old(ctx),
    decreases frag_measure(*doc, old(expanding)@), selections_size(sels@), sels@.len() - i,
{
    if i == sels.len() {
        Ok(())
    } else {
        proof {
            lemma_selections_size_index(sels@, i as int);
            if !selections_have_spread(sels@) {
                lemma_no_spread_index(sels@, i as int);
            }
        }
        let res = visit_selection(rules, ctx, doc, &sels[i], expanding);
        match res {
            Err(e) => Err(e),
            Ok(()) => {
                let ghost p1 = *ctx;
                let res2 = visit_selections(rules, ctx, doc, sels, i + 1, expanding);
                proof {
                    lemma_extends_trans(*old(ctx), p1, *ctx);
                }
                res2
            },
        }
    }
}

/// Walks one operation: its variable definitions, then its directives,
/// then its root selection set.
fn visit_operation<V: Visitor>(
    rules: &mut V,
    ctx: &mut ValidatorContext,
    doc: &Document,
    op: &Operation,
) -> (r: Result<(), FragmentCycle>)
    requires
        fragments_match(*old(ctx), *doc),
    ensures
        ctx_extends(*final(ctx), *old(ctx)),
        fragments_match(*final(ctx), *doc),
        r matches Err(e) ==> fragment_names(*doc).contains(e.name@),
        !selections_have_spread(op.selection_set@) ==> r is Ok,
        old(rules).quiet() ==> *final(rules) == *old(rules) && final(ctx).registry == old(
            ctx,
        ).registry && final(ctx).fragments == old(ctx).fragments && error_views(
            final(ctx).errors@,
        ) == error_views(old(ctx).errors@) + old(rules).op_contribution(
            old(ctx).registry.types@,
            *op,
        ),
{
    let ghost p0 = *ctx;
    rules.enter_operation_definition(ctx, op);
    let ghost post_enter = *ctx;
    let ghost rules0 = *rules;
    let mut v: usize = 0;
    while v < op.variable_definitions.len()
        invariant
            ctx_extends(*ctx, p0),
            fragments_match(*ctx, *doc),
            old(rules).quiet() ==> *rules == rules0 && *ctx == post_enter && rules0 == *old(
                rules,
            ),
        decreases op.variable_definitions@.len() - v,
    {
        let ghost q0 = *ctx;
        rules.enter_variable_definition(ctx, &op.variable_definitions[v]);
        let ghost q1 = *ctx;
        rules.leave_variable_definition(ctx, &op.variable_definitions[v]);
        proof {
            lemma_extends_trans(q0, q1, *ctx);
            lemma_extends_trans(p0, q0, *ctx);
        }
        v = v + 1;
    }
    let ghost p1 = *ctx;
    visit_directives(rules, ctx, &op.directives);
    let ghost p2 = *ctx;
    let mut expanding: Vec<String> = Vec::new();
    let res = visit_selections(rules, ctx, doc, &op.selection_set, 0, &mut expanding);
    let ghost p3 = *ctx;
    proof {
        lemma_extends_trans(p1, p2, p3);
        lemma_extends_trans(p0, p1, p3);
    }
    match res {
        Err(e) => Err(e),
        Ok(()) => {
            rules.leave_operation_definition(ctx, op);
            proof {
                lemma_extends_trans(p0, p3, *ctx);
            }
            Ok(())
        },
    }
}

/// No selection of any operation or fragment of the document spreads a
/// fragment.
pub open spec fn document_spread_free(doc: Document) -> bool {
    &&& forall|i: int|
        0 <= i < doc.operations@.len() ==> !selections_have_spread(
            #[trigger] doc.operations@[i].selection_set@,
        )
    &&& forall|i: int|
        0 <= i < doc.fragments@.len() ==> !selections_have_spread(
            #[trigger] doc.fragments@[i].selection_set@,
        )
}

/// Walks a whole document: every operation, then every fragment
/// definition, running every hook of the given rules. The context's
/// fragment table must be the one built from this document (as
/// [`ValidatorContext::new`] builds it). Errors reported by rules
/// accumulate in the context; the traversal itself fails only on a
/// fragment spread cycle, and always terminates.
pub fn visit_document<V: Visitor>(
    rules: &mut V,
    ctx: &mut ValidatorContext,
    doc: &Document,
) -> (r: Result<(), FragmentCycle>)
    requires
        fragments_match(*old(ctx), *doc),
    ensures
        ctx_extends(*final(ctx), *old(ctx)),
        fragments_match(*final(ctx), *doc),
        r matches Err(e) ==> fragment_names(*doc).contains(e.name@),
        document_spread_free(*doc) ==> r is Ok,
        old(rules).quiet() ==> *final(rules) == *old(rules) && (r is Ok ==> error_views(
            final(ctx).errors@,
        ) == error_views(old(ctx).errors@) + op_contributions(
            *old(rules),
            old(ctx).registry.types@,
            doc.operations@,
        )),
{
    let ghost types = old(ctx).registry.types@;
    rules.enter_document(ctx, doc);
    proof {
        if old(rules).quiet() {
            assert(error_views(ctx.errors@) =~= error_views(old(ctx).errors@)
                + op_contributions(*old(rules), types, doc.operations@.subrange(0, 0)));
        }
    }
    let mut k: usize = 0;
    while k < doc.operations.len()
        invariant
            ctx_extends(*ctx, *old(ctx)),
            fragments_match(*ctx, *doc),
            0 <= k <= doc.operations@.len(),
            types == old(ctx).registry.types@,
            old(rules).quiet() ==> *rules == *old(rules) && ctx.registry == old(ctx).registry
                && error_views(ctx.errors@) == error_views(old(ctx).errors@) + op_contributions(
                *old(rules),
                types,
                doc.operations@.subrange(0, k as int),
            ),
        decreases doc.operations@.len() - k,
    {
        let ghost q0 = *ctx;
        let ghost seen = doc.operations@.subrange(0, k as int);
        let ghost seen1 = doc.operations@.subrange(0, k as int + 1);
        let res = visit_operation(rules, ctx, doc, &doc.operations[k]);
        proof {
            lemma_extends_trans(*old(ctx), q0, *ctx);
            if old(rules).quiet() {
                assert(seen1.drop_last() =~= seen);
                assert(seen1.last() == doc.operations@[k as int]);
                assert(error_views(ctx.errors@) =~= error_views(old(ctx).errors@)
                    + op_contributions(*old(rules), types, seen1));
            }
        }
        if let Err(e) = res {
            return Err(e);
        }
        k = k + 1;
    }
    proof {
        assert(doc.operations@.subrange(0, doc.operations@.len() as int) =~= doc.operations@);
    }
    let ghost post_ops = *ctx;
    let ghost rules1 = *rules;
    let mut f: usize = 0;
    while f < doc.fragments.len()
        invariant
            ctx_extends(*ctx, *old(ctx)),
            fragments_match(*ctx, *doc),
            old(rules).quiet() ==> *rules == rules1 && *ctx == post_ops && rules1 == *old(
                rules,
            ),
        decreases doc.fragments@.len() - f,
    {
        let ghost q0 = *ctx;
        let frag = &doc.fragments[f];
        rules.enter_fragment_definition(ctx, frag);
        let ghost q1 = *ctx;
        visit_directives(rules, ctx, &frag.directives);
        let ghost q2 = *ctx;
        let mut expanding: Vec<String> = Vec::new();
        expanding.push(frag.name.clone());
        let res = visit_selections(rules, ctx, doc, &frag.selection_set, 0, &mut expanding);
        let ghost q3 = *ctx;
        proof {
            lemma_extends_trans(q1, q2, q3);
            lemma_extends_trans(q0, q1, q3);
            lemma_extends_trans(*old(ctx), q0, q3);
        }
        match res {
            Err(e) => {
                return Err(e);
            },
            Ok(()) => {
                rules.leave_fragment_definition(ctx, frag);
                proof {
                    lemma_extends_trans(*old(ctx), q3, *ctx);
                }
            },
        }
        f = f + 1;
    }
    let ghost p9 = *ctx;
    rules.leave_document(ctx, doc);
    proof {
        lemma_extends_trans(*old(ctx), p9, *ctx);
    }
    Ok(())
}

} // verus!
