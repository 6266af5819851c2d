//! The query builder and the validation-to-execution pipeline: wraps one
//! extracted request, lets the caller configure per-request options, runs
//! every validation rule over the parsed document, selects the operation
//! to execute, and hands a prepared query to the host's execution engine.

use vstd::prelude::*;
use crate::ast::Document;
use crate::ast::Operation;
use crate::context::ValidationError;
use crate::context::ValidationErrorV;
use crate::context::ValidatorContext;
use crate::extract::QueryRequest;
use crate::extract::UploadedFile;
use crate::json::JsonValue;
use crate::registry::Registry;
use crate::registry::TypeDef;
use crate::rules::upload_file::UploadFile;
use crate::visitor::FragmentCycle;
use crate::visitor::RuleNil;
use crate::visitor::RulePair;
use crate::visitor::Visitor;
use crate::visitor::fragments_match;
use crate::visitor::op_contributions;
use crate::visitor::visit_document;

verus! {

/// Why preparation failed. Every failure maps to an HTTP 400.
#[derive(Debug)]
pub enum PrepareError {
    /// One or more validation rules reported errors; all of them are
    /// here, in report order.
    ValidationFailed(Vec<ValidationError>),
    /// A fragment spread cycle aborted the validation pass.
    CyclicFragment(FragmentCycle),
    /// The named operation is not in the document, or no operation is.
    OperationNotFound,
    /// No name was given and the document holds several operations.
    AmbiguousOperation,
}

/// The default rule set: every shipped validation rule, in a fixed
/// order. Hosts chain further [`RulePair`]s around it to extend the set.
/// It is quiet, and its whole contribution per operation is the upload
/// rule's: that ties a full default pass to `upload_operation_errors`.
pub fn default_rules() -> (r: RulePair<UploadFile, RuleNil>)
    ensures
        r.quiet(),
        forall|types: Seq<TypeDef>, op: Operation| #[trigger] r.op_contribution(types, op)
            == crate::rules::upload_file::upload_operation_errors(types, op),
{
    let r = RulePair { first: UploadFile, rest: RuleNil };
    proof {
        assert forall|types: Seq<TypeDef>, op: Operation| #[trigger] r.op_contribution(types, op)
            == crate::rules::upload_file::upload_operation_errors(types, op) by {
            assert(r.op_contribution(types, op)
                =~= crate::rules::upload_file::upload_operation_errors(types, op));
        }
    }
    r
}

/// Runs one full validation pass: builds a fresh context over the
/// registry, collects the document's fragments, and walks the document
/// through the given rules. Yields the accumulated rule errors - empty
/// means the document passed - or the fragment cycle that aborted the
/// pass. For quiet rules (the default set included) the payload is
/// exact: a completed pass yields precisely the concatenation of the
/// rules' per-operation contributions, in document order - a function of
/// the registry and document alone, so two passes over logically
/// identical inputs agree.
pub fn run_validation<V: Visitor>(registry: &Registry, doc: &Document, rules: &mut V) -> (r:
    Result<Vec<ValidationError>, FragmentCycle>)
    ensures
        r matches Err(c) ==> crate::visitor::fragment_names(*doc).contains(c.name@),
        crate::visitor::document_spread_free(*doc) ==> r is Ok,
        old(rules).quiet() ==> *final(rules) == *old(rules) && (r matches Ok(errs)
            ==> crate::context::error_views(errs@) == op_contributions(
            *old(rules),
            registry.types@,
            doc.operations@,
        )),
{
    let mut ctx = ValidatorContext::new(registry, doc);
    proof {
        assert(fragments_match(ctx, *doc));
        assert(crate::context::error_views(ctx.errors@) =~= Seq::<ValidationErrorV>::empty());
    }
    match visit_document(rules, &mut ctx, doc) {
        Ok(()) => {
            proof {
                if old(rules).quiet() {
                    assert(crate::context::error_views(ctx.errors@) =~= op_contributions(
                        *old(rules),
                        registry.types@,
                        doc.operations@,
                    ));
                }
            }
            Ok(ctx.errors)
        },
        Err(c) => Err(c),
    }
}

/// LAW (end to end): a default-rules pass over a document whose sole
/// operation is a query declaring exactly one upload-typed variable
/// reports exactly that variable's error - so, through `run_validation`
/// and `validation_error_response`, such a request is answered 400 with
/// one error at the variable's declared position.
pub proof fn lemma_default_pass_single_upload_error(
    types: Seq<TypeDef>,
    doc: Document,
    k: int,
)
    requires
        doc.operations@.len() == 1,
        doc.operations@[0].kind == crate::ast::OperationKind::Query,
        0 <= k < doc.operations@[0].variable_definitions@.len(),
        crate::rules::upload_file::is_upload_variable(
            types,
            doc.operations@[0].variable_definitions@[k],
        ),
        forall|j: int|
            0 <= j < doc.operations@[0].variable_definitions@.len() && j != k
                ==> !crate::rules::upload_file::is_upload_variable(
                types,
                #[trigger] doc.operations@[0].variable_definitions@[j],
            ),
    ensures
        op_contributions(
            RulePair { first: UploadFile, rest: RuleNil },
            types,
            doc.operations@,
        ) == seq![
            crate::rules::upload_file::upload_error(
                doc.operations@[0].variable_definitions@[k],
            ),
        ],
{
    let rules = RulePair { first: UploadFile, rest: RuleNil };
    let op = doc.operations@[0];
    crate::rules::upload_file::lemma_upload_rule_flags_query_variable(types, op, k);
    assert(doc.operations@.drop_last() =~= Seq::<Operation>::empty());
    assert(doc.operations@.last() == op);
    assert(op_contributions(rules, types, Seq::<Operation>::empty()) =~= Seq::<
        ValidationErrorV,
    >::empty());
    assert(rules.op_contribution(types, op) =~= seq![
        crate::rules::upload_file::upload_error(op.variable_definitions@[k]),
    ]);
    assert(op_contributions(rules, types, doc.operations@) =~= seq![
        crate::rules::upload_file::upload_error(op.variable_definitions@[k]),
    ]);
}

/// First operation carrying the given name, from position `k` on.
pub open spec fn spec_find_operation(ops: Seq<Operation>, k: int, name: Seq<char>) -> Option<int>
    decreases ops.len() - k,
{
    if k < 0 || k >= ops.len() {
        None
    } else if (match ops[k].name {
        Some(n) => n@ == name,
        None => false,
    }) {
        Some(k)
    } else {
        spec_find_operation(ops, k + 1, name)
    }
}

/// Which operation of the document runs: the named one where a name is
/// given; the only one where none is; an error otherwise.
pub open spec fn spec_select_operation(ops: Seq<Operation>, name: Option<Seq<char>>) -> Result<
    int,
    bool,
> {
    match name {
        Some(n) => match spec_find_operation(ops, 0, n) {
            Some(i) => Ok(i),
            None => Err(false),
        },
        None => if ops.len() == 1 {
            Ok(0)
        } else if ops.len() == 0 {
            Err(false)
        } else {
            Err(true)
        },
    }
}

/// Executable counterpart of `spec_find_operation`.
fn find_operation(ops: &Vec<Operation>, k: usize, name: &String) -> (r: Option<usize>)
    requires
        k <= ops@.len(),
    ensures
        match spec_find_operation(ops@, k as int, name@) {
            Some(i) => r matches Some(j) && j as int == i && i < ops@.len(),
            None => r is None,
        },
    decreases ops@.len() - k,
{
    if k == ops.len() {
        None
    } else {
        let hit = match &ops[k].name {
            Some(n) => n.eq(name),
            None => false,
        };
        if hit {
            Some(k)
        } else {
            find_operation(ops, k + 1, name)
        }
    }
}

/// A query ready for the execution engine: which operation of the
/// document runs, the resolved variables, the uploaded files, and the
/// caller's options.
pub struct PreparedQuery {
    pub operation_index: usize,
    pub variables: JsonValue,
    pub uploads: Vec<UploadedFile>,
    pub complexity_limit: Option<usize>,
    pub depth_limit: Option<usize>,
}

/// An in-flight query request plus caller-attached execution options.
/// Single-use: preparation consumes it.
pub struct QueryBuilder {
    pub request: QueryRequest,
    pub complexity_limit: Option<usize>,
    pub depth_limit: Option<usize>,
}

impl QueryBuilder {
    /// Wraps one extracted request, with no options set.
    pub fn new(request: QueryRequest) -> (r: QueryBuilder)
        ensures
            r.request == request,
            r.complexity_limit is None,
            r.depth_limit is None,
    {
        QueryBuilder { request, complexity_limit: None, depth_limit: None }
    }

    /// Caps the complexity of the query this builder may execute.
    pub fn with_complexity_limit(self, n: usize) -> (r: QueryBuilder)
        ensures
            r.request == self.request,
            r.complexity_limit == Some(n),
            r.depth_limit == self.depth_limit,
    {
        QueryBuilder { complexity_limit: Some(n), ..self }
    }

    /// Caps the selection depth of the query this builder may execute.
    pub fn with_depth_limit(self, n: usize) -> (r: QueryBuilder)
        ensures
            r.request == self.request,
            r.complexity_limit == self.complexity_limit,
            r.depth_limit == Some(n),
    {
        QueryBuilder { depth_limit: Some(n), ..self }
    }

    /// The caller's one configuration hook: hands the builder through the
    /// given closure before execution.
    pub fn configure<F: FnOnce(QueryBuilder) -> QueryBuilder>(self, f: F) -> (r: QueryBuilder)
        requires
            call_requires(f, (self,)),
        ensures
            call_ensures(f, (self,), r),
    {
        f(self)
    }

    /// Consumes the builder: runs the given validation rules over the
    /// parsed document against the registry, and selects the operation
    /// to execute. On success the prepared query carries the request's
    /// variables and uploads unchanged, and the index of the selected
    /// operation, exactly as `spec_select_operation` picks it. Every
    /// rule error of the failed pass is reported together; for quiet
    /// rules, success is owed exactly when the pass contributes no
    /// error, and a validation failure carries exactly the pass's
    /// errors.
    pub fn prepare<V: Visitor>(self, doc: &Document, registry: &Registry, rules: &mut V) -> (r:
        Result<PreparedQuery, PrepareError>)
        ensures
            match r {
                Ok(p) => spec_select_operation(doc.operations@, match self.request.operation_name {
                    Some(n) => Some(n@),
                    None => None,
                }) == Ok::<int, bool>(p.operation_index as int) && p.operation_index
                    < doc.operations@.len() && p.variables@ == self.request.variables@
                    && p.uploads@ == self.request.uploads@ && p.complexity_limit
                    == self.complexity_limit && p.depth_limit == self.depth_limit,
                Err(PrepareError::ValidationFailed(errs)) => errs@.len() > 0,
                Err(PrepareError::OperationNotFound) => spec_select_operation(
                    doc.operations@,
                    match self.request.operation_name {
                        Some(n) => Some(n@),
                        None => None,
                    },
                ) == Err::<int, bool>(false),
                Err(PrepareError::AmbiguousOperation) => spec_select_operation(
                    doc.operations@,
                    match self.request.operation_name {
                        Some(n) => Some(n@),
                        None => None,
                    },
                ) == Err::<int, bool>(true),
                Err(PrepareError::CyclicFragment(c)) => crate::visitor::fragment_names(
                    *doc,
                ).contains(c.name@) && !crate::visitor::document_spread_free(*doc),
            },
            old(rules).quiet() ==> match r {
                Ok(_) => op_contributions(*old(rules), registry.types@, doc.operations@).len()
                    == 0,
                Err(PrepareError::ValidationFailed(errs)) => crate::context::error_views(errs@)
                    == op_contributions(*old(rules), registry.types@, doc.operations@),
                _ => true,
            },
    {
        let errors = match run_validation(registry, doc, rules) {
            Ok(errors) => errors,
            Err(c) => {
                return Err(PrepareError::CyclicFragment(c));
            },
        };
        if errors.len() > 0 {
            return Err(PrepareError::ValidationFailed(errors));
        }
        let idx: usize = match &self.request.operation_name {
            Some(n) => match find_operation(&doc.operations, 0, n) {
                Some(i) => i,
                None => {
                    return Err(PrepareError::OperationNotFound);
                },
            },
            None => {
                if doc.operations.len() == 1 {
                    0
                } else if doc.operations.len() == 0 {
                    return Err(PrepareError::OperationNotFound);
                } else {
                    return Err(PrepareError::AmbiguousOperation);
                }
            },
        };
        Ok(
            PreparedQuery {
                operation_index: idx,
                variables: self.request.variables,
                uploads: self.request.uploads,
                complexity_limit: self.complexity_limit,
                depth_limit: self.depth_limit,
            },
        )
    }
}

} // verus!