//! The query document: the parsed, read-only form of a request's operation
//! text. Validation walks this tree; execution consumes it. The host layer
//! builds a [`Document`] from whatever concrete parser it uses and hands it
//! in as plain values.

use vstd::prelude::*;

verus! {

/// A source position: line and column, both 1-based in practice.
#[derive(Clone, Copy, PartialEq, Eq, Structural, Debug)]
pub struct Pos {
    pub line: u32,
    pub column: u32,
}

/// A syntactic type reference, including list and non-null wrappers.
pub enum TypeRef {
    Named(String),
    List(Box<TypeRef>),
    NonNull(Box<TypeRef>),
}

/// The name of the underlying named type of a type reference, with all
/// list and non-null wrappers stripped.
pub open spec fn base_type_name(t: TypeRef) -> Seq<char>
    decreases t,
{
    match t {
        TypeRef::Named(n) => n@,
        TypeRef::List(inner) => base_type_name(*inner),
        TypeRef::NonNull(inner) => base_type_name(*inner),
    }
}

/// A literal or variable value appearing in the document itself.
pub enum GqlValue {
    Variable(String),
    Int(i64),
    /// A non-integer number literal, carried by its decimal text: the
    /// pipeline holds no floating point.
    FloatLit(String),
    Str(String),
    Boolean(bool),
    Null,
    EnumValue(String),
    List(Vec<GqlValue>),
    Object(Vec<(String, GqlValue)>),
}

/// One argument of a field or directive.
pub struct Argument {
    pub name: String,
    pub value: GqlValue,
    pub position: Pos,
}

/// A directive attached to an operation, field or fragment.
pub struct Directive {
    pub name: String,
    pub arguments: Vec<Argument>,
    pub position: Pos,
}

/// One variable declared by an operation.
pub struct VariableDefinition {
    pub name: String,
    pub var_type: TypeRef,
    pub default_value: Option<GqlValue>,
    pub position: Pos,
}

/// A field selection.
pub struct Field {
    pub alias: Option<String>,
    pub name: String,
    pub arguments: Vec<Argument>,
    pub directives: Vec<Directive>,
    pub selection_set: Vec<Selection>,
    pub position: Pos,
}

/// One entry of a selection set.
pub enum Selection {
    Field(Field),
    FragmentSpread { name: String, directives: Vec<Directive>, position: Pos },
    InlineFragment {
        type_condition: Option<String>,
        directives: Vec<Directive>,
        selection_set: Vec<Selection>,
        position: Pos,
    },
}

/// Whether an operation is a query, a mutation or a subscription.
#[derive(Clone, Copy, PartialEq, Eq, Structural, Debug)]
pub enum OperationKind {
    Query,
    Mutation,
    Subscription,
}

/// A named or anonymous operation.
pub struct Operation {
    pub kind: OperationKind,
    pub name: Option<String>,
    pub variable_definitions: Vec<VariableDefinition>,
    pub directives: Vec<Directive>,
    pub selection_set: Vec<Selection>,
    pub position: Pos,
}

/// A reusable named selection set.
pub struct FragmentDefinition {
    pub name: String,
    pub type_condition: String,
    pub directives: Vec<Directive>,
    pub selection_set: Vec<Selection>,
    pub position: Pos,
}

/// A parsed query document: its operations and its named fragments, each in
/// document order.
pub struct Document {
    pub operations: Vec<Operation>,
    pub fragments: Vec<FragmentDefinition>,
}

/// Structural size of one selection; every selection counts at least one.
pub open spec fn selection_size(s: Selection) -> nat
    decreases s, 1nat,
{
    match s {
        Selection::Field(f) => 1 + selections_size(f.selection_set@),
        Selection::FragmentSpread { .. } => 1,
        Selection::InlineFragment { selection_set, .. } => 1 + selections_size(selection_set@),
    }
}

/// Structural size of a selection sequence.
pub open spec fn selections_size(ss: Seq<Selection>) -> nat
    decreases ss, 0nat,
{
    if ss.len() == 0 {
        0
    } else {
        selection_size(ss.first()) + selections_size(ss.drop_first())
    }
}

/// Whether a selection holds a fragment spread anywhere beneath it.
pub open spec fn selection_has_spread(s: Selection) -> bool
    decreases s, 1nat,
{
    match s {
        Selection::Field(f) => selections_have_spread(f.selection_set@),
        Selection::FragmentSpread { .. } => true,
        Selection::InlineFragment { selection_set, .. } => selections_have_spread(
            selection_set@,
        ),
    }
}

/// Whether any selection of a sequence holds a fragment spread.
pub open spec fn selections_have_spread(ss: Seq<Selection>) -> bool
    decreases ss, 0nat,
{
    if ss.len() == 0 {
        false
    } else {
        selection_has_spread(ss.first()) || selections_have_spread(ss.drop_first())
    }
}

/// A spread-free sequence has spread-free elements.
pub proof fn lemma_no_spread_index(ss: Seq<Selection>, i: int)
    requires
        !selections_have_spread(ss),
        0 <= i < ss.len(),
    ensures
        !selection_has_spread(ss[i]),
    decreases ss.len(),
{
    if i > 0 {
        lemma_no_spread_index(ss.drop_first(), i - 1);
        assert(ss.drop_first()[i - 1] == ss[i]);
    }
}

/// An element of a selection sequence is no larger than the sequence.
pub proof fn lemma_selections_size_index(ss: Seq<Selection>, i: int)
    requires
        0 <= i < ss.len(),
    ensures
        selection_size(ss[i]) <= selections_size(ss),
    decreases ss.len(),
{
    if i == 0 {
    } else {
        lemma_selections_size_index(ss.drop_first(), i - 1);
        assert(ss.drop_first()[i - 1] == ss[i]);
    }
}

} // verus!
