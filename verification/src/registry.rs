//! The schema's type registry: the authoritative mapping from type name to
//! type definition. It is built once when the schema is constructed and is
//! only read while a request is handled.

use vstd::prelude::*;
use crate::ast::TypeRef;
use crate::ast::base_type_name;

verus! {

/// The kind of a schema type.
#[derive(Clone, Copy, PartialEq, Eq, Structural, Debug)]
pub enum TypeKind {
    Scalar,
    Object,
    Enum,
    InputObject,
    Interface,
    Union,
}

/// One field of an object type: its name and its result type.
pub struct FieldDef {
    pub name: String,
    pub field_type: TypeRef,
}

/// One named type of the schema.
pub struct TypeDef {
    pub name: String,
    pub kind: TypeKind,
    pub fields: Vec<FieldDef>,
}

/// The schema's type registry.
pub struct Registry {
    pub types: Vec<TypeDef>,
}

/// Index of the first type definition with the given name, if any.
pub open spec fn lookup_type_index(types: Seq<TypeDef>, name: Seq<char>) -> Option<int>
    decreases types,
{
    if types.len() == 0 {
        None
    } else if types.first().name@ == name {
        Some(0)
    } else {
        match lookup_type_index(types.drop_first(), name) {
            Some(i) => Some(i + 1),
            None => None,
        }
    }
}

/// What `lookup_type_index` returns: the first index whose name matches.
pub proof fn lemma_lookup_type_index(types: Seq<TypeDef>, name: Seq<char>)
    ensures
        match lookup_type_index(types, name) {
            Some(i) => 0 <= i < types.len() && types[i].name@ == name && forall|j: int|
                0 <= j < i ==> #[trigger] types[j].name@ != name,
            None => forall|j: int| 0 <= j < types.len() ==> #[trigger] types[j].name@ != name,
        },
    decreases types,
{
    if types.len() > 0 && types.first().name@ != name {
        lemma_lookup_type_index(types.drop_first(), name);
        assert(forall|j: int|
            1 <= j < types.len() ==> types.drop_first()[j - 1] == #[trigger] types[j]);
    }
}

impl Registry {
    /// Resolves a syntactic type reference - list and non-null wrappers
    /// included - to the definition of its underlying named type, or `None`
    /// if that name is not declared.
    pub fn basic_type_by_parsed_type(&self, ty: &TypeRef) -> (r: Option<&TypeDef>)
        ensures
            match lookup_type_index(self.types@, base_type_name(*ty)) {
                Some(i) => r matches Some(td) && *td == self.types@[i],
                None => r is None,
            },
    {
        let name: &String = base_name_of(ty);
        let mut k: usize = 0;
        while k < self.types.len()
            invariant
                0 <= k <= self.types@.len(),
                forall|j: int| 0 <= j < k ==> #[trigger] self.types@[j].name@ != name@,
                name@ == base_type_name(*ty),
            decreases self.types@.len() - k,
        {
            if self.types[k].name.eq(name) {
                proof {
                    lemma_lookup_type_index(self.types@, base_type_name(*ty));
                    if let Some(i) = lookup_type_index(self.types@, base_type_name(*ty)) {
                        assert(self.types@[i].name@ == name@);
                        if i > k {
                            assert(self.types@[k as int].name@ != name@);
                        }
                    } else {
                        assert(self.types@[k as int].name@ != name@);
                    }
                }
                return Some(&self.types[k]);
            }
            k = k + 1;
        }
        proof {
            lemma_lookup_type_index(self.types@, base_type_name(*ty));
            if let Some(i) = lookup_type_index(self.types@, base_type_name(*ty)) {
                assert(self.types@[i].name@ == name@);
            }
        }
        None
    }
}

/// The underlying name of a type reference, wrappers stripped.
pub fn base_name_of(ty: &TypeRef) -> (r: &String)
    ensures
        r@ == base_type_name(*ty),
    decreases *ty,
{
    match ty {
        TypeRef::Named(n) => n,
        TypeRef::List(inner) => base_name_of(inner),
        TypeRef::NonNull(inner) => base_name_of(inner),
    }
}

} // verus!
