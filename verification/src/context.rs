//! Per-request validation state: the accumulated errors, the fragment
//! lookup table built before the rule traversal, and a read-only handle to
//! the schema's type registry. One context lives exactly as long as one
//! validation pass.

use vstd::prelude::*;
use crate::ast::Document;
use crate::ast::Pos;
use crate::registry::Registry;

verus! {

/// One reported validation error: a message and the source positions it
/// refers to.
#[derive(Debug)]
pub struct ValidationError {
    pub message: String,
    pub positions: Vec<Pos>,
}

/// Mathematical model of a validation error.
pub struct ValidationErrorV {
    pub message: Seq<char>,
    pub positions: Seq<Pos>,
}

impl View for ValidationError {
    type V = ValidationErrorV;

    open spec fn view(&self) -> ValidationErrorV {
        ValidationErrorV { message: self.message@, positions: self.positions@ }
    }
}

/// The views of a sequence of errors, in order.
pub open spec fn error_views(errors: Seq<ValidationError>) -> Seq<ValidationErrorV> {
    errors.map_values(|e: ValidationError| e@)
}

/// Shared state of one validation pass.
pub struct ValidatorContext<'a> {
    /// Read-only handle to the schema's type registry.
    pub registry: &'a Registry,
    /// Errors reported so far; append-only during the pass.
    pub errors: Vec<ValidationError>,
    /// Fragment lookup: name of each fragment of the document, paired with
    /// its index in the document's fragment list. First declaration wins.
    pub fragments: Vec<(String, usize)>,
}

impl<'a> ValidatorContext<'a> {
    /// A fresh context for one pass: no errors, fragment table filled from
    /// the document (the pre-pass of the state machine, so that spreads can
    /// be resolved regardless of declaration order).
    pub fn new(registry: &'a Registry, doc: &Document) -> (r: ValidatorContext<'a>)
        ensures
            r.registry == registry,
            r.errors@.len() == 0,
            r.fragments@.len() == doc.fragments@.len(),
            forall|i: int|
                0 <= i < doc.fragments@.len() ==> #[trigger] r.fragments@[i].0@
                    == doc.fragments@[i].name@ && r.fragments@[i].1 == i,
    {
        let mut fragments: Vec<(String, usize)> = Vec::new();
        let mut i: usize = 0;
        while i < doc.fragments.len()
            invariant
                0 <= i <= doc.fragments@.len(),
                fragments@.len() == i,
                forall|j: int|
                    0 <= j < i ==> #[trigger] fragments@[j].0@ == doc.fragments@[j].name@
                        && fragments@[j].1 == j,
            decreases doc.fragments@.len() - i,
        {
            fragments.push((doc.fragments[i].name.clone(), i));
            i = i + 1;
        }
        ValidatorContext { registry, errors: Vec::new(), fragments }
    }

    /// Appends one error to the pass; never fails, never removes anything.
    pub fn report_error(&mut self, positions: Vec<Pos>, message: &str)
        ensures
            final(self).errors@.len() == old(self).errors@.len() + 1,
            error_views(final(self).errors@) == error_views(old(self).errors@).push(
                ValidationErrorV { message: message@, positions: positions@ },
            ),
            final(self).registry == old(self).registry,
            final(self).fragments == old(self).fragments,
    {
        let err = ValidationError { message: String::from_str(message), positions };
        self.errors.push(err);
        proof {
            assert(error_views(self.errors@) =~= error_views(old(self).errors@).push(
                ValidationErrorV { message: message@, positions: positions@ },
            ));
        }
    }

    /// Index in the document's fragment list of the named fragment, if the
    /// table holds it.
    pub fn fragment_index(&self, name: &String) -> (r: Option<usize>)
        ensures
            match lookup_fragment(self.fragments@, name@) {
                Some(i) => r matches Some(k) && k as int == i,
                None => r is None,
            },
    {
        let mut k: usize = 0;
        while k < self.fragments.len()
            invariant
                0 <= k <= self.fragments@.len(),
                forall|j: int| 0 <= j < k ==> #[trigger] self.fragments@[j].0@ != name@,
            decreases self.fragments@.len() - k,
        {
            if self.fragments[k].0.eq(name) {
                proof {
                    lemma_lookup_fragment(self.fragments@, name@);
                    if lookup_fragment(self.fragments@, name@) is Some {
                        let k0 = choose|j: int|
                            0 <= j < self.fragments@.len() && #[trigger] self.fragments@[j].0@
                                == name@ && self.fragments@[j].1 as int == lookup_fragment(
                                self.fragments@,
                                name@,
                            )->0 && forall|m: int|
                                0 <= m < j ==> #[trigger] self.fragments@[m].0@ != name@;
                        if k0 > k {
                            assert(self.fragments@[k as int].0@ != name@);
                        }
                        assert(k0 == k as int);
                    } else {
                        assert(self.fragments@[k as int].0@ != name@);
                    }
                }
                return Some(self.fragments[k].1);
            }
            k = k + 1;
        }
        proof {
            lemma_lookup_fragment(self.fragments@, name@);
        }
        None
    }
}

/// The table entry for the first binding of a fragment name, if any.
pub open spec fn lookup_fragment(table: Seq<(String, usize)>, name: Seq<char>) -> Option<int>
    decreases table,
{
    if table.len() == 0 {
        None
    } else if table.first().0@ == name {
        Some(table.first().1 as int)
    } else {
        lookup_fragment(table.drop_first(), name)
    }
}

/// What `lookup_fragment` returns: the value of the first matching entry.
pub proof fn lemma_lookup_fragment(table: Seq<(String, usize)>, name: Seq<char>)
    ensures
        match lookup_fragment(table, name) {
            Some(i) => exists|k: int|
                0 <= k < table.len() && #[trigger] table[k].0@ == name && table[k].1 as int == i
                    && forall|j: int| 0 <= j < k ==> #[trigger] table[j].0@ != name,
            None => forall|j: int| 0 <= j < table.len() ==> #[trigger] table[j].0@ != name,
        },
    decreases table,
{
    if table.len() > 0 && table.first().0@ != name {
        lemma_lookup_fragment(table.drop_first(), name);
        assert(forall|j: int|
            1 <= j < table.len() ==> table.drop_first()[j - 1] == #[trigger] table[j]);
        if lookup_fragment(table, name) is Some {
            let k0 = choose|k: int|
                0 <= k < table.drop_first().len() && #[trigger] table.drop_first()[k].0@ == name
                    && table.drop_first()[k].1 as int == lookup_fragment(table, name)->0
                    && forall|j: int| 0 <= j < k ==> #[trigger] table.drop_first()[j].0@ != name;
            assert(table[k0 + 1].0@ == name && table[k0 + 1].1 as int == lookup_fragment(
                table,
                name,
            )->0 && forall|j: int| 0 <= j < k0 + 1 ==> #[trigger] table[j].0@ != name);
        }
    }
}

} // verus!
