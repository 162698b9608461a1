//! Page identity: the (chapter, page) pair that names one page image, and its
//! total order. Both components compare numerically; this order is the only
//! mechanism that recovers page order after concurrent stages have written
//! files in arbitrary completion order.

use vstd::prelude::*;

verus! {

/// Identity of one page: chapter position and page position within its chapter.
#[derive(Clone, Copy, PartialEq, Eq, Structural, Debug)]
pub struct PageIdentity {
    pub chapter: u32,
    pub page: u32,
}

/// Total order on identities: primary key chapter, secondary key page,
/// both compared numerically.
pub open spec fn id_le(a: PageIdentity, b: PageIdentity) -> bool {
    a.chapter < b.chapter || (a.chapter == b.chapter && a.page <= b.page)
}

/// Strict version of the identity order.
pub open spec fn id_lt(a: PageIdentity, b: PageIdentity) -> bool {
    id_le(a, b) && a != b
}

impl PageIdentity {
    /// Decide the identity order executably.
    pub fn le(&self, other: &PageIdentity) -> (r: bool)
        ensures
            r == id_le(*self, *other),
    {
        self.chapter < other.chapter || (self.chapter == other.chapter && self.page <= other.page)
    }
}

/// The identity order is total: any two identities are comparable.
pub proof fn lemma_id_le_total(a: PageIdentity, b: PageIdentity)
    ensures
        id_le(a, b) || id_le(b, a),
{
}

/// The identity order is transitive.
pub proof fn lemma_id_le_transitive(a: PageIdentity, b: PageIdentity, c: PageIdentity)
    ensures
        id_le(a, b) && id_le(b, c) ==> id_le(a, c),
{
}

/// The identity order is antisymmetric: mutually ordered identities are equal.
pub proof fn lemma_id_le_antisymmetric(a: PageIdentity, b: PageIdentity)
    ensures
        id_le(a, b) && id_le(b, a) ==> a == b,
{
}

} // verus!
