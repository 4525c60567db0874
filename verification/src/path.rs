//! Field paths: dotted names addressing a location inside a record.
//!
//! A path is carried as its dotted byte string (for example `bar.baz`).
//! Equality and the string-prefix relation `starts_with` let a path test
//! ancestor/descendant relationships against other paths; field pruning is
//! built on that relation.

use vstd::prelude::*;

verus! {

/// An immutable field path, held as its dotted byte string.
#[derive(Debug, PartialEq, Eq)]
pub struct Path {
    bytes: Vec<u8>,
}

impl View for Path {
    type V = Seq<u8>;

    closed spec fn view(&self) -> Seq<u8> {
        self.bytes@
    }
}

/// Whether `p` begins with `prefix`, byte for byte.
pub open spec fn is_prefix(prefix: Seq<u8>, p: Seq<u8>) -> bool {
    prefix.len() <= p.len() && p.subrange(0, prefix.len() as int) == prefix
}

impl Path {
    /// A path from its dotted byte string.
    pub fn from_bytes(bytes: Vec<u8>) -> (r: Path)
        ensures
            r@ == bytes@,
    {
        Path { bytes }
    }

    /// The dotted byte string of this path.
    pub fn as_bytes(&self) -> (r: &Vec<u8>)
        ensures
            r@ == self@,
    {
        &self.bytes
    }

    /// Whether this path begins with `other`: `other` addresses this path
    /// itself or one of its ancestors under the string-prefix reading.
    pub fn starts_with(&self, other: &Path) -> (r: bool)
        ensures
            r == is_prefix(other@, self@),
    {
        starts_with_bytes(&self.bytes, &other.bytes)
    }

    /// A copy of this path, equal in view.
    pub fn duplicate(&self) -> (r: Path)
        ensures
            r@ == self@,
    {
        Path { bytes: crate::value::copy_bytes(&self.bytes) }
    }
}

/// Whether the byte string `p` begins with the byte string `prefix`.
pub fn starts_with_bytes(p: &Vec<u8>, prefix: &Vec<u8>) -> (r: bool)
    ensures
        r == is_prefix(prefix@, p@),
{
    if prefix.len() > p.len() {
        proof {
            assert(!is_prefix(prefix@, p@));
        }
        return false;
    }
    let mut i: usize = 0;
    while i < prefix.len()
        invariant
            prefix.len() <= p.len(),
            i <= prefix.len(),
            forall|j: int| 0 <= j < i ==> p@[j] == prefix@[j],
        decreases prefix.len() - i,
    {
        if p[i] != prefix[i] {
            proof {
                assert(p@.subrange(0, prefix@.len() as int)[i as int] != prefix@[i as int]);
            }
            return false;
        }
        i += 1;
    }
    proof {
        assert(p@.subrange(0, prefix@.len() as int) =~= prefix@);
    }
    true
}

/// The prefix relation is reflexive: every path starts with itself.
pub proof fn lemma_prefix_reflexive(p: Seq<u8>)
    ensures
        is_prefix(p, p),
{
    assert(p.subrange(0, p.len() as int) =~= p);
}

} // verus!
