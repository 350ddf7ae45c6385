//! Comparisons on byte slices, stated over their views.

use vstd::prelude::*;

verus! {

/// `true` exactly when the two slices hold the same bytes.
pub fn bytes_eq(a: &[u8], b: &[u8]) -> (r: bool)
    ensures
        r == (a@ == b@),
{
    if a.len() != b.len() {
        return false;
    }
    let mut i: usize = 0;
    while i < a.len()
        invariant
            i <= a.len(),
            a.len() == b.len(),
            forall|j: int| 0 <= j < i ==> a@[j] == b@[j],
        decreases a.len() - i,
    {
        if a[i] != b[i] {
            return false;
        }
        i += 1;
    }
    assert(a@ =~= b@);
    true
}

/// `true` exactly when `hay` begins with `needle`.
pub fn starts_with(hay: &[u8], needle: &[u8]) -> (r: bool)
    ensures
        r == needle@.is_prefix_of(hay@),
{
    if needle.len() > hay.len() {
        return false;
    }
    let head = vstd::slice::slice_subrange(hay, 0, needle.len());
    let same = bytes_eq(head, needle);
    proof {
        if same {
            assert(needle@ =~= hay@.subrange(0, needle@.len() as int));
        } else if needle@.is_prefix_of(hay@) {
            assert(hay@.subrange(0, needle@.len() as int) =~= needle@);
        }
    }
    same
}

/// `true` exactly when `hay` ends with `needle`.
pub fn ends_with(hay: &[u8], needle: &[u8]) -> (r: bool)
    ensures
        r == needle@.is_suffix_of(hay@),
{
    if needle.len() > hay.len() {
        return false;
    }
    let tail = vstd::slice::slice_subrange(hay, hay.len() - needle.len(), hay.len());
    let same = bytes_eq(tail, needle);
    proof {
        let from = hay@.len() - needle@.len();
        if same {
            assert(needle@ =~= hay@.subrange(from, hay@.len() as int));
        } else if needle@.is_suffix_of(hay@) {
            assert(hay@.subrange(from, hay@.len() as int) =~= needle@);
        }
    }
    same
}

} // verus!
