//! Cutting the mailbox's identifiers into bounded batches.
use vstd::prelude::*;
use vstd::slice::slice_subrange;
use vstd::slice::slice_to_vec;

verus! {

/// Most identifiers that one batch holds.
pub const MAX_UIDS: usize = 256;

/// Number of batches for `n` identifiers: `n / 256`, rounded up.
pub open spec fn batch_count(n: nat) -> nat {
    (n + 255) / 256
}

/// The `i`-th batch of `uids`: the next 256 identifiers, or what is left.
pub open spec fn batch(uids: Seq<u32>, i: int) -> Seq<u32> {
    let end = if 256 * i + 256 <= uids.len() { 256 * i + 256 } else { uids.len() as int };
    uids.subrange(256 * i, end)
}

/// Splits `uids` into batches of 256 identifiers, in order; the last batch
/// holds the remainder, and no batch is empty.
pub fn split_batches(uids: &[u32]) -> (r: Vec<Vec<u32>>)
    ensures
        r@.len() == batch_count(uids@.len()),
        forall|i: int| 0 <= i < r@.len() ==> (#[trigger] r@[i])@ == batch(uids@, i),
        forall|i: int| 0 <= i < r@.len() ==> 0 < (#[trigger] r@[i])@.len() <= 256,
        forall|i: int| 0 <= i < r@.len() - 1 ==> (#[trigger] r@[i])@.len() == 256,
        uids@.len() > 0 ==> r@.last()@.len() == (if uids@.len() % 256 == 0 {
            256
        } else {
            uids@.len() % 256
        }),
{
    let n = uids.len();
    let mut r: Vec<Vec<u32>> = Vec::new();
    let mut start: usize = 0;
    while start < n
        invariant
            n == uids@.len(),
            start <= n,
            start == 256 * r@.len() || (start == n && r@.len() == batch_count(n as nat)),
            start < n ==> start == 256 * r@.len(),
            forall|i: int| 0 <= i < r@.len() ==> (#[trigger] r@[i])@ == batch(uids@, i),
        decreases n - start,
    {
        let end: usize = if n - start > MAX_UIDS { start + MAX_UIDS } else { n };
        let b = slice_to_vec(slice_subrange(uids, start, end));
        r.push(b);
        start = end;
    }
    assert(r@.len() == batch_count(n as nat));
    r
}

} // verus!
