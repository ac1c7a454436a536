//! Allocation laws: what holds across whole sequences of requests.

use vstd::prelude::*;

verus! {

use vstd::arithmetic::power2::is_pow2;
use crate::align::{lemma_align_up_bounds, spec_align_up};
use crate::allocator::request_grantable;

/// A transient allocation request: a byte count and an alignment.
pub struct Request {
    pub size: int,
    pub align: int,
}

/// All requests ask for a non-negative number of bytes.
pub open spec fn valid_requests(reqs: Seq<Request>) -> bool {
    forall|i: int| 0 <= i < reqs.len() ==> (#[trigger] reqs[i]).size >= 0
}

/// The cursor after the first `n` requests of `reqs` have been served from
/// an arena ending at `end`, starting from cursor `next0`. A granted request
/// advances the cursor past its block; a refused one leaves it unchanged.
pub open spec fn cursor_after(next0: int, end: int, reqs: Seq<Request>, n: int) -> int
    decreases n,
{
    if n <= 0 {
        next0
    } else {
        let c = cursor_after(next0, end, reqs, n - 1);
        let r = reqs[n - 1];
        if request_grantable(c, end, r.size, r.align) {
            spec_align_up(c, r.align) + r.size
        } else {
            c
        }
    }
}

/// The address handed out for request `i`, or `None` where it is refused.
pub open spec fn granted(next0: int, end: int, reqs: Seq<Request>, i: int) -> Option<int> {
    let c = cursor_after(next0, end, reqs, i);
    if request_grantable(c, end, reqs[i].size, reqs[i].align) {
        Some(spec_align_up(c, reqs[i].align))
    } else {
        None
    }
}

/// The cursor never falls below where it started.
pub proof fn lemma_cursor_nondecreasing(next0: int, end: int, reqs: Seq<Request>, n: int)
    requires
        0 <= next0,
        valid_requests(reqs),
        0 <= n <= reqs.len(),
    ensures
        next0 <= cursor_after(next0, end, reqs, n),
    decreases n,
{
    reveal(is_pow2);
    if n > 0 {
        lemma_cursor_nondecreasing(next0, end, reqs, n - 1);
        let c = cursor_after(next0, end, reqs, n - 1);
        let r = reqs[n - 1];
        if request_grantable(c, end, r.size, r.align) {
            lemma_align_up_bounds(c, r.align);
        }
    }
}

/// The cursor never moves backward: serving further requests can only
/// advance it.
pub proof fn lemma_cursor_monotone(next0: int, end: int, reqs: Seq<Request>, m: int, n: int)
    requires
        0 <= next0,
        valid_requests(reqs),
        0 <= m <= n <= reqs.len(),
    ensures
        cursor_after(next0, end, reqs, m) <= cursor_after(next0, end, reqs, n),
    decreases n - m,
{
    reveal(is_pow2);
    if m < n {
        lemma_cursor_monotone(next0, end, reqs, m, n - 1);
        lemma_cursor_nondecreasing(next0, end, reqs, n - 1);
        let c = cursor_after(next0, end, reqs, n - 1);
        let r = reqs[n - 1];
        if request_grantable(c, end, r.size, r.align) {
            lemma_align_up_bounds(c, r.align);
        }
    }
}

/// Alignment: every granted address is a multiple of its request's
/// alignment.
pub proof fn lemma_granted_aligned(next0: int, end: int, reqs: Seq<Request>, i: int)
    requires
        0 <= next0,
        valid_requests(reqs),
        0 <= i < reqs.len(),
        granted(next0, end, reqs, i) is Some,
    ensures
        granted(next0, end, reqs, i)->Some_0 % reqs[i].align == 0,
{
    reveal(is_pow2);
    lemma_cursor_nondecreasing(next0, end, reqs, i);
    lemma_align_up_bounds(cursor_after(next0, end, reqs, i), reqs[i].align);
}

/// Monotonicity: the address granted to a later request lies at or past the
/// end of the block granted to any earlier one.
pub proof fn lemma_granted_monotone(next0: int, end: int, reqs: Seq<Request>, i: int, j: int)
    requires
        0 <= next0,
        valid_requests(reqs),
        0 <= i < j < reqs.len(),
        granted(next0, end, reqs, i) is Some,
        granted(next0, end, reqs, j) is Some,
    ensures
        granted(next0, end, reqs, i)->Some_0 + reqs[i].size
            <= granted(next0, end, reqs, j)->Some_0,
{
    reveal(is_pow2);
    lemma_cursor_monotone(next0, end, reqs, i + 1, j);
    lemma_cursor_nondecreasing(next0, end, reqs, j);
    lemma_align_up_bounds(cursor_after(next0, end, reqs, j), reqs[j].align);
}

/// Disjointness: the byte ranges granted to two different requests never
/// overlap — one block ends at or before the other begins.
pub proof fn lemma_granted_disjoint(next0: int, end: int, reqs: Seq<Request>, i: int, j: int)
    requires
        0 <= next0,
        valid_requests(reqs),
        0 <= i < reqs.len(),
        0 <= j < reqs.len(),
        i != j,
        granted(next0, end, reqs, i) is Some,
        granted(next0, end, reqs, j) is Some,
    ensures
        granted(next0, end, reqs, i)->Some_0 + reqs[i].size
            <= granted(next0, end, reqs, j)->Some_0
        || granted(next0, end, reqs, j)->Some_0 + reqs[j].size
            <= granted(next0, end, reqs, i)->Some_0,
{
    if i < j {
        lemma_granted_monotone(next0, end, reqs, i, j);
    } else {
        lemma_granted_monotone(next0, end, reqs, j, i);
    }
}

/// Exhaustion boundary: a fresh arena of `len` bytes at address `start`
/// grants a byte-aligned request for all `len` bytes at `start` itself, and
/// afterwards refuses even a one-byte request.
pub proof fn lemma_exhaustion_boundary(start: int, len: int, reqs: Seq<Request>)
    requires
        0 <= start,
        0 <= len,
        reqs.len() == 2,
        reqs[0] == (Request { size: len, align: 1 }),
        reqs[1] == (Request { size: 1, align: 1 }),
    ensures
        granted(start, start + len, reqs, 0) == Some(start),
        granted(start, start + len, reqs, 1) is None,
{
    reveal(is_pow2);
    lemma_align_up_bounds(start, 1);
    lemma_align_up_bounds(start + len, 1);
}

/// Idempotent failure: a refused request leaves the cursor unchanged, so
/// repeating it immediately is refused again.
pub proof fn lemma_failure_idempotent(next0: int, end: int, reqs: Seq<Request>, i: int)
    requires
        0 <= i,
        i + 1 < reqs.len(),
        reqs[i + 1] == reqs[i],
        granted(next0, end, reqs, i) is None,
    ensures
        cursor_after(next0, end, reqs, i + 1) == cursor_after(next0, end, reqs, i),
        granted(next0, end, reqs, i + 1) is None,
{
}

} // verus!
