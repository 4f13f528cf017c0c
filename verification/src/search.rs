//! The first place in a sequence at which something holds.

use vstd::prelude::*;

verus! {

/// The least index below `n` at which `p` holds, or `n` where it holds at
/// none.
pub open spec fn first_index(n: nat, p: spec_fn(int) -> bool) -> nat
    decreases n,
{
    if n == 0 {
        0
    } else {
        let before = first_index((n - 1) as nat, p);
        if before < n - 1 || p(n - 1) {
            before
        } else {
            n
        }
    }
}

/// `first_index(n, p)` is at most `n`, `p` holds at none of the indices
/// below it, and `p` holds at it unless it is `n`.
pub proof fn lemma_first_index(n: nat, p: spec_fn(int) -> bool)
    ensures
        first_index(n, p) <= n,
        forall|j: int| 0 <= j < first_index(n, p) ==> !#[trigger] p(j),
        first_index(n, p) < n ==> p(first_index(n, p) as int),
    decreases n,
{
    if n > 0 {
        lemma_first_index((n - 1) as nat, p);
    }
}

/// An index with the three properties of `first_index(n, p)` is
/// `first_index(n, p)`.
pub proof fn lemma_first_index_is(n: nat, p: spec_fn(int) -> bool, k: int)
    requires
        0 <= k <= n,
        forall|j: int| 0 <= j < k ==> !#[trigger] p(j),
        k < n ==> p(k),
    ensures
        first_index(n, p) == k,
{
    lemma_first_index(n, p);
    let found = first_index(n, p) as int;
    if found < k {
        assert(!p(found));
    }
}

} // verus!
