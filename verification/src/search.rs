//! The first index at which something holds.

use vstd::prelude::*;

verus! {

/// The least index below `n` at which `hit` holds.
pub open spec fn first_where(n: nat, hit: spec_fn(int) -> bool) -> Option<int>
    decreases n,
{
    if n == 0 {
        None
    } else {
        match first_where((n - 1) as nat, hit) {
            Some(j) => Some(j),
            None => if hit(n - 1) {
                Some(n - 1)
            } else {
                None
            },
        }
    }
}

/// What `first_where` finds is the least index at which `hit` holds, and it finds nothing
/// only where `hit` holds nowhere.
pub proof fn lemma_first_where(n: nat, hit: spec_fn(int) -> bool)
    ensures
        match first_where(n, hit) {
            Some(j) => 0 <= j < n && hit(j) && forall|k: int| 0 <= k < j ==> !#[trigger] hit(k),
            None => forall|k: int| 0 <= k < n ==> !#[trigger] hit(k),
        },
    decreases n,
{
    if n > 0 {
        lemma_first_where((n - 1) as nat, hit);
    }
}

/// The least index at which `hit` holds is what `first_where` finds.
pub proof fn lemma_first_where_is(n: nat, hit: spec_fn(int) -> bool, j: int)
    requires
        0 <= j < n,
        hit(j),
        forall|k: int| 0 <= k < j ==> !#[trigger] hit(k),
    ensures
        first_where(n, hit) == Some(j),
{
    lemma_first_where(n, hit);
}

} // verus!
