//! The player slots of a room.
use vstd::prelude::*;

verus! {

/// Every slot below `slot` is taken, and `slot` is not.
pub open spec fn is_lowest_free(taken: Seq<usize>, slot: int) -> bool {
    &&& !taken.contains(slot as usize)
    &&& forall|s: usize| s < slot ==> taken.contains(s)
    &&& 0 <= slot <= taken.len()
}

/// If every slot below `k` is taken, at least `k` slots are taken.
pub proof fn lemma_slots_fit(taken: Seq<usize>, k: int)
    requires
        0 <= k <= usize::MAX + 1,
        forall|s: usize| s < k ==> taken.contains(s),
    ensures
        k <= taken.len(),
    decreases k,
{
    if k > 0 {
        let top = (k - 1) as usize;
        assert(taken.contains(top));
        let i = choose|i: int| 0 <= i < taken.len() && taken[i] == top;
        let rest = taken.remove(i);
        assert forall|s: usize| s < k - 1 implies rest.contains(s) by {
            assert(taken.contains(s));
            let j = choose|j: int| 0 <= j < taken.len() && taken[j] == s;
            if j < i {
                assert(rest[j] == s);
            } else {
                assert(rest[j - 1] == s);
            }
        }
        lemma_slots_fit(rest, k - 1);
    }
}

/// The slot for a player who joins a room in which the slots `taken` have
/// players: the lowest that has none.
pub fn lowest_free_slot(taken: &Vec<usize>) -> (slot: usize)
    ensures
        is_lowest_free(taken@, slot as int),
{
    let mut slot: usize = 0;
    loop
        invariant
            forall|s: usize| s < slot ==> taken@.contains(s),
            slot <= taken@.len(),
        decreases taken@.len() - slot,
    {
        let mut found = false;
        let mut i: usize = 0;
        while i < taken.len() && !found
            invariant
                i <= taken@.len(),
                found ==> taken@.contains(slot),
                !found ==> forall|j: int| 0 <= j < i ==> taken@[j] != slot,
            decreases taken@.len() - i + (if found { 0int } else { 1int }),
        {
            if taken[i] == slot {
                found = true;
            } else {
                i += 1;
            }
        }
        if !found {
            return slot;
        }
        proof {
            assert forall|s: usize| s < slot + 1 implies taken@.contains(s) by {
                if s == slot {
                } else {
                    assert(s < slot);
                }
            }
            lemma_slots_fit(taken@, slot + 1);
        }
        slot += 1;
    }
}

} // verus!
