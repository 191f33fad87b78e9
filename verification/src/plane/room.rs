//! How much room the pool of a plane has left.

use vstd::prelude::*;
use crate::cell::{cell_extended, cell_slot, pool_released, NcCell};
use crate::plane::{
    first_free, first_free_from, lemma_first_free, pool_with, NcPlane, NCPLANE_POOL_SLOTS,
};

verus! {

/// The number of free slots among the slots that a pool has.
pub open spec fn free_slots(pool: Seq<Seq<char>>) -> nat
    decreases pool.len(),
{
    if pool.len() == 0 {
        0
    } else {
        free_slots(pool.drop_last()) + if pool.last().len() == 0 {
            1nat
        } else {
            0nat
        }
    }
}

/// The number of clusters that a pool can still take: its free slots, and
/// the slots that it can still grow by.
pub open spec fn room(pool: Seq<Seq<char>>) -> int {
    NCPLANE_POOL_SLOTS - pool.len() + free_slots(pool)
}

/// A pool has no more free slots than slots, and none if every slot holds
/// a cluster.
pub proof fn lemma_free_slots(pool: Seq<Seq<char>>)
    ensures
        free_slots(pool) <= pool.len(),
        (forall|i: int| 0 <= i < pool.len() ==> (#[trigger] pool[i]).len() > 0) ==> free_slots(pool)
            == 0,
    decreases pool.len(),
{
    if pool.len() > 0 {
        lemma_free_slots(pool.drop_last());
        if forall|i: int| 0 <= i < pool.len() ==> (#[trigger] pool[i]).len() > 0 {
            assert forall|i: int| 0 <= i < pool.drop_last().len() implies (
            #[trigger] pool.drop_last()[i]).len() > 0 by {
                assert(pool.drop_last()[i] == pool[i]);
            }
        }
    }
}

/// Putting a cluster into a slot changes the number of free slots by
/// whether the slot was free and whether it is free now.
pub proof fn lemma_free_update(pool: Seq<Seq<char>>, i: int, cluster: Seq<char>)
    requires
        0 <= i < pool.len(),
    ensures
        free_slots(pool.update(i, cluster)) + (if pool[i].len() == 0 {
            1int
        } else {
            0int
        }) == free_slots(pool) + (if cluster.len() == 0 {
            1int
        } else {
            0int
        }),
    decreases pool.len(),
{
    let after = pool.update(i, cluster);
    if i == pool.len() - 1 {
        assert(after.drop_last() =~= pool.drop_last());
    } else {
        lemma_free_update(pool.drop_last(), i, cluster);
        assert(after.drop_last() =~= pool.drop_last().update(i, cluster));
    }
}

/// A pool with room has a slot for the next cluster.
pub proof fn lemma_room_first_free(pool: Seq<Seq<char>>)
    requires
        pool.len() <= NCPLANE_POOL_SLOTS,
        room(pool) >= 1,
    ensures
        first_free(pool) < NCPLANE_POOL_SLOTS,
{
    lemma_first_free(pool, 0);
    if first_free(pool) == pool.len() {
        lemma_free_slots(pool);
    }
}

/// Releasing a cluster takes no room away.
pub proof fn lemma_room_released(pool: Seq<Seq<char>>, cell: NcCell)
    ensures
        room(pool_released(pool, cell)) >= room(pool),
        pool_released(pool, cell).len() == pool.len(),
{
    if cell_extended(cell) && cell_slot(cell) < pool.len() {
        lemma_free_update(pool, cell_slot(cell), Seq::empty());
    }
}

/// Stowing a cluster takes the room of one cluster.
pub proof fn lemma_room_stowed(pool: Seq<Seq<char>>, cluster: Seq<char>)
    requires
        cluster.len() > 0,
    ensures
        room(pool_with(pool, first_free(pool), cluster)) == room(pool) - 1,
        pool_with(pool, first_free(pool), cluster).len() <= pool.len() + 1,
        first_free(pool) < pool.len() ==> pool_with(pool, first_free(pool), cluster).len()
            == pool.len(),
{
    lemma_first_free(pool, 0);
    let slot = first_free(pool);
    if slot < pool.len() {
        lemma_free_update(pool, slot as int, cluster);
    } else {
        assert(pool.push(cluster).drop_last() =~= pool);
    }
}

impl NcPlane {
    /// The number of clusters that the pool can still take.
    pub fn pool_room(&self) -> (n: usize)
        requires
            self.wf(),
        ensures
            n == room(self@.pool),
    {
        proof {
            self.lemma_wf_view();
        }
        let mut free: usize = 0;
        let mut i: usize = 0;
        while i < self.pool.len()
            invariant
                i <= self.pool.len(),
                free <= i,
                free == free_slots(self@.pool.take(i as int)),
            decreases self.pool.len() - i,
        {
            proof {
                assert(self@.pool.take(i + 1).drop_last() =~= self@.pool.take(i as int));
                assert(self@.pool.take(i + 1).last() == self.pool[i as int]@);
            }
            if self.pool[i].as_str().is_empty() {
                free = free + 1;
            }
            i = i + 1;
        }
        proof {
            assert(self@.pool.take(i as int) =~= self@.pool);
        }
        NCPLANE_POOL_SLOTS - self.pool.len() + free
    }
}

} // verus!
