//! Entities are opaque 64-bit identifiers; the manager hands them out in
//! increasing order, starting from 1, and keeps the list of live entities.

use vstd::prelude::*;

verus! {

/// An opaque entity identifier. Identifier 0 is reserved and never issued.
#[derive(PartialEq, Copy, Clone, Debug, Eq, Hash, Structural)]
pub struct Entity(pub u64);

/// Issues unique, monotonically increasing entity identifiers and tracks the
/// set of live entities in creation order.
#[derive(Clone, Debug)]
pub struct EntityManager {
    entities: Vec<Entity>,
    current_entity_id: Entity,
}

impl EntityManager {
    /// The live entities, in creation order.
    pub closed spec fn live(&self) -> Seq<Entity> {
        self.entities@
    }

    /// The identifier the next call to `create` will return.
    pub closed spec fn next_id(&self) -> u64 {
        self.current_entity_id.0
    }

    /// The i-th entity ever created has identifier i + 1, and the next
    /// identifier is one past the last created one. No identifier is ever
    /// reused and identifier 0 is never issued.
    pub closed spec fn wf(&self) -> bool {
        &&& self.next_id() == self.live().len() + 1
        &&& forall|i: int| 0 <= i < self.live().len() ==> (#[trigger] self.live()[i]).0 == i + 1
    }

    /// A fresh manager: no live entities, the first identifier will be 1.
    pub fn new() -> (r: EntityManager)
        ensures
            r.wf(),
            r.live() == Seq::<Entity>::empty(),
            r.next_id() == 1,
    {
        EntityManager { current_entity_id: Entity(1), entities: Vec::new() }
    }

    /// Creates a new live entity and returns it. The result is the current
    /// next identifier, which no earlier call has returned, and the next
    /// identifier moves past it.
    pub fn create(&mut self) -> (r: Entity)
        requires
            old(self).wf(),
            old(self).next_id() < u64::MAX,
        ensures
            final(self).wf(),
            r.0 == old(self).next_id(),
            final(self).next_id() == old(self).next_id() + 1,
            final(self).live() == old(self).live().push(r),
            !old(self).live().contains(r),
    {
        let new_id = Entity(self.current_entity_id.0);
        self.entities.push(new_id);
        self.current_entity_id = Entity(self.current_entity_id.0 + 1);
        proof {
            if old(self).live().contains(new_id) {
                let i = choose|i: int|
                    0 <= i < old(self).live().len() && old(self).live()[i] == new_id;
                assert(old(self).live()[i].0 == i + 1);
            }
        }
        new_id
    }

    /// Number of live entities, which equals the number of `create` calls
    /// made so far.
    pub fn count(&self) -> (r: usize)
        ensures
            r == self.live().len(),
    {
        self.entities.len()
    }

    /// The identifier the next call to `create` will return.
    pub fn peek_next_id(&self) -> (r: u64)
        ensures
            r == self.next_id(),
    {
        self.current_entity_id.0
    }

    /// The i-th live entity, in creation order.
    pub fn entity_at(&self, i: usize) -> (r: Entity)
        requires
            i < self.live().len(),
        ensures
            r == self.live()[i as int],
    {
        self.entities[i]
    }

    /// The live entities as a list, in creation order.
    pub fn units(&self) -> (r: Vec<Entity>)
        ensures
            r@ == self.live(),
    {
        let mut r: Vec<Entity> = Vec::new();
        let mut i: usize = 0;
        let n = self.entities.len();
        while i < n
            invariant
                n == self.live().len(),
                i <= n,
                r@ == self.live().take(i as int),
            decreases n - i,
        {
            r.push(self.entities[i]);
            proof {
                assert(r@ =~= self.live().take(i + 1));
            }
            i = i + 1;
        }
        proof {
            assert(self.live().take(n as int) =~= self.live());
        }
        r
    }
}

/// Distinct creation slots always hold distinct entities: identifiers are
/// never reused.
pub proof fn lemma_entity_ids_unique(em: EntityManager)
    requires
        em.wf(),
    ensures
        forall|i: int, j: int|
            0 <= i < j < em.live().len() ==> em.live()[i] != em.live()[j],
{
    assert forall|i: int, j: int| 0 <= i < j < em.live().len() implies em.live()[i]
        != em.live()[j] by {
        assert(em.live()[i].0 == i + 1);
        assert(em.live()[j].0 == j + 1);
    }
}

/// Two consecutive `create` calls never return equal entities: the first
/// returns the manager's next identifier, and the second call's manager has
/// already moved past it.
pub proof fn lemma_consecutive_creates_distinct(
    em0: EntityManager,
    e1: Entity,
    em1: EntityManager,
    e2: Entity,
)
    requires
        e1.0 == em0.next_id(),
        em1.next_id() == em0.next_id() + 1,
        e2.0 == em1.next_id(),
    ensures
        e1 != e2,
{
}

/// The number of live entities always equals the total number of entities
/// ever created.
pub proof fn lemma_count_is_total_created(em: EntityManager)
    requires
        em.wf(),
    ensures
        em.live().len() == em.next_id() - 1,
{
}

} // verus!
