//! A generic sparse-set component store: a dense array of components, a
//! dense array of the owning entities, and an O(1) entity-to-index lookup.
//! Each entity owns at most one component of a given type.

use std::collections::HashMap;

use vstd::prelude::*;

use crate::entity_manager::Entity;

verus! {

/// A component type with a default value used when a component is created
/// without an explicit initial value.
pub trait DefaultComponent: Sized {
    /// The default value, as a specification-level constant.
    spec fn default_spec() -> Self;

    /// Builds the default value.
    fn make_default() -> (r: Self)
        ensures
            r == Self::default_spec(),
    ;
}

/// Maps entities to at most one component of type `T` each.
///
/// `components` and `entities` run in parallel: `entities[i]` owns
/// `components[i]`. `lookup` maps an owner's identifier to its dense index.
/// Removal swaps the last slot into the vacated one and repairs the moved
/// owner's lookup entry.
#[derive(Clone, Debug)]
pub struct ComponentManager<T> {
    components: Vec<T>,
    entities: Vec<Entity>,
    lookup: HashMap<u64, usize>,
}

impl<T> ComponentManager<T> {
    /// The owning entities, in dense-array order.
    pub closed spec fn owner_seq(&self) -> Seq<Entity> {
        self.entities@
    }

    /// Whether `entity` owns a component of type `T`.
    pub closed spec fn contains_spec(&self, entity: Entity) -> bool {
        self.lookup@.contains_key(entity.0)
    }

    /// The dense index of `entity`'s component.
    pub closed spec fn index_spec(&self, entity: Entity) -> int {
        self.lookup@[entity.0] as int
    }

    /// The contents as a map from owner identifier to component.
    pub closed spec fn map_spec(&self) -> Map<u64, T> {
        Map::new(
            |k: u64| self.lookup@.contains_key(k),
            |k: u64| self.components@[self.lookup@[k] as int],
        )
    }

    /// The parallel arrays have equal length, every owner's lookup entry
    /// points at its slot, and every lookup entry points at a slot owned by
    /// that same entity.
    pub closed spec fn wf(&self) -> bool {
        &&& self.components@.len() == self.entities@.len()
        &&& forall|i: int|
            0 <= i < self.entities@.len() ==> {
                &&& self.lookup@.contains_key((#[trigger] self.entities@[i]).0)
                &&& self.lookup@[self.entities@[i].0] == i
            }
        &&& forall|k: u64|
            #[trigger] self.lookup@.contains_key(k) ==> {
                &&& self.lookup@[k] < self.entities@.len()
                &&& self.entities@[self.lookup@[k] as int].0 == k
            }
    }

    /// An empty store.
    pub fn new() -> (r: ComponentManager<T>)
        ensures
            r.wf(),
            r.owner_seq() == Seq::<Entity>::empty(),
            r.map_spec() == Map::<u64, T>::empty(),
    {
        let r = ComponentManager {
            components: Vec::<T>::new(),
            entities: Vec::<Entity>::new(),
            lookup: HashMap::<u64, usize>::new(),
        };
        proof {
            assert(r.map_spec() =~= Map::<u64, T>::empty());
        }
        r
    }

    /// Whether `entity` owns a component of type `T`.
    pub fn contains(&self, entity: &Entity) -> (r: bool)
        ensures
            r == self.map_spec().contains_key(entity.0),
    {
        self.lookup.contains_key(&entity.0)
    }

    /// Number of stored components.
    pub fn len(&self) -> (r: usize)
        ensures
            r == self.owner_seq().len(),
    {
        self.entities.len()
    }

    /// Registers `value` as `entity`'s component. The entity must not own a
    /// component of this type yet; the new owner is appended to the dense
    /// order.
    pub fn create_with(&mut self, entity: &Entity, value: T)
        requires
            old(self).wf(),
            !old(self).map_spec().contains_key(entity.0),
        ensures
            final(self).wf(),
            final(self).owner_seq() == old(self).owner_seq().push(*entity),
            final(self).map_spec() == old(self).map_spec().insert(entity.0, value),
    {
        let entity_index = self.components.len();
        self.components.push(value);
        self.entities.push(*entity);
        self.lookup.insert(entity.0, entity_index);
        proof {
            assert forall|i: int| 0 <= i < self.entities@.len() implies {
                &&& self.lookup@.contains_key((#[trigger] self.entities@[i]).0)
                &&& self.lookup@[self.entities@[i].0] == i
            } by {
                if i < old(self).entities@.len() {
                    assert(self.entities@[i] == old(self).entities@[i]);
                }
            }
            assert(self.map_spec() =~= old(self).map_spec().insert(entity.0, value));
        }
    }

    /// Registers a default-valued component for `entity`.
    pub fn create(&mut self, entity: &Entity) where T: DefaultComponent
        requires
            old(self).wf(),
            !old(self).map_spec().contains_key(entity.0),
        ensures
            final(self).wf(),
            final(self).owner_seq() == old(self).owner_seq().push(*entity),
            final(self).map_spec() == old(self).map_spec().insert(
                entity.0,
                T::default_spec(),
            ),
    {
        self.create_with(entity, T::make_default());
    }

    /// The component owned by `entity`, or `None` if it owns none.
    pub fn get(&self, entity: &Entity) -> (r: Option<&T>)
        requires
            self.wf(),
        ensures
            match r {
                Some(v) => self.map_spec().contains_key(entity.0) && *v
                    == self.map_spec()[entity.0],
                None => !self.map_spec().contains_key(entity.0),
            },
    {
        match self.lookup.get(&entity.0) {
            Some(t) => {
                let idx: usize = *t;
                Some(&self.components[idx])
            },
            None => None,
        }
    }

    /// Overwrites the component owned by `entity`, which must own one.
    pub fn set(&mut self, entity: &Entity, value: T)
        requires
            old(self).wf(),
            old(self).map_spec().contains_key(entity.0),
        ensures
            final(self).wf(),
            final(self).owner_seq() == old(self).owner_seq(),
            final(self).map_spec() == old(self).map_spec().insert(entity.0, value),
    {
        let idx: usize = match self.lookup.get(&entity.0) {
            Some(t) => *t,
            None => vstd::pervasive::unreached(),
        };
        self.components[idx] = value;
        proof {
            assert(self.map_spec() =~= old(self).map_spec().insert(entity.0, value));
        }
    }

    /// Swaps the component owned by `entity` with `*value`.
    pub fn swap_at(&mut self, entity: &Entity, value: &mut T)
        requires
            old(self).wf(),
            old(self).map_spec().contains_key(entity.0),
        ensures
            final(self).wf(),
            final(self).owner_seq() == old(self).owner_seq(),
            *final(value) == old(self).map_spec()[entity.0],
            final(self).map_spec() == old(self).map_spec().insert(entity.0, *old(value)),
    {
        let idx: usize = match self.lookup.get(&entity.0) {
            Some(t) => *t,
            None => vstd::pervasive::unreached(),
        };
        core::mem::swap(&mut self.components[idx], value);
        proof {
            assert(self.map_spec() =~= old(self).map_spec().insert(entity.0, *old(value)));
        }
    }

    /// Removes `entity`'s component, if it owns one. The last dense slot is
    /// swapped into the vacated one, and the moved owner's lookup entry is
    /// repaired so that no other entity's component is disturbed.
    pub fn remove(&mut self, entity: &Entity)
        requires
            old(self).wf(),
        ensures
            final(self).wf(),
            !final(self).map_spec().contains_key(entity.0),
            final(self).map_spec() == old(self).map_spec().remove(entity.0),
            old(self).map_spec().contains_key(entity.0) ==> final(self).owner_seq() == old(self).owner_seq().update(
                old(self).index_spec(*entity),
                old(self).owner_seq().last(),
            ).drop_last(),
            !old(self).map_spec().contains_key(entity.0) ==> final(self).owner_seq() == old(self).owner_seq(),
    {
        let idx: usize = match self.lookup.get(&entity.0) {
            Some(t) => *t,
            None => {
                proof {
                    assert(self.map_spec() =~= old(self).map_spec().remove(entity.0));
                }
                return ;
            },
        };
        let last = self.components.len() - 1;
        self.components.swap_remove(idx);
        self.entities.swap_remove(idx);
        self.lookup.remove(&entity.0);
        if idx < last {
            let moved = self.entities[idx];
            proof {
                assert(moved == old(self).entities@[last as int]);
                assert(old(self).lookup@[moved.0] == last);
                assert(moved.0 != entity.0);
            }
            self.lookup.insert(moved.0, idx);
        }
        proof {
            let oldm = old(self);
            assert forall|i: int| 0 <= i < self.entities@.len() implies {
                &&& self.lookup@.contains_key((#[trigger] self.entities@[i]).0)
                &&& self.lookup@[self.entities@[i].0] == i
            } by {
                if i != idx {
                    assert(self.entities@[i] == oldm.entities@[i]);
                    assert(oldm.entities@[i].0 != entity.0);
                }
            }
            assert forall|k: u64| #[trigger] self.lookup@.contains_key(k) implies {
                &&& self.lookup@[k] < self.entities@.len()
                &&& self.entities@[self.lookup@[k] as int].0 == k
            } by {
                if idx < last && k == oldm.entities@[last as int].0 {
                } else {
                    assert(oldm.lookup@.contains_key(k) && k != entity.0);
                    assert(oldm.lookup@[k] != idx && oldm.lookup@[k] != last);
                }
            }
            assert(self.map_spec() =~= oldm.map_spec().remove(entity.0));
        }
    }

    /// The owner of the i-th dense slot.
    pub fn owner_at(&self, i: usize) -> (r: Entity)
        requires
            i < self.owner_seq().len(),
        ensures
            r == self.owner_seq()[i as int],
    {
        self.entities[i]
    }

    /// The dense index of `entity`'s component, or `None` if it owns none.
    pub fn index_of(&self, entity: &Entity) -> (r: Option<usize>)
        requires
            self.wf(),
        ensures
            match r {
                Some(i) => self.map_spec().contains_key(entity.0) && i == self.index_spec(*entity)
                    && self.owner_seq()[i as int] == *entity,
                None => !self.map_spec().contains_key(entity.0),
            },
    {
        match self.lookup.get(&entity.0) {
            Some(t) => Some(*t),
            None => None,
        }
    }

    /// All owners, in dense-array order.
    pub fn owners(&self) -> (r: Vec<Entity>)
        ensures
            r@ == self.owner_seq(),
    {
        let mut r: Vec<Entity> = Vec::new();
        let mut i: usize = 0;
        let n = self.entities.len();
        while i < n
            invariant
                n == self.owner_seq().len(),
                i <= n,
                r@ == self.owner_seq().take(i as int),
            decreases n - i,
        {
            r.push(self.entities[i]);
            proof {
                assert(r@ =~= self.owner_seq().take(i + 1));
            }
            i = i + 1;
        }
        proof {
            assert(self.owner_seq().take(n as int) =~= self.owner_seq());
        }
        r
    }
}

/// Every key of the contents map is the identifier of some owner in the
/// dense order.
pub proof fn lemma_map_key_has_owner<T>(m: &ComponentManager<T>, k: u64)
    requires
        m.wf(),
        m.map_spec().contains_key(k),
    ensures
        exists|i: int| 0 <= i < m.owner_seq().len() && (#[trigger] m.owner_seq()[i]).0 == k,
{
    assert(m.owner_seq()[m.lookup@[k] as int].0 == k);
}

/// Removing one entity's component leaves every other entity's component
/// exactly as it was: presence and value both. Together with `remove`'s
/// contract this rules out the classic swap-remove corruption, where the
/// entity moved into the vacated slot loses its lookup entry.
pub proof fn lemma_remove_preserves_others<T>(m: Map<u64, T>, k1: u64, k2: u64)
    requires
        k1 != k2,
    ensures
        m.remove(k1).contains_key(k2) == m.contains_key(k2),
        m.contains_key(k2) ==> m.remove(k1)[k2] == m[k2],
{
}

/// Every owner in the dense order has an entry in the contents map.
pub proof fn lemma_owner_in_map<T>(m: &ComponentManager<T>, i: int)
    requires
        m.wf(),
        0 <= i < m.owner_seq().len(),
    ensures
        m.map_spec().contains_key(m.owner_seq()[i].0),
{
}

} // verus!
