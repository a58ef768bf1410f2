//! Entity bookkeeping: entities are generational handles into a pool of
//! transforms, with velocity, color and lifetime components kept in pools
//! of their own under the same handles.
use vstd::prelude::*;
use crate::memory::{GenerationalPool, GenerationalPoolView, Handle};

verus! {

/// An entity is just a handle.
pub type Entity = Handle;

/// The position of the first occurrence of `e` in `s`, from position `i` on.
pub open spec fn first_index_from(s: Seq<Handle>, e: Handle, i: int) -> Option<int>
    decreases s.len() - i,
{
    if i < 0 || i >= s.len() {
        None
    } else if s[i] == e {
        Some(i)
    } else {
        first_index_from(s, e, i + 1)
    }
}

/// `s` without the first occurrence of `e`, the last element taking its
/// place (`Vec::swap_remove`); `s` itself when `e` does not occur.
pub open spec fn swap_remove_first(s: Seq<Handle>, e: Handle) -> Seq<Handle> {
    match first_index_from(s, e, 0) {
        Some(i) => s.update(i, s.last()).drop_last(),
        None => s,
    }
}

/// Component storage for all entities.
pub struct EntityManager<Tr, Ve, Co, Li> {
    pub transforms: GenerationalPool<Tr>,
    pub velocities: GenerationalPool<Ve>,
    pub colors: GenerationalPool<Co>,
    pub lifetimes: GenerationalPool<Li>,
    /// Active entities.
    pub entities: Vec<Entity>,
}

impl<Tr, Ve, Co, Li> EntityManager<Tr, Ve, Co, Li> {
    pub open spec fn wf(&self) -> bool {
        &&& self.transforms.wf()
        &&& self.velocities.wf()
        &&& self.colors.wf()
        &&& self.lifetimes.wf()
        &&& self.velocities@.values.len() == self.transforms@.values.len()
        &&& self.colors@.values.len() == self.transforms@.values.len()
        &&& self.lifetimes@.values.len() == self.transforms@.values.len()
    }

    /// Creates a manager whose four component pools hold `capacity` slots.
    pub fn new(capacity: usize) -> (m: Self)
        ensures
            m.wf(),
            m.transforms@ == crate::memory::generational_new_view::<Tr>(capacity as nat),
            m.velocities@ == crate::memory::generational_new_view::<Ve>(capacity as nat),
            m.colors@ == crate::memory::generational_new_view::<Co>(capacity as nat),
            m.lifetimes@ == crate::memory::generational_new_view::<Li>(capacity as nat),
            m.entities@ == Seq::<Entity>::empty(),
    {
        Self {
            transforms: GenerationalPool::new(capacity),
            velocities: GenerationalPool::new(capacity),
            colors: GenerationalPool::new(capacity),
            lifetimes: GenerationalPool::new(capacity),
            entities: Vec::new(),
        }
    }

    /// Creates an entity from its transform: the transform's handle becomes
    /// the entity and joins the active list. `None` when the transform pool
    /// is full.
    pub fn create_entity(&mut self, transform: Tr) -> (r: Option<Entity>)
        requires
            old(self).wf(),
        ensures
            final(self).wf(),
            (final(self).transforms@, r) == old(self).transforms@.allocate(transform),
            final(self).velocities@ == old(self).velocities@,
            final(self).colors@ == old(self).colors@,
            final(self).lifetimes@ == old(self).lifetimes@,
            final(self).entities@ == match r {
                Some(e) => old(self).entities@.push(e),
                None => old(self).entities@,
            },
    {
        match self.transforms.allocate(transform) {
            Some(handle) => {
                self.entities.push(handle);
                Some(handle)
            },
            None => None,
        }
    }

    /// Creates a particle entity with all its components: the transform as
    /// for `create_entity`, then the velocity, color and lifetime stored
    /// under the entity's own handle, so that each pool's `get` finds them
    /// by the entity. `None`, changing nothing, when the transform pool is
    /// full.
    pub fn create_particle(&mut self, transform: Tr, velocity: Ve, color: Co, lifetime: Li) -> (r:
        Option<Entity>)
        requires
            old(self).wf(),
        ensures
            final(self).wf(),
            (final(self).transforms@, r) == old(self).transforms@.allocate(transform),
            final(self).entities@ == match r {
                Some(e) => old(self).entities@.push(e),
                None => old(self).entities@,
            },
            final(self).velocities@ == match r {
                Some(e) => old(self).velocities@.insert(e, velocity),
                None => old(self).velocities@,
            },
            final(self).colors@ == match r {
                Some(e) => old(self).colors@.insert(e, color),
                None => old(self).colors@,
            },
            final(self).lifetimes@ == match r {
                Some(e) => old(self).lifetimes@.insert(e, lifetime),
                None => old(self).lifetimes@,
            },
            r is None <==> old(self).transforms@.free.len() == 0,
            r matches Some(e) ==> {
                &&& final(self).entities@.contains(e)
                &&& final(self).transforms@.get(e) == Some(transform)
                &&& final(self).velocities@.get(e) == Some(velocity)
                &&& final(self).colors@.get(e) == Some(color)
                &&& final(self).lifetimes@.get(e) == Some(lifetime)
            },
    {
        match self.create_entity(transform) {
            Some(entity) => {
                proof {
                    let o = old(self).transforms@;
                    assert(o.free.len() > 0);
                    assert(o.free[o.free.len() - 1] < o.values.len());
                    assert(self.entities@.last() == entity);
                }
                self.velocities.insert(entity, velocity);
                self.colors.insert(entity, color);
                self.lifetimes.insert(entity, lifetime);
                Some(entity)
            },
            None => None,
        }
    }

    /// Destroys an entity: its handle is released in all four pools (where
    /// it names a live object) and its first occurrence leaves the active
    /// list, the last entity taking its place.
    pub fn destroy_entity(&mut self, entity: Entity)
        requires
            old(self).wf(),
        ensures
            final(self).wf(),
            final(self).transforms@ == old(self).transforms@.release(entity),
            final(self).velocities@ == old(self).velocities@.release(entity),
            final(self).colors@ == old(self).colors@.release(entity),
            final(self).lifetimes@ == old(self).lifetimes@.release(entity),
            final(self).entities@ == swap_remove_first(old(self).entities@, entity),
    {
        self.transforms.free(entity);
        self.velocities.free(entity);
        self.colors.free(entity);
        self.lifetimes.free(entity);
        let mut i: usize = 0;
        while i < self.entities.len()
            invariant
                i <= self.entities@.len(),
                self.entities@ == old(self).entities@,
                self.wf(),
                self.transforms@ == old(self).transforms@.release(entity),
                self.velocities@ == old(self).velocities@.release(entity),
                self.colors@ == old(self).colors@.release(entity),
                self.lifetimes@ == old(self).lifetimes@.release(entity),
                first_index_from(self.entities@, entity, 0) == first_index_from(
                    self.entities@,
                    entity,
                    i as int,
                ),
            decreases self.entities@.len() - i,
        {
            if self.entities[i] == entity {
                self.entities.swap_remove(i);
                return;
            }
            i = i + 1;
        }
    }

    pub fn entity_count(&self) -> (r: usize)
        ensures
            r == self.entities@.len(),
    {
        self.entities.len()
    }
}

/// A created entity can read its transform back and is counted; destroying
/// an entity that occurs once in the active list removes it from the list
/// and makes its handle stale.
pub proof fn law_entity_create_destroy<T>(
    pool: GenerationalPoolView<T>,
    entities: Seq<Handle>,
    transform: T,
    e: Handle,
)
    requires
        pool.wf(),
    ensures
        pool.allocate(transform).1 matches Some(h) ==> pool.allocate(transform).0.get(h) == Some(
            transform,
        ),
        pool.release(e).get(e) is None,
        (entities.contains(e) && forall|a: int, b: int|
            0 <= a < b < entities.len() && entities[a] == e ==> entities[b] != e)
            ==> !swap_remove_first(entities, e).contains(e)
                && swap_remove_first(entities, e).len() == entities.len() - 1,
        !entities.contains(e) ==> swap_remove_first(entities, e) == entities,
{
    crate::memory::law_generational_get_after_allocate(pool, transform);
    if pool.can_release(e) {
        crate::memory::law_generational_stale_handle(pool, e, transform);
    }
    lemma_first_index(entities, e, 0);
    if entities.contains(e) && forall|a: int, b: int|
        0 <= a < b < entities.len() && entities[a] == e ==> entities[b] != e {
        let i = first_index_from(entities, e, 0).unwrap();
        let r = swap_remove_first(entities, e);
        assert forall|k: int| 0 <= k < r.len() implies r[k] != e by {
            if k == i {
                assert(r[k] == entities.last());
                assert(entities[entities.len() - 1] != e || entities.len() - 1 == i);
            } else {
                assert(r[k] == entities[k]);
                if k < i {
                    assert(entities[k] != e);
                } else {
                    assert(i < k);
                }
            }
        }
    }
}

proof fn lemma_first_index(s: Seq<Handle>, e: Handle, i: int)
    requires
        0 <= i,
    ensures
        first_index_from(s, e, i) matches Some(p) ==> i <= p < s.len() && s[p] == e && forall|
            j: int,
        | i <= j < p ==> s[j] != e,
        first_index_from(s, e, i) is None ==> forall|j: int| i <= j < s.len() ==> s[j] != e,
    decreases s.len() - i,
{
    if i < s.len() && s[i] != e {
        lemma_first_index(s, e, i + 1);
    }
}

/// The pool after releasing every handle of `hs`, in order.
pub open spec fn release_all<T>(v: GenerationalPoolView<T>, hs: Seq<Handle>) -> GenerationalPoolView<T>
    decreases hs.len(),
{
    if hs.len() == 0 {
        v
    } else {
        release_all(v, hs.drop_last()).release(hs.last())
    }
}

proof fn lemma_swap_remove_multiset(s: Seq<Handle>, i: int)
    requires
        0 <= i < s.len(),
    ensures
        s.update(i, s.last()).drop_last().to_multiset() =~= s.to_multiset().remove(s[i]),
{
    broadcast use vstd::seq_lib::group_to_multiset_ensures, vstd::multiset::group_multiset_axioms;

    let t = s.update(i, s.last());
    vstd::seq_lib::to_multiset_update(s, i, s.last());
    assert(t.drop_last() =~= t.remove(t.len() - 1));
    vstd::seq_lib::to_multiset_remove(t, t.len() - 1);
    assert(t[t.len() - 1] == s.last());
}

/// A scene: the entities and their components.
pub struct Scene<Tr, Ve, Co, Li> {
    pub entities: EntityManager<Tr, Ve, Co, Li>,
}

impl<Tr, Ve, Co, Li> Scene<Tr, Ve, Co, Li> {
    pub fn new(capacity: usize) -> (sc: Self)
        ensures
            sc.entities.wf(),
            sc.entities.transforms@ == crate::memory::generational_new_view::<Tr>(capacity as nat),
            sc.entities.velocities@ == crate::memory::generational_new_view::<Ve>(capacity as nat),
            sc.entities.colors@ == crate::memory::generational_new_view::<Co>(capacity as nat),
            sc.entities.lifetimes@ == crate::memory::generational_new_view::<Li>(capacity as nat),
            sc.entities.entities@ == Seq::<Entity>::empty(),
    {
        Self { entities: EntityManager::new(capacity) }
    }

    /// Removes every entity by destroying them one by one, in list order.
    pub fn clear(&mut self)
        requires
            old(self).entities.wf(),
        ensures
            final(self).entities.wf(),
            final(self).entities.entities@.len() == 0,
            final(self).entities.transforms@ == release_all(
                old(self).entities.transforms@,
                old(self).entities.entities@,
            ),
            final(self).entities.velocities@ == release_all(
                old(self).entities.velocities@,
                old(self).entities.entities@,
            ),
            final(self).entities.colors@ == release_all(
                old(self).entities.colors@,
                old(self).entities.entities@,
            ),
            final(self).entities.lifetimes@ == release_all(
                old(self).entities.lifetimes@,
                old(self).entities.entities@,
            ),
    {
        broadcast use vstd::seq_lib::group_to_multiset_ensures;

        let snapshot: Vec<Entity> = self.entities.entities.clone();
        proof {
            assert(snapshot@ =~= self.entities.entities@) by {
                assert forall|j: int| 0 <= j < snapshot@.len() implies snapshot@[j] == self.entities.entities@[j] by {
                    assert(vstd::pervasive::cloned(self.entities.entities@[j], snapshot@[j]));
                }
            }
            assert(snapshot@.subrange(0, snapshot@.len() as int) =~= snapshot@);
        }
        let ghost snap = snapshot@;
        let n = snapshot.len();
        let mut k: usize = 0;
        while k < n
            invariant
                n == snap.len(),
                snap == snapshot@,
                snap == old(self).entities.entities@,
                k <= n,
                self.entities.wf(),
                self.entities.entities@.to_multiset() == snap.subrange(k as int, n as int).to_multiset(),
                self.entities.transforms@ == release_all(
                    old(self).entities.transforms@,
                    snap.subrange(0, k as int),
                ),
                self.entities.velocities@ == release_all(
                    old(self).entities.velocities@,
                    snap.subrange(0, k as int),
                ),
                self.entities.colors@ == release_all(old(self).entities.colors@, snap.subrange(0, k as int)),
                self.entities.lifetimes@ == release_all(
                    old(self).entities.lifetimes@,
                    snap.subrange(0, k as int),
                ),
            decreases n - k,
        {
            let e = snapshot[k];
            proof {
                let rest = snap.subrange(k as int, n as int);
                assert(rest[0] == e);
                assert(rest.contains(e));
                vstd::seq_lib::to_multiset_contains(rest, e);
                vstd::seq_lib::to_multiset_contains(self.entities.entities@, e);
                assert(self.entities.entities@.to_multiset().count(e) > 0);
                assert(self.entities.entities@.contains(e));
                lemma_first_index(self.entities.entities@, e, 0);
                let i = first_index_from(self.entities.entities@, e, 0).unwrap();
                lemma_swap_remove_multiset(self.entities.entities@, i);
                vstd::seq_lib::to_multiset_remove(rest, 0);
                assert(rest.remove(0) =~= snap.subrange(k + 1, n as int));
                assert(snap.subrange(0, k + 1).drop_last() =~= snap.subrange(0, k as int));
            }
            self.entities.destroy_entity(e);
            k = k + 1;
        }
        proof {
            assert(snap.subrange(n as int, n as int) =~= Seq::<Entity>::empty());
            assert(snap.subrange(0, n as int) =~= snap);
            vstd::seq_lib::to_multiset_len(self.entities.entities@);
            vstd::seq_lib::to_multiset_len(snap.subrange(n as int, n as int));
        }
    }
}

} // verus!
