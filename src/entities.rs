use vstd::prelude::*;
use crate::handle::{InvalidHandle, VersionedIndex};
use crate::slots::{allocated, freed, freed_all, live_handles, live_in, slots_wf, SlotTable, SlotsView};
use crate::store::{lists_keys_in_order, without_index, ComponentStore};

verus! {

/// Why a component operation was refused.
#[derive(Clone, Copy, Debug, PartialEq, Eq, Structural)]
pub enum ComponentError {
    /// The component kind was never registered.
    NotRegistered(u64),
    /// The handle does not address a live entity.
    InvalidHandle(VersionedIndex),
}

/// Why committing a builder failed; on either error no component of it is attached.
#[derive(Clone, Copy, Debug, PartialEq, Eq, Structural)]
pub enum BuildError {
    /// A queued component's kind was never registered; the entity was destroyed.
    NotRegistered(u64),
    /// The entity was already gone when the builder was committed.
    InvalidHandle(VersionedIndex),
}

/// The last value queued for kind `k`, if any.
pub open spec fn last_staged<C>(staged: Seq<(u64, C)>, k: u64) -> Option<C>
    decreases staged.len(),
{
    if staged.len() == 0 {
        None
    } else if staged.last().0 == k {
        Some(staged.last().1)
    } else {
        last_staged(staged.drop_last(), k)
    }
}

/// The rows of kind `k` after committing `staged` for entity `h`.
pub open spec fn with_staged<C>(rows: Map<VersionedIndex, C>, h: VersionedIndex, staged: Seq<(u64, C)>, k: u64) -> Map<VersionedIndex, C> {
    match last_staged(staged, k) {
        Some(v) => rows.insert(h, v),
        None => rows,
    }
}

/// `m` without the rows of the handles in `hs`.
pub open spec fn without_handles<C>(m: Map<VersionedIndex, C>, hs: Seq<VersionedIndex>) -> Map<VersionedIndex, C> {
    Map::new(|h: VersionedIndex| m.contains_key(h) && !hs.contains(h), |h: VersionedIndex| m[h])
}

/// A queued entity: its handle, allocated up front, and the components to attach.
pub struct EntityBuilder<C> {
    entity: VersionedIndex,
    staged: Vec<(u64, C)>,
}

impl<C> EntityBuilder<C> {
    pub closed spec fn entity_spec(&self) -> VersionedIndex {
        self.entity
    }

    pub closed spec fn staged(&self) -> Seq<(u64, C)> {
        self.staged@
    }

    /// The entity's handle, usable before the build is committed.
    pub fn entity(&self) -> (r: VersionedIndex)
        ensures
            r == self.entity_spec(),
    {
        self.entity
    }

    /// Queues a component of kind `kind`.
    pub fn with(self, kind: u64, value: C) -> (r: EntityBuilder<C>)
        ensures
            r.entity_spec() == self.entity_spec(),
            r.staged() == self.staged().push((kind, value)),
    {
        let mut staged = self.staged;
        staged.push((kind, value));
        EntityBuilder { entity: self.entity, staged }
    }

    /// Commits every queued component, or none: when a queued kind is not
    /// registered the entity is destroyed at once and the error names the
    /// first such kind.
    pub fn done(self, m: &mut EntityManager<C>) -> (r: Result<VersionedIndex, BuildError>)
        requires
            old(m).wf(),
        ensures
            final(m).wf(),
            final(m).kinds() == old(m).kinds(),
            final(m).pending() == old(m).pending(),
            r is Ok ==> forall|i: int| 0 <= i < self.staged().len() ==> old(m).registered(#[trigger] self.staged()[i].0),
            r is Ok ==> final(m).slots_view() == old(m).slots_view(),
            r is Ok ==> forall|k: u64| #[trigger] final(m).rows(k) == with_staged(old(m).rows(k), self.entity_spec(), self.staged(), k),
            match r {
                Ok(h) => h == self.entity_spec() && old(m).live(h),
                Err(BuildError::InvalidHandle(h)) => {
                    &&& h == self.entity_spec()
                    &&& !old(m).live(h)
                    &&& final(m).slots_view() == old(m).slots_view()
                    &&& forall|k: u64| #[trigger] final(m).rows(k) == old(m).rows(k)
                },
                Err(BuildError::NotRegistered(k)) => {
                    &&& old(m).live(self.entity_spec())
                    &&& exists|i: int| 0 <= i < self.staged().len() && #[trigger] self.staged()[i].0 == k
                        && forall|j: int| 0 <= j < i ==> old(m).registered(#[trigger] self.staged()[j].0)
                    &&& !old(m).registered(k)
                    &&& final(m).slots_view() == freed(old(m).slots_view(), self.entity_spec())
                    &&& !final(m).live(self.entity_spec())
                    &&& forall|x: u64| #[trigger] final(m).rows(x) == old(m).rows(x).remove(self.entity_spec())
                },
            },
    {
        let h = self.entity;
        if !m.is_live(h) {
            return Err(BuildError::InvalidHandle(h));
        }
        let mut i: usize = 0;
        while i < self.staged.len()
            invariant
                old(m).wf(),
                old(m).live(h),
                h == self.entity_spec(),
                *m == *old(m),
                i <= self.staged@.len(),
                forall|j: int| 0 <= j < i ==> old(m).registered(#[trigger] self.staged@[j].0),
            decreases self.staged@.len() - i,
        {
            let k = self.staged[i].0;
            if m.find_kind(k).is_none() {
                m.drop_entity_rows(h);
                let ghost mid = *m;
                let _ = m.slots.free(h);
                proof {
                    assert(m.kinds == mid.kinds && m.stores == mid.stores);
                    assert forall|x: u64| #[trigger] m.rows(x) == mid.rows(x) by {}
                    old(m).lemma_rows_live();
                    assert forall|x: u64| #[trigger] m.rows(x) == old(m).rows(x).remove(h) by {
                        old(m).lemma_row_at_index(x, h);
                        assert(m.rows(x) =~= old(m).rows(x).remove(h));
                    }
                    assert(self.staged()[i as int].0 == k);
                }
                return Err(BuildError::NotRegistered(k));
            }
            i = i + 1;
        }
        let total = self.staged.len();
        let ghost all = self.staged@;
        let mut staged = self.staged;
        let mut n: usize = 0;
        while staged.len() > 0
            invariant
                m.wf(),
                m.live(h),
                old(m).live(h),
                m.kinds() == old(m).kinds(),
                m.pending() == old(m).pending(),
                m.slots_view() == old(m).slots_view(),
                n + staged@.len() == all.len(),
                all.len() == total,
                staged@ == all.subrange(n as int, all.len() as int),
                forall|j: int| 0 <= j < all.len() ==> old(m).registered(#[trigger] all[j].0),
                forall|k: u64| #[trigger] m.rows(k) == with_staged(old(m).rows(k), h, all.take(n as int), k),
            decreases staged@.len(),
        {
            let (k, v) = staged.remove(0);
            assert(all[n as int] == (k, v));
            let ghost before = *m;
            let res = m.add_component(k, h, v);
            proof {
                assert(old(m).registered(all[n as int].0));
                assert(all.take(n + 1).drop_last() =~= all.take(n as int));
                assert forall|x: u64| #[trigger] m.rows(x) == with_staged(old(m).rows(x), h, all.take(n + 1), x) by {
                    assert(m.rows(x) == before.rows(x) || x == k);
                }
                assert(staged@ =~= all.subrange(n + 1, all.len() as int));
            }
            n = n + 1;
        }
        proof {
            assert(all.take(n as int) =~= all);
            assert(all == self.staged());
            assert forall|k: u64| #[trigger] m.rows(k) == with_staged(old(m).rows(k), h, self.staged(), k) by {}
            assert forall|i: int| 0 <= i < self.staged().len() implies old(m).registered(#[trigger] self.staged()[i].0) by {
                assert(all[i] == self.staged()[i]);
            }
        }
        Ok(h)
    }
}

/// The entities of a registry and their components, one store per registered
/// component kind, with destruction deferred to `flush`.
pub struct EntityManager<C> {
    slots: SlotTable,
    kinds: Vec<u64>,
    stores: Vec<ComponentStore<C>>,
    pending: Vec<VersionedIndex>,
}

impl<C> EntityManager<C> {
    pub closed spec fn slots_view(&self) -> SlotsView {
        self.slots@
    }

    /// The registered component kinds, in order of registration.
    pub closed spec fn kinds(&self) -> Seq<u64> {
        self.kinds@
    }

    /// The destructions requested since the last flush.
    pub closed spec fn pending(&self) -> Seq<VersionedIndex> {
        self.pending@
    }

    /// The rows of kind `k`: empty for a kind that is not registered.
    pub closed spec fn rows(&self, k: u64) -> Map<VersionedIndex, C> {
        if self.kinds@.contains(k) {
            self.stores@[self.kinds@.index_of(k)]@
        } else {
            Map::empty()
        }
    }

    pub open spec fn live(&self, h: VersionedIndex) -> bool {
        live_in(self.slots_view(), h)
    }

    pub open spec fn registered(&self, k: u64) -> bool {
        self.kinds().contains(k)
    }

    pub closed spec fn wf(&self) -> bool {
        &&& self.slots.wf()
        &&& self.kinds@.no_duplicates()
        &&& self.kinds@.len() == self.stores@.len()
        &&& forall|j: int, h: VersionedIndex| 0 <= j < self.stores@.len() && #[trigger] self.stores@[j]@.contains_key(h)
            ==> self.slots.live(h)
    }

    /// Only live entities have components.
    pub proof fn lemma_rows_live(&self)
        requires
            self.wf(),
        ensures
            forall|k: u64, h: VersionedIndex| #[trigger] self.rows(k).contains_key(h) ==> self.live(h),
    {
        assert forall|k: u64, h: VersionedIndex| #[trigger] self.rows(k).contains_key(h) implies self.live(h) by {
            if self.kinds@.contains(k) {
                let j = self.kinds@.index_of(k);
                assert(self.stores@[j]@.contains_key(h));
            }
        }
    }

    /// The entity slot table is well formed.
    pub proof fn lemma_slots_wf(&self)
        requires
            self.wf(),
        ensures
            slots_wf(self.slots_view()),
    {
    }

    proof fn lemma_rows_at(&self, j: int)
        requires
            self.wf(),
            0 <= j < self.kinds@.len(),
        ensures
            self.rows(self.kinds@[j]) == self.stores@[j]@,
    {
        let k = self.kinds@[j];
        assert(self.kinds@.contains(k));
        let i = self.kinds@.index_of(k);
        assert(self.kinds@[i] == k);
    }

    /// A row at the index of a live entity belongs to that entity.
    proof fn lemma_row_at_index(&self, k: u64, h: VersionedIndex)
        requires
            self.wf(),
            self.live(h),
        ensures
            self.rows(k).remove(h) == without_index(self.rows(k), h.index),
    {
        self.lemma_rows_live();
        assert(self.rows(k).remove(h) =~= without_index(self.rows(k), h.index));
    }

    pub fn new() -> (r: EntityManager<C>)
        ensures
            r.wf(),
            r.kinds() == Seq::<u64>::empty(),
            r.pending() == Seq::<VersionedIndex>::empty(),
            r.slots_view().slots == Seq::<crate::slots::Slot>::empty(),
            r.slots_view().free == Seq::<usize>::empty(),
            forall|k: u64| #[trigger] r.rows(k) == Map::<VersionedIndex, C>::empty(),
    {
        EntityManager { slots: SlotTable::new(), kinds: Vec::new(), stores: Vec::new(), pending: Vec::new() }
    }

    fn find_kind(&self, k: u64) -> (r: Option<usize>)
        requires
            self.wf(),
        ensures
            match r {
                Some(j) => j < self.kinds@.len() && self.kinds@[j as int] == k && self.rows(k) == self.stores@[j as int]@,
                None => !self.registered(k),
            },
    {
        let mut j: usize = 0;
        while j < self.kinds.len()
            invariant
                self.wf(),
                j <= self.kinds@.len(),
                forall|i: int| 0 <= i < j ==> self.kinds@[i] != k,
            decreases self.kinds@.len() - j,
        {
            if self.kinds[j] == k {
                proof {
                    self.lemma_rows_at(j as int);
                }
                return Some(j);
            }
            j = j + 1;
        }
        None
    }

    pub fn is_live(&self, h: VersionedIndex) -> (r: bool)
        ensures
            r == self.live(h),
    {
        self.slots.is_live(h)
    }

    pub fn is_registered(&self, k: u64) -> (r: bool)
        requires
            self.wf(),
        ensures
            r == self.registered(k),
    {
        self.find_kind(k).is_some()
    }

    /// Registers component kind `k`; registering it again changes nothing.
    pub fn register_component(&mut self, k: u64)
        requires
            old(self).wf(),
        ensures
            final(self).wf(),
            final(self).kinds() == if old(self).registered(k) { old(self).kinds() } else { old(self).kinds().push(k) },
            forall|x: u64| final(self).registered(x) <==> (old(self).registered(x) || x == k),
            final(self).slots_view() == old(self).slots_view(),
            final(self).pending() == old(self).pending(),
            forall|x: u64| #[trigger] final(self).rows(x) == old(self).rows(x),
    {
        if self.find_kind(k).is_some() {
            return;
        }
        self.kinds.push(k);
        self.stores.push(ComponentStore::new());
        proof {
            let ok = old(self).kinds@;
            assert forall|j: int| 0 <= j < self.kinds@.len() - 1 implies #[trigger] self.kinds@[j] == ok[j] by {}
            assert forall|x: u64| self.registered(x) <==> (old(self).registered(x) || x == k) by {
                if self.kinds@.contains(x) {
                    let a = choose|a: int| 0 <= a < self.kinds@.len() && self.kinds@[a] == x;
                    if a < ok.len() {
                        assert(ok[a] == x);
                    }
                }
                if ok.contains(x) {
                    let a = choose|a: int| 0 <= a < ok.len() && ok[a] == x;
                    assert(self.kinds@[a] == x);
                }
                if x == k {
                    assert(self.kinds@[ok.len() as int] == x);
                }
            }
            assert forall|x: u64| #[trigger] self.rows(x) == old(self).rows(x) by {
                if x == k {
                    self.lemma_rows_at(ok.len() as int);
                } else if ok.contains(x) {
                    let i = ok.index_of(x);
                    self.lemma_rows_at(i);
                    old(self).lemma_rows_at(i);
                } else {
                    assert(!self.kinds@.contains(x));
                }
            }
        }
    }

    /// Drops the row at index `idx` from the `j`-th store.
    fn clear_index_at(&mut self, j: usize, idx: usize)
        requires
            old(self).wf(),
            j < old(self).kinds@.len(),
        ensures
            final(self).slots == old(self).slots,
            final(self).kinds == old(self).kinds,
            final(self).pending == old(self).pending,
            final(self).stores@.len() == old(self).stores@.len(),
            final(self).stores@[j as int]@ == without_index(old(self).stores@[j as int]@, idx),
            forall|i: int| 0 <= i < final(self).stores@.len() && i != j ==> #[trigger] final(self).stores@[i] == old(self).stores@[i],
    {
        let mut s = ComponentStore::new();
        self.stores.set_and_swap(j, &mut s);
        s.clear_index(idx);
        self.stores.set_and_swap(j, &mut s);
    }

    /// Drops every row of the live entity `h`.
    fn drop_entity_rows(&mut self, h: VersionedIndex)
        requires
            old(self).wf(),
            old(self).live(h),
        ensures
            final(self).slots == old(self).slots,
            final(self).kinds == old(self).kinds,
            final(self).pending == old(self).pending,
            final(self).stores@.len() == old(self).stores@.len(),
            forall|j: int, x: VersionedIndex| 0 <= j < final(self).stores@.len() && #[trigger] final(self).stores@[j]@.contains_key(x)
                ==> old(self).slots.live(x) && x.index != h.index,
            forall|x: u64| #[trigger] final(self).rows(x) == old(self).rows(x).remove(h),
    {
        let mut j: usize = 0;
        while j < self.stores.len()
            invariant
                old(self).wf(),
                old(self).live(h),
                self.slots == old(self).slots,
                self.kinds == old(self).kinds,
                self.pending == old(self).pending,
                self.stores@.len() == old(self).stores@.len(),
                j <= self.stores@.len(),
                forall|i: int| 0 <= i < j ==> #[trigger] self.stores@[i]@ == without_index(old(self).stores@[i]@, h.index),
                forall|i: int| j <= i < self.stores@.len() ==> #[trigger] self.stores@[i] == old(self).stores@[i],
            decreases self.stores@.len() - j,
        {
            proof {
                assert(self.wf()) by {
                    assert forall|i: int, x: VersionedIndex| 0 <= i < self.stores@.len() && #[trigger] self.stores@[i]@.contains_key(x)
                        implies self.slots.live(x) by {
                        if i >= j {
                            assert(old(self).stores@[i]@.contains_key(x));
                        } else {
                            assert(old(self).stores@[i]@.contains_key(x));
                        }
                    }
                }
            }
            self.clear_index_at(j, h.index);
            j = j + 1;
        }
        proof {
            assert forall|i: int, x: VersionedIndex| 0 <= i < self.stores@.len() && #[trigger] self.stores@[i]@.contains_key(x)
                implies old(self).slots.live(x) && x.index != h.index by {
                assert(old(self).stores@[i]@.contains_key(x));
            }
            assert forall|x: u64| #[trigger] self.rows(x) == old(self).rows(x).remove(h) by {
                old(self).lemma_row_at_index(x, h);
                if self.kinds@.contains(x) {
                    let i = self.kinds@.index_of(x);
                    assert(self.rows(x) == self.stores@[i]@);
                    assert(old(self).rows(x) == old(self).stores@[i]@);
                } else {
                    assert(self.rows(x) =~= old(self).rows(x).remove(h));
                }
            }
        }
    }

    /// Allocates the entity's handle at once and opens a builder for it.
    pub fn create_entity(&mut self) -> (r: EntityBuilder<C>)
        requires
            old(self).wf(),
        ensures
            final(self).wf(),
            (final(self).slots_view(), r.entity_spec()) == allocated(old(self).slots_view()),
            !old(self).live(r.entity_spec()),
            final(self).live(r.entity_spec()),
            r.staged() == Seq::<(u64, C)>::empty(),
            final(self).kinds() == old(self).kinds(),
            final(self).pending() == old(self).pending(),
            forall|x: u64| #[trigger] final(self).rows(x) == old(self).rows(x),
    {
        let h = self.slots.allocate();
        proof {
            assert forall|j: int, x: VersionedIndex| 0 <= j < self.stores@.len() && #[trigger] self.stores@[j]@.contains_key(x)
                implies self.slots.live(x) by {
                assert(old(self).slots.live(x));
                if old(self).slots@.free.len() > 0 {
                    let f = old(self).slots@.free;
                    assert(f[f.len() - 1] < old(self).slots@.slots.len());
                }
            }
        }
        EntityBuilder { entity: h, staged: Vec::new() }
    }

    /// Attaches (or replaces) the component of kind `k` of entity `h`.
    pub fn add_component(&mut self, k: u64, h: VersionedIndex, value: C) -> (r: Result<(), ComponentError>)
        requires
            old(self).wf(),
        ensures
            final(self).wf(),
            final(self).kinds() == old(self).kinds(),
            final(self).pending() == old(self).pending(),
            final(self).slots_view() == old(self).slots_view(),
            match r {
                Ok(()) => old(self).registered(k) && old(self).live(h)
                    && final(self).rows(k) == old(self).rows(k).insert(h, value),
                Err(ComponentError::NotRegistered(x)) => x == k && !old(self).registered(k),
                Err(ComponentError::InvalidHandle(x)) => x == h && old(self).registered(k) && !old(self).live(h),
            },
            r is Err ==> final(self).rows(k) == old(self).rows(k),
            forall|x: u64| x != k ==> #[trigger] final(self).rows(x) == old(self).rows(x),
    {
        let j = match self.find_kind(k) {
            Some(j) => j,
            None => return Err(ComponentError::NotRegistered(k)),
        };
        if !self.slots.is_live(h) {
            return Err(ComponentError::InvalidHandle(h));
        }
        let mut s = ComponentStore::new();
        self.stores.set_and_swap(j, &mut s);
        s.insert(h, value);
        self.stores.set_and_swap(j, &mut s);
        proof {
            old(self).lemma_rows_live();
            assert forall|i: int, x: VersionedIndex| 0 <= i < self.stores@.len() && #[trigger] self.stores@[i]@.contains_key(x)
                implies self.slots.live(x) by {
                if i != j {
                    assert(self.stores@[i] == old(self).stores@[i]);
                }
            }
            self.lemma_rows_at(j as int);
            assert(self.rows(k) =~= old(self).rows(k).insert(h, value));
            assert forall|x: u64| x != k implies #[trigger] self.rows(x) == old(self).rows(x) by {
                if self.kinds@.contains(x) {
                    let i = self.kinds@.index_of(x);
                    self.lemma_rows_at(i);
                    old(self).lemma_rows_at(i);
                }
            }
        }
        Ok(())
    }

    pub fn get_component(&self, k: u64, h: VersionedIndex) -> (r: Option<&C>)
        requires
            self.wf(),
        ensures
            match r {
                Some(v) => self.rows(k).contains_key(h) && *v == self.rows(k)[h],
                None => !self.rows(k).contains_key(h),
            },
    {
        match self.find_kind(k) {
            Some(j) => self.stores[j].get(h),
            None => None,
        }
    }

    /// Replacing the `j`-th store by one with the same handles keeps the
    /// manager well formed and changes only the rows of that kind.
    proof fn lemma_replace_store(&self, j: int)
        requires
            self.wf(),
            0 <= j < self.kinds@.len(),
        ensures
            forall|o: EntityManager<C>| #![trigger o.wf(), o.stores@[j]]
                o.slots == self.slots && o.kinds == self.kinds && o.pending == self.pending
                && o.stores@ == self.stores@.update(j, o.stores@[j])
                && o.stores@[j]@.dom() == self.stores@[j]@.dom()
                ==> o.wf() && o.rows(self.kinds@[j]) == o.stores@[j]@
                    && forall|x: u64| x != self.kinds@[j] ==> #[trigger] o.rows(x) == self.rows(x),
    {
        assert forall|o: EntityManager<C>| #![trigger o.wf(), o.stores@[j]]
            o.slots == self.slots && o.kinds == self.kinds && o.pending == self.pending
            && o.stores@ == self.stores@.update(j, o.stores@[j])
            && o.stores@[j]@.dom() == self.stores@[j]@.dom()
            implies o.wf() && o.rows(self.kinds@[j]) == o.stores@[j]@
                && forall|x: u64| x != self.kinds@[j] ==> #[trigger] o.rows(x) == self.rows(x) by {
            assert forall|i: int, x: VersionedIndex| 0 <= i < o.stores@.len() && #[trigger] o.stores@[i]@.contains_key(x)
                implies o.slots.live(x) by {
                if i == j {
                    assert(o.stores@[j]@.dom().contains(x));
                    assert(self.stores@[j]@.contains_key(x));
                } else {
                    assert(self.stores@[i]@.contains_key(x));
                }
            }
            o.lemma_rows_at(j);
            assert forall|x: u64| x != self.kinds@[j] implies #[trigger] o.rows(x) == self.rows(x) by {
                if self.kinds@.contains(x) {
                    let i = self.kinds@.index_of(x);
                    o.lemma_rows_at(i);
                    self.lemma_rows_at(i);
                }
            }
        }
    }

    pub fn get_component_mut(&mut self, k: u64, h: VersionedIndex) -> (r: Option<&mut C>)
        requires
            old(self).wf(),
        ensures
            final(self).wf(),
            final(self).kinds() == old(self).kinds(),
            final(self).pending() == old(self).pending(),
            final(self).slots_view() == old(self).slots_view(),
            match r {
                Some(v) => old(self).rows(k).contains_key(h) && *v == old(self).rows(k)[h]
                    && final(self).rows(k) == old(self).rows(k).insert(h, *final(v)),
                None => !old(self).rows(k).contains_key(h) && final(self).rows(k) == old(self).rows(k),
            },
            forall|x: u64| x != k ==> #[trigger] final(self).rows(x) == old(self).rows(x),
    {
        let j = match self.find_kind(k) {
            Some(j) => j,
            None => return None,
        };
        proof {
            self.lemma_replace_store(j as int);
        }
        let store = &mut self.stores[j];
        let r = store.get_mut(h);
        r
    }

    /// Takes out the component of kind `k` of entity `h`, if it has one.
    pub fn remove_component(&mut self, k: u64, h: VersionedIndex) -> (r: Option<C>)
        requires
            old(self).wf(),
        ensures
            final(self).wf(),
            final(self).kinds() == old(self).kinds(),
            final(self).pending() == old(self).pending(),
            final(self).slots_view() == old(self).slots_view(),
            match r {
                Some(v) => old(self).rows(k).contains_key(h) && v == old(self).rows(k)[h]
                    && final(self).rows(k) == old(self).rows(k).remove(h),
                None => !old(self).rows(k).contains_key(h) && final(self).rows(k) == old(self).rows(k),
            },
            forall|x: u64| x != k ==> #[trigger] final(self).rows(x) == old(self).rows(x),
    {
        let j = match self.find_kind(k) {
            Some(j) => j,
            None => return None,
        };
        let mut s = ComponentStore::new();
        self.stores.set_and_swap(j, &mut s);
        let r = s.remove(h);
        self.stores.set_and_swap(j, &mut s);
        proof {
            assert forall|i: int, x: VersionedIndex| 0 <= i < self.stores@.len() && #[trigger] self.stores@[i]@.contains_key(x)
                implies self.slots.live(x) by {
                assert(old(self).stores@[i]@.contains_key(x));
            }
            self.lemma_rows_at(j as int);
            assert forall|x: u64| x != k implies #[trigger] self.rows(x) == old(self).rows(x) by {
                if self.kinds@.contains(x) {
                    let i = self.kinds@.index_of(x);
                    self.lemma_rows_at(i);
                    old(self).lemma_rows_at(i);
                }
            }
        }
        r
    }

    /// A snapshot of the entities that have a component of kind `k`, in index order.
    pub fn query_all(&self, k: u64) -> (r: Vec<VersionedIndex>)
        requires
            self.wf(),
        ensures
            lists_keys_in_order(r@, self.rows(k)),
            forall|h: VersionedIndex| r@.contains(h) ==> self.live(h),
    {
        proof {
            self.lemma_rows_live();
        }
        match self.find_kind(k) {
            Some(j) => self.stores[j].handles(),
            None => {
                let r: Vec<VersionedIndex> = Vec::new();
                proof {
                    assert(self.rows(k) =~= Map::<VersionedIndex, C>::empty());
                }
                r
            },
        }
    }

    /// Requests the destruction of `h` at the next flush.
    pub fn destroy_entity(&mut self, h: VersionedIndex) -> (r: Result<(), InvalidHandle>)
        requires
            old(self).wf(),
        ensures
            final(self).wf(),
            final(self).kinds() == old(self).kinds(),
            final(self).slots_view() == old(self).slots_view(),
            forall|x: u64| #[trigger] final(self).rows(x) == old(self).rows(x),
            r is Ok <==> old(self).live(h),
            r is Ok ==> final(self).pending() == old(self).pending().push(h),
            r is Err ==> r->Err_0 == (InvalidHandle { handle: h }) && final(self).pending() == old(self).pending(),
    {
        if !self.slots.is_live(h) {
            return Err(InvalidHandle { handle: h });
        }
        self.pending.push(h);
        Ok(())
    }

    /// Applies the requested destructions: drops the entities' components and
    /// frees their slots.
    pub fn flush(&mut self)
        requires
            old(self).wf(),
        ensures
            final(self).wf(),
            final(self).kinds() == old(self).kinds(),
            final(self).pending() == Seq::<VersionedIndex>::empty(),
            final(self).slots_view() == freed_all(old(self).slots_view(), old(self).pending()),
            forall|x: u64| #[trigger] final(self).rows(x) == without_handles(old(self).rows(x), old(self).pending()),
    {
        let ghost queue = self.pending@;
        let mut pending: Vec<VersionedIndex> = Vec::new();
        std::mem::swap(&mut pending, &mut self.pending);
        let mut i: usize = 0;
        while i < pending.len()
            invariant
                self.wf(),
                pending@ == queue,
                self.pending@ == Seq::<VersionedIndex>::empty(),
                self.kinds == old(self).kinds,
                i <= queue.len(),
                self.slots@ == freed_all(old(self).slots@, queue.take(i as int)),
                forall|x: u64| #[trigger] self.rows(x) == without_handles(old(self).rows(x), queue.take(i as int)),
            decreases queue.len() - i,
        {
            let h = pending[i];
            let ghost before = *self;
            proof {
                assert(queue.take(i + 1).drop_last() =~= queue.take(i as int));
                assert(queue.take(i + 1).last() == h);
            }
            if self.slots.is_live(h) {
                self.drop_entity_rows(h);
                let ghost mid = *self;
                let _ = self.slots.free(h);
                proof {
                    assert(self.kinds == mid.kinds && self.stores == mid.stores);
                    assert forall|x: u64| #[trigger] self.rows(x) == before.rows(x).remove(h) by {
                        assert(self.rows(x) == mid.rows(x));
                    }
                    assert forall|j: int, x: VersionedIndex| 0 <= j < self.stores@.len() && #[trigger] self.stores@[j]@.contains_key(x)
                        implies self.slots.live(x) by {}
                }
            }
            proof {
                before.lemma_rows_live();
                let t0 = queue.take(i as int);
                let t1 = queue.take(i + 1);
                assert forall|y: VersionedIndex| t1.contains(y) <==> (t0.contains(y) || y == h) by {
                    if t1.contains(y) {
                        let a = choose|a: int| 0 <= a < t1.len() && t1[a] == y;
                        if a < i {
                            assert(t0[a] == y);
                        }
                    }
                    if t0.contains(y) {
                        let a = choose|a: int| 0 <= a < t0.len() && t0[a] == y;
                        assert(t1[a] == y);
                    }
                    if y == h {
                        assert(t1[i as int] == y);
                    }
                }
                assert forall|x: u64| #[trigger] self.rows(x) == without_handles(old(self).rows(x), t1) by {
                    if !before.live(h) {
                        assert(!before.rows(x).contains_key(h));
                        assert(self.rows(x) == before.rows(x));
                    } else {
                        assert(self.rows(x) == before.rows(x).remove(h));
                    }
                    assert(before.rows(x) == without_handles(old(self).rows(x), t0));
                    assert(self.rows(x) =~= without_handles(old(self).rows(x), t1));
                }
            }
            i = i + 1;
        }
        proof {
            assert(queue.take(queue.len() as int) =~= queue);
        }
    }

    /// The number of live entities.
    pub fn entity_count(&self) -> (r: usize)
        ensures
            r as int == live_handles(self.slots_view()).len(),
    {
        self.slots.live_count()
    }

    /// Every live entity, in index order.
    pub fn get_valid_entities(&self) -> (r: Vec<VersionedIndex>)
        ensures
            r@ == live_handles(self.slots_view()),
    {
        self.slots.live_handles()
    }
}

} // verus!
