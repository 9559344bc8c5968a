use vstd::prelude::*;
use crate::handle::VersionedIndex;
use crate::slots::{allocated, freed_all, live_handles};
use crate::entities::{without_handles, EntityBuilder, EntityManager};
use crate::resources::ResourceManager;

verus! {

/// The single owner of all entities, components and resources. Entities and
/// resources have separate handle spaces.
pub struct Registry<C, R> {
    pub entities: EntityManager<C>,
    pub resources: ResourceManager<R>,
}

impl<C, R> Registry<C, R> {
    pub open spec fn wf(&self) -> bool {
        self.entities.wf() && self.resources.wf()
    }

    /// An empty registry with no component kind registered.
    pub fn init() -> (r: Registry<C, R>)
        ensures
            r.wf(),
            r.entities.kinds() == Seq::<u64>::empty(),
            forall|k: u64| #[trigger] r.entities.rows(k) == Map::<VersionedIndex, C>::empty(),
            r.entities.pending() == Seq::<VersionedIndex>::empty(),
            r.entities.slots_view().slots.len() == 0,
            r.entities.slots_view().free.len() == 0,
            r.resources.values() == Map::<VersionedIndex, R>::empty(),
            r.resources.names() == Seq::<(Seq<char>, VersionedIndex)>::empty(),
            r.resources.pending() == Seq::<VersionedIndex>::empty(),
            r.resources.slots_view().slots.len() == 0,
            r.resources.slots_view().free.len() == 0,
    {
        Registry { entities: EntityManager::new(), resources: ResourceManager::new() }
    }

    pub fn create_entity(&mut self) -> (r: EntityBuilder<C>)
        requires
            old(self).wf(),
        ensures
            final(self).wf(),
            final(self).resources == old(self).resources,
            (final(self).entities.slots_view(), r.entity_spec()) == allocated(old(self).entities.slots_view()),
            final(self).entities.live(r.entity_spec()),
            r.staged() == Seq::<(u64, C)>::empty(),
            final(self).entities.kinds() == old(self).entities.kinds(),
            final(self).entities.pending() == old(self).entities.pending(),
            forall|x: u64| #[trigger] final(self).entities.rows(x) == old(self).entities.rows(x),
    {
        self.entities.create_entity()
    }

    /// The start of a tick: applies the destructions requested for entities,
    /// then those for resources.
    pub fn flush(&mut self)
        requires
            old(self).wf(),
        ensures
            final(self).wf(),
            final(self).entities.kinds() == old(self).entities.kinds(),
            final(self).entities.pending() == Seq::<VersionedIndex>::empty(),
            final(self).entities.slots_view() == freed_all(old(self).entities.slots_view(), old(self).entities.pending()),
            forall|x: u64| #[trigger] final(self).entities.rows(x)
                == without_handles(old(self).entities.rows(x), old(self).entities.pending()),
            final(self).resources.pending() == Seq::<VersionedIndex>::empty(),
            final(self).resources.names() == old(self).resources.names(),
            final(self).resources.slots_view() == freed_all(old(self).resources.slots_view(), old(self).resources.pending()),
            final(self).resources.values() == without_handles(old(self).resources.values(), old(self).resources.pending()),
    {
        self.entities.flush();
        self.resources.flush();
    }

    pub fn create_resource(&mut self, value: R, name: Option<String>) -> (r: VersionedIndex)
        requires
            old(self).wf(),
        ensures
            final(self).wf(),
            final(self).entities == old(self).entities,
            (final(self).resources.slots_view(), r) == allocated(old(self).resources.slots_view()),
            final(self).resources.live(r),
            final(self).resources.values() == old(self).resources.values().insert(r, value),
            final(self).resources.names() == match name {
                Some(n) => old(self).resources.names().push((n@, r)),
                None => old(self).resources.names(),
            },
            final(self).resources.pending() == old(self).resources.pending(),
    {
        self.resources.create_resource(value, name)
    }

    pub fn get_resource(&self, h: VersionedIndex) -> (r: Option<&R>)
        ensures
            match r {
                Some(v) => self.resources.values().contains_key(h) && *v == self.resources.values()[h],
                None => !self.resources.values().contains_key(h),
            },
    {
        self.resources.get_resource(h)
    }

    pub fn get_resource_id(&self, name: &str) -> (r: Option<VersionedIndex>)
        ensures
            r == self.resources.named(name@),
    {
        self.resources.get_resource_id(name)
    }

    pub fn entity_count(&self) -> (r: usize)
        ensures
            r as int == live_handles(self.entities.slots_view()).len(),
    {
        self.entities.entity_count()
    }

    pub fn get_valid_entities(&self) -> (r: Vec<VersionedIndex>)
        ensures
            r@ == live_handles(self.entities.slots_view()),
    {
        self.entities.get_valid_entities()
    }
}

} // verus!
