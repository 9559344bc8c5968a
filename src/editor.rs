use vstd::prelude::*;
use crate::handle::VersionedIndex;
use crate::frame::FrameState;
use crate::registry::Registry;
use crate::slots::live_handles;

verus! {

/// What the debug window shows.
#[derive(Clone, Copy, Debug, PartialEq, Eq, Structural)]
pub struct DebugPanel {
    pub fps: u32,
    pub frame_ms: u32,
    /// The selected entity, or the handle (0, 0) when none is selected.
    pub selected: VersionedIndex,
    pub entity_count: usize,
}

/// What the editor shows in one frame: the live entities to choose from and
/// the debug window.
pub struct EditorPanel {
    pub entities: Vec<VersionedIndex>,
    pub debug: DebugPanel,
}

/// The scene editor overlay: lists the live entities and remembers the one
/// selected.
pub struct SceneEditor {
    pub active_entity: Option<VersionedIndex>,
}

impl SceneEditor {
    pub fn new() -> (r: SceneEditor)
        ensures
            r.active_entity is None,
    {
        SceneEditor { active_entity: None }
    }

    /// Selects an entity, or clears the selection.
    pub fn select(&mut self, entity: Option<VersionedIndex>)
        ensures
            final(self).active_entity == entity,
    {
        self.active_entity = entity;
    }

    /// The entity list: every live entity, in index order.
    pub fn entity_list<C, R>(&self, registry: &Registry<C, R>) -> (r: Vec<VersionedIndex>)
        ensures
            r@ == live_handles(registry.entities.slots_view()),
    {
        registry.get_valid_entities()
    }

    /// The debug window's contents.
    pub fn debug<C, R>(&self, app_state: &FrameState, registry: &Registry<C, R>) -> (r: DebugPanel)
        ensures
            r.fps == app_state.debug_info.fps,
            r.frame_ms == app_state.debug_info.frame_ms,
            r.selected == match self.active_entity {
                Some(e) => e,
                None => VersionedIndex { index: 0, generation: 0 },
            },
            r.entity_count as int == live_handles(registry.entities.slots_view()).len(),
    {
        let selected = match self.active_entity {
            Some(e) => e,
            None => VersionedIndex::new(0, 0),
        };
        DebugPanel {
            fps: app_state.debug_info.fps,
            frame_ms: app_state.debug_info.frame_ms,
            selected,
            entity_count: registry.entity_count(),
        }
    }

    /// One frame of the editor: the entity list, then the debug window.
    pub fn update<C, R>(&mut self, registry: &Registry<C, R>, app_state: &FrameState) -> (r: EditorPanel)
        ensures
            final(self).active_entity == old(self).active_entity,
            r.entities@ == live_handles(registry.entities.slots_view()),
            r.debug.fps == app_state.debug_info.fps,
            r.debug.frame_ms == app_state.debug_info.frame_ms,
            r.debug.selected == match old(self).active_entity {
                Some(e) => e,
                None => VersionedIndex { index: 0, generation: 0 },
            },
            r.debug.entity_count as int == live_handles(registry.entities.slots_view()).len(),
    {
        let entities = self.entity_list(registry);
        let debug = self.debug(app_state, registry);
        EditorPanel { entities, debug }
    }
}

} // verus!
