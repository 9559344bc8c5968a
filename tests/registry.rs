use quipi::entities::{BuildError, ComponentError, EntityManager};
use quipi::handle::{InvalidHandle, VersionedIndex};
use quipi::registry::Registry;
use quipi::resources::{str_eq, ResourceManager};
use quipi::slots::SlotTable;
use quipi::store::ComponentStore;

const POS: u64 = 1;
const VEL: u64 = 2;
const SPRITE: u64 = 3;

#[derive(Clone, Debug, PartialEq)]
struct Camera {
    zoom: u32,
    x: i32,
}

#[test]
fn generation_isolation() {
    let mut m: EntityManager<i32> = EntityManager::new();
    m.register_component(POS);
    let b = m.create_entity();
    let h0 = b.with(POS, 10).done(&mut m).unwrap();
    assert_eq!(h0, VersionedIndex::new(0, 0));
    assert_eq!(m.get_component(POS, h0), Some(&10));
    assert!(m.destroy_entity(h0).is_ok());
    m.flush();
    let h1 = m.create_entity().done(&mut m).unwrap();
    assert_eq!(h1, VersionedIndex::new(0, 1));
    assert_eq!(m.get_component(POS, h0), None);
    assert_eq!(m.get_component(POS, h1), None);
    assert!(m.add_component(POS, h1, 20).is_ok());
    assert_eq!(m.get_component(POS, h1), Some(&20));
    assert_eq!(m.get_component(POS, h0), None);
}

#[test]
fn stale_handles_see_nothing() {
    let mut reg: Registry<i32, Camera> = Registry::init();
    reg.entities.register_component(POS);
    let e = reg.create_entity().with(POS, 5).done(&mut reg.entities).unwrap();
    let r = reg.create_resource(Camera { zoom: 1, x: 0 }, None);
    reg.entities.destroy_entity(e).unwrap();
    reg.resources.destroy_resource(r).unwrap();
    reg.flush();
    let e2 = reg.create_entity().with(POS, 6).done(&mut reg.entities).unwrap();
    let r2 = reg.create_resource(Camera { zoom: 2, x: 0 }, None);
    assert_eq!(e2.index, e.index);
    assert_eq!(r2.index, r.index);
    assert!(!reg.entities.is_live(e));
    assert!(!reg.resources.is_live(r));
    assert_eq!(reg.entities.get_component(POS, e), None);
    assert_eq!(reg.get_resource(r), None);
    assert_eq!(reg.entities.get_component(POS, e2), Some(&6));
    assert_eq!(reg.get_resource(r2), Some(&Camera { zoom: 2, x: 0 }));
}

#[test]
fn query_lists_live_holders_in_index_order() {
    let mut m: EntityManager<i32> = EntityManager::new();
    m.register_component(POS);
    m.register_component(VEL);
    let a = m.create_entity().with(POS, 1).done(&mut m).unwrap();
    let b = m.create_entity().with(VEL, 2).done(&mut m).unwrap();
    let c = m.create_entity().with(POS, 3).with(VEL, 4).done(&mut m).unwrap();
    assert_eq!(m.query_all(POS), vec![a, c]);
    assert_eq!(m.query_all(VEL), vec![b, c]);
    assert_eq!(m.query_all(SPRITE), Vec::<VersionedIndex>::new());
    m.destroy_entity(a).unwrap();
    m.flush();
    let d = m.create_entity().with(POS, 5).done(&mut m).unwrap();
    assert_eq!(d, VersionedIndex::new(0, 1));
    assert_eq!(m.query_all(POS), vec![d, c]);
}

#[test]
fn builder_atomicity() {
    let mut m: EntityManager<i32> = EntityManager::new();
    m.register_component(POS);
    let b = m.create_entity();
    let e = b.entity();
    let r = b.with(POS, 1).with(VEL, 2).done(&mut m);
    assert_eq!(r, Err(BuildError::NotRegistered(VEL)));
    assert!(m.query_all(POS).is_empty());
    assert!(!m.is_live(e));
    assert_eq!(m.entity_count(), 0);
    let next = m.create_entity().done(&mut m).unwrap();
    assert_eq!(next, VersionedIndex::new(e.index, e.generation + 1));
}

#[test]
fn builder_on_a_destroyed_entity_fails() {
    let mut m: EntityManager<i32> = EntityManager::new();
    m.register_component(POS);
    let b = m.create_entity();
    let e = b.entity();
    m.destroy_entity(e).unwrap();
    m.flush();
    assert_eq!(b.with(POS, 1).done(&mut m), Err(BuildError::InvalidHandle(e)));
    assert!(m.query_all(POS).is_empty());
}

#[test]
fn builder_keeps_the_last_value_of_a_kind() {
    let mut m: EntityManager<i32> = EntityManager::new();
    m.register_component(POS);
    let e = m.create_entity().with(POS, 1).with(POS, 7).done(&mut m).unwrap();
    assert_eq!(m.get_component(POS, e), Some(&7));
    assert_eq!(m.query_all(POS), vec![e]);
}

#[test]
fn flush_deferral() {
    let mut m: EntityManager<i32> = EntityManager::new();
    m.register_component(POS);
    let e = m.create_entity().with(POS, 1).done(&mut m).unwrap();
    m.destroy_entity(e).unwrap();
    assert_eq!(m.query_all(POS), vec![e]);
    assert!(m.is_live(e));
    assert_eq!(m.get_component(POS, e), Some(&1));
    m.flush();
    assert!(m.query_all(POS).is_empty());
    assert!(!m.is_live(e));
}

#[test]
fn destroying_twice_in_a_tick_frees_once() {
    let mut m: EntityManager<i32> = EntityManager::new();
    let e = m.create_entity().done(&mut m).unwrap();
    m.destroy_entity(e).unwrap();
    m.destroy_entity(e).unwrap();
    m.flush();
    assert_eq!(m.destroy_entity(e), Err(InvalidHandle { handle: e }));
    let f = m.create_entity().done(&mut m).unwrap();
    let g = m.create_entity().done(&mut m).unwrap();
    assert_eq!(f, VersionedIndex::new(0, 1));
    assert_eq!(g, VersionedIndex::new(1, 0));
}

#[test]
fn named_resource_identity() {
    let mut r: ResourceManager<Camera> = ResourceManager::new();
    let cam = Camera { zoom: 3, x: -4 };
    let id = r.create_resource(cam.clone(), Some("main".to_string()));
    assert_eq!(r.get_resource_id("main"), Some(id));
    assert_eq!(r.get_resource(id), Some(&cam));
    assert_eq!(r.get_resource_id("other"), None);
}

#[test]
fn a_name_refers_to_its_latest_resource() {
    let mut r: ResourceManager<u32> = ResourceManager::new();
    let a = r.create_resource(1, Some("shader".to_string()));
    let b = r.create_resource(2, Some("shader".to_string()));
    assert_ne!(a, b);
    assert_eq!(r.get_resource_id("shader"), Some(b));
    r.destroy_resource(b).unwrap();
    assert_eq!(r.get_resource_id("shader"), Some(b));
    r.flush();
    assert_eq!(r.get_resource_id("shader"), None);
    assert_eq!(r.get_resource(a), Some(&1));
}

#[test]
fn resources_can_be_changed_in_place() {
    let mut r: ResourceManager<u32> = ResourceManager::new();
    let a = r.create_resource(1, None);
    if let Some(v) = r.get_resource_mut(a) {
        *v = 9;
    }
    assert_eq!(r.get_resource(a), Some(&9));
    assert_eq!(r.destroy_resource(VersionedIndex::new(5, 0)), Err(InvalidHandle { handle: VersionedIndex::new(5, 0) }));
}

#[test]
fn add_component_errors() {
    let mut m: EntityManager<i32> = EntityManager::new();
    m.register_component(POS);
    let e = m.create_entity().done(&mut m).unwrap();
    assert_eq!(m.add_component(VEL, e, 1), Err(ComponentError::NotRegistered(VEL)));
    let ghost = VersionedIndex::new(e.index, e.generation + 1);
    assert_eq!(m.add_component(POS, ghost, 1), Err(ComponentError::InvalidHandle(ghost)));
    assert!(m.add_component(POS, e, 1).is_ok());
    assert!(m.add_component(POS, e, 2).is_ok());
    assert_eq!(m.get_component(POS, e), Some(&2));
}

#[test]
fn register_is_idempotent() {
    let mut m: EntityManager<i32> = EntityManager::new();
    m.register_component(POS);
    let e = m.create_entity().with(POS, 4).done(&mut m).unwrap();
    m.register_component(POS);
    assert!(m.is_registered(POS));
    assert!(!m.is_registered(VEL));
    assert_eq!(m.get_component(POS, e), Some(&4));
}

#[test]
fn remove_and_mutate_components() {
    let mut m: EntityManager<i32> = EntityManager::new();
    m.register_component(POS);
    let e = m.create_entity().with(POS, 4).done(&mut m).unwrap();
    if let Some(v) = m.get_component_mut(POS, e) {
        *v += 10;
    }
    assert_eq!(m.get_component(POS, e), Some(&14));
    assert_eq!(m.remove_component(POS, e), Some(14));
    assert_eq!(m.remove_component(POS, e), None);
    assert!(m.query_all(POS).is_empty());
    assert!(m.is_live(e));
}

#[test]
fn count_and_list_live_entities() {
    let mut reg: Registry<i32, u32> = Registry::init();
    let a = reg.create_entity().done(&mut reg.entities).unwrap();
    let b = reg.create_entity().done(&mut reg.entities).unwrap();
    let c = reg.create_entity().done(&mut reg.entities).unwrap();
    assert_eq!(reg.entity_count(), 3);
    reg.entities.destroy_entity(b).unwrap();
    assert_eq!(reg.entity_count(), 3);
    reg.flush();
    assert_eq!(reg.entity_count(), 2);
    assert_eq!(reg.get_valid_entities(), vec![a, c]);
}

#[test]
fn slot_table_reuses_last_freed_first() {
    let mut t = SlotTable::new();
    let a = t.allocate();
    let b = t.allocate();
    let c = t.allocate();
    assert!(t.free(a).is_ok());
    assert!(t.free(c).is_ok());
    assert_eq!(t.free(c), Err(InvalidHandle { handle: c }));
    assert_eq!(t.allocate(), VersionedIndex::new(2, 1));
    assert_eq!(t.allocate(), VersionedIndex::new(0, 1));
    assert_eq!(t.allocate(), VersionedIndex::new(3, 0));
    assert!(t.is_live(b));
    assert!(!t.is_live(a));
    assert_eq!(t.live_count(), 4);
}

#[test]
fn store_checks_generation() {
    let mut s: ComponentStore<&str> = ComponentStore::new();
    s.insert(VersionedIndex::new(2, 0), "old");
    s.insert(VersionedIndex::new(2, 1), "new");
    assert_eq!(s.get(VersionedIndex::new(2, 0)), None);
    assert_eq!(s.get(VersionedIndex::new(2, 1)), Some(&"new"));
    assert_eq!(s.handles(), vec![VersionedIndex::new(2, 1)]);
    s.clear_index(2);
    assert!(s.handles().is_empty());
}

#[test]
fn string_equality() {
    assert!(str_eq("main", "main"));
    assert!(!str_eq("main", "mai"));
    assert!(!str_eq("main", "maim"));
    assert!(str_eq("", ""));
}
