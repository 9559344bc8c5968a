use quipi::components::CTexture;
use quipi::editor::SceneEditor;
use quipi::frame::{set_frame_debug_info, setup, sum_draw_calls, DebugInfo, FrameResponse, FrameState, QuiPi};
use quipi::handle::VersionedIndex;
use quipi::input::{InputPlugin, WindowEvent};
use quipi::profiler::{millis, Profiler};
use quipi::registry::Registry;
use quipi::renderer::{Renderer2D, RendererError};

const SPRITE: u64 = 10;
const TRANSFORM: u64 = 11;

fn state(delta_us: u64) -> FrameState {
    FrameState { delta_us, debug_mode: false, debug_info: DebugInfo::new() }
}

#[test]
fn frame_debug_info_from_delta() {
    let mut s = state(16_667);
    set_frame_debug_info(&mut s);
    assert_eq!(s.debug_info.fps, 59);
    assert_eq!(s.debug_info.frame_ms, 16);
    let mut z = state(0);
    set_frame_debug_info(&mut z);
    assert_eq!(z.debug_info.fps, u32::MAX);
    assert_eq!(z.debug_info.frame_ms, 0);
    let mut long = state(u64::MAX);
    set_frame_debug_info(&mut long);
    assert_eq!(long.debug_info.fps, 0);
    assert_eq!(long.debug_info.frame_ms, u32::MAX);
}

#[test]
fn profiler_measures_milliseconds() {
    let mut p = Profiler::new();
    p.begin(5_000);
    assert_eq!(p.end(17_999), 12);
    assert_eq!(p.end(4_000), 0);
    assert_eq!(millis(2_500), 2);
}

#[test]
fn draw_calls_add_up_and_saturate() {
    assert_eq!(sum_draw_calls(&vec![3, 4, 5]), 12);
    assert_eq!(sum_draw_calls(&vec![]), 0);
    assert_eq!(sum_draw_calls(&vec![u32::MAX, 1, 2]), u32::MAX);
}

#[test]
fn renderer_needs_camera_and_shader() {
    let mut reg: Registry<u32, u32> = Registry::init();
    assert_eq!(Renderer2D::new(&reg, "cam", "shader"), Err(RendererError::CameraNotLoaded));
    let cam = reg.create_resource(1, Some("cam".to_string()));
    assert_eq!(Renderer2D::new(&reg, "cam", "shader"), Err(RendererError::ShaderNotLoaded));
    let sh = reg.create_resource(2, Some("shader".to_string()));
    assert_eq!(Renderer2D::new(&reg, "cam", "shader"), Ok(Renderer2D { camera: cam, shader: sh }));
}

#[test]
fn renderer_draws_sprites_with_transforms() {
    let mut reg: Registry<u32, u32> = setup(&vec![SPRITE, TRANSFORM]);
    let cam = reg.create_resource(1, Some("cam".to_string()));
    reg.create_resource(2, Some("shader".to_string()));
    let r = Renderer2D::new(&reg, "cam", "shader").unwrap();
    let a = reg.create_entity().with(SPRITE, 1).with(TRANSFORM, 1).done(&mut reg.entities).unwrap();
    let _b = reg.create_entity().with(SPRITE, 2).done(&mut reg.entities).unwrap();
    let c = reg.create_entity().with(TRANSFORM, 3).with(SPRITE, 3).done(&mut reg.entities).unwrap();
    let _d = reg.create_entity().with(TRANSFORM, 4).done(&mut reg.entities).unwrap();
    assert_eq!(r.draw_list(&reg, SPRITE, TRANSFORM), Some(vec![a, c]));
    reg.resources.destroy_resource(cam).unwrap();
    reg.flush();
    assert_eq!(r.draw_list(&reg, SPRITE, TRANSFORM), None);
}

#[test]
fn editor_lists_entities_and_selection() {
    let mut reg: Registry<u32, u32> = Registry::init();
    let a = reg.create_entity().done(&mut reg.entities).unwrap();
    let b = reg.create_entity().done(&mut reg.entities).unwrap();
    let mut s = state(20_000);
    set_frame_debug_info(&mut s);
    let mut ed = SceneEditor::new();
    let p = ed.update(&reg, &s);
    assert_eq!(p.entities, vec![a, b]);
    assert_eq!(p.debug.fps, 50);
    assert_eq!(p.debug.frame_ms, 20);
    assert_eq!(p.debug.selected, VersionedIndex::new(0, 0));
    assert_eq!(p.debug.entity_count, 2);
    ed.select(Some(b));
    assert_eq!(ed.debug(&s, &reg).selected, b);
}

#[test]
fn input_tracks_keys_and_quit() {
    let mut input = InputPlugin::new();
    let quit = input.handle_events(&vec![WindowEvent::KeyDown(4), WindowEvent::KeyDown(7), WindowEvent::KeyDown(4), WindowEvent::KeyUp(4)]);
    assert!(!quit);
    assert!(input.is_held(7));
    assert!(!input.is_held(4));
    assert!(input.handle_events(&vec![WindowEvent::KeyUp(7), WindowEvent::Quit]));
    assert!(!input.is_held(7));
}

#[test]
fn engine_registers_systems_in_order() {
    let mut app: QuiPi<u32, u32, &str, &str> = QuiPi::init(&vec![SPRITE]);
    assert!(app.registry.entities.is_registered(SPRITE));
    assert!(!app.registry.entities.is_registered(TRANSFORM));
    app.register_controller("physics");
    app.register_controller("input");
    app.register_renderer("sprites");
    assert_eq!(app.controllers, vec!["physics", "input"]);
    assert_eq!(app.renderers, vec!["sprites"]);
}

#[test]
fn engine_frame_cycle() {
    let mut app: QuiPi<u32, u32, (), ()> = QuiPi::init(&vec![SPRITE]);
    let e = app.registry.create_entity().with(SPRITE, 1).done(&mut app.registry.entities).unwrap();
    app.registry.entities.destroy_entity(e).unwrap();
    app.end_frame(3, 4, &vec![2, 5], 25_000);
    assert_eq!(app.registry.entities.query_all(SPRITE), vec![e]);
    app.begin_frame();
    assert!(app.registry.entities.query_all(SPRITE).is_empty());
    let s = app.frame_state();
    assert_eq!(s.debug_info.fps, 40);
    assert_eq!(s.debug_info.frame_ms, 25);
    assert_eq!(s.debug_info.controller_ms, 3);
    assert_eq!(s.debug_info.render_ms, 4);
    assert_eq!(s.debug_info.draw_calls, 7);
    assert!(!app.handle_response(FrameResponse::Restart));
    assert_eq!(app.frame_state().delta_us, 0);
    assert!(!app.handle_response(FrameResponse::Continue));
    assert!(app.handle_response(FrameResponse::Quit));
    app.begin_timing(1_000);
    assert_eq!(app.end_timing(9_000), 8);
}

#[test]
fn texture_component_value() {
    let t = CTexture { handle: 7, atlas_location: Some((1, 2)) };
    let u = t;
    assert_eq!(t, u);
    assert_ne!(t, CTexture { handle: 7, atlas_location: None });
}
