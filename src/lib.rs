//! A generational entity/component/resource registry for a frame-driven engine.
pub mod handle;
pub mod slots;
pub mod store;
pub mod entities;
pub mod resources;
pub mod registry;
pub mod profiler;
pub mod frame;
pub mod renderer;
pub mod editor;
pub mod components;
pub mod input;
pub mod laws;
