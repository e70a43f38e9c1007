//! Scene, configuration, event and mesh-bookkeeping logic of the DistRender
//! engine, verified with Verus.

pub mod text;
pub mod error;
pub mod config;
pub mod runtime;
pub mod event;
pub mod mesh;
pub mod loaders;
pub mod gpu_memory;
pub mod light;
pub mod logging;
pub mod console;
pub mod scene;
pub mod scene_laws;
pub mod hierarchy;
pub mod runtime_scene;
pub mod persisted;
