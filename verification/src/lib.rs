//! The core of a small game engine: everything that decides, proved.
//!
//! A float is its bits here. Comparing, clamping and casting floats are exact on
//! their bits; what takes arithmetic is computed by the caller and handed in, or is a
//! function that the caller hands in.

pub mod clock;
pub mod clock_laws;
pub mod edit_laws;
pub mod find;
pub mod float;
pub mod gpu;
pub mod gpu_laws;
pub mod input;
pub mod input_laws;
pub mod inspect_laws;
pub mod inspect_panel;
pub mod look_laws;
pub mod material;
pub mod noise;
pub mod noise_laws;
pub mod panel_laws;
pub mod paths;
pub mod physics;
pub mod physics_laws;
pub mod record_laws;
pub mod reflect;
pub mod registry;
pub mod render;
pub mod render_laws;
pub mod replay_laws;
pub mod scene;
pub mod scene_laws;
pub mod shadow;
pub mod sim;
pub mod text;
pub mod text_laws;
pub mod texture;
pub mod trace;
pub mod trace_laws;
pub mod tweak;
pub mod tweak_laws;
pub mod tweak_panel;
pub mod ui;
pub mod ui_laws;
