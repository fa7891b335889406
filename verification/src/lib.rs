//! Verified core of the Visionary mod editor.

use vstd::prelude::*;

pub mod bnsh_modules;
pub mod effects;
pub mod float_bits;
pub mod keyed;
pub mod mipmaps;
pub mod particle_frame;
pub mod particle_renderer;
pub mod particle_renderer_bnsh;
pub mod particle_vertices;
pub mod params;
pub mod plugin_deploy;
pub mod paths;
pub mod project_hub;
pub mod regression;
pub mod renderer;
pub mod roster;
pub mod scratch_dirs;
pub mod text;
pub mod texture_data;
pub mod texture_plan;
pub mod texture_uploads;

verus! {

} // verus!
