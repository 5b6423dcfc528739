//! The decision-making core of a Vulkan ray-tracing backend: file formats, geometry
//! tables, resource state machines and the command plans that a device layer performs.
//!
//! Floating-point values are carried as their bit patterns (`u32`), and device objects as
//! the plain numbers that identify them (addresses, handles, slots).

pub mod aftermath;
pub mod animclip;
pub mod assets;
pub mod atmosphere;
pub mod auto_exposure;
pub mod bits;
pub mod blas;
pub mod blas_batch;
pub mod cluster_mesh;
pub mod collision;
pub mod commands;
pub mod compute;
pub mod debug_view;
pub mod dev_ui;
pub mod dlss;
pub mod env_light;
pub mod gizmo_render;
pub mod gpu_transform;
pub mod lights;
pub mod material;
pub mod math;
pub mod omm;
pub mod portal;
pub mod procedural_mesh;
pub mod ray_render_plugin;
pub mod record;
pub mod render_device;
pub mod render_texture;
pub mod restir;
pub mod row_layout;
pub mod rows;
pub mod shader;
pub mod sharc;
pub mod skin_joints;
pub mod skinning;
pub mod sky;
pub mod slot_map;
pub mod text;
pub mod transform_model;
pub mod wire;

use vstd::prelude::*;

verus! {

} // verus!
