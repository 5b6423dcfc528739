//! The `.cluster_mesh` asset: a baked-geometry wire format, and its conversion from and
//! to indexed triangles.
//!
//! A file is a fixed header followed by an lz4 frame of length-prefixed slices: vertex
//! positions / octahedral normals / tangents / uvs, cluster-local indices, the cluster
//! tables and LOD DAG, then optional opacity-micromap and skinning slices.

pub mod file;
pub mod flat;
pub mod rebuild;
pub mod types;
