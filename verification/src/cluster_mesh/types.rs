//! What a `.cluster_mesh` file holds.

use crate::bits::{Vec2, Vec3, Vec4};
use crate::record::{put_words, Record};
use crate::wire::get_u32;
use vstd::prelude::*;

verus! {

/// A run of vertices and of the triangles over them.
#[derive(Clone, Copy, Debug, Default, PartialEq, Eq, Structural)]
pub struct Cluster {
    pub vertex_offset: u32,
    pub vertex_count: u32,
    pub index_offset: u32,
    pub triangle_count: u32,
    pub bounds_sphere: Vec4,
    pub local_material_id: u32,
    pub lod_level: u32,
    pub _pad0: u32,
    pub _pad1: u32,
}

/// A group of clusters that are refined together.
#[derive(Clone, Copy, Debug, Default, PartialEq, Eq, Structural)]
pub struct ClusterLodGroup {
    pub cluster_start: u32,
    pub cluster_count: u32,
    pub children_offset: u32,
    pub children_count: u32,
    pub traversal_sphere: Vec4,
    pub max_quadric_error: u32,
    pub parent_group: u32,
    pub lod_level: u32,
    pub _pad: u32,
}

/// A node of the hierarchy over the groups.
#[derive(Clone, Copy, Debug, Default, PartialEq, Eq, Structural)]
pub struct ClusterBvhNode {
    pub traversal_sphere: Vec4,
    pub max_quadric_error: u32,
    pub children_offset: u32,
    pub children_packed: u32,
    pub _pad: u32,
}

/// The box around the whole mesh.
#[derive(Clone, Copy, Debug, Default, PartialEq, Eq, Structural)]
pub struct ClusterMeshAabb {
    pub center: Vec4,
    pub half_extent: Vec4,
}

/// The box that an animated cluster stays inside.
#[derive(Clone, Copy, Debug, Default, PartialEq, Eq, Structural)]
pub struct ClusterBloatAabb {
    pub min: Vec4,
    pub max: Vec4,
}

/// One opacity-micromap triangle.
#[derive(Clone, Copy, Debug, Default, PartialEq, Eq, Structural)]
pub struct OmmDesc {
    pub offset: u32,
    pub subdivision_level: u16,
    pub format: u16,
}

/// How many micromaps have one subdivision level and format.
#[derive(Clone, Copy, Debug, Default, PartialEq, Eq, Structural)]
pub struct OmmUsage {
    pub count: u32,
    pub subdivision_level: u16,
    pub format: u16,
}

/// The joints that move one vertex.
#[derive(Clone, Copy, Debug, Default, PartialEq, Eq, Structural)]
pub struct JointIndices {
    pub j0: u16,
    pub j1: u16,
    pub j2: u16,
    pub j3: u16,
}

/// Everything a `.cluster_mesh` file holds. Slices that nothing here uses (the LOD DAG,
/// micromaps, skinning) are kept so that a file round-trips unchanged.
#[derive(Clone, Debug)]
pub struct ClusterMeshData {
    pub vertex_positions: Vec<Vec3>,
    /// Octahedral normals packed as 2x16 snorm.
    pub vertex_normals: Vec<u32>,
    pub vertex_tangents: Vec<Vec4>,
    pub vertex_uvs: Vec<Vec2>,
    /// Cluster-local indices, 3 per triangle.
    pub indices: Vec<u32>,
    pub clusters: Vec<Cluster>,
    pub groups: Vec<ClusterLodGroup>,
    pub nodes: Vec<ClusterBvhNode>,
    pub child_table: Vec<u32>,
    pub cluster_to_group: Vec<u32>,
    pub aabb: ClusterMeshAabb,
    pub mesh_max_error: u32,
    pub root_group_id: u32,
    pub root_node_id: u32,
    pub lod_levels: u32,
    pub omm_array_data: Vec<u8>,
    pub omm_descs: Vec<OmmDesc>,
    pub omm_index: Vec<i32>,
    pub omm_usage: Vec<OmmUsage>,
    pub omm_index_usage: Vec<OmmUsage>,
    pub vertex_joint_indices: Vec<JointIndices>,
    pub vertex_joint_weights: Vec<Vec4>,
    pub cluster_bloat_aabbs: Vec<ClusterBloatAabb>,
    pub inverse_bind_count: u32,
}

/// The contents of a [`ClusterMeshData`].
#[verifier::ext_equal]
pub ghost struct ClusterMeshView {
    pub vertex_positions: Seq<Vec3>,
    pub vertex_normals: Seq<u32>,
    pub vertex_tangents: Seq<Vec4>,
    pub vertex_uvs: Seq<Vec2>,
    pub indices: Seq<u32>,
    pub clusters: Seq<Cluster>,
    pub groups: Seq<ClusterLodGroup>,
    pub nodes: Seq<ClusterBvhNode>,
    pub child_table: Seq<u32>,
    pub cluster_to_group: Seq<u32>,
    pub aabb: ClusterMeshAabb,
    pub mesh_max_error: u32,
    pub root_group_id: u32,
    pub root_node_id: u32,
    pub lod_levels: u32,
    pub omm_array_data: Seq<u8>,
    pub omm_descs: Seq<OmmDesc>,
    pub omm_index: Seq<i32>,
    pub omm_usage: Seq<OmmUsage>,
    pub omm_index_usage: Seq<OmmUsage>,
    pub vertex_joint_indices: Seq<JointIndices>,
    pub vertex_joint_weights: Seq<Vec4>,
    pub cluster_bloat_aabbs: Seq<ClusterBloatAabb>,
    pub inverse_bind_count: u32,
}

impl View for ClusterMeshData {
    type V = ClusterMeshView;

    open spec fn view(&self) -> ClusterMeshView {
        ClusterMeshView {
            vertex_positions: self.vertex_positions@,
            vertex_normals: self.vertex_normals@,
            vertex_tangents: self.vertex_tangents@,
            vertex_uvs: self.vertex_uvs@,
            indices: self.indices@,
            clusters: self.clusters@,
            groups: self.groups@,
            nodes: self.nodes@,
            child_table: self.child_table@,
            cluster_to_group: self.cluster_to_group@,
            aabb: self.aabb,
            mesh_max_error: self.mesh_max_error,
            root_group_id: self.root_group_id,
            root_node_id: self.root_node_id,
            lod_levels: self.lod_levels,
            omm_array_data: self.omm_array_data@,
            omm_descs: self.omm_descs@,
            omm_index: self.omm_index@,
            omm_usage: self.omm_usage@,
            omm_index_usage: self.omm_index_usage@,
            vertex_joint_indices: self.vertex_joint_indices@,
            vertex_joint_weights: self.vertex_joint_weights@,
            cluster_bloat_aabbs: self.cluster_bloat_aabbs@,
            inverse_bind_count: self.inverse_bind_count,
        }
    }
}

/// Why a `.cluster_mesh` could not be read, written or made.
#[derive(Clone, Copy, Debug, PartialEq, Eq, Structural)]
pub enum ClusterMeshError {
    /// The file is not a cluster mesh.
    WrongFileType,
    /// The file has a version that is not read.
    WrongVersion { found: u64 },
    /// The slices could not be compressed.
    Compression,
    /// The bytes end, or stop being an lz4 frame, before the last slice does.
    Io,
    /// The mesh lacks an attribute.
    MissingAttribute(Attribute),
}

/// A vertex attribute that a mesh must have.
#[derive(Clone, Copy, Debug, PartialEq, Eq, Structural)]
pub enum Attribute {
    Position,
    Normal,
}

impl Record for Cluster {
    open spec fn count() -> nat {
        12
    }

    open spec fn words(self) -> Seq<u32> {
        seq![
            self.vertex_offset,
            self.vertex_count,
            self.index_offset,
            self.triangle_count,
            self.bounds_sphere.x,
            self.bounds_sphere.y,
            self.bounds_sphere.z,
            self.bounds_sphere.w,
            self.local_material_id,
            self.lod_level,
            self._pad0,
            self._pad1,
        ]
    }

    open spec fn of_words(ws: Seq<u32>) -> Self {
        Cluster {
            vertex_offset: ws[0],
            vertex_count: ws[1],
            index_offset: ws[2],
            triangle_count: ws[3],
            bounds_sphere: Vec4 { x: ws[4], y: ws[5], z: ws[6], w: ws[7] },
            local_material_id: ws[8],
            lod_level: ws[9],
            _pad0: ws[10],
            _pad1: ws[11],
        }
    }

    proof fn lemma_words(self) {
    }

    fn word_count() -> (n: usize) {
        12
    }

    fn get(bytes: &[u8], at: usize) -> (r: Self) {
        assert(bytes.len() <= usize::MAX);
        Cluster {
            vertex_offset: get_u32(bytes, at),
            vertex_count: get_u32(bytes, at + 4),
            index_offset: get_u32(bytes, at + 8),
            triangle_count: get_u32(bytes, at + 12),
            bounds_sphere: Vec4 { x: get_u32(bytes, at + 16), y: get_u32(bytes, at + 20),
                z: get_u32(bytes, at + 24), w: get_u32(bytes, at + 28) },
            local_material_id: get_u32(bytes, at + 32),
            lod_level: get_u32(bytes, at + 36),
            _pad0: get_u32(bytes, at + 40),
            _pad1: get_u32(bytes, at + 44),
        }
    }

    fn put(&self, out: &mut Vec<u8>) {
        let ws: [u32; 12] = [
            self.vertex_offset,
            self.vertex_count,
            self.index_offset,
            self.triangle_count,
            self.bounds_sphere.x,
            self.bounds_sphere.y,
            self.bounds_sphere.z,
            self.bounds_sphere.w,
            self.local_material_id,
            self.lod_level,
            self._pad0,
            self._pad1,
        ];
        assert(ws@ =~= self.words());
        put_words(out, &ws);
    }
}

impl Record for ClusterLodGroup {
    open spec fn count() -> nat {
        12
    }

    open spec fn words(self) -> Seq<u32> {
        seq![
            self.cluster_start,
            self.cluster_count,
            self.children_offset,
            self.children_count,
            self.traversal_sphere.x,
            self.traversal_sphere.y,
            self.traversal_sphere.z,
            self.traversal_sphere.w,
            self.max_quadric_error,
            self.parent_group,
            self.lod_level,
            self._pad,
        ]
    }

    open spec fn of_words(ws: Seq<u32>) -> Self {
        ClusterLodGroup {
            cluster_start: ws[0],
            cluster_count: ws[1],
            children_offset: ws[2],
            children_count: ws[3],
            traversal_sphere: Vec4 { x: ws[4], y: ws[5], z: ws[6], w: ws[7] },
            max_quadric_error: ws[8],
            parent_group: ws[9],
            lod_level: ws[10],
            _pad: ws[11],
        }
    }

    proof fn lemma_words(self) {
    }

    fn word_count() -> (n: usize) {
        12
    }

    fn get(bytes: &[u8], at: usize) -> (r: Self) {
        assert(bytes.len() <= usize::MAX);
        ClusterLodGroup {
            cluster_start: get_u32(bytes, at),
            cluster_count: get_u32(bytes, at + 4),
            children_offset: get_u32(bytes, at + 8),
            children_count: get_u32(bytes, at + 12),
            traversal_sphere: Vec4 { x: get_u32(bytes, at + 16), y: get_u32(bytes, at + 20),
                z: get_u32(bytes, at + 24), w: get_u32(bytes, at + 28) },
            max_quadric_error: get_u32(bytes, at + 32),
            parent_group: get_u32(bytes, at + 36),
            lod_level: get_u32(bytes, at + 40),
            _pad: get_u32(bytes, at + 44),
        }
    }

    fn put(&self, out: &mut Vec<u8>) {
        let ws: [u32; 12] = [
            self.cluster_start,
            self.cluster_count,
            self.children_offset,
            self.children_count,
            self.traversal_sphere.x,
            self.traversal_sphere.y,
            self.traversal_sphere.z,
            self.traversal_sphere.w,
            self.max_quadric_error,
            self.parent_group,
            self.lod_level,
            self._pad,
        ];
        assert(ws@ =~= self.words());
        put_words(out, &ws);
    }
}

impl Record for ClusterBvhNode {
    open spec fn count() -> nat {
        8
    }

    open spec fn words(self) -> Seq<u32> {
        seq![
            self.traversal_sphere.x,
            self.traversal_sphere.y,
            self.traversal_sphere.z,
            self.traversal_sphere.w,
            self.max_quadric_error,
            self.children_offset,
            self.children_packed,
            self._pad,
        ]
    }

    open spec fn of_words(ws: Seq<u32>) -> Self {
        ClusterBvhNode {
            traversal_sphere: Vec4 { x: ws[0], y: ws[1], z: ws[2], w: ws[3] },
            max_quadric_error: ws[4],
            children_offset: ws[5],
            children_packed: ws[6],
            _pad: ws[7],
        }
    }

    proof fn lemma_words(self) {
    }

    fn word_count() -> (n: usize) {
        8
    }

    fn get(bytes: &[u8], at: usize) -> (r: Self) {
        assert(bytes.len() <= usize::MAX);
        ClusterBvhNode {
            traversal_sphere: Vec4 { x: get_u32(bytes, at), y: get_u32(bytes, at + 4),
                z: get_u32(bytes, at + 8), w: get_u32(bytes, at + 12) },
            max_quadric_error: get_u32(bytes, at + 16),
            children_offset: get_u32(bytes, at + 20),
            children_packed: get_u32(bytes, at + 24),
            _pad: get_u32(bytes, at + 28),
        }
    }

    fn put(&self, out: &mut Vec<u8>) {
        let ws: [u32; 8] = [
            self.traversal_sphere.x,
            self.traversal_sphere.y,
            self.traversal_sphere.z,
            self.traversal_sphere.w,
            self.max_quadric_error,
            self.children_offset,
            self.children_packed,
            self._pad,
        ];
        assert(ws@ =~= self.words());
        put_words(out, &ws);
    }
}

impl Record for ClusterMeshAabb {
    open spec fn count() -> nat {
        8
    }

    open spec fn words(self) -> Seq<u32> {
        seq![
            self.center.x,
            self.center.y,
            self.center.z,
            self.center.w,
            self.half_extent.x,
            self.half_extent.y,
            self.half_extent.z,
            self.half_extent.w,
        ]
    }

    open spec fn of_words(ws: Seq<u32>) -> Self {
        ClusterMeshAabb {
            center: Vec4 { x: ws[0], y: ws[1], z: ws[2], w: ws[3] },
            half_extent: Vec4 { x: ws[4], y: ws[5], z: ws[6], w: ws[7] },
        }
    }

    proof fn lemma_words(self) {
    }

    fn word_count() -> (n: usize) {
        8
    }

    fn get(bytes: &[u8], at: usize) -> (r: Self) {
        assert(bytes.len() <= usize::MAX);
        ClusterMeshAabb {
            center: Vec4 { x: get_u32(bytes, at), y: get_u32(bytes, at + 4), z: get_u32(bytes, at
                + 8), w: get_u32(bytes, at + 12) },
            half_extent: Vec4 { x: get_u32(bytes, at + 16), y: get_u32(bytes, at + 20),
                z: get_u32(bytes, at + 24), w: get_u32(bytes, at + 28) },
        }
    }

    fn put(&self, out: &mut Vec<u8>) {
        let ws: [u32; 8] = [
            self.center.x,
            self.center.y,
            self.center.z,
            self.center.w,
            self.half_extent.x,
            self.half_extent.y,
            self.half_extent.z,
            self.half_extent.w,
        ];
        assert(ws@ =~= self.words());
        put_words(out, &ws);
    }
}

impl Record for ClusterBloatAabb {
    open spec fn count() -> nat {
        8
    }

    open spec fn words(self) -> Seq<u32> {
        seq![
            self.min.x,
            self.min.y,
            self.min.z,
            self.min.w,
            self.max.x,
            self.max.y,
            self.max.z,
            self.max.w,
        ]
    }

    open spec fn of_words(ws: Seq<u32>) -> Self {
        ClusterBloatAabb {
            min: Vec4 { x: ws[0], y: ws[1], z: ws[2], w: ws[3] },
            max: Vec4 { x: ws[4], y: ws[5], z: ws[6], w: ws[7] },
        }
    }

    proof fn lemma_words(self) {
    }

    fn word_count() -> (n: usize) {
        8
    }

    fn get(bytes: &[u8], at: usize) -> (r: Self) {
        assert(bytes.len() <= usize::MAX);
        ClusterBloatAabb {
            min: Vec4 { x: get_u32(bytes, at), y: get_u32(bytes, at + 4), z: get_u32(bytes, at + 8),
                w: get_u32(bytes, at + 12) },
            max: Vec4 { x: get_u32(bytes, at + 16), y: get_u32(bytes, at + 20), z: get_u32(bytes, at
                + 24), w: get_u32(bytes, at + 28) },
        }
    }

    fn put(&self, out: &mut Vec<u8>) {
        let ws: [u32; 8] = [
            self.min.x,
            self.min.y,
            self.min.z,
            self.min.w,
            self.max.x,
            self.max.y,
            self.max.z,
            self.max.w,
        ];
        assert(ws@ =~= self.words());
        put_words(out, &ws);
    }
}

/// The word whose low half is `low` and whose high half is `high`.
pub open spec fn halves(low: u16, high: u16) -> u32 {
    (low + 65536 * high) as u32
}

/// The low half of a word.
pub open spec fn low_half(w: u32) -> u16 {
    (w % 65536) as u16
}

/// The high half of a word.
pub open spec fn high_half(w: u32) -> u16 {
    (w / 65536) as u16
}

fn join_halves(low: u16, high: u16) -> (w: u32)
    ensures
        w == halves(low, high),
{
    low as u32 + 65536 * (high as u32)
}

impl Record for OmmDesc {
    open spec fn count() -> nat {
        2
    }

    open spec fn words(self) -> Seq<u32> {
        seq![self.offset, halves(self.subdivision_level, self.format)]
    }

    open spec fn of_words(ws: Seq<u32>) -> Self {
        OmmDesc { offset: ws[0], subdivision_level: low_half(ws[1]), format: high_half(ws[1]) }
    }

    proof fn lemma_words(self) {
    }

    fn word_count() -> (n: usize) {
        2
    }

    fn get(bytes: &[u8], at: usize) -> (r: Self) {
        assert(bytes.len() <= usize::MAX);
        let w: u32 = get_u32(bytes, at + 4);
        OmmDesc {
            offset: get_u32(bytes, at),
            subdivision_level: (w % 65536) as u16,
            format: (w / 65536) as u16,
        }
    }

    fn put(&self, out: &mut Vec<u8>) {
        let ws: [u32; 2] = [self.offset, join_halves(self.subdivision_level, self.format)];
        assert(ws@ =~= self.words());
        put_words(out, &ws);
    }
}

impl Record for OmmUsage {
    open spec fn count() -> nat {
        2
    }

    open spec fn words(self) -> Seq<u32> {
        seq![self.count, halves(self.subdivision_level, self.format)]
    }

    open spec fn of_words(ws: Seq<u32>) -> Self {
        OmmUsage { count: ws[0], subdivision_level: low_half(ws[1]), format: high_half(ws[1]) }
    }

    proof fn lemma_words(self) {
    }

    fn word_count() -> (n: usize) {
        2
    }

    fn get(bytes: &[u8], at: usize) -> (r: Self) {
        assert(bytes.len() <= usize::MAX);
        let w: u32 = get_u32(bytes, at + 4);
        OmmUsage {
            count: get_u32(bytes, at),
            subdivision_level: (w % 65536) as u16,
            format: (w / 65536) as u16,
        }
    }

    fn put(&self, out: &mut Vec<u8>) {
        let ws: [u32; 2] = [self.count, join_halves(self.subdivision_level, self.format)];
        assert(ws@ =~= self.words());
        put_words(out, &ws);
    }
}

impl Record for JointIndices {
    open spec fn count() -> nat {
        2
    }

    open spec fn words(self) -> Seq<u32> {
        seq![halves(self.j0, self.j1), halves(self.j2, self.j3)]
    }

    open spec fn of_words(ws: Seq<u32>) -> Self {
        JointIndices {
            j0: low_half(ws[0]),
            j1: high_half(ws[0]),
            j2: low_half(ws[1]),
            j3: high_half(ws[1]),
        }
    }

    proof fn lemma_words(self) {
    }

    fn word_count() -> (n: usize) {
        2
    }

    fn get(bytes: &[u8], at: usize) -> (r: Self) {
        assert(bytes.len() <= usize::MAX);
        let a: u32 = get_u32(bytes, at);
        let b: u32 = get_u32(bytes, at + 4);
        JointIndices {
            j0: (a % 65536) as u16,
            j1: (a / 65536) as u16,
            j2: (b % 65536) as u16,
            j3: (b / 65536) as u16,
        }
    }

    fn put(&self, out: &mut Vec<u8>) {
        let ws: [u32; 2] = [join_halves(self.j0, self.j1), join_halves(self.j2, self.j3)];
        assert(ws@ =~= self.words());
        put_words(out, &ws);
    }
}

} // verus!
