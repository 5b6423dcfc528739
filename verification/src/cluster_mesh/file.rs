//! The `.cluster_mesh` wire format.

use crate::bits::{Vec2, Vec3, Vec4};
use crate::cluster_mesh::types::{
    Cluster, ClusterBloatAabb, ClusterBvhNode, ClusterLodGroup, ClusterMeshAabb, ClusterMeshData,
    ClusterMeshError, ClusterMeshView, JointIndices, OmmDesc, OmmUsage,
};
use crate::record::{
    byte_slice_bytes, byte_slice_end, byte_slice_items, copy_bytes, lemma_byte_slice_at,
    lemma_slice_at, lemma_word64_at, lemma_words_at, lemma_words_bytes_len, read_byte_slice,
        read_slice,
    slice_bytes, slice_end, slice_items, words_at, words_bytes, write_byte_slice, write_slice,
    Record,
};
use crate::wire::{
    get_u32, get_u64, le32, le64, lemma_word32_local, lemma_word32_of_le32, lemma_word64_of_le64,
        put_u32, put_u64,
    word32, word64,
};
use vstd::prelude::*;

verus! {

/// ASCII `"CLUSTERS"` interpreted little-endian.
pub const CLUSTER_MESH_ASSET_MAGIC: u64 = 0x5352_4554_5355_4C43;

/// Current format version (version 3 added the micromap slices, version 4 the skin slices).
pub const CLUSTER_MESH_ASSET_VERSION: u64 = 4;

pub const CLUSTER_MESH_ASSET_MIN_VERSION: u64 = 2;

pub const CLUSTER_MESH_ASSET_OMM_VERSION: u64 = 3;

pub const CLUSTER_MESH_ASSET_SKIN_VERSION: u64 = 4;

/// Bytes before the compressed slices.
pub const HEADER_BYTES: usize = 64;

/// What an lz4 frame decoder hands out of `frame` before the frame ends or stops being one.
pub uninterp spec fn lz4_frame_content(frame: Seq<u8>) -> Seq<u8>;

/// The lz4 frame that comes of writing `first`, then `rest`, on the target; where there is none,
/// whether it was the finishing of the frame that failed.
pub uninterp spec fn lz4_frame(first: Seq<u8>, rest: Seq<u8>) -> Result<Seq<u8>, bool>;

/// Drains `lz4_flex::frame::FrameDecoder` over `frame`. What is claimed: the bytes that it
/// hands out, up to the end of the frame or the first error, are a function of `frame`.
#[verifier::external_body]
fn decode_frame(frame: &[u8]) -> (content: Vec<u8>)
    ensures
        content@ == lz4_frame_content(frame@),
{
    let mut content = Vec::new();
    let _ = std::io::Read::read_to_end(
        &mut lz4_flex::frame::FrameDecoder::new(frame),
        &mut content,
    );
    content
}

/// Writes `first`, then `rest`, through `lz4_flex::frame::FrameEncoder` (which picks its block
/// size by the length of what it is given first). What is claimed: on one target, the frame is a
/// function of the two, and a decoder hands both out of it again, one after the other. Targets
/// with pointers of another width may give other frames of the same content.
#[verifier::external_body]
fn encode_frame(first: &[u8], rest: &[u8]) -> (frame: Result<Vec<u8>, bool>)
    ensures
        match frame {
            Ok(f) => lz4_frame(first@, rest@) == Ok::<Seq<u8>, bool>(f@) && lz4_frame_content(f@)
                == first@ + rest@,
            Err(finishing) => lz4_frame(first@, rest@) == Err::<Seq<u8>, bool>(finishing),
        },
{
    let mut encoder = lz4_flex::frame::FrameEncoder::new(Vec::new());
    std::io::Write::write_all(&mut encoder, first).map_err(|_| false)?;
    std::io::Write::write_all(&mut encoder, rest).map_err(|_| false)?;
    encoder.finish().map_err(|_| true)
}

// Where each slice ends in the decoded content `c`; nothing where `c` ends before it does.

#[verifier::opaque]
pub open spec fn vertex_positions_end(c: Seq<u8>) -> Option<int> {
    slice_end::<Vec3>(c, Some(0int))
}

#[verifier::opaque]
pub open spec fn vertex_normals_end(c: Seq<u8>) -> Option<int> {
    slice_end::<u32>(c, vertex_positions_end(c))
}

#[verifier::opaque]
pub open spec fn vertex_tangents_end(c: Seq<u8>) -> Option<int> {
    slice_end::<Vec4>(c, vertex_normals_end(c))
}

#[verifier::opaque]
pub open spec fn vertex_uvs_end(c: Seq<u8>) -> Option<int> {
    slice_end::<Vec2>(c, vertex_tangents_end(c))
}

#[verifier::opaque]
pub open spec fn indices_end(c: Seq<u8>) -> Option<int> {
    slice_end::<u32>(c, vertex_uvs_end(c))
}

#[verifier::opaque]
pub open spec fn clusters_end(c: Seq<u8>) -> Option<int> {
    slice_end::<Cluster>(c, indices_end(c))
}

#[verifier::opaque]
pub open spec fn groups_end(c: Seq<u8>) -> Option<int> {
    slice_end::<ClusterLodGroup>(c, clusters_end(c))
}

#[verifier::opaque]
pub open spec fn nodes_end(c: Seq<u8>) -> Option<int> {
    slice_end::<ClusterBvhNode>(c, groups_end(c))
}

#[verifier::opaque]
pub open spec fn child_table_end(c: Seq<u8>) -> Option<int> {
    slice_end::<u32>(c, nodes_end(c))
}

#[verifier::opaque]
pub open spec fn cluster_to_group_end(c: Seq<u8>) -> Option<int> {
    slice_end::<u32>(c, child_table_end(c))
}

#[verifier::opaque]
pub open spec fn omm_array_data_end(c: Seq<u8>) -> Option<int> {
    byte_slice_end(c, cluster_to_group_end(c))
}

#[verifier::opaque]
pub open spec fn omm_descs_end(c: Seq<u8>) -> Option<int> {
    slice_end::<OmmDesc>(c, omm_array_data_end(c))
}

#[verifier::opaque]
pub open spec fn omm_index_end(c: Seq<u8>) -> Option<int> {
    slice_end::<i32>(c, omm_descs_end(c))
}

#[verifier::opaque]
pub open spec fn omm_usage_end(c: Seq<u8>) -> Option<int> {
    slice_end::<OmmUsage>(c, omm_index_end(c))
}

#[verifier::opaque]
pub open spec fn omm_index_usage_end(c: Seq<u8>) -> Option<int> {
    slice_end::<OmmUsage>(c, omm_usage_end(c))
}

#[verifier::opaque]
pub open spec fn vertex_joint_indices_end(c: Seq<u8>) -> Option<int> {
    slice_end::<JointIndices>(c, omm_index_usage_end(c))
}

#[verifier::opaque]
pub open spec fn vertex_joint_weights_end(c: Seq<u8>) -> Option<int> {
    slice_end::<Vec4>(c, vertex_joint_indices_end(c))
}

#[verifier::opaque]
pub open spec fn cluster_bloat_aabbs_end(c: Seq<u8>) -> Option<int> {
    slice_end::<ClusterBloatAabb>(c, vertex_joint_weights_end(c))
}

#[verifier::opaque]
pub open spec fn inverse_bind_counts_end(c: Seq<u8>) -> Option<int> {
    slice_end::<u32>(c, cluster_bloat_aabbs_end(c))
}

/// Where the last slice of a file of this version ends.
pub open spec fn content_end(c: Seq<u8>, version: u64) -> Option<int> {
    if version >= CLUSTER_MESH_ASSET_SKIN_VERSION {
        inverse_bind_counts_end(c)
    } else if version >= CLUSTER_MESH_ASSET_OMM_VERSION {
        omm_index_usage_end(c)
    } else {
        cluster_to_group_end(c)
    }
}

/// The mesh of a file of this version with the decoded content `c`; `header` is what stands
/// before it.
pub open spec fn mesh_of(header: Seq<u8>, c: Seq<u8>, version: u64) -> ClusterMeshView {
    let omm = version >= CLUSTER_MESH_ASSET_OMM_VERSION;
    let skin = version >= CLUSTER_MESH_ASSET_SKIN_VERSION;
    let counts = slice_items::<u32>(c, cluster_bloat_aabbs_end(c));
    ClusterMeshView {
        vertex_positions: slice_items::<Vec3>(c, Some(0int)),
        vertex_normals: slice_items::<u32>(c, vertex_positions_end(c)),
        vertex_tangents: slice_items::<Vec4>(c, vertex_normals_end(c)),
        vertex_uvs: slice_items::<Vec2>(c, vertex_tangents_end(c)),
        indices: slice_items::<u32>(c, vertex_uvs_end(c)),
        clusters: slice_items::<Cluster>(c, indices_end(c)),
        groups: slice_items::<ClusterLodGroup>(c, clusters_end(c)),
        nodes: slice_items::<ClusterBvhNode>(c, groups_end(c)),
        child_table: slice_items::<u32>(c, nodes_end(c)),
        cluster_to_group: slice_items::<u32>(c, child_table_end(c)),
        aabb: ClusterMeshAabb::of_words(words_at(header, 16, 8)),
        mesh_max_error: word32(header, 48),
        root_group_id: word32(header, 52),
        root_node_id: word32(header, 56),
        lod_levels: word32(header, 60),
        omm_array_data: if omm {
            byte_slice_items(c, cluster_to_group_end(c))
        } else {
            Seq::empty()
        },
        omm_descs: if omm {
            slice_items::<OmmDesc>(c, omm_array_data_end(c))
        } else {
            Seq::empty()
        },
        omm_index: if omm {
            slice_items::<i32>(c, omm_descs_end(c))
        } else {
            Seq::empty()
        },
        omm_usage: if omm {
            slice_items::<OmmUsage>(c, omm_index_end(c))
        } else {
            Seq::empty()
        },
        omm_index_usage: if omm {
            slice_items::<OmmUsage>(c, omm_usage_end(c))
        } else {
            Seq::empty()
        },
        vertex_joint_indices: if skin {
            slice_items::<JointIndices>(c, omm_index_usage_end(c))
        } else {
            Seq::empty()
        },
        vertex_joint_weights: if skin {
            slice_items::<Vec4>(c, vertex_joint_indices_end(c))
        } else {
            Seq::empty()
        },
        cluster_bloat_aabbs: if skin {
            slice_items::<ClusterBloatAabb>(c, vertex_joint_weights_end(c))
        } else {
            Seq::empty()
        },
        inverse_bind_count: if skin && counts.len() > 0 {
            counts[0]
        } else {
            0
        },
    }
}

/// What is wrong with the header of a file.
pub open spec fn header_error(bytes: Seq<u8>) -> Option<ClusterMeshError> {
    let version = word64(bytes, 8);
    if bytes.len() < 8 {
        Some(ClusterMeshError::Io)
    } else if word64(bytes, 0) != CLUSTER_MESH_ASSET_MAGIC {
        Some(ClusterMeshError::WrongFileType)
    } else if bytes.len() < 16 {
        Some(ClusterMeshError::Io)
    } else if !(CLUSTER_MESH_ASSET_MIN_VERSION <= version <= CLUSTER_MESH_ASSET_VERSION) {
        Some(ClusterMeshError::WrongVersion { found: version })
    } else if bytes.len() < HEADER_BYTES {
        Some(ClusterMeshError::Io)
    } else {
        None
    }
}

/// What a file means whose header stands in `bytes` and whose frame holds `content`.
pub open spec fn parse_decoded(bytes: Seq<u8>, content: Seq<u8>) -> Result<
    ClusterMeshView,
    ClusterMeshError,
> {
    let version = word64(bytes, 8);
    match header_error(bytes) {
        Some(e) => Err(e),
        None => if content_end(content, version) is None {
            Err(ClusterMeshError::Io)
        } else {
            Ok(mesh_of(bytes, content, version))
        },
    }
}

/// What the bytes of a file mean.
pub open spec fn parse_cluster_mesh(bytes: Seq<u8>) -> Result<ClusterMeshView, ClusterMeshError> {
    parse_decoded(bytes, lz4_frame_content(bytes.skip(HEADER_BYTES as int)))
}

/// The slices that every version has.
struct CoreSlices {
    vertex_positions: Vec<Vec3>,
    vertex_normals: Vec<u32>,
    vertex_tangents: Vec<Vec4>,
    vertex_uvs: Vec<Vec2>,
    indices: Vec<u32>,
    clusters: Vec<Cluster>,
    groups: Vec<ClusterLodGroup>,
    nodes: Vec<ClusterBvhNode>,
    child_table: Vec<u32>,
    cluster_to_group: Vec<u32>,
}

/// The micromap slices.
struct OmmSliceSet {
    omm_array_data: Vec<u8>,
    omm_descs: Vec<OmmDesc>,
    omm_index: Vec<i32>,
    omm_usage: Vec<OmmUsage>,
    omm_index_usage: Vec<OmmUsage>,
}

/// The skinning slices.
struct SkinSlices {
    vertex_joint_indices: Vec<JointIndices>,
    vertex_joint_weights: Vec<Vec4>,
    cluster_bloat_aabbs: Vec<ClusterBloatAabb>,
    inverse_bind_counts: Vec<u32>,
}

/// Reads the slices that every version has, and where they end.
fn read_core(bytes: &[u8]) -> (r: Option<(CoreSlices, usize)>)
    ensures
        match r {
            Some((slices, end)) => {
                &&& cluster_to_group_end(bytes@) == Some(end as int)
                &&& end <= bytes@.len()
                &&& slices.vertex_positions@ == slice_items::<Vec3>(bytes@, Some(0int))
                &&& slices.vertex_normals@ == slice_items::<u32>(bytes@,
                    vertex_positions_end(bytes@))
                &&& slices.vertex_tangents@ == slice_items::<Vec4>(bytes@,
                    vertex_normals_end(bytes@))
                &&& slices.vertex_uvs@ == slice_items::<Vec2>(bytes@, vertex_tangents_end(bytes@))
                &&& slices.indices@ == slice_items::<u32>(bytes@, vertex_uvs_end(bytes@))
                &&& slices.clusters@ == slice_items::<Cluster>(bytes@, indices_end(bytes@))
                &&& slices.groups@ == slice_items::<ClusterLodGroup>(bytes@, clusters_end(bytes@))
                &&& slices.nodes@ == slice_items::<ClusterBvhNode>(bytes@, groups_end(bytes@))
                &&& slices.child_table@ == slice_items::<u32>(bytes@, nodes_end(bytes@))
                &&& slices.cluster_to_group@ == slice_items::<u32>(bytes@, child_table_end(bytes@))
            },
            None => cluster_to_group_end(bytes@) is None,
        },
{
    proof {
        reveal(vertex_positions_end);
        reveal(vertex_normals_end);
        reveal(vertex_tangents_end);
        reveal(vertex_uvs_end);
        reveal(indices_end);
        reveal(clusters_end);
        reveal(groups_end);
        reveal(nodes_end);
        reveal(child_table_end);
        reveal(cluster_to_group_end);
    }
    let (vertex_positions, p0): (Vec<Vec3>, usize) = match read_slice::<Vec3>(bytes, 0) {
        Some(slice) => slice,
        None => return None,
    };
    let (vertex_normals, p1): (Vec<u32>, usize) = match read_slice::<u32>(bytes, p0) {
        Some(slice) => slice,
        None => return None,
    };
    let (vertex_tangents, p2): (Vec<Vec4>, usize) = match read_slice::<Vec4>(bytes, p1) {
        Some(slice) => slice,
        None => return None,
    };
    let (vertex_uvs, p3): (Vec<Vec2>, usize) = match read_slice::<Vec2>(bytes, p2) {
        Some(slice) => slice,
        None => return None,
    };
    let (indices, p4): (Vec<u32>, usize) = match read_slice::<u32>(bytes, p3) {
        Some(slice) => slice,
        None => return None,
    };
    let (clusters, p5): (Vec<Cluster>, usize) = match read_slice::<Cluster>(bytes, p4) {
        Some(slice) => slice,
        None => return None,
    };
    let (groups, p6): (Vec<ClusterLodGroup>, usize) = match read_slice::<ClusterLodGroup>(bytes,
        p5) {
        Some(slice) => slice,
        None => return None,
    };
    let (nodes, p7): (Vec<ClusterBvhNode>, usize) = match read_slice::<ClusterBvhNode>(bytes, p6) {
        Some(slice) => slice,
        None => return None,
    };
    let (child_table, p8): (Vec<u32>, usize) = match read_slice::<u32>(bytes, p7) {
        Some(slice) => slice,
        None => return None,
    };
    let (cluster_to_group, p9): (Vec<u32>, usize) = match read_slice::<u32>(bytes, p8) {
        Some(slice) => slice,
        None => return None,
    };
    Some((CoreSlices { vertex_positions, vertex_normals, vertex_tangents, vertex_uvs, indices,
        clusters, groups, nodes, child_table, cluster_to_group }, p9))
}

/// Reads the micromap slices, and where they end.
fn read_omm(bytes: &[u8], at: usize) -> (r: Option<(OmmSliceSet, usize)>)
    requires
        at <= bytes@.len(),
        cluster_to_group_end(bytes@) == Some(at as int),
    ensures
        match r {
            Some((slices, end)) => {
                &&& omm_index_usage_end(bytes@) == Some(end as int)
                &&& end <= bytes@.len()
                &&& slices.omm_array_data@ == byte_slice_items(bytes@, cluster_to_group_end(bytes@))
                &&& slices.omm_descs@ == slice_items::<OmmDesc>(bytes@, omm_array_data_end(bytes@))
                &&& slices.omm_index@ == slice_items::<i32>(bytes@, omm_descs_end(bytes@))
                &&& slices.omm_usage@ == slice_items::<OmmUsage>(bytes@, omm_index_end(bytes@))
                &&& slices.omm_index_usage@ == slice_items::<OmmUsage>(bytes@,
                    omm_usage_end(bytes@))
            },
            None => omm_index_usage_end(bytes@) is None,
        },
{
    proof {
        reveal(omm_array_data_end);
        reveal(omm_descs_end);
        reveal(omm_index_end);
        reveal(omm_usage_end);
        reveal(omm_index_usage_end);
    }
    let (omm_array_data, p0): (Vec<u8>, usize) = match read_byte_slice(bytes, at) {
        Some(slice) => slice,
        None => return None,
    };
    let (omm_descs, p1): (Vec<OmmDesc>, usize) = match read_slice::<OmmDesc>(bytes, p0) {
        Some(slice) => slice,
        None => return None,
    };
    let (omm_index, p2): (Vec<i32>, usize) = match read_slice::<i32>(bytes, p1) {
        Some(slice) => slice,
        None => return None,
    };
    let (omm_usage, p3): (Vec<OmmUsage>, usize) = match read_slice::<OmmUsage>(bytes, p2) {
        Some(slice) => slice,
        None => return None,
    };
    let (omm_index_usage, p4): (Vec<OmmUsage>, usize) = match read_slice::<OmmUsage>(bytes, p3) {
        Some(slice) => slice,
        None => return None,
    };
    Some((OmmSliceSet { omm_array_data, omm_descs, omm_index, omm_usage, omm_index_usage }, p4))
}

/// Reads the skinning slices, and where they end.
fn read_skin(bytes: &[u8], at: usize) -> (r: Option<(SkinSlices, usize)>)
    requires
        at <= bytes@.len(),
        omm_index_usage_end(bytes@) == Some(at as int),
    ensures
        match r {
            Some((slices, end)) => {
                &&& inverse_bind_counts_end(bytes@) == Some(end as int)
                &&& end <= bytes@.len()
                &&& slices.vertex_joint_indices@ == slice_items::<JointIndices>(bytes@,
                    omm_index_usage_end(bytes@))
                &&& slices.vertex_joint_weights@ == slice_items::<Vec4>(bytes@,
                    vertex_joint_indices_end(bytes@))
                &&& slices.cluster_bloat_aabbs@ == slice_items::<ClusterBloatAabb>(bytes@,
                    vertex_joint_weights_end(bytes@))
                &&& slices.inverse_bind_counts@ == slice_items::<u32>(bytes@,
                    cluster_bloat_aabbs_end(bytes@))
            },
            None => inverse_bind_counts_end(bytes@) is None,
        },
{
    proof {
        reveal(vertex_joint_indices_end);
        reveal(vertex_joint_weights_end);
        reveal(cluster_bloat_aabbs_end);
        reveal(inverse_bind_counts_end);
    }
    let (vertex_joint_indices, p0): (Vec<JointIndices>,
        usize) = match read_slice::<JointIndices>(bytes, at) {
        Some(slice) => slice,
        None => return None,
    };
    let (vertex_joint_weights, p1): (Vec<Vec4>, usize) = match read_slice::<Vec4>(bytes, p0) {
        Some(slice) => slice,
        None => return None,
    };
    let (cluster_bloat_aabbs, p2): (Vec<ClusterBloatAabb>,
        usize) = match read_slice::<ClusterBloatAabb>(bytes, p1) {
        Some(slice) => slice,
        None => return None,
    };
    let (inverse_bind_counts, p3): (Vec<u32>, usize) = match read_slice::<u32>(bytes, p2) {
        Some(slice) => slice,
        None => return None,
    };
    Some((SkinSlices { vertex_joint_indices, vertex_joint_weights, cluster_bloat_aabbs,
        inverse_bind_counts }, p3))
}

/// Where the slices that every version has do not end, no later ones do.
proof fn lemma_short_core(c: Seq<u8>)
    ensures
        cluster_to_group_end(c) is None ==> omm_index_usage_end(c) is None,
        omm_index_usage_end(c) is None ==> inverse_bind_counts_end(c) is None,
{
    reveal(omm_array_data_end);
    reveal(omm_descs_end);
    reveal(omm_index_end);
    reveal(omm_usage_end);
    reveal(omm_index_usage_end);
    reveal(vertex_joint_indices_end);
    reveal(vertex_joint_weights_end);
    reveal(cluster_bloat_aabbs_end);
    reveal(inverse_bind_counts_end);
}

/// Reads the header of a file: what is wrong with it.
fn check_header(bytes: &[u8]) -> (r: Option<ClusterMeshError>)
    ensures
        r == header_error(bytes@),
{
    if bytes.len() < 8 {
        return Some(ClusterMeshError::Io);
    }
    if get_u64(bytes, 0) != CLUSTER_MESH_ASSET_MAGIC {
        return Some(ClusterMeshError::WrongFileType);
    }
    if bytes.len() < 16 {
        return Some(ClusterMeshError::Io);
    }
    let version: u64 = get_u64(bytes, 8);
    if version < CLUSTER_MESH_ASSET_MIN_VERSION || version > CLUSTER_MESH_ASSET_VERSION {
        return Some(ClusterMeshError::WrongVersion { found: version });
    }
    if bytes.len() < HEADER_BYTES {
        return Some(ClusterMeshError::Io);
    }
    None
}

/// Reads a `.cluster_mesh` file.
pub fn read_cluster_mesh_sync(bytes: &[u8]) -> (r: Result<ClusterMeshData, ClusterMeshError>)
    ensures
        match r {
            Ok(mesh) => parse_cluster_mesh(bytes@) == Ok::<ClusterMeshView, ClusterMeshError>(
                mesh@,
            ),
            Err(e) => parse_cluster_mesh(bytes@) == Err::<ClusterMeshView, ClusterMeshError>(e),
        },
{
    match check_header(bytes) {
        Some(e) => Err(e),
        None => {
            let frame: Vec<u8> = copy_bytes(bytes, HEADER_BYTES, bytes.len());
            assert(frame@ =~= bytes@.skip(HEADER_BYTES as int));
            let content: Vec<u8> = decode_frame(frame.as_slice());
            read_decoded(bytes, content.as_slice())
        },
    }
}

/// Reads a file whose header stands in `bytes` and whose frame holds `content`.
pub fn read_decoded(bytes: &[u8], content: &[u8]) -> (r: Result<ClusterMeshData, ClusterMeshError>)
    ensures
        match r {
            Ok(mesh) => parse_decoded(bytes@, content@) == Ok::<
                ClusterMeshView,
                ClusterMeshError,
            >(mesh@),
            Err(e) => parse_decoded(bytes@, content@) == Err::<ClusterMeshView, ClusterMeshError>(
                e,
            ),
        },
{
    if let Some(e) = check_header(bytes) {
        return Err(e);
    }
    let version: u64 = get_u64(bytes, 8);
    let aabb: ClusterMeshAabb = ClusterMeshAabb::get(bytes, 16);
    proof {
        lemma_short_core(content@);
    }
    let (core, core_end): (CoreSlices, usize) = match read_core(content) {
        Some(slices) => slices,
        None => return Err(ClusterMeshError::Io),
    };
    let (omm, omm_end): (OmmSliceSet, usize) = if version >= CLUSTER_MESH_ASSET_OMM_VERSION {
        match read_omm(content, core_end) {
            Some(slices) => slices,
            None => return Err(ClusterMeshError::Io),
        }
    } else {
        (
            OmmSliceSet {
                omm_array_data: Vec::new(),
                omm_descs: Vec::new(),
                omm_index: Vec::new(),
                omm_usage: Vec::new(),
                omm_index_usage: Vec::new(),
            },
            core_end,
        )
    };
    let skin: SkinSlices = if version >= CLUSTER_MESH_ASSET_SKIN_VERSION {
        match read_skin(content, omm_end) {
            Some(slices) => slices.0,
            None => return Err(ClusterMeshError::Io),
        }
    } else {
        SkinSlices {
            vertex_joint_indices: Vec::new(),
            vertex_joint_weights: Vec::new(),
            cluster_bloat_aabbs: Vec::new(),
            inverse_bind_counts: Vec::new(),
        }
    };
    let inverse_bind_count: u32 = if skin.inverse_bind_counts.len() > 0 {
        skin.inverse_bind_counts[0]
    } else {
        0
    };
    let mesh = ClusterMeshData {
        vertex_positions: core.vertex_positions,
        vertex_normals: core.vertex_normals,
        vertex_tangents: core.vertex_tangents,
        vertex_uvs: core.vertex_uvs,
        indices: core.indices,
        clusters: core.clusters,
        groups: core.groups,
        nodes: core.nodes,
        child_table: core.child_table,
        cluster_to_group: core.cluster_to_group,
        aabb,
        mesh_max_error: get_u32(bytes, 48),
        root_group_id: get_u32(bytes, 52),
        root_node_id: get_u32(bytes, 56),
        lod_levels: get_u32(bytes, 60),
        omm_array_data: omm.omm_array_data,
        omm_descs: omm.omm_descs,
        omm_index: omm.omm_index,
        omm_usage: omm.omm_usage,
        omm_index_usage: omm.omm_index_usage,
        vertex_joint_indices: skin.vertex_joint_indices,
        vertex_joint_weights: skin.vertex_joint_weights,
        cluster_bloat_aabbs: skin.cluster_bloat_aabbs,
        inverse_bind_count,
    };
    assert(mesh@ =~= mesh_of(bytes@, content@, version));
    Ok(mesh)
}

// What is written from each slice on.

#[verifier::opaque]
pub open spec fn vertex_positions_on(v: ClusterMeshView) -> Seq<u8> {
    slice_bytes(v.vertex_positions) + vertex_normals_on(v)
}

#[verifier::opaque]
pub open spec fn vertex_normals_on(v: ClusterMeshView) -> Seq<u8> {
    slice_bytes(v.vertex_normals) + vertex_tangents_on(v)
}

#[verifier::opaque]
pub open spec fn vertex_tangents_on(v: ClusterMeshView) -> Seq<u8> {
    slice_bytes(v.vertex_tangents) + vertex_uvs_on(v)
}

#[verifier::opaque]
pub open spec fn vertex_uvs_on(v: ClusterMeshView) -> Seq<u8> {
    slice_bytes(v.vertex_uvs) + indices_on(v)
}

#[verifier::opaque]
pub open spec fn indices_on(v: ClusterMeshView) -> Seq<u8> {
    slice_bytes(v.indices) + clusters_on(v)
}

#[verifier::opaque]
pub open spec fn clusters_on(v: ClusterMeshView) -> Seq<u8> {
    slice_bytes(v.clusters) + groups_on(v)
}

#[verifier::opaque]
pub open spec fn groups_on(v: ClusterMeshView) -> Seq<u8> {
    slice_bytes(v.groups) + nodes_on(v)
}

#[verifier::opaque]
pub open spec fn nodes_on(v: ClusterMeshView) -> Seq<u8> {
    slice_bytes(v.nodes) + child_table_on(v)
}

#[verifier::opaque]
pub open spec fn child_table_on(v: ClusterMeshView) -> Seq<u8> {
    slice_bytes(v.child_table) + cluster_to_group_on(v)
}

#[verifier::opaque]
pub open spec fn cluster_to_group_on(v: ClusterMeshView) -> Seq<u8> {
    slice_bytes(v.cluster_to_group) + omm_array_data_on(v)
}

#[verifier::opaque]
pub open spec fn omm_array_data_on(v: ClusterMeshView) -> Seq<u8> {
    byte_slice_bytes(v.omm_array_data) + omm_descs_on(v)
}

#[verifier::opaque]
pub open spec fn omm_descs_on(v: ClusterMeshView) -> Seq<u8> {
    slice_bytes(v.omm_descs) + omm_index_on(v)
}

#[verifier::opaque]
pub open spec fn omm_index_on(v: ClusterMeshView) -> Seq<u8> {
    slice_bytes(v.omm_index) + omm_usage_on(v)
}

#[verifier::opaque]
pub open spec fn omm_usage_on(v: ClusterMeshView) -> Seq<u8> {
    slice_bytes(v.omm_usage) + omm_index_usage_on(v)
}

#[verifier::opaque]
pub open spec fn omm_index_usage_on(v: ClusterMeshView) -> Seq<u8> {
    slice_bytes(v.omm_index_usage) + vertex_joint_indices_on(v)
}

#[verifier::opaque]
pub open spec fn vertex_joint_indices_on(v: ClusterMeshView) -> Seq<u8> {
    slice_bytes(v.vertex_joint_indices) + vertex_joint_weights_on(v)
}

#[verifier::opaque]
pub open spec fn vertex_joint_weights_on(v: ClusterMeshView) -> Seq<u8> {
    slice_bytes(v.vertex_joint_weights) + cluster_bloat_aabbs_on(v)
}

#[verifier::opaque]
pub open spec fn cluster_bloat_aabbs_on(v: ClusterMeshView) -> Seq<u8> {
    slice_bytes(v.cluster_bloat_aabbs) + inverse_bind_counts_on(v)
}

#[verifier::opaque]
pub open spec fn inverse_bind_counts_on(v: ClusterMeshView) -> Seq<u8> {
    slice_bytes(seq![v.inverse_bind_count])
}

/// All slices of `v`, as they stand before compression.
pub open spec fn content_bytes(v: ClusterMeshView) -> Seq<u8> {
    vertex_positions_on(v)
}

/// The header of the file that holds `v`.
pub open spec fn header_bytes(v: ClusterMeshView) -> Seq<u8> {
    le64(CLUSTER_MESH_ASSET_MAGIC) + le64(CLUSTER_MESH_ASSET_VERSION) + words_bytes(v.aabb.words())
        + le32(v.mesh_max_error) + le32(v.root_group_id) + le32(v.root_node_id) + le32(
        v.lod_levels,
    )
}

/// The file that holds `v` once its slices are in a frame; what failed where there is none.
pub open spec fn assembled(v: ClusterMeshView, frame: Result<Seq<u8>, bool>) -> Result<
    Seq<u8>,
    ClusterMeshError,
> {
    match frame {
        Ok(frame) => Ok(header_bytes(v) + frame),
        Err(finishing) => Err(
            if finishing {
                ClusterMeshError::Compression
            } else {
                ClusterMeshError::Io
            },
        ),
    }
}

/// The file that holds `v`, in the current version.
pub open spec fn file_bytes(v: ClusterMeshView) -> Result<Seq<u8>, ClusterMeshError> {
    let content = content_bytes(v);
    assembled(v, lz4_frame(content.take(8), content.skip(8)))
}

proof fn lemma_append(a: Seq<u8>, b: Seq<u8>, c: Seq<u8>)
    ensures
        (a + b) + c == a + (b + c),
{
    assert((a + b) + c =~= a + (b + c));
}

/// A slice that stands first of what is left ends where the rest begins.
proof fn lemma_next<T: Record>(c: Seq<u8>, p: int, items: Seq<T>, rest: Seq<u8>)
    requires
        0 <= p <= c.len(),
        items.len() <= u64::MAX,
        c.skip(p) == slice_bytes(items) + rest,
    ensures
        slice_end::<T>(c, Some(p)) == Some(p + slice_bytes(items).len()),
        slice_items::<T>(c, Some(p)) == items,
        p + slice_bytes(items).len() <= c.len(),
        c.skip(p + slice_bytes(items).len()) == rest,
{
    let n = slice_bytes(items).len() as int;
    assert(c.skip(p).len() == n + rest.len());
    assert(c.subrange(p, p + n) =~= c.skip(p).subrange(0, n));
    assert(c.skip(p).subrange(0, n) =~= slice_bytes(items));
    lemma_slice_at(c, p, items);
    assert(c.skip(p + n) =~= c.skip(p).skip(n));
    assert(c.skip(p).skip(n) =~= rest);
}

/// A byte slice that stands first of what is left ends where the rest begins.
proof fn lemma_next_bytes(c: Seq<u8>, p: int, items: Seq<u8>, rest: Seq<u8>)
    requires
        0 <= p <= c.len(),
        items.len() <= u64::MAX,
        c.skip(p) == byte_slice_bytes(items) + rest,
    ensures
        byte_slice_end(c, Some(p)) == Some(p + byte_slice_bytes(items).len()),
        byte_slice_items(c, Some(p)) == items,
        p + byte_slice_bytes(items).len() <= c.len(),
        c.skip(p + byte_slice_bytes(items).len()) == rest,
{
    let n = byte_slice_bytes(items).len() as int;
    assert(c.skip(p).len() == n + rest.len());
    assert(c.subrange(p, p + n) =~= c.skip(p).subrange(0, n));
    assert(c.skip(p).subrange(0, n) =~= byte_slice_bytes(items));
    lemma_byte_slice_at(c, p, items);
    assert(c.skip(p + n) =~= c.skip(p).skip(n));
    assert(c.skip(p).skip(n) =~= rest);
}

/// Every slice is short enough for its length to be written.
pub open spec fn lengths_fit(v: ClusterMeshView) -> bool {
    &&& v.vertex_positions.len() <= u64::MAX
    &&& v.vertex_normals.len() <= u64::MAX
    &&& v.vertex_tangents.len() <= u64::MAX
    &&& v.vertex_uvs.len() <= u64::MAX
    &&& v.indices.len() <= u64::MAX
    &&& v.clusters.len() <= u64::MAX
    &&& v.groups.len() <= u64::MAX
    &&& v.nodes.len() <= u64::MAX
    &&& v.child_table.len() <= u64::MAX
    &&& v.cluster_to_group.len() <= u64::MAX
    &&& v.omm_array_data.len() <= u64::MAX
    &&& v.omm_descs.len() <= u64::MAX
    &&& v.omm_index.len() <= u64::MAX
    &&& v.omm_usage.len() <= u64::MAX
    &&& v.omm_index_usage.len() <= u64::MAX
    &&& v.vertex_joint_indices.len() <= u64::MAX
    &&& v.vertex_joint_weights.len() <= u64::MAX
    &&& v.cluster_bloat_aabbs.len() <= u64::MAX
}

/// What is left of `c` from `at` on is `rest`.
pub open spec fn starts(c: Seq<u8>, at: Option<int>, rest: Seq<u8>) -> bool {
    at is Some && 0 <= at->0 <= c.len() && c.skip(at->0) == rest
}

/// The vertex streams and indices are read back.
proof fn lemma_vertex_round_trip(v: ClusterMeshView, c: Seq<u8>)
    requires
        lengths_fit(v),
        starts(c, Some(0int), vertex_positions_on(v)),
    ensures
        slice_items::<Vec3>(c, Some(0int)) == v.vertex_positions,
        slice_items::<u32>(c, vertex_positions_end(c)) == v.vertex_normals,
        slice_items::<Vec4>(c, vertex_normals_end(c)) == v.vertex_tangents,
        slice_items::<Vec2>(c, vertex_tangents_end(c)) == v.vertex_uvs,
        slice_items::<u32>(c, vertex_uvs_end(c)) == v.indices,
        starts(c, indices_end(c), clusters_on(v)),
{
    assert(starts(c, vertex_positions_end(c), vertex_normals_on(v)) && slice_items::<Vec3>(c,
        Some(0int)) == v.vertex_positions) by {
        reveal(vertex_positions_on);
        reveal(vertex_positions_end);
        lemma_next::<Vec3>(c, 0, v.vertex_positions, vertex_normals_on(v));
    }
    assert(starts(c, vertex_normals_end(c), vertex_tangents_on(v)) && slice_items::<u32>(c,
        vertex_positions_end(c)) == v.vertex_normals) by {
        reveal(vertex_normals_on);
        reveal(vertex_normals_end);
        lemma_next::<u32>(c, vertex_positions_end(c)->0, v.vertex_normals, vertex_tangents_on(v));
    }
    assert(starts(c, vertex_tangents_end(c), vertex_uvs_on(v)) && slice_items::<Vec4>(c,
        vertex_normals_end(c)) == v.vertex_tangents) by {
        reveal(vertex_tangents_on);
        reveal(vertex_tangents_end);
        lemma_next::<Vec4>(c, vertex_normals_end(c)->0, v.vertex_tangents, vertex_uvs_on(v));
    }
    assert(starts(c, vertex_uvs_end(c), indices_on(v)) && slice_items::<Vec2>(c,
        vertex_tangents_end(c)) == v.vertex_uvs) by {
        reveal(vertex_uvs_on);
        reveal(vertex_uvs_end);
        lemma_next::<Vec2>(c, vertex_tangents_end(c)->0, v.vertex_uvs, indices_on(v));
    }
    assert(starts(c, indices_end(c), clusters_on(v)) && slice_items::<u32>(c, vertex_uvs_end(c))
        == v.indices) by {
        reveal(indices_on);
        reveal(indices_end);
        lemma_next::<u32>(c, vertex_uvs_end(c)->0, v.indices, clusters_on(v));
    }
}

/// The clusters and their hierarchy are read back.
proof fn lemma_core_round_trip(v: ClusterMeshView, c: Seq<u8>)
    requires
        lengths_fit(v),
        starts(c, indices_end(c), clusters_on(v)),
    ensures
        slice_items::<Cluster>(c, indices_end(c)) == v.clusters,
        slice_items::<ClusterLodGroup>(c, clusters_end(c)) == v.groups,
        slice_items::<ClusterBvhNode>(c, groups_end(c)) == v.nodes,
        slice_items::<u32>(c, nodes_end(c)) == v.child_table,
        slice_items::<u32>(c, child_table_end(c)) == v.cluster_to_group,
        starts(c, cluster_to_group_end(c), omm_array_data_on(v)),
{
    assert(starts(c, clusters_end(c), groups_on(v)) && slice_items::<Cluster>(c, indices_end(c))
        == v.clusters) by {
        reveal(clusters_on);
        reveal(clusters_end);
        lemma_next::<Cluster>(c, indices_end(c)->0, v.clusters, groups_on(v));
    }
    assert(starts(c, groups_end(c), nodes_on(v)) && slice_items::<ClusterLodGroup>(c,
        clusters_end(c)) == v.groups) by {
        reveal(groups_on);
        reveal(groups_end);
        lemma_next::<ClusterLodGroup>(c, clusters_end(c)->0, v.groups, nodes_on(v));
    }
    assert(starts(c, nodes_end(c), child_table_on(v)) && slice_items::<ClusterBvhNode>(c,
        groups_end(c)) == v.nodes) by {
        reveal(nodes_on);
        reveal(nodes_end);
        lemma_next::<ClusterBvhNode>(c, groups_end(c)->0, v.nodes, child_table_on(v));
    }
    assert(starts(c, child_table_end(c), cluster_to_group_on(v)) && slice_items::<u32>(c,
        nodes_end(c)) == v.child_table) by {
        reveal(child_table_on);
        reveal(child_table_end);
        lemma_next::<u32>(c, nodes_end(c)->0, v.child_table, cluster_to_group_on(v));
    }
    assert(starts(c, cluster_to_group_end(c), omm_array_data_on(v)) && slice_items::<u32>(c,
        child_table_end(c)) == v.cluster_to_group) by {
        reveal(cluster_to_group_on);
        reveal(cluster_to_group_end);
        lemma_next::<u32>(c, child_table_end(c)->0, v.cluster_to_group, omm_array_data_on(v));
    }
}

/// The micromap slices are read back.
proof fn lemma_omm_round_trip(v: ClusterMeshView, c: Seq<u8>)
    requires
        lengths_fit(v),
        starts(c, cluster_to_group_end(c), omm_array_data_on(v)),
    ensures
        byte_slice_items(c, cluster_to_group_end(c)) == v.omm_array_data,
        slice_items::<OmmDesc>(c, omm_array_data_end(c)) == v.omm_descs,
        slice_items::<i32>(c, omm_descs_end(c)) == v.omm_index,
        slice_items::<OmmUsage>(c, omm_index_end(c)) == v.omm_usage,
        slice_items::<OmmUsage>(c, omm_usage_end(c)) == v.omm_index_usage,
        starts(c, omm_index_usage_end(c), vertex_joint_indices_on(v)),
{
    assert(starts(c, omm_array_data_end(c), omm_descs_on(v)) && byte_slice_items(c,
        cluster_to_group_end(c)) == v.omm_array_data) by {
        reveal(omm_array_data_on);
        reveal(omm_array_data_end);
        lemma_next_bytes(c, cluster_to_group_end(c)->0, v.omm_array_data, omm_descs_on(v));
    }
    assert(starts(c, omm_descs_end(c), omm_index_on(v)) && slice_items::<OmmDesc>(c,
        omm_array_data_end(c)) == v.omm_descs) by {
        reveal(omm_descs_on);
        reveal(omm_descs_end);
        lemma_next::<OmmDesc>(c, omm_array_data_end(c)->0, v.omm_descs, omm_index_on(v));
    }
    assert(starts(c, omm_index_end(c), omm_usage_on(v)) && slice_items::<i32>(c, omm_descs_end(c))
        == v.omm_index) by {
        reveal(omm_index_on);
        reveal(omm_index_end);
        lemma_next::<i32>(c, omm_descs_end(c)->0, v.omm_index, omm_usage_on(v));
    }
    assert(starts(c, omm_usage_end(c), omm_index_usage_on(v)) && slice_items::<OmmUsage>(c,
        omm_index_end(c)) == v.omm_usage) by {
        reveal(omm_usage_on);
        reveal(omm_usage_end);
        lemma_next::<OmmUsage>(c, omm_index_end(c)->0, v.omm_usage, omm_index_usage_on(v));
    }
    assert(starts(c, omm_index_usage_end(c), vertex_joint_indices_on(v))
        && slice_items::<OmmUsage>(c, omm_usage_end(c)) == v.omm_index_usage) by {
        reveal(omm_index_usage_on);
        reveal(omm_index_usage_end);
        lemma_next::<OmmUsage>(c, omm_usage_end(c)->0, v.omm_index_usage,
            vertex_joint_indices_on(v));
    }
}

/// The skinning slices are read back.
proof fn lemma_skin_round_trip(v: ClusterMeshView, c: Seq<u8>)
    requires
        lengths_fit(v),
        starts(c, omm_index_usage_end(c), vertex_joint_indices_on(v)),
    ensures
        slice_items::<JointIndices>(c, omm_index_usage_end(c)) == v.vertex_joint_indices,
        slice_items::<Vec4>(c, vertex_joint_indices_end(c)) == v.vertex_joint_weights,
        slice_items::<ClusterBloatAabb>(c, vertex_joint_weights_end(c)) == v.cluster_bloat_aabbs,
        slice_items::<u32>(c, cluster_bloat_aabbs_end(c)) == seq![v.inverse_bind_count],
        starts(c, inverse_bind_counts_end(c), Seq::<u8>::empty()),
{
    assert(starts(c, vertex_joint_indices_end(c), vertex_joint_weights_on(v))
        && slice_items::<JointIndices>(c, omm_index_usage_end(c)) == v.vertex_joint_indices) by {
        reveal(vertex_joint_indices_on);
        reveal(vertex_joint_indices_end);
        lemma_next::<JointIndices>(c, omm_index_usage_end(c)->0, v.vertex_joint_indices,
            vertex_joint_weights_on(v));
    }
    assert(starts(c, vertex_joint_weights_end(c), cluster_bloat_aabbs_on(v))
        && slice_items::<Vec4>(c, vertex_joint_indices_end(c)) == v.vertex_joint_weights) by {
        reveal(vertex_joint_weights_on);
        reveal(vertex_joint_weights_end);
        lemma_next::<Vec4>(c, vertex_joint_indices_end(c)->0, v.vertex_joint_weights,
            cluster_bloat_aabbs_on(v));
    }
    assert(starts(c, cluster_bloat_aabbs_end(c), inverse_bind_counts_on(v))
        && slice_items::<ClusterBloatAabb>(c, vertex_joint_weights_end(c))
        == v.cluster_bloat_aabbs) by {
        reveal(cluster_bloat_aabbs_on);
        reveal(cluster_bloat_aabbs_end);
        lemma_next::<ClusterBloatAabb>(c, vertex_joint_weights_end(c)->0, v.cluster_bloat_aabbs,
            inverse_bind_counts_on(v));
    }
    assert(starts(c, inverse_bind_counts_end(c), Seq::<u8>::empty()) && slice_items::<u32>(c,
        cluster_bloat_aabbs_end(c)) == seq![v.inverse_bind_count]) by {
        reveal(inverse_bind_counts_on);
        reveal(inverse_bind_counts_end);
        assert(slice_bytes(seq![v.inverse_bind_count])
            + Seq::<u8>::empty() =~= slice_bytes(seq![v.inverse_bind_count]));
        lemma_next::<u32>(c, cluster_bloat_aabbs_end(c)->0, seq![v.inverse_bind_count],
            Seq::<u8>::empty());
    }
}

/// What is written of the slices is read back as the slices.
pub proof fn lemma_content_round_trip(v: ClusterMeshView, header: Seq<u8>)
    requires
        lengths_fit(v),
    ensures
        content_end(content_bytes(v), CLUSTER_MESH_ASSET_VERSION) is Some,
        ({
            let back = mesh_of(header, content_bytes(v), CLUSTER_MESH_ASSET_VERSION);
            back == (ClusterMeshView {
                aabb: back.aabb,
                mesh_max_error: back.mesh_max_error,
                root_group_id: back.root_group_id,
                root_node_id: back.root_node_id,
                lod_levels: back.lod_levels,
                ..v
            })
        }),
{
    let c = content_bytes(v);
    assert(c.skip(0) =~= c);
    lemma_vertex_round_trip(v, c);
    lemma_core_round_trip(v, c);
    lemma_omm_round_trip(v, c);
    lemma_skin_round_trip(v, c);
    let back = mesh_of(header, c, CLUSTER_MESH_ASSET_VERSION);
    assert(back =~= (ClusterMeshView {
        aabb: back.aabb,
        mesh_max_error: back.mesh_max_error,
        root_group_id: back.root_group_id,
        root_node_id: back.root_node_id,
        lod_levels: back.lod_levels,
        ..v
    }));
}

/// Lays out all slices, one after the other.
pub fn write_content(asset: &ClusterMeshData) -> (out: Vec<u8>)
    ensures
        out@ == content_bytes(asset@),
{
    let mut out: Vec<u8> = Vec::new();
    let ghost v = asset@;
    let ghost s0 = out@;
    write_slice(&asset.vertex_positions, &mut out);
    let ghost s1 = out@;
    write_slice(&asset.vertex_normals, &mut out);
    let ghost s2 = out@;
    write_slice(&asset.vertex_tangents, &mut out);
    let ghost s3 = out@;
    write_slice(&asset.vertex_uvs, &mut out);
    let ghost s4 = out@;
    write_slice(&asset.indices, &mut out);
    let ghost s5 = out@;
    write_slice(&asset.clusters, &mut out);
    let ghost s6 = out@;
    write_slice(&asset.groups, &mut out);
    let ghost s7 = out@;
    write_slice(&asset.nodes, &mut out);
    let ghost s8 = out@;
    write_slice(&asset.child_table, &mut out);
    let ghost s9 = out@;
    write_slice(&asset.cluster_to_group, &mut out);
    let ghost s10 = out@;
    write_byte_slice(&asset.omm_array_data, &mut out);
    let ghost s11 = out@;
    write_slice(&asset.omm_descs, &mut out);
    let ghost s12 = out@;
    write_slice(&asset.omm_index, &mut out);
    let ghost s13 = out@;
    write_slice(&asset.omm_usage, &mut out);
    let ghost s14 = out@;
    write_slice(&asset.omm_index_usage, &mut out);
    let ghost s15 = out@;
    write_slice(&asset.vertex_joint_indices, &mut out);
    let ghost s16 = out@;
    write_slice(&asset.vertex_joint_weights, &mut out);
    let ghost s17 = out@;
    write_slice(&asset.cluster_bloat_aabbs, &mut out);
    let ghost s18 = out@;
    let counts: Vec<u32> = vec![asset.inverse_bind_count];
    assert(counts@ =~= seq![v.inverse_bind_count]);
    write_slice(&counts, &mut out);
    let ghost s19 = out@;
    proof {
        assert(s19 == s18 + inverse_bind_counts_on(v)) by {
            reveal(inverse_bind_counts_on);
        }
        assert(s19 == s17 + cluster_bloat_aabbs_on(v)) by {
            reveal(cluster_bloat_aabbs_on);
            lemma_append(s17, slice_bytes(v.cluster_bloat_aabbs), inverse_bind_counts_on(v));
        }
        assert(s19 == s16 + vertex_joint_weights_on(v)) by {
            reveal(vertex_joint_weights_on);
            lemma_append(s16, slice_bytes(v.vertex_joint_weights), cluster_bloat_aabbs_on(v));
        }
        assert(s19 == s15 + vertex_joint_indices_on(v)) by {
            reveal(vertex_joint_indices_on);
            lemma_append(s15, slice_bytes(v.vertex_joint_indices), vertex_joint_weights_on(v));
        }
        assert(s19 == s14 + omm_index_usage_on(v)) by {
            reveal(omm_index_usage_on);
            lemma_append(s14, slice_bytes(v.omm_index_usage), vertex_joint_indices_on(v));
        }
        assert(s19 == s13 + omm_usage_on(v)) by {
            reveal(omm_usage_on);
            lemma_append(s13, slice_bytes(v.omm_usage), omm_index_usage_on(v));
        }
        assert(s19 == s12 + omm_index_on(v)) by {
            reveal(omm_index_on);
            lemma_append(s12, slice_bytes(v.omm_index), omm_usage_on(v));
        }
        assert(s19 == s11 + omm_descs_on(v)) by {
            reveal(omm_descs_on);
            lemma_append(s11, slice_bytes(v.omm_descs), omm_index_on(v));
        }
        assert(s19 == s10 + omm_array_data_on(v)) by {
            reveal(omm_array_data_on);
            lemma_append(s10, byte_slice_bytes(v.omm_array_data), omm_descs_on(v));
        }
        assert(s19 == s9 + cluster_to_group_on(v)) by {
            reveal(cluster_to_group_on);
            lemma_append(s9, slice_bytes(v.cluster_to_group), omm_array_data_on(v));
        }
        assert(s19 == s8 + child_table_on(v)) by {
            reveal(child_table_on);
            lemma_append(s8, slice_bytes(v.child_table), cluster_to_group_on(v));
        }
        assert(s19 == s7 + nodes_on(v)) by {
            reveal(nodes_on);
            lemma_append(s7, slice_bytes(v.nodes), child_table_on(v));
        }
        assert(s19 == s6 + groups_on(v)) by {
            reveal(groups_on);
            lemma_append(s6, slice_bytes(v.groups), nodes_on(v));
        }
        assert(s19 == s5 + clusters_on(v)) by {
            reveal(clusters_on);
            lemma_append(s5, slice_bytes(v.clusters), groups_on(v));
        }
        assert(s19 == s4 + indices_on(v)) by {
            reveal(indices_on);
            lemma_append(s4, slice_bytes(v.indices), clusters_on(v));
        }
        assert(s19 == s3 + vertex_uvs_on(v)) by {
            reveal(vertex_uvs_on);
            lemma_append(s3, slice_bytes(v.vertex_uvs), indices_on(v));
        }
        assert(s19 == s2 + vertex_tangents_on(v)) by {
            reveal(vertex_tangents_on);
            lemma_append(s2, slice_bytes(v.vertex_tangents), vertex_uvs_on(v));
        }
        assert(s19 == s1 + vertex_normals_on(v)) by {
            reveal(vertex_normals_on);
            lemma_append(s1, slice_bytes(v.vertex_normals), vertex_tangents_on(v));
        }
        assert(s19 == s0 + vertex_positions_on(v)) by {
            reveal(vertex_positions_on);
            lemma_append(s0, slice_bytes(v.vertex_positions), vertex_normals_on(v));
        }
        assert(s0 + vertex_positions_on(v) =~= vertex_positions_on(v));
    }
    out
}

/// Lays out the header.
fn write_header(asset: &ClusterMeshData) -> (out: Vec<u8>)
    ensures
        out@ == header_bytes(asset@),
{
    let mut out: Vec<u8> = Vec::new();
    put_u64(&mut out, CLUSTER_MESH_ASSET_MAGIC);
    put_u64(&mut out, CLUSTER_MESH_ASSET_VERSION);
    asset.aabb.put(&mut out);
    put_u32(&mut out, asset.mesh_max_error);
    put_u32(&mut out, asset.root_group_id);
    put_u32(&mut out, asset.root_node_id);
    put_u32(&mut out, asset.lod_levels);
    assert(out@ =~= header_bytes(asset@));
    out
}

/// The file that holds a mesh once its slices are in a frame.
pub fn assemble(asset: &ClusterMeshData, frame: Result<Vec<u8>, bool>) -> (r: Result<
    Vec<u8>,
    ClusterMeshError,
>)
    ensures
        ({
            let held = match frame {
                Ok(f) => Ok::<Seq<u8>, bool>(f@),
                Err(finishing) => Err::<Seq<u8>, bool>(finishing),
            };
            match r {
                Ok(bytes) => assembled(asset@, held) == Ok::<Seq<u8>, ClusterMeshError>(bytes@),
                Err(e) => assembled(asset@, held) == Err::<Seq<u8>, ClusterMeshError>(e),
            }
        }),
{
    match frame {
        Ok(frame) => {
            let mut out: Vec<u8> = write_header(asset);
            out.extend_from_slice(frame.as_slice());
            assert(out@ =~= header_bytes(asset@) + frame@);
            Ok(out)
        },
        Err(finishing) => if finishing {
            Err(ClusterMeshError::Compression)
        } else {
            Err(ClusterMeshError::Io)
        },
    }
}

proof fn lemma_word32_at(s: Seq<u8>, p: int, x: u32)
    requires
        0 <= p,
        p + 4 <= s.len(),
        s.subrange(p, p + 4) == le32(x),
    ensures
        word32(s, p) == x,
{
    lemma_word32_of_le32(x);
    assert(le32(x).subrange(0, 4) =~= le32(x));
    lemma_word32_local(s, p, le32(x), 0);
}

/// The fields of a header that was written are read back, whatever follows it.
proof fn lemma_header_round_trip(v: ClusterMeshView, frame: Seq<u8>)
    ensures
        header_bytes(v).len() == HEADER_BYTES,
        ({
            let s = header_bytes(v) + frame;
            &&& word64(s, 0) == CLUSTER_MESH_ASSET_MAGIC
            &&& word64(s, 8) == CLUSTER_MESH_ASSET_VERSION
            &&& ClusterMeshAabb::of_words(words_at(s, 16, 8)) == v.aabb
            &&& word32(s, 48) == v.mesh_max_error
            &&& word32(s, 52) == v.root_group_id
            &&& word32(s, 56) == v.root_node_id
            &&& word32(s, 60) == v.lod_levels
            &&& s.skip(HEADER_BYTES as int) == frame
        }),
{
    let s = header_bytes(v) + frame;
    v.aabb.lemma_words();
    lemma_words_bytes_len(v.aabb.words());
    lemma_word64_of_le64(CLUSTER_MESH_ASSET_MAGIC);
    lemma_word64_of_le64(CLUSTER_MESH_ASSET_VERSION);
    assert(s.subrange(0, 8) =~= le64(CLUSTER_MESH_ASSET_MAGIC));
    lemma_word64_at(s, 0, CLUSTER_MESH_ASSET_MAGIC);
    assert(s.subrange(8, 16) =~= le64(CLUSTER_MESH_ASSET_VERSION));
    lemma_word64_at(s, 8, CLUSTER_MESH_ASSET_VERSION);
    assert(s.subrange(16, 48) =~= words_bytes(v.aabb.words()));
    lemma_words_at(s, 16, v.aabb.words());
    assert(s.subrange(48, 52) =~= le32(v.mesh_max_error));
    lemma_word32_at(s, 48, v.mesh_max_error);
    assert(s.subrange(52, 56) =~= le32(v.root_group_id));
    lemma_word32_at(s, 52, v.root_group_id);
    assert(s.subrange(56, 60) =~= le32(v.root_node_id));
    lemma_word32_at(s, 56, v.root_node_id);
    assert(s.subrange(60, 64) =~= le32(v.lod_levels));
    lemma_word32_at(s, 60, v.lod_levels);
    assert(s.skip(HEADER_BYTES as int) =~= frame);
}

/// Writes the current version of the format. A file that was written reads back as what was
/// written.
pub fn write_cluster_mesh_sync(asset: &ClusterMeshData) -> (r: Result<Vec<u8>, ClusterMeshError>)
    ensures
        match r {
            Ok(bytes) => {
                &&& file_bytes(asset@) == Ok::<Seq<u8>, ClusterMeshError>(bytes@)
                &&& parse_cluster_mesh(bytes@) == Ok::<ClusterMeshView, ClusterMeshError>(asset@)
            },
            Err(e) => file_bytes(asset@) == Err::<Seq<u8>, ClusterMeshError>(e),
        },
{
    let content: Vec<u8> = write_content(asset);
    let ghost v = asset@;
    proof {
        reveal(vertex_positions_on);
        lemma_word64_of_le64(v.vertex_positions.len() as u64);
    }
    assert(content@.len() >= 8);
    let first: Vec<u8> = copy_bytes(content.as_slice(), 0, 8);
    let rest: Vec<u8> = copy_bytes(content.as_slice(), 8, content.len());
    assert(first@ =~= content@.take(8));
    assert(rest@ =~= content@.skip(8));
    assert(first@ + rest@ =~= content@);
    let frame: Result<Vec<u8>, bool> = encode_frame(first.as_slice(), rest.as_slice());
    let ghost held = frame->Ok_0@;
    let out: Vec<u8> = match assemble(asset, frame) {
        Ok(out) => out,
        Err(e) => return Err(e),
    };
    proof {
        lemma_header_round_trip(v, held);
        assert(lengths_fit(v)) by {
            assert(asset.vertex_positions.len() <= usize::MAX);
            assert(asset.vertex_normals.len() <= usize::MAX);
            assert(asset.vertex_tangents.len() <= usize::MAX);
            assert(asset.vertex_uvs.len() <= usize::MAX);
            assert(asset.indices.len() <= usize::MAX);
            assert(asset.clusters.len() <= usize::MAX);
            assert(asset.groups.len() <= usize::MAX);
            assert(asset.nodes.len() <= usize::MAX);
            assert(asset.child_table.len() <= usize::MAX);
            assert(asset.cluster_to_group.len() <= usize::MAX);
            assert(asset.omm_array_data.len() <= usize::MAX);
            assert(asset.omm_descs.len() <= usize::MAX);
            assert(asset.omm_index.len() <= usize::MAX);
            assert(asset.omm_usage.len() <= usize::MAX);
            assert(asset.omm_index_usage.len() <= usize::MAX);
            assert(asset.vertex_joint_indices.len() <= usize::MAX);
            assert(asset.vertex_joint_weights.len() <= usize::MAX);
            assert(asset.cluster_bloat_aabbs.len() <= usize::MAX);
        }
        lemma_content_round_trip(v, out@);
        assert(mesh_of(out@, content@, CLUSTER_MESH_ASSET_VERSION) == v);
    }
    Ok(out)
}

/// A file of an older version means the same by what it has, and has nothing of what came later:
/// no opacity micromaps before their version, and no skin before its own.
pub proof fn lemma_older_versions(header: Seq<u8>, c: Seq<u8>, version: u64)
    requires
        version <= CLUSTER_MESH_ASSET_VERSION,
    ensures
        ({
            let earlier = mesh_of(header, c, version);
            let now = mesh_of(header, c, CLUSTER_MESH_ASSET_VERSION);
            &&& version < CLUSTER_MESH_ASSET_OMM_VERSION ==> earlier.omm_array_data.len() == 0
                && earlier.omm_descs.len() == 0 && earlier.omm_index.len() == 0
                    && earlier.omm_usage.len() == 0
                && earlier.omm_index_usage.len() == 0
            &&& version < CLUSTER_MESH_ASSET_SKIN_VERSION ==> earlier.vertex_joint_indices.len()
                == 0
                && earlier.vertex_joint_weights.len() == 0 && earlier.cluster_bloat_aabbs.len() == 0
                && earlier.inverse_bind_count == 0
            &&& version >= CLUSTER_MESH_ASSET_SKIN_VERSION && version
                >= CLUSTER_MESH_ASSET_OMM_VERSION ==> earlier == now
            &&& earlier.vertex_positions == now.vertex_positions
            &&& earlier.vertex_normals == now.vertex_normals
            &&& earlier.vertex_tangents == now.vertex_tangents
            &&& earlier.vertex_uvs == now.vertex_uvs
            &&& earlier.indices == now.indices
            &&& earlier.clusters == now.clusters
            &&& earlier.groups == now.groups
            &&& earlier.nodes == now.nodes
            &&& earlier.child_table == now.child_table
            &&& earlier.cluster_to_group == now.cluster_to_group
            &&& earlier.aabb == now.aabb
        }),
{
}

} // verus!
