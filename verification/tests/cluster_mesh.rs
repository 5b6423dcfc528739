use aurora::bits::{Vec2, Vec3, Vec4};
use aurora::cluster_mesh::file::{
    assemble, read_cluster_mesh_sync, read_decoded, write_cluster_mesh_sync, write_content,
};
use aurora::cluster_mesh::flat::{
    MeshIndices, MeshSource, MAX_CLUSTER_TRIANGLES, MAX_CLUSTER_VERTICES,
};
use aurora::cluster_mesh::types::{
    Attribute, ClusterBloatAabb, ClusterMeshData, ClusterMeshError, JointIndices, OmmDesc,
    OmmUsage,
};
use bevy::asset::RenderAssetUsages;
use bevy::mesh::{Indices, Mesh, PrimitiveTopology, VertexAttributeValues};

fn vec3(p: [f32; 3]) -> Vec3 {
    Vec3 { x: p[0].to_bits(), y: p[1].to_bits(), z: p[2].to_bits() }
}

fn floats(p: Vec3) -> [f32; 3] {
    [f32::from_bits(p.x), f32::from_bits(p.y), f32::from_bits(p.z)]
}

/// Two signed bytes of an octahedral direction are enough to tell directions apart here.
fn packed(n: [f32; 3]) -> u32 {
    (((n[0] * 127.0) as i8 as u8 as u32) << 8) | ((n[1] * 127.0) as i8 as u8 as u32)
}

/// What the library reads of a mesh.
fn source(mesh: &Mesh) -> MeshSource {
    let positions = mesh
        .attribute(Mesh::ATTRIBUTE_POSITION)
        .and_then(|a| a.as_float3())
        .map(|p| p.iter().map(|p| vec3(*p)).collect());
    let mut with_normals = mesh.clone();
    if mesh.attribute(Mesh::ATTRIBUTE_NORMAL).is_none() {
        with_normals.compute_normals();
    }
    let normals = with_normals
        .attribute(Mesh::ATTRIBUTE_NORMAL)
        .and_then(|a| a.as_float3())
        .map(|n| n.iter().map(|n| packed(*n)).collect());
    let uvs = match mesh.attribute(Mesh::ATTRIBUTE_UV_0) {
        Some(VertexAttributeValues::Float32x2(uv)) => Some(
            uv.iter().map(|uv| Vec2 { x: uv[0].to_bits(), y: uv[1].to_bits() }).collect(),
        ),
        _ => None,
    };
    let indices = match mesh.indices() {
        Some(Indices::U32(i)) => Some(MeshIndices::U32(i.clone())),
        Some(Indices::U16(i)) => Some(MeshIndices::U16(i.clone())),
        None => None,
    };
    MeshSource { positions, normals, uvs, tangents: None, indices }
}

/// A fan of triangles over `n` corners, as its own index list.
fn strip(n: u32) -> Vec<u32> {
    (0..n - 2).flat_map(|i| [i, i + 1, i + 2]).collect()
}

fn plain_source(n: u32, indices: Option<MeshIndices>) -> MeshSource {
    MeshSource {
        positions: Some((0..n).map(|i| vec3([i as f32, 1.0, 2.0])).collect()),
        normals: Some((0..n).collect()),
        uvs: None,
        tangents: None,
        indices,
    }
}

#[test]
fn flat_round_trip() {
    let mut mesh = Mesh::new(PrimitiveTopology::TriangleList, RenderAssetUsages::default());
    let n = 1000usize;
    let positions: Vec<[f32; 3]> =
        (0..n).map(|i| [i as f32, (i * 7 % 13) as f32, 0.0]).collect();
    let indices: Vec<u32> = (0..n as u32 - 2).flat_map(|i| [i, i + 1, i + 2]).collect();
    mesh.insert_attribute(Mesh::ATTRIBUTE_POSITION, positions.clone());
    mesh.insert_attribute(Mesh::ATTRIBUTE_UV_0, vec![[0.5f32, 0.25]; n]);
    mesh.insert_indices(Indices::U32(indices.clone()));

    let source = source(&mesh);
    assert!(source.is_usable());
    let data = ClusterMeshData::from_mesh_flat(&source).unwrap();
    assert!(data.clusters.iter().all(|c| c.triangle_count as usize <= MAX_CLUSTER_TRIANGLES));
    assert!(data.clusters.iter().all(|c| c.vertex_count as usize <= MAX_CLUSTER_VERTICES));
    let total: u32 = data.clusters.iter().map(|c| c.triangle_count).sum();
    assert_eq!(total as usize, indices.len() / 3);

    let bytes = write_cluster_mesh_sync(&data).unwrap();
    let back = read_cluster_mesh_sync(bytes.as_slice()).unwrap();
    assert_eq!(back.clusters.len(), data.clusters.len());
    assert_eq!(back.indices.len(), data.indices.len());

    assert!(back.is_rebuildable());
    let rebuilt = back.to_mesh();
    assert_eq!(rebuilt.indices.len() / 3, indices.len() / 3);
    for (t, tri) in rebuilt.indices.chunks(3).enumerate() {
        for k in 0..3 {
            assert_eq!(
                floats(rebuilt.positions[tri[k] as usize]),
                positions[indices[t * 3 + k] as usize]
            );
        }
    }
}

#[test]
fn flat_clusters_are_greedy() {
    // A strip of 1000 corners: 128 triangles share 130 corners, so triangles run out first.
    let source = plain_source(1000, Some(MeshIndices::U32(strip(1000))));
    let data = ClusterMeshData::from_mesh_flat(&source).unwrap();
    assert_eq!(data.clusters.len(), 8);
    assert_eq!(data.clusters[0].triangle_count, 128);
    assert_eq!(data.clusters[0].vertex_count, 130);
    assert_eq!(data.clusters[1].vertex_offset, 130);
    assert_eq!(data.clusters[1].index_offset, 384);
    assert_eq!(data.clusters[7].triangle_count, 998 - 7 * 128);
    assert_eq!(data.groups.len(), 1);
    assert_eq!(data.groups[0].cluster_count, 8);
    assert_eq!(data.groups[0].parent_group, u32::MAX);
    assert_eq!(data.cluster_to_group, vec![0; 8]);
    assert_eq!(data.root_node_id, u32::MAX);
    assert_eq!(data.lod_levels, 1);
    assert_eq!(data.vertex_tangents[0], Vec4 { x: 0x3F80_0000, y: 0, z: 0, w: 0x3F80_0000 });
    assert_eq!(data.vertex_uvs[5], Vec2 { x: 0, y: 0 });
}

#[test]
fn flat_clusters_run_out_of_vertices() {
    // No corner is shared: 85 triangles have 255 corners, and the next would make 258.
    let source = plain_source(300, None);
    let data = ClusterMeshData::from_mesh_flat(&source).unwrap();
    assert_eq!(data.clusters.len(), 2);
    assert_eq!(data.clusters[0].triangle_count, 85);
    assert_eq!(data.clusters[0].vertex_count, 255);
    assert_eq!(data.clusters[1].triangle_count, 15);
    assert_eq!(data.clusters[1].vertex_count, 45);
}

#[test]
fn flat_reads_short_indices_and_drops_a_part_triangle() {
    let source = plain_source(4, Some(MeshIndices::U16(vec![0, 1, 2, 2, 1, 3, 0])));
    let data = ClusterMeshData::from_mesh_flat(&source).unwrap();
    assert_eq!(data.clusters.len(), 1);
    assert_eq!(data.clusters[0].triangle_count, 2);
    assert_eq!(data.indices, vec![0, 1, 2, 2, 1, 3]);
    assert_eq!(data.vertex_normals, vec![0, 1, 2, 3]);
}

#[test]
fn flat_names_the_missing_attribute() {
    let mut source = plain_source(3, None);
    source.normals = None;
    assert!(matches!(
        ClusterMeshData::from_mesh_flat(&source),
        Err(ClusterMeshError::MissingAttribute(Attribute::Normal))
    ));
    source.positions = None;
    assert!(matches!(
        ClusterMeshData::from_mesh_flat(&source),
        Err(ClusterMeshError::MissingAttribute(Attribute::Position))
    ));
}

#[test]
fn flat_refuses_an_index_without_a_vertex() {
    let source = plain_source(3, Some(MeshIndices::U32(vec![0, 1, 3])));
    assert!(!source.is_usable());
}

#[test]
fn bounds_are_put_in_place() {
    let mut data = ClusterMeshData::from_mesh_flat(&plain_source(3, None)).unwrap();
    let sphere = Vec4 { x: 1, y: 2, z: 3, w: 4 };
    let center = Vec3 { x: 5, y: 6, z: 7 };
    let half = Vec3 { x: 8, y: 9, z: 10 };
    data.set_bounds(&vec![sphere], center, half, 11);
    assert_eq!(data.clusters[0].bounds_sphere, sphere);
    assert_eq!(data.groups[0].traversal_sphere, Vec4 { x: 5, y: 6, z: 7, w: 11 });
    assert_eq!(data.aabb.center, Vec4 { x: 5, y: 6, z: 7, w: 0 });
    assert_eq!(data.aabb.half_extent, Vec4 { x: 8, y: 9, z: 10, w: 0 });
}

/// A mesh that fills every slice.
fn full_mesh() -> ClusterMeshData {
    let mut data = ClusterMeshData::from_mesh_flat(&plain_source(6, None)).unwrap();
    data.omm_array_data = vec![1, 2, 3, 4, 5];
    data.omm_descs = vec![OmmDesc { offset: 7, subdivision_level: 2, format: 1 }];
    data.omm_index = vec![-1, 0];
    data.omm_usage = vec![OmmUsage { count: 9, subdivision_level: 2, format: 1 }];
    data.omm_index_usage = vec![OmmUsage { count: 3, subdivision_level: 4, format: 2 }];
    data.vertex_joint_indices = vec![JointIndices { j0: 1, j1: 2, j2: 3, j3: 4 }];
    data.vertex_joint_weights = vec![Vec4 { x: 1, y: 2, z: 3, w: 4 }];
    data.cluster_bloat_aabbs = vec![ClusterBloatAabb {
        min: Vec4 { x: 1, y: 2, z: 3, w: 4 },
        max: Vec4 { x: 5, y: 6, z: 7, w: 8 },
    }];
    data.inverse_bind_count = 21;
    data.mesh_max_error = 0x3F00_0000;
    data.root_group_id = 3;
    data
}

#[test]
fn every_slice_is_read_back() {
    let data = full_mesh();
    let bytes = write_cluster_mesh_sync(&data).unwrap();
    let back = read_cluster_mesh_sync(&bytes).unwrap();
    assert_eq!(back.vertex_positions, data.vertex_positions);
    assert_eq!(back.vertex_normals, data.vertex_normals);
    assert_eq!(back.vertex_tangents, data.vertex_tangents);
    assert_eq!(back.vertex_uvs, data.vertex_uvs);
    assert_eq!(back.indices, data.indices);
    assert_eq!(back.clusters, data.clusters);
    assert_eq!(back.groups, data.groups);
    assert_eq!(back.cluster_to_group, data.cluster_to_group);
    assert_eq!(back.aabb, data.aabb);
    assert_eq!(back.omm_array_data, data.omm_array_data);
    assert_eq!(back.omm_descs, data.omm_descs);
    assert_eq!(back.omm_index, data.omm_index);
    assert_eq!(back.omm_usage, data.omm_usage);
    assert_eq!(back.omm_index_usage, data.omm_index_usage);
    assert_eq!(back.vertex_joint_indices, data.vertex_joint_indices);
    assert_eq!(back.vertex_joint_weights, data.vertex_joint_weights);
    assert_eq!(back.cluster_bloat_aabbs, data.cluster_bloat_aabbs);
    assert_eq!(back.inverse_bind_count, 21);
    assert_eq!(back.mesh_max_error, 0x3F00_0000);
    assert_eq!(back.root_group_id, 3);
    assert_eq!(back.root_node_id, u32::MAX);
    assert_eq!(back.lod_levels, 1);
}

#[test]
fn the_frame_is_a_real_one() {
    let data = full_mesh();
    let bytes = write_cluster_mesh_sync(&data).unwrap();
    assert_eq!(&bytes[0..8], b"CLUSTERS");
    assert_eq!(bytes[8..16], 4u64.to_le_bytes());
    // The magic number of an lz4 frame.
    assert_eq!(bytes[64..68], 0x184D_2204u32.to_le_bytes());
    let mut content = Vec::new();
    let mut decoder = lz4_flex::frame::FrameDecoder::new(&bytes[64..]);
    std::io::Read::read_to_end(&mut decoder, &mut content).unwrap();
    assert_eq!(content, write_content(&data));
    assert_eq!(read_decoded(&bytes, &content).unwrap().indices, data.indices);
}

#[test]
fn older_versions_lack_the_later_slices() {
    let data = full_mesh();
    let mut bytes = write_cluster_mesh_sync(&data).unwrap();
    bytes[8] = 3;
    let back = read_cluster_mesh_sync(&bytes).unwrap();
    assert_eq!(back.omm_array_data, data.omm_array_data);
    assert_eq!(back.vertex_joint_indices.len(), 0);
    assert_eq!(back.inverse_bind_count, 0);
    bytes[8] = 2;
    let back = read_cluster_mesh_sync(&bytes).unwrap();
    assert_eq!(back.indices, data.indices);
    assert_eq!(back.omm_array_data.len(), 0);
    assert_eq!(back.omm_index.len(), 0);
}

#[test]
fn wrong_files_are_refused() {
    let bytes = write_cluster_mesh_sync(&full_mesh()).unwrap();
    assert!(matches!(read_cluster_mesh_sync(&bytes[..7]), Err(ClusterMeshError::Io)));
    assert!(matches!(read_cluster_mesh_sync(&bytes[..12]), Err(ClusterMeshError::Io)));
    assert!(matches!(read_cluster_mesh_sync(&bytes[..63]), Err(ClusterMeshError::Io)));
    assert!(matches!(read_cluster_mesh_sync(&bytes[..80]), Err(ClusterMeshError::Io)));
    let mut wrong = bytes.clone();
    wrong[0] = b'X';
    assert!(matches!(read_cluster_mesh_sync(&wrong), Err(ClusterMeshError::WrongFileType)));
    let mut wrong = bytes.clone();
    wrong[8] = 5;
    assert!(matches!(
        read_cluster_mesh_sync(&wrong),
        Err(ClusterMeshError::WrongVersion { found: 5 })
    ));
    wrong[8] = 1;
    assert!(matches!(
        read_cluster_mesh_sync(&wrong),
        Err(ClusterMeshError::WrongVersion { found: 1 })
    ));
}

#[test]
fn a_content_cut_short_is_refused() {
    let data = full_mesh();
    let bytes = write_cluster_mesh_sync(&data).unwrap();
    let content = write_content(&data);
    assert!(read_decoded(&bytes, &content).is_ok());
    assert!(matches!(
        read_decoded(&bytes, &content[..content.len() - 1]),
        Err(ClusterMeshError::Io)
    ));
    assert!(matches!(read_decoded(&bytes, &[]), Err(ClusterMeshError::Io)));
}

#[test]
fn a_frame_that_failed_names_the_stage() {
    let data = full_mesh();
    assert!(matches!(assemble(&data, Err(true)), Err(ClusterMeshError::Compression)));
    assert!(matches!(assemble(&data, Err(false)), Err(ClusterMeshError::Io)));
    assert_eq!(assemble(&data, Ok(vec![1, 2, 3])).unwrap().len(), 67);
}

#[test]
fn only_the_finest_level_is_rebuilt() {
    let mut data = ClusterMeshData::from_mesh_flat(&plain_source(300, None)).unwrap();
    data.clusters[1].lod_level = 1;
    let rebuilt = data.to_mesh();
    assert_eq!(rebuilt.indices.len(), 255);
    assert_eq!(rebuilt.positions.len(), 255);
    data.clusters[0].vertex_offset = u32::MAX;
    assert!(!data.is_rebuildable());
}
