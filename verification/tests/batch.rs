use aurora::blas::{
    chunk_ends, compactions, AccelerationStructure, Compaction, GeometryDescr, MeshUpload,
};
use aurora::blas_batch::{
    build_blas_batch, finish_chunk, pack_batch, plan_builds, plan_compactions, plan_uploads,
    scratch_len, BlasBuildInput, BlasCommand, BlasStaging,
};
use aurora::commands::{Buffer, Command};

fn buffer(n: u64) -> Buffer {
    Buffer { handle: n, address: n * 0x1000, len: 1 }
}

fn structure(n: u64) -> AccelerationStructure {
    AccelerationStructure { handle: n, buffer: buffer(n + 500), address: n * 16 }
}

fn staged(n: u64) -> BlasStaging {
    BlasStaging {
        vertex_buffer: buffer(10 * n + 1),
        index_buffer: buffer(10 * n + 2),
        triangle_buffer: buffer(10 * n + 3),
        geom_to_index: buffer(10 * n + 4),
        geom_to_triangle: buffer(10 * n + 5),
        geometries: vec![],
        vertex_count: 3,
    }
}

fn input(first: u32) -> BlasBuildInput {
    BlasBuildInput {
        vertex_count: 10,
        indices: (first..first + 6).collect(),
        geometries: vec![
            GeometryDescr { first_vertex: 0, vertex_count: 10, first_index: 0, index_count: 3 },
            GeometryDescr { first_vertex: 0, vertex_count: 10, first_index: 3, index_count: 3 },
        ],
    }
}

#[test]
fn each_mesh_has_its_own_tables() {
    let inputs = vec![input(0), input(4)];
    assert!(inputs.iter().all(|i| i.is_usable()));
    let tables = pack_batch(&inputs);
    assert_eq!(tables.len(), 2);
    assert_eq!(tables[1].geom_to_index, vec![0, 3]);
    assert_eq!(tables[1].geom_to_triangle, vec![0, 1]);
    assert_eq!((tables[0].corners[1].a, tables[1].corners[0].a), (3, 4));
    assert!(pack_batch(&vec![]).is_empty());
}

#[test]
fn meshes_that_point_nowhere() {
    assert!(!input(5).is_usable());
    let mut long = input(0);
    long.geometries[1].index_count = 6;
    assert!(!long.is_usable());
    // Indices that no whole triangle uses may point anywhere.
    let mut loose = input(0);
    loose.indices[3] = 99;
    assert!(!loose.is_usable());
    loose.geometries[1].index_count = 2;
    assert!(loose.is_usable());
    assert_eq!(pack_batch(&vec![loose])[0].corners.len(), 1);
}

#[test]
fn a_chunk_is_built_in_order() {
    let plan = plan_builds(
        &vec![structure(1), structure(2)],
        &vec![buffer(3), Buffer { handle: 4, address: 0x4001, len: 1 }],
        256,
        true,
    );
    assert_eq!(plan.len(), 7);
    assert_eq!(plan[0], BlasCommand::ResetQueries { count: 2 });
    match plan[2] {
        BlasCommand::Build { mesh, build } => {
            assert_eq!((mesh, build.structure, build.scratch), (1, 2, 0x4100));
        }
        _ => panic!("not a build"),
    }
    assert!(matches!(plan[3], BlasCommand::Plain(Command::Barrier(_))));
    assert_eq!(plan[4], BlasCommand::QuerySize { structure: 1, query: 0 });
    assert_eq!(plan[5], BlasCommand::QuerySize { structure: 2, query: 1 });
    assert_eq!(plan[6], BlasCommand::Submit);
    // Without compaction no size is asked for.
    let plan = plan_builds(&vec![structure(1)], &vec![buffer(3)], 256, false);
    assert_eq!(plan.len(), 2);
    assert!(matches!(plan[0], BlasCommand::Build { mesh: 0, .. }));
    assert_eq!(plan[1], BlasCommand::Submit);
}

#[test]
fn compactions_are_submitted_once() {
    let structures = vec![structure(1), structure(2)];
    let copies = compactions(&vec![50, 20], &vec![50, 60]);
    assert_eq!(copies, vec![Compaction { index: 1, size: 20 }]);
    assert_eq!(
        plan_compactions(&structures, &copies, &vec![structure(9)]),
        vec![BlasCommand::Compact { src: 2, dst: 9 }, BlasCommand::Submit]
    );
    assert!(plan_compactions(&structures, &vec![], &vec![]).is_empty());
}

#[test]
fn uploads_are_submitted_once() {
    let upload = MeshUpload {
        vertex_host: 1,
        vertex: 2,
        vertex_count: 1,
        index_host: 3,
        index: 4,
        index_count: 0,
        triangle_host: 5,
        triangle: 6,
        triangle_count: 0,
        geom_to_index_host: 7,
        geom_to_index: 8,
        geom_to_triangle_host: 9,
        geom_to_triangle: 10,
        geometry_count: 0,
    };
    assert_eq!(
        plan_uploads(&vec![upload]),
        vec![
            BlasCommand::Plain(Command::Copy { src: 1, dst: 2, size: 32 }),
            BlasCommand::Submit
        ]
    );
    assert!(plan_uploads(&vec![]).is_empty());
}

#[test]
fn scratch_stays_inside_its_buffer() {
    let len = scratch_len(1000, 256);
    assert_eq!(len, 1256);
    for address in [0x1000u64, 0x1001, 0x10FF] {
        let start = (address + 255) / 256 * 256;
        assert!(start + 1000 <= address + len);
    }
}

#[test]
fn results_belong_to_their_meshes() {
    let mib = 1024 * 1024;
    let staging: Vec<BlasStaging> = (0..3).map(staged).collect();
    let ends = chunk_ends(&vec![200 * mib, 100 * mib, 5], 0);
    assert_eq!(ends, vec![2, 3]);
    let built = vec![vec![structure(1), structure(2)], vec![structure(3)]];
    let r = build_blas_batch(&staging, &ends, &built);
    assert_eq!(r.len(), 3);
    for (i, blas) in r.iter().enumerate() {
        assert_eq!(blas.acceleration_structure.handle, i as u64 + 1);
        assert_eq!(blas.vertex_buffer, staging[i].vertex_buffer);
        assert_eq!(blas.index_buffer, staging[i].index_buffer);
        assert_eq!(blas.triangle_buffer, staging[i].triangle_buffer);
        assert_eq!(blas.geometry_to_index, staging[i].geom_to_index);
        assert_eq!(blas.geometry_to_triangle, staging[i].geom_to_triangle);
    }
    assert!(build_blas_batch(&vec![], &vec![], &vec![]).is_empty());
    let chunk = finish_chunk(&vec![staged(4)], &vec![structure(8)]);
    assert_eq!(chunk[0].acceleration_structure, structure(8));
    assert_eq!(chunk[0].vertex_buffer, buffer(41));
}
