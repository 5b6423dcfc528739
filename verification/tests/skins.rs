use aurora::commands::{Buffer, Command, Kernel};
use aurora::render_device::Doomed;
use aurora::skin_joints::{
    resolve_skin_joints, upload_len, BindposeBuffers, BindposeEvent, Hierarchy, HierarchyNode,
    JointsFound,
};
use aurora::skinning::{
    scratch_size, BindposeBuffer, MeshStreams, SkinAction, SkinSource, SkinnedGpu, Skins,
    REBUILD_INTERVAL,
};

fn buffer(n: u64) -> Buffer {
    Buffer { handle: n, address: n * 0x1000, len: 3 }
}

fn source(joints: Vec<u64>) -> SkinSource {
    SkinSource { mesh: 1, bindposes: 2, joints, node: 0 }
}

fn gpu() -> SkinnedGpu {
    SkinnedGpu {
        mesh_vertex_buffer: 100,
        vertex_count: 3,
        triangle_count: 1,
        rest: buffer(11),
        skin: 0x70,
        index_buffer: buffer(12),
        geometry_to_index: 0x71,
        geometry_to_triangle: 0x72,
        even_vertices: buffer(13),
        odd_vertices: buffer(14),
        triangles: buffer(15),
        joint_nodes: buffer(16),
        joint_count: 2,
        inverse_bind: 0x73,
        structure: 17,
        structure_buffer: 19,
        structure_address: 0x74,
        scratch: buffer(18),
        scratch_alignment: 256,
        builds: 0,
        hit_offset: 5,
    }
}

fn streams() -> MeshStreams {
    MeshStreams {
        vertex_buffer: Buffer { handle: 100, address: 0x100, len: 3 },
        index_buffer: Buffer { handle: 101, address: 0x200, len: 3 },
        skin: Some(0x70),
        geometry_to_index: 0x71,
        geometry_to_triangle: 0x72,
    }
}

#[test]
fn a_skin_is_observed_once() {
    let mut skins = Skins::new();
    skins.observe(4, source(vec![8, 9]));
    assert_eq!(skins.instances.len(), 1);
    assert!(skins.instances[0].joints_dirty);
    skins.observe(4, source(vec![8, 9]));
    assert_eq!(skins.instances.len(), 1);
    assert!(skins.rebuild.is_empty());
    // Other joints of the same number need no rebuild; another number does.
    skins.observe(4, source(vec![9, 8]));
    assert!(skins.rebuild.is_empty());
    skins.observe(4, source(vec![9]));
    assert_eq!(skins.rebuild, vec![4]);
}

#[test]
fn a_device_half_is_planned() {
    let mut skins = Skins::new();
    skins.observe(4, source(vec![8, 9, 10]));
    let bind = Some(BindposeBuffer { address: 0x300, count: 2 });
    assert!(skins.plan_device(0, None, bind).is_none());
    assert!(skins.plan_device(0, Some(streams()), None).is_none());
    let plan = skins.plan_device(0, Some(streams()), bind).unwrap();
    assert_eq!(plan.joint_count, 2);
    assert_eq!(plan.palette_len, 3);
    assert_eq!(plan.vertex_bytes, 96);
    assert_eq!(plan.triangle_count, 1);
    skins.install(0, gpu());
    assert!(skins.plan_device(0, Some(streams()), bind).is_none());
    assert_eq!(scratch_size(10, 20, 256), 276);
}

#[test]
fn rebuilds_come_round() {
    let mut skins = Skins::new();
    skins.observe(4, source(vec![8, 9]));
    skins.install(0, gpu());
    assert!(skins.override_of(0).is_none());
    let mut updates = Vec::new();
    for _ in 0..2 * REBUILD_INTERVAL {
        skins.begin_prepare();
        let r = skins.record(true, 0x9000, 1);
        assert!(r.changed);
        assert_eq!(r.builds.len(), 1);
        updates.push(r.builds[0].update);
    }
    // A full build, then refits, then a full build again.
    for (i, update) in updates.iter().enumerate() {
        assert_eq!(*update, i % REBUILD_INTERVAL as usize != 0);
    }
    assert_eq!(
        skins.override_of(0),
        Some(SkinAction::SetOverride { slot: 4, structure_address: 0x74, hit_offset: 5 })
    );
}

#[test]
fn streams_take_turns() {
    let mut skins = Skins::new();
    skins.observe(4, source(vec![8, 9]));
    skins.install(0, gpu());
    let r = skins.record(true, 0x9000, 1);
    assert!(matches!(r.commands[0], Command::Copy { .. }));
    assert!(r.commands.iter().any(|c| matches!(
        c,
        Command::Dispatch { kernel: Kernel::SkinVertices, threads: 3, .. }
    )));
    let even = skins.hit_records()[0];
    skins.begin_prepare();
    let odd = skins.hit_records()[0];
    assert_eq!(even.vertex_buffer, odd.prev_vertex_buffer);
    assert_eq!(even.prev_vertex_buffer, odd.vertex_buffer);
    assert_ne!(even.vertex_buffer, odd.vertex_buffer);
}

#[test]
fn without_kernels_nothing_deforms() {
    let mut skins = Skins::new();
    skins.observe(4, source(vec![8, 9]));
    skins.install(0, gpu());
    let r = skins.record(false, 0x9000, 1);
    assert!(r.warn);
    assert!(!r.changed);
    assert!(r.commands.is_empty());
    assert!(!skins.record(false, 0x9000, 1).warn);
    // A node that the table does not hold yet is left alone.
    let r = skins.record(true, 0x9000, 0);
    assert!(!r.changed);
    assert!(r.builds.is_empty());
}

#[test]
fn removed_skins_are_gone() {
    let mut skins = Skins::new();
    skins.observe(4, source(vec![8]));
    skins.observe(6, source(vec![9]));
    skins.install(0, gpu());
    skins.note_removed(4);
    let actions = skins.begin_prepare();
    assert_eq!(skins.instances.len(), 1);
    assert_eq!(skins.instances[0].slot, 6);
    assert!(actions.contains(&SkinAction::ClearOverride { slot: 4 }));
    assert!(actions.contains(&SkinAction::ReleaseHitOffset { slot: 4 }));
    assert!(skins.removed.is_empty());
}

#[test]
fn a_stale_half_is_dropped() {
    let mut skins = Skins::new();
    skins.observe(4, source(vec![8]));
    skins.install(0, gpu());
    assert!(skins.drop_stale(0, Some(streams())).is_empty());
    let mut other = streams();
    other.vertex_buffer.handle = 99;
    let actions = skins.drop_stale(0, Some(other));
    assert_eq!(actions.len(), 3);
    assert!(skins.instances[0].gpu.is_none());
    assert_eq!(gpu().destroy().len(), 9);
    assert_eq!(gpu().destroy()[1], Doomed::Buffer(19));
    skins.install(0, gpu());
    assert_eq!(skins.destroy(), gpu().destroy());
    assert!(skins.instances.is_empty());
}

#[test]
fn palettes_mark_what_moved() {
    let mut skins = Skins::new();
    skins.observe(4, source(vec![8, 9]));
    skins.install(0, gpu());
    skins.record(true, 0x9000, 1);
    assert!(!skins.instances[0].joints_dirty);
    skins.resolve_palette(0, &vec![Some(3), None]);
    assert!(skins.instances[0].joints_dirty);
    assert_eq!(skins.instances[0].joint_nodes[0], 3);
    skins.record(true, 0x9000, 1);
    skins.resolve_palette(0, &vec![Some(3), None]);
    assert!(!skins.instances[0].joints_dirty);
}

fn node(parent: Option<usize>, children: Vec<usize>, name: &str) -> HierarchyNode {
    HierarchyNode { parent, children, name: Some(name.to_string()) }
}

/// A root with an armature (hip over knee) and the skin's own entity.
fn prefab() -> Hierarchy {
    Hierarchy {
        nodes: vec![
            node(None, vec![1, 4], "root"),
            node(Some(0), vec![2], "armature"),
            node(Some(1), vec![3], "hip"),
            node(Some(2), vec![], "knee"),
            node(Some(0), vec![5], "skin"),
            node(Some(4), vec![], "hip"),
        ],
    }
}

#[test]
fn hierarchies_are_trees() {
    assert!(prefab().is_wf());
    let mut round = prefab();
    round.nodes[0].parent = Some(3);
    round.nodes[3].children = vec![0];
    assert!(!round.is_wf());
    let mut twice = prefab();
    twice.nodes[1].children = vec![2, 2];
    assert!(!twice.is_wf());
    let mut stolen = prefab();
    stolen.nodes[4].children = vec![3];
    assert!(!stolen.is_wf());
    let mut lost = prefab();
    lost.nodes[5].parent = Some(6);
    assert!(!lost.is_wf());
}

#[test]
fn joints_are_found_by_name() {
    let names = vec!["knee".to_string(), "armature".to_string()];
    match resolve_skin_joints(&prefab(), 4, &names) {
        JointsFound::All { joints, chains } => {
            assert_eq!(joints, vec![3, 1]);
            // The first joint stands in the hip, so its pose is relative to that.
            assert_eq!(chains[0], vec![3]);
            assert_eq!(chains[1], vec![1, 0]);
        }
        _ => panic!("not found"),
    }
}

#[test]
fn of_one_name_the_first_visited_counts() {
    // Of the root's children the last is visited first.
    match resolve_skin_joints(&prefab(), 1, &vec!["hip".to_string()]) {
        JointsFound::All { joints, .. } => assert_eq!(joints, vec![5]),
        _ => panic!("not found"),
    }
}

#[test]
fn joints_that_are_not_there_yet() {
    assert!(matches!(
        resolve_skin_joints(&prefab(), 4, &vec!["hip".to_string(), "toe".to_string()]),
        JointsFound::NotYet
    ));
    assert!(matches!(resolve_skin_joints(&prefab(), 4, &vec![]), JointsFound::Nothing));
}

#[test]
fn bind_poses_come_and_go() {
    assert_eq!(upload_len(BindposeEvent::Added, Some(3)), Some(48));
    assert_eq!(upload_len(BindposeEvent::Modified, Some(0)), None);
    assert_eq!(upload_len(BindposeEvent::LoadedWithDependencies, None), None);
    assert_eq!(upload_len(BindposeEvent::Unused, Some(3)), None);
    let mut sets = BindposeBuffers::new();
    assert_eq!(sets.install(7, buffer(1), 3), None);
    assert_eq!(sets.install(7, buffer(2), 4), Some(1));
    assert_eq!(sets.get(7), Some(BindposeBuffer { address: 0x2000, count: 4 }));
    assert_eq!(sets.take(7), Some(2));
    assert_eq!(sets.take(7), None);
    assert_eq!(sets.get(7), None);
}
