use aurora::bits::{Vec3, Vec4};
use aurora::commands::{Buffer, Command, Kernel, Params, Source};
use aurora::gpu_transform::{
    ensure_staging, ChildrenChange, FrameChanges, GpuNodeSlots, GpuTransforms, NodeChange,
    NodeLocal, NodeTable, Orphan, TransformBuffers, TransformStep, NO_NODE, ROOT_PARENT,
};

fn local(n: u32) -> NodeLocal {
    NodeLocal::from_transform(
        Vec4 { x: n, y: 0, z: 0, w: 1 },
        Vec3 { x: n, y: n, z: n },
        Vec3 { x: 1, y: 1, z: 1 },
    )
}

fn buffer(n: u64) -> Buffer {
    Buffer { handle: n, address: n * 0x1000, len: 1024 }
}

fn buffers() -> TransformBuffers {
    TransformBuffers {
        locals: buffer(1),
        parent: buffer(2),
        first_child: buffer(3),
        next_sibling: buffer(4),
        world: buffer(5),
        epoch: buffer(6),
        frontier: buffer(7),
        indirect: buffer(8),
    }
}

#[test]
fn slots_are_used_again() {
    let mut slots = GpuNodeSlots::new();
    assert_eq!(slots.allocate(), 0);
    assert_eq!(slots.allocate(), 1);
    assert_eq!(slots.allocate(), 2);
    slots.release(1);
    assert_eq!(slots.allocate(), 1);
    assert_eq!(slots.allocate(), 3);
    assert_eq!(slots.count(), 4);
}

#[test]
fn a_local_is_padded() {
    let l = local(7);
    assert_eq!(l.translation, Vec4 { x: 7, y: 7, z: 7, w: 0 });
    assert_eq!(l.scale, Vec4 { x: 1, y: 1, z: 1, w: 0 });
}

#[test]
fn a_chain_links_its_children() {
    let mut table = NodeTable::new();
    table.push_chain(0, &vec![Some(2), None, Some(4), Some(1)]);
    assert_eq!(table.first_child[0], 2);
    assert_eq!(table.next_sibling[2], 4);
    assert_eq!(table.next_sibling[4], 1);
    assert_eq!(table.next_sibling[1], NO_NODE);
    // Walking the chain meets each child that has a slot, in order.
    let mut met = Vec::new();
    let mut at = table.first_child[0];
    while at != NO_NODE {
        met.push(at);
        at = table.next_sibling[at as usize];
    }
    assert_eq!(met, vec![2, 4, 1]);
    table.push_chain(0, &vec![None]);
    assert_eq!(table.first_child[0], NO_NODE);
}

#[test]
fn a_frame_of_changes() {
    let mut table = NodeTable::new();
    let changes = FrameChanges {
        changed: vec![
            NodeChange {
                slot: 0,
                first: true,
                transform_changed: true,
                parent_changed: false,
                local: local(10),
                parent: None,
                children: vec![Some(1)],
            },
            NodeChange {
                slot: 1,
                first: true,
                transform_changed: true,
                parent_changed: true,
                local: local(11),
                parent: Some(0),
                children: vec![],
            },
        ],
        children_changed: vec![],
        childless: vec![],
        orphaned: vec![],
    };
    table.extract(&changes);
    assert_eq!(table.locals[1], local(11));
    assert_eq!(table.parent[0], ROOT_PARENT);
    assert_eq!(table.parent[1], 0);
    assert_eq!(table.first_child[0], 1);
    assert!(table.has_deltas());
    table.clear_deltas();
    assert!(!table.has_deltas());
    // The only child becomes a root.
    table.extract(&FrameChanges {
        changed: vec![],
        children_changed: vec![ChildrenChange { slot: 0, first: false, children: vec![] }],
        childless: vec![0],
        orphaned: vec![Orphan { slot: 1, local: local(12) }],
    });
    assert_eq!(table.parent[1], ROOT_PARENT);
    assert_eq!(table.first_child[0], NO_NODE);
    assert_eq!(table.locals[1], local(12));
}

#[test]
fn staging_grows_by_powers_of_two() {
    assert_eq!(ensure_staging(Buffer { handle: 0, address: 0, len: 0 }, 3), Some(256));
    assert_eq!(ensure_staging(Buffer { handle: 1, address: 0, len: 256 }, 256), None);
    assert_eq!(ensure_staging(Buffer { handle: 1, address: 0, len: 256 }, 257), Some(512));
}

#[test]
fn a_first_frame_sends_the_whole_table() {
    let mut t = GpuTransforms::new();
    assert_eq!(t.next_step(true), TransformStep::Skip { warn: false });
    t.node_count = 3;
    t.table.push_local(0, local(1));
    assert_eq!(t.next_step(false), TransformStep::Skip { warn: true });
    assert_eq!(t.next_step(false), TransformStep::Skip { warn: false });
    assert_eq!(t.next_step(true), TransformStep::Grow { capacity: 1024 });
    let cleared = t.grow(1024, buffers());
    assert_eq!(cleared.len(), 3);
    assert_eq!(t.next_step(true), TransformStep::Record);
    let (changed, commands) = t.record();
    assert!(changed);
    assert_eq!(commands.len(), 7);
    assert_eq!(
        commands[0],
        Command::Upload { source: Source::NodeLocals, dst: 1, count: 3 }
    );
    match commands[5] {
        Command::Dispatch { kernel, params: Params::Propagate(p), threads } => {
            assert_eq!(kernel, Kernel::Propagate);
            assert_eq!(threads, 3);
            assert_eq!(p.world, 0x5000);
            assert_eq!(p.full_rebuild, 1);
        }
        _ => panic!("not the propagation"),
    }
    assert_eq!(t.table.locals.len(), 3);
    assert_eq!(t.world(), (0x5000, 3));
    let (changed, commands) = t.record();
    assert!(!changed);
    assert!(commands.is_empty());
}

#[test]
fn a_later_frame_sends_its_deltas() {
    let mut t = GpuTransforms::new();
    t.node_count = 2;
    t.grow(1024, buffers());
    t.record();
    t.table.push_local(1, local(5));
    t.table.push_parent(1, 0);
    match t.next_step(true) {
        TransformStep::Stage { locals: Some(256), words: Some(256) } => {}
        step => panic!("{step:?}"),
    }
    t.stage(Some(buffer(9)), Some(buffer(10)));
    assert_eq!(t.next_step(true), TransformStep::Record);
    let (changed, commands) = t.record();
    assert!(changed);
    assert_eq!(t.frame_id, 1);
    let kernels: Vec<&'static str> = commands
        .iter()
        .filter_map(|c| match c {
            Command::Dispatch { kernel, .. } => Some(kernel.name()),
            _ => None,
        })
        .collect();
    assert!(kernels.contains(&"scatter_locals"));
    assert!(kernels.contains(&"scatter_u32"));
    assert!(!t.table.has_deltas());
    assert_eq!(GpuTransforms::frontier_len(1024), 1048);
    assert_eq!(t.device_buffers().len(), 8);
}

#[test]
fn the_deltas_tell_what_changed() {
    let mut table = NodeTable::new();
    table.push_local(1, local(3));
    table.clear_deltas();
    let mut device: Vec<NodeLocal> = table.locals.clone();
    let mut parents: Vec<u32> = table.parent.clone();
    table.extract(&FrameChanges {
        changed: vec![NodeChange {
            slot: 3,
            first: true,
            transform_changed: false,
            parent_changed: false,
            local: local(4),
            parent: Some(1),
            children: vec![],
        }],
        children_changed: vec![],
        childless: vec![],
        orphaned: vec![Orphan { slot: 1, local: local(5) }],
    });
    let zero = Vec4 { x: 0, y: 0, z: 0, w: 0 };
    device.resize(table.locals.len(), NodeLocal { rotation: zero, translation: zero, scale: zero });
    parents.resize(table.parent.len(), ROOT_PARENT);
    for r in &table.local_records {
        device[r.slot as usize] = r.local;
    }
    for r in &table.parent_records {
        parents[r.slot as usize] = r.value;
    }
    assert_eq!(device, table.locals);
    assert_eq!(parents, table.parent);
    assert_eq!(
        table.u32_records().len(),
        table.parent_records.len()
            + table.first_child_records.len()
            + table.next_sibling_records.len()
    );
}
