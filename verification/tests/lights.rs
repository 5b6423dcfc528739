use aurora::bits::{Vec2, Vec3};
use aurora::commands::{Buffer, Command, Kernel};
use aurora::lights::{
    build_table, sort_by_entity, AnalyticLight, BundleMaterial, FoundLight, LightBuffers,
    LightCandidate, LightGeometry, LightInput, LightManager, NO_LIGHT,
};

fn buffer(n: u64) -> Buffer {
    Buffer { handle: n, address: n * 0x1000, len: 1 }
}

fn buffers() -> LightBuffers {
    LightBuffers {
        header: buffer(1),
        linsts: buffer(2),
        slot_map: buffer(3),
        cdf: buffer(4),
        emissions: buffer(5),
        analytics: buffer(6),
    }
}

fn analytic(n: u32) -> AnalyticLight {
    let v = Vec3 { x: n, y: 0, z: 0 };
    AnalyticLight {
        position: v,
        kind: 0,
        direction: v,
        radius: 0,
        tangent: v,
        cos_inner: 0,
        emission: v,
        cos_outer: 0,
        half_extents: Vec2 { x: 0, y: 0 },
        power: 0,
        flags: 0,
    }
}

fn found(entity: u64, n: u32) -> FoundLight {
    FoundLight { entity, light: analytic(n) }
}

fn geometry(indices: u64, geometries: u64) -> Option<LightGeometry> {
    Some(LightGeometry {
        verts: 0x10,
        indices: 0x20,
        geom_to_index: 0x30,
        geom_to_triangle: 0x40,
        index_count: indices,
        geometry_count: geometries,
    })
}

fn white() -> Vec3 {
    Vec3 { x: 1, y: 1, z: 1 }
}

fn mesh_candidate(slot: u32, emissive: Option<bool>) -> LightCandidate {
    LightCandidate { slot, gltf: None, mesh: Some(10), material: Some(20), emissive }
}

#[test]
fn tables_hold_their_entries_one_behind_the_other() {
    let inputs = vec![
        (2u32, LightInput::Mesh { geometry: geometry(6, 1), emission: Some(white()) }),
        (3u32, LightInput::Mesh { geometry: None, emission: Some(white()) }),
        (
            5u32,
            LightInput::Gltf {
                geometry: geometry(9, 2),
                materials: Some(vec![
                    BundleMaterial { emission: white(), lit: true },
                    BundleMaterial { emission: white(), lit: false },
                ]),
            },
        ),
    ];
    let table = build_table(4, &inputs);
    assert_eq!(table.records.len(), 2);
    assert_eq!(table.records[0].entry_base, 4);
    assert_eq!(table.records[0].tri_count, 2);
    assert_eq!(table.records[1].entry_base, 6);
    assert_eq!(table.records[1].tri_count, 3);
    assert_eq!(table.records[1].geom_count, 2);
    assert_eq!(table.records[1].geom_emission, 3);
    assert_eq!(table.entry_count, 9);
    assert!(table.waiting);
    assert_eq!(table.emissions.len(), 3);
    assert_eq!(table.slot_map, vec![NO_LIGHT, NO_LIGHT, 0, NO_LIGHT, NO_LIGHT, 1]);
}

#[test]
fn an_empty_table_still_has_a_slot() {
    let table = build_table(0, &vec![]);
    assert_eq!(table.slot_map, vec![NO_LIGHT]);
    assert_eq!(table.entry_count, 0);
    assert!(!table.waiting);
}

#[test]
fn analytic_lights_stand_in_the_order_of_their_entities() {
    let found = vec![
        FoundLight { entity: 9, light: analytic(1) },
        FoundLight { entity: 3, light: analytic(2) },
        FoundLight { entity: 5, light: analytic(3) },
    ];
    let sorted = sort_by_entity(&found);
    assert_eq!(sorted.iter().map(|f| f.light.position.x).collect::<Vec<u32>>(), vec![2, 3, 1]);
}

#[test]
fn candidates_are_tracked() {
    let mut lights = LightManager::new();
    let all = vec![
        mesh_candidate(1, Some(true)),
        mesh_candidate(2, None),
        mesh_candidate(3, Some(false)),
        LightCandidate { slot: 4, gltf: Some(7), mesh: None, material: None, emissive: None },
    ];
    lights.track(false, &vec![], &all);
    assert!(!lights.dirty);
    lights.track(true, &vec![], &all);
    assert!(lights.sources.get(1).is_some());
    assert!(lights.sources.get(2).is_none());
    assert!(lights.pending.get(2).is_some());
    assert!(lights.sources.get(3).is_none());
    assert!(lights.sources.get(4).is_some());
    assert!(lights.dirty);
    lights.settle(2, true);
    assert!(lights.sources.get(2).is_some());
    assert!(lights.pending.get(2).is_none());
    lights.remove_instance(1);
    assert!(lights.sources.get(1).is_none());
}

#[test]
fn a_rebuilt_table_drops_the_reservoirs() {
    let mut lights = LightManager::new();
    lights.track(false, &vec![mesh_candidate(1, Some(true))], &vec![]);
    let inputs =
        vec![(1u32, LightInput::Mesh { geometry: geometry(6, 1), emission: Some(white()) })];
    let mut table = lights.rebuild(&inputs).unwrap();
    assert_eq!(lights.epoch, 2);
    assert!(!lights.dirty);
    assert!(lights.needs_power_pass);
    assert_eq!(lights.active_entries, 2);
    let lengths = lights.lengths(&table);
    assert_eq!((lengths.header, lengths.linsts, lengths.slot_map), (1, 1, 2));
    assert_eq!((lengths.cdf, lengths.emissions, lengths.analytics), (2, 3, 1));
    let (header, uploads) = lights.install(&mut table, buffers());
    assert_eq!(header.entry_count, 2);
    assert_eq!(header.cdf, 0x4000);
    assert_eq!(table.records[0].geom_emission, 0x5000);
    assert_eq!(uploads.len(), 4);
    assert_eq!(lights.header_address(), 0x1000);
    lights.epoch = u32::MAX;
    lights.dirty = true;
    lights.rebuild(&inputs);
    assert_eq!(lights.epoch, 1);
    lights.epoch = 2;
    // Nothing changed: nothing is rebuilt.
    assert!(lights.rebuild(&inputs).is_none());
    assert_eq!(lights.epoch, 2);
}

#[test]
fn the_power_pass_waits_for_its_kernels() {
    let mut lights = LightManager::new();
    lights.track(false, &vec![mesh_candidate(1, Some(true))], &vec![]);
    let inputs =
        vec![(1u32, LightInput::Mesh { geometry: geometry(6, 1), emission: Some(white()) })];
    let mut table = lights.rebuild(&inputs).unwrap();
    lights.install(&mut table, buffers());
    let (warn, commands) = lights.record(false, 0x99);
    assert!(warn);
    assert!(commands.is_empty());
    assert!(!lights.record(false, 0x99).0);
    assert!(lights.record(true, 0).1.is_empty());
    let (_, commands) = lights.record(true, 0x99);
    assert!(matches!(
        commands[0],
        Command::Dispatch { kernel: Kernel::LightPowers, threads: 2, .. }
    ));
    assert!(!lights.needs_power_pass);
    assert!(lights.record(true, 0x99).1.is_empty());
}

#[test]
fn moved_lights_are_refreshed_in_place() {
    let mut lights = LightManager::new();
    lights.update_analytics(&vec![found(7, 1)]);
    assert!(lights.dirty);
    let mut table = lights.rebuild(&vec![]).unwrap();
    lights.install(&mut table, buffers());
    lights.record(true, 0);
    lights.update_analytics(&vec![found(7, 2)]);
    assert!(!lights.dirty);
    assert!(lights.analytic_upload);
    let epoch = lights.epoch;
    let (_, commands) = lights.record(true, 0);
    assert!(matches!(commands[0], Command::Update { dst: 6, count: 1, .. }));
    assert_eq!(lights.epoch, epoch);
    // The same lights again change nothing.
    lights.update_analytics(&vec![found(7, 2)]);
    assert!(!lights.analytic_upload);
    assert_eq!(lights.handles(), vec![1, 2, 3, 4, 5, 6]);
}

#[test]
fn another_set_of_lights_rebuilds_the_table() {
    let mut lights = LightManager::new();
    lights.update_analytics(&vec![found(9, 1), found(3, 2)]);
    assert_eq!(lights.analytic_entities, vec![3, 9]);
    lights.rebuild(&vec![]).unwrap();
    assert!(!lights.dirty);
    // The same set, found in another order, is the same table.
    lights.update_analytics(&vec![found(3, 2), found(9, 1)]);
    assert!(!lights.dirty && !lights.analytic_upload);
    // One light went and another came: as many, but another set.
    let epoch = lights.epoch;
    lights.update_analytics(&vec![found(3, 2), found(5, 1)]);
    assert!(lights.dirty);
    assert!(!lights.analytic_upload);
    lights.rebuild(&vec![]).unwrap();
    assert_ne!(lights.epoch, epoch);
}
