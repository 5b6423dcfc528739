use aurora::bits::{Vec3, Vec4};
use aurora::blas::{
    build_infos, chunk_ends, compactions, geometry_ranges, geometry_tables, pack_halves,
    replace_compacted, upload_commands, AccelerationStructure, Compaction, Corners, GeometryDescr,
    HalfUv, MeshUpload, Triangle, BLAS,
};
use aurora::commands::{Buffer, Command};
use aurora::material::{
    absorbs, AuroraMaterial, Fallbacks, RTXMaterial, StandardRtxMaterial, TextureSlot,
};
use aurora::omm::{aligned_input, prepare, widen, MicromapOutcome};
use aurora::portal::{portal_entries, PortalEnds, PortalStep, PortalTable};
use aurora::render_device::{
    device_extensions, graphics_family, join_extensions, pick_physical_device, AllocatorState,
    BindlessMap, DestroyQueue, DeviceInfo, Doomed, VkDestroyCmd,
};
use aurora::render_texture::{
    check_data, dedicated, extract_asset, extract_format, is_convertible,
    load_texture_from_bytes, padd_pixel_bytes_rgba_unorm, ImageLayout, PixelFormat, SourceFormat,
};

fn buffer(n: u64) -> Buffer {
    Buffer { handle: n, address: n * 0x1000, len: 1 }
}

fn geometry(first_index: usize, index_count: usize) -> GeometryDescr {
    GeometryDescr { first_vertex: 0, vertex_count: 6, first_index, index_count }
}

#[test]
fn triangles_by_geometry() {
    let indices = vec![0, 1, 2, 2, 1, 3, 3, 4, 5];
    let tables = geometry_tables(&indices, &vec![geometry(0, 6), geometry(6, 3)]);
    assert_eq!(tables.geom_to_index, vec![0, 6]);
    assert_eq!(tables.geom_to_triangle, vec![0, 2]);
    assert_eq!(
        tables.corners,
        vec![
            Corners { a: 0, b: 1, c: 2 },
            Corners { a: 2, b: 1, c: 3 },
            Corners { a: 3, b: 4, c: 5 }
        ]
    );
    let ranges = geometry_ranges(&vec![geometry(6, 4)]);
    assert_eq!((ranges[0].primitive_count, ranges[0].primitive_offset), (1, 24));
}

#[test]
fn texture_coordinates_are_packed() {
    let one = half::f16::from_f32(1.0).to_bits();
    let half = half::f16::from_f32(0.5).to_bits();
    assert_eq!(Triangle::pack_uv(HalfUv { x: one, y: half }), 0x3800_3C00);
    assert_eq!(pack_halves(0x1234, 0xABCD), 0xABCD_1234);
    let uv = HalfUv { x: one, y: half };
    let t = Triangle::pack(7, [1, 2, 3], [uv, uv, uv]);
    assert_eq!((t.tangent, t.normals, t.padding), (7, [1, 2, 3], 0));
    assert_eq!(t.uvs, [0x3800_3C00; 3]);
}

#[test]
fn uploads_leave_empty_streams_out() {
    let mesh = MeshUpload {
        vertex_host: 1,
        vertex: 2,
        vertex_count: 3,
        index_host: 3,
        index: 4,
        index_count: 6,
        triangle_host: 5,
        triangle: 6,
        triangle_count: 0,
        geom_to_index_host: 7,
        geom_to_index: 8,
        geom_to_triangle_host: 9,
        geom_to_triangle: 10,
        geometry_count: 1,
    };
    assert_eq!(
        upload_commands(&vec![mesh]),
        vec![
            Command::Copy { src: 1, dst: 2, size: 96 },
            Command::Copy { src: 3, dst: 4, size: 24 },
            Command::Copy { src: 7, dst: 8, size: 4 },
            Command::Copy { src: 9, dst: 10, size: 4 },
        ]
    );
}

#[test]
fn chunks_end_once_the_budget_is_reached() {
    let mib = 1024 * 1024;
    assert_eq!(chunk_ends(&vec![100 * mib, 156 * mib, 1, 2], 0), vec![2, 4]);
    assert_eq!(chunk_ends(&vec![300 * mib, 300 * mib], 256), vec![1, 2]);
    assert_eq!(chunk_ends(&vec![], 256), Vec::<usize>::new());
}

fn structure(n: u64) -> AccelerationStructure {
    AccelerationStructure { handle: n, buffer: buffer(n + 100), address: n * 16 }
}

#[test]
fn structures_that_shrink_are_compacted() {
    let copies = compactions(&vec![10, 0, 30, 25], &vec![20, 20, 30, 30]);
    assert_eq!(
        copies,
        vec![Compaction { index: 0, size: 10 }, Compaction { index: 3, size: 25 }]
    );
    let mut structures: Vec<AccelerationStructure> = (0..4).map(structure).collect();
    let gone = replace_compacted(&mut structures, &copies, &vec![structure(8), structure(9)]);
    assert_eq!(gone, vec![structure(0), structure(3)]);
    assert_eq!(structures, vec![structure(8), structure(1), structure(2), structure(9)]);
    assert_eq!(structure(3).get_reference(), 48);
}

#[test]
fn scratch_is_aligned() {
    let infos = build_infos(&vec![structure(1)], &vec![buffer(3)], 0x2000);
    assert_eq!(infos[0].scratch, 0x4000);
    assert_eq!(infos[0].structure, 1);
}

#[test]
fn a_mesh_goes_with_all_its_buffers() {
    let blas = BLAS {
        acceleration_structure: structure(1),
        vertex_buffer: buffer(2),
        triangle_buffer: buffer(3),
        index_buffer: buffer(4),
        geometry_to_index: buffer(5),
        geometry_to_triangle: buffer(6),
        gltf_materials: None,
        gltf_textures: None,
    };
    assert_eq!(
        blas.destroy(),
        vec![
            Doomed::AccelerationStructure(1),
            Doomed::Buffer(101),
            Doomed::Buffer(2),
            Doomed::Buffer(3),
            Doomed::Buffer(4),
            Doomed::Buffer(5),
            Doomed::Buffer(6),
        ]
    );
}

#[test]
fn bindless_slots_are_recycled() {
    let mut map = BindlessMap::new();
    let a = map.register(100);
    let b = map.register(200);
    assert_eq!((a.index, a.write, b.index), (0, true, 1));
    let again = map.register(100);
    assert_eq!((again.index, again.write), (0, false));
    map.unregister(100);
    assert_eq!(map.get(100), None);
    assert_eq!(map.get(200), Some(1));
    assert_eq!(map.register(300).index, 0);
    assert_eq!(map.register(400).index, 2);
}

#[test]
fn memory_is_freed_once() {
    let mut state: AllocatorState<&'static str> = AllocatorState::new();
    state.register_buffer_allocation(1, "buffer");
    state.register_image_allocation(1, "image");
    assert_eq!(state.get_buffer_allocation(1), Some(&"buffer"));
    assert_eq!(state.free_buffer_allocation(1), Some("buffer"));
    assert_eq!(state.free_buffer_allocation(1), None);
    assert_eq!(state.free_image_allocation(1), Some("image"));
    assert_eq!(state.free_image_allocation(1), None);
}

#[test]
fn objects_outlive_two_ticks() {
    let mut queue = DestroyQueue::new();
    assert!(queue.handle(VkDestroyCmd::Destroy(Doomed::Buffer(1))).is_empty());
    assert!(queue.handle(VkDestroyCmd::Tick).is_empty());
    queue.handle(VkDestroyCmd::Destroy(Doomed::Image(2)));
    assert_eq!(queue.handle(VkDestroyCmd::Tick), vec![Doomed::Buffer(1)]);
    assert_eq!(queue.handle(VkDestroyCmd::Tick), vec![Doomed::Image(2)]);
    assert!(queue.handle(VkDestroyCmd::Tick).is_empty());
}

fn strings(names: &[&str]) -> Vec<String> {
    names.iter().map(|n| n.to_string()).collect()
}

#[test]
fn extensions_are_listed_once() {
    let mut have = strings(&["a", "b"]);
    join_extensions(&mut have, &strings(&["b", "c", "c"]));
    assert_eq!(have, strings(&["a", "b", "c"]));
    let r = device_extensions(
        strings(&["swapchain"]),
        &strings(&["timeline", "fancy"]),
        &strings(&["swapchain", "timeline", "micromap"]),
        &"micromap".to_string(),
    );
    assert_eq!(r.enabled, strings(&["swapchain", "timeline", "micromap"]));
    assert_eq!(r.lacking, strings(&["fancy"]));
    assert!(r.micromaps);
}

#[test]
fn the_first_suitable_device_is_taken() {
    let device = |name: &[u8], graphics: Vec<bool>| DeviceInfo { name: name.to_vec(), graphics };
    let devices = vec![
        device(b"llvmpipe", vec![true]),
        device(b"NVIDIA without graphics", vec![false]),
        device(b"An NVIDIA card", vec![false, true]),
        device(b"NVIDIA", vec![true]),
    ];
    assert_eq!(pick_physical_device(&devices, &b"NVIDIA".to_vec()), Some((2, 1)));
    assert_eq!(pick_physical_device(&devices, &b"AMD".to_vec()), None);
    assert_eq!(graphics_family(&vec![false, false]), None);
}

fn fallbacks() -> Fallbacks {
    Fallbacks { white: 90, normal: 91 }
}

#[test]
fn texture_slots_are_resolved() {
    let mut map = BindlessMap::new();
    map.register(500);
    let material = StandardRtxMaterial {
        material: RTXMaterial::plain(fallbacks()),
        base_color_texture: TextureSlot::Loaded { view: 600 },
        emissive_texture: TextureSlot::Unused,
        metallic_roughness_texture: TextureSlot::Loaded { view: 500 },
        normal_map_texture: TextureSlot::Loading,
    };
    let r = material.resolve_checked(&mut map, fallbacks());
    assert!(!r.complete);
    assert_eq!(r.material.base_color_texture, 1);
    assert_eq!(r.material.base_emissive_texture, 90);
    assert_eq!(r.material.metallic_roughness_texture, 0);
    assert_eq!(r.material.normal_texture, 91);
    assert_eq!(r.writes.len(), 1);
    assert_eq!((r.writes[0].index, r.writes[0].view), (1, 600));
}

#[test]
fn materials_by_default() {
    let color = Vec4 { x: 1, y: 2, z: 3, w: 4 };
    let material = AuroraMaterial::from_color(color);
    let record = RTXMaterial::from_material(&material, Vec3 { x: 7, y: 8, z: 9 }, fallbacks());
    assert_eq!(record.base_color_factor, color);
    assert_eq!(record.absorption, Vec3 { x: 7, y: 8, z: 9 });
    assert!(!absorbs(f32::INFINITY.to_bits()));
    assert!(!absorbs(f32::NAN.to_bits()));
    assert!(!absorbs((-1.0f32).to_bits()));
    assert!(!absorbs(0.0f32.to_bits()));
    assert!(absorbs(0.5f32.to_bits()));
}

#[test]
fn pixels_are_padded() {
    assert_eq!(padd_pixel_bytes_rgba_unorm(&[7, 9], 1, 2, 1), vec![7, 0, 0, 255, 9, 0, 0, 255]);
    assert_eq!(padd_pixel_bytes_rgba_unorm(&[1, 2, 3], 3, 1, 1), vec![1, 2, 3, 255]);
    assert_eq!(padd_pixel_bytes_rgba_unorm(&[1, 2, 3, 4], 4, 1, 1), vec![1, 2, 3, 4]);
}

#[test]
fn images_are_converted_for_the_upload() {
    let grey = Some(SourceFormat::R8Unorm);
    // Four bytes per pixel, or sixteen, are taken as they are, whatever they mean.
    assert_eq!(extract_asset(grey, 1, 1, &Some(vec![1, 2, 3, 4])), Some(vec![1, 2, 3, 4]));
    assert_eq!(extract_asset(None, 1, 1, &Some(vec![7; 16])), Some(vec![7; 16]));
    assert_eq!(
        extract_asset(grey, 2, 1, &Some(vec![10, 200])),
        Some(vec![10, 10, 10, 255, 200, 200, 200, 255])
    );
    assert_eq!(
        extract_asset(Some(SourceFormat::Rg8Unorm), 1, 2, &Some(vec![0, 9, 255, 128])),
        Some(vec![0, 0, 0, 9, 255, 255, 255, 128])
    );
    // Too few bytes, a format that cannot be converted, no bytes at all.
    assert_eq!(extract_asset(grey, 3, 1, &Some(vec![10, 200])), None);
    assert_eq!(extract_asset(Some(SourceFormat::Bgra8Unorm), 2, 1, &Some(vec![1; 7])), None);
    assert_eq!(extract_asset(None, 1, 1, &Some(vec![1; 8])), None);
    assert_eq!(extract_asset(grey, 1, 1, &None), None);
    assert!(is_convertible(SourceFormat::R8Unorm, 1, 1, 9));
    assert!(is_convertible(SourceFormat::Rgba8UnormSrgb, 1, 1, 4));
    assert!(!is_convertible(SourceFormat::Bgra8UnormSrgb, 1, 1, 5));
    assert!(!is_convertible(SourceFormat::R8Unorm, 65536, 65536, 9));
    assert!(is_convertible(SourceFormat::R8Unorm, 65536, 0, 9));
    assert!(!is_convertible(SourceFormat::R8Unorm, 0x4000_0000, 0, 9));
    assert_eq!(extract_asset(grey, 5, 0, &Some(vec![])), Some(vec![]));
}

#[test]
fn formats_by_size() {
    assert_eq!(extract_format(Some(16), 2, 2), Some(PixelFormat::Rgba8Unorm));
    assert_eq!(extract_format(Some(64), 2, 2), Some(PixelFormat::Rgba32Float));
    assert_eq!(extract_format(Some(12), 2, 2), None);
    assert_eq!(extract_format(None, 2, 2), None);
    assert!(check_data(16, PixelFormat::Rgba8Unorm, 2, 2));
    assert!(!check_data(15, PixelFormat::Rgba8Unorm, 2, 2));
    let plan =
        load_texture_from_bytes(16, PixelFormat::Rgba8Unorm, ImageLayout::ShaderReadOnly, 2, 2);
    assert_eq!(plan.staging_bytes, 16);
    assert_eq!(plan.to_final.to, ImageLayout::ShaderReadOnly);
    assert!(dedicated(false, true));
    assert!(!dedicated(false, false));
    assert_eq!(PixelFormat::Rgba32Float.bytes_per_pixel(), 16);
}

#[test]
fn micromaps_are_aligned() {
    assert_eq!(aligned_input(1000, 10), (1024, 24));
    assert_eq!(prepare(0, 5, true), MicromapOutcome::ZeroSized);
    assert_eq!(prepare(9, 5, false), MicromapOutcome::NotCreated);
    assert_eq!(prepare(9, 0, true), MicromapOutcome::Prepared { scratch: 257 });
    assert!(widen(&vec![]).is_empty());
}

#[test]
fn portals_are_written_when_they_change() {
    let mut table = PortalTable::new();
    assert_eq!(table.address(), 0);
    let entries = portal_entries(&vec![
        PortalEnds { instance: Some(1), target: Some(2) },
        PortalEnds { instance: None, target: Some(2) },
    ]);
    assert_eq!((entries[0].instance_slot, entries[0].target_slot, entries[0].valid), (1, 2, 1));
    assert_eq!(entries[1].valid, 0);
    match table.plan(&entries) {
        PortalStep::Write { grow: Some(16) } => {}
        step => panic!("{step:?}"),
    }
    let rows = table.commit(entries.clone(), Some((buffer(1), 16)));
    assert_eq!(rows.len(), 16);
    assert_eq!(rows[0], entries[0]);
    assert_eq!(table.plan(&entries), PortalStep::Keep);
    assert_eq!(table.address(), 0x1000);
    assert_eq!(table.count(), 2);
}

#[test]
fn directions_are_packed() {
    assert_eq!(Triangle::pack_normal(0xFFFF, 0x7FFF, true), 0xFFFF_FFFF);
    assert_eq!(Triangle::pack_normal(0x8000, 0, false), 0x8000_0000);
    assert_eq!(Triangle::pack_normal(0, 3, true), 7);
}

#[test]
fn a_resolved_material_stays_resolved() {
    let mut map = BindlessMap::new();
    let material = StandardRtxMaterial {
        material: RTXMaterial::plain(fallbacks()),
        base_color_texture: TextureSlot::Loaded { view: 600 },
        emissive_texture: TextureSlot::Loaded { view: 600 },
        metallic_roughness_texture: TextureSlot::Loaded { view: 500 },
        normal_map_texture: TextureSlot::Unused,
    };
    let first = material.resolve_checked(&mut map, fallbacks());
    assert!(first.complete);
    assert_eq!(first.writes.len(), 2);
    let second = material.resolve_checked(&mut map, fallbacks());
    assert_eq!(second.material, first.material);
    assert!(second.writes.is_empty());
}
