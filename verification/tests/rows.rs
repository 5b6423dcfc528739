use aurora::atmosphere::{
    AirNumbers, AtmosphereBuffers, AtmosphereState, CloudSwitches, ShellNumbers,
};
use aurora::bits::{Vec2, Vec3, Vec4};
use aurora::blas::{Triangle, Vertex};
use aurora::commands::Buffer;
use aurora::gpu_transform::{LocalRecord, NodeLocal, U32Record};
use aurora::lights::{AnalyticLight, LightInst, LightsHeader};
use aurora::material::{Fallbacks, RTXMaterial};
use aurora::portal::GpuPortal;
use aurora::rows::table_bytes;

fn word(bytes: &[u8], at: usize) -> u32 {
    u32::from_le_bytes(bytes[at..at + 4].try_into().unwrap())
}

fn long(bytes: &[u8], at: usize) -> u64 {
    u64::from_le_bytes(bytes[at..at + 8].try_into().unwrap())
}

fn v3(n: u32) -> Vec3 {
    Vec3 { x: n, y: n + 1, z: n + 2 }
}

fn v4(n: u32) -> Vec4 {
    Vec4 { x: n, y: n + 1, z: n + 2, w: n + 3 }
}

#[test]
fn rows_stand_one_behind_the_other() {
    let bytes = table_bytes(&[
        U32Record { slot: 1, value: 2 },
        U32Record { slot: 3, value: 4 },
        U32Record { slot: 5, value: 6 },
    ]);
    assert_eq!(bytes.len(), 24);
    assert_eq!((word(&bytes, 8), word(&bytes, 12)), (3, 4));
    assert!(table_bytes::<u32>(&[]).is_empty());
    assert_eq!(table_bytes(&[7u32, 0x0102_0304]), vec![7, 0, 0, 0, 4, 3, 2, 1]);
}

#[test]
fn transforms_match_the_shader_layout() {
    let local = NodeLocal { rotation: v4(10), translation: v4(20), scale: v4(30) };
    let bytes = table_bytes(&[local]);
    assert_eq!(bytes.len(), 48);
    assert_eq!((word(&bytes, 0), word(&bytes, 16), word(&bytes, 44)), (10, 20, 33));
    let bytes = table_bytes(&[LocalRecord { slot: 9, pad0: 0, pad1: 0, pad2: 0, local }]);
    assert_eq!(bytes.len(), 64);
    assert_eq!((word(&bytes, 0), word(&bytes, 16)), (9, 10));
}

#[test]
fn lights_match_the_shader_layout() {
    let light = AnalyticLight {
        position: v3(1),
        kind: 4,
        direction: v3(5),
        radius: 8,
        tangent: v3(9),
        cos_inner: 12,
        emission: v3(13),
        cos_outer: 16,
        half_extents: Vec2 { x: 17, y: 18 },
        power: 19,
        flags: 20,
    };
    let bytes = table_bytes(&[light]);
    assert_eq!(bytes.len(), 80);
    for i in 0..20usize {
        assert_eq!(word(&bytes, 4 * i), i as u32 + 1);
    }
    let inst = LightInst {
        verts: 1 << 40,
        indices: 2,
        geom_to_index: 3,
        geom_to_triangle: 4,
        geom_count: 5,
        slot: 6,
        entry_base: 7,
        tri_count: 8,
        geom_emission: 9,
        pad: 0,
    };
    let bytes = table_bytes(&[inst]);
    assert_eq!(bytes.len(), 64);
    assert_eq!((long(&bytes, 0), long(&bytes, 24)), (1 << 40, 4));
    assert_eq!((word(&bytes, 32), word(&bytes, 44), long(&bytes, 48)), (5, 8, 9));
    let header = LightsHeader {
        entry_count: 1,
        linst_count: 2,
        total_power: 3,
        slot_map_count: 4,
        analytic_count: 5,
        pad1: 0,
        cdf: 6,
        linsts: 7,
        slot_to_linst: 8,
        analytics: 9,
    };
    let bytes = table_bytes(&[header]);
    assert_eq!(bytes.len(), 56);
    assert_eq!((word(&bytes, 16), long(&bytes, 24), long(&bytes, 48)), (5, 6, 9));
}

#[test]
fn meshes_match_the_shader_layout() {
    let vertex = Vertex { position: v3(1), normal: v3(4), uv: Vec2 { x: 7, y: 8 } };
    let bytes = table_bytes(&[vertex]);
    assert_eq!(bytes.len(), 32);
    assert_eq!((word(&bytes, 12), word(&bytes, 28)), (4, 8));
    let triangle = Triangle { tangent: 1, normals: [2, 3, 4], uvs: [5, 6, 7], padding: 0 };
    let bytes = table_bytes(&[triangle]);
    assert_eq!(bytes.len(), 32);
    assert_eq!((word(&bytes, 0), word(&bytes, 12), word(&bytes, 24)), (1, 4, 7));
    let portal = GpuPortal { instance_slot: 1, target_slot: 2, valid: 1, pad: 0 };
    assert_eq!(table_bytes(&[portal, portal]).len(), 32);
    let bytes = table_bytes(&[RTXMaterial::plain(Fallbacks { white: 90, normal: 91 })]);
    assert_eq!(bytes.len(), 80);
    assert_eq!((word(&bytes, 32), word(&bytes, 48)), (90, 91));
}

#[test]
fn the_atmosphere_matches_the_shader_layout() {
    let buffer = |n: u64| Buffer { handle: n, address: n * 0x1000, len: 1 };
    let mut state = AtmosphereState::new();
    state.install(AtmosphereBuffers {
        params: buffer(1),
        transmittance: buffer(2),
        multiscatter: buffer(3),
        skyview_rad: buffer(4),
        skyview_trn: buffer(5),
        noise: buffer(6),
        noise_detail: buffer(7),
    });
    let air = AirNumbers {
        planet_center: v3(1),
        planet_radius: 4,
        atmosphere_height: 5,
        rayleigh_h: 6,
        mie_h: 7,
        ozone_center: 8,
        ozone_width: 9,
        rayleigh_scatter: v3(10),
        mie_scatter: v3(13),
        mie_absorb: v3(16),
        ozone_absorb: v3(19),
        mie_g: 22,
        ground_albedo: v3(23),
        sun_direction: v3(26),
        sun_radiance: v3(29),
        sun_cos_radius: 32,
        camera_pos: v3(33),
    };
    let shell = ShellNumbers {
        bottom: 40,
        top: 41,
        coverage: 42,
        coverage_scale: 43,
        density: 44,
        extinction: 45,
        detail: 46,
        scale: 47,
        detail_scale: 48,
        wind: v3(49),
        light_dist: 52,
        max_dist: 53,
        ambient: 54,
        forward_g: 55,
        back_g: 56,
    };
    let switches = CloudSwitches { enabled: true, shadows: true, steps: 64, light_steps: 5 };
    let bytes = table_bytes(&[state.block(air, switches, shell)]);
    assert_eq!(bytes.len(), 272);
    assert_eq!((long(&bytes, 0), long(&bytes, 40)), (0x2000, 0x7000));
    for i in 0..35usize {
        assert_eq!(word(&bytes, 48 + 4 * i), i as u32 + 1);
    }
    assert_eq!((word(&bytes, 188), word(&bytes, 192)), (1, 1));
    assert_eq!((word(&bytes, 196), word(&bytes, 200)), (64, 5));
    for i in 0..17usize {
        assert_eq!(word(&bytes, 204 + 4 * i), i as u32 + 40);
    }
}
