use aurora::bits::{Vec3, Vec4};
use aurora::commands::Buffer;
use aurora::gizmo_render::{
    draw_gizmos, pack_channels, propagate_modified, upload_capacity, upload_index,
    GizmoLineFrame, GizmoLines, GizmoVertexBuffers,
        GizmoPipeline,
    GizmoPoint, GizmoPushConstants, GizmoVertex, GIZMO_MAX_VERTICES,
};

#[test]
fn gizmo_vertex_matches_the_shader_layout() {
    let vertex = GizmoVertex { position: Vec3 { x: 1, y: 2, z: 3 }, color: 4 };
    let bytes = vertex.bytes();
    assert_eq!(bytes.len(), 16);
    assert_eq!(bytes[0..4], 1u32.to_le_bytes());
    assert_eq!(bytes[12..16], 4u32.to_le_bytes());
}

#[test]
fn gizmo_push_constants_match_the_shader_layout() {
    let axis = |first: u32| Vec4 { x: first, y: first + 1, z: first + 2, w: first + 3 };
    let pc = GizmoPushConstants {
        x_axis: axis(0),
        y_axis: axis(4),
        z_axis: axis(8),
        w_axis: axis(12),
        vertex_buffer: 0x0123_4567_89AB_CDEF,
    };
    let bytes = pc.bytes();
    assert_eq!(bytes.len(), 72);
    for i in 0..16usize {
        assert_eq!(bytes[4 * i..4 * i + 4], (i as u32).to_le_bytes());
    }
    assert_eq!(bytes[64..72], 0x0123_4567_89AB_CDEFu64.to_le_bytes());
}

/// Nearest of 256 steps, clamped.
fn quantized(c: f32) -> u8 {
    (c.clamp(0.0, 1.0) * 255.0).round() as u8
}

fn pack(r: f32, g: f32, b: f32, a: f32) -> u32 {
    pack_channels(quantized(r), quantized(g), quantized(b), quantized(a))
}

#[test]
fn rgba8_packing_matches_the_shader() {
    assert_eq!(pack(1.0, 1.0, 1.0, 1.0), 0xFFFF_FFFF);
    assert_eq!(pack(1.0, 0.0, 0.0, 1.0), 0xFF00_00FF);
    assert_eq!(pack(0.0, 1.0, 0.0, 1.0), 0xFF00_FF00);
    assert_eq!(pack(0.0, 0.0, 1.0, 1.0), 0xFFFF_0000);
    assert_eq!(pack(2.0, -1.0, 0.5, 0.0), 0x0080_00FF);
}

fn point(n: f32) -> GizmoPoint {
    let at = Vec3 { x: n.to_bits(), y: 0, z: 0 };
    GizmoPoint { drawn: at, placed: at }
}

fn break_point() -> GizmoPoint {
    let at = Vec3 { x: f32::NAN.to_bits(), y: 0, z: 0 };
    GizmoPoint { drawn: at, placed: at }
}

fn lines(list: Vec<GizmoPoint>, strip: Vec<GizmoPoint>) -> GizmoLines {
    let list_colors = (0..list.len() as u32).map(|i| 0x100 + i).collect();
    let strip_colors = (0..strip.len() as u32).map(|i| 0x200 + i).collect();
    GizmoLines { list_points: list, list_colors, strip_points: strip, strip_colors }
}

fn colors(frame: &GizmoLineFrame) -> Vec<u32> {
    frame.vertices.iter().map(|v| v.color).collect()
}

#[test]
fn lists_pair_up_and_strips_join() {
    let mut frame = GizmoLineFrame::new();
    frame.extract(&vec![lines(
        vec![point(0.0), point(1.0), point(2.0), point(3.0)],
        vec![point(4.0), point(5.0), point(6.0)],
    )]);
    assert_eq!(
        colors(&frame),
        vec![0x100, 0x101, 0x102, 0x103, 0x200, 0x201, 0x201, 0x202]
    );
    assert!(!frame.warned_overflow);
}

#[test]
fn a_break_parts_a_strip() {
    let mut frame = GizmoLineFrame::new();
    frame.extract(&vec![lines(
        vec![],
        vec![point(0.0), point(1.0), break_point(), point(2.0), point(3.0)],
    )]);
    assert_eq!(colors(&frame), vec![0x200, 0x201, 0x203, 0x204]);
}

#[test]
fn a_frame_starts_anew() {
    let mut frame = GizmoLineFrame::new();
    frame.extract(&vec![lines(vec![point(0.0), point(1.0)], vec![])]);
    frame.extract(&vec![]);
    assert_eq!(frame.vertices.len(), 0);
}

#[test]
fn a_full_frame_takes_no_more() {
    let mut frame = GizmoLineFrame::new();
    let many: Vec<GizmoPoint> = vec![point(1.0); GIZMO_MAX_VERTICES + 2];
    frame.extract(&vec![lines(many, vec![])]);
    assert_eq!(frame.vertices.len(), GIZMO_MAX_VERTICES);
    assert!(frame.warned_overflow);
}

#[test]
fn buffers_grow_with_room_to_spare() {
    let buffer = Buffer { handle: 1, address: 2, len: 100 };
    assert_eq!(upload_capacity(buffer, 100), None);
    assert_eq!(upload_capacity(buffer, 101), Some(4096));
    assert_eq!(upload_capacity(buffer, 5000), Some(10000));
}

#[test]
fn a_modified_shader_touches_its_pipelines() {
    let pipelines = vec![
        GizmoPipeline { pipeline: 1, vertex_shader: 10, fragment_shader: 11 },
        GizmoPipeline { pipeline: 2, vertex_shader: 12, fragment_shader: 10 },
        GizmoPipeline { pipeline: 3, vertex_shader: 12, fragment_shader: 13 },
    ];
    assert_eq!(propagate_modified(&pipelines, 10), vec![1, 2]);
}

#[test]
fn lines_are_drawn_once_all_is_there() {
    let mut buffers = GizmoVertexBuffers::new();
    assert!(draw_gizmos(&buffers, 0, 0, true, Some(5)).is_none());
    assert!(draw_gizmos(&buffers, 0, 4, false, Some(5)).is_none());
    assert!(draw_gizmos(&buffers, 0, 4, true, None).is_none());
    let draw = draw_gizmos(&buffers, 7, 4, true, Some(5)).unwrap();
    assert_eq!((draw.buffer, draw.grow), (1, Some(4096)));
    let odd = Buffer { handle: 3, address: 0x3000, len: 4096 };
    assert_eq!(buffers.install(7, odd), None);
    assert_eq!(buffers.buffer(9), odd);
    assert_eq!(buffers.buffer(8).handle, 0);
    assert_eq!(draw_gizmos(&buffers, 9, 4, true, Some(5)).unwrap().grow, None);
    let even = draw_gizmos(&buffers, 8, 4, true, Some(5)).unwrap();
    assert_eq!((even.buffer, even.grow), (0, Some(4096)));
    assert_eq!(buffers.install(9, Buffer { handle: 4, address: 0x4000, len: 9000 }), Some(3));
    assert_eq!(buffers.cleanup(), vec![4]);
    assert_eq!((upload_index(6), upload_index(7)), (0, 1));
    assert_eq!((draw.pipeline, draw.push_bytes, draw.vertices, draw.instances), (5, 72, 4, 1));
}
