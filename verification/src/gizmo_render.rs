//! Debug lines: every gizmo's line lists and strips folded into one list of vertices.

use crate::bits::{Vec3, Vec4};
use crate::commands::{no_buffer, Buffer};
use crate::wire::{le32, le64, lemma_word32_of_le32, lemma_word64_of_le64, put_u32, put_u64};
use vstd::prelude::*;

verus! {

/// The most vertices of one frame, two for each segment. The rest is dropped, with one
/// warning.
pub const GIZMO_MAX_VERTICES: usize = 2097152;

/// The fewest vertices that an upload buffer is made for.
pub const GIZMO_MIN_BUFFER: u64 = 4096;

/// Opaque white.
pub const WHITE: u32 = 0xFFFF_FFFF;

/// One vertex: where it is, by bit patterns, and its colour (`r | g<<8 | b<<16 | a<<24`).
#[derive(Clone, Copy, Debug, PartialEq, Eq, Structural)]
pub struct GizmoVertex {
    pub position: Vec3,
    pub color: u32,
}

impl GizmoVertex {
    /// The vertex as the shader reads it: tightly packed.
    pub open spec fn layout(self) -> Seq<u8> {
        le32(self.position.x) + le32(self.position.y) + le32(self.position.z) + le32(self.color)
    }

    /// Lays out the vertex.
    pub fn bytes(&self) -> (r: Vec<u8>)
        ensures
            r@ == self.layout(),
            r@.len() == 16,
            r@.subrange(12, 16) == le32(self.color),
    {
        broadcast use lemma_word32_of_le32;

        let mut r: Vec<u8> = Vec::new();
        put_u32(&mut r, self.position.x);
        put_u32(&mut r, self.position.y);
        put_u32(&mut r, self.position.z);
        put_u32(&mut r, self.color);
        assert(r@ =~= self.layout());
        assert(r@.subrange(12, 16) =~= le32(self.color));
        r
    }
}

/// The push constants of the line draw: the clip-from-world matrix, column by column, and the
/// address of the vertices.
#[derive(Clone, Copy, Debug, PartialEq, Eq, Structural)]
pub struct GizmoPushConstants {
    pub x_axis: Vec4,
    pub y_axis: Vec4,
    pub z_axis: Vec4,
    pub w_axis: Vec4,
    pub vertex_buffer: u64,
}

/// Four numbers, one behind the other.
pub open spec fn column_bytes(v: Vec4) -> Seq<u8> {
    le32(v.x) + le32(v.y) + le32(v.z) + le32(v.w)
}

fn put_column(out: &mut Vec<u8>, v: Vec4)
    ensures
        final(out)@ == old(out)@ + column_bytes(v),
{
    put_u32(out, v.x);
    put_u32(out, v.y);
    put_u32(out, v.z);
    put_u32(out, v.w);
    assert(out@ =~= old(out)@ + column_bytes(v));
}

impl GizmoPushConstants {
    /// The block as the shader reads it.
    pub open spec fn layout(self) -> Seq<u8> {
        column_bytes(self.x_axis) + column_bytes(self.y_axis) + column_bytes(self.z_axis)
            + column_bytes(self.w_axis) + le64(self.vertex_buffer)
    }

    /// Lays out the block.
    pub fn bytes(&self) -> (r: Vec<u8>)
        ensures
            r@ == self.layout(),
            r@.len() == 72,
            r@.subrange(64, 72) == le64(self.vertex_buffer),
    {
        broadcast use {lemma_word32_of_le32, lemma_word64_of_le64};

        let mut r: Vec<u8> = Vec::new();
        put_column(&mut r, self.x_axis);
        put_column(&mut r, self.y_axis);
        put_column(&mut r, self.z_axis);
        put_column(&mut r, self.w_axis);
        put_u64(&mut r, self.vertex_buffer);
        assert(r@ =~= self.layout());
        assert(r@.subrange(64, 72) =~= le64(self.vertex_buffer));
        r
    }
}

/// One colour out of its four quantised channels.
pub open spec fn rgba8(r: u8, g: u8, b: u8, a: u8) -> u32 {
    (r + 256 * g + 65536 * b + 16777216 * a) as u32
}

/// Packs four quantised channels into one colour.
pub fn pack_channels(r: u8, g: u8, b: u8, a: u8) -> (c: u32)
    ensures
        c == rgba8(r, g, b, a),
        c == (r as u32) | ((g as u32) << 8) | ((b as u32) << 16) | ((a as u32) << 24),
{
    let c: u32 = (r as u32) | ((g as u32) << 8) | ((b as u32) << 16) | ((a as u32) << 24);
    assert((r as u32) | ((g as u32) << 8) | ((b as u32) << 16) | ((a as u32) << 24) == r + 256 * g
        + 65536 * b + 16777216 * a) by (bit_vector);
    c
}

/// A point of a gizmo: as it was drawn, and where its placement puts it.
#[derive(Clone, Copy, Debug, PartialEq, Eq, Structural)]
pub struct GizmoPoint {
    pub drawn: Vec3,
    pub placed: Vec3,
}

/// The bits are those of a finite number.
pub open spec fn finite_bits(bits: u32) -> bool {
    bits % 0x8000_0000 < 0x7F80_0000
}

/// The point is no sentinel: all its numbers are finite.
pub open spec fn finite(v: Vec3) -> bool {
    finite_bits(v.x) && finite_bits(v.y) && finite_bits(v.z)
}

fn is_finite(v: Vec3) -> (r: bool)
    ensures
        r == finite(v),
{
    v.x % 0x8000_0000 < 0x7F80_0000 && v.y % 0x8000_0000 < 0x7F80_0000 && v.z % 0x8000_0000
        < 0x7F80_0000
}

/// The lines of one gizmo: pairs of points, and strips that sentinels part.
#[derive(Debug)]
pub struct GizmoLines {
    pub list_points: Vec<GizmoPoint>,
    pub list_colors: Vec<u32>,
    pub strip_points: Vec<GizmoPoint>,
    pub strip_colors: Vec<u32>,
}

/// This frame's vertices, and whether too many were ever drawn.
#[derive(Debug)]
pub struct GizmoLineFrame {
    pub vertices: Vec<GizmoVertex>,
    pub warned_overflow: bool,
}

/// The contents of a [`GizmoLineFrame`].
#[verifier::ext_equal]
pub ghost struct LineFrameView {
    pub vertices: Seq<GizmoVertex>,
    pub warned_overflow: bool,
}

impl View for GizmoLineFrame {
    type V = LineFrameView;

    open spec fn view(&self) -> LineFrameView {
        LineFrameView { vertices: self.vertices@, warned_overflow: self.warned_overflow }
    }
}

/// One segment was drawn. A full frame drops it and remembers; a segment that touches a
/// sentinel is no segment.
pub open spec fn with_segment(
    f: LineFrameView,
    a: GizmoPoint,
    b: GizmoPoint,
    ca: u32,
    cb: u32,
) -> LineFrameView {
    if f.vertices.len() + 2 > GIZMO_MAX_VERTICES {
        LineFrameView { warned_overflow: true, ..f }
    } else if finite(a.drawn) && finite(b.drawn) {
        LineFrameView {
            vertices: f.vertices.push(GizmoVertex { position: a.placed, color: ca }).push(
                GizmoVertex { position: b.placed, color: cb },
            ),
            ..f
        }
    } else {
        f
    }
}

/// The colour at `i`, or else `other`.
pub open spec fn color_or(colors: Seq<u32>, i: int, other: u32) -> u32 {
    if i < colors.len() {
        colors[i]
    } else {
        other
    }
}

/// The first `n` pairs of the line list were drawn.
pub open spec fn with_list(f: LineFrameView, lines: GizmoLines, n: nat) -> LineFrameView
    decreases n,
{
    if n == 0 {
        f
    } else {
        let i = n - 1;
        with_segment(
            with_list(f, lines, i as nat),
            lines.list_points@[2 * i],
            lines.list_points@[2 * i + 1],
            color_or(lines.list_colors@, 2 * i, WHITE),
            color_or(lines.list_colors@, 2 * i + 1, WHITE),
        )
    }
}

/// The first `n` segments of the strips were drawn; a point without a colour has that of the
/// point before it.
pub open spec fn with_strips(f: LineFrameView, lines: GizmoLines, n: nat) -> LineFrameView
    decreases n,
{
    if n == 0 {
        f
    } else {
        let i = n - 1;
        let ca = color_or(lines.strip_colors@, i, WHITE);
        with_segment(
            with_strips(f, lines, i as nat),
            lines.strip_points@[i],
            lines.strip_points@[i + 1],
            ca,
            color_or(lines.strip_colors@, i + 1, ca),
        )
    }
}

/// All lines of one gizmo were drawn.
pub open spec fn with_lines(f: LineFrameView, lines: GizmoLines) -> LineFrameView {
    let points = lines.strip_points@.len();
    with_strips(
        with_list(f, lines, (lines.list_points@.len() / 2) as nat),
        lines,
        if points == 0 {
            0
        } else {
            (points - 1) as nat
        },
    )
}

/// All lines of all gizmos were drawn.
pub open spec fn with_gizmos(f: LineFrameView, gizmos: Seq<GizmoLines>) -> LineFrameView
    decreases gizmos.len(),
{
    if gizmos.len() == 0 {
        f
    } else {
        with_lines(with_gizmos(f, gizmos.drop_last()), gizmos.last())
    }
}

fn get_color(colors: &Vec<u32>, i: usize, other: u32) -> (r: u32)
    ensures
        r == color_or(colors@, i as int, other),
{
    if i < colors.len() {
        colors[i]
    } else {
        other
    }
}

impl GizmoLineFrame {
    pub fn new() -> (r: Self)
        ensures
            r.vertices@.len() == 0,
            !r.warned_overflow,
    {
        GizmoLineFrame { vertices: Vec::new(), warned_overflow: false }
    }

    fn push(&mut self, a: GizmoPoint, b: GizmoPoint, ca: u32, cb: u32)
        requires
            old(self)@.vertices.len() <= GIZMO_MAX_VERTICES,
        ensures
            final(self)@ == with_segment(old(self)@, a, b, ca, cb),
            final(self)@.vertices.len() <= GIZMO_MAX_VERTICES,
    {
        if self.vertices.len() + 2 > GIZMO_MAX_VERTICES {
            self.warned_overflow = true;
            return;
        }
        if !is_finite(a.drawn) || !is_finite(b.drawn) {
            return;
        }
        self.vertices.push(GizmoVertex { position: a.placed, color: ca });
        self.vertices.push(GizmoVertex { position: b.placed, color: cb });
    }

    /// Draws the lines of one gizmo.
    pub fn append_buffer(&mut self, lines: &GizmoLines)
        requires
            old(self)@.vertices.len() <= GIZMO_MAX_VERTICES,
        ensures
            final(self)@ == with_lines(old(self)@, *lines),
            final(self)@.vertices.len() <= GIZMO_MAX_VERTICES,
    {
        let ghost f0 = self@;
        let pairs: usize = lines.list_points.len() / 2;
        let mut i: usize = 0;
        while i < pairs
            invariant
                i <= pairs,
                pairs == lines.list_points@.len() / 2,
                self@ == with_list(f0, *lines, i as nat),
                self@.vertices.len() <= GIZMO_MAX_VERTICES,
            decreases pairs - i,
        {
            assert(lines.list_points.len() <= usize::MAX);
            let ca: u32 = get_color(&lines.list_colors, 2 * i, WHITE);
            let cb: u32 = get_color(&lines.list_colors, 2 * i + 1, WHITE);
            self.push(lines.list_points[2 * i], lines.list_points[2 * i + 1], ca, cb);
            i = i + 1;
        }
        let ghost f1 = self@;
        let points: usize = lines.strip_points.len();
        let segments: usize = if points == 0 {
            0
        } else {
            points - 1
        };
        let mut j: usize = 0;
        while j < segments
            invariant
                j <= segments,
                segments < lines.strip_points@.len() || segments == 0,
                self@ == with_strips(f1, *lines, j as nat),
                self@.vertices.len() <= GIZMO_MAX_VERTICES,
            decreases segments - j,
        {
            let ca: u32 = get_color(&lines.strip_colors, j, WHITE);
            let cb: u32 = get_color(&lines.strip_colors, j + 1, ca);
            self.push(lines.strip_points[j], lines.strip_points[j + 1], ca, cb);
            j = j + 1;
        }
    }

    /// Starts a frame over with the lines of these gizmos.
    pub fn extract(&mut self, gizmos: &Vec<GizmoLines>)
        ensures
            final(self)@ == with_gizmos(
                LineFrameView {
                    vertices: Seq::empty(),
                    warned_overflow: old(self)@.warned_overflow,
                },
                gizmos@,
            ),
            final(self)@.vertices.len() <= GIZMO_MAX_VERTICES,
    {
        self.vertices.clear();
        let ghost f0 = self@;
        let mut i: usize = 0;
        while i < gizmos.len()
            invariant
                i <= gizmos@.len(),
                self@ == with_gizmos(f0, gizmos@.take(i as int)),
                self@.vertices.len() <= GIZMO_MAX_VERTICES,
            decreases gizmos@.len() - i,
        {
            assert(gizmos@.take(i + 1).drop_last() =~= gizmos@.take(i as int));
            self.append_buffer(&gizmos[i]);
            i = i + 1;
        }
        assert(gizmos@.take(i as int) =~= gizmos@);
        assert(f0 =~= (LineFrameView {
            vertices: Seq::empty(),
            warned_overflow: old(self)@.warned_overflow,
        }));
    }
}

proof fn lemma_list_whole(f: LineFrameView, lines: GizmoLines, n: nat)
    requires
        f.vertices.len() % 2 == 0,
    ensures
        with_list(f, lines, n).vertices.len() % 2 == 0,
        f.warned_overflow ==> with_list(f, lines, n).warned_overflow,
    decreases n,
{
    if n > 0 {
        lemma_list_whole(f, lines, (n - 1) as nat);
    }
}

proof fn lemma_strips_whole(f: LineFrameView, lines: GizmoLines, n: nat)
    requires
        f.vertices.len() % 2 == 0,
    ensures
        with_strips(f, lines, n).vertices.len() % 2 == 0,
        f.warned_overflow ==> with_strips(f, lines, n).warned_overflow,
    decreases n,
{
    if n > 0 {
        lemma_strips_whole(f, lines, (n - 1) as nat);
    }
}

/// Whatever is drawn, the frame holds whole segments, and a warning is never taken back.
pub proof fn lemma_whole_segments(f: LineFrameView, gizmos: Seq<GizmoLines>)
    requires
        f.vertices.len() % 2 == 0,
    ensures
        with_gizmos(f, gizmos).vertices.len() % 2 == 0,
        f.warned_overflow ==> with_gizmos(f, gizmos).warned_overflow,
    decreases gizmos.len(),
{
    if gizmos.len() > 0 {
        let front = with_gizmos(f, gizmos.drop_last());
        let lines = gizmos.last();
        lemma_whole_segments(f, gizmos.drop_last());
        lemma_list_whole(front, lines, (lines.list_points@.len() / 2) as nat);
        let listed = with_list(front, lines, (lines.list_points@.len() / 2) as nat);
        let points = lines.strip_points@.len();
        lemma_strips_whole(
            listed,
            lines,
            if points == 0 {
                0
            } else {
                (points - 1) as nat
            },
        );
    }
}

/// Vertices that an upload buffer must be made anew for so that it holds `count`; `None` where
/// it is large enough.
pub open spec fn capacity_of(buffer: Buffer, count: usize) -> Option<u64> {
    if buffer.len >= count {
        None
    } else if 2 * count < GIZMO_MIN_BUFFER {
        Some(GIZMO_MIN_BUFFER)
    } else {
        Some((2 * count) as u64)
    }
}

/// Vertices that an upload buffer must be made anew for so that it holds `count`.
pub fn upload_capacity(buffer: Buffer, count: usize) -> (r: Option<u64>)
    requires
        count <= GIZMO_MAX_VERTICES,
    ensures
        r == capacity_of(buffer, count),
{
    if buffer.len >= count as u64 {
        return None;
    }
    let doubled: u64 = 2 * count as u64;
    if doubled < GIZMO_MIN_BUFFER {
        Some(GIZMO_MIN_BUFFER)
    } else {
        Some(doubled)
    }
}

/// Which of the two upload buffers a frame uses: the other one may still be read.
pub fn upload_index(frame_count: usize) -> (r: usize)
    ensures
        r == frame_count % 2,
{
    frame_count % 2
}

/// The upload buffers of the frames in flight, grown on demand.
#[derive(Clone, Copy, Debug, PartialEq, Eq, Structural)]
pub struct GizmoVertexBuffers {
    pub even: Buffer,
    pub odd: Buffer,
}

impl GizmoVertexBuffers {
    /// The buffer of a frame.
    pub open spec fn at(self, frame_count: usize) -> Buffer {
        if frame_count % 2 == 0 {
            self.even
        } else {
            self.odd
        }
    }

    /// No buffers yet.
    pub fn new() -> (r: Self)
        ensures
            r.even == no_buffer(),
            r.odd == no_buffer(),
    {
        let none: Buffer = Buffer { handle: 0, address: 0, len: 0 };
        GizmoVertexBuffers { even: none, odd: none }
    }

    /// The buffer of a frame.
    pub fn buffer(&self, frame_count: usize) -> (r: Buffer)
        ensures
            r == self.at(frame_count),
    {
        if upload_index(frame_count) == 0 {
            self.even
        } else {
            self.odd
        }
    }

    /// Takes a frame's new buffer; gives the handle of the old one, where there was one. Frames
    /// in flight may still read that.
    pub fn install(&mut self, frame_count: usize, buffer: Buffer) -> (r: Option<u64>)
        ensures
            final(self).at(frame_count) == buffer,
            forall|other: usize|
                #![trigger final(self).at(other)]
                other % 2 != frame_count % 2 ==> final(self).at(other) == old(self).at(other),
            r == (if old(self).at(frame_count).handle == 0 {
                None
            } else {
                Some(old(self).at(frame_count).handle)
            }),
    {
        let handle: u64 = self.buffer(frame_count).handle;
        if upload_index(frame_count) == 0 {
            self.even = buffer;
        } else {
            self.odd = buffer;
        }
        if handle == 0 {
            None
        } else {
            Some(handle)
        }
    }

    /// The handles to give up at the end.
    pub fn cleanup(&self) -> (r: Vec<u64>)
        ensures
            r@ == (if self.even.handle == 0 {
                Seq::empty()
            } else {
                seq![self.even.handle]
            }) + (if self.odd.handle == 0 {
                Seq::empty()
            } else {
                seq![self.odd.handle]
            }),
    {
        let mut r: Vec<u64> = Vec::new();
        if self.even.handle != 0 {
            r.push(self.even.handle);
        }
        if self.odd.handle != 0 {
            r.push(self.odd.handle);
        }
        assert(r@ =~= (if self.even.handle == 0 {
            Seq::<u64>::empty()
        } else {
            seq![self.even.handle]
        }) + (if self.odd.handle == 0 {
            Seq::<u64>::empty()
        } else {
            seq![self.odd.handle]
        }));
        r
    }
}

/// Bytes that a draw of lines pushes.
pub const GIZMO_PUSH_BYTES: u32 = 72;

/// A draw of lines: an upload, one bind, one push and one draw.
#[derive(Clone, Copy, Debug, PartialEq, Eq, Structural)]
pub struct GizmoDraw {
    /// Which upload buffer the vertices go to.
    pub buffer: usize,
    /// Vertices that this buffer must be made anew for first.
    pub grow: Option<u64>,
    pub pipeline: u64,
    pub push_bytes: u32,
    pub vertices: u32,
    pub instances: u32,
}

/// The draw of a frame's lines; none without lines, configuration or compiled pipeline.
pub fn draw_gizmos(
    buffers: &GizmoVertexBuffers,
    frame_count: usize,
    vertices: usize,
    configured: bool,
    pipeline: Option<u64>,
) -> (r: Option<GizmoDraw>)
    requires
        vertices <= GIZMO_MAX_VERTICES,
    ensures
        r is Some <==> vertices > 0 && configured && pipeline is Some,
        r matches Some(draw) ==> draw == (GizmoDraw {
            buffer: frame_count % 2,
            grow: capacity_of(buffers.at(frame_count), vertices),
            pipeline: pipeline->0,
            push_bytes: GIZMO_PUSH_BYTES,
            vertices: vertices as u32,
            instances: 1,
        }),
{
    if vertices == 0 || !configured {
        return None;
    }
    match pipeline {
        Some(pipeline) => Some(
            GizmoDraw {
                buffer: upload_index(frame_count),
                grow: upload_capacity(buffers.buffer(frame_count), vertices),
                pipeline,
                push_bytes: GIZMO_PUSH_BYTES,
                vertices: vertices as u32,
                instances: 1,
            },
        ),
        None => None,
    }
}

/// The shaders of the line draw, and the pipeline that they are compiled into, by asset ids.
#[derive(Clone, Copy, Debug, PartialEq, Eq, Structural)]
pub struct GizmoPipeline {
    pub pipeline: u64,
    pub vertex_shader: u64,
    pub fragment_shader: u64,
}

/// The pipelines that `shader` belongs to, in order.
pub open spec fn pipelines_of(pipelines: Seq<GizmoPipeline>, shader: u64) -> Seq<u64>
    decreases pipelines.len(),
{
    if pipelines.len() == 0 {
        Seq::empty()
    } else {
        let front = pipelines_of(pipelines.drop_last(), shader);
        let p = pipelines.last();
        if p.vertex_shader == shader || p.fragment_shader == shader {
            front.push(p.pipeline)
        } else {
            front
        }
    }
}

/// The pipelines to prepare again once `shader` was modified.
pub fn propagate_modified(pipelines: &Vec<GizmoPipeline>, shader: u64) -> (r: Vec<u64>)
    ensures
        r@ == pipelines_of(pipelines@, shader),
{
    let mut r: Vec<u64> = Vec::new();
    let mut i: usize = 0;
    while i < pipelines.len()
        invariant
            i <= pipelines@.len(),
            r@ == pipelines_of(pipelines@.take(i as int), shader),
        decreases pipelines@.len() - i,
    {
        assert(pipelines@.take(i + 1).drop_last() =~= pipelines@.take(i as int));
        let p: GizmoPipeline = pipelines[i];
        if p.vertex_shader == shader || p.fragment_shader == shader {
            r.push(p.pipeline);
        }
        i = i + 1;
    }
    assert(pipelines@.take(i as int) =~= pipelines@);
    r
}

/// While there is room, every pair of drawn points of a line list becomes two vertices, in order,
/// each where its placement puts it and in its own colour, white where it has none; and nothing
/// that was there is changed.
pub proof fn lemma_list_drawn(f: LineFrameView, lines: GizmoLines, n: nat)
    requires
        f.vertices.len() + 2 * n <= GIZMO_MAX_VERTICES,
        2 * n <= lines.list_points@.len(),
        forall|j: int| 0 <= j < 2 * n ==> finite((#[trigger] lines.list_points@[j]).drawn),
    ensures
        ({
            let v = with_list(f, lines, n).vertices;
            &&& v.len() == f.vertices.len() + 2 * n
            &&& v.take(f.vertices.len() as int) == f.vertices
            &&& forall|j: int|
                0 <= j < 2 * n ==> {
                    let drawn = #[trigger] v[f.vertices.len() + j];
                    &&& drawn.position == lines.list_points@[j].placed
                    &&& drawn.color == if j < lines.list_colors@.len() {
                        lines.list_colors@[j]
                    } else {
                        0xFFFF_FFFF
                    }
                }
            &&& with_list(f, lines, n).warned_overflow == f.warned_overflow
        }),
    decreases n,
{
    if n > 0 {
        let i = n - 1;
        lemma_list_drawn(f, lines, i as nat);
        let before = with_list(f, lines, i as nat).vertices;
        let v = with_list(f, lines, n).vertices;
        assert(finite(lines.list_points@[2 * i].drawn));
        assert(finite(lines.list_points@[2 * i + 1].drawn));
        assert forall|j: int| 0 <= j < before.len() implies #[trigger] v[j] == before[j] by {}
        assert(v.take(f.vertices.len() as int) =~= before.take(f.vertices.len() as int));
    } else {
        assert(f.vertices.take(f.vertices.len() as int) =~= f.vertices);
    }
}

/// While there is room, every two neighbouring drawn points of a strip become a segment from the
/// one to the next.
pub proof fn lemma_strips_drawn(f: LineFrameView, lines: GizmoLines, n: nat)
    requires
        f.vertices.len() + 2 * n <= GIZMO_MAX_VERTICES,
        n < lines.strip_points@.len() || n == 0,
        n > 0 ==> forall|j: int| 0 <= j <= n ==> finite((#[trigger] lines.strip_points@[j]).drawn),
    ensures
        ({
            let v = with_strips(f, lines, n).vertices;
            &&& v.len() == f.vertices.len() + 2 * n
            &&& v.take(f.vertices.len() as int) == f.vertices
            &&& forall|j: int|
                0 <= j < 2 * n ==> (#[trigger] v[f.vertices.len() + j]).position
                    == lines.strip_points@[(j + 1) / 2].placed
            &&& forall|j: int|
                0 <= j < 2 * n && (j + 1) / 2 < lines.strip_colors@.len() ==> (
                #[trigger] v[f.vertices.len() + j]).color == lines.strip_colors@[(j + 1) / 2]
        }),
    decreases n,
{
    if n > 0 {
        let i = n - 1;
        lemma_strips_drawn(f, lines, i as nat);
        let before = with_strips(f, lines, i as nat).vertices;
        let v = with_strips(f, lines, n).vertices;
        assert(finite(lines.strip_points@[i].drawn));
        assert(finite(lines.strip_points@[i + 1].drawn));
        assert forall|j: int| 0 <= j < before.len() implies #[trigger] v[j] == before[j] by {}
        assert(v.take(f.vertices.len() as int) =~= before.take(f.vertices.len() as int));
        assert forall|j: int| 0 <= j < 2 * n implies (
        #[trigger] v[f.vertices.len() + j]).position == lines.strip_points@[(j + 1)
            / 2].placed by {
            if j < 2 * i {
                assert(before[f.vertices.len() + j].position == lines.strip_points@[(j + 1)
                    / 2].placed);
            }
        }
        assert forall|j: int|
            0 <= j < 2 * n && (j + 1) / 2 < lines.strip_colors@.len() implies (
        #[trigger] v[f.vertices.len() + j]).color == lines.strip_colors@[(j + 1) / 2] by {
            if j < 2 * i {
                assert(before[f.vertices.len() + j].color == lines.strip_colors@[(j + 1) / 2]);
            }
        }
    } else {
        assert(f.vertices.take(f.vertices.len() as int) =~= f.vertices);
    }
}

} // verus!
