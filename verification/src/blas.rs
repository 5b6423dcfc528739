//! Bottom-level acceleration structures: the tables that go with a mesh's geometry, and the
//! plan by which a batch of meshes is uploaded, built and compacted.

use crate::bits::{Vec2, Vec3};
use crate::commands::{Buffer, Command};
use crate::material::RTXMaterial;
use crate::math::{aligned, aligned_size};
use crate::render_device::Doomed;
use vstd::prelude::*;

verus! {

/// Scratch memory a single build submission may hold at once.
pub const BLAS_BATCH_SCRATCH_BUDGET: u64 = 268435456;

/// A vertex; numbers are bit patterns.
#[derive(Clone, Copy, Debug, Default, PartialEq, Eq, Structural)]
pub struct Vertex {
    pub position: Vec3,
    pub normal: Vec3,
    pub uv: Vec2,
}

/// The shading record of a triangle. Padded to 32 bytes for better cache alignment.
#[derive(Clone, Copy, Debug, Default)]
pub struct Triangle {
    pub tangent: u32,
    pub normals: [u32; 3],
    pub uvs: [u32; 3],
    pub padding: u32,
}

/// The word whose low half is `low` and whose high half is `high`.
pub open spec fn join_halves(low: u16, high: u16) -> u32 {
    ((high as u32) << 16) | (low as u32)
}

/// Puts two halves into one word.
pub fn pack_halves(low: u16, high: u16) -> (r: u32)
    ensures
        r == join_halves(low, high),
        r == low + 65536 * high,
{
    let r: u32 = ((high as u32) << 16) | (low as u32);
    assert(((high as u32) << 16) | (low as u32) == low + 65536 * high) by (bit_vector);
    r
}

/// A texture coordinate as two half-precision numbers, by their bit patterns.
#[derive(Clone, Copy, Debug, PartialEq, Eq, Structural)]
pub struct HalfUv {
    pub x: u16,
    pub y: u16,
}

/// Two half-precision numbers in one word, the first in the low half.
pub open spec fn packed_uv(uv: HalfUv) -> u32 {
    join_halves(uv.x, uv.y)
}

impl Triangle {
    /// Packs a direction: its first component in 16 bits, its second in 15, and in the last one
    /// whether the third is negative.
    pub fn pack_normal(x: u16, y: u16, below: bool) -> (r: u32)
        requires
            y <= 0x7FFF,
        ensures
            r == 65536 * x + 2 * y + if below {
                1int
            } else {
                0
            },
    {
        let side: u32 = if below {
            1
        } else {
            0
        };
        x as u32 * 65536 + y as u32 * 2 + side
    }

    /// Packs a texture coordinate into one word.
    pub fn pack_uv(uv: HalfUv) -> (r: u32)
        ensures
            r == packed_uv(uv),
            r == uv.x + 65536 * uv.y,
    {
        pack_halves(uv.x, uv.y)
    }

    /// The shading record of a triangle with this packed tangent, these packed normals and
    /// these texture coordinates.
    pub fn pack(tangent: u32, normals: [u32; 3], uvs: [HalfUv; 3]) -> (r: Triangle)
        ensures
            r.tangent == tangent,
            r.normals == normals,
            r.uvs@ == seq![packed_uv(uvs[0]), packed_uv(uvs[1]), packed_uv(uvs[2])],
            r.padding == 0,
    {
        let packed: [u32; 3] = [
            Triangle::pack_uv(uvs[0]),
            Triangle::pack_uv(uvs[1]),
            Triangle::pack_uv(uvs[2]),
        ];
        assert(packed@ =~= seq![packed_uv(uvs[0]), packed_uv(uvs[1]), packed_uv(uvs[2])]);
        Triangle { tangent, normals, uvs: packed, padding: 0 }
    }
}

/// A range of a mesh's vertices and indices that is one geometry.
#[derive(Clone, Copy, Debug, PartialEq, Eq, Structural)]
pub struct GeometryDescr {
    pub first_vertex: usize,
    pub vertex_count: usize,
    pub first_index: usize,
    pub index_count: usize,
}

impl GeometryDescr {
    /// The whole triangles of the geometry.
    pub open spec fn triangles(self) -> int {
        self.index_count as int / 3
    }
}

/// The vertices of one triangle.
#[derive(Clone, Copy, Debug, PartialEq, Eq, Structural)]
pub struct Corners {
    pub a: u32,
    pub b: u32,
    pub c: u32,
}

/// The tables that go with a mesh: where each geometry's indices and triangles start, and
/// the corners of every triangle.
#[derive(Debug)]
pub struct GeometryTables {
    pub geom_to_index: Vec<u32>,
    pub geom_to_triangle: Vec<u32>,
    pub corners: Vec<Corners>,
}

/// The triangles of all geometries together.
pub open spec fn triangle_sum(geometries: Seq<GeometryDescr>) -> int
    decreases geometries.len(),
{
    if geometries.len() == 0 {
        0
    } else {
        triangle_sum(geometries.drop_last()) + geometries.last().triangles()
    }
}

/// The corners of triangle `t` of a geometry.
pub open spec fn corners_of(g: GeometryDescr, indices: Seq<u32>, t: int) -> Corners {
    Corners {
        a: indices[g.first_index + 3 * t],
        b: indices[g.first_index + 3 * t + 1],
        c: indices[g.first_index + 3 * t + 2],
    }
}

/// The corners of a geometry's triangles, in order.
pub open spec fn geometry_corners(g: GeometryDescr, indices: Seq<u32>) -> Seq<Corners> {
    Seq::new(g.triangles() as nat, |t: int| corners_of(g, indices, t))
}

/// The corners of all triangles, one geometry after the other.
pub open spec fn all_corners(geometries: Seq<GeometryDescr>, indices: Seq<u32>) -> Seq<Corners>
    decreases geometries.len(),
{
    if geometries.len() == 0 {
        Seq::empty()
    } else {
        all_corners(geometries.drop_last(), indices) + geometry_corners(geometries.last(), indices)
    }
}

/// Every whole triangle's indices are there, and where geometries start can be counted in 32
/// bits.
pub open spec fn geometries_fit(geometries: Seq<GeometryDescr>, indices: Seq<u32>) -> bool {
    &&& forall|k: int|
        0 <= k < geometries.len() ==> (#[trigger] geometries[k]).first_index + 3
            * geometries[k].triangles() <= indices.len() && geometries[k].first_index <= u32::MAX
    &&& triangle_sum(geometries) <= u32::MAX
}

/// A geometry's triangles are among all of them.
proof fn lemma_triangle_sum(geometries: Seq<GeometryDescr>, k: int)
    requires
        0 <= k <= geometries.len(),
    ensures
        0 <= triangle_sum(geometries.take(k)) <= triangle_sum(geometries),
    decreases geometries.len(),
{
    if k == geometries.len() {
        assert(geometries.take(k) =~= geometries);
        if k > 0 {
            lemma_triangle_sum(geometries.drop_last(), k - 1);
            assert(geometries.drop_last().take(k - 1) =~= geometries.drop_last());
        }
    } else {
        lemma_triangle_sum(geometries.drop_last(), k);
        assert(geometries.drop_last().take(k) =~= geometries.take(k));
    }
}

/// The tables of a mesh.
pub fn geometry_tables(indices: &Vec<u32>, geometries: &Vec<GeometryDescr>) -> (r: GeometryTables)
    requires
        geometries_fit(geometries@, indices@),
    ensures
        r.geom_to_index@ == geometries@.map_values(|g: GeometryDescr| g.first_index as u32),
        r.geom_to_triangle@.len() == geometries@.len(),
        forall|k: int|
            0 <= k < geometries@.len() ==> #[trigger] r.geom_to_triangle@[k] == triangle_sum(
                geometries@.take(k),
            ),
        r.corners@ == all_corners(geometries@, indices@),
        forall|k: int, t: int|
            0 <= k < geometries@.len() && 0 <= t && 3 * t + 3 <= geometries@[k].index_count
                ==> #[trigger] r.corners@[r.geom_to_triangle@[k] + t] == (Corners {
                a: indices@[r.geom_to_index@[k] + 3 * t],
                b: indices@[r.geom_to_index@[k] + 3 * t + 1],
                c: indices@[r.geom_to_index@[k] + 3 * t + 2],
            }),
{
    let mut geom_to_index: Vec<u32> = Vec::new();
    let mut geom_to_triangle: Vec<u32> = Vec::new();
    let mut corners: Vec<Corners> = Vec::new();
    let mut prefix_sum: u32 = 0;
    let mut k: usize = 0;
    while k < geometries.len()
        invariant
            k <= geometries@.len(),
            geometries_fit(geometries@, indices@),
            prefix_sum == triangle_sum(geometries@.take(k as int)),
            geom_to_index@ == geometries@.take(k as int).map_values(
                |g: GeometryDescr| g.first_index as u32,
            ),
            geom_to_triangle@.len() == k,
            forall|j: int|
                0 <= j < k ==> #[trigger] geom_to_triangle@[j] == triangle_sum(geometries@.take(j)),
            corners@ == all_corners(geometries@.take(k as int), indices@),
        decreases geometries@.len() - k,
    {
        let g: GeometryDescr = geometries[k];
        let ghost before = corners@;
        proof {
            assert(geometries@.take(k + 1).drop_last() =~= geometries@.take(k as int));
            assert(geometries@.take(k + 1).last() == g);
            lemma_triangle_sum(geometries@, k + 1);
        }
        geom_to_index.push(g.first_index as u32);
        assert(geom_to_index@ =~= geometries@.take(k + 1).map_values(
            |g: GeometryDescr| g.first_index as u32,
        ));
        geom_to_triangle.push(prefix_sum);
        let n: usize = g.index_count / 3;
        prefix_sum = prefix_sum + n as u32;
        let mut t: usize = 0;
        assert(corners@ =~= before + geometry_corners(g, indices@).take(0));
        while t < n
            invariant
                t <= n,
                n == g.triangles(),
                g.first_index + 3 * n <= indices@.len(),
                corners@ == before + geometry_corners(g, indices@).take(t as int),
            decreases n - t,
        {
            assert(indices.len() <= usize::MAX);
            let at: usize = g.first_index + t * 3;
            corners.push(Corners { a: indices[at], b: indices[at + 1], c: indices[at + 2] });
            assert(corners@ =~= before + geometry_corners(g, indices@).take(t + 1));
            t = t + 1;
        }
        assert(geometry_corners(g, indices@).take(t as int) =~= geometry_corners(g, indices@));
        k = k + 1;
    }
    assert(geometries@.take(k as int) =~= geometries@);
    assert forall|k: int, t: int|
        0 <= k < geometries@.len() && 0 <= t && 3 * t + 3
            <= geometries@[k].index_count implies #[trigger] corners@[geom_to_triangle@[k] + t] == (
    Corners {
        a: indices@[geom_to_index@[k] + 3 * t],
        b: indices@[geom_to_index@[k] + 3 * t + 1],
        c: indices@[geom_to_index@[k] + 3 * t + 2],
    }) by {
        lemma_corner_place(geometries@, indices@, k, t);
        assert(geometries@[k].first_index <= u32::MAX);
        assert(geom_to_index@[k] == geometries@[k].first_index as u32);
    }
    GeometryTables { geom_to_index, geom_to_triangle, corners }
}

proof fn lemma_corners_len(geometries: Seq<GeometryDescr>, indices: Seq<u32>)
    ensures
        all_corners(geometries, indices).len() == triangle_sum(geometries),
    decreases geometries.len(),
{
    if geometries.len() > 0 {
        lemma_corners_len(geometries.drop_last(), indices);
    }
}

/// The corners of triangle `t` of geometry `k` stand `t` behind where that geometry's
/// triangles start.
pub proof fn lemma_corner_place(
    geometries: Seq<GeometryDescr>,
    indices: Seq<u32>,
    k: int,
    t: int,
)
    requires
        0 <= k < geometries.len(),
        0 <= t < geometries[k].triangles(),
    ensures
        triangle_sum(geometries.take(k)) + t < all_corners(geometries, indices).len(),
        all_corners(geometries, indices)[triangle_sum(geometries.take(k)) + t] == corners_of(
            geometries[k],
            indices,
            t,
        ),
    decreases geometries.len(),
{
    let front = geometries.drop_last();
    lemma_corners_len(front, indices);
    lemma_corners_len(geometries, indices);
    lemma_triangle_sum(geometries, k);
    if k == front.len() {
        assert(geometries.take(k) =~= front);
    } else {
        lemma_corner_place(front, indices, k, t);
        assert(front.take(k) =~= geometries.take(k));
    }
}

// ---- uploads ----------------------------------------------------------------------------

/// Where the streams of one mesh are copied from and to, and how long each is.
#[derive(Clone, Copy, Debug, PartialEq, Eq, Structural)]
pub struct MeshUpload {
    pub vertex_host: u64,
    pub vertex: u64,
    pub vertex_count: u64,
    pub index_host: u64,
    pub index: u64,
    pub index_count: u64,
    pub triangle_host: u64,
    pub triangle: u64,
    pub triangle_count: u64,
    pub geom_to_index_host: u64,
    pub geom_to_index: u64,
    pub geom_to_triangle_host: u64,
    pub geom_to_triangle: u64,
    pub geometry_count: u64,
}

/// A copy, where there is anything to copy.
pub open spec fn copy_of(src: u64, dst: u64, size: int) -> Seq<Command> {
    if size == 0 {
        Seq::empty()
    } else {
        seq![Command::Copy { src, dst, size: size as u64 }]
    }
}

impl MeshUpload {
    /// Every stream's bytes can be counted.
    pub open spec fn fits(self) -> bool {
        &&& self.vertex_count * 32 <= u64::MAX
        &&& self.index_count * 4 <= u64::MAX
        &&& self.triangle_count * 32 <= u64::MAX
        &&& self.geometry_count * 4 <= u64::MAX
    }

    /// The copies of one mesh; empty streams are left out.
    pub open spec fn copies(self) -> Seq<Command> {
        copy_of(self.vertex_host, self.vertex, self.vertex_count * 32) + copy_of(
            self.index_host,
            self.index,
            self.index_count * 4,
        ) + copy_of(self.triangle_host, self.triangle, self.triangle_count * 32) + copy_of(
            self.geom_to_index_host,
            self.geom_to_index,
            self.geometry_count * 4,
        ) + copy_of(self.geom_to_triangle_host, self.geom_to_triangle, self.geometry_count * 4)
    }
}

/// The copies of all meshes.
pub open spec fn all_copies(meshes: Seq<MeshUpload>) -> Seq<Command>
    decreases meshes.len(),
{
    if meshes.len() == 0 {
        Seq::empty()
    } else {
        all_copies(meshes.drop_last()) + meshes.last().copies()
    }
}

fn push_copy(out: &mut Vec<Command>, src: u64, dst: u64, size: u64)
    ensures
        final(out)@ == old(out)@ + copy_of(src, dst, size as int),
{
    if size != 0 {
        out.push(Command::Copy { src, dst, size });
    }
    assert(out@ =~= old(out)@ + copy_of(src, dst, size as int));
}

/// The copies that upload a batch of meshes in one submission.
pub fn upload_commands(meshes: &Vec<MeshUpload>) -> (out: Vec<Command>)
    requires
        forall|k: int| 0 <= k < meshes@.len() ==> (#[trigger] meshes@[k]).fits(),
    ensures
        out@ == all_copies(meshes@),
{
    let mut out: Vec<Command> = Vec::new();
    let mut k: usize = 0;
    while k < meshes.len()
        invariant
            k <= meshes@.len(),
            forall|k: int| 0 <= k < meshes@.len() ==> (#[trigger] meshes@[k]).fits(),
            out@ == all_copies(meshes@.take(k as int)),
        decreases meshes@.len() - k,
    {
        let m: MeshUpload = meshes[k];
        let ghost before = out@;
        assert(m.fits());
        push_copy(&mut out, m.vertex_host, m.vertex, m.vertex_count * 32);
        push_copy(&mut out, m.index_host, m.index, m.index_count * 4);
        push_copy(&mut out, m.triangle_host, m.triangle, m.triangle_count * 32);
        push_copy(&mut out, m.geom_to_index_host, m.geom_to_index, m.geometry_count * 4);
        push_copy(&mut out, m.geom_to_triangle_host, m.geom_to_triangle, m.geometry_count * 4);
        proof {
            assert(out@ =~= before + m.copies());
            assert(meshes@.take(k + 1).drop_last() =~= meshes@.take(k as int));
            assert(meshes@.take(k + 1).last() == m);
        }
        k = k + 1;
    }
    assert(meshes@.take(k as int) =~= meshes@);
    out
}

// ---- chunks bounded by scratch memory -----------------------------------------------------

/// The scratch memory of meshes `from..to`, each aligned on its own.
pub open spec fn scratch_sum(estimates: Seq<u64>, alignment: u64, from: int, to: int) -> int
    decreases to - from,
{
    if to <= from {
        0
    } else {
        scratch_sum(estimates, alignment, from, to - 1) + estimates[to - 1] + alignment
    }
}

/// Where a chunk that starts at `from` and holds at least the meshes before `to` ends: once
/// its scratch memory reaches the budget, or with the last mesh.
pub open spec fn chunk_end(estimates: Seq<u64>, alignment: u64, from: int, to: int) -> int
    decreases estimates.len() - to,
{
    if to >= estimates.len() || scratch_sum(estimates, alignment, from, to)
        >= BLAS_BATCH_SCRATCH_BUDGET {
        to
    } else {
        chunk_end(estimates, alignment, from, to + 1)
    }
}

/// The first mesh of chunk `k`.
pub open spec fn chunk_start(estimates: Seq<u64>, alignment: u64, k: nat) -> int
    decreases k,
{
    if k == 0 {
        0
    } else {
        let from = chunk_start(estimates, alignment, (k - 1) as nat);
        chunk_end(estimates, alignment, from, from + 1)
    }
}

/// The ends are those of the chunks, and the last chunk ends with the last mesh.
pub open spec fn are_chunk_ends(estimates: Seq<u64>, alignment: u64, ends: Seq<usize>) -> bool {
    &&& forall|k: int|
        0 <= k < ends.len() ==> #[trigger] ends[k] == chunk_start(
            estimates,
            alignment,
            (k + 1) as nat,
        )
    &&& forall|k: int|
        0 <= k < ends.len() - 1 ==> (#[trigger] ends[k]) < estimates.len()
    &&& estimates.len() == 0 ==> ends.len() == 0
    &&& estimates.len() > 0 ==> ends.len() > 0 && ends.last() == estimates.len()
}

proof fn lemma_scratch_sum(estimates: Seq<u64>, alignment: u64, from: int, to: int)
    requires
        0 <= from <= to <= estimates.len(),
    ensures
        0 <= scratch_sum(estimates, alignment, from, to) <= scratch_sum(
            estimates,
            alignment,
            0,
            to,
        ) <= scratch_sum(estimates, alignment, 0, estimates.len() as int),
    decreases estimates.len() - from + estimates.len() - to + to,
{
    lemma_scratch_tail(estimates, alignment, from, to);
    lemma_scratch_front(estimates, alignment, to);
}

proof fn lemma_scratch_tail(estimates: Seq<u64>, alignment: u64, from: int, to: int)
    requires
        0 <= from <= to <= estimates.len(),
    ensures
        0 <= scratch_sum(estimates, alignment, from, to) <= scratch_sum(estimates, alignment, 0,
            to),
    decreases to - from,
{
    if from < to {
        lemma_scratch_tail(estimates, alignment, from, to - 1);
    } else {
        lemma_scratch_positive(estimates, alignment, to);
    }
}

proof fn lemma_scratch_positive(estimates: Seq<u64>, alignment: u64, to: int)
    requires
        0 <= to <= estimates.len(),
    ensures
        0 <= scratch_sum(estimates, alignment, 0, to),
    decreases to,
{
    if 0 < to {
        lemma_scratch_positive(estimates, alignment, to - 1);
    }
}

proof fn lemma_scratch_front(estimates: Seq<u64>, alignment: u64, to: int)
    requires
        0 <= to <= estimates.len(),
    ensures
        scratch_sum(estimates, alignment, 0, to) <= scratch_sum(
            estimates,
            alignment,
            0,
            estimates.len() as int,
        ),
    decreases estimates.len() - to,
{
    if to < estimates.len() {
        lemma_scratch_front(estimates, alignment, to + 1);
    }
}

/// A chunk ends behind where it starts, and short of the budget until then.
pub proof fn lemma_chunk_end(estimates: Seq<u64>, alignment: u64, from: int, to: int)
    requires
        0 <= from < to <= estimates.len(),
    ensures
        ({
            let end = chunk_end(estimates, alignment, from, to);
            &&& to <= end <= estimates.len()
            &&& end == estimates.len() || scratch_sum(estimates, alignment, from, end)
                >= BLAS_BATCH_SCRATCH_BUDGET
            &&& forall|e: int|
                to <= e < end ==> #[trigger] scratch_sum(estimates, alignment, from, e)
                    < BLAS_BATCH_SCRATCH_BUDGET
        }),
    decreases estimates.len() - to,
{
    if !(to >= estimates.len() || scratch_sum(estimates, alignment, from, to)
        >= BLAS_BATCH_SCRATCH_BUDGET) {
        lemma_chunk_end(estimates, alignment, from, to + 1);
    }
}

/// Cuts a batch into chunks bounded by scratch memory; gives where each ends.
pub fn chunk_ends(estimates: &Vec<u64>, alignment: u64) -> (ends: Vec<usize>)
    requires
        scratch_sum(estimates@, alignment, 0, estimates@.len() as int) <= u64::MAX,
    ensures
        are_chunk_ends(estimates@, alignment, ends@),
{
    let mut ends: Vec<usize> = Vec::new();
    let mut start: usize = 0;
    let mut sum: u64 = 0;
    let mut k: usize = 0;
    while k < estimates.len()
        invariant
            scratch_sum(estimates@, alignment, 0, estimates@.len() as int) <= u64::MAX,
            start <= k <= estimates@.len(),
            sum == scratch_sum(estimates@, alignment, start as int, k as int),
            start == chunk_start(estimates@, alignment, ends@.len()),
            start < k ==> chunk_end(estimates@, alignment, start as int, k as int) == chunk_end(
                estimates@,
                alignment,
                start as int,
                start + 1,
            ) && sum < BLAS_BATCH_SCRATCH_BUDGET && k < estimates@.len(),
            forall|j: int|
                0 <= j < ends@.len() ==> #[trigger] ends@[j] == chunk_start(
                    estimates@,
                    alignment,
                    (j + 1) as nat,
                ),
            forall|j: int| 0 <= j < ends@.len() - 1 ==> (#[trigger] ends@[j]) < estimates@.len(),
            ends@.len() > 0 ==> ends@.last() == start && start > 0,
            ends@.len() == 0 ==> start == 0,
        decreases estimates@.len() - k,
    {
        proof {
            lemma_scratch_sum(estimates@, alignment, start as int, k + 1);
        }
        sum = sum + (estimates[k] + alignment);
        k = k + 1;
        if k == estimates.len() || sum >= BLAS_BATCH_SCRATCH_BUDGET {
            assert(chunk_end(estimates@, alignment, start as int, k as int) == k);
            ends.push(k);
            start = k;
            sum = 0;
        } else {
            assert(chunk_end(estimates@, alignment, start as int, k as int) == chunk_end(
                estimates@,
                alignment,
                start as int,
                start + 1,
            ));
        }
    }
    ends
}

// ---- building and compacting ----------------------------------------------------------------

/// How many triangles of a geometry are built, and from which byte of the indices on.
#[derive(Clone, Copy, Debug, PartialEq, Eq, Structural)]
pub struct BuildRange {
    pub primitive_count: u32,
    pub primitive_offset: u32,
}

/// The range of one geometry.
pub open spec fn range_of(g: GeometryDescr) -> BuildRange {
    BuildRange {
        primitive_count: (g.index_count as int / 3) as u32,
        primitive_offset: (g.first_index * 4) as u32,
    }
}

/// The build ranges of a mesh's geometries.
pub fn geometry_ranges(geometries: &Vec<GeometryDescr>) -> (r: Vec<BuildRange>)
    requires
        forall|k: int|
            0 <= k < geometries@.len() ==> (#[trigger] geometries@[k]).first_index * 4 <= u32::MAX
                && geometries@[k].triangles() <= u32::MAX,
    ensures
        r@ == geometries@.map_values(|g: GeometryDescr| range_of(g)),
{
    let mut r: Vec<BuildRange> = Vec::new();
    let mut k: usize = 0;
    while k < geometries.len()
        invariant
            k <= geometries@.len(),
            forall|k: int|
                0 <= k < geometries@.len() ==> (#[trigger] geometries@[k]).first_index * 4
                    <= u32::MAX && geometries@[k].triangles() <= u32::MAX,
            r@ == geometries@.take(k as int).map_values(|g: GeometryDescr| range_of(g)),
        decreases geometries@.len() - k,
    {
        let g: GeometryDescr = geometries[k];
        r.push(
            BuildRange {
                primitive_count: (g.index_count / 3) as u32,
                primitive_offset: g.first_index as u32 * 4,
            },
        );
        assert(r@ =~= geometries@.take(k + 1).map_values(|g: GeometryDescr| range_of(g)));
        k = k + 1;
    }
    assert(geometries@.take(k as int) =~= geometries@);
    r
}

/// An acceleration structure: its handle, the buffer that holds it and its device address.
#[derive(Clone, Copy, Debug, PartialEq, Eq, Structural)]
pub struct AccelerationStructure {
    pub handle: u64,
    pub buffer: Buffer,
    pub address: u64,
}

impl AccelerationStructure {
    /// What an instance refers to the structure by.
    pub fn get_reference(&self) -> (r: u64)
        ensures
            r == self.address,
    {
        self.address
    }

    /// What goes with the structure.
    pub open spec fn doomed(self) -> Seq<Doomed> {
        seq![Doomed::AccelerationStructure(self.handle), Doomed::Buffer(self.buffer.handle)]
    }

    /// What goes with the structure.
    pub fn destroy(&self) -> (r: Vec<Doomed>)
        ensures
            r@ == self.doomed(),
    {
        let r: Vec<Doomed> = vec![
            Doomed::AccelerationStructure(self.handle),
            Doomed::Buffer(self.buffer.handle),
        ];
        assert(r@ =~= self.doomed());
        r
    }
}

/// A built mesh: the structure, and the streams and tables that the hit shaders read.
#[derive(Debug)]
pub struct BLAS {
    pub acceleration_structure: AccelerationStructure,
    pub vertex_buffer: Buffer,
    pub triangle_buffer: Buffer,
    pub index_buffer: Buffer,
    pub geometry_to_index: Buffer,
    pub geometry_to_triangle: Buffer,
    pub gltf_materials: Option<Vec<RTXMaterial>>,
    pub gltf_textures: Option<Vec<u64>>,
}

impl BLAS {
    /// What goes with the mesh. Textures are shared, and stay.
    pub open spec fn doomed(self) -> Seq<Doomed> {
        self.acceleration_structure.doomed() + seq![
            Doomed::Buffer(self.vertex_buffer.handle),
            Doomed::Buffer(self.triangle_buffer.handle),
            Doomed::Buffer(self.index_buffer.handle),
            Doomed::Buffer(self.geometry_to_index.handle),
            Doomed::Buffer(self.geometry_to_triangle.handle),
        ]
    }

    /// What goes with the mesh.
    pub fn destroy(&self) -> (r: Vec<Doomed>)
        ensures
            r@ == self.doomed(),
    {
        let mut r: Vec<Doomed> = self.acceleration_structure.destroy();
        r.push(Doomed::Buffer(self.vertex_buffer.handle));
        r.push(Doomed::Buffer(self.triangle_buffer.handle));
        r.push(Doomed::Buffer(self.index_buffer.handle));
        r.push(Doomed::Buffer(self.geometry_to_index.handle));
        r.push(Doomed::Buffer(self.geometry_to_triangle.handle));
        assert(r@ =~= self.doomed());
        r
    }
}

/// One build of a chunk: what is built, and in which scratch memory.
#[derive(Clone, Copy, Debug, PartialEq, Eq, Structural)]
pub struct BlasBuild {
    pub structure: u64,
    pub scratch: u64,
}

/// The builds of a chunk. A scratch address is rounded up into the slack of one alignment
/// that the buffer was made with.
pub fn build_infos(
    structures: &Vec<AccelerationStructure>,
    scratch: &Vec<Buffer>,
    alignment: u64,
) -> (r: Vec<BlasBuild>)
    requires
        structures@.len() == scratch@.len(),
        alignment > 0,
        forall|k: int|
            0 <= k < scratch@.len() ==> (#[trigger] scratch@[k]).address + alignment - 1
                <= u64::MAX,
    ensures
        r@ == Seq::new(
            structures@.len(),
            |k: int|
                BlasBuild {
                    structure: structures@[k].handle,
                    scratch: aligned(scratch@[k].address as int, alignment as int) as u64,
                },
        ),
{
    let mut r: Vec<BlasBuild> = Vec::new();
    let mut k: usize = 0;
    while k < structures.len()
        invariant
            k <= structures@.len(),
            structures@.len() == scratch@.len(),
            alignment > 0,
            forall|k: int|
                0 <= k < scratch@.len() ==> (#[trigger] scratch@[k]).address + alignment - 1
                    <= u64::MAX,
            r@ == Seq::new(
                k as nat,
                |k: int|
                    BlasBuild {
                        structure: structures@[k].handle,
                        scratch: aligned(scratch@[k].address as int, alignment as int) as u64,
                    },
            ),
        decreases structures@.len() - k,
    {
        let s: Buffer = scratch[k];
        assert(scratch@[k as int].address + alignment - 1 <= u64::MAX);
        r.push(
            BlasBuild {
                structure: structures[k].handle,
                scratch: aligned_size(s.address, alignment),
            },
        );
        assert(r@ =~= Seq::new(
            (k + 1) as nat,
            |k: int|
                BlasBuild {
                    structure: structures@[k].handle,
                    scratch: aligned(scratch@[k].address as int, alignment as int) as u64,
                },
        ));
        k = k + 1;
    }
    r
}

/// A structure that shrinks: which one, and to how many bytes.
#[derive(Clone, Copy, Debug, PartialEq, Eq, Structural)]
pub struct Compaction {
    pub index: usize,
    pub size: u64,
}

/// A reported size is worth a copy: it is one (0 is none), and smaller.
pub open spec fn shrinks(compacted: u64, full: u64) -> bool {
    0 < compacted < full
}

/// The structures before `n` that shrink, in order.
pub open spec fn shrinking(compacted: Seq<u64>, full: Seq<u64>, n: nat) -> Seq<Compaction>
    decreases n,
{
    if n == 0 {
        Seq::empty()
    } else {
        let front = shrinking(compacted, full, (n - 1) as nat);
        if shrinks(compacted[n - 1], full[n - 1]) {
            front.push(Compaction { index: (n - 1) as usize, size: compacted[n - 1] })
        } else {
            front
        }
    }
}

/// The structures of a chunk that are worth compacting.
pub fn compactions(compacted: &Vec<u64>, full: &Vec<u64>) -> (r: Vec<Compaction>)
    requires
        compacted@.len() == full@.len(),
    ensures
        r@ == shrinking(compacted@, full@, compacted@.len()),
{
    let mut r: Vec<Compaction> = Vec::new();
    let mut k: usize = 0;
    while k < compacted.len()
        invariant
            k <= compacted@.len(),
            compacted@.len() == full@.len(),
            r@ == shrinking(compacted@, full@, k as nat),
        decreases compacted@.len() - k,
    {
        let size: u64 = compacted[k];
        if size > 0 && size < full[k] {
            r.push(Compaction { index: k, size });
        }
        k = k + 1;
    }
    r
}

/// Every compaction is of a structure of the chunk, and none has two.
pub proof fn lemma_shrinking(compacted: Seq<u64>, full: Seq<u64>, n: nat)
    requires
        n <= compacted.len() <= usize::MAX,
    ensures
        forall|j: int|
            0 <= j < shrinking(compacted, full, n).len() ==> (#[trigger] shrinking(
                compacted,
                full,
                n,
            )[j]).index < n,
        forall|i: int, j: int|
            0 <= i < j < shrinking(compacted, full, n).len() ==> (#[trigger] shrinking(
                compacted,
                full,
                n,
            )[i]).index < (#[trigger] shrinking(compacted, full, n)[j]).index,
    decreases n,
{
    if n > 0 {
        lemma_shrinking(compacted, full, (n - 1) as nat);
        let front = shrinking(compacted, full, (n - 1) as nat);
        let whole = shrinking(compacted, full, n);
        assert forall|j: int| 0 <= j < whole.len() implies (#[trigger] whole[j]).index < n by {
            if j < front.len() {
                assert(whole[j] == front[j]);
            }
        }
        assert forall|i: int, j: int| 0 <= i < j < whole.len() implies (
        #[trigger] whole[i]).index < (#[trigger] whole[j]).index by {
            assert(whole[i] == front[i]);
            if j < front.len() {
                assert(whole[j] == front[j]);
            }
        }
    }
}

/// The structures once each compaction took the place of the one it is of.
pub open spec fn replaced(
    structures: Seq<AccelerationStructure>,
    copies: Seq<Compaction>,
    made: Seq<AccelerationStructure>,
    n: nat,
) -> Seq<AccelerationStructure>
    decreases n,
{
    if n == 0 {
        structures
    } else {
        replaced(structures, copies, made, (n - 1) as nat).update(
            copies[n - 1].index as int,
            made[n - 1],
        )
    }
}

/// Puts compacted structures in place; gives those that they replace, which are to be
/// destroyed.
pub fn replace_compacted(
    structures: &mut Vec<AccelerationStructure>,
    copies: &Vec<Compaction>,
    made: &Vec<AccelerationStructure>,
) -> (gone: Vec<AccelerationStructure>)
    requires
        copies@.len() == made@.len(),
        forall|j: int|
            0 <= j < copies@.len() ==> (#[trigger] copies@[j]).index < old(structures)@.len(),
        forall|i: int, j: int|
            0 <= i < j < copies@.len() ==> (#[trigger] copies@[i]).index < (
            #[trigger] copies@[j]).index,
    ensures
        final(structures)@ == replaced(old(structures)@, copies@, made@, copies@.len()),
        gone@ == copies@.map_values(|c: Compaction| old(structures)@[c.index as int]),
{
    let ghost before = structures@;
    let mut gone: Vec<AccelerationStructure> = Vec::new();
    let mut k: usize = 0;
    while k < copies.len()
        invariant
            k <= copies@.len(),
            copies@.len() == made@.len(),
            structures@.len() == before.len(),
            forall|j: int| 0 <= j < copies@.len() ==> (#[trigger] copies@[j]).index < before.len(),
            forall|i: int, j: int|
                0 <= i < j < copies@.len() ==> (#[trigger] copies@[i]).index < (
                #[trigger] copies@[j]).index,
            structures@ == replaced(before, copies@, made@, k as nat),
            forall|j: int|
                k <= j < copies@.len() ==> structures@[(#[trigger] copies@[j]).index as int]
                    == before[copies@[j].index as int],
            gone@ == copies@.take(k as int).map_values(|c: Compaction| before[c.index as int]),
        decreases copies@.len() - k,
    {
        let c: Compaction = copies[k];
        assert(copies@[k as int].index < before.len());
        gone.push(structures[c.index]);
        assert(gone@ =~= copies@.take(k + 1).map_values(|c: Compaction| before[c.index as int]));
        structures.set(c.index, made[k]);
        k = k + 1;
    }
    assert(copies@.take(k as int) =~= copies@);
    gone
}

/// The bytes of one stream of a mesh, where it has any, go from its host buffer to its device
/// buffer.
pub open spec fn uploads(src: u64, dst: u64, count: int, stride: int, c: Command) -> bool {
    count > 0 && (c matches Command::Copy { src: from, dst: to, size } && from == src && to == dst
        && size == count * stride)
}

/// The copy is one of a mesh's five: its vertices, its indices, its shading records, and the two
/// tables of its geometries.
pub open spec fn uploads_mesh(m: MeshUpload, c: Command) -> bool {
    ||| uploads(m.vertex_host, m.vertex, m.vertex_count as int, 32, c)
    ||| uploads(m.index_host, m.index, m.index_count as int, 4, c)
    ||| uploads(m.triangle_host, m.triangle, m.triangle_count as int, 32, c)
    ||| uploads(m.geom_to_index_host, m.geom_to_index, m.geometry_count as int, 4, c)
    ||| uploads(m.geom_to_triangle_host, m.geom_to_triangle, m.geometry_count as int, 4, c)
}

/// A batch copies every stream of every mesh that has anything, whole, and nothing else.
pub proof fn lemma_uploads_all(meshes: Seq<MeshUpload>, c: Command)
    requires
        forall|k: int| 0 <= k < meshes.len() ==> (#[trigger] meshes[k]).fits(),
    ensures
        all_copies(meshes).contains(c) <==> exists|k: int|
            0 <= k < meshes.len() && uploads_mesh(#[trigger] meshes[k], c),
    decreases meshes.len(),
{
    if meshes.len() > 0 {
        let front = meshes.drop_last();
        let last = meshes.len() - 1;
        assert forall|k: int| 0 <= k < front.len() implies (#[trigger] front[k]).fits() by {
            assert(front[k] == meshes[k]);
        }
        lemma_uploads_all(front, c);
        assert(meshes[last] == meshes.last());
        lemma_uploads_mesh(meshes.last(), c);
        let a = all_copies(front);
        let b = meshes.last().copies();
        lemma_copies_join(a, b, c);
        if exists|k: int| 0 <= k < front.len() && uploads_mesh(#[trigger] front[k], c) {
            let k = choose|k: int| 0 <= k < front.len() && uploads_mesh(#[trigger] front[k], c);
            assert(uploads_mesh(meshes[k], c));
        }
        if exists|k: int| 0 <= k < meshes.len() && uploads_mesh(#[trigger] meshes[k], c) {
            let k = choose|k: int| 0 <= k < meshes.len() && uploads_mesh(#[trigger] meshes[k], c);
            if k < last {
                assert(front[k] == meshes[k]);
            }
        }
    }
}

proof fn lemma_copies_join(a: Seq<Command>, b: Seq<Command>, c: Command)
    ensures
        (a + b).contains(c) <==> a.contains(c) || b.contains(c),
{
    if a.contains(c) {
        let i = choose|i: int| 0 <= i < a.len() && a[i] == c;
        assert((a + b)[i] == c);
    }
    if b.contains(c) {
        let i = choose|i: int| 0 <= i < b.len() && b[i] == c;
        assert((a + b)[a.len() + i] == c);
    }
}

proof fn lemma_copy_has(src: u64, dst: u64, count: u64, stride: u64, c: Command)
    requires
        stride > 0,
        count * stride <= u64::MAX,
    ensures
        copy_of(src, dst, count * stride).contains(c) <==> uploads(
            src,
            dst,
            count as int,
            stride as int,
            c,
        ),
{
    assert(count > 0 <==> count * stride > 0) by (nonlinear_arith)
        requires
            stride > 0,
    ;
    let s = copy_of(src, dst, count * stride);
    if count > 0 {
        assert(s[0] == (Command::Copy { src, dst, size: (count * stride) as u64 }));
    }
}

proof fn lemma_uploads_mesh(m: MeshUpload, c: Command)
    requires
        m.fits(),
    ensures
        m.copies().contains(c) <==> uploads_mesh(m, c),
{
    let v = copy_of(m.vertex_host, m.vertex, m.vertex_count * 32);
    let i = copy_of(m.index_host, m.index, m.index_count * 4);
    let t = copy_of(m.triangle_host, m.triangle, m.triangle_count * 32);
    let a = copy_of(m.geom_to_index_host, m.geom_to_index, m.geometry_count * 4);
    let b = copy_of(m.geom_to_triangle_host, m.geom_to_triangle, m.geometry_count * 4);
    lemma_copy_has(m.vertex_host, m.vertex, m.vertex_count, 32, c);
    lemma_copy_has(m.index_host, m.index, m.index_count, 4, c);
    lemma_copy_has(m.triangle_host, m.triangle, m.triangle_count, 32, c);
    lemma_copy_has(m.geom_to_index_host, m.geom_to_index, m.geometry_count, 4, c);
    lemma_copy_has(m.geom_to_triangle_host, m.geom_to_triangle, m.geometry_count, 4, c);
    lemma_copies_join(v, i, c);
    lemma_copies_join(v + i, t, c);
    lemma_copies_join(v + i + t, a, c);
    lemma_copies_join(v + i + t + a, b, c);
    assert(m.copies() =~= v + i + t + a + b);
}

/// A structure is compacted exactly where its compacted size is known and below its own, to that
/// size.
pub proof fn lemma_shrinks(compacted: Seq<u64>, full: Seq<u64>, n: nat, c: Compaction)
    requires
        n <= compacted.len() <= usize::MAX,
    ensures
        shrinking(compacted, full, n).contains(c) <==> c.index < n && c.size
            == compacted[c.index as int] && 0 < c.size < full[c.index as int],
    decreases n,
{
    if n > 0 {
        let k = (n - 1) as nat;
        lemma_shrinks(compacted, full, k, c);
        let front = shrinking(compacted, full, k);
        let whole = shrinking(compacted, full, n);
        if front.contains(c) {
            let j = choose|j: int| 0 <= j < front.len() && front[j] == c;
            assert(whole[j] == c);
        }
        if whole.contains(c) && !front.contains(c) {
            let j = choose|j: int| 0 <= j < whole.len() && whole[j] == c;
            if j < front.len() {
                assert(front[j] == c);
            }
        }
        if whole.len() > front.len() {
            assert(whole[front.len() as int] == whole.last());
        }
    }
}

/// Each structure that was made smaller stands where the one that it is of stood, and all others
/// stand where they did.
pub proof fn lemma_replaced(
    structures: Seq<AccelerationStructure>,
    copies: Seq<Compaction>,
    made: Seq<AccelerationStructure>,
    n: nat,
)
    requires
        n <= copies.len(),
        forall|j: int| 0 <= j < copies.len() ==> (#[trigger] copies[j]).index < structures.len(),
        forall|i: int, j: int|
            0 <= i < j < copies.len()
                ==> (#[trigger] copies[i]).index < (#[trigger] copies[j]).index,
    ensures
        replaced(structures, copies, made, n).len() == structures.len(),
        forall|j: int|
            0 <= j < n ==> replaced(structures, copies, made, n)[(
            #[trigger] copies[j]).index as int] == made[j],
        forall|k: int|
            0 <= k < structures.len() && (forall|j: int|
                0 <= j < n ==> (#[trigger] copies[j]).index != k) ==> #[trigger] replaced(
                structures,
                copies,
                made,
                n,
            )[k] == structures[k],
    decreases n,
{
    if n > 0 {
        lemma_replaced(structures, copies, made, (n - 1) as nat);
        assert(copies[n - 1].index < structures.len());
        let front = replaced(structures, copies, made, (n - 1) as nat);
        let whole = replaced(structures, copies, made, n);
        assert forall|j: int| 0 <= j < n implies whole[(#[trigger] copies[j]).index as int]
            == made[j] by {
            if j < n - 1 {
                assert(copies[j].index < copies[n - 1].index);
            }
        }
        assert forall|k: int|
            0 <= k < structures.len() && (forall|j: int|
                0 <= j < n ==> (#[trigger] copies[j]).index
                    != k) implies #[trigger] whole[k] == structures[k] by {
            assert(copies[n - 1].index != k);
            assert(front[k] == structures[k]);
        }
    }
}

} // verus!
