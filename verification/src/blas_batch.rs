//! A batch of meshes, from the host's indices to built structures: what is packed, what each
//! submission holds, and which result belongs to which mesh.

use crate::blas::{
    all_copies, all_corners, are_chunk_ends, build_infos, chunk_end, chunk_start, corners_of,
    geometries_fit, geometry_tables, lemma_chunk_end, shrinking, triangle_sum, upload_commands,
    AccelerationStructure, BlasBuild, Compaction, Corners, GeometryDescr, GeometryTables,
    MeshUpload, BLAS,
};
use crate::commands::{
    Buffer, Command, ACCESS_ACCELERATION_STRUCTURE_READ, ACCESS_ACCELERATION_STRUCTURE_WRITE,
    STAGE_ACCELERATION_STRUCTURE_BUILD,
};
use crate::compute::{barrier, lemma_includes, memory_barrier, orders};
use crate::math::{aligned, lemma_aligned};
use vstd::prelude::*;

verus! {

// ---- packing ------------------------------------------------------------------------------------

/// A mesh to build: its indices, and the ranges of them that are geometries.
#[derive(Debug)]
pub struct BlasBuildInput {
    pub vertex_count: usize,
    pub indices: Vec<u32>,
    pub geometries: Vec<GeometryDescr>,
}

impl BlasBuildInput {
    /// Every geometry lies within the indices, and every corner of its whole triangles within
    /// the vertices.
    pub open spec fn usable(self) -> bool {
        &&& geometries_fit(self.geometries@, self.indices@)
        &&& forall|k: int|
            0 <= k < self.geometries@.len() ==> corners_inside(
                #[trigger] self.geometries@[k],
                self.indices@,
                self.vertex_count as int,
            )
    }

    /// The tables are those of the mesh: where each geometry's indices and triangles start, and
    /// the corners of its triangles, geometry after geometry.
    pub open spec fn has_tables(self, t: GeometryTables) -> bool {
        &&& t.geom_to_index@ == self.geometries@.map_values(|g: GeometryDescr| g.first_index as u32)
        &&& t.geom_to_triangle@.len() == self.geometries@.len()
        &&& forall|g: int|
            0 <= g < self.geometries@.len() ==> #[trigger] t.geom_to_triangle@[g] == triangle_sum(
                self.geometries@.take(g),
            )
        &&& t.corners@ == all_corners(self.geometries@, self.indices@)
    }

    /// Whether every geometry lies within the indices, and every corner of its whole triangles
    /// within the vertices.
    pub fn is_usable(&self) -> (r: bool)
        ensures
            r == self.usable(),
    {
        let mut sum: u64 = 0;
        let mut k: usize = 0;
        assert(self.geometries@.take(0) =~= Seq::empty());
        while k < self.geometries.len()
            invariant
                k <= self.geometries@.len(),
                forall|j: int|
                    0 <= j < k ==> (#[trigger] self.geometries@[j]).first_index + 3
                        * self.geometries@[j].triangles() <= self.indices@.len()
                        && self.geometries@[j].first_index <= u32::MAX,
                forall|j: int|
                    0 <= j < k ==> corners_inside(
                        #[trigger] self.geometries@[j],
                        self.indices@,
                        self.vertex_count as int,
                    ),
                sum == triangle_sum(self.geometries@.take(k as int)),
                sum <= u32::MAX,
            decreases self.geometries@.len() - k,
        {
            let g: GeometryDescr = self.geometries[k];
            let triangles: usize = g.index_count / 3;
            assert(self.geometries@.take(k + 1).drop_last() =~= self.geometries@.take(k as int));
            assert(g.triangles() == triangles);
            if g.first_index > self.indices.len() || g.first_index as u64 > 0xFFFF_FFFF {
                assert(self.geometries@[k as int].first_index + 3
                    * self.geometries@[k as int].triangles() > self.indices@.len()
                    || self.geometries@[k as int].first_index > u32::MAX);
                return false;
            }
            let room: usize = self.indices.len() - g.first_index;
            if triangles > room / 3 {
                assert(self.geometries@[k as int].first_index + 3
                    * self.geometries@[k as int].triangles() > self.indices@.len());
                return false;
            }
            if triangles as u64 > 0xFFFF_FFFF - sum {
                proof {
                    lemma_sum_grows(self.geometries@, k + 1);
                }
                return false;
            }
            if !self.are_inside(g.first_index, triangles) {
                assert(!corners_inside(
                    self.geometries@[k as int],
                    self.indices@,
                    self.vertex_count as int,
                ));
                return false;
            }
            sum = sum + triangles as u64;
            k = k + 1;
        }
        assert(self.geometries@.take(k as int) =~= self.geometries@);
        true
    }

    /// Whether the corners of so many triangles from index `first` on lie within the vertices.
    fn are_inside(&self, first: usize, triangles: usize) -> (r: bool)
        requires
            first + 3 * triangles <= self.indices@.len(),
        ensures
            r == (forall|i: int|
                first <= i < first + 3 * triangles ==> (#[trigger] self.indices@[i])
                    < self.vertex_count),
    {
        assert(self.indices.len() <= usize::MAX);
        let end: usize = first + triangles * 3;
        let mut i: usize = first;
        while i < end
            invariant
                first <= i <= end,
                end == first + 3 * triangles,
                end <= self.indices@.len(),
                forall|j: int|
                    first <= j < i ==> (#[trigger] self.indices@[j]) < self.vertex_count,
            decreases end - i,
        {
            if self.indices[i] as usize >= self.vertex_count {
                assert(self.indices@[i as int] >= self.vertex_count);
                return false;
            }
            i = i + 1;
        }
        true
    }
}

/// The corners of a geometry's whole triangles are among `count` vertices.
pub open spec fn corners_inside(g: GeometryDescr, indices: Seq<u32>, count: int) -> bool {
    forall|i: int|
        g.first_index <= i < g.first_index + 3 * g.triangles() ==> (#[trigger] indices[i]) < count
}

/// The corners of a triangle are among `count` vertices.
pub open spec fn has_vertices(c: Corners, count: int) -> bool {
    c.a < count && c.b < count && c.c < count
}

/// Where the corners of every geometry are among the vertices, so are those of the table.
proof fn lemma_table_inside(geometries: Seq<GeometryDescr>, indices: Seq<u32>, count: int)
    requires
        forall|k: int|
            0 <= k < geometries.len() ==> corners_inside(
                #[trigger] geometries[k],
                indices,
                count,
            ),
    ensures
        forall|t: int|
            0 <= t < all_corners(geometries, indices).len() ==> has_vertices(
                #[trigger] all_corners(geometries, indices)[t],
                count,
            ),
    decreases geometries.len(),
{
    if geometries.len() > 0 {
        let front = geometries.drop_last();
        let g = geometries.last();
        assert forall|k: int| 0 <= k < front.len() implies corners_inside(
            #[trigger] front[k],
            indices,
            count,
        ) by {
            assert(corners_inside(geometries[k], indices, count));
        }
        lemma_table_inside(front, indices, count);
        assert(corners_inside(geometries[geometries.len() - 1], indices, count));
        let before = all_corners(front, indices);
        let all = all_corners(geometries, indices);
        assert forall|t: int| 0 <= t < all.len() implies has_vertices(#[trigger] all[t], count) by {
            if t < before.len() {
                assert(all[t] == before[t]);
            } else {
                let u = t - before.len();
                assert(all[t] == corners_of(g, indices, u));
                assert(indices[g.first_index + 3 * u] < count);
                assert(indices[g.first_index + 3 * u + 1] < count);
                assert(indices[g.first_index + 3 * u + 2] < count);
            }
        }
    }
}

/// More geometries have no fewer triangles.
proof fn lemma_sum_grows(geometries: Seq<GeometryDescr>, k: int)
    requires
        0 <= k <= geometries.len(),
    ensures
        triangle_sum(geometries.take(k)) <= triangle_sum(geometries),
    decreases geometries.len() - k,
{
    if k < geometries.len() {
        assert(geometries.take(k + 1).drop_last() =~= geometries.take(k));
        assert(geometries.take(k + 1).last().triangles() >= 0);
        lemma_sum_grows(geometries, k + 1);
    } else {
        assert(geometries.take(k) =~= geometries);
    }
}

/// Packs a batch: the tables of each mesh, in order. Every corner is among the mesh's vertices.
pub fn pack_batch(inputs: &Vec<BlasBuildInput>) -> (r: Vec<GeometryTables>)
    requires
        forall|i: int| 0 <= i < inputs@.len() ==> (#[trigger] inputs@[i]).usable(),
    ensures
        r@.len() == inputs@.len(),
        forall|i: int| 0 <= i < r@.len() ==> inputs@[i].has_tables(#[trigger] r@[i]),
        forall|i: int, t: int|
            0 <= i < r@.len() && 0 <= t < r@[i].corners@.len() ==> has_vertices(
                #[trigger] r@[i].corners@[t],
                inputs@[i].vertex_count as int,
            ),
{
    let mut r: Vec<GeometryTables> = Vec::new();
    let mut i: usize = 0;
    while i < inputs.len()
        invariant
            i <= inputs@.len(),
            r@.len() == i,
            forall|i: int| 0 <= i < inputs@.len() ==> (#[trigger] inputs@[i]).usable(),
            forall|j: int| 0 <= j < i ==> inputs@[j].has_tables(#[trigger] r@[j]),
            forall|j: int, t: int|
                0 <= j < i && 0 <= t < r@[j].corners@.len() ==> has_vertices(
                    #[trigger] r@[j].corners@[t],
                    inputs@[j].vertex_count as int,
                ),
        decreases inputs@.len() - i,
    {
        assert(inputs@[i as int].usable());
        let t: GeometryTables = geometry_tables(&inputs[i].indices, &inputs[i].geometries);
        assert(inputs@[i as int].has_tables(t));
        proof {
            lemma_table_inside(
                inputs@[i as int].geometries@,
                inputs@[i as int].indices@,
                inputs@[i as int].vertex_count as int,
            );
        }
        r.push(t);
        i = i + 1;
    }
    r
}

// ---- submissions
// ----------------------------------------------------------------------------------

/// One command of a batch.
#[derive(Clone, Copy, Debug, PartialEq, Eq, Structural)]
pub enum BlasCommand {
    Plain(Command),
    /// The first so many size queries are reset.
    ResetQueries { count: u32 },
    /// Mesh `mesh` of the chunk is built. Builds that stand together are one call.
    Build { mesh: usize, build: BlasBuild },
    /// Query `query` is to answer how small the structure can be made.
    QuerySize { structure: u64, query: u32 },
    /// A structure is copied to where it takes less.
    Compact { src: u64, dst: u64 },
    /// What was recorded is submitted and waited for.
    Submit,
}

/// How often the commands are submitted.
pub open spec fn submissions(commands: Seq<BlasCommand>) -> nat
    decreases commands.len(),
{
    if commands.len() == 0 {
        0
    } else if commands.last() == BlasCommand::Submit {
        submissions(commands.drop_last()) + 1
    } else {
        submissions(commands.drop_last())
    }
}

/// The uploads of a batch: all copies in one submission; nothing for an empty batch.
pub open spec fn upload_plan(meshes: Seq<MeshUpload>) -> Seq<BlasCommand> {
    if meshes.len() == 0 {
        Seq::empty()
    } else {
        all_copies(meshes).map_values(|c: Command| BlasCommand::Plain(c)).push(BlasCommand::Submit)
    }
}

/// The uploads of a batch.
pub fn plan_uploads(meshes: &Vec<MeshUpload>) -> (r: Vec<BlasCommand>)
    requires
        forall|k: int| 0 <= k < meshes@.len() ==> (#[trigger] meshes@[k]).fits(),
    ensures
        r@ == upload_plan(meshes@),
{
    let mut r: Vec<BlasCommand> = Vec::new();
    if meshes.len() == 0 {
        return r;
    }
    let copies: Vec<Command> = upload_commands(meshes);
    let mut i: usize = 0;
    while i < copies.len()
        invariant
            i <= copies@.len(),
            r@ == copies@.take(i as int).map_values(|c: Command| BlasCommand::Plain(c)),
        decreases copies@.len() - i,
    {
        r.push(BlasCommand::Plain(copies[i]));
        i = i + 1;
        assert(r@ =~= copies@.take(i as int).map_values(|c: Command| BlasCommand::Plain(c)));
    }
    assert(copies@.take(i as int) =~= copies@);
    r.push(BlasCommand::Submit);
    r
}

/// The build of mesh `k` of a chunk: in scratch memory whose address is rounded up into the
/// slack that the buffer was made with.
pub open spec fn build_of(
    structures: Seq<AccelerationStructure>,
    scratch: Seq<Buffer>,
    alignment: u64,
    k: int,
) -> BlasCommand {
    BlasCommand::Build {
        mesh: k as usize,
        build: BlasBuild {
            structure: structures[k].handle,
            scratch: aligned(scratch[k].address as int, alignment as int) as u64,
        },
    }
}

/// The sizes are asked for once the builds have landed.
pub open spec fn builds_to_queries() -> Command {
    barrier(
        STAGE_ACCELERATION_STRUCTURE_BUILD,
        ACCESS_ACCELERATION_STRUCTURE_WRITE,
        STAGE_ACCELERATION_STRUCTURE_BUILD,
        ACCESS_ACCELERATION_STRUCTURE_READ,
    )
}

/// The builds of a chunk, mesh after mesh.
pub open spec fn chunk_builds(
    structures: Seq<AccelerationStructure>,
    scratch: Seq<Buffer>,
    alignment: u64,
) -> Seq<BlasCommand> {
    Seq::new(structures.len(), |k: int| build_of(structures, scratch, alignment, k))
}

/// The submission that builds a chunk. Where it is compacted afterwards, the queries are reset
/// first, and the sizes asked for once all meshes are built.
pub open spec fn build_plan(
    structures: Seq<AccelerationStructure>,
    scratch: Seq<Buffer>,
    alignment: u64,
    compact: bool,
) -> Seq<BlasCommand> {
    if compact {
        seq![BlasCommand::ResetQueries { count: structures.len() as u32 }] + chunk_builds(
            structures,
            scratch,
            alignment,
        ) + seq![BlasCommand::Plain(builds_to_queries())] + Seq::new(
            structures.len(),
            |k: int| BlasCommand::QuerySize { structure: structures[k].handle, query: k as u32 },
        ) + seq![BlasCommand::Submit]
    } else {
        chunk_builds(structures, scratch, alignment).push(BlasCommand::Submit)
    }
}

/// The submission that builds a chunk.
pub fn plan_builds(
    structures: &Vec<AccelerationStructure>,
    scratch: &Vec<Buffer>,
    alignment: u64,
    compact: bool,
) -> (r: Vec<BlasCommand>)
    requires
        structures@.len() == scratch@.len(),
        structures@.len() <= u32::MAX,
        alignment > 0,
        forall|k: int|
            0 <= k < scratch@.len() ==> (#[trigger] scratch@[k]).address + alignment - 1
                <= u64::MAX,
    ensures
        r@ == build_plan(structures@, scratch@, alignment, compact),
{
    let builds: Vec<BlasBuild> = build_infos(structures, scratch, alignment);
    let n: usize = structures.len();
    let mut r: Vec<BlasCommand> = Vec::new();
    if compact {
        r.push(BlasCommand::ResetQueries { count: n as u32 });
    }
    let ghost front = r@;
    let mut k: usize = 0;
    assert(r@ =~= front + Seq::new(
        0,
        |k: int| build_of(structures@, scratch@, alignment, k),
    ));
    while k < n
        invariant
            k <= n,
            n == structures@.len(),
            builds@.len() == n,
            forall|j: int|
                0 <= j < n ==> #[trigger] builds@[j] == (BlasBuild {
                    structure: structures@[j].handle,
                    scratch: aligned(scratch@[j].address as int, alignment as int) as u64,
                }),
            r@ == front + Seq::new(
                k as nat,
                |k: int| build_of(structures@, scratch@, alignment, k),
            ),
        decreases n - k,
    {
        r.push(BlasCommand::Build { mesh: k, build: builds[k] });
        k = k + 1;
        assert(r@ =~= front + Seq::new(
            k as nat,
            |k: int| build_of(structures@, scratch@, alignment, k),
        ));
    }
    if !compact {
        r.push(BlasCommand::Submit);
        assert(r@ =~= build_plan(structures@, scratch@, alignment, compact));
        return r;
    }
    r.push(
        BlasCommand::Plain(
            memory_barrier(
                STAGE_ACCELERATION_STRUCTURE_BUILD,
                ACCESS_ACCELERATION_STRUCTURE_WRITE,
                STAGE_ACCELERATION_STRUCTURE_BUILD,
                ACCESS_ACCELERATION_STRUCTURE_READ,
            ),
        ),
    );
    let ghost middle = r@;
    let mut q: usize = 0;
    assert(r@ =~= middle + Seq::new(
        0,
        |k: int| BlasCommand::QuerySize { structure: structures@[k].handle, query: k as u32 },
    ));
    while q < n
        invariant
            q <= n,
            n == structures@.len(),
            n <= u32::MAX,
            r@ == middle + Seq::new(
                q as nat,
                |k: int|
                    BlasCommand::QuerySize { structure: structures@[k].handle, query: k as u32 },
            ),
        decreases n - q,
    {
        r.push(BlasCommand::QuerySize { structure: structures[q].handle, query: q as u32 });
        q = q + 1;
        assert(r@ =~= middle + Seq::new(
            q as nat,
            |k: int| BlasCommand::QuerySize { structure: structures@[k].handle, query: k as u32 },
        ));
    }
    r.push(BlasCommand::Submit);
    assert(r@ =~= build_plan(structures@, scratch@, alignment, compact));
    r
}

/// The submission that compacts: a copy of each structure that shrinks; nothing where none
/// does.
pub open spec fn compact_plan(
    structures: Seq<AccelerationStructure>,
    copies: Seq<Compaction>,
    made: Seq<AccelerationStructure>,
) -> Seq<BlasCommand> {
    if copies.len() == 0 {
        Seq::empty()
    } else {
        Seq::new(
            copies.len(),
            |k: int|
                BlasCommand::Compact {
                    src: structures[copies[k].index as int].handle,
                    dst: made[k].handle,
                },
        ).push(BlasCommand::Submit)
    }
}

/// The submission that compacts.
pub fn plan_compactions(
    structures: &Vec<AccelerationStructure>,
    copies: &Vec<Compaction>,
    made: &Vec<AccelerationStructure>,
) -> (r: Vec<BlasCommand>)
    requires
        copies@.len() == made@.len(),
        forall|j: int|
            0 <= j < copies@.len() ==> (#[trigger] copies@[j]).index < structures@.len(),
    ensures
        r@ == compact_plan(structures@, copies@, made@),
{
    let mut r: Vec<BlasCommand> = Vec::new();
    if copies.len() == 0 {
        return r;
    }
    let mut k: usize = 0;
    while k < copies.len()
        invariant
            k <= copies@.len(),
            copies@.len() == made@.len(),
            forall|j: int|
                0 <= j < copies@.len() ==> (#[trigger] copies@[j]).index < structures@.len(),
            r@ == Seq::new(
                k as nat,
                |k: int|
                    BlasCommand::Compact {
                        src: structures@[copies@[k].index as int].handle,
                        dst: made@[k].handle,
                    },
            ),
        decreases copies@.len() - k,
    {
        assert(copies@[k as int].index < structures@.len());
        r.push(
            BlasCommand::Compact {
                src: structures[copies[k].index].handle,
                dst: made[k].handle,
            },
        );
        k = k + 1;
        assert(r@ =~= Seq::new(
            k as nat,
            |k: int|
                BlasCommand::Compact {
                    src: structures@[copies@[k].index as int].handle,
                    dst: made@[k].handle,
                },
        ));
    }
    r.push(BlasCommand::Submit);
    r
}

// ---- scratch memory
// -------------------------------------------------------------------------------

/// Bytes of the scratch buffer of a build: one alignment more than the build takes.
pub fn scratch_len(build_scratch_size: u64, alignment: u64) -> (r: u64)
    requires
        build_scratch_size + alignment <= u64::MAX,
    ensures
        r == build_scratch_size + alignment,
{
    build_scratch_size + alignment
}

/// A build that starts at the rounded address of its scratch buffer stays inside the buffer.
pub proof fn lemma_scratch_inside(scratch: Buffer, build_scratch_size: u64, alignment: u64)
    requires
        alignment > 0,
        scratch.len == build_scratch_size + alignment,
    ensures
        ({
            let start = aligned(scratch.address as int, alignment as int);
            &&& start % (alignment as int) == 0
            &&& scratch.address <= start
            &&& start + build_scratch_size <= scratch.address + scratch.len
        }),
{
    let s = scratch.address as int;
    let a = alignment as int;
    let t = s + a - 1;
    vstd::arithmetic::div_mod::lemma_fundamental_div_mod(t, a);
    vstd::arithmetic::div_mod::lemma_mod_bound(t, a);
    let q = t / a;
    assert(a * q == q * a) by (nonlinear_arith);
    assert((q * a) % a == 0) by {
        vstd::arithmetic::div_mod::lemma_mod_multiples_basic(q, a);
    }
}

// ---- results
// --------------------------------------------------------------------------------------

/// A mesh between its upload and its build.
#[derive(Debug)]
pub struct BlasStaging {
    pub vertex_buffer: Buffer,
    pub index_buffer: Buffer,
    pub triangle_buffer: Buffer,
    pub geom_to_index: Buffer,
    pub geom_to_triangle: Buffer,
    pub geometries: Vec<GeometryDescr>,
    pub vertex_count: usize,
}

/// The built mesh: its own buffers, and its structure.
pub open spec fn blas_of(s: BlasStaging, structure: AccelerationStructure) -> BLAS {
    BLAS {
        acceleration_structure: structure,
        vertex_buffer: s.vertex_buffer,
        triangle_buffer: s.triangle_buffer,
        index_buffer: s.index_buffer,
        geometry_to_index: s.geom_to_index,
        geometry_to_triangle: s.geom_to_triangle,
        gltf_materials: None,
        gltf_textures: None,
    }
}

fn finish(s: &BlasStaging, structure: AccelerationStructure) -> (r: BLAS)
    ensures
        r == blas_of(*s, structure),
{
    BLAS {
        acceleration_structure: structure,
        vertex_buffer: s.vertex_buffer,
        triangle_buffer: s.triangle_buffer,
        index_buffer: s.index_buffer,
        geometry_to_index: s.geom_to_index,
        geometry_to_triangle: s.geom_to_triangle,
        gltf_materials: None,
        gltf_textures: None,
    }
}

/// The built meshes of a chunk: one for each, of its own buffers and its own structure.
pub fn finish_chunk(
    chunk: &Vec<BlasStaging>,
    structures: &Vec<AccelerationStructure>,
) -> (r: Vec<BLAS>)
    requires
        chunk@.len() == structures@.len(),
    ensures
        r@.len() == chunk@.len(),
        forall|i: int|
            0 <= i < r@.len() ==> (#[trigger] r@[i]).acceleration_structure == structures@[i]
                && r@[i].vertex_buffer == chunk@[i].vertex_buffer && r@[i].index_buffer
                == chunk@[i].index_buffer && r@[i].triangle_buffer == chunk@[i].triangle_buffer
                && r@[i].geometry_to_index == chunk@[i].geom_to_index
                && r@[i].geometry_to_triangle == chunk@[i].geom_to_triangle
                && r@[i].gltf_materials is None && r@[i].gltf_textures is None,
{
    let mut r: Vec<BLAS> = Vec::new();
    let mut i: usize = 0;
    while i < chunk.len()
        invariant
            i <= chunk@.len(),
            chunk@.len() == structures@.len(),
            r@.len() == i,
            forall|j: int| 0 <= j < i ==> #[trigger] r@[j] == blas_of(chunk@[j], structures@[j]),
        decreases chunk@.len() - i,
    {
        r.push(finish(&chunk[i], structures[i]));
        i = i + 1;
    }
    r
}

/// Where chunk `k` starts.
pub open spec fn start_of(ends: Seq<usize>, k: int) -> int {
    if k == 0 {
        0
    } else {
        ends[k - 1] as int
    }
}

/// The ends cut `n` meshes into chunks, none of them empty.
pub open spec fn cuts(ends: Seq<usize>, n: int) -> bool {
    &&& forall|k: int| 0 <= k < ends.len() ==> start_of(ends, k) < #[trigger] ends[k]
    &&& start_of(ends, ends.len() as int) == n
}

/// Chunks bounded by scratch memory, put end to end, are the meshes in order: each starts where
/// the one before it ends, and the last ends with the last mesh.
pub proof fn lemma_chunks_cut(estimates: Seq<u64>, alignment: u64, ends: Seq<usize>)
    requires
        are_chunk_ends(estimates, alignment, ends),
    ensures
        cuts(ends, estimates.len() as int),
{
    assert forall|k: int| 0 <= k < ends.len() implies start_of(ends, k) < #[trigger] ends[k] by {
        let from = chunk_start(estimates, alignment, k as nat);
        if k > 0 {
            assert(ends[k - 1] == chunk_start(estimates, alignment, k as nat));
            assert(ends[k - 1] < estimates.len());
        }
        assert(from == start_of(ends, k));
        assert(chunk_start(estimates, alignment, (k + 1) as nat) == chunk_end(
            estimates,
            alignment,
            from,
            from + 1,
        ));
        lemma_chunk_end(estimates, alignment, from, from + 1);
    }
}

/// The structures of the first `n` chunks, one chunk after the other.
pub open spec fn joined(built: Seq<Vec<AccelerationStructure>>, n: nat) -> Seq<
    AccelerationStructure,
>
    decreases n,
{
    if n == 0 {
        Seq::empty()
    } else {
        joined(built, (n - 1) as nat) + built[n - 1]@
    }
}

/// Chunk by chunk, each mesh has a structure.
pub open spec fn chunks_built(ends: Seq<usize>, built: Seq<Vec<AccelerationStructure>>) -> bool {
    &&& built.len() == ends.len()
    &&& forall|k: int|
        0 <= k < ends.len() ==> (#[trigger] built[k])@.len() == ends[k] - start_of(ends, k)
}

/// The built meshes of a batch whose chunks end at `ends`: one for each mesh, in order, of the
/// mesh's own buffers and of the structure that was built for it. An empty batch has none.
pub fn build_blas_batch(
    staging: &Vec<BlasStaging>,
    ends: &Vec<usize>,
    built: &Vec<Vec<AccelerationStructure>>,
) -> (r: Vec<BLAS>)
    requires
        cuts(ends@, staging@.len() as int),
        chunks_built(ends@, built@),
    ensures
        joined(built@, built@.len()).len() == staging@.len(),
        r@.len() == staging@.len(),
        forall|i: int|
            0 <= i < r@.len() ==> #[trigger] r@[i] == blas_of(
                staging@[i],
                joined(built@, built@.len())[i],
            ),
{
    let mut r: Vec<BLAS> = Vec::new();
    let mut k: usize = 0;
    let mut from: usize = 0;
    while k < ends.len()
        invariant
            k <= ends@.len(),
            cuts(ends@, staging@.len() as int),
            chunks_built(ends@, built@),
            from == start_of(ends@, k as int),
            from <= staging@.len(),
            joined(built@, k as nat).len() == from,
            r@.len() == from,
            forall|i: int|
                0 <= i < r@.len() ==> #[trigger] r@[i] == blas_of(
                    staging@[i],
                    joined(built@, k as nat)[i],
                ),
        decreases ends@.len() - k,
    {
        let to: usize = ends[k];
        proof {
            lemma_ends_within(ends@, staging@.len() as int, k as int);
            assert(built@[k as int]@.len() == ends@[k as int] - start_of(ends@, k as int));
        }
        let ghost next = joined(built@, (k + 1) as nat);
        let mut i: usize = from;
        while i < to
            invariant
                k < ends@.len(),
                k < built@.len(),
                from <= i <= to <= staging@.len(),
                built@[k as int]@.len() == to - from,
                next == joined(built@, k as nat) + built@[k as int]@,
                joined(built@, k as nat).len() == from,
                r@.len() == i,
                forall|j: int| 0 <= j < i ==> #[trigger] r@[j] == blas_of(staging@[j], next[j]),
            decreases to - i,
        {
            assert(next[i as int] == built@[k as int]@[i - from]);
            r.push(finish(&staging[i], built[k][i - from]));
            i = i + 1;
        }
        from = to;
        k = k + 1;
    }
    r
}

/// No chunk ends behind the last mesh.
proof fn lemma_ends_within(ends: Seq<usize>, n: int, k: int)
    requires
        cuts(ends, n),
        0 <= k < ends.len(),
    ensures
        ends[k] <= n,
    decreases ends.len() - k,
{
    if k < ends.len() - 1 {
        lemma_ends_within(ends, n, k + 1);
        assert(start_of(ends, k + 1) < ends[k + 1]);
    }
}

// ---- how often a batch is submitted
// ---------------------------------------------------------------

/// What the device answers for one chunk.
pub ghost struct ChunkAnswers {
    pub structures: Seq<AccelerationStructure>,
    pub scratch: Seq<Buffer>,
    pub full: Seq<u64>,
    pub compacted: Seq<u64>,
    pub made: Seq<AccelerationStructure>,
}

/// The commands of one chunk.
pub open spec fn chunk_plan(c: ChunkAnswers, alignment: u64, compact: bool) -> Seq<BlasCommand> {
    if compact {
        build_plan(c.structures, c.scratch, alignment, true) + compact_plan(
            c.structures,
            shrinking(c.compacted, c.full, c.compacted.len()),
            c.made,
        )
    } else {
        build_plan(c.structures, c.scratch, alignment, false)
    }
}

/// The commands of a batch: the uploads, then chunk after chunk.
pub open spec fn batch_plan(
    meshes: Seq<MeshUpload>,
    chunks: Seq<ChunkAnswers>,
    alignment: u64,
    compact: bool,
) -> Seq<BlasCommand>
    decreases chunks.len(),
{
    if chunks.len() == 0 {
        upload_plan(meshes)
    } else {
        batch_plan(meshes, chunks.drop_last(), alignment, compact) + chunk_plan(
            chunks.last(),
            alignment,
            compact,
        )
    }
}

proof fn lemma_submissions_join(a: Seq<BlasCommand>, b: Seq<BlasCommand>)
    ensures
        submissions(a + b) == submissions(a) + submissions(b),
    decreases b.len(),
{
    if b.len() == 0 {
        assert(a + b =~= a);
    } else {
        assert((a + b).drop_last() =~= a + b.drop_last());
        lemma_submissions_join(a, b.drop_last());
    }
}

proof fn lemma_no_submission(a: Seq<BlasCommand>)
    requires
        forall|i: int| 0 <= i < a.len() ==> #[trigger] a[i] != BlasCommand::Submit,
    ensures
        submissions(a) == 0,
    decreases a.len(),
{
    if a.len() > 0 {
        assert(a[a.len() - 1] != BlasCommand::Submit);
        assert forall|i: int| 0 <= i < a.drop_last().len() implies #[trigger] a.drop_last()[i]
            != BlasCommand::Submit by {
            assert(a.drop_last()[i] == a[i]);
        }
        lemma_no_submission(a.drop_last());
    }
}

/// Commands that end with their only submission are submitted once.
proof fn lemma_one_submission(a: Seq<BlasCommand>)
    requires
        a.len() > 0,
        a.last() == BlasCommand::Submit,
        forall|i: int| 0 <= i < a.len() - 1 ==> #[trigger] a[i] != BlasCommand::Submit,
    ensures
        submissions(a) == 1,
{
    assert forall|i: int| 0 <= i < a.drop_last().len() implies #[trigger] a.drop_last()[i]
        != BlasCommand::Submit by {
        assert(a.drop_last()[i] == a[i]);
    }
    lemma_no_submission(a.drop_last());
}

proof fn lemma_chunk_submissions(c: ChunkAnswers, alignment: u64, compact: bool)
    ensures
        1 <= submissions(chunk_plan(c, alignment, compact)) <= 2,
        !compact ==> submissions(chunk_plan(c, alignment, compact)) == 1,
{
    lemma_one_submission(build_plan(c.structures, c.scratch, alignment, false));
    let builds = build_plan(c.structures, c.scratch, alignment, true);
    let copies = shrinking(c.compacted, c.full, c.compacted.len());
    let copied = compact_plan(c.structures, copies, c.made);
    lemma_one_submission(builds);
    if copies.len() > 0 {
        lemma_one_submission(copied);
    } else {
        lemma_no_submission(copied);
    }
    lemma_submissions_join(builds, copied);
}

/// A batch is submitted once for its uploads and at most twice for each chunk: a batch whose
/// scratch memory fits one chunk takes three submissions at most, however many meshes it has.
/// Without compaction each chunk takes one. An empty batch is not submitted.
pub proof fn lemma_few_submissions(
    meshes: Seq<MeshUpload>,
    chunks: Seq<ChunkAnswers>,
    alignment: u64,
    compact: bool,
)
    ensures
        submissions(batch_plan(meshes, chunks, alignment, compact)) <= 1 + 2 * chunks.len(),
        !compact ==> submissions(batch_plan(meshes, chunks, alignment, compact)) <= 1
            + chunks.len(),
        chunks.len() == 1 ==> submissions(batch_plan(meshes, chunks, alignment, compact)) <= 3,
        meshes.len() == 0 && chunks.len() == 0 ==> submissions(
            batch_plan(meshes, chunks, alignment, compact),
        ) == 0,
    decreases chunks.len(),
{
    if chunks.len() == 0 {
        let plan = upload_plan(meshes);
        if meshes.len() > 0 {
            lemma_one_submission(plan);
        } else {
            lemma_no_submission(plan);
        }
    } else {
        let front = batch_plan(meshes, chunks.drop_last(), alignment, compact);
        lemma_few_submissions(meshes, chunks.drop_last(), alignment, compact);
        lemma_chunk_submissions(chunks.last(), alignment, compact);
        lemma_submissions_join(front, chunk_plan(chunks.last(), alignment, compact));
    }
}

/// A chunk's submission builds every mesh once, into its own structure, in scratch memory that
/// starts at a multiple of the alignment inside the mesh's own buffer; where sizes are asked for,
/// the queries were reset, and query `k` asks for structure `k` behind a barrier that waits for
/// all builds. The submission comes last.
pub proof fn lemma_builds_every_mesh(
    structures: Seq<AccelerationStructure>,
    scratch: Seq<Buffer>,
    alignment: u64,
    compact: bool,
    k: int,
)
    requires
        structures.len() == scratch.len(),
        structures.len() <= u32::MAX,
        alignment > 0,
        0 <= k < structures.len(),
        scratch[k].address + alignment - 1 <= u64::MAX,
    ensures
        ({
            let c = build_plan(structures, scratch, alignment, compact);
            let n = structures.len() as int;
            let from: int = if compact {
                1
            } else {
                0
            };
            &&& c.len() == if compact {
                2 * n + 3
            } else {
                n + 1
            }
            &&& c[from + k] matches BlasCommand::Build { mesh, build } && {
                &&& mesh == k
                &&& build.structure == structures[k].handle
                &&& build.scratch as int % alignment as int == 0
                &&& scratch[k].address <= build.scratch < scratch[k].address + alignment
            }
            &&& compact ==> c[0] == (BlasCommand::ResetQueries { count: n as u32 })
            &&& compact ==> (c[n + 1] matches BlasCommand::Plain(Command::Barrier(b)) && orders(
                b,
                STAGE_ACCELERATION_STRUCTURE_BUILD,
                ACCESS_ACCELERATION_STRUCTURE_WRITE,
                STAGE_ACCELERATION_STRUCTURE_BUILD,
                ACCESS_ACCELERATION_STRUCTURE_READ,
            ))
            &&& compact ==> (c[n + 2 + k] matches BlasCommand::QuerySize { structure, query }
                && structure == structures[k].handle && query == k)
            &&& c.last() == BlasCommand::Submit
        }),
{
    lemma_aligned(scratch[k].address as int, alignment as int);
    lemma_includes(STAGE_ACCELERATION_STRUCTURE_BUILD, STAGE_ACCELERATION_STRUCTURE_BUILD);
    lemma_includes(ACCESS_ACCELERATION_STRUCTURE_WRITE, ACCESS_ACCELERATION_STRUCTURE_READ);
    lemma_includes(ACCESS_ACCELERATION_STRUCTURE_READ, ACCESS_ACCELERATION_STRUCTURE_READ);
    let c = build_plan(structures, scratch, alignment, compact);
    let n = structures.len() as int;
    if compact {
        assert(c[1 + k] == chunk_builds(structures, scratch, alignment)[k]);
        assert(c[n + 1] == BlasCommand::Plain(builds_to_queries()));
    } else {
        assert(c[k] == chunk_builds(structures, scratch, alignment)[k]);
    }
}

/// Compaction copies each structure that shrinks to the one that was made for it, and submits.
pub proof fn lemma_compacts_its_own(
    structures: Seq<AccelerationStructure>,
    copies: Seq<Compaction>,
    made: Seq<AccelerationStructure>,
    k: int,
)
    requires
        copies.len() == made.len(),
        0 <= k < copies.len(),
        copies[k].index < structures.len(),
    ensures
        ({
            let c = compact_plan(structures, copies, made);
            &&& c.len() == copies.len() + 1
            &&& c[k] matches BlasCommand::Compact { src, dst } && src
                == structures[copies[k].index as int].handle && dst == made[k].handle
            &&& c.last() == BlasCommand::Submit
        }),
{
}

} // verus!
