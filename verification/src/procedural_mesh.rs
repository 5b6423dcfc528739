//! Meshes whose vertices a kernel of the application's own writes: what may be extracted, and
//! the one submission that fills and packs a whole batch.

use crate::blas::GeometryDescr;
use crate::commands::{
    Buffer, Command, Kernel, PackParams, Params, ACCESS_ACCELERATION_STRUCTURE_READ,
    ACCESS_SHADER_READ, ACCESS_SHADER_WRITE, ACCESS_TRANSFER_WRITE,
    STAGE_ACCELERATION_STRUCTURE_BUILD, STAGE_COMPUTE_SHADER, STAGE_RAY_TRACING_SHADER,
    STAGE_TRANSFER,
};
use crate::compute::{
    barrier, lemma_includes, memory_barrier, orders, COMPUTE_PUSH_CONSTANT_SIZE,
};
use crate::wire::{le32, le64, lemma_word32_of_le32, lemma_word64_of_le64, put_u32, put_u64};
use vstd::prelude::*;

verus! {

/// Bytes of the header that every fill kernel's push constants begin with.
pub const PROCEDURAL_HEADER_BYTES: usize = 16;

/// Where the header carries the first thread index.
pub const PROCEDURAL_BASE_OFFSET: usize = 12;

/// Bytes of parameters that a mesh may carry behind the header.
pub const PROCEDURAL_PARAMS_MAX: usize = 112;

/// The head of every fill kernel's push constants.
#[derive(Clone, Copy, Debug, PartialEq, Eq, Structural)]
pub struct ProceduralHeader {
    pub vertices: u64,
    pub vertex_count: u32,
    pub base: u32,
}

impl ProceduralHeader {
    /// The head as the kernel reads it.
    pub open spec fn layout(self) -> Seq<u8> {
        le64(self.vertices) + le32(self.vertex_count) + le32(self.base)
    }
}

/// Why a mesh is skipped.
#[derive(Clone, Copy, Debug, PartialEq, Eq, Structural)]
pub enum ProceduralSkip {
    /// Its fill module is not compiled yet.
    FillModule,
    /// Its fill module has no such entry point.
    EntryPoint,
    /// The pack kernel is not compiled yet.
    PackModule,
}

/// Whether a mesh may be created: both the pack kernel and the fill module are compiled.
pub fn ready(pack_ready: bool, fill_ready: bool) -> (r: bool)
    ensures
        r == (pack_ready && fill_ready),
{
    pack_ready && fill_ready
}

/// A mesh's parameters and indices are as they must be: the parameters fit behind the header,
/// and the indices are whole triangles.
pub open spec fn acceptable(params_len: nat, index_count: nat) -> bool {
    params_len <= PROCEDURAL_PARAMS_MAX && index_count % 3 == 0
}

/// Whether a mesh's parameters fit behind the header and its indices are whole triangles.
pub fn is_acceptable(params_len: usize, index_count: usize) -> (r: bool)
    ensures
        r == acceptable(params_len as nat, index_count as nat),
{
    params_len <= PROCEDURAL_PARAMS_MAX && index_count % 3 == 0
}

/// Whether a mesh is extracted, and else why not.
pub fn extract(fill_ready: bool, entry_known: bool, pack_ready: bool) -> (r: Result<
    (),
    ProceduralSkip,
>)
    ensures
        r == (if !fill_ready {
            Err(ProceduralSkip::FillModule)
        } else if !entry_known {
            Err(ProceduralSkip::EntryPoint)
        } else if !pack_ready {
            Err(ProceduralSkip::PackModule)
        } else {
            Ok(())
        }),
{
    if !fill_ready {
        return Err(ProceduralSkip::FillModule);
    }
    if !entry_known {
        return Err(ProceduralSkip::EntryPoint);
    }
    if !pack_ready {
        return Err(ProceduralSkip::PackModule);
    }
    Ok(())
}

/// Zeros up to the size of the push constants.
pub open spec fn zeros(n: int) -> Seq<u8> {
    Seq::new(n as nat, |i: int| 0u8)
}

/// A fill kernel's push constants: header, parameters, zeros.
pub open spec fn fill_block(header: ProceduralHeader, params: Seq<u8>) -> Seq<u8> {
    header.layout() + params + zeros(
        COMPUTE_PUSH_CONSTANT_SIZE - PROCEDURAL_HEADER_BYTES - params.len(),
    )
}

/// Lays out a fill kernel's push constants.
pub fn fill_push(header: ProceduralHeader, params: &Vec<u8>) -> (r: Vec<u8>)
    requires
        params@.len() <= PROCEDURAL_PARAMS_MAX,
    ensures
        r@ == fill_block(header, params@),
        r@.len() == COMPUTE_PUSH_CONSTANT_SIZE,
        r@.subrange(PROCEDURAL_BASE_OFFSET as int, PROCEDURAL_BASE_OFFSET + 4) == le32(header.base),
{
    broadcast use {lemma_word32_of_le32, lemma_word64_of_le64};

    let mut r: Vec<u8> = Vec::new();
    put_u64(&mut r, header.vertices);
    put_u32(&mut r, header.vertex_count);
    put_u32(&mut r, header.base);
    r.extend_from_slice(params.as_slice());
    let ghost start = r@;
    assert(start =~= header.layout() + params@);
    assert(r@ =~= start + zeros(0));
    while r.len() < COMPUTE_PUSH_CONSTANT_SIZE as usize
        invariant
            start.len() <= r@.len() <= COMPUTE_PUSH_CONSTANT_SIZE,
            r@ == start + zeros(r@.len() - start.len()),
        decreases COMPUTE_PUSH_CONSTANT_SIZE - r@.len(),
    {
        r.push(0);
        assert(r@ =~= start + zeros(r@.len() - start.len()));
    }
    assert(r@ =~= fill_block(header, params@));
    assert(r@.subrange(12, 16) =~= le32(header.base));
    r
}

/// A mesh on the device, between its buffers' creation and the build.
#[derive(Clone, Copy, Debug, PartialEq, Eq, Structural)]
pub struct StagedMesh {
    pub vertex_count: u32,
    pub index_count: u32,
    pub index_host: Buffer,
    pub vertex_buffer: Buffer,
    pub index_buffer: Buffer,
    pub triangle_buffer: Buffer,
    pub geometry_to_index: Buffer,
    pub geometry_to_triangle: Buffer,
}

/// The lengths of a mesh's device buffers, in elements.
#[derive(Clone, Copy, Debug, PartialEq, Eq, Structural)]
pub struct StagedLengths {
    pub vertices: u64,
    pub indices: u64,
    pub triangles: u64,
    pub geometries: u64,
}

/// The lengths of the device buffers of a mesh.
pub fn staged_lengths(vertex_count: u32, index_count: u32) -> (r: StagedLengths)
    ensures
        r == (StagedLengths {
            vertices: vertex_count as u64,
            indices: index_count as u64,
            triangles: (index_count / 3) as u64,
            geometries: 1,
        }),
{
    StagedLengths {
        vertices: vertex_count as u64,
        indices: index_count as u64,
        triangles: (index_count / 3) as u64,
        geometries: 1,
    }
}

/// One step of the submission that fills and packs a batch.
#[derive(Clone, Copy, Debug, PartialEq, Eq, Structural)]
pub enum FillCommand {
    /// A command of the engine's own.
    Plain(Command),
    /// The fill kernel of mesh `mesh`, one thread for each of `threads`.
    Fill { mesh: usize, threads: u32 },
}

impl StagedMesh {
    /// The header of the mesh's fill kernel.
    pub open spec fn header(self) -> ProceduralHeader {
        ProceduralHeader {
            vertices: self.vertex_buffer.address,
            vertex_count: self.vertex_count,
            base: 0,
        }
    }

    /// The header of the mesh's fill kernel.
    pub fn fill_header(&self) -> (r: ProceduralHeader)
        ensures
            r == self.header(),
    {
        ProceduralHeader {
            vertices: self.vertex_buffer.address,
            vertex_count: self.vertex_count,
            base: 0,
        }
    }

    /// The one geometry that the mesh is.
    pub fn geometry(&self) -> (r: GeometryDescr)
        requires
            self.vertex_count <= usize::MAX,
            self.index_count <= usize::MAX,
        ensures
            r == (GeometryDescr {
                first_vertex: 0,
                vertex_count: self.vertex_count as usize,
                first_index: 0,
                index_count: self.index_count as usize,
            }),
    {
        GeometryDescr {
            first_vertex: 0,
            vertex_count: self.vertex_count as usize,
            first_index: 0,
            index_count: self.index_count as usize,
        }
    }

    /// The mesh's indices are uploaded; its only geometry starts with its first index and
    /// triangle.
    pub open spec fn upload_commands(self) -> Seq<FillCommand> {
        seq![
            FillCommand::Plain(
                Command::Copy {
                    src: self.index_host.handle,
                    dst: self.index_buffer.handle,
                    size: (self.index_count * 4) as u64,
                },
            ),
            FillCommand::Plain(Command::WriteZero { buffer: self.geometry_to_index.handle }),
            FillCommand::Plain(Command::WriteZero { buffer: self.geometry_to_triangle.handle }),
        ]
    }

    /// The mesh's shading records are derived.
    pub open spec fn pack_command(self) -> FillCommand {
        FillCommand::Plain(
            Command::Dispatch {
                kernel: Kernel::PackTriangles,
                params: Params::Pack(
                    PackParams {
                        vertices: self.vertex_buffer.address,
                        indices: self.index_buffer.address,
                        triangles: self.triangle_buffer.address,
                        count: self.index_count / 3,
                        base: 0,
                    },
                ),
                threads: self.index_count / 3,
            },
        )
    }
}

/// The uploads of all meshes.
pub open spec fn batch_uploads(meshes: Seq<StagedMesh>) -> Seq<FillCommand>
    decreases meshes.len(),
{
    if meshes.len() == 0 {
        Seq::empty()
    } else {
        batch_uploads(meshes.drop_last()) + meshes.last().upload_commands()
    }
}

/// The fills of all meshes.
pub open spec fn batch_fills(meshes: Seq<StagedMesh>) -> Seq<FillCommand> {
    Seq::new(
        meshes.len(),
        |i: int| FillCommand::Fill { mesh: i as usize, threads: meshes[i].vertex_count },
    )
}

/// The packs of all meshes.
pub open spec fn batch_packs(meshes: Seq<StagedMesh>) -> Seq<FillCommand> {
    meshes.map_values(|m: StagedMesh| m.pack_command())
}

/// The whole submission: every upload, every fill, every pack, each visible to the next, and
/// at last to builds and rays.
pub open spec fn batch_commands(meshes: Seq<StagedMesh>) -> Seq<FillCommand> {
    batch_uploads(meshes).push(
        FillCommand::Plain(
            barrier(
                STAGE_TRANSFER,
                ACCESS_TRANSFER_WRITE,
                STAGE_COMPUTE_SHADER,
                ACCESS_SHADER_READ,
            ),
        ),
    ) + batch_fills(meshes).push(
        FillCommand::Plain(
            barrier(
                STAGE_COMPUTE_SHADER,
                ACCESS_SHADER_WRITE,
                STAGE_COMPUTE_SHADER,
                ACCESS_SHADER_READ,
            ),
        ),
    ) + batch_packs(meshes).push(
        FillCommand::Plain(
            barrier(
                STAGE_COMPUTE_SHADER,
                ACCESS_SHADER_WRITE,
                STAGE_ACCELERATION_STRUCTURE_BUILD | STAGE_RAY_TRACING_SHADER,
                ACCESS_ACCELERATION_STRUCTURE_READ | ACCESS_SHADER_READ,
            ),
        ),
    )
}

/// The one submission that fills and packs a batch.
pub fn prepare_batch(meshes: &Vec<StagedMesh>) -> (r: Vec<FillCommand>)
    ensures
        r@ == batch_commands(meshes@),
{
    let mut r: Vec<FillCommand> = Vec::new();
    let mut i: usize = 0;
    while i < meshes.len()
        invariant
            i <= meshes@.len(),
            r@ == batch_uploads(meshes@.take(i as int)),
        decreases meshes@.len() - i,
    {
        let m: StagedMesh = meshes[i];
        let ghost before = r@;
        r.push(
            FillCommand::Plain(
                Command::Copy {
                    src: m.index_host.handle,
                    dst: m.index_buffer.handle,
                    size: m.index_count as u64 * 4,
                },
            ),
        );
        r.push(FillCommand::Plain(Command::WriteZero { buffer: m.geometry_to_index.handle }));
        r.push(FillCommand::Plain(Command::WriteZero { buffer: m.geometry_to_triangle.handle }));
        proof {
            assert(r@ =~= before + m.upload_commands());
            assert(meshes@.take(i + 1).drop_last() =~= meshes@.take(i as int));
            assert(meshes@.take(i + 1).last() == m);
        }
        i = i + 1;
    }
    assert(meshes@.take(i as int) =~= meshes@);
    r.push(
        FillCommand::Plain(
            memory_barrier(
                STAGE_TRANSFER,
                ACCESS_TRANSFER_WRITE,
                STAGE_COMPUTE_SHADER,
                ACCESS_SHADER_READ,
            ),
        ),
    );
    let ghost uploaded = r@;
    i = 0;
    assert(r@ =~= uploaded + batch_fills(meshes@).take(0));
    while i < meshes.len()
        invariant
            i <= meshes@.len(),
            r@ == uploaded + batch_fills(meshes@).take(i as int),
        decreases meshes@.len() - i,
    {
        r.push(FillCommand::Fill { mesh: i, threads: meshes[i].vertex_count });
        assert(r@ =~= uploaded + batch_fills(meshes@).take(i + 1));
        i = i + 1;
    }
    assert(batch_fills(meshes@).take(i as int) =~= batch_fills(meshes@));
    r.push(
        FillCommand::Plain(
            memory_barrier(
                STAGE_COMPUTE_SHADER,
                ACCESS_SHADER_WRITE,
                STAGE_COMPUTE_SHADER,
                ACCESS_SHADER_READ,
            ),
        ),
    );
    let ghost filled = r@;
    i = 0;
    assert(r@ =~= filled + batch_packs(meshes@).take(0));
    while i < meshes.len()
        invariant
            i <= meshes@.len(),
            r@ == filled + batch_packs(meshes@).take(i as int),
        decreases meshes@.len() - i,
    {
        let m: StagedMesh = meshes[i];
        r.push(
            FillCommand::Plain(
                Command::Dispatch {
                    kernel: Kernel::PackTriangles,
                    params: Params::Pack(
                        PackParams {
                            vertices: m.vertex_buffer.address,
                            indices: m.index_buffer.address,
                            triangles: m.triangle_buffer.address,
                            count: m.index_count / 3,
                            base: 0,
                        },
                    ),
                    threads: m.index_count / 3,
                },
            ),
        );
        assert(r@ =~= filled + batch_packs(meshes@).take(i + 1));
        i = i + 1;
    }
    assert(batch_packs(meshes@).take(i as int) =~= batch_packs(meshes@));
    r.push(
        FillCommand::Plain(
            memory_barrier(
                STAGE_COMPUTE_SHADER,
                ACCESS_SHADER_WRITE,
                STAGE_ACCELERATION_STRUCTURE_BUILD | STAGE_RAY_TRACING_SHADER,
                ACCESS_ACCELERATION_STRUCTURE_READ | ACCESS_SHADER_READ,
            ),
        ),
    );
    assert(r@ =~= batch_commands(meshes@));
    r
}

proof fn lemma_uploads_at(meshes: Seq<StagedMesh>, i: int)
    requires
        0 <= i < meshes.len(),
    ensures
        batch_uploads(meshes).len() == 3 * meshes.len(),
        batch_uploads(meshes)[3 * i] == meshes[i].upload_commands()[0],
        batch_uploads(meshes)[3 * i + 1] == meshes[i].upload_commands()[1],
        batch_uploads(meshes)[3 * i + 2] == meshes[i].upload_commands()[2],
    decreases meshes.len(),
{
    let front = meshes.drop_last();
    let last = meshes.len() - 1;
    assert(meshes[last] == meshes.last());
    if front.len() > 0 {
        lemma_uploads_at(
            front,
            if i < last {
                i
            } else {
                0
            },
        );
    }
    if i < last {
        assert(front[i] == meshes[i]);
    }
    let a = batch_uploads(front);
    let b = meshes.last().upload_commands();
    assert(front.len() == 0 ==> a.len() == 0);
    assert(batch_uploads(meshes) =~= a + b);
    if i == last {
        assert((a + b)[a.len() as int + 0] == b[0]);
        assert((a + b)[a.len() as int + 1] == b[1]);
        assert((a + b)[a.len() as int + 2] == b[2]);
    }
}

/// The barrier, among commands of a batch.
pub open spec fn batch_orders(
    c: Seq<FillCommand>,
    i: int,
    stage: u64,
    access: u64,
    later: u64,
    later_access: u64,
) -> bool {
    0 <= i < c.len() && (c[i] matches FillCommand::Plain(Command::Barrier(b)) && orders(
        b,
        stage,
        access,
        later,
        later_access,
    ))
}

/// Every mesh of a batch has its indices copied whole and its geometry tables zeroed; its fill
/// kernel, one thread for each vertex, writes the vertices that its triangles are packed from,
/// with those indices; and the three come one behind the other, each behind a barrier, and builds
/// and rays behind the last.
pub proof fn lemma_batch_prepares(meshes: Seq<StagedMesh>, i: int)
    requires
        0 <= i < meshes.len(),
        meshes.len() <= usize::MAX,
    ensures
        ({
            let c = batch_commands(meshes);
            let n = meshes.len() as int;
            let m = meshes[i];
            &&& c.len() == 5 * n + 3
            &&& c[3 * i] == FillCommand::Plain(
                Command::Copy {
                    src: m.index_host.handle,
                    dst: m.index_buffer.handle,
                    size: (m.index_count * 4) as u64,
                },
            )
            &&& c[3 * i + 1] == FillCommand::Plain(
                Command::WriteZero { buffer: m.geometry_to_index.handle },
            )
            &&& c[3 * i + 2] == FillCommand::Plain(
                Command::WriteZero { buffer: m.geometry_to_triangle.handle },
            )
            &&& batch_orders(
                c,
                3 * n,
                STAGE_TRANSFER,
                ACCESS_TRANSFER_WRITE,
                STAGE_COMPUTE_SHADER,
                ACCESS_SHADER_READ,
            )
            &&& c[3 * n + 1 + i] matches FillCommand::Fill { mesh, threads } && mesh == i && threads
                == m.vertex_count && m.header().vertex_count == threads && m.header().base == 0
            &&& batch_orders(
                c,
                4 * n + 1,
                STAGE_COMPUTE_SHADER,
                ACCESS_SHADER_WRITE,
                STAGE_COMPUTE_SHADER,
                ACCESS_SHADER_READ,
            )
            &&& c[4 * n + 2 + i] matches FillCommand::Plain(
                Command::Dispatch { kernel, params: Params::Pack(p), threads },
            ) && {
                &&& kernel == Kernel::PackTriangles
                &&& p.vertices == m.header().vertices
                &&& p.vertices == m.vertex_buffer.address
                &&& p.indices == m.index_buffer.address
                &&& p.triangles == m.triangle_buffer.address
                &&& p.base == 0
                &&& p.count == threads
                &&& 3 * threads <= m.index_count < 3 * threads + 3
            }
            &&& batch_orders(
                c,
                5 * n + 2,
                STAGE_COMPUTE_SHADER,
                ACCESS_SHADER_WRITE,
                STAGE_ACCELERATION_STRUCTURE_BUILD,
                ACCESS_ACCELERATION_STRUCTURE_READ,
            )
            &&& batch_orders(
                c,
                5 * n + 2,
                STAGE_COMPUTE_SHADER,
                ACCESS_SHADER_WRITE,
                STAGE_RAY_TRACING_SHADER,
                ACCESS_SHADER_READ,
            )
        }),
{
    lemma_includes(STAGE_TRANSFER, STAGE_TRANSFER);
    lemma_includes(ACCESS_TRANSFER_WRITE, ACCESS_TRANSFER_WRITE);
    lemma_includes(STAGE_COMPUTE_SHADER, STAGE_COMPUTE_SHADER);
    lemma_includes(ACCESS_SHADER_READ, ACCESS_SHADER_WRITE);
    lemma_includes(ACCESS_SHADER_WRITE, ACCESS_SHADER_READ);
    lemma_includes(STAGE_ACCELERATION_STRUCTURE_BUILD, STAGE_RAY_TRACING_SHADER);
    lemma_includes(ACCESS_ACCELERATION_STRUCTURE_READ, ACCESS_SHADER_READ);
    lemma_uploads_at(meshes, i);
    let c = batch_commands(meshes);
    let n = meshes.len() as int;
    let a = batch_uploads(meshes);
    assert(c[3 * i] == a[3 * i]);
    assert(c[3 * i + 1] == a[3 * i + 1]);
    assert(c[3 * i + 2] == a[3 * i + 2]);
    assert(c[3 * n + 1 + i] == batch_fills(meshes)[i]);
    assert(c[4 * n + 2 + i] == batch_packs(meshes)[i]);
}

} // verus!
