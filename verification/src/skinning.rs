//! Skeletal animation: skinned instances, their life on the device, and the commands that
//! deform them each frame.
//!
//! A skinned instance is rendered through a deformed copy of its mesh. Every frame its rest
//! pose is skinned into one half of a vertex ping-pong, its shading records are rebuilt, and
//! its own acceleration structure is refit (rebuilt every [`REBUILD_INTERVAL`] builds). The
//! instance's slot is then pointed at that structure.

use crate::commands::{
    Buffer, Command, Kernel, PackParams, Params, SkinParams, ACCESS_ACCELERATION_STRUCTURE_READ,
    ACCESS_ACCELERATION_STRUCTURE_WRITE, ACCESS_INDIRECT_COMMAND_READ, ACCESS_SHADER_READ,
    ACCESS_SHADER_WRITE, ACCESS_TRANSFER_WRITE, STAGE_ACCELERATION_STRUCTURE_BUILD,
    STAGE_COMPUTE_SHADER, STAGE_DRAW_INDIRECT, STAGE_RAY_TRACING_SHADER, STAGE_TRANSFER,
};
use crate::compute::{
    barrier, compute_to_compute, compute_to_compute_barrier, includes, lemma_includes,
    memory_barrier, ordered, orders,
};
use crate::gpu_transform::NO_NODE;
use crate::math::{aligned, aligned_size, lemma_aligned};
use crate::render_device::Doomed;
use vstd::prelude::*;

verus! {

/// Builds between full rebuilds of a skinned instance's structure; refits in between.
pub const REBUILD_INTERVAL: u32 = 16;

/// Bytes of one vertex.
pub const VERTEX_BYTES: u64 = 32;

/// What a skinned instance is made of: assets and entities by their ids, its node by its
/// slot.
#[derive(Debug)]
pub struct SkinSource {
    pub mesh: u64,
    pub bindposes: u64,
    pub joints: Vec<u64>,
    pub node: u32,
}

/// The device half of a skinned instance.
#[derive(Clone, Copy, Debug, PartialEq, Eq, Structural)]
pub struct SkinnedGpu {
    /// The vertex buffer of the mesh this was made from; another one means that the mesh was
    /// loaded again.
    pub mesh_vertex_buffer: u64,
    pub vertex_count: u32,
    pub triangle_count: u32,
    pub rest: Buffer,
    pub skin: u64,
    pub index_buffer: Buffer,
    pub geometry_to_index: u64,
    pub geometry_to_triangle: u64,
    /// Deformed streams: those of even frames, and those of odd ones.
    pub even_vertices: Buffer,
    pub odd_vertices: Buffer,
    pub triangles: Buffer,
    /// Host-visible palette: the node of each joint.
    pub joint_nodes: Buffer,
    pub joint_count: u32,
    pub inverse_bind: u64,
    pub structure: u64,
    pub structure_buffer: u64,
    pub structure_address: u64,
    pub scratch: Buffer,
    pub scratch_alignment: u64,
    /// Builds recorded so far; 0 where the structure was never built.
    pub builds: u32,
    pub hit_offset: u32,
}

/// A skinned instance.
#[derive(Debug)]
pub struct SkinnedInstance {
    pub slot: u32,
    pub source: SkinSource,
    /// The node of each joint ([`NO_NODE`] where a joint has none yet).
    pub joint_nodes: Vec<u32>,
    pub joints_dirty: bool,
    pub gpu: Option<SkinnedGpu>,
}

/// All skinned instances.
#[derive(Debug)]
pub struct Skins {
    pub instances: Vec<SkinnedInstance>,
    /// Slots whose skin or entity went away: drop everything.
    pub removed: Vec<u32>,
    /// Slots whose source changed: drop the device half.
    pub rebuild: Vec<u32>,
    /// Advances once per frame; its parity picks the deformed stream.
    pub frame: u32,
    pub warned_module: bool,
}

/// What the hit record of a skinned instance says.
#[derive(Clone, Copy, Debug, PartialEq, Eq, Structural)]
pub struct SkinnedHitRecord {
    pub hit_offset: u32,
    pub vertex_buffer: u64,
    pub prev_vertex_buffer: u64,
    pub triangle_buffer: u64,
    pub index_buffer: u64,
    pub geometry_to_index: u64,
    pub geometry_to_triangle: u64,
}

/// One build or refit of a skinned instance's structure.
#[derive(Clone, Copy, Debug, PartialEq, Eq, Structural)]
pub struct SkinBuild {
    pub structure: u64,
    /// A refit of what stands, rather than a build.
    pub update: bool,
    pub scratch: u64,
    pub vertices: u64,
    pub vertex_count: u32,
    pub indices: u64,
    pub triangle_count: u32,
}

/// What a frame does for the skinned instances.
#[derive(Debug)]
pub struct SkinRecord {
    /// The kernels are missing for the first time.
    pub warn: bool,
    /// The slots whose palette must be written first.
    pub palettes: Vec<u32>,
    pub commands: Vec<Command>,
    /// Built together, behind the commands.
    pub builds: Vec<SkinBuild>,
    /// What follows the builds.
    pub after: Vec<Command>,
    /// Whether any structure changed.
    pub changed: bool,
}

impl SkinnedGpu {
    /// The deformed stream of frames of this parity.
    pub open spec fn stream(self, odd: bool) -> Buffer {
        if odd {
            self.odd_vertices
        } else {
            self.even_vertices
        }
    }

    fn vertices(&self, odd: bool) -> (r: Buffer)
        ensures
            r == self.stream(odd),
    {
        if odd {
            self.odd_vertices
        } else {
            self.even_vertices
        }
    }

    /// The next build refits: the structure was built before, and a rebuild is not due.
    pub open spec fn refits(self) -> bool {
        self.builds > 0 && self.builds % REBUILD_INTERVAL != 0
    }

    /// The count of builds once one more was recorded; it never returns to "never built".
    pub open spec fn next_builds(self) -> u32 {
        if self.builds == u32::MAX {
            1
        } else {
            (self.builds + 1) as u32
        }
    }

    /// What goes with the device half.
    pub open spec fn doomed(self) -> Seq<Doomed> {
        seq![
            Doomed::AccelerationStructure(self.structure),
            Doomed::Buffer(self.structure_buffer),
            Doomed::Buffer(self.rest.handle),
            Doomed::Buffer(self.index_buffer.handle),
            Doomed::Buffer(self.even_vertices.handle),
            Doomed::Buffer(self.odd_vertices.handle),
            Doomed::Buffer(self.triangles.handle),
            Doomed::Buffer(self.joint_nodes.handle),
            Doomed::Buffer(self.scratch.handle),
        ]
    }

    /// What goes with the device half.
    pub fn destroy(&self) -> (r: Vec<Doomed>)
        ensures
            r@ == self.doomed(),
    {
        let r: Vec<Doomed> = vec![
            Doomed::AccelerationStructure(self.structure),
            Doomed::Buffer(self.structure_buffer),
            Doomed::Buffer(self.rest.handle),
            Doomed::Buffer(self.index_buffer.handle),
            Doomed::Buffer(self.even_vertices.handle),
            Doomed::Buffer(self.odd_vertices.handle),
            Doomed::Buffer(self.triangles.handle),
            Doomed::Buffer(self.joint_nodes.handle),
            Doomed::Buffer(self.scratch.handle),
        ];
        assert(r@ =~= self.doomed());
        r
    }
}

impl SkinnedInstance {
    /// The instance is deformed: it has a device half and a node among the first
    /// `node_count`.
    pub open spec fn deforms(self, node_count: u32) -> bool {
        self.gpu is Some && self.source.node < node_count
    }

    /// The rest pose stands in for last frame's stream before the first build.
    pub open spec fn history_copy(self, odd: bool) -> Command {
        Command::Copy {
            src: self.gpu->0.rest.handle,
            dst: self.gpu->0.stream(!odd).handle,
            size: (self.gpu->0.vertex_count * VERTEX_BYTES) as u64,
        }
    }

    pub open spec fn deform_dispatch(self, odd: bool, world: u64) -> Command {
        let gpu = self.gpu->0;
        Command::Dispatch {
            kernel: Kernel::SkinVertices,
            params: Params::Skin(
                SkinParams {
                    rest: gpu.rest.address,
                    skin: gpu.skin,
                    world,
                    joint_nodes: gpu.joint_nodes.address,
                    inverse_bind: gpu.inverse_bind,
                    dst: gpu.stream(odd).address,
                    count: gpu.vertex_count,
                    base: 0,
                    joint_count: gpu.joint_count,
                    mesh_node: self.source.node,
                },
            ),
            threads: gpu.vertex_count,
        }
    }

    pub open spec fn pack_dispatch(self, odd: bool) -> Command {
        let gpu = self.gpu->0;
        Command::Dispatch {
            kernel: Kernel::PackTriangles,
            params: Params::Pack(
                PackParams {
                    vertices: gpu.stream(odd).address,
                    indices: gpu.index_buffer.address,
                    triangles: gpu.triangles.address,
                    count: gpu.triangle_count,
                    base: 0,
                },
            ),
            threads: gpu.triangle_count,
        }
    }

    pub open spec fn build(self, odd: bool) -> SkinBuild {
        let gpu = self.gpu->0;
        SkinBuild {
            structure: gpu.structure,
            update: gpu.refits(),
            scratch: aligned(gpu.scratch.address as int, gpu.scratch_alignment as int) as u64,
            vertices: gpu.stream(odd).address,
            vertex_count: gpu.vertex_count,
            indices: gpu.index_buffer.address,
            triangle_count: gpu.triangle_count,
        }
    }

    pub open spec fn hit_record(self, odd: bool) -> SkinnedHitRecord {
        let gpu = self.gpu->0;
        SkinnedHitRecord {
            hit_offset: gpu.hit_offset,
            vertex_buffer: gpu.stream(odd).address,
            prev_vertex_buffer: gpu.stream(!odd).address,
            triangle_buffer: gpu.triangles.address,
            index_buffer: gpu.index_buffer.address,
            geometry_to_index: gpu.geometry_to_index,
            geometry_to_triangle: gpu.geometry_to_triangle,
        }
    }

    /// The instance once a frame was recorded: its palette is written, and its builds counted.
    pub open spec fn recorded(self, node_count: u32) -> SkinnedInstance {
        SkinnedInstance {
            joints_dirty: self.joints_dirty && self.gpu is None,
            gpu: match self.gpu {
                None => None,
                Some(gpu) => Some(
                    if self.source.node < node_count {
                        SkinnedGpu { builds: gpu.next_builds(), ..gpu }
                    } else {
                        gpu
                    },
                ),
            },
            ..self
        }
    }
}

/// What goes with the device halves of all instances.
pub open spec fn all_doomed(instances: Seq<SkinnedInstance>) -> Seq<Doomed>
    decreases instances.len(),
{
    if instances.len() == 0 {
        Seq::empty()
    } else {
        all_doomed(instances.drop_last()) + match instances.last().gpu {
            Some(gpu) => gpu.doomed(),
            None => Seq::empty(),
        }
    }
}

/// What `f` makes of the instances that `keep` keeps, in order.
pub open spec fn of_instances<T>(
    instances: Seq<SkinnedInstance>,
    keep: spec_fn(SkinnedInstance) -> bool,
    f: spec_fn(SkinnedInstance) -> T,
) -> Seq<T>
    decreases instances.len(),
{
    if instances.len() == 0 {
        Seq::empty()
    } else {
        let front = of_instances(instances.drop_last(), keep, f);
        if keep(instances.last()) {
            front.push(f(instances.last()))
        } else {
            front
        }
    }
}

proof fn lemma_of_instances_step<T>(
    instances: Seq<SkinnedInstance>,
    i: int,
    keep: spec_fn(SkinnedInstance) -> bool,
    f: spec_fn(SkinnedInstance) -> T,
)
    requires
        0 <= i < instances.len(),
    ensures
        of_instances(instances.take(i + 1), keep, f) == if keep(instances[i]) {
            of_instances(instances.take(i), keep, f).push(f(instances[i]))
        } else {
            of_instances(instances.take(i), keep, f)
        },
{
    assert(instances.take(i + 1).drop_last() =~= instances.take(i));
    assert(instances.take(i + 1).last() == instances[i]);
}

/// Nothing is made exactly where no instance is kept.
proof fn lemma_of_instances_empty<T>(
    instances: Seq<SkinnedInstance>,
    keep: spec_fn(SkinnedInstance) -> bool,
    f: spec_fn(SkinnedInstance) -> T,
)
    ensures
        of_instances(instances, keep, f).len() == 0 <==> forall|i: int|
            0 <= i < instances.len() ==> !keep(#[trigger] instances[i]),
    decreases instances.len(),
{
    if instances.len() > 0 {
        let front = instances.drop_last();
        lemma_of_instances_empty(front, keep, f);
        if forall|i: int| 0 <= i < front.len() ==> !keep(#[trigger] front[i]) {
            assert forall|i: int| 0 <= i < instances.len() && !keep(instances.last()) implies !keep(
                #[trigger] instances[i],
            ) by {
                if i < front.len() {
                    assert(front[i] == instances[i]);
                }
            }
            assert(instances.last() == instances[instances.len() - 1]);
        } else {
            let i = choose|i: int| 0 <= i < front.len() && keep(#[trigger] front[i]);
            assert(keep(instances[i]));
        }
    }
}

/// Transfers made visible to kernels and rays.
pub open spec fn transfer_to_kernels_and_rays() -> Command {
    barrier(
        STAGE_TRANSFER,
        ACCESS_TRANSFER_WRITE,
        STAGE_COMPUTE_SHADER | STAGE_RAY_TRACING_SHADER,
        ACCESS_SHADER_READ,
    )
}

/// Kernels' writes made visible to builds and rays.
pub open spec fn kernels_to_builds() -> Command {
    barrier(
        STAGE_COMPUTE_SHADER,
        ACCESS_SHADER_WRITE,
        STAGE_ACCELERATION_STRUCTURE_BUILD | STAGE_RAY_TRACING_SHADER,
        ACCESS_ACCELERATION_STRUCTURE_READ | ACCESS_SHADER_READ,
    )
}

/// Built structures made visible to further builds and to rays.
pub open spec fn builds_to_rays() -> Command {
    barrier(
        STAGE_ACCELERATION_STRUCTURE_BUILD,
        ACCESS_ACCELERATION_STRUCTURE_WRITE,
        STAGE_ACCELERATION_STRUCTURE_BUILD | STAGE_RAY_TRACING_SHADER,
        ACCESS_ACCELERATION_STRUCTURE_READ,
    )
}

impl Skins {
    /// No slot has two instances.
    pub open spec fn wf(self) -> bool {
        forall|i: int, j: int|
            0 <= i < j < self.instances@.len() ==> (#[trigger] self.instances@[i]).slot != (
            #[trigger] self.instances@[j]).slot
    }

    /// Scratch addresses can be aligned.
    pub open spec fn scratch_fits(self) -> bool {
        forall|i: int|
            0 <= i < self.instances@.len() ==> ((#[trigger] self.instances@[i]).gpu matches Some(
                gpu,
            ) ==> gpu.scratch_alignment > 0 && gpu.scratch.address + gpu.scratch_alignment - 1
                <= u64::MAX)
    }

    /// This frame writes the odd streams.
    pub open spec fn is_odd(self) -> bool {
        self.frame % 2 == 1
    }

    /// No instance.
    pub fn new() -> (r: Self)
        ensures
            r.wf(),
            r.instances@.len() == 0,
            r.removed@.len() == 0,
            r.rebuild@.len() == 0,
            r.frame == 0,
            !r.warned_module,
    {
        Skins {
            instances: Vec::new(),
            removed: Vec::new(),
            rebuild: Vec::new(),
            frame: 0,
            warned_module: false,
        }
    }

    /// Gives up all instances; gives what goes with their device halves.
    pub fn destroy(&mut self) -> (r: Vec<Doomed>)
        requires
            old(self).wf(),
        ensures
            final(self).wf(),
            final(self).instances@.len() == 0,
            final(self).removed == old(self).removed,
            final(self).rebuild == old(self).rebuild,
            final(self).frame == old(self).frame,
            final(self).warned_module == old(self).warned_module,
            r@ == all_doomed(old(self).instances@),
    {
        let mut r: Vec<Doomed> = Vec::new();
        let ghost before = self.instances@;
        let mut k: usize = 0;
        while k < self.instances.len()
            invariant
                k <= before.len(),
                self.instances@ == before,
                r@ == all_doomed(before.take(k as int)),
            decreases before.len() - k,
        {
            assert(before.take(k as int + 1).drop_last() =~= before.take(k as int));
            if let Some(gpu) = self.instances[k].gpu {
                let mut own: Vec<Doomed> = gpu.destroy();
                r.append(&mut own);
            }
            k = k + 1;
            assert(r@ =~= all_doomed(before.take(k as int)));
        }
        assert(before.take(k as int) =~= before);
        self.instances = Vec::new();
        r
    }

    /// The hit records of every instance with a device half, for this frame's parity.
    pub fn hit_records(&self) -> (r: Vec<SkinnedHitRecord>)
        ensures
            r@ == of_instances(
                self.instances@,
                |i: SkinnedInstance| i.gpu is Some,
                |i: SkinnedInstance| i.hit_record(self.is_odd()),
            ),
    {
        let odd: bool = self.frame % 2 == 1;
        let ghost keep = |i: SkinnedInstance| i.gpu is Some;
        let ghost f = |i: SkinnedInstance| i.hit_record(odd);
        let mut r: Vec<SkinnedHitRecord> = Vec::new();
        let mut k: usize = 0;
        while k < self.instances.len()
            invariant
                k <= self.instances@.len(),
                keep == (|i: SkinnedInstance| i.gpu is Some),
                f == (|i: SkinnedInstance| i.hit_record(odd)),
                r@ == of_instances(self.instances@.take(k as int), keep, f),
            decreases self.instances@.len() - k,
        {
            proof {
                lemma_of_instances_step(self.instances@, k as int, keep, f);
            }
            if let Some(gpu) = self.instances[k].gpu {
                r.push(
                    SkinnedHitRecord {
                        hit_offset: gpu.hit_offset,
                        vertex_buffer: gpu.vertices(odd).address,
                        prev_vertex_buffer: gpu.vertices(!odd).address,
                        triangle_buffer: gpu.triangles.address,
                        index_buffer: gpu.index_buffer.address,
                        geometry_to_index: gpu.geometry_to_index,
                        geometry_to_triangle: gpu.geometry_to_triangle,
                    },
                );
            }
            k = k + 1;
        }
        assert(self.instances@.take(k as int) =~= self.instances@);
        r
    }

    // ---- the commands of a frame ----

    /// The palettes that a frame writes.
    pub open spec fn palette_slots(self) -> Seq<u32> {
        of_instances(
            self.instances@,
            |i: SkinnedInstance| i.gpu is Some && i.joints_dirty,
            |i: SkinnedInstance| i.slot,
        )
    }

    /// The copies that give new instances a history.
    pub open spec fn history_copies(self) -> Seq<Command> {
        of_instances(
            self.instances@,
            |i: SkinnedInstance| i.gpu is Some && i.gpu->0.builds == 0,
            |i: SkinnedInstance| i.history_copy(self.is_odd()),
        )
    }

    pub open spec fn deform_dispatches(self, world: u64, node_count: u32) -> Seq<Command> {
        of_instances(
            self.instances@,
            |i: SkinnedInstance| i.deforms(node_count),
            |i: SkinnedInstance| i.deform_dispatch(self.is_odd(), world),
        )
    }

    pub open spec fn pack_dispatches(self, node_count: u32) -> Seq<Command> {
        of_instances(
            self.instances@,
            |i: SkinnedInstance| i.deforms(node_count),
            |i: SkinnedInstance| i.pack_dispatch(self.is_odd()),
        )
    }

    pub open spec fn skin_builds(self, node_count: u32) -> Seq<SkinBuild> {
        of_instances(
            self.instances@,
            |i: SkinnedInstance| i.deforms(node_count),
            |i: SkinnedInstance| i.build(self.is_odd()),
        )
    }

    /// Any instance has a device half.
    pub open spec fn any_gpu(self) -> bool {
        exists|i: int| 0 <= i < self.instances@.len() && (#[trigger] self.instances@[i]).gpu is Some
    }

    /// The commands before the builds.
    pub open spec fn commands_of(self, world: u64, node_count: u32) -> Seq<Command> {
        let copies = self.history_copies();
        let deforms = self.deform_dispatches(world, node_count);
        let history = if copies.len() > 0 {
            copies.push(transfer_to_kernels_and_rays())
        } else {
            copies
        };
        if deforms.len() == 0 {
            history
        } else {
            history + deforms.push(compute_to_compute()) + self.pack_dispatches(node_count).push(
                kernels_to_builds(),
            )
        }
    }

    /// Anything is recorded: some instance has a device half, and the kernels and the world
    /// transforms are there.
    pub open spec fn records(self, module_ready: bool, world: u64) -> bool {
        self.any_gpu() && module_ready && world != 0
    }

    fn has_gpu(&self) -> (r: bool)
        ensures
            r == self.any_gpu(),
    {
        let mut k: usize = 0;
        while k < self.instances.len()
            invariant
                k <= self.instances@.len(),
                forall|i: int| 0 <= i < k ==> (#[trigger] self.instances@[i]).gpu is None,
            decreases self.instances@.len() - k,
        {
            if self.instances[k].gpu.is_some() {
                return true;
            }
            k = k + 1;
        }
        false
    }

    fn palettes(&self) -> (r: Vec<u32>)
        ensures
            r@ == self.palette_slots(),
    {
        let ghost keep = |i: SkinnedInstance| i.gpu is Some && i.joints_dirty;
        let ghost f = |i: SkinnedInstance| i.slot;
        let mut r: Vec<u32> = Vec::new();
        let mut k: usize = 0;
        while k < self.instances.len()
            invariant
                k <= self.instances@.len(),
                keep == (|i: SkinnedInstance| i.gpu is Some && i.joints_dirty),
                f == (|i: SkinnedInstance| i.slot),
                r@ == of_instances(self.instances@.take(k as int), keep, f),
            decreases self.instances@.len() - k,
        {
            proof {
                lemma_of_instances_step(self.instances@, k as int, keep, f);
            }
            if self.instances[k].gpu.is_some() && self.instances[k].joints_dirty {
                r.push(self.instances[k].slot);
            }
            k = k + 1;
        }
        assert(self.instances@.take(k as int) =~= self.instances@);
        r
    }

    fn copies(&self) -> (r: Vec<Command>)
        ensures
            r@ == self.history_copies(),
    {
        let odd: bool = self.frame % 2 == 1;
        let ghost keep = |i: SkinnedInstance| i.gpu is Some && i.gpu->0.builds == 0;
        let ghost f = |i: SkinnedInstance| i.history_copy(odd);
        let mut r: Vec<Command> = Vec::new();
        let mut k: usize = 0;
        while k < self.instances.len()
            invariant
                k <= self.instances@.len(),
                keep == (|i: SkinnedInstance| i.gpu is Some && i.gpu->0.builds == 0),
                f == (|i: SkinnedInstance| i.history_copy(odd)),
                r@ == of_instances(self.instances@.take(k as int), keep, f),
            decreases self.instances@.len() - k,
        {
            proof {
                lemma_of_instances_step(self.instances@, k as int, keep, f);
            }
            if let Some(gpu) = self.instances[k].gpu {
                if gpu.builds == 0 {
                    r.push(
                        Command::Copy {
                            src: gpu.rest.handle,
                            dst: gpu.vertices(!odd).handle,
                            size: gpu.vertex_count as u64 * VERTEX_BYTES,
                        },
                    );
                }
            }
            k = k + 1;
        }
        assert(self.instances@.take(k as int) =~= self.instances@);
        r
    }

    fn deforms(&self, world: u64, node_count: u32) -> (r: Vec<Command>)
        ensures
            r@ == self.deform_dispatches(world, node_count),
    {
        let odd: bool = self.frame % 2 == 1;
        let ghost keep = |i: SkinnedInstance| i.deforms(node_count);
        let ghost f = |i: SkinnedInstance| i.deform_dispatch(odd, world);
        let mut r: Vec<Command> = Vec::new();
        let mut k: usize = 0;
        while k < self.instances.len()
            invariant
                k <= self.instances@.len(),
                keep == (|i: SkinnedInstance| i.deforms(node_count)),
                f == (|i: SkinnedInstance| i.deform_dispatch(odd, world)),
                r@ == of_instances(self.instances@.take(k as int), keep, f),
            decreases self.instances@.len() - k,
        {
            proof {
                lemma_of_instances_step(self.instances@, k as int, keep, f);
            }
            if let Some(gpu) = self.instances[k].gpu {
                let node: u32 = self.instances[k].source.node;
                if node < node_count {
                    r.push(
                        Command::Dispatch {
                            kernel: Kernel::SkinVertices,
                            params: Params::Skin(
                                SkinParams {
                                    rest: gpu.rest.address,
                                    skin: gpu.skin,
                                    world,
                                    joint_nodes: gpu.joint_nodes.address,
                                    inverse_bind: gpu.inverse_bind,
                                    dst: gpu.vertices(odd).address,
                                    count: gpu.vertex_count,
                                    base: 0,
                                    joint_count: gpu.joint_count,
                                    mesh_node: node,
                                },
                            ),
                            threads: gpu.vertex_count,
                        },
                    );
                }
            }
            k = k + 1;
        }
        assert(self.instances@.take(k as int) =~= self.instances@);
        r
    }

    fn packs(&self, node_count: u32) -> (r: Vec<Command>)
        ensures
            r@ == self.pack_dispatches(node_count),
    {
        let odd: bool = self.frame % 2 == 1;
        let ghost keep = |i: SkinnedInstance| i.deforms(node_count);
        let ghost f = |i: SkinnedInstance| i.pack_dispatch(odd);
        let mut r: Vec<Command> = Vec::new();
        let mut k: usize = 0;
        while k < self.instances.len()
            invariant
                k <= self.instances@.len(),
                keep == (|i: SkinnedInstance| i.deforms(node_count)),
                f == (|i: SkinnedInstance| i.pack_dispatch(odd)),
                r@ == of_instances(self.instances@.take(k as int), keep, f),
            decreases self.instances@.len() - k,
        {
            proof {
                lemma_of_instances_step(self.instances@, k as int, keep, f);
            }
            if let Some(gpu) = self.instances[k].gpu {
                if self.instances[k].source.node < node_count {
                    r.push(
                        Command::Dispatch {
                            kernel: Kernel::PackTriangles,
                            params: Params::Pack(
                                PackParams {
                                    vertices: gpu.vertices(odd).address,
                                    indices: gpu.index_buffer.address,
                                    triangles: gpu.triangles.address,
                                    count: gpu.triangle_count,
                                    base: 0,
                                },
                            ),
                            threads: gpu.triangle_count,
                        },
                    );
                }
            }
            k = k + 1;
        }
        assert(self.instances@.take(k as int) =~= self.instances@);
        r
    }

    fn builds(&self, node_count: u32) -> (r: Vec<SkinBuild>)
        requires
            self.scratch_fits(),
        ensures
            r@ == self.skin_builds(node_count),
    {
        let odd: bool = self.frame % 2 == 1;
        let ghost keep = |i: SkinnedInstance| i.deforms(node_count);
        let ghost f = |i: SkinnedInstance| i.build(odd);
        let mut r: Vec<SkinBuild> = Vec::new();
        let mut k: usize = 0;
        while k < self.instances.len()
            invariant
                k <= self.instances@.len(),
                self.scratch_fits(),
                keep == (|i: SkinnedInstance| i.deforms(node_count)),
                f == (|i: SkinnedInstance| i.build(odd)),
                r@ == of_instances(self.instances@.take(k as int), keep, f),
            decreases self.instances@.len() - k,
        {
            proof {
                lemma_of_instances_step(self.instances@, k as int, keep, f);
            }
            if let Some(gpu) = self.instances[k].gpu {
                if self.instances[k].source.node < node_count {
                    r.push(
                        SkinBuild {
                            structure: gpu.structure,
                            update: gpu.builds > 0 && gpu.builds % REBUILD_INTERVAL != 0,
                            scratch: aligned_size(gpu.scratch.address, gpu.scratch_alignment),
                            vertices: gpu.vertices(odd).address,
                            vertex_count: gpu.vertex_count,
                            indices: gpu.index_buffer.address,
                            triangle_count: gpu.triangle_count,
                        },
                    );
                }
            }
            k = k + 1;
        }
        assert(self.instances@.take(k as int) =~= self.instances@);
        r
    }

    /// Marks the palettes as written and counts the builds.
    fn note_recorded(&mut self, node_count: u32)
        ensures
            final(self).instances@ == old(self).instances@.map_values(
                |i: SkinnedInstance| i.recorded(node_count),
            ),
            final(self).removed == old(self).removed,
            final(self).rebuild == old(self).rebuild,
            final(self).frame == old(self).frame,
            final(self).warned_module == old(self).warned_module,
    {
        let ghost before = self.instances@;
        let mut k: usize = 0;
        while k < self.instances.len()
            invariant
                k <= before.len(),
                self.instances@.len() == before.len(),
                self.removed == old(self).removed,
                self.rebuild == old(self).rebuild,
                self.frame == old(self).frame,
                self.warned_module == old(self).warned_module,
                forall|i: int|
                    0 <= i < k ==> #[trigger] self.instances@[i] == before[i].recorded(node_count),
                forall|i: int| k <= i < before.len() ==> #[trigger] self.instances@[i] == before[i],
            decreases before.len() - k,
        {
            let node: u32 = self.instances[k].source.node;
            if let Some(mut gpu) = self.instances[k].gpu {
                self.instances[k].joints_dirty = false;
                if node < node_count {
                    gpu.builds = if gpu.builds == u32::MAX {
                        1
                    } else {
                        gpu.builds + 1
                    };
                    self.instances[k].gpu = Some(gpu);
                }
            }
            assert(self.instances@[k as int] == before[k as int].recorded(node_count));
            k = k + 1;
        }
        assert(self.instances@ =~= before.map_values(|i: SkinnedInstance| i.recorded(node_count)));
    }

    /// Records this frame's deforms and builds. `world` is the address of the world
    /// transforms, which cover `node_count` nodes.
    pub fn record(&mut self, module_ready: bool, world: u64, node_count: u32) -> (r: SkinRecord)
        requires
            old(self).wf(),
            old(self).scratch_fits(),
        ensures
            final(self).wf(),
            r.warn == (old(self).any_gpu() && !module_ready && !old(self).warned_module),
            final(self).warned_module == (old(self).warned_module || (old(self).any_gpu()
                && !module_ready)),
            final(self).removed == old(self).removed,
            final(self).rebuild == old(self).rebuild,
            final(self).frame == old(self).frame,
            if old(self).records(module_ready, world) {
                let deforms = old(self).deform_dispatches(world, node_count);
                &&& r.palettes@ == old(self).palette_slots()
                &&& r.commands@ == old(self).commands_of(world, node_count)
                &&& r.builds@ == old(self).skin_builds(node_count)
                &&& r.changed == (deforms.len() > 0)
                &&& r.after@ == if deforms.len() > 0 {
                    seq![builds_to_rays()]
                } else {
                    Seq::empty()
                }
                &&& final(self).instances@ == old(self).instances@.map_values(
                    |i: SkinnedInstance| i.recorded(node_count),
                )
            } else {
                &&& r.palettes@.len() == 0
                &&& r.commands@.len() == 0
                &&& r.builds@.len() == 0
                &&& r.after@.len() == 0
                &&& !r.changed
                &&& final(self).instances == old(self).instances
            },
    {
        let mut r = SkinRecord {
            warn: false,
            palettes: Vec::new(),
            commands: Vec::new(),
            builds: Vec::new(),
            after: Vec::new(),
            changed: false,
        };
        if !self.has_gpu() {
            return r;
        }
        if !module_ready {
            r.warn = !self.warned_module;
            self.warned_module = true;
            return r;
        }
        if world == 0 {
            return r;
        }
        r.palettes = self.palettes();
        let mut commands: Vec<Command> = self.copies();
        if commands.len() > 0 {
            commands.push(
                memory_barrier(
                    STAGE_TRANSFER,
                    ACCESS_TRANSFER_WRITE,
                    STAGE_COMPUTE_SHADER | STAGE_RAY_TRACING_SHADER,
                    ACCESS_SHADER_READ,
                ),
            );
        }
        let ghost history = commands@;
        let mut deforms: Vec<Command> = self.deforms(world, node_count);
        r.builds = self.builds(node_count);
        if deforms.len() > 0 {
            let ghost deformed = deforms@;
            deforms.push(compute_to_compute_barrier());
            commands.append(&mut deforms);
            let mut packs: Vec<Command> = self.packs(node_count);
            let ghost packed = packs@;
            packs.push(
                memory_barrier(
                    STAGE_COMPUTE_SHADER,
                    ACCESS_SHADER_WRITE,
                    STAGE_ACCELERATION_STRUCTURE_BUILD | STAGE_RAY_TRACING_SHADER,
                    ACCESS_ACCELERATION_STRUCTURE_READ | ACCESS_SHADER_READ,
                ),
            );
            commands.append(&mut packs);
            assert(commands@ =~= history + deformed.push(compute_to_compute()) + packed.push(
                kernels_to_builds(),
            ));
            r.after.push(
                memory_barrier(
                    STAGE_ACCELERATION_STRUCTURE_BUILD,
                    ACCESS_ACCELERATION_STRUCTURE_WRITE,
                    STAGE_ACCELERATION_STRUCTURE_BUILD | STAGE_RAY_TRACING_SHADER,
                    ACCESS_ACCELERATION_STRUCTURE_READ,
                ),
            );
            assert(r.after@ =~= seq![builds_to_rays()]);
            r.changed = true;
        }
        r.commands = commands;
        self.note_recorded(node_count);
        r
    }
}

/// Where a frame deforms nothing, it packs and builds nothing either.
pub proof fn lemma_nothing_deformed(skins: Skins, world: u64, node_count: u32)
    requires
        skins.deform_dispatches(world, node_count).len() == 0,
    ensures
        skins.pack_dispatches(node_count).len() == 0,
        skins.skin_builds(node_count).len() == 0,
{
    let keep = |i: SkinnedInstance| i.deforms(node_count);
    lemma_of_instances_empty(
        skins.instances@,
        keep,
        |i: SkinnedInstance| i.deform_dispatch(skins.is_odd(), world),
    );
    lemma_of_instances_empty(
        skins.instances@,
        keep,
        |i: SkinnedInstance| i.pack_dispatch(skins.is_odd()),
    );
    lemma_of_instances_empty(skins.instances@, keep, |i: SkinnedInstance| i.build(skins.is_odd()));
}

/// A structure is built before it is ever refit, and after its first build at most
/// `REBUILD_INTERVAL - 1` refits stand between two builds.
pub proof fn lemma_rebuild_cadence(gpu: SkinnedGpu)
    ensures
        gpu.builds == 0 ==> !gpu.refits(),
        gpu.next_builds() > 0,
        gpu.builds > 0 && gpu.builds < u32::MAX - REBUILD_INTERVAL ==> exists|k: u32|
            k < REBUILD_INTERVAL && !#[trigger] (SkinnedGpu {
                builds: (gpu.builds + k) as u32,
                ..gpu
            }).refits(),
{
    if gpu.builds > 0 && gpu.builds < u32::MAX - REBUILD_INTERVAL {
        let k: u32 = ((REBUILD_INTERVAL - gpu.builds % REBUILD_INTERVAL) % REBUILD_INTERVAL as int) as u32;
        let b = gpu.builds as int;
        assert((b + k) % 16 == 0);
        assert(!(SkinnedGpu { builds: (gpu.builds + k) as u32, ..gpu }).refits());
    }
}

// ---- which instances there are ----------------------------------------------------------

impl SkinSource {
    /// The two sources are the same.
    pub open spec fn same(self, other: SkinSource) -> bool {
        &&& self.mesh == other.mesh
        &&& self.bindposes == other.bindposes
        &&& self.joints@ == other.joints@
        &&& self.node == other.node
    }

    /// The device half does not survive the change from one source to the other.
    pub open spec fn needs_rebuild(self, other: SkinSource) -> bool {
        ||| self.mesh != other.mesh
        ||| self.bindposes != other.bindposes
        ||| self.joints@.len() != other.joints@.len()
    }

    fn is_same(&self, other: &SkinSource) -> (r: bool)
        ensures
            r == self.same(*other),
    {
        if self.mesh != other.mesh || self.bindposes != other.bindposes || self.node != other.node
            || self.joints.len() != other.joints.len() {
            return false;
        }
        let mut i: usize = 0;
        while i < self.joints.len()
            invariant
                i <= self.joints@.len(),
                self.joints@.len() == other.joints@.len(),
                forall|j: int| 0 <= j < i ==> self.joints@[j] == other.joints@[j],
            decreases self.joints@.len() - i,
        {
            if self.joints[i] != other.joints[i] {
                return false;
            }
            i = i + 1;
        }
        assert(self.joints@ =~= other.joints@);
        true
    }
}

/// Where the instance of `slot` stands, if there is one.
pub open spec fn place_of(instances: Seq<SkinnedInstance>, slot: u32) -> Option<int> {
    if exists|i: int| 0 <= i < instances.len() && (#[trigger] instances[i]).slot == slot {
        Some(choose|i: int| 0 <= i < instances.len() && (#[trigger] instances[i]).slot == slot)
    } else {
        None
    }
}

/// The node of each joint; [`NO_NODE`] for a joint without one.
pub open spec fn palette_of(nodes: Seq<Option<u32>>) -> Seq<u32> {
    nodes.map_values(
        |n: Option<u32>|
            match n {
                Some(node) => node,
                None => NO_NODE,
            },
    )
}

impl Skins {
    fn find(&self, slot: u32) -> (r: Option<usize>)
        requires
            self.wf(),
        ensures
            match r {
                Some(i) => i < self.instances@.len() && place_of(self.instances@, slot) == Some(
                    i as int,
                ) && self.instances@[i as int].slot == slot,
                None => place_of(self.instances@, slot) is None,
            },
    {
        let mut k: usize = 0;
        while k < self.instances.len()
            invariant
                k <= self.instances@.len(),
                self.wf(),
                forall|i: int| 0 <= i < k ==> (#[trigger] self.instances@[i]).slot != slot,
            decreases self.instances@.len() - k,
        {
            if self.instances[k].slot == slot {
                proof {
                    let i = choose|i: int|
                        0 <= i < self.instances@.len() && (#[trigger] self.instances@[i]).slot
                            == slot;
                    assert(self.instances@[k as int].slot == slot);
                    if k < i {
                        assert(self.instances@[k as int].slot != self.instances@[i].slot);
                    }
                }
                return Some(k);
            }
            k = k + 1;
        }
        None
    }

    /// Takes note of an instance's source. A new instance has its palette still to be
    /// resolved; a source that the device half does not survive asks for a rebuild.
    pub fn observe(&mut self, slot: u32, source: SkinSource)
        requires
            old(self).wf(),
        ensures
            final(self).wf(),
            final(self).removed == old(self).removed,
            final(self).frame == old(self).frame,
            final(self).warned_module == old(self).warned_module,
            match place_of(old(self).instances@, slot) {
                None => {
                    &&& final(self).rebuild@ == old(self).rebuild@
                    &&& final(self).instances@.len() == old(self).instances@.len() + 1
                    &&& final(self).instances@.drop_last() == old(self).instances@
                    &&& final(self).instances@.last().slot == slot
                    &&& final(self).instances@.last().source == source
                    &&& final(self).instances@.last().joint_nodes@.len() == 0
                    &&& final(self).instances@.last().joints_dirty
                    &&& final(self).instances@.last().gpu is None
                },
                Some(i) => {
                    let known = old(self).instances@[i];
                    if known.source.same(source) {
                        final(self).instances@ == old(self).instances@ && final(self).rebuild@
                            == old(self).rebuild@
                    } else {
                        &&& final(self).instances@ == old(self).instances@.update(
                            i,
                            SkinnedInstance { source, ..known },
                        )
                        &&& final(self).rebuild@ == if known.source.needs_rebuild(source) {
                            old(self).rebuild@.push(slot)
                        } else {
                            old(self).rebuild@
                        }
                    }
                },
            },
    {
        match self.find(slot) {
            None => {
                let ghost before = self.instances@;
                self.instances.push(
                    SkinnedInstance {
                        slot,
                        source,
                        joint_nodes: Vec::new(),
                        joints_dirty: true,
                        gpu: None,
                    },
                );
                assert(self.instances@.drop_last() =~= before);
            },
            Some(k) => {
                if !self.instances[k].source.is_same(&source) {
                    let ghost before = self.instances@;
                    let rebuild: bool = self.instances[k].source.mesh != source.mesh
                        || self.instances[k].source.bindposes != source.bindposes
                        || self.instances[k].source.joints.len() != source.joints.len();
                    self.instances[k].source = source;
                    assert(self.instances@ =~= before.update(
                        k as int,
                        SkinnedInstance { source, ..before[k as int] },
                    ));
                    if rebuild {
                        self.rebuild.push(slot);
                    }
                }
            },
        }
    }

    /// Takes note of an instance whose skin or entity went away.
    pub fn note_removed(&mut self, slot: u32)
        requires
            old(self).wf(),
        ensures
            final(self).wf(),
            final(self).removed@ == old(self).removed@.push(slot),
            final(self).instances == old(self).instances,
            final(self).rebuild == old(self).rebuild,
            final(self).frame == old(self).frame,
            final(self).warned_module == old(self).warned_module,
    {
        self.removed.push(slot);
    }

    /// Takes note of the nodes of an instance's joints; a palette that changed is to be
    /// written.
    pub fn resolve_palette(&mut self, k: usize, nodes: &Vec<Option<u32>>)
        requires
            old(self).wf(),
            k < old(self).instances@.len(),
        ensures
            final(self).wf(),
            final(self).removed == old(self).removed,
            final(self).rebuild == old(self).rebuild,
            final(self).frame == old(self).frame,
            final(self).warned_module == old(self).warned_module,
            final(self).instances@.len() == old(self).instances@.len(),
            forall|i: int|
                0 <= i < old(self).instances@.len() && i != k ==> final(self).instances@[i]
                    == old(self).instances@[i],
            ({
                let before = old(self).instances@[k as int];
                let after = final(self).instances@[k as int];
                &&& after.joint_nodes@ == palette_of(nodes@)
                &&& after.joints_dirty == (before.joints_dirty || before.joint_nodes@
                    != palette_of(nodes@))
                &&& after.slot == before.slot
                &&& after.source == before.source
                &&& after.gpu == before.gpu
            }),
    {
        let mut palette: Vec<u32> = Vec::new();
        let mut i: usize = 0;
        while i < nodes.len()
            invariant
                i <= nodes@.len(),
                palette@ == palette_of(nodes@.take(i as int)),
            decreases nodes@.len() - i,
        {
            let node: u32 = match nodes[i] {
                Some(node) => node,
                None => NO_NODE,
            };
            palette.push(node);
            assert(palette@ =~= palette_of(nodes@.take(i + 1)));
            i = i + 1;
        }
        assert(nodes@.take(i as int) =~= nodes@);
        let known: &Vec<u32> = &self.instances[k].joint_nodes;
        let mut same: bool = known.len() == palette.len();
        let mut j: usize = 0;
        while same && j < palette.len()
            invariant
                j <= palette@.len(),
                known@ == old(self).instances@[k as int].joint_nodes@,
                same ==> known@.len() == palette@.len(),
                same ==> forall|i: int| 0 <= i < j ==> known@[i] == palette@[i],
                !same ==> known@ != palette@,
            decreases palette@.len() - j,
        {
            if known[j] != palette[j] {
                same = false;
            }
            j = j + 1;
        }
        if same {
            assert(known@ =~= palette@);
        } else {
            self.instances[k].joint_nodes = palette;
            self.instances[k].joints_dirty = true;
        }
    }
}

// ---- preparing the device halves --------------------------------------------------------

/// What the renderer does with a skinned instance's device half.
#[derive(Clone, Copy, Debug, PartialEq, Eq, Structural)]
pub enum SkinAction {
    /// The slot goes back to the mesh that all instances share.
    ClearOverride { slot: u32 },
    /// The device half is given up.
    Destroy { gpu: SkinnedGpu },
    /// The slot's own hit record is given up.
    ReleaseHitOffset { slot: u32 },
    /// The slot is pointed at the deformed structure and its own hit record.
    SetOverride { slot: u32, structure_address: u64, hit_offset: u32 },
}

/// What giving up the device half of `slot` takes.
pub open spec fn give_up(slot: u32, gpu: Option<SkinnedGpu>) -> Seq<SkinAction> {
    match gpu {
        Some(gpu) => seq![SkinAction::Destroy { gpu }, SkinAction::ReleaseHitOffset { slot }],
        None => Seq::empty(),
    }
}

/// The device half of the instance of `slot`, if there is one.
pub open spec fn gpu_of(instances: Seq<SkinnedInstance>, slot: u32) -> Option<SkinnedGpu> {
    match place_of(instances, slot) {
        Some(i) => instances[i].gpu,
        None => None,
    }
}

/// The instances without that of `slot`.
pub open spec fn without(instances: Seq<SkinnedInstance>, slot: u32) -> Seq<SkinnedInstance> {
    match place_of(instances, slot) {
        Some(i) => instances.remove(i),
        None => instances,
    }
}

/// The instances, that of `slot` without its device half.
pub open spec fn bare(instances: Seq<SkinnedInstance>, slot: u32) -> Seq<SkinnedInstance> {
    match place_of(instances, slot) {
        Some(i) => instances.update(i, SkinnedInstance { gpu: None, ..instances[i] }),
        None => instances,
    }
}

/// The instances once each of `slots` was removed.
pub open spec fn all_without(instances: Seq<SkinnedInstance>, slots: Seq<u32>) -> Seq<
    SkinnedInstance,
>
    decreases slots.len(),
{
    if slots.len() == 0 {
        instances
    } else {
        without(all_without(instances, slots.drop_last()), slots.last())
    }
}

/// What removing each of `slots` takes.
pub open spec fn removal_actions(instances: Seq<SkinnedInstance>, slots: Seq<u32>) -> Seq<
    SkinAction,
>
    decreases slots.len(),
{
    if slots.len() == 0 {
        Seq::empty()
    } else {
        let slot = slots.last();
        let left = all_without(instances, slots.drop_last());
        removal_actions(instances, slots.drop_last()).push(SkinAction::ClearOverride { slot })
            + give_up(slot, gpu_of(left, slot))
    }
}

/// The instances once each of `slots` lost its device half.
pub open spec fn all_bare(instances: Seq<SkinnedInstance>, slots: Seq<u32>) -> Seq<SkinnedInstance>
    decreases slots.len(),
{
    if slots.len() == 0 {
        instances
    } else {
        bare(all_bare(instances, slots.drop_last()), slots.last())
    }
}

/// What dropping the device half of each of `slots` takes.
pub open spec fn rebuild_actions(instances: Seq<SkinnedInstance>, slots: Seq<u32>) -> Seq<
    SkinAction,
>
    decreases slots.len(),
{
    if slots.len() == 0 {
        Seq::empty()
    } else {
        let slot = slots.last();
        let left = all_bare(instances, slots.drop_last());
        rebuild_actions(instances, slots.drop_last()).push(SkinAction::ClearOverride { slot })
            + give_up(slot, gpu_of(left, slot))
    }
}

/// The streams of a mesh, on the device.
#[derive(Clone, Copy, Debug, PartialEq, Eq, Structural)]
pub struct MeshStreams {
    pub vertex_buffer: Buffer,
    pub index_buffer: Buffer,
    /// Address of the joints and weights of each vertex, where the mesh is skinned.
    pub skin: Option<u64>,
    pub geometry_to_index: u64,
    pub geometry_to_triangle: u64,
}

/// Inverse bind matrices, on the device.
#[derive(Clone, Copy, Debug, PartialEq, Eq, Structural)]
pub struct BindposeBuffer {
    pub address: u64,
    pub count: u32,
}

/// What a device half is made with.
#[derive(Clone, Copy, Debug, PartialEq, Eq, Structural)]
pub struct SkinPlan {
    pub mesh_vertex_buffer: u64,
    pub vertex_count: u32,
    pub index_count: u32,
    pub triangle_count: u32,
    pub joint_count: u32,
    /// Entries of the palette.
    pub palette_len: u64,
    /// Bytes to copy of the mesh's own streams.
    pub vertex_bytes: u64,
    pub index_bytes: u64,
    pub skin: u64,
    pub inverse_bind: u64,
    pub geometry_to_index: u64,
    pub geometry_to_triangle: u64,
}

/// The smaller of two counts.
pub open spec fn min_count(a: int, b: int) -> int {
    if a < b {
        a
    } else {
        b
    }
}

/// What the device half of an instance with `joints` joints is made with; nothing while the
/// mesh or the bind poses are not there, and for a mesh without a skin, a joint, a vertex or
/// a triangle.
pub open spec fn plan_for(
    joints: nat,
    mesh: Option<MeshStreams>,
    bind: Option<BindposeBuffer>,
) -> Option<SkinPlan> {
    if mesh is None || mesh->0.skin is None || bind is None {
        None
    } else {
        let m = mesh->0;
        let joint_count = min_count(joints as int, bind->0.count as int);
        if joint_count == 0 || m.vertex_buffer.len == 0 || m.index_buffer.len < 3 {
            None
        } else {
            Some(
                SkinPlan {
                    mesh_vertex_buffer: m.vertex_buffer.handle,
                    vertex_count: m.vertex_buffer.len as u32,
                    index_count: m.index_buffer.len as u32,
                    triangle_count: (m.index_buffer.len / 3) as u32,
                    joint_count: joint_count as u32,
                    palette_len: joints as u64,
                    vertex_bytes: (m.vertex_buffer.len * VERTEX_BYTES) as u64,
                    index_bytes: (m.index_buffer.len * 4) as u64,
                    skin: m.skin->0,
                    inverse_bind: bind->0.address,
                    geometry_to_index: m.geometry_to_index,
                    geometry_to_triangle: m.geometry_to_triangle,
                },
            )
        }
    }
}

/// The device half is of another mesh than the one that is there.
pub open spec fn is_stale(gpu: Option<SkinnedGpu>, mesh: Option<MeshStreams>) -> bool {
    gpu is Some && (mesh is None || mesh->0.vertex_buffer.handle != gpu->0.mesh_vertex_buffer)
}

/// Scratch for a structure that is built and refit.
pub fn scratch_size(build: u64, update: u64, alignment: u64) -> (r: u64)
    requires
        build + alignment <= u64::MAX,
        update + alignment <= u64::MAX,
    ensures
        r == alignment + if build > update {
            build
        } else {
            update
        },
{
    if build > update {
        build + alignment
    } else {
        update + alignment
    }
}

impl Skins {
    /// Removes the instance of `slot` and gives up its device half.
    fn remove_slot(&mut self, slot: u32, out: &mut Vec<SkinAction>)
        requires
            old(self).wf(),
        ensures
            final(self).wf(),
            final(self).instances@ == without(old(self).instances@, slot),
            final(out)@ == old(out)@.push(SkinAction::ClearOverride { slot }) + give_up(
                slot,
                gpu_of(old(self).instances@, slot),
            ),
            final(self).removed == old(self).removed,
            final(self).rebuild == old(self).rebuild,
            final(self).frame == old(self).frame,
            final(self).warned_module == old(self).warned_module,
    {
        let ghost before = self.instances@;
        out.push(SkinAction::ClearOverride { slot });
        if let Some(k) = self.find(slot) {
            let gone: SkinnedInstance = self.instances.remove(k);
            proof {
                assert forall|i: int, j: int|
                    0 <= i < j < self.instances@.len() implies (
                #[trigger] self.instances@[i]).slot != (#[trigger] self.instances@[j]).slot by {
                    let i0 = if i < k {
                        i
                    } else {
                        i + 1
                    };
                    let j0 = if j < k {
                        j
                    } else {
                        j + 1
                    };
                    assert(before[i0].slot != before[j0].slot);
                }
            }
            if let Some(gpu) = gone.gpu {
                out.push(SkinAction::Destroy { gpu });
                out.push(SkinAction::ReleaseHitOffset { slot });
            }
        }
        assert(out@ =~= old(out)@.push(SkinAction::ClearOverride { slot }) + give_up(
            slot,
            gpu_of(before, slot),
        ));
    }

    /// Gives up the device half of the instance of `slot`.
    fn bare_slot(&mut self, slot: u32, out: &mut Vec<SkinAction>)
        requires
            old(self).wf(),
        ensures
            final(self).wf(),
            final(self).instances@ == bare(old(self).instances@, slot),
            final(out)@ == old(out)@.push(SkinAction::ClearOverride { slot }) + give_up(
                slot,
                gpu_of(old(self).instances@, slot),
            ),
            final(self).removed == old(self).removed,
            final(self).rebuild == old(self).rebuild,
            final(self).frame == old(self).frame,
            final(self).warned_module == old(self).warned_module,
    {
        let ghost before = self.instances@;
        out.push(SkinAction::ClearOverride { slot });
        if let Some(k) = self.find(slot) {
            let gone: Option<SkinnedGpu> = self.instances[k].gpu;
            self.instances[k].gpu = None;
            assert(self.instances@ =~= bare(before, slot));
            if let Some(gpu) = gone {
                out.push(SkinAction::Destroy { gpu });
                out.push(SkinAction::ReleaseHitOffset { slot });
            }
        }
        assert(out@ =~= old(out)@.push(SkinAction::ClearOverride { slot }) + give_up(
            slot,
            gpu_of(before, slot),
        ));
    }

    /// Starts a frame: removed instances go, and those to rebuild lose their device half. The
    /// slots go back to the shared mesh meanwhile.
    pub fn begin_prepare(&mut self) -> (out: Vec<SkinAction>)
        requires
            old(self).wf(),
        ensures
            final(self).wf(),
            final(self).frame == (if old(self).frame == u32::MAX {
                0
            } else {
                old(self).frame + 1
            }),
            final(self).removed@.len() == 0,
            final(self).rebuild@.len() == 0,
            final(self).warned_module == old(self).warned_module,
            ({
                let left = all_without(old(self).instances@, old(self).removed@);
                &&& final(self).instances@ == all_bare(left, old(self).rebuild@)
                &&& out@ == removal_actions(old(self).instances@, old(self).removed@)
                    + rebuild_actions(left, old(self).rebuild@)
            }),
    {
        let mut out: Vec<SkinAction> = Vec::new();
        let ghost before = self.instances@;
        let ghost removed = self.removed@;
        let ghost rebuild = self.rebuild@;
        self.frame = if self.frame == u32::MAX {
            0
        } else {
            self.frame + 1
        };
        let ghost frame = self.frame;
        let mut k: usize = 0;
        while k < self.removed.len()
            invariant
                k <= removed.len(),
                self.removed@ == removed,
                self.rebuild@ == rebuild,
                self.frame == frame,
                self.warned_module == old(self).warned_module,
                self.wf(),
                self.instances@ == all_without(before, removed.take(k as int)),
                out@ == removal_actions(before, removed.take(k as int)),
            decreases removed.len() - k,
        {
            assert(removed.take(k + 1).drop_last() =~= removed.take(k as int));
            let slot: u32 = self.removed[k];
            self.remove_slot(slot, &mut out);
            k = k + 1;
        }
        assert(removed.take(k as int) =~= removed);
        let ghost left = self.instances@;
        let ghost first = out@;
        let mut j: usize = 0;
        assert(out@ =~= first + rebuild_actions(left, rebuild.take(0)));
        while j < self.rebuild.len()
            invariant
                j <= rebuild.len(),
                self.rebuild@ == rebuild,
                self.frame == frame,
                self.warned_module == old(self).warned_module,
                self.wf(),
                self.instances@ == all_bare(left, rebuild.take(j as int)),
                out@ == first + rebuild_actions(left, rebuild.take(j as int)),
            decreases rebuild.len() - j,
        {
            assert(rebuild.take(j + 1).drop_last() =~= rebuild.take(j as int));
            let slot: u32 = self.rebuild[j];
            self.bare_slot(slot, &mut out);
            assert(out@ =~= first + rebuild_actions(left, rebuild.take(j + 1)));
            j = j + 1;
        }
        assert(rebuild.take(j as int) =~= rebuild);
        self.removed.clear();
        self.rebuild.clear();
        out
    }

    /// Gives up a device half whose mesh is gone or was loaded again.
    pub fn drop_stale(&mut self, k: usize, mesh: Option<MeshStreams>) -> (out: Vec<SkinAction>)
        requires
            old(self).wf(),
            k < old(self).instances@.len(),
        ensures
            final(self).wf(),
            final(self).removed == old(self).removed,
            final(self).rebuild == old(self).rebuild,
            final(self).frame == old(self).frame,
            final(self).warned_module == old(self).warned_module,
            ({
                let before = old(self).instances@[k as int];
                if is_stale(before.gpu, mesh) {
                    &&& final(self).instances@ == old(self).instances@.update(
                        k as int,
                        SkinnedInstance { gpu: None, ..before },
                    )
                    &&& out@ == seq![
                        SkinAction::Destroy { gpu: before.gpu->0 },
                        SkinAction::ReleaseHitOffset { slot: before.slot },
                        SkinAction::ClearOverride { slot: before.slot },
                    ]
                } else {
                    final(self).instances@ == old(self).instances@ && out@.len() == 0
                }
            }),
    {
        let mut out: Vec<SkinAction> = Vec::new();
        let ghost before = self.instances@;
        if let Some(gpu) = self.instances[k].gpu {
            let stale: bool = match mesh {
                Some(m) => m.vertex_buffer.handle != gpu.mesh_vertex_buffer,
                None => true,
            };
            if stale {
                let slot: u32 = self.instances[k].slot;
                self.instances[k].gpu = None;
                assert(self.instances@ =~= before.update(
                    k as int,
                    SkinnedInstance { gpu: None, ..before[k as int] },
                ));
                out.push(SkinAction::Destroy { gpu });
                out.push(SkinAction::ReleaseHitOffset { slot });
                out.push(SkinAction::ClearOverride { slot });
                assert(out@ =~= seq![
                    SkinAction::Destroy { gpu },
                    SkinAction::ReleaseHitOffset { slot },
                    SkinAction::ClearOverride { slot },
                ]);
            }
        }
        out
    }

    /// What the device half of an instance is to be made with, where it has none and can have
    /// one.
    pub fn plan_device(
        &self,
        k: usize,
        mesh: Option<MeshStreams>,
        bind: Option<BindposeBuffer>,
    ) -> (r: Option<SkinPlan>)
        requires
            k < self.instances@.len(),
            self.instances@[k as int].source.joints@.len() <= u32::MAX,
            mesh matches Some(m) ==> m.vertex_buffer.len <= u32::MAX && m.index_buffer.len
                <= u32::MAX,
        ensures
            r == (if self.instances@[k as int].gpu is Some {
                None
            } else {
                plan_for(self.instances@[k as int].source.joints@.len(), mesh, bind)
            }),
    {
        if self.instances[k].gpu.is_some() {
            return None;
        }
        let m: MeshStreams = match mesh {
            Some(m) => m,
            None => return None,
        };
        let skin: u64 = match m.skin {
            Some(skin) => skin,
            None => return None,
        };
        let b: BindposeBuffer = match bind {
            Some(b) => b,
            None => return None,
        };
        let joints: u32 = self.instances[k].source.joints.len() as u32;
        let joint_count: u32 = if joints < b.count {
            joints
        } else {
            b.count
        };
        if joint_count == 0 {
            return None;
        }
        let vertex_count: u32 = m.vertex_buffer.len as u32;
        let index_count: u32 = m.index_buffer.len as u32;
        if vertex_count == 0 || index_count < 3 {
            return None;
        }
        Some(
            SkinPlan {
                mesh_vertex_buffer: m.vertex_buffer.handle,
                vertex_count,
                index_count,
                triangle_count: index_count / 3,
                joint_count,
                palette_len: joints as u64,
                vertex_bytes: vertex_count as u64 * VERTEX_BYTES,
                index_bytes: index_count as u64 * 4,
                skin,
                inverse_bind: b.address,
                geometry_to_index: m.geometry_to_index,
                geometry_to_triangle: m.geometry_to_triangle,
            },
        )
    }

    /// Takes over a device half that was made; its palette is to be written.
    pub fn install(&mut self, k: usize, gpu: SkinnedGpu)
        requires
            old(self).wf(),
            k < old(self).instances@.len(),
        ensures
            final(self).wf(),
            final(self).instances@ == old(self).instances@.update(
                k as int,
                SkinnedInstance {
                    gpu: Some(gpu),
                    joints_dirty: true,
                    ..old(self).instances@[k as int]
                },
            ),
            final(self).removed == old(self).removed,
            final(self).rebuild == old(self).rebuild,
            final(self).frame == old(self).frame,
            final(self).warned_module == old(self).warned_module,
    {
        let ghost before = self.instances@;
        self.instances[k].gpu = Some(gpu);
        self.instances[k].joints_dirty = true;
        assert(self.instances@ =~= before.update(
            k as int,
            SkinnedInstance { gpu: Some(gpu), joints_dirty: true, ..before[k as int] },
        ));
    }

    /// Points an instance's slot at its deformed structure, once that was built.
    pub fn override_of(&self, k: usize) -> (r: Option<SkinAction>)
        requires
            k < self.instances@.len(),
        ensures
            ({
                let i = self.instances@[k as int];
                r == (if i.gpu is Some && i.gpu->0.builds > 0 {
                    Some(
                        SkinAction::SetOverride {
                            slot: i.slot,
                            structure_address: i.gpu->0.structure_address,
                            hit_offset: i.gpu->0.hit_offset,
                        },
                    )
                } else {
                    None
                })
            }),
    {
        match self.instances[k].gpu {
            Some(gpu) => if gpu.builds > 0 {
                Some(
                    SkinAction::SetOverride {
                        slot: self.instances[k].slot,
                        structure_address: gpu.structure_address,
                        hit_offset: gpu.hit_offset,
                    },
                )
            } else {
                None
            },
            None => None,
        }
    }
}

proof fn lemma_without_gone(instances: Seq<SkinnedInstance>, slot: u32)
    requires
        forall|i: int, j: int|
            0 <= i < j < instances.len() ==> (#[trigger] instances[i]).slot != (
            #[trigger] instances[j]).slot,
    ensures
        ({
            let left = without(instances, slot);
            &&& forall|i: int| 0 <= i < left.len() ==> (#[trigger] left[i]).slot != slot
            &&& forall|i: int| 0 <= i < left.len() ==> instances.contains(#[trigger] left[i])
            &&& forall|i: int, j: int|
                0 <= i < j < left.len() ==> (#[trigger] left[i]).slot != (#[trigger] left[j]).slot
        }),
{
    let left = without(instances, slot);
    if let Some(k) = place_of(instances, slot) {
        assert(instances[k].slot == slot);
        assert forall|i: int| 0 <= i < left.len() implies (#[trigger] left[i]).slot != slot by {
            let i0 = if i < k {
                i
            } else {
                i + 1
            };
            assert(left[i] == instances[i0]);
            if i0 < k {
                assert(instances[i0].slot != instances[k].slot);
            } else {
                assert(instances[k].slot != instances[i0].slot);
            }
        }
        assert forall|i: int| 0 <= i < left.len() implies instances.contains(
            #[trigger] left[i],
        ) by {
            let i0 = if i < k {
                i
            } else {
                i + 1
            };
            assert(left[i] == instances[i0]);
        }
        assert forall|i: int, j: int| 0 <= i < j < left.len() implies (#[trigger] left[i]).slot != (
        #[trigger] left[j]).slot by {
            let i0 = if i < k {
                i
            } else {
                i + 1
            };
            let j0 = if j < k {
                j
            } else {
                j + 1
            };
            assert(instances[i0].slot != instances[j0].slot);
        }
    } else {
        assert forall|i: int| 0 <= i < left.len() implies instances.contains(
            #[trigger] left[i],
        ) by {
            assert(instances[i] == left[i]);
        }
        assert forall|i: int| 0 <= i < left.len() implies (#[trigger] left[i]).slot != slot by {
            assert(left[i] == instances[i]);
        }
    }
}

/// Once a frame has started, no removed slot has an instance.
pub proof fn lemma_removed_gone(instances: Seq<SkinnedInstance>, slots: Seq<u32>)
    requires
        forall|i: int, j: int|
            0 <= i < j < instances.len() ==> (#[trigger] instances[i]).slot != (
            #[trigger] instances[j]).slot,
    ensures
        ({
            let left = all_without(instances, slots);
            &&& forall|i: int|
                0 <= i < left.len() ==> !slots.contains((#[trigger] left[i]).slot)
            &&& forall|i: int, j: int|
                0 <= i < j < left.len() ==> (#[trigger] left[i]).slot != (#[trigger] left[j]).slot
        }),
    decreases slots.len(),
{
    if slots.len() > 0 {
        let front = slots.drop_last();
        lemma_removed_gone(instances, front);
        let mid = all_without(instances, front);
        lemma_without_gone(mid, slots.last());
        let left = all_without(instances, slots);
        assert forall|i: int| 0 <= i < left.len() implies !slots.contains(
            (#[trigger] left[i]).slot,
        ) by {
            let j = choose|j: int| 0 <= j < mid.len() && mid[j] == left[i];
            assert(!front.contains(mid[j].slot));
            if slots.contains(left[i].slot) {
                let k = choose|k: int| 0 <= k < slots.len() && slots[k] == left[i].slot;
                if k < front.len() {
                    assert(front[k] == left[i].slot);
                }
            }
        }
    }
}

/// What one frame's hit records call last frame's stream is the one that the frame before them
/// called its own.
pub proof fn lemma_streams_alternate(i: SkinnedInstance, odd: bool)
    requires
        i.gpu is Some,
    ensures
        i.hit_record(odd).prev_vertex_buffer == i.hit_record(!odd).vertex_buffer,
{
}

// ---- what the parts of a frame say of one instance ----------------------------------------

/// How many of the first `n` instances `keep` keeps.
pub open spec fn kept_before(
    instances: Seq<SkinnedInstance>,
    keep: spec_fn(SkinnedInstance) -> bool,
    n: int,
) -> int
    decreases n,
{
    if n <= 0 {
        0
    } else {
        kept_before(instances, keep, n - 1) + if keep(instances[n - 1]) {
            1int
        } else {
            0int
        }
    }
}

proof fn lemma_kept_before_front(
    instances: Seq<SkinnedInstance>,
    keep: spec_fn(SkinnedInstance) -> bool,
    n: int,
)
    requires
        0 <= n < instances.len(),
    ensures
        kept_before(instances.drop_last(), keep, n) == kept_before(instances, keep, n),
    decreases n,
{
    if n > 0 {
        lemma_kept_before_front(instances, keep, n - 1);
        assert(instances.drop_last()[n - 1] == instances[n - 1]);
    }
}

/// What is made of a kept instance stands behind what is made of the kept instances before it.
proof fn lemma_of_instances_at<T>(
    instances: Seq<SkinnedInstance>,
    keep: spec_fn(SkinnedInstance) -> bool,
    f: spec_fn(SkinnedInstance) -> T,
    i: int,
)
    requires
        0 <= i < instances.len(),
        keep(instances[i]),
    ensures
        0 <= kept_before(instances, keep, i) < of_instances(instances, keep, f).len(),
        of_instances(instances, keep, f)[kept_before(instances, keep, i)] == f(instances[i]),
        of_instances(instances, keep, f).len() == kept_before(
            instances,
            keep,
            instances.len() as int,
        ),
    decreases instances.len(),
{
    let front = instances.drop_last();
    let last = instances.len() - 1;
    lemma_of_instances_len(front, keep, f);
    lemma_of_instances_len(instances, keep, f);
    lemma_kept_before_front(instances, keep, last);
    assert(instances.last() == instances[last]);
    if i < last {
        lemma_kept_before_front(instances, keep, i);
        assert(front[i] == instances[i]);
        lemma_of_instances_at(front, keep, f, i);
    }
}

proof fn lemma_of_instances_len<T>(
    instances: Seq<SkinnedInstance>,
    keep: spec_fn(SkinnedInstance) -> bool,
    f: spec_fn(SkinnedInstance) -> T,
)
    ensures
        of_instances(instances, keep, f).len() == kept_before(
            instances,
            keep,
            instances.len() as int,
        ),
    decreases instances.len(),
{
    if instances.len() > 0 {
        let last = instances.len() - 1;
        lemma_of_instances_len(instances.drop_last(), keep, f);
        lemma_kept_before_front(instances, keep, last);
        assert(instances.last() == instances[last]);
    }
}

/// The rest stream and the two deformed streams lie apart.
pub open spec fn streams_apart(gpu: SkinnedGpu) -> bool {
    &&& gpu.rest.address != gpu.even_vertices.address
    &&& gpu.rest.address != gpu.odd_vertices.address
    &&& gpu.even_vertices.address != gpu.odd_vertices.address
}

/// The buffer is one of the two deformed streams, and the address that of the other.
pub open spec fn other_stream(gpu: SkinnedGpu, buffer: Buffer, address: u64) -> bool {
    ||| buffer == gpu.even_vertices && address == gpu.odd_vertices.address
    ||| buffer == gpu.odd_vertices && address == gpu.even_vertices.address
}

/// Every part of a frame that speaks of an instance speaks of the same streams. The instance's
/// structure is built over the vertices, its triangles are packed from the vertices, and rays
/// that hit it read the vertices that the same frame's kernel writes, which are never those of
/// the rest pose that it reads; nor are they those that rays take for last frame's.
pub proof fn lemma_one_stream(skins: Skins, world: u64, node_count: u32, i: int)
    requires
        skins.scratch_fits(),
        0 <= i < skins.instances@.len(),
        skins.instances@[i].gpu matches Some(gpu) && streams_apart(gpu),
        skins.instances@[i].source.node < node_count,
    ensures
        ({
            let instance = skins.instances@[i];
            let gpu = instance.gpu->0;
            let k = kept_before(
                skins.instances@,
                |x: SkinnedInstance| x.gpu is Some && x.source.node < node_count,
                i,
            );
            let h = kept_before(skins.instances@, |x: SkinnedInstance| x.gpu is Some, i);
            let deforms = skins.deform_dispatches(world, node_count);
            let packs = skins.pack_dispatches(node_count);
            let builds = skins.skin_builds(node_count);
            let hits = of_instances(
                skins.instances@,
                |x: SkinnedInstance| x.gpu is Some,
                |x: SkinnedInstance| x.hit_record(skins.is_odd()),
            );
            let build = builds[k];
            let hit = hits[h];
            &&& 0 <= k < deforms.len()
            &&& deforms.len() == packs.len() == builds.len()
            &&& 0 <= h < hits.len()
            &&& match (deforms[k], packs[k]) {
                (
                    Command::Dispatch { kernel: skin, params: Params::Skin(s), threads: vertices },
                    Command::Dispatch { kernel: pack, params: Params::Pack(p), threads: triangles },
                ) => {
                    // The kernel reads the rest pose and the instance's own palette and joints.
                    &&& skin == Kernel::SkinVertices
                    &&& s.rest == gpu.rest.address
                    &&& s.skin == gpu.skin
                    &&& s.world == world
                    &&& s.joint_nodes == gpu.joint_nodes.address
                    &&& s.inverse_bind == gpu.inverse_bind
                    &&& s.joint_count == gpu.joint_count
                    &&& s.mesh_node == instance.source.node
                    // One thread for each vertex, from the first on.
                    &&& s.base == 0
                    &&& s.count == gpu.vertex_count
                    &&& vertices == s.count
                    // What it writes is what everything else reads.
                    &&& p.vertices == s.dst
                    &&& build.vertices == s.dst
                    &&& hit.vertex_buffer == s.dst
                    &&& s.dst != s.rest
                    &&& hit.prev_vertex_buffer != s.dst
                    &&& hit.prev_vertex_buffer != s.rest
                    &&& exists|own: Buffer|
                        #![trigger own.address]
                        own.address == s.dst && other_stream(gpu, own, hit.prev_vertex_buffer)
                    // The triangles are those of the instance, and all of them.
                    &&& pack == Kernel::PackTriangles
                    &&& p.base == 0
                    &&& p.count == gpu.triangle_count
                    &&& triangles == p.count
                    &&& p.indices == gpu.index_buffer.address
                    &&& hit.index_buffer == p.indices
                    &&& p.triangles == gpu.triangles.address
                    &&& hit.triangle_buffer == p.triangles
                    // The structure is the instance's own, built over all of its geometry.
                    &&& build.structure == gpu.structure
                    &&& build.indices == p.indices
                    &&& build.vertex_count == s.count
                    &&& build.triangle_count == p.count
                    &&& build.scratch as int % gpu.scratch_alignment as int == 0
                    &&& gpu.scratch.address <= build.scratch < gpu.scratch.address
                        + gpu.scratch_alignment
                    // And rays find the instance by its own records.
                    &&& hit.hit_offset == gpu.hit_offset
                    &&& hit.geometry_to_index == gpu.geometry_to_index
                    &&& hit.geometry_to_triangle == gpu.geometry_to_triangle
                },
                _ => false,
            }
        }),
{
    let odd = skins.is_odd();
    let gpu = skins.instances@[i].gpu->0;
    let keep = |x: SkinnedInstance| x.deforms(node_count);
    let alike = |x: SkinnedInstance| x.gpu is Some && x.source.node < node_count;
    assert(keep =~= alike);
    let has = |x: SkinnedInstance| x.gpu is Some;
    let deform = |x: SkinnedInstance| x.deform_dispatch(odd, world);
    let pack = |x: SkinnedInstance| x.pack_dispatch(odd);
    let build = |x: SkinnedInstance| x.build(odd);
    lemma_of_instances_at(skins.instances@, keep, deform, i);
    lemma_of_instances_at(skins.instances@, keep, pack, i);
    lemma_of_instances_at(skins.instances@, keep, build, i);
    lemma_of_instances_at(
        skins.instances@,
        has,
        |x: SkinnedInstance| x.hit_record(skins.is_odd()),
        i,
    );
    lemma_aligned(gpu.scratch.address as int, gpu.scratch_alignment as int);
    let own = if odd {
        gpu.odd_vertices
    } else {
        gpu.even_vertices
    };
    assert(other_stream(gpu, own, skins.instances@[i].hit_record(odd).prev_vertex_buffer));
}

/// What one frame deforms an instance into, the next frame's rays take for last frame's
/// vertices, and the next frame deforms it into the other stream.
pub proof fn lemma_streams_swap(skins: Skins, later: Skins, world: u64, node_count: u32, i: int)
    requires
        0 <= i < skins.instances@.len(),
        later.instances@.len() == skins.instances@.len(),
        skins.instances@[i].gpu matches Some(gpu) && streams_apart(gpu),
        later.instances@[i] == skins.instances@[i].recorded(node_count),
        later.frame == if skins.frame == u32::MAX {
            0
        } else {
            (skins.frame + 1) as u32
        },
    ensures
        ({
            let now = skins.instances@[i].deform_dispatch(skins.is_odd(), world);
            let then = later.instances@[i].deform_dispatch(later.is_odd(), world);
            let hit = later.instances@[i].hit_record(later.is_odd());
            match (now, then) {
                (
                    Command::Dispatch { params: Params::Skin(a), .. },
                    Command::Dispatch { params: Params::Skin(b), .. },
                ) => {
                    &&& hit.prev_vertex_buffer == a.dst
                    &&& b.dst != a.dst
                    &&& b.rest == a.rest
                },
                _ => false,
            }
        }),
{
}

/// Before its first build an instance's rest pose is copied, whole, to where rays look for last
/// frame's vertices, so that nothing seems to move; an instance that was deformed is not copied
/// again. A palette is written before the first frame that reads it, and not again until it
/// changes.
pub proof fn lemma_first_frame(skins: Skins, node_count: u32, i: int)
    requires
        0 <= i < skins.instances@.len(),
        skins.instances@[i].gpu matches Some(gpu) && streams_apart(gpu),
    ensures
        ({
            let instance = skins.instances@[i];
            let gpu = instance.gpu->0;
            let after = instance.recorded(node_count);
            let hit = instance.hit_record(skins.is_odd());
            let c = kept_before(
                skins.instances@,
                |x: SkinnedInstance| x.gpu is Some && x.gpu->0.builds == 0,
                i,
            );
            let p = kept_before(
                skins.instances@,
                |x: SkinnedInstance| x.gpu is Some && x.joints_dirty,
                i,
            );
            &&& gpu.builds == 0 ==> 0 <= c < skins.history_copies().len() && (
            skins.history_copies()[c] matches Command::Copy { src, dst, size } && {
                &&& src == gpu.rest.handle
                &&& size == gpu.vertex_count * 32
                &&& dst == if hit.prev_vertex_buffer == gpu.even_vertices.address {
                    gpu.even_vertices.handle
                } else {
                    gpu.odd_vertices.handle
                }
            })
            &&& instance.joints_dirty ==> 0 <= p < skins.palette_slots().len()
                && skins.palette_slots()[p] == instance.slot
            // What the frame leaves.
            &&& after.gpu matches Some(left) && {
                &&& !after.joints_dirty
                &&& left == SkinnedGpu { builds: left.builds, ..gpu }
                &&& instance.source.node >= node_count ==> left.builds == gpu.builds
                &&& instance.source.node < node_count ==> left.builds != 0 && (gpu.builds
                    < u32::MAX ==> left.builds == gpu.builds + 1)
            }
            &&& after.slot == instance.slot
            &&& after.source == instance.source
            &&& after.joint_nodes == instance.joint_nodes
        }),
{
    let instance = skins.instances@[i];
    if instance.gpu->0.builds == 0 {
        lemma_of_instances_at(
            skins.instances@,
            |x: SkinnedInstance| x.gpu is Some && x.gpu->0.builds == 0,
            |x: SkinnedInstance| x.history_copy(skins.is_odd()),
            i,
        );
    }
    if instance.joints_dirty {
        lemma_of_instances_at(
            skins.instances@,
            |x: SkinnedInstance| x.gpu is Some && x.joints_dirty,
            |x: SkinnedInstance| x.slot,
            i,
        );
    }
}

/// The command runs this kernel, over all of its threads.
pub open spec fn runs(c: Command, kernel: Kernel) -> bool {
    c matches Command::Dispatch { kernel: k, .. } && k == kernel
}

/// It is made of an instance that `keep` keeps.
spec fn made_of<T>(
    instances: Seq<SkinnedInstance>,
    keep: spec_fn(SkinnedInstance) -> bool,
    f: spec_fn(SkinnedInstance) -> T,
    made: T,
) -> bool {
    exists|i: int| 0 <= i < instances.len() && keep(#[trigger] instances[i]) && made
        == f(instances[i])
}

/// All that is made is made of kept instances.
proof fn lemma_all_made<T>(
    instances: Seq<SkinnedInstance>,
    keep: spec_fn(SkinnedInstance) -> bool,
    f: spec_fn(SkinnedInstance) -> T,
)
    ensures
        forall|k: int|
            0 <= k < of_instances(instances, keep, f).len() ==> made_of(
                instances,
                keep,
                f,
                #[trigger] of_instances(instances, keep, f)[k],
            ),
    decreases instances.len(),
{
    if instances.len() > 0 {
        let front = instances.drop_last();
        let last = instances.len() - 1;
        lemma_all_made(front, keep, f);
        let made = of_instances(instances, keep, f);
        let before = of_instances(front, keep, f);
        assert forall|k: int| 0 <= k < made.len() implies made_of(
            instances,
            keep,
            f,
            #[trigger] made[k],
        ) by {
            if k < before.len() {
                assert(made[k] == before[k]);
                assert(made_of(front, keep, f, before[k]));
                let i = choose|i: int|
                    0 <= i < front.len() && keep(#[trigger] front[i]) && before[k] == f(front[i]);
                assert(instances[i] == front[i]);
            } else {
                assert(instances[last] == instances.last());
                assert(keep(instances[last]) && made[k] == f(instances[last]));
            }
        }
    }
}

/// Each stage of a frame waits for the one before it: kernels for the copied history, the packing
/// for every deformed vertex, and the builds and rays for all of it.
pub proof fn lemma_stages_ordered(skins: Skins, world: u64, node_count: u32)
    ensures
        ({
            let c = skins.commands_of(world, node_count);
            &&& forall|i: int, j: int|
                #![trigger c[i], c[j]]
                0 <= i < c.len() && 0 <= j < c.len() && c[i] is Copy && c[j] is Dispatch
                    ==> ordered(
                    c,
                    i,
                    j,
                    STAGE_TRANSFER,
                    ACCESS_TRANSFER_WRITE,
                    STAGE_COMPUTE_SHADER,
                    ACCESS_SHADER_READ,
                )
            &&& forall|i: int, j: int|
                #![trigger c[i], c[j]]
                0 <= i < c.len() && 0 <= j < c.len() && runs(c[i], Kernel::SkinVertices) && runs(
                    c[j],
                    Kernel::PackTriangles,
                ) ==> ordered(
                    c,
                    i,
                    j,
                    STAGE_COMPUTE_SHADER,
                    ACCESS_SHADER_WRITE,
                    STAGE_COMPUTE_SHADER,
                    ACCESS_SHADER_READ,
                )
            &&& forall|i: int|
                0 <= i < c.len() && #[trigger] c[i] is Dispatch ==> ordered(
                    c,
                    i,
                    c.len() as int,
                    STAGE_COMPUTE_SHADER,
                    ACCESS_SHADER_WRITE,
                    STAGE_ACCELERATION_STRUCTURE_BUILD,
                    ACCESS_ACCELERATION_STRUCTURE_READ,
                ) && ordered(
                    c,
                    i,
                    c.len() as int,
                    STAGE_COMPUTE_SHADER,
                    ACCESS_SHADER_WRITE,
                    STAGE_RAY_TRACING_SHADER,
                    ACCESS_SHADER_READ,
                )
            &&& forall|i: int|
                0 <= i < c.len() && #[trigger] c[i] is Copy ==> ordered(
                    c,
                    i,
                    c.len() as int,
                    STAGE_TRANSFER,
                    ACCESS_TRANSFER_WRITE,
                    STAGE_RAY_TRACING_SHADER,
                    ACCESS_SHADER_READ,
                )
        }),
        builds_to_rays() matches Command::Barrier(b) && orders(
            b,
            STAGE_ACCELERATION_STRUCTURE_BUILD,
            ACCESS_ACCELERATION_STRUCTURE_WRITE,
            STAGE_RAY_TRACING_SHADER,
            ACCESS_ACCELERATION_STRUCTURE_READ,
        ) && orders(
            b,
            STAGE_ACCELERATION_STRUCTURE_BUILD,
            ACCESS_ACCELERATION_STRUCTURE_WRITE,
            STAGE_ACCELERATION_STRUCTURE_BUILD,
            ACCESS_ACCELERATION_STRUCTURE_READ,
        ),
{
    let odd = skins.is_odd();
    let c = skins.commands_of(world, node_count);
    let copies = skins.history_copies();
    let deforms = skins.deform_dispatches(world, node_count);
    let packs = skins.pack_dispatches(node_count);
    lemma_includes(STAGE_COMPUTE_SHADER, STAGE_RAY_TRACING_SHADER);
    lemma_includes(STAGE_COMPUTE_SHADER, STAGE_DRAW_INDIRECT);
    lemma_includes(STAGE_ACCELERATION_STRUCTURE_BUILD, STAGE_RAY_TRACING_SHADER);
    lemma_includes(ACCESS_ACCELERATION_STRUCTURE_READ, ACCESS_SHADER_READ);
    lemma_includes(STAGE_TRANSFER, STAGE_TRANSFER);
    lemma_includes(ACCESS_TRANSFER_WRITE, ACCESS_TRANSFER_WRITE);
    lemma_includes(ACCESS_SHADER_READ, ACCESS_SHADER_READ);
    lemma_includes(ACCESS_SHADER_WRITE, ACCESS_SHADER_WRITE);
    lemma_includes(ACCESS_SHADER_READ, ACCESS_SHADER_WRITE);
    lemma_includes(ACCESS_SHADER_READ | ACCESS_SHADER_WRITE, ACCESS_INDIRECT_COMMAND_READ);
    lemma_includes(ACCESS_ACCELERATION_STRUCTURE_WRITE, ACCESS_ACCELERATION_STRUCTURE_READ);
    let keep = |x: SkinnedInstance| x.deforms(node_count);
    lemma_all_made(
        skins.instances@,
        |x: SkinnedInstance| x.gpu is Some && x.gpu->0.builds == 0,
        |x: SkinnedInstance| x.history_copy(odd),
    );
    lemma_all_made(
        skins.instances@,
        keep,
        |x: SkinnedInstance| x.deform_dispatch(odd, world),
    );
    lemma_all_made(skins.instances@, keep, |x: SkinnedInstance| x.pack_dispatch(odd));
    assert(forall|k: int| 0 <= k < copies.len() ==> #[trigger] copies[k] is Copy);
    assert(forall|k: int|
        0 <= k < deforms.len() ==> runs(#[trigger] deforms[k], Kernel::SkinVertices));
    assert(forall|k: int|
        0 <= k < packs.len() ==> runs(#[trigger] packs[k], Kernel::PackTriangles));
    let first = copies.len() as int;
    let history = if first > 0 {
        first + 1
    } else {
        first
    };
    let second = history + deforms.len();
    let third = second + 1 + packs.len();
    if first > 0 {
        assert(c[first] == transfer_to_kernels_and_rays());
    }
    if deforms.len() > 0 {
        assert(c.len() == third + 1);
        assert(c[second] == compute_to_compute());
        assert(c[third] == kernels_to_builds());
    } else {
        assert(c.len() == history);
    }
    assert forall|i: int| 0 <= i < c.len() implies if i < first {
        #[trigger] c[i] is Copy
    } else if i < history {
        c[i] is Barrier
    } else if i < second {
        runs(c[i], Kernel::SkinVertices)
    } else if i == second || i == third {
        c[i] is Barrier
    } else {
        runs(c[i], Kernel::PackTriangles)
    } by {
        if i < first {
            assert(c[i] == copies[i]);
        } else if history <= i < second {
            assert(c[i] == deforms[i - history]);
        } else if second < i < third {
            assert(c[i] == packs[i - second - 1]);
        }
    }
    assert forall|i: int, j: int|
        #![trigger c[i], c[j]]
        0 <= i < c.len() && 0 <= j < c.len() && c[i] is Copy && c[j] is Dispatch implies ordered(
        c,
        i,
        j,
        STAGE_TRANSFER,
        ACCESS_TRANSFER_WRITE,
        STAGE_COMPUTE_SHADER,
        ACCESS_SHADER_READ,
    ) by {
        assert(i < first < j);
    }
    assert forall|i: int, j: int|
        #![trigger c[i], c[j]]
        0 <= i < c.len() && 0 <= j < c.len() && runs(c[i], Kernel::SkinVertices) && runs(
            c[j],
            Kernel::PackTriangles,
        ) implies ordered(
        c,
        i,
        j,
        STAGE_COMPUTE_SHADER,
        ACCESS_SHADER_WRITE,
        STAGE_COMPUTE_SHADER,
        ACCESS_SHADER_READ,
    ) by {
        assert(i < second < j);
        assert(includes(
            ACCESS_SHADER_READ | ACCESS_SHADER_WRITE | ACCESS_INDIRECT_COMMAND_READ,
            ACCESS_SHADER_READ | ACCESS_SHADER_WRITE,
        ));
    }
    assert forall|i: int| 0 <= i < c.len() && #[trigger] c[i] is Dispatch implies ordered(
        c,
        i,
        c.len() as int,
        STAGE_COMPUTE_SHADER,
        ACCESS_SHADER_WRITE,
        STAGE_ACCELERATION_STRUCTURE_BUILD,
        ACCESS_ACCELERATION_STRUCTURE_READ,
    ) && ordered(
        c,
        i,
        c.len() as int,
        STAGE_COMPUTE_SHADER,
        ACCESS_SHADER_WRITE,
        STAGE_RAY_TRACING_SHADER,
        ACCESS_SHADER_READ,
    ) by {
        assert(i < third < c.len());
    }
    assert forall|i: int| 0 <= i < c.len() && #[trigger] c[i] is Copy implies ordered(
        c,
        i,
        c.len() as int,
        STAGE_TRANSFER,
        ACCESS_TRANSFER_WRITE,
        STAGE_RAY_TRACING_SHADER,
        ACCESS_SHADER_READ,
    ) by {
        assert(i < first < c.len());
    }
}

/// A device half is planned exactly where the mesh, its skin and its bind poses are there and none
/// of them is empty. It has as many joints as both the instance and its bind poses have, a palette
/// for all of the instance's, and room for the whole of the mesh's own streams.
pub proof fn lemma_skin_plan(
    joints: nat,
    mesh: Option<MeshStreams>,
    bind: Option<BindposeBuffer>,
)
    requires
        joints <= u32::MAX,
        mesh matches Some(m) ==> m.vertex_buffer.len <= u32::MAX && m.index_buffer.len <= u32::MAX,
    ensures
        plan_for(joints, mesh, bind) is Some <==> mesh is Some && bind is Some
            && mesh->0.skin is Some
            && joints > 0 && bind->0.count > 0 && mesh->0.vertex_buffer.len > 0
            && mesh->0.index_buffer.len >= 3,
        plan_for(joints, mesh, bind) matches Some(p) ==> {
            let m = mesh->0;
            &&& 0 < p.joint_count <= joints
            &&& p.joint_count <= bind->0.count
            &&& p.joint_count == joints || p.joint_count == bind->0.count
            &&& p.palette_len == joints
            &&& p.mesh_vertex_buffer == m.vertex_buffer.handle
            &&& p.vertex_count == m.vertex_buffer.len
            &&& p.index_count == m.index_buffer.len
            &&& 3 * p.triangle_count <= p.index_count < 3 * p.triangle_count + 3
            &&& p.vertex_bytes == 32 * p.vertex_count
            &&& p.index_bytes == 4 * p.index_count
            &&& m.skin == Some(p.skin)
            &&& p.inverse_bind == bind->0.address
            &&& p.geometry_to_index == m.geometry_to_index
            &&& p.geometry_to_triangle == m.geometry_to_triangle
        },
{
}

proof fn lemma_without_keeps(instances: Seq<SkinnedInstance>, slot: u32, x: SkinnedInstance)
    requires
        instances.contains(x),
        x.slot != slot,
    ensures
        without(instances, slot).contains(x),
{
    let j = choose|j: int| 0 <= j < instances.len() && instances[j] == x;
    if exists|i: int| 0 <= i < instances.len() && (#[trigger] instances[i]).slot == slot {
        let i = choose|i: int| 0 <= i < instances.len() && (#[trigger] instances[i]).slot == slot;
        assert(place_of(instances, slot) == Some(i));
        if j < i {
            assert(instances.remove(i)[j] == x);
        } else {
            assert(instances.remove(i)[j - 1] == x);
        }
    }
}

proof fn lemma_all_without_keeps(
    instances: Seq<SkinnedInstance>,
    slots: Seq<u32>,
    x: SkinnedInstance,
)
    requires
        instances.contains(x),
        !slots.contains(x.slot),
    ensures
        all_without(instances, slots).contains(x),
    decreases slots.len(),
{
    if slots.len() > 0 {
        let front = slots.drop_last();
        assert(slots[slots.len() - 1] == slots.last());
        if front.contains(x.slot) {
            let k = choose|k: int| 0 <= k < front.len() && front[k] == x.slot;
            assert(slots[k] == x.slot);
        }
        lemma_all_without_keeps(instances, front, x);
        lemma_without_keeps(all_without(instances, front), slots.last(), x);
    }
}

/// Whatever an instance that goes away held is given up: its device half is destroyed, its hit
/// records are released, and its slot points at the plain mesh again; an instance that does not
/// go is still there, as it was.
pub proof fn lemma_removal_frees(
    instances: Seq<SkinnedInstance>,
    slots: Seq<u32>,
    x: SkinnedInstance,
)
    requires
        forall|i: int, j: int|
            0 <= i < j < instances.len() ==> (#[trigger] instances[i]).slot != (
            #[trigger] instances[j]).slot,
        instances.contains(x),
    ensures
        !slots.contains(x.slot) ==> all_without(instances, slots).contains(x),
        slots.contains(x.slot) ==> removal_actions(instances, slots).contains(
            SkinAction::ClearOverride { slot: x.slot },
        ),
        slots.contains(x.slot) ==> (x.gpu matches Some(gpu) ==> removal_actions(
            instances,
            slots,
        ).contains(SkinAction::Destroy { gpu }) && removal_actions(instances, slots).contains(
            SkinAction::ReleaseHitOffset { slot: x.slot },
        )),
    decreases slots.len(),
{
    if !slots.contains(x.slot) {
        lemma_all_without_keeps(instances, slots, x);
    } else {
        let front = slots.drop_last();
        let slot = slots.last();
        let left = all_without(instances, front);
        let a = removal_actions(instances, front);
        let b = a.push(SkinAction::ClearOverride { slot });
        let c = give_up(slot, gpu_of(left, slot));
        let all = removal_actions(instances, slots);
        assert(all == b + c);
        assert forall|e: SkinAction| #[trigger] a.contains(e) implies all.contains(e) by {
            let k = choose|k: int| 0 <= k < a.len() && a[k] == e;
            assert(all[k] == e);
        }
        if front.contains(x.slot) {
            lemma_removal_frees(instances, front, x);
        } else {
            let k = choose|k: int| 0 <= k < slots.len() && slots[k] == x.slot;
            if k < front.len() {
                assert(front[k] == x.slot);
            }
            assert(slot == x.slot);
            assert(all[a.len() as int] == (SkinAction::ClearOverride { slot }));
            lemma_all_without_keeps(instances, front, x);
            lemma_removed_gone(instances, front);
            let j = choose|j: int| 0 <= j < left.len() && left[j] == x;
            let p = choose|i: int| 0 <= i < left.len() && (#[trigger] left[i]).slot == slot;
            assert(left[j].slot == slot);
            assert(p == j) by {
                if p < j {
                    assert(left[p].slot != left[j].slot);
                } else if j < p {
                    assert(left[j].slot != left[p].slot);
                }
            }
            if let Some(gpu) = x.gpu {
                assert(gpu_of(left, slot) == Some(gpu));
                assert forall|i: int| 0 <= i < c.len() implies all.contains(#[trigger] c[i]) by {
                    assert(all[b.len() + i] == c[i]);
                }
                assert(all.contains(c[0]) && all.contains(c[1]));
            }
        }
    }
}

/// With a device half goes its structure and every buffer that was made for it, each once; the
/// mesh's own skin, tables and bind poses, which others share, stay.
pub proof fn lemma_all_doomed(gpu: SkinnedGpu)
    ensures
        gpu.doomed().len() == 9,
        gpu.doomed().contains(Doomed::AccelerationStructure(gpu.structure)),
        gpu.doomed().contains(Doomed::Buffer(gpu.structure_buffer)),
        gpu.doomed().contains(Doomed::Buffer(gpu.rest.handle)),
        gpu.doomed().contains(Doomed::Buffer(gpu.index_buffer.handle)),
        gpu.doomed().contains(Doomed::Buffer(gpu.even_vertices.handle)),
        gpu.doomed().contains(Doomed::Buffer(gpu.odd_vertices.handle)),
        gpu.doomed().contains(Doomed::Buffer(gpu.triangles.handle)),
        gpu.doomed().contains(Doomed::Buffer(gpu.joint_nodes.handle)),
        gpu.doomed().contains(Doomed::Buffer(gpu.scratch.handle)),
{
    let d = gpu.doomed();
    assert(d.contains(d[0]) && d.contains(d[1]) && d.contains(d[2]) && d.contains(d[3]));
    assert(d.contains(d[4]) && d.contains(d[5]) && d.contains(d[6]) && d.contains(d[7]));
    assert(d.contains(d[8]));
}

} // verus!
