//! What a plan asks the device to do, command by command, and the parameter blocks of the
//! kernels.

use crate::record::lemma_word64_at;
use crate::wire::{
    le32, le64, lemma_word32_local, lemma_word32_of_le32, lemma_word64_of_le64, put_u32, put_u64,
    word32, word64,
};
use vstd::prelude::*;

verus! {

// Pipeline stages, as the device numbers them.
pub const STAGE_DRAW_INDIRECT: u64 = 0x2;

pub const STAGE_FRAGMENT_SHADER: u64 = 0x80;

pub const STAGE_COMPUTE_SHADER: u64 = 0x800;

pub const STAGE_TRANSFER: u64 = 0x1000;

pub const STAGE_ALL_COMMANDS: u64 = 0x1_0000;

pub const STAGE_RAY_TRACING_SHADER: u64 = 0x20_0000;

pub const STAGE_ACCELERATION_STRUCTURE_BUILD: u64 = 0x200_0000;

pub const STAGE_MICROMAP_BUILD: u64 = 0x4000_0000;

// Memory accesses, as the device numbers them.
pub const ACCESS_INDIRECT_COMMAND_READ: u64 = 0x1;

pub const ACCESS_SHADER_READ: u64 = 0x20;

pub const ACCESS_SHADER_WRITE: u64 = 0x40;

pub const ACCESS_TRANSFER_WRITE: u64 = 0x1000;

pub const ACCESS_MEMORY_READ: u64 = 0x8000;

pub const ACCESS_MEMORY_WRITE: u64 = 0x1_0000;

pub const ACCESS_SHADER_STORAGE_WRITE: u64 = 0x4_0000_0000;

pub const ACCESS_ACCELERATION_STRUCTURE_READ: u64 = 0x20_0000;

pub const ACCESS_ACCELERATION_STRUCTURE_WRITE: u64 = 0x40_0000;

pub const ACCESS_MICROMAP_READ: u64 = 0x1000_0000_0000;

pub const ACCESS_MICROMAP_WRITE: u64 = 0x2000_0000_0000;

/// Asks for the whole of a buffer.
pub const WHOLE_SIZE: u64 = 0xFFFF_FFFF_FFFF_FFFF;

/// A device buffer: its handle (0 where there is none), its device address and its length in
/// elements.
#[derive(Clone, Copy, Debug, PartialEq, Eq, Structural)]
pub struct Buffer {
    pub handle: u64,
    pub address: u64,
    pub len: u64,
}

/// No buffer.
pub open spec fn no_buffer() -> Buffer {
    Buffer { handle: 0, address: 0, len: 0 }
}

impl Default for Buffer {
    fn default() -> (b: Self)
        ensures
            b == no_buffer(),
    {
        Buffer { handle: 0, address: 0, len: 0 }
    }
}

/// Makes the writes of one set of stages visible to another.
#[derive(Clone, Copy, Debug, PartialEq, Eq, Structural)]
pub struct MemoryBarrier {
    pub src_stage: u64,
    pub src_access: u64,
    pub dst_stage: u64,
    pub dst_access: u64,
}

/// The kernels.
#[derive(Clone, Copy, Debug, PartialEq, Eq, Structural)]
pub enum Kernel {
    ScatterLocals,
    ScatterU32,
    FrontierSeed,
    FrontierFinalize,
    FrontierExpand,
    Propagate,
    SkinVertices,
    PackTriangles,
    LightPowers,
    LightScan,
    SharcResolve,
    AtmoTransmittance,
    AtmoMultiscatter,
    AtmoSkyview,
    CloudNoise,
    AeHistogram,
    AeResolve,
}

impl Kernel {
    /// The entry point of the kernel.
    pub open spec fn spec_name(self) -> Seq<char> {
        match self {
            Kernel::ScatterLocals => "scatter_locals"@,
            Kernel::ScatterU32 => "scatter_u32"@,
            Kernel::FrontierSeed => "frontier_seed"@,
            Kernel::FrontierFinalize => "frontier_finalize"@,
            Kernel::FrontierExpand => "frontier_expand"@,
            Kernel::Propagate => "propagate"@,
            Kernel::SkinVertices => "skin_vertices"@,
            Kernel::PackTriangles => "pack_triangles"@,
            Kernel::LightPowers => "light_powers"@,
            Kernel::LightScan => "light_scan"@,
            Kernel::SharcResolve => "sharc_resolve"@,
            Kernel::AtmoTransmittance => "atmo_transmittance"@,
            Kernel::AtmoMultiscatter => "atmo_multiscatter"@,
            Kernel::AtmoSkyview => "atmo_skyview"@,
            Kernel::CloudNoise => "cloud_noise"@,
            Kernel::AeHistogram => "ae_histogram"@,
            Kernel::AeResolve => "ae_resolve"@,
        }
    }

    /// The entry point of the kernel.
    pub fn name(&self) -> (r: &'static str)
        ensures
            r@ == self.spec_name(),
    {
        match self {
            Kernel::ScatterLocals => "scatter_locals",
            Kernel::ScatterU32 => "scatter_u32",
            Kernel::FrontierSeed => "frontier_seed",
            Kernel::FrontierFinalize => "frontier_finalize",
            Kernel::FrontierExpand => "frontier_expand",
            Kernel::Propagate => "propagate",
            Kernel::SkinVertices => "skin_vertices",
            Kernel::PackTriangles => "pack_triangles",
            Kernel::LightPowers => "light_powers",
            Kernel::LightScan => "light_scan",
            Kernel::SharcResolve => "sharc_resolve",
            Kernel::AtmoTransmittance => "atmo_transmittance",
            Kernel::AtmoMultiscatter => "atmo_multiscatter",
            Kernel::AtmoSkyview => "atmo_skyview",
            Kernel::CloudNoise => "cloud_noise",
            Kernel::AeHistogram => "ae_histogram",
            Kernel::AeResolve => "ae_resolve",
        }
    }
}

/// Scatters changed locals into the node table.
#[derive(Clone, Copy, Debug, PartialEq, Eq, Structural)]
pub struct ScatterLocalsParams {
    pub records: u64,
    pub locals: u64,
    pub count: u32,
    pub base: u32,
}

impl ScatterLocalsParams {
    /// The block as the kernel reads it.
    pub open spec fn layout(self) -> Seq<u8> {
        le64(self.records) + le64(self.locals) + le32(self.count) + le32(self.base)
    }

    /// Lays out the block.
    pub fn bytes(&self) -> (r: Vec<u8>)
        ensures
            r@ == self.layout(),
            r@.len() == 24,
    {
        let mut r: Vec<u8> = Vec::new();
        broadcast use {lemma_word32_of_le32, lemma_word64_of_le64};

        put_u64(&mut r, self.records);
        put_u64(&mut r, self.locals);
        put_u32(&mut r, self.count);
        put_u32(&mut r, self.base);
        assert(r@ =~= self.layout());
        r
    }
}

/// Scatters changed words into one column of the node table.
#[derive(Clone, Copy, Debug, PartialEq, Eq, Structural)]
pub struct ScatterU32Params {
    pub records: u64,
    pub dst: u64,
    pub count: u32,
    pub base: u32,
}

impl ScatterU32Params {
    /// The block as the kernel reads it.
    pub open spec fn layout(self) -> Seq<u8> {
        le64(self.records) + le64(self.dst) + le32(self.count) + le32(self.base)
    }

    /// Lays out the block.
    pub fn bytes(&self) -> (r: Vec<u8>)
        ensures
            r@ == self.layout(),
            r@.len() == 24,
    {
        let mut r: Vec<u8> = Vec::new();
        broadcast use {lemma_word32_of_le32, lemma_word64_of_le64};

        put_u64(&mut r, self.records);
        put_u64(&mut r, self.dst);
        put_u32(&mut r, self.count);
        put_u32(&mut r, self.base);
        assert(r@ =~= self.layout());
        r
    }
}

/// Starts the frontier with the nodes whose local changed.
#[derive(Clone, Copy, Debug, PartialEq, Eq, Structural)]
pub struct FrontierSeedParams {
    pub records: u64,
    pub frontier: u64,
    pub epoch: u64,
    pub count: u32,
    pub base: u32,
    pub frame_id: u32,
    pub node_count: u32,
}

impl FrontierSeedParams {
    /// The block as the kernel reads it.
    pub open spec fn layout(self) -> Seq<u8> {
        le64(self.records) + le64(self.frontier) + le64(self.epoch) + le32(self.count)
            + le32(self.base) + le32(self.frame_id) + le32(self.node_count)
    }

    /// Lays out the block.
    pub fn bytes(&self) -> (r: Vec<u8>)
        ensures
            r@ == self.layout(),
            r@.len() == 40,
    {
        let mut r: Vec<u8> = Vec::new();
        broadcast use {lemma_word32_of_le32, lemma_word64_of_le64};

        put_u64(&mut r, self.records);
        put_u64(&mut r, self.frontier);
        put_u64(&mut r, self.epoch);
        put_u32(&mut r, self.count);
        put_u32(&mut r, self.base);
        put_u32(&mut r, self.frame_id);
        put_u32(&mut r, self.node_count);
        assert(r@ =~= self.layout());
        r
    }
}

/// Publishes the size of the frontier for the next indirect dispatch.
#[derive(Clone, Copy, Debug, PartialEq, Eq, Structural)]
pub struct FrontierFinalizeParams {
    pub frontier: u64,
    pub indirect: u64,
}

impl FrontierFinalizeParams {
    /// The block as the kernel reads it.
    pub open spec fn layout(self) -> Seq<u8> {
        le64(self.frontier) + le64(self.indirect)
    }

    /// Lays out the block.
    pub fn bytes(&self) -> (r: Vec<u8>)
        ensures
            r@ == self.layout(),
            r@.len() == 16,
    {
        let mut r: Vec<u8> = Vec::new();
        broadcast use {lemma_word32_of_le32, lemma_word64_of_le64};

        put_u64(&mut r, self.frontier);
        put_u64(&mut r, self.indirect);
        assert(r@ =~= self.layout());
        r
    }
}

/// Adds the children of the last level to the frontier.
#[derive(Clone, Copy, Debug, PartialEq, Eq, Structural)]
pub struct FrontierExpandParams {
    pub first_child: u64,
    pub next_sibling: u64,
    pub frontier: u64,
    pub epoch: u64,
    pub frame_id: u32,
    pub node_count: u32,
}

impl FrontierExpandParams {
    /// The block as the kernel reads it.
    pub open spec fn layout(self) -> Seq<u8> {
        le64(self.first_child) + le64(self.next_sibling) + le64(self.frontier) + le64(self.epoch)
            + le32(self.frame_id) + le32(self.node_count)
    }

    /// Lays out the block.
    pub fn bytes(&self) -> (r: Vec<u8>)
        ensures
            r@ == self.layout(),
            r@.len() == 40,
    {
        let mut r: Vec<u8> = Vec::new();
        broadcast use {lemma_word32_of_le32, lemma_word64_of_le64};

        put_u64(&mut r, self.first_child);
        put_u64(&mut r, self.next_sibling);
        put_u64(&mut r, self.frontier);
        put_u64(&mut r, self.epoch);
        put_u32(&mut r, self.frame_id);
        put_u32(&mut r, self.node_count);
        assert(r@ =~= self.layout());
        r
    }
}

/// Recomposes world transforms.
#[derive(Clone, Copy, Debug, PartialEq, Eq, Structural)]
pub struct PropagateParams {
    pub locals: u64,
    pub parent: u64,
    pub world: u64,
    pub frontier: u64,
    pub count: u32,
    pub base: u32,
    pub full_rebuild: u32,
    pub node_count: u32,
}

impl PropagateParams {
    /// The block as the kernel reads it.
    pub open spec fn layout(self) -> Seq<u8> {
        le64(self.locals) + le64(self.parent) + le64(self.world) + le64(self.frontier)
            + le32(self.count) + le32(self.base) + le32(self.full_rebuild) + le32(self.node_count)
    }

    /// Lays out the block.
    pub fn bytes(&self) -> (r: Vec<u8>)
        ensures
            r@ == self.layout(),
            r@.len() == 48,
    {
        let mut r: Vec<u8> = Vec::new();
        broadcast use {lemma_word32_of_le32, lemma_word64_of_le64};

        put_u64(&mut r, self.locals);
        put_u64(&mut r, self.parent);
        put_u64(&mut r, self.world);
        put_u64(&mut r, self.frontier);
        put_u32(&mut r, self.count);
        put_u32(&mut r, self.base);
        put_u32(&mut r, self.full_rebuild);
        put_u32(&mut r, self.node_count);
        assert(r@ =~= self.layout());
        r
    }
}

/// Skins a rest-pose vertex stream.
#[derive(Clone, Copy, Debug, PartialEq, Eq, Structural)]
pub struct SkinParams {
    pub rest: u64,
    pub skin: u64,
    pub world: u64,
    pub joint_nodes: u64,
    pub inverse_bind: u64,
    pub dst: u64,
    pub count: u32,
    pub base: u32,
    pub joint_count: u32,
    pub mesh_node: u32,
}

impl SkinParams {
    /// The block as the kernel reads it.
    pub open spec fn layout(self) -> Seq<u8> {
        le64(self.rest) + le64(self.skin) + le64(self.world) + le64(self.joint_nodes)
            + le64(self.inverse_bind) + le64(self.dst) + le32(self.count) + le32(self.base)
            + le32(self.joint_count) + le32(self.mesh_node)
    }

    /// Lays out the block.
    pub fn bytes(&self) -> (r: Vec<u8>)
        ensures
            r@ == self.layout(),
            r@.len() == 64,
    {
        let mut r: Vec<u8> = Vec::new();
        broadcast use {lemma_word32_of_le32, lemma_word64_of_le64};

        put_u64(&mut r, self.rest);
        put_u64(&mut r, self.skin);
        put_u64(&mut r, self.world);
        put_u64(&mut r, self.joint_nodes);
        put_u64(&mut r, self.inverse_bind);
        put_u64(&mut r, self.dst);
        put_u32(&mut r, self.count);
        put_u32(&mut r, self.base);
        put_u32(&mut r, self.joint_count);
        put_u32(&mut r, self.mesh_node);
        assert(r@ =~= self.layout());
        r
    }
}

/// Rebuilds the shading record of each triangle.
#[derive(Clone, Copy, Debug, PartialEq, Eq, Structural)]
pub struct PackParams {
    pub vertices: u64,
    pub indices: u64,
    pub triangles: u64,
    pub count: u32,
    pub base: u32,
}

impl PackParams {
    /// The block as the kernel reads it.
    pub open spec fn layout(self) -> Seq<u8> {
        le64(self.vertices) + le64(self.indices) + le64(self.triangles) + le32(self.count)
            + le32(self.base)
    }

    /// Lays out the block.
    pub fn bytes(&self) -> (r: Vec<u8>)
        ensures
            r@ == self.layout(),
            r@.len() == 32,
    {
        let mut r: Vec<u8> = Vec::new();
        broadcast use {lemma_word32_of_le32, lemma_word64_of_le64};

        put_u64(&mut r, self.vertices);
        put_u64(&mut r, self.indices);
        put_u64(&mut r, self.triangles);
        put_u32(&mut r, self.count);
        put_u32(&mut r, self.base);
        assert(r@ =~= self.layout());
        r
    }
}

/// Weighs each entry of the light table.
#[derive(Clone, Copy, Debug, PartialEq, Eq, Structural)]
pub struct LightPowerParams {
    pub linsts: u64,
    pub instances: u64,
    pub powers: u64,
    pub analytics: u64,
    pub linst_count: u32,
    pub entry_count: u32,
    pub analytic_count: u32,
    pub base: u32,
}

impl LightPowerParams {
    /// The block as the kernel reads it.
    pub open spec fn layout(self) -> Seq<u8> {
        le64(self.linsts) + le64(self.instances) + le64(self.powers) + le64(self.analytics)
            + le32(self.linst_count) + le32(self.entry_count) + le32(self.analytic_count)
            + le32(self.base)
    }

    /// Lays out the block.
    pub fn bytes(&self) -> (r: Vec<u8>)
        ensures
            r@ == self.layout(),
            r@.len() == 48,
    {
        let mut r: Vec<u8> = Vec::new();
        broadcast use {lemma_word32_of_le32, lemma_word64_of_le64};

        put_u64(&mut r, self.linsts);
        put_u64(&mut r, self.instances);
        put_u64(&mut r, self.powers);
        put_u64(&mut r, self.analytics);
        put_u32(&mut r, self.linst_count);
        put_u32(&mut r, self.entry_count);
        put_u32(&mut r, self.analytic_count);
        put_u32(&mut r, self.base);
        assert(r@ =~= self.layout());
        r
    }
}

/// Sums the weights of the light table.
#[derive(Clone, Copy, Debug, PartialEq, Eq, Structural)]
pub struct LightScanParams {
    pub powers: u64,
    pub header: u64,
    pub entry_count: u32,
    pub pad: u32,
}

impl LightScanParams {
    /// The block as the kernel reads it.
    pub open spec fn layout(self) -> Seq<u8> {
        le64(self.powers) + le64(self.header) + le32(self.entry_count) + le32(self.pad)
    }

    /// Lays out the block.
    pub fn bytes(&self) -> (r: Vec<u8>)
        ensures
            r@ == self.layout(),
            r@.len() == 24,
    {
        let mut r: Vec<u8> = Vec::new();
        broadcast use {lemma_word32_of_le32, lemma_word64_of_le64};

        put_u64(&mut r, self.powers);
        put_u64(&mut r, self.header);
        put_u32(&mut r, self.entry_count);
        put_u32(&mut r, self.pad);
        assert(r@ =~= self.layout());
        r
    }
}

/// Folds a frame into the radiance cache.
#[derive(Clone, Copy, Debug, PartialEq, Eq, Structural)]
pub struct SharcResolveParams {
    pub entries: u64,
    pub entry_count: u32,
    pub frame: u32,
    pub base: u32,
    pub pad: u32,
}

impl SharcResolveParams {
    /// The block as the kernel reads it.
    pub open spec fn layout(self) -> Seq<u8> {
        le64(self.entries) + le32(self.entry_count) + le32(self.frame) + le32(self.base)
            + le32(self.pad)
    }

    /// Lays out the block.
    pub fn bytes(&self) -> (r: Vec<u8>)
        ensures
            r@ == self.layout(),
            r@.len() == 24,
    {
        let mut r: Vec<u8> = Vec::new();
        broadcast use {lemma_word32_of_le32, lemma_word64_of_le64};

        put_u64(&mut r, self.entries);
        put_u32(&mut r, self.entry_count);
        put_u32(&mut r, self.frame);
        put_u32(&mut r, self.base);
        put_u32(&mut r, self.pad);
        assert(r@ =~= self.layout());
        r
    }
}

/// Push constants of every atmosphere kernel.
#[derive(Clone, Copy, Debug, PartialEq, Eq, Structural)]
pub struct AtmosphereKernelParams {
    pub atmo: u64,
    pub base: u32,
    pub pad: u32,
}

impl AtmosphereKernelParams {
    /// The block as the kernel reads it.
    pub open spec fn layout(self) -> Seq<u8> {
        le64(self.atmo) + le32(self.base) + le32(self.pad)
    }

    /// Lays out the block.
    pub fn bytes(&self) -> (r: Vec<u8>)
        ensures
            r@ == self.layout(),
            r@.len() == 16,
    {
        let mut r: Vec<u8> = Vec::new();
        broadcast use {lemma_word32_of_le32, lemma_word64_of_le64};

        put_u64(&mut r, self.atmo);
        put_u32(&mut r, self.base);
        put_u32(&mut r, self.pad);
        assert(r@ =~= self.layout());
        r
    }
}

/// Meters a frame; numbers that are no counts are bit patterns.
#[derive(Clone, Copy, Debug, PartialEq, Eq, Structural)]
pub struct AeParams {
    pub lum: u64,
    pub histogram: u64,
    pub state: u64,
    pub pixel_count: u32,
    pub min_log_lum: u32,
    pub inv_log_lum_range: u32,
    pub log_lum_range: u32,
    pub low_percent: u32,
    pub high_percent: u32,
    pub speed_brighten: u32,
    pub speed_darken: u32,
    pub exp_transition: u32,
    pub dt: u32,
    pub compensation: u32,
    pub min_ev: u32,
    pub max_ev: u32,
    pub _pad: u32,
}

impl AeParams {
    /// The block as the kernel reads it.
    pub open spec fn layout(self) -> Seq<u8> {
        le64(self.lum) + le64(self.histogram) + le64(self.state) + le32(self.pixel_count)
            + le32(self.min_log_lum) + le32(self.inv_log_lum_range) + le32(self.log_lum_range)
            + le32(self.low_percent) + le32(self.high_percent) + le32(self.speed_brighten)
            + le32(self.speed_darken) + le32(self.exp_transition) + le32(self.dt)
            + le32(self.compensation) + le32(self.min_ev) + le32(self.max_ev) + le32(self._pad)
    }

    /// Lays out the block.
    pub fn bytes(&self) -> (r: Vec<u8>)
        ensures
            r@ == self.layout(),
            r@.len() == 80,
    {
        let mut r: Vec<u8> = Vec::new();
        broadcast use {lemma_word32_of_le32, lemma_word64_of_le64};

        put_u64(&mut r, self.lum);
        put_u64(&mut r, self.histogram);
        put_u64(&mut r, self.state);
        put_u32(&mut r, self.pixel_count);
        put_u32(&mut r, self.min_log_lum);
        put_u32(&mut r, self.inv_log_lum_range);
        put_u32(&mut r, self.log_lum_range);
        put_u32(&mut r, self.low_percent);
        put_u32(&mut r, self.high_percent);
        put_u32(&mut r, self.speed_brighten);
        put_u32(&mut r, self.speed_darken);
        put_u32(&mut r, self.exp_transition);
        put_u32(&mut r, self.dt);
        put_u32(&mut r, self.compensation);
        put_u32(&mut r, self.min_ev);
        put_u32(&mut r, self.max_ev);
        put_u32(&mut r, self._pad);
        assert(r@ =~= self.layout());
        r
    }
}

/// The parameter block of a dispatch.
#[derive(Clone, Copy, Debug, PartialEq, Eq, Structural)]
pub enum Params {
    ScatterLocals(ScatterLocalsParams),
    ScatterU32(ScatterU32Params),
    FrontierSeed(FrontierSeedParams),
    FrontierFinalize(FrontierFinalizeParams),
    FrontierExpand(FrontierExpandParams),
    Propagate(PropagateParams),
    Skin(SkinParams),
    Pack(PackParams),
    LightPower(LightPowerParams),
    LightScan(LightScanParams),
    SharcResolve(SharcResolveParams),
    AtmosphereKernel(AtmosphereKernelParams),
    Ae(AeParams),
}

impl Params {
    /// The block as the kernel reads it.
    pub open spec fn layout(self) -> Seq<u8> {
        match self {
            Params::ScatterLocals(p) => p.layout(),
            Params::ScatterU32(p) => p.layout(),
            Params::FrontierSeed(p) => p.layout(),
            Params::FrontierFinalize(p) => p.layout(),
            Params::FrontierExpand(p) => p.layout(),
            Params::Propagate(p) => p.layout(),
            Params::Skin(p) => p.layout(),
            Params::Pack(p) => p.layout(),
            Params::LightPower(p) => p.layout(),
            Params::LightScan(p) => p.layout(),
            Params::SharcResolve(p) => p.layout(),
            Params::AtmosphereKernel(p) => p.layout(),
            Params::Ae(p) => p.layout(),
        }
    }

    /// The first thread index that the block carries, for the kernels that take one.
    pub open spec fn base(self) -> Option<u32> {
        match self {
            Params::ScatterLocals(p) => Some(p.base),
            Params::ScatterU32(p) => Some(p.base),
            Params::FrontierSeed(p) => Some(p.base),
            Params::Propagate(p) => Some(p.base),
            Params::Skin(p) => Some(p.base),
            Params::Pack(p) => Some(p.base),
            Params::LightPower(p) => Some(p.base),
            Params::SharcResolve(p) => Some(p.base),
            Params::AtmosphereKernel(p) => Some(p.base),
            _ => None,
        }
    }

    /// Where the block carries its first thread index.
    pub open spec fn spec_base_offset(self) -> Option<usize> {
        match self {
            Params::ScatterLocals(_) => Some(20),
            Params::ScatterU32(_) => Some(20),
            Params::FrontierSeed(_) => Some(28),
            Params::Propagate(_) => Some(36),
            Params::Skin(_) => Some(52),
            Params::Pack(_) => Some(28),
            Params::LightPower(_) => Some(44),
            Params::SharcResolve(_) => Some(16),
            Params::AtmosphereKernel(_) => Some(8),
            _ => None,
        }
    }

    /// Where the block carries its first thread index.
    pub fn base_offset(&self) -> (r: Option<usize>)
        ensures
            r == self.spec_base_offset(),
    {
        match self {
            Params::ScatterLocals(_) => Some(20),
            Params::ScatterU32(_) => Some(20),
            Params::FrontierSeed(_) => Some(28),
            Params::Propagate(_) => Some(36),
            Params::Skin(_) => Some(52),
            Params::Pack(_) => Some(28),
            Params::LightPower(_) => Some(44),
            Params::SharcResolve(_) => Some(16),
            Params::AtmosphereKernel(_) => Some(8),
            _ => None,
        }
    }

    /// Lays out the block.
    pub fn bytes(&self) -> (r: Vec<u8>)
        ensures
            r@ == self.layout(),
            r@.len() <= 128,
    {
        match self {
            Params::ScatterLocals(p) => p.bytes(),
            Params::ScatterU32(p) => p.bytes(),
            Params::FrontierSeed(p) => p.bytes(),
            Params::FrontierFinalize(p) => p.bytes(),
            Params::FrontierExpand(p) => p.bytes(),
            Params::Propagate(p) => p.bytes(),
            Params::Skin(p) => p.bytes(),
            Params::Pack(p) => p.bytes(),
            Params::LightPower(p) => p.bytes(),
            Params::LightScan(p) => p.bytes(),
            Params::SharcResolve(p) => p.bytes(),
            Params::AtmosphereKernel(p) => p.bytes(),
            Params::Ae(p) => p.bytes(),
        }
    }

    /// Every block fits in the push constants, and carries its first thread index where it is
    /// said to.
    pub proof fn lemma_block(self)
        ensures
            self.layout().len() <= 128,
            self.base() is Some <==> self.spec_base_offset() is Some,
            self.spec_base_offset() matches Some(at) ==> at + 4 <= self.layout().len()
                && self.layout().subrange(at as int, at + 4) == le32(self.base()->0),
    {
        broadcast use {lemma_word32_of_le32, lemma_word64_of_le64};

        match self {
            Params::ScatterLocals(p) => {
                assert(p.layout().subrange(20, 24) =~= le32(p.base));
            },
            Params::ScatterU32(p) => {
                assert(p.layout().subrange(20, 24) =~= le32(p.base));
            },
            Params::FrontierSeed(p) => {
                assert(p.layout().subrange(28, 32) =~= le32(p.base));
            },
            Params::FrontierFinalize(p) => {},
            Params::FrontierExpand(p) => {},
            Params::Propagate(p) => {
                assert(p.layout().subrange(36, 40) =~= le32(p.base));
            },
            Params::Skin(p) => {
                assert(p.layout().subrange(52, 56) =~= le32(p.base));
            },
            Params::Pack(p) => {
                assert(p.layout().subrange(28, 32) =~= le32(p.base));
            },
            Params::LightPower(p) => {
                assert(p.layout().subrange(44, 48) =~= le32(p.base));
            },
            Params::LightScan(p) => {},
            Params::SharcResolve(p) => {
                assert(p.layout().subrange(16, 20) =~= le32(p.base));
            },
            Params::AtmosphereKernel(p) => {
                assert(p.layout().subrange(8, 12) =~= le32(p.base));
            },
            Params::Ae(p) => {},
        }
    }
}

/// One table that is uploaded whole.
#[derive(Clone, Copy, Debug, PartialEq, Eq, Structural)]
pub enum Source {
    NodeLocals,
    NodeParents,
    NodeFirstChildren,
    NodeNextSiblings,
    AtmosphereParams,
    ExposureState,
    LightInstances,
    LightSlotMap,
    LightHeader,
    LightEmissions,
    AnalyticLights,
}

/// One step of a plan.
#[derive(Clone, Copy, Debug, PartialEq, Eq, Structural)]
pub enum Command {
    /// Orders memory accesses.
    Barrier(MemoryBarrier),
    /// Runs a kernel, one thread for each of `threads`.
    Dispatch { kernel: Kernel, params: Params, threads: u32 },
    /// Runs a kernel with the group counts that stand at `offset` in `buffer`.
    DispatchIndirect { kernel: Kernel, params: Params, buffer: u64, offset: u64 },
    /// Fills the first `size` bytes of a buffer with zeros.
    Clear { buffer: u64, size: u64 },
    /// Copies the first `size` bytes of a buffer.
    Copy { src: u64, dst: u64, size: u64 },
    /// Writes the single word 0 at the start of a buffer.
    WriteZero { buffer: u64 },
    /// Copies the first `count` elements of a table into a buffer.
    Upload { source: Source, dst: u64, count: u64 },
    /// Writes a parameter block that the caller computed into a buffer.
    Update { source: Source, dst: u64, count: u64 },
}

// ---- where the kernels find what they are told ----------------------------------------------

proof fn lemma_word32_in(s: Seq<u8>, at: int, x: u32)
    requires
        0 <= at,
        at + 4 <= s.len(),
        s.subrange(at, at + 4) == le32(x),
    ensures
        word32(s, at) == x,
{
    lemma_word32_of_le32(x);
    assert(le32(x).subrange(0, 4) =~= le32(x));
    lemma_word32_local(s, at, le32(x), 0);
}

/// A kernel that reads each number at its own place finds it there.
pub proof fn lemma_scatter_locals_read(p: ScatterLocalsParams)
    ensures
        p.layout().len() == 24,
        word64(p.layout(), 0) == p.records,
        word64(p.layout(), 8) == p.locals,
        word32(p.layout(), 16) == p.count,
        word32(p.layout(), 20) == p.base,
{
    broadcast use {lemma_word32_of_le32, lemma_word64_of_le64};

    let s = p.layout();
    assert(s.subrange(0, 8) =~= le64(p.records));
    lemma_word64_at(s, 0, p.records);
    assert(s.subrange(8, 16) =~= le64(p.locals));
    lemma_word64_at(s, 8, p.locals);
    assert(s.subrange(16, 20) =~= le32(p.count));
    lemma_word32_in(s, 16, p.count);
    assert(s.subrange(20, 24) =~= le32(p.base));
    lemma_word32_in(s, 20, p.base);
}

/// A kernel that reads each number at its own place finds it there.
pub proof fn lemma_scatter_word_read(p: ScatterU32Params)
    ensures
        p.layout().len() == 24,
        word64(p.layout(), 0) == p.records,
        word64(p.layout(), 8) == p.dst,
        word32(p.layout(), 16) == p.count,
        word32(p.layout(), 20) == p.base,
{
    broadcast use {lemma_word32_of_le32, lemma_word64_of_le64};

    let s = p.layout();
    assert(s.subrange(0, 8) =~= le64(p.records));
    lemma_word64_at(s, 0, p.records);
    assert(s.subrange(8, 16) =~= le64(p.dst));
    lemma_word64_at(s, 8, p.dst);
    assert(s.subrange(16, 20) =~= le32(p.count));
    lemma_word32_in(s, 16, p.count);
    assert(s.subrange(20, 24) =~= le32(p.base));
    lemma_word32_in(s, 20, p.base);
}

/// A kernel that reads each number at its own place finds it there.
pub proof fn lemma_frontier_seed_read(p: FrontierSeedParams)
    ensures
        p.layout().len() == 40,
        word64(p.layout(), 0) == p.records,
        word64(p.layout(), 8) == p.frontier,
        word64(p.layout(), 16) == p.epoch,
        word32(p.layout(), 24) == p.count,
        word32(p.layout(), 28) == p.base,
        word32(p.layout(), 32) == p.frame_id,
        word32(p.layout(), 36) == p.node_count,
{
    broadcast use {lemma_word32_of_le32, lemma_word64_of_le64};

    let s = p.layout();
    assert(s.subrange(0, 8) =~= le64(p.records));
    lemma_word64_at(s, 0, p.records);
    assert(s.subrange(8, 16) =~= le64(p.frontier));
    lemma_word64_at(s, 8, p.frontier);
    assert(s.subrange(16, 24) =~= le64(p.epoch));
    lemma_word64_at(s, 16, p.epoch);
    assert(s.subrange(24, 28) =~= le32(p.count));
    lemma_word32_in(s, 24, p.count);
    assert(s.subrange(28, 32) =~= le32(p.base));
    lemma_word32_in(s, 28, p.base);
    assert(s.subrange(32, 36) =~= le32(p.frame_id));
    lemma_word32_in(s, 32, p.frame_id);
    assert(s.subrange(36, 40) =~= le32(p.node_count));
    lemma_word32_in(s, 36, p.node_count);
}

/// A kernel that reads each number at its own place finds it there.
pub proof fn lemma_frontier_finalize_read(p: FrontierFinalizeParams)
    ensures
        p.layout().len() == 16,
        word64(p.layout(), 0) == p.frontier,
        word64(p.layout(), 8) == p.indirect,
{
    broadcast use {lemma_word32_of_le32, lemma_word64_of_le64};

    let s = p.layout();
    assert(s.subrange(0, 8) =~= le64(p.frontier));
    lemma_word64_at(s, 0, p.frontier);
    assert(s.subrange(8, 16) =~= le64(p.indirect));
    lemma_word64_at(s, 8, p.indirect);
}

/// A kernel that reads each number at its own place finds it there.
pub proof fn lemma_frontier_expand_read(p: FrontierExpandParams)
    ensures
        p.layout().len() == 40,
        word64(p.layout(), 0) == p.first_child,
        word64(p.layout(), 8) == p.next_sibling,
        word64(p.layout(), 16) == p.frontier,
        word64(p.layout(), 24) == p.epoch,
        word32(p.layout(), 32) == p.frame_id,
        word32(p.layout(), 36) == p.node_count,
{
    broadcast use {lemma_word32_of_le32, lemma_word64_of_le64};

    let s = p.layout();
    assert(s.subrange(0, 8) =~= le64(p.first_child));
    lemma_word64_at(s, 0, p.first_child);
    assert(s.subrange(8, 16) =~= le64(p.next_sibling));
    lemma_word64_at(s, 8, p.next_sibling);
    assert(s.subrange(16, 24) =~= le64(p.frontier));
    lemma_word64_at(s, 16, p.frontier);
    assert(s.subrange(24, 32) =~= le64(p.epoch));
    lemma_word64_at(s, 24, p.epoch);
    assert(s.subrange(32, 36) =~= le32(p.frame_id));
    lemma_word32_in(s, 32, p.frame_id);
    assert(s.subrange(36, 40) =~= le32(p.node_count));
    lemma_word32_in(s, 36, p.node_count);
}

/// A kernel that reads each number at its own place finds it there.
pub proof fn lemma_propagate_read(p: PropagateParams)
    ensures
        p.layout().len() == 48,
        word64(p.layout(), 0) == p.locals,
        word64(p.layout(), 8) == p.parent,
        word64(p.layout(), 16) == p.world,
        word64(p.layout(), 24) == p.frontier,
        word32(p.layout(), 32) == p.count,
        word32(p.layout(), 36) == p.base,
        word32(p.layout(), 40) == p.full_rebuild,
        word32(p.layout(), 44) == p.node_count,
{
    broadcast use {lemma_word32_of_le32, lemma_word64_of_le64};

    let s = p.layout();
    assert(s.subrange(0, 8) =~= le64(p.locals));
    lemma_word64_at(s, 0, p.locals);
    assert(s.subrange(8, 16) =~= le64(p.parent));
    lemma_word64_at(s, 8, p.parent);
    assert(s.subrange(16, 24) =~= le64(p.world));
    lemma_word64_at(s, 16, p.world);
    assert(s.subrange(24, 32) =~= le64(p.frontier));
    lemma_word64_at(s, 24, p.frontier);
    assert(s.subrange(32, 36) =~= le32(p.count));
    lemma_word32_in(s, 32, p.count);
    assert(s.subrange(36, 40) =~= le32(p.base));
    lemma_word32_in(s, 36, p.base);
    assert(s.subrange(40, 44) =~= le32(p.full_rebuild));
    lemma_word32_in(s, 40, p.full_rebuild);
    assert(s.subrange(44, 48) =~= le32(p.node_count));
    lemma_word32_in(s, 44, p.node_count);
}

/// A kernel that reads each number at its own place finds it there.
pub proof fn lemma_skin_read(p: SkinParams)
    ensures
        p.layout().len() == 64,
        word64(p.layout(), 0) == p.rest,
        word64(p.layout(), 8) == p.skin,
        word64(p.layout(), 16) == p.world,
        word64(p.layout(), 24) == p.joint_nodes,
        word64(p.layout(), 32) == p.inverse_bind,
        word64(p.layout(), 40) == p.dst,
        word32(p.layout(), 48) == p.count,
        word32(p.layout(), 52) == p.base,
        word32(p.layout(), 56) == p.joint_count,
        word32(p.layout(), 60) == p.mesh_node,
{
    broadcast use {lemma_word32_of_le32, lemma_word64_of_le64};

    let s = p.layout();
    assert(s.subrange(0, 8) =~= le64(p.rest));
    lemma_word64_at(s, 0, p.rest);
    assert(s.subrange(8, 16) =~= le64(p.skin));
    lemma_word64_at(s, 8, p.skin);
    assert(s.subrange(16, 24) =~= le64(p.world));
    lemma_word64_at(s, 16, p.world);
    assert(s.subrange(24, 32) =~= le64(p.joint_nodes));
    lemma_word64_at(s, 24, p.joint_nodes);
    assert(s.subrange(32, 40) =~= le64(p.inverse_bind));
    lemma_word64_at(s, 32, p.inverse_bind);
    assert(s.subrange(40, 48) =~= le64(p.dst));
    lemma_word64_at(s, 40, p.dst);
    assert(s.subrange(48, 52) =~= le32(p.count));
    lemma_word32_in(s, 48, p.count);
    assert(s.subrange(52, 56) =~= le32(p.base));
    lemma_word32_in(s, 52, p.base);
    assert(s.subrange(56, 60) =~= le32(p.joint_count));
    lemma_word32_in(s, 56, p.joint_count);
    assert(s.subrange(60, 64) =~= le32(p.mesh_node));
    lemma_word32_in(s, 60, p.mesh_node);
}

/// A kernel that reads each number at its own place finds it there.
pub proof fn lemma_pack_read(p: PackParams)
    ensures
        p.layout().len() == 32,
        word64(p.layout(), 0) == p.vertices,
        word64(p.layout(), 8) == p.indices,
        word64(p.layout(), 16) == p.triangles,
        word32(p.layout(), 24) == p.count,
        word32(p.layout(), 28) == p.base,
{
    broadcast use {lemma_word32_of_le32, lemma_word64_of_le64};

    let s = p.layout();
    assert(s.subrange(0, 8) =~= le64(p.vertices));
    lemma_word64_at(s, 0, p.vertices);
    assert(s.subrange(8, 16) =~= le64(p.indices));
    lemma_word64_at(s, 8, p.indices);
    assert(s.subrange(16, 24) =~= le64(p.triangles));
    lemma_word64_at(s, 16, p.triangles);
    assert(s.subrange(24, 28) =~= le32(p.count));
    lemma_word32_in(s, 24, p.count);
    assert(s.subrange(28, 32) =~= le32(p.base));
    lemma_word32_in(s, 28, p.base);
}

/// A kernel that reads each number at its own place finds it there.
pub proof fn lemma_light_power_read(p: LightPowerParams)
    ensures
        p.layout().len() == 48,
        word64(p.layout(), 0) == p.linsts,
        word64(p.layout(), 8) == p.instances,
        word64(p.layout(), 16) == p.powers,
        word64(p.layout(), 24) == p.analytics,
        word32(p.layout(), 32) == p.linst_count,
        word32(p.layout(), 36) == p.entry_count,
        word32(p.layout(), 40) == p.analytic_count,
        word32(p.layout(), 44) == p.base,
{
    broadcast use {lemma_word32_of_le32, lemma_word64_of_le64};

    let s = p.layout();
    assert(s.subrange(0, 8) =~= le64(p.linsts));
    lemma_word64_at(s, 0, p.linsts);
    assert(s.subrange(8, 16) =~= le64(p.instances));
    lemma_word64_at(s, 8, p.instances);
    assert(s.subrange(16, 24) =~= le64(p.powers));
    lemma_word64_at(s, 16, p.powers);
    assert(s.subrange(24, 32) =~= le64(p.analytics));
    lemma_word64_at(s, 24, p.analytics);
    assert(s.subrange(32, 36) =~= le32(p.linst_count));
    lemma_word32_in(s, 32, p.linst_count);
    assert(s.subrange(36, 40) =~= le32(p.entry_count));
    lemma_word32_in(s, 36, p.entry_count);
    assert(s.subrange(40, 44) =~= le32(p.analytic_count));
    lemma_word32_in(s, 40, p.analytic_count);
    assert(s.subrange(44, 48) =~= le32(p.base));
    lemma_word32_in(s, 44, p.base);
}

/// A kernel that reads each number at its own place finds it there.
pub proof fn lemma_light_scan_read(p: LightScanParams)
    ensures
        p.layout().len() == 24,
        word64(p.layout(), 0) == p.powers,
        word64(p.layout(), 8) == p.header,
        word32(p.layout(), 16) == p.entry_count,
        word32(p.layout(), 20) == p.pad,
{
    broadcast use {lemma_word32_of_le32, lemma_word64_of_le64};

    let s = p.layout();
    assert(s.subrange(0, 8) =~= le64(p.powers));
    lemma_word64_at(s, 0, p.powers);
    assert(s.subrange(8, 16) =~= le64(p.header));
    lemma_word64_at(s, 8, p.header);
    assert(s.subrange(16, 20) =~= le32(p.entry_count));
    lemma_word32_in(s, 16, p.entry_count);
    assert(s.subrange(20, 24) =~= le32(p.pad));
    lemma_word32_in(s, 20, p.pad);
}

/// A kernel that reads each number at its own place finds it there.
pub proof fn lemma_sharc_resolve_read(p: SharcResolveParams)
    ensures
        p.layout().len() == 24,
        word64(p.layout(), 0) == p.entries,
        word32(p.layout(), 8) == p.entry_count,
        word32(p.layout(), 12) == p.frame,
        word32(p.layout(), 16) == p.base,
        word32(p.layout(), 20) == p.pad,
{
    broadcast use {lemma_word32_of_le32, lemma_word64_of_le64};

    let s = p.layout();
    assert(s.subrange(0, 8) =~= le64(p.entries));
    lemma_word64_at(s, 0, p.entries);
    assert(s.subrange(8, 12) =~= le32(p.entry_count));
    lemma_word32_in(s, 8, p.entry_count);
    assert(s.subrange(12, 16) =~= le32(p.frame));
    lemma_word32_in(s, 12, p.frame);
    assert(s.subrange(16, 20) =~= le32(p.base));
    lemma_word32_in(s, 16, p.base);
    assert(s.subrange(20, 24) =~= le32(p.pad));
    lemma_word32_in(s, 20, p.pad);
}

/// A kernel that reads each number at its own place finds it there.
pub proof fn lemma_atmosphere_kernel_read(p: AtmosphereKernelParams)
    ensures
        p.layout().len() == 16,
        word64(p.layout(), 0) == p.atmo,
        word32(p.layout(), 8) == p.base,
        word32(p.layout(), 12) == p.pad,
{
    broadcast use {lemma_word32_of_le32, lemma_word64_of_le64};

    let s = p.layout();
    assert(s.subrange(0, 8) =~= le64(p.atmo));
    lemma_word64_at(s, 0, p.atmo);
    assert(s.subrange(8, 12) =~= le32(p.base));
    lemma_word32_in(s, 8, p.base);
    assert(s.subrange(12, 16) =~= le32(p.pad));
    lemma_word32_in(s, 12, p.pad);
}

/// A kernel that reads each number at its own place finds it there.
#[verifier::rlimit(80)]
pub proof fn lemma_ae_read(p: AeParams)
    ensures
        p.layout().len() == 80,
        word64(p.layout(), 0) == p.lum,
        word64(p.layout(), 8) == p.histogram,
        word64(p.layout(), 16) == p.state,
        word32(p.layout(), 24) == p.pixel_count,
        word32(p.layout(), 28) == p.min_log_lum,
        word32(p.layout(), 32) == p.inv_log_lum_range,
        word32(p.layout(), 36) == p.log_lum_range,
        word32(p.layout(), 40) == p.low_percent,
        word32(p.layout(), 44) == p.high_percent,
        word32(p.layout(), 48) == p.speed_brighten,
        word32(p.layout(), 52) == p.speed_darken,
        word32(p.layout(), 56) == p.exp_transition,
        word32(p.layout(), 60) == p.dt,
        word32(p.layout(), 64) == p.compensation,
        word32(p.layout(), 68) == p.min_ev,
        word32(p.layout(), 72) == p.max_ev,
        word32(p.layout(), 76) == p._pad,
{
    broadcast use {lemma_word32_of_le32, lemma_word64_of_le64};

    let s = p.layout();
    assert(s.subrange(0, 8) =~= le64(p.lum));
    lemma_word64_at(s, 0, p.lum);
    assert(s.subrange(8, 16) =~= le64(p.histogram));
    lemma_word64_at(s, 8, p.histogram);
    assert(s.subrange(16, 24) =~= le64(p.state));
    lemma_word64_at(s, 16, p.state);
    assert(s.subrange(24, 28) =~= le32(p.pixel_count));
    lemma_word32_in(s, 24, p.pixel_count);
    assert(s.subrange(28, 32) =~= le32(p.min_log_lum));
    lemma_word32_in(s, 28, p.min_log_lum);
    assert(s.subrange(32, 36) =~= le32(p.inv_log_lum_range));
    lemma_word32_in(s, 32, p.inv_log_lum_range);
    assert(s.subrange(36, 40) =~= le32(p.log_lum_range));
    lemma_word32_in(s, 36, p.log_lum_range);
    assert(s.subrange(40, 44) =~= le32(p.low_percent));
    lemma_word32_in(s, 40, p.low_percent);
    assert(s.subrange(44, 48) =~= le32(p.high_percent));
    lemma_word32_in(s, 44, p.high_percent);
    assert(s.subrange(48, 52) =~= le32(p.speed_brighten));
    lemma_word32_in(s, 48, p.speed_brighten);
    assert(s.subrange(52, 56) =~= le32(p.speed_darken));
    lemma_word32_in(s, 52, p.speed_darken);
    assert(s.subrange(56, 60) =~= le32(p.exp_transition));
    lemma_word32_in(s, 56, p.exp_transition);
    assert(s.subrange(60, 64) =~= le32(p.dt));
    lemma_word32_in(s, 60, p.dt);
    assert(s.subrange(64, 68) =~= le32(p.compensation));
    lemma_word32_in(s, 64, p.compensation);
    assert(s.subrange(68, 72) =~= le32(p.min_ev));
    lemma_word32_in(s, 68, p.min_ev);
    assert(s.subrange(72, 76) =~= le32(p.max_ev));
    lemma_word32_in(s, 72, p.max_ev);
    assert(s.subrange(76, 80) =~= le32(p._pad));
    lemma_word32_in(s, 76, p._pad);
}

} // verus!
