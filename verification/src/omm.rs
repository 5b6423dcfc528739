//! Opacity micromaps: baked opacity of each triangle, built on the device before the
//! structure that refers to it.

use crate::cluster_mesh::types::{OmmDesc, OmmUsage};
use crate::commands::{
    Command, ACCESS_ACCELERATION_STRUCTURE_READ, ACCESS_MICROMAP_READ, ACCESS_MICROMAP_WRITE,
    STAGE_ACCELERATION_STRUCTURE_BUILD, STAGE_MICROMAP_BUILD,
};
use crate::compute::{barrier, lemma_includes, memory_barrier, orders};
use crate::math::{aligned, aligned_size};
use vstd::prelude::*;

verus! {

/// Alignment of the build's inputs and scratch memory. The device asks for less, but builds
/// with less give garbage without an error.
pub const SCRATCH_ALIGNMENT: u64 = 256;

/// The baked slices of one mesh.
#[derive(Debug)]
pub struct OmmSlices {
    pub array_data: Vec<u8>,
    pub descs: Vec<OmmDesc>,
    /// For each triangle, its descriptor or a special index.
    pub index: Vec<i32>,
    pub usage: Vec<OmmUsage>,
    pub index_usage: Vec<OmmUsage>,
}

/// How many micromaps have one subdivision level and format, as the device is told.
#[derive(Clone, Copy, Debug, PartialEq, Eq, Structural)]
pub struct MicromapUsage {
    pub count: u32,
    pub subdivision_level: u32,
    pub format: u32,
}

/// The same usage in wider words.
pub open spec fn widened(u: OmmUsage) -> MicromapUsage {
    MicromapUsage {
        count: u.count,
        subdivision_level: u.subdivision_level as u32,
        format: u.format as u32,
    }
}

/// The same usages in wider words.
pub fn widen(usage: &Vec<OmmUsage>) -> (r: Vec<MicromapUsage>)
    ensures
        r@ == usage@.map_values(|u: OmmUsage| widened(u)),
{
    let mut r: Vec<MicromapUsage> = Vec::new();
    let mut i: usize = 0;
    while i < usage.len()
        invariant
            i <= usage@.len(),
            r@ == usage@.take(i as int).map_values(|u: OmmUsage| widened(u)),
        decreases usage@.len() - i,
    {
        let u: OmmUsage = usage[i];
        r.push(
            MicromapUsage {
                count: u.count,
                subdivision_level: u.subdivision_level as u32,
                format: u.format as u32,
            },
        );
        assert(r@ =~= usage@.take(i + 1).map_values(|u: OmmUsage| widened(u)));
        i = i + 1;
    }
    assert(usage@.take(i as int) =~= usage@);
    r
}

/// Bytes of a host buffer that holds `len` bytes at an aligned address.
pub open spec fn padded_len(len: int) -> int {
    len + SCRATCH_ALIGNMENT
}

/// Where `len` bytes go in a host buffer at `address`: the aligned address, and how far into
/// the buffer it lies.
pub fn aligned_input(address: u64, len: u64) -> (r: (u64, u64))
    requires
        address + padded_len(len as int) <= u64::MAX,
    ensures
        r.0 == aligned(address as int, SCRATCH_ALIGNMENT as int),
        r.1 == r.0 - address,
        r.0 as int % SCRATCH_ALIGNMENT as int == 0,
        r.1 + len <= padded_len(len as int),
{
    let at: u64 = aligned_size(address, SCRATCH_ALIGNMENT);
    (at, at - address)
}

/// There is something to build.
pub open spec fn buildable(slices: OmmSlices) -> bool {
    slices.descs@.len() > 0 && slices.index@.len() > 0 && slices.index_usage@.len() > 0
}

/// Whether a micromap is built: the device has the extension, and there is something to
/// build.
pub fn wants_micromap(extension: bool, slices: &OmmSlices) -> (r: bool)
    ensures
        r == (extension && buildable(*slices)),
{
    extension && slices.descs.len() > 0 && slices.index.len() > 0 && slices.index_usage.len() > 0
}

/// What comes of preparing a micromap.
#[derive(Clone, Copy, Debug, PartialEq, Eq, Structural)]
pub enum MicromapOutcome {
    /// The device reports no size: the inputs are given up.
    ZeroSized,
    /// The micromap could not be created: the inputs and its buffer are given up.
    NotCreated,
    /// The build can be recorded, with so many bytes of scratch memory.
    Prepared { scratch: u64 },
}

/// What comes of preparing a micromap of `micromap_size` bytes; `created` says whether it
/// could be created, and is not looked at where there is nothing to create.
pub fn prepare(micromap_size: u64, build_scratch_size: u64, created: bool) -> (r: MicromapOutcome)
    requires
        build_scratch_size + SCRATCH_ALIGNMENT <= u64::MAX,
    ensures
        r == (if micromap_size == 0 {
            MicromapOutcome::ZeroSized
        } else if !created {
            MicromapOutcome::NotCreated
        } else {
            MicromapOutcome::Prepared {
                scratch: (SCRATCH_ALIGNMENT + if build_scratch_size < 1 {
                    1
                } else {
                    build_scratch_size as int
                }) as u64,
            }
        }),
{
    if micromap_size == 0 {
        return MicromapOutcome::ZeroSized;
    }
    if !created {
        return MicromapOutcome::NotCreated;
    }
    let scratch: u64 = if build_scratch_size < 1 {
        1
    } else {
        build_scratch_size
    };
    MicromapOutcome::Prepared { scratch: scratch + SCRATCH_ALIGNMENT }
}

/// Micromaps made visible to the builds that refer to them.
pub open spec fn micromaps_to_builds() -> Command {
    barrier(
        STAGE_MICROMAP_BUILD,
        ACCESS_MICROMAP_WRITE,
        STAGE_ACCELERATION_STRUCTURE_BUILD,
        ACCESS_ACCELERATION_STRUCTURE_READ | ACCESS_MICROMAP_READ,
    )
}

/// The barrier behind the builds of `builds` micromaps; nothing is recorded without the
/// extension or without a build.
pub fn record(extension: bool, builds: usize) -> (r: Option<Command>)
    ensures
        r == (if extension && builds > 0 {
            Some(micromaps_to_builds())
        } else {
            None
        }),
{
    if !extension || builds == 0 {
        return None;
    }
    Some(
        memory_barrier(
            STAGE_MICROMAP_BUILD,
            ACCESS_MICROMAP_WRITE,
            STAGE_ACCELERATION_STRUCTURE_BUILD,
            ACCESS_ACCELERATION_STRUCTURE_READ | ACCESS_MICROMAP_READ,
        ),
    )
}

/// Builds that refer to a micromap wait for its own build.
pub proof fn lemma_builds_wait()
    ensures
        micromaps_to_builds() matches Command::Barrier(b) && orders(
            b,
            STAGE_MICROMAP_BUILD,
            ACCESS_MICROMAP_WRITE,
            STAGE_ACCELERATION_STRUCTURE_BUILD,
            ACCESS_MICROMAP_READ,
        ),
{
    lemma_includes(STAGE_MICROMAP_BUILD, STAGE_MICROMAP_BUILD);
    lemma_includes(ACCESS_MICROMAP_WRITE, ACCESS_MICROMAP_WRITE);
    lemma_includes(STAGE_ACCELERATION_STRUCTURE_BUILD, STAGE_ACCELERATION_STRUCTURE_BUILD);
    lemma_includes(ACCESS_ACCELERATION_STRUCTURE_READ, ACCESS_MICROMAP_READ);
}

} // verus!
