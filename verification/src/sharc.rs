//! A world-space radiance cache: a fixed-size table of voxel entries, made on first use and
//! resolved every frame.

use crate::commands::{
    no_buffer, Buffer, Command, Kernel, Params, SharcResolveParams, ACCESS_SHADER_READ,
    ACCESS_SHADER_WRITE, ACCESS_TRANSFER_WRITE, STAGE_COMPUTE_SHADER, STAGE_RAY_TRACING_SHADER,
    STAGE_TRANSFER, WHOLE_SIZE,
};
use crate::compute::{barrier, lemma_includes, memory_barrier, ordered};
use vstd::prelude::*;

verus! {

/// Entries of the table.
pub const SHARC_ENTRIES: u32 = 1048576;

/// Bytes of one entry.
pub const ENTRY_BYTES: u64 = 32;

/// The cache.
#[derive(Clone, Copy, Debug, PartialEq, Eq, Structural)]
pub struct SharcState {
    pub buffer: Buffer,
}

impl SharcState {
    pub fn new() -> (r: Self)
        ensures
            r.buffer == no_buffer(),
    {
        SharcState { buffer: Buffer::default() }
    }

    /// Device address of the table (0 until first enabled).
    pub fn address(&self) -> (r: u64)
        ensures
            r == self.buffer.address,
    {
        self.buffer.address
    }

    /// The bytes of the table that must be made, on the first frame on which the cache is
    /// enabled.
    pub fn needs(&self, enabled: bool) -> (r: Option<u64>)
        ensures
            r == (if self.buffer.handle == 0 && enabled {
                Some((SHARC_ENTRIES * ENTRY_BYTES) as u64)
            } else {
                None
            }),
    {
        if self.buffer.handle == 0 && enabled {
            Some(SHARC_ENTRIES as u64 * ENTRY_BYTES)
        } else {
            None
        }
    }

    /// Takes over a new table, which is cleared before rays and kernels use it.
    pub fn install(&mut self, buffer: Buffer) -> (r: Vec<Command>)
        ensures
            final(self).buffer == buffer,
            r@ == seq![
                Command::Clear { buffer: buffer.handle, size: WHOLE_SIZE },
                barrier(
                    STAGE_TRANSFER,
                    ACCESS_TRANSFER_WRITE,
                    STAGE_RAY_TRACING_SHADER | STAGE_COMPUTE_SHADER,
                    ACCESS_SHADER_READ | ACCESS_SHADER_WRITE,
                ),
            ],
    {
        self.buffer = buffer;
        let r: Vec<Command> = vec![
            Command::Clear { buffer: buffer.handle, size: WHOLE_SIZE },
            memory_barrier(
                STAGE_TRANSFER,
                ACCESS_TRANSFER_WRITE,
                STAGE_RAY_TRACING_SHADER | STAGE_COMPUTE_SHADER,
                ACCESS_SHADER_READ | ACCESS_SHADER_WRITE,
            ),
        ];
        assert(r@ =~= seq![
            Command::Clear { buffer: buffer.handle, size: WHOLE_SIZE },
            barrier(
                STAGE_TRANSFER,
                ACCESS_TRANSFER_WRITE,
                STAGE_RAY_TRACING_SHADER | STAGE_COMPUTE_SHADER,
                ACCESS_SHADER_READ | ACCESS_SHADER_WRITE,
            ),
        ]);
        r
    }

    /// The resolve of one frame.
    pub open spec fn resolve_commands(self, frame: u32) -> Seq<Command> {
        seq![
            Command::Dispatch {
                kernel: Kernel::SharcResolve,
                params: Params::SharcResolve(
                    SharcResolveParams {
                        entries: self.buffer.address,
                        entry_count: SHARC_ENTRIES,
                        frame,
                        base: 0,
                        pad: 0,
                    },
                ),
                threads: SHARC_ENTRIES,
            },
            barrier(
                STAGE_COMPUTE_SHADER,
                ACCESS_SHADER_WRITE,
                STAGE_RAY_TRACING_SHADER,
                ACCESS_SHADER_READ | ACCESS_SHADER_WRITE,
            ),
        ]
    }

    /// The resolve of one frame, once the table and the kernel are there. A table that was
    /// made stays in use though the cache is switched off.
    pub fn record(&self, module_ready: bool, frame: u32) -> (r: Vec<Command>)
        ensures
            r@ == (if self.buffer.handle != 0 && module_ready {
                self.resolve_commands(frame)
            } else {
                Seq::empty()
            }),
    {
        if self.buffer.handle == 0 || !module_ready {
            return Vec::new();
        }
        let r: Vec<Command> = vec![
            Command::Dispatch {
                kernel: Kernel::SharcResolve,
                params: Params::SharcResolve(
                    SharcResolveParams {
                        entries: self.buffer.address,
                        entry_count: SHARC_ENTRIES,
                        frame,
                        base: 0,
                        pad: 0,
                    },
                ),
                threads: SHARC_ENTRIES,
            },
            memory_barrier(
                STAGE_COMPUTE_SHADER,
                ACCESS_SHADER_WRITE,
                STAGE_RAY_TRACING_SHADER,
                ACCESS_SHADER_READ | ACCESS_SHADER_WRITE,
            ),
        ];
        assert(r@ =~= self.resolve_commands(frame));
        r
    }
}

/// A resolve covers every entry of the table that rays are given, once, with this frame's number,
/// and rays wait for it.
pub proof fn lemma_whole_table(cache: SharcState, frame: u32)
    ensures
        ({
            let c = cache.resolve_commands(frame);
            &&& c.len() == 2
            &&& match c[0] {
                Command::Dispatch { kernel, params: Params::SharcResolve(p), threads } => {
                    &&& kernel == Kernel::SharcResolve
                    &&& p.entries == cache.buffer.address
                    &&& p.entry_count * 32 == SHARC_ENTRIES * ENTRY_BYTES
                    &&& threads == p.entry_count
                    &&& p.base == 0
                    &&& p.frame == frame
                },
                _ => false,
            }
            &&& ordered(
                c,
                0,
                2,
                STAGE_COMPUTE_SHADER,
                ACCESS_SHADER_WRITE,
                STAGE_RAY_TRACING_SHADER,
                ACCESS_SHADER_READ | ACCESS_SHADER_WRITE,
            )
        }),
{
    lemma_includes(STAGE_COMPUTE_SHADER, STAGE_RAY_TRACING_SHADER);
    lemma_includes(STAGE_RAY_TRACING_SHADER, STAGE_RAY_TRACING_SHADER);
    lemma_includes(ACCESS_SHADER_WRITE, ACCESS_SHADER_READ);
    lemma_includes(ACCESS_SHADER_READ | ACCESS_SHADER_WRITE, ACCESS_SHADER_READ);
    let c = cache.resolve_commands(frame);
    assert(c[1] is Barrier);
}

} // verus!
