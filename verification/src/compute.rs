//! Compute dispatches: every kernel has one push-constant block and groups of
//! [`WORKGROUP_SIZE`] threads, and a dispatch that exceeds the device's limit is cut into
//! chunks.

use crate::commands::{
    Command, MemoryBarrier, ACCESS_INDIRECT_COMMAND_READ, ACCESS_SHADER_READ, ACCESS_SHADER_WRITE,
    STAGE_COMPUTE_SHADER, STAGE_DRAW_INDIRECT,
};
use crate::render_device::Doomed;
use crate::text::same_text;
use crate::wire::le32;
use vstd::prelude::*;

verus! {

/// Bytes of push constants every kernel may use (the guaranteed minimum).
pub const COMPUTE_PUSH_CONSTANT_SIZE: u32 = 128;

/// Threads per workgroup for every kernel.
pub const WORKGROUP_SIZE: u32 = 64;

/// Largest 1D dispatch, in groups.
pub const MAX_GROUPS: u32 = 65535;

/// Threads of the largest dispatch.
pub const MAX_THREADS: u32 = 4194240;

/// A shader and the entry points to build pipelines for.
#[derive(Debug)]
pub struct ComputeModule {
    pub shader: u64,
    pub entry_points: Vec<String>,
}

impl ComputeModule {
    /// Whether the module can be compiled: once its shader is there, compiled.
    pub fn extract_asset(shader_loaded: bool, has_code: bool) -> (r: bool)
        ensures
            r == (shader_loaded && has_code),
    {
        shader_loaded && has_code
    }
}

/// The pipelines of a module: one for each entry point, in order.
#[derive(Debug)]
pub struct CompiledComputeModule {
    pub pipeline_layout: u64,
    pub entry_points: Vec<String>,
    pub handles: Vec<u64>,
}

/// Where the last entry point with this name stands.
pub open spec fn last_named(names: Seq<String>, name: Seq<char>) -> Option<int>
    decreases names.len(),
{
    if names.len() == 0 {
        None
    } else if names.last()@ == name {
        Some(names.len() - 1)
    } else {
        last_named(names.drop_last(), name)
    }
}

impl CompiledComputeModule {
    pub open spec fn wf(self) -> bool {
        self.entry_points@.len() == self.handles@.len()
    }

    /// The pipelines that no later entry point of the same name stands in for, before entry
    /// point `n`.
    pub open spec fn kept(self, n: nat) -> Seq<Doomed>
        decreases n,
    {
        if n == 0 {
            Seq::empty()
        } else {
            self.kept((n - 1) as nat) + if last_named(
                self.entry_points@,
                self.entry_points@[n - 1]@,
            ) == Some(n - 1) {
                seq![Doomed::Pipeline(self.handles@[n - 1])]
            } else {
                Seq::empty()
            }
        }
    }

    fn place(&self, entry: &str) -> (r: Option<usize>)
        ensures
            match r {
                Some(k) => k < self.entry_points@.len() && last_named(
                    self.entry_points@,
                    entry@,
                ) == Some(k as int),
                None => last_named(self.entry_points@, entry@) is None,
            },
    {
        let mut k: usize = self.entry_points.len();
        assert(self.entry_points@.take(k as int) =~= self.entry_points@);
        while k > 0
            invariant
                k <= self.entry_points@.len(),
                last_named(self.entry_points@, entry@) == last_named(
                    self.entry_points@.take(k as int),
                    entry@,
                ),
            decreases k,
        {
            assert(self.entry_points@.take(k as int).drop_last() =~= self.entry_points@.take(
                k - 1,
            ));
            if same_text(self.entry_points[k - 1].as_str(), entry) {
                return Some(k - 1);
            }
            k = k - 1;
        }
        None
    }

    /// The pipeline of an entry point.
    pub fn pipeline(&self, entry: &str) -> (r: u64)
        requires
            self.wf(),
            last_named(self.entry_points@, entry@) is Some,
        ensures
            r == self.handles@[last_named(self.entry_points@, entry@)->0],
    {
        match self.place(entry) {
            Some(k) => self.handles[k],
            None => 0,
        }
    }

    /// The pipeline of an entry point, where the module has one of that name.
    pub fn find(&self, entry: &str) -> (r: Option<u64>)
        requires
            self.wf(),
        ensures
            r == (match last_named(self.entry_points@, entry@) {
                Some(k) => Some(self.handles@[k]),
                None => None,
            }),
    {
        match self.place(entry) {
            Some(k) => Some(self.handles[k]),
            None => None,
        }
    }

    /// What goes with the module.
    pub fn destroy_asset(&self) -> (r: Vec<Doomed>)
        requires
            self.wf(),
        ensures
            r@ == self.kept(self.entry_points@.len()) + seq![
                Doomed::PipelineLayout(self.pipeline_layout),
            ],
    {
        let mut r: Vec<Doomed> = Vec::new();
        let mut k: usize = 0;
        while k < self.entry_points.len()
            invariant
                self.wf(),
                k <= self.entry_points@.len(),
                r@ == self.kept(k as nat),
            decreases self.entry_points@.len() - k,
        {
            if let Some(last) = self.place(self.entry_points[k].as_str()) {
                if last == k {
                    r.push(Doomed::Pipeline(self.handles[k]));
                }
            }
            k = k + 1;
            assert(r@ =~= self.kept(k as nat));
        }
        r.push(Doomed::PipelineLayout(self.pipeline_layout));
        assert(r@ =~= self.kept(self.entry_points@.len()) + seq![
            Doomed::PipelineLayout(self.pipeline_layout),
        ]);
        r
    }
}

/// Workgroups for `threads` threads, clamped to the 1D dispatch limit.
pub open spec fn groups_for(threads: int) -> int {
    let groups = (threads + WORKGROUP_SIZE - 1) / WORKGROUP_SIZE as int;
    if groups < 1 {
        1
    } else if groups > MAX_GROUPS {
        MAX_GROUPS as int
    } else {
        groups
    }
}

/// Workgroups for `threads` threads, clamped to the 1D dispatch limit.
pub fn group_count(threads: u32) -> (r: u32)
    ensures
        r == groups_for(threads as int),
{
    let groups: u32 = if threads % WORKGROUP_SIZE == 0 {
        threads / WORKGROUP_SIZE
    } else {
        threads / WORKGROUP_SIZE + 1
    };
    if groups < 1 {
        1
    } else if groups > MAX_GROUPS {
        MAX_GROUPS
    } else {
        groups
    }
}

/// One dispatch: the push constants, and the number of groups.
#[derive(Debug)]
pub struct DispatchChunk {
    pub push: Vec<u8>,
    pub groups: u32,
}

/// How many dispatches `threads` threads take.
pub open spec fn chunk_total(threads: u32) -> nat {
    ((threads + MAX_THREADS - 1) / MAX_THREADS as int) as nat
}

/// The threads of dispatch `i`.
pub open spec fn chunk_threads(threads: u32, i: int) -> int {
    let left = threads - i * MAX_THREADS;
    if left < MAX_THREADS {
        left
    } else {
        MAX_THREADS as int
    }
}

/// `bytes` with the word at `at` replaced.
pub open spec fn patched(bytes: Seq<u8>, at: int, word: u32) -> Seq<u8> {
    bytes.take(at) + le32(word) + bytes.skip(at + 4)
}

/// The push constants of dispatch `i`: the block, with the first thread index in place.
pub open spec fn chunk_push(bytes: Seq<u8>, base_offset: Option<usize>, i: int) -> Seq<u8> {
    match base_offset {
        Some(at) => patched(bytes, at as int, (i * MAX_THREADS) as u32),
        None => bytes,
    }
}

/// The chunks are the dispatches of `threads` threads with the block `bytes`.
pub open spec fn is_chunked(
    chunks: Seq<DispatchChunk>,
    bytes: Seq<u8>,
    threads: u32,
    base_offset: Option<usize>,
) -> bool {
    &&& chunks.len() == chunk_total(threads)
    &&& forall|i: int|
        0 <= i < chunks.len() ==> (#[trigger] chunks[i]).push@ == chunk_push(bytes, base_offset, i)
            && chunks[i].groups == groups_for(chunk_threads(threads, i))
}

/// `bytes` with the word at `at` replaced.
fn patch(bytes: &Vec<u8>, at: usize, word: u32) -> (r: Vec<u8>)
    requires
        at + 4 <= bytes@.len(),
    ensures
        r@ == patched(bytes@, at as int, word),
{
    assert(bytes.len() <= usize::MAX);
    let mut r: Vec<u8> = Vec::new();
    r.extend_from_slice(bytes.as_slice());
    r[at] = (word % 256) as u8;
    r[at + 1] = (word / 256 % 256) as u8;
    r[at + 2] = (word / 65536 % 256) as u8;
    r[at + 3] = (word / 16777216) as u8;
    assert(r@ =~= patched(bytes@, at as int, word));
    r
}

/// The push constants of a chunk whose first thread is `base`.
fn push_of(bytes: &Vec<u8>, base_offset: Option<usize>, base: u32) -> (r: Vec<u8>)
    requires
        base_offset matches Some(at) ==> at + 4 <= bytes@.len(),
    ensures
        r@ == (match base_offset {
            Some(at) => patched(bytes@, at as int, base),
            None => bytes@,
        }),
{
    match base_offset {
        Some(at) => patch(bytes, at, base),
        None => {
            let mut r: Vec<u8> = Vec::new();
            r.extend_from_slice(bytes.as_slice());
            assert(r@ =~= bytes@);
            r
        },
    }
}

/// Dispatches `threads` threads, in chunks if they exceed one dispatch; the word at
/// `base_offset` of the block receives each chunk's first thread index where an offset is given.
pub fn record_dispatch(bytes: &Vec<u8>, threads: u32, base_offset: Option<usize>) -> (r: Vec<
    DispatchChunk,
>)
    requires
        bytes@.len() <= COMPUTE_PUSH_CONSTANT_SIZE,
        base_offset matches Some(at) ==> at + 4 <= bytes@.len(),
    ensures
        is_chunked(r@, bytes@, threads, base_offset),
{
    let mut r: Vec<DispatchChunk> = Vec::new();
    let mut base: u32 = 0;
    while base < threads
        invariant
            base_offset matches Some(at) ==> at + 4 <= bytes@.len(),
            base <= threads,
            base == threads || base == r@.len() * MAX_THREADS,
            base == threads ==> (r@.len() - 1) * MAX_THREADS < threads <= r@.len() * MAX_THREADS,
            forall|i: int|
                0 <= i < r@.len() ==> (#[trigger] r@[i]).push@ == chunk_push(
                    bytes@,
                    base_offset,
                    i,
                ) && r@[i].groups == groups_for(chunk_threads(threads, i)),
        decreases threads - base,
    {
        let left: u32 = threads - base;
        let n: u32 = if left < MAX_THREADS {
            left
        } else {
            MAX_THREADS
        };
        let push: Vec<u8> = push_of(bytes, base_offset, base);
        r.push(DispatchChunk { push, groups: group_count(n) });
        base = base + n;
    }
    r
}

/// Every thread below `threads` runs in exactly one chunk: chunk `i` starts at its first
/// thread index, has enough groups for its threads and no group without one of them.
pub proof fn lemma_each_thread_once(threads: u32, t: u32)
    requires
        t < threads,
    ensures
        ({
            let i = t as int / MAX_THREADS as int;
            let n = chunk_threads(threads, i);
            &&& 0 <= i < chunk_total(threads)
            &&& i * MAX_THREADS <= t < i * MAX_THREADS + n
            &&& n <= groups_for(n) * WORKGROUP_SIZE < n + WORKGROUP_SIZE
            &&& forall|j: int|
                0 <= j < chunk_total(threads) && #[trigger] (j * MAX_THREADS) <= t < j
                    * MAX_THREADS + chunk_threads(threads, j) ==> j == i
        }),
{
    let i = t as int / MAX_THREADS as int;
    assert forall|j: int|
        0 <= j < chunk_total(threads) && #[trigger] (j * MAX_THREADS) <= t < j
            * MAX_THREADS + chunk_threads(threads, j) implies j == i by {}
}

/// Makes the writes of one dispatch visible to the reads and writes of the next, and to the
/// group counts of an indirect one.
pub open spec fn compute_to_compute() -> Command {
    Command::Barrier(
        MemoryBarrier {
            src_stage: STAGE_COMPUTE_SHADER,
            src_access: ACCESS_SHADER_WRITE,
            dst_stage: STAGE_COMPUTE_SHADER | STAGE_DRAW_INDIRECT,
            dst_access: ACCESS_SHADER_READ | ACCESS_SHADER_WRITE | ACCESS_INDIRECT_COMMAND_READ,
        },
    )
}

/// Makes the writes of one dispatch visible to the reads and writes of the next, and to the
/// group counts of an indirect one.
pub fn compute_to_compute_barrier() -> (r: Command)
    ensures
        r == compute_to_compute(),
{
    memory_barrier(
        STAGE_COMPUTE_SHADER,
        ACCESS_SHADER_WRITE,
        STAGE_COMPUTE_SHADER | STAGE_DRAW_INDIRECT,
        ACCESS_SHADER_READ | ACCESS_SHADER_WRITE | ACCESS_INDIRECT_COMMAND_READ,
    )
}

/// The barrier between these stages and accesses.
pub open spec fn barrier(src_stage: u64, src_access: u64, dst_stage: u64,
    dst_access: u64) -> Command {
    Command::Barrier(MemoryBarrier { src_stage, src_access, dst_stage, dst_access })
}

/// The barrier between these stages and accesses.
pub fn memory_barrier(src_stage: u64, src_access: u64, dst_stage: u64, dst_access: u64) -> (r:
    Command)
    ensures
        r == barrier(src_stage, src_access, dst_stage, dst_access),
{
    Command::Barrier(MemoryBarrier { src_stage, src_access, dst_stage, dst_access })
}

/// A module of kernels and the shader that it is compiled from, each by its asset id.
#[derive(Clone, Copy, Debug, PartialEq, Eq, Structural)]
pub struct ModuleSource {
    pub module: u64,
    pub shader: u64,
}

/// The modules that `shader` belongs to, in order.
pub open spec fn modules_of(modules: Seq<ModuleSource>, shader: u64) -> Seq<u64>
    decreases modules.len(),
{
    if modules.len() == 0 {
        Seq::empty()
    } else {
        let front = modules_of(modules.drop_last(), shader);
        if modules.last().shader == shader {
            front.push(modules.last().module)
        } else {
            front
        }
    }
}

/// The modules to prepare again once `shader` was modified.
pub fn propagate_modified(modules: &Vec<ModuleSource>, shader: u64) -> (r: Vec<u64>)
    ensures
        r@ == modules_of(modules@, shader),
{
    let mut r: Vec<u64> = Vec::new();
    let mut i: usize = 0;
    while i < modules.len()
        invariant
            i <= modules@.len(),
            r@ == modules_of(modules@.take(i as int), shader),
        decreases modules@.len() - i,
    {
        assert(modules@.take(i + 1).drop_last() =~= modules@.take(i as int));
        if modules[i].shader == shader {
            r.push(modules[i].module);
        }
        i = i + 1;
    }
    assert(modules@.take(i as int) =~= modules@);
    r
}

// ---- what barriers order ------------------------------------------------------------------

/// The set of flags holds all of these.
pub open spec fn includes(set: u64, flags: u64) -> bool {
    set & flags == flags
}

/// The barrier orders what `stage` does by `access` before what `later` does by `later_access`.
pub open spec fn orders(
    b: MemoryBarrier,
    stage: u64,
    access: u64,
    later: u64,
    later_access: u64,
) -> bool {
    &&& includes(b.src_stage, stage)
    &&& includes(b.src_access, access)
    &&& includes(b.dst_stage, later)
    &&& includes(b.dst_access, later_access)
}

/// Between commands `i` and `j` stands a barrier that orders what `stage` does by `access`
/// before what `later` does by `later_access`.
pub open spec fn ordered(
    commands: Seq<Command>,
    i: int,
    j: int,
    stage: u64,
    access: u64,
    later: u64,
    later_access: u64,
) -> bool {
    exists|k: int|
        i < k < j && (#[trigger] commands[k] matches Command::Barrier(b) && orders(
            b,
            stage,
            access,
            later,
            later_access,
        ))
}

/// A set of flags holds its parts.
pub proof fn lemma_includes(a: u64, b: u64)
    ensures
        includes(a, a),
        includes(a | b, a),
        includes(a | b, b),
        forall|set: u64| #[trigger] includes(set, a | b) ==> includes(set, a) && includes(set, b),
{
    assert(a & a == a && (a | b) & a == a && (a | b) & b == b) by (bit_vector);
    assert forall|set: u64| #[trigger] includes(set, a | b) implies includes(set, a) && includes(
        set,
        b,
    ) by {
        assert(set & (a | b) == (a | b) ==> set & a == a && set & b == b) by (bit_vector);
    }
}

} // verus!
