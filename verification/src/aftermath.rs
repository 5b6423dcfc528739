//! Crash dumps of the device: when the driver's collection is waited for, and for how long.

use crate::text::{append_number, decimal, lemma_between, lemma_numerals_differ};
use vstd::prelude::*;
use vstd::string::*;

verus! {

/// The driver's code for success.
pub const RESULT_SUCCESS: i32 = 1;

/// No collection was started.
pub const STATUS_NOT_STARTED: i32 = 0;

/// The collection failed.
pub const STATUS_COLLECTING_FAILED: i32 = 2;

/// The collection is finished.
pub const STATUS_FINISHED: i32 = 4;

/// The device was lost.
pub const ERROR_DEVICE_LOST: i32 = -4;

/// The longest wait, in milliseconds.
pub const WAIT_LIMIT_MS: u64 = 10000;

/// How long a collection may take to start, in milliseconds.
pub const GRACE_MS: u64 = 1000;

/// Whether dumps are collected.
#[derive(Clone, Copy, Debug, PartialEq, Eq, Structural)]
pub struct CrashWatch {
    /// The driver was asked.
    pub asked: bool,
    /// The driver agreed.
    pub armed: bool,
    /// A dump has landed.
    pub done: bool,
    /// Files written so far.
    pub files: u32,
}

impl CrashWatch {
    pub fn new() -> (r: Self)
        ensures
            r == (CrashWatch { asked: false, armed: false, done: false, files: 0 }),
    {
        CrashWatch { asked: false, armed: false, done: false, files: 0 }
    }
}

/// The watch once dumps were asked for.
pub open spec fn enabled(watch: CrashWatch) -> CrashWatch {
    CrashWatch { asked: true, ..watch }
}

/// Asks for crash dumps: whether the driver is now to be asked, which it is the first time only.
pub fn enable(watch: &mut CrashWatch) -> (ask: bool)
    ensures
        ask == !old(watch).asked,
        *final(watch) == enabled(*old(watch)),
{
    let ask: bool = !watch.asked;
    watch.asked = true;
    ask
}

/// What follows from the driver's answer.
#[derive(Clone, Copy, Debug, PartialEq, Eq, Structural)]
pub enum Answered {
    /// Dumps stay off; a warning is all that comes of it.
    Disabled,
    /// Dumps are on: from now on a panic goes through [`on_panic`].
    InstallHook,
}

/// The watch once the driver answered.
pub open spec fn answered(watch: CrashWatch, result: i32) -> CrashWatch {
    CrashWatch { armed: watch.armed || result == RESULT_SUCCESS, ..watch }
}

/// Takes note of the driver's answer; any but success leaves dumps off, and nothing else is
/// affected.
pub fn note_answer(watch: &mut CrashWatch, result: i32) -> (r: Answered)
    ensures
        r == (if result == RESULT_SUCCESS {
            Answered::InstallHook
        } else {
            Answered::Disabled
        }),
        *final(watch) == answered(*old(watch), result),
{
    if result == RESULT_SUCCESS {
        watch.armed = true;
        Answered::InstallHook
    } else {
        Answered::Disabled
    }
}

/// One step of a panic.
#[derive(Clone, Copy, Debug, PartialEq, Eq, Structural)]
pub enum PanicStep {
    /// The wait for a dump.
    WaitForDump,
    /// The hook that stood before.
    PreviousHook,
}

/// What the installed hook does on a panic: it waits for a dump that is still to land, and then
/// calls the hook that stood before.
pub fn on_panic(watch: &CrashWatch) -> (r: Vec<PanicStep>)
    ensures
        r@ == (if watch.armed && !watch.done {
            seq![PanicStep::WaitForDump, PanicStep::PreviousHook]
        } else {
            seq![PanicStep::PreviousHook]
        }),
{
    let mut r: Vec<PanicStep> = Vec::new();
    if must_wait(watch) {
        r.push(PanicStep::WaitForDump);
    }
    r.push(PanicStep::PreviousHook);
    assert(r@ =~= (if watch.armed && !watch.done {
        seq![PanicStep::WaitForDump, PanicStep::PreviousHook]
    } else {
        seq![PanicStep::PreviousHook]
    }));
    r
}

/// What can happen to a watch.
#[derive(Clone, Copy, Debug, PartialEq, Eq, Structural)]
pub enum WatchEvent {
    Enable,
    Answer { result: i32 },
    File,
    Dump { size: u32 },
}

/// The watch after an event.
pub open spec fn after(watch: CrashWatch, event: WatchEvent) -> CrashWatch {
    match event {
        WatchEvent::Enable => enabled(watch),
        WatchEvent::Answer { result } => answered(watch, result),
        WatchEvent::File => counted(watch),
        WatchEvent::Dump { size } => CrashWatch { done: watch.done || size > 0, ..watch },
    }
}

/// The watch after all of these events.
pub open spec fn after_all(watch: CrashWatch, events: Seq<WatchEvent>) -> CrashWatch
    decreases events.len(),
{
    if events.len() == 0 {
        watch
    } else {
        after(after_all(watch, events.drop_last()), events.last())
    }
}

/// How often the driver is asked: at each enabling that finds the watch not asked yet.
pub open spec fn times_asked(watch: CrashWatch, events: Seq<WatchEvent>) -> nat
    decreases events.len(),
{
    if events.len() == 0 {
        0
    } else {
        let front = times_asked(watch, events.drop_last());
        if events.last() == WatchEvent::Enable && !after_all(watch, events.drop_last()).asked {
            front + 1
        } else {
            front
        }
    }
}

/// However often dumps are asked for, and whatever happens in between, the driver is asked once:
/// the first time. It stays off unless an answer was success.
pub proof fn lemma_asked_once(events: Seq<WatchEvent>)
    ensures
        ({
            let fresh = CrashWatch { asked: false, armed: false, done: false, files: 0 };
            let end = after_all(fresh, events);
            &&& times_asked(fresh, events) == if events.contains(WatchEvent::Enable) {
                1nat
            } else {
                0
            }
            &&& end.asked == events.contains(WatchEvent::Enable)
            &&& end.armed == events.contains(WatchEvent::Answer { result: RESULT_SUCCESS })
        }),
    decreases events.len(),
{
    if events.len() > 0 {
        let front = events.drop_last();
        lemma_asked_once(front);
        assert(events =~= front.push(events.last()));
        assert forall|e: WatchEvent| #[trigger] events.contains(e) <==> front.contains(e) || e
            == events.last() by {
            if events.contains(e) {
                let i = choose|i: int| 0 <= i < events.len() && events[i] == e;
                if i < front.len() {
                    assert(front[i] == e);
                }
            }
            if front.contains(e) {
                let i = choose|i: int| 0 <= i < front.len() && front[i] == e;
                assert(events[i] == e);
            }
            if e == events.last() {
                assert(events[events.len() - 1] == e);
            }
        }
    }
}

/// Whether an error means that the driver may be collecting a dump.
pub fn note_device_lost(error: i32) -> (r: bool)
    ensures
        r == (error == ERROR_DEVICE_LOST),
{
    error == ERROR_DEVICE_LOST
}

/// Whether there is anything to wait for: dumps are collected, and none has landed.
pub fn must_wait(watch: &CrashWatch) -> (r: bool)
    ensures
        r == (watch.armed && !watch.done),
{
    watch.armed && !watch.done
}

/// What was seen while waiting.
#[derive(Clone, Copy, Debug, PartialEq, Eq, Structural)]
pub struct DumpWait {
    pub saw_activity: bool,
    pub logged: bool,
}

/// How a wait goes on.
#[derive(Clone, Copy, Debug, PartialEq, Eq, Structural)]
pub enum WaitStep {
    /// There is nothing to wait for.
    NotNeeded,
    /// The dump has landed.
    Complete,
    /// The driver does not answer.
    NoAnswer,
    /// The driver is finished.
    Finished,
    /// The driver failed.
    Failed,
    /// Nothing was ever started.
    NeverStarted,
    /// The wait took too long.
    TimedOut,
    /// Sleep and ask again; `announce` where the driver is seen at work for the first time.
    Sleep { announce: bool },
}

/// How a wait goes on after `elapsed_ms`; `status` is the driver's answer, where it gives one.
pub open spec fn wait_step(
    watch: CrashWatch,
    wait: DumpWait,
    elapsed_ms: u64,
    status: Option<i32>,
) -> WaitStep {
    if !watch.armed {
        WaitStep::NotNeeded
    } else if elapsed_ms >= WAIT_LIMIT_MS {
        WaitStep::TimedOut
    } else if watch.done {
        WaitStep::Complete
    } else {
        match status {
            None => WaitStep::NoAnswer,
            Some(s) => if s == STATUS_FINISHED {
                WaitStep::Finished
            } else if s == STATUS_COLLECTING_FAILED {
                WaitStep::Failed
            } else if s == STATUS_NOT_STARTED {
                if !wait.saw_activity && elapsed_ms > GRACE_MS {
                    WaitStep::NeverStarted
                } else {
                    WaitStep::Sleep { announce: false }
                }
            } else {
                WaitStep::Sleep { announce: !wait.logged }
            },
        }
    }
}

/// Decides how a wait for a crash dump goes on.
pub fn wait_for_dump(
    watch: &CrashWatch,
    wait: &mut DumpWait,
    elapsed_ms: u64,
    status: Option<i32>,
) -> (r: WaitStep)
    ensures
        r == wait_step(*watch, *old(wait), elapsed_ms, status),
        ({
            let busy = r is Sleep && status != Some(STATUS_NOT_STARTED);
            &&& final(wait).saw_activity == (old(wait).saw_activity || busy)
            &&& final(wait).logged == (old(wait).logged || busy)
        }),
{
    if !watch.armed {
        return WaitStep::NotNeeded;
    }
    if elapsed_ms >= WAIT_LIMIT_MS {
        return WaitStep::TimedOut;
    }
    if watch.done {
        return WaitStep::Complete;
    }
    match status {
        None => WaitStep::NoAnswer,
        Some(s) => {
            if s == STATUS_FINISHED {
                return WaitStep::Finished;
            }
            if s == STATUS_COLLECTING_FAILED {
                return WaitStep::Failed;
            }
            if s == STATUS_NOT_STARTED {
                if !wait.saw_activity && elapsed_ms > GRACE_MS {
                    return WaitStep::NeverStarted;
                }
                return WaitStep::Sleep { announce: false };
            }
            let announce: bool = !wait.logged;
            wait.saw_activity = true;
            wait.logged = true;
            WaitStep::Sleep { announce }
        },
    }
}

/// A wait always ends: it never sleeps once its limit has passed, nor, where no collection was
/// ever seen, once the grace has.
pub proof fn lemma_wait_ends(watch: CrashWatch, wait: DumpWait, elapsed_ms: u64,
    status: Option<i32>)
    ensures
        elapsed_ms >= WAIT_LIMIT_MS ==> !(wait_step(watch, wait, elapsed_ms, status) is Sleep),
        elapsed_ms > GRACE_MS && !wait.saw_activity && status == Some(STATUS_NOT_STARTED) ==> !(
        wait_step(watch, wait, elapsed_ms, status) is Sleep),
{
}

/// The files that a crash leaves.
#[derive(Clone, Copy, Debug, PartialEq, Eq, Structural)]
pub enum DumpFile {
    Dump,
    ShaderDebugInfo,
}

/// The ending of a file's name.
pub open spec fn ending(kind: DumpFile) -> Seq<char> {
    match kind {
        DumpFile::Dump => ".nv-gpudump"@,
        DumpFile::ShaderDebugInfo => ".nvdbg"@,
    }
}

/// The name of the file that process `pid` writes as its `n`-th, at `stamp` seconds.
pub open spec fn file_name(pid: u32, stamp: u64, n: u32, kind: DumpFile) -> Seq<char> {
    "aurora-"@ + decimal(pid as nat) + "-"@ + decimal(stamp as nat) + "-"@ + decimal(n as nat)
        + ending(kind)
}

/// Files that a process writes within one second, of one kind, have different names.
pub proof fn lemma_files_apart(pid: u32, stamp: u64, a: u32, b: u32, kind: DumpFile)
    requires
        file_name(pid, stamp, a, kind) == file_name(pid, stamp, b, kind),
    ensures
        a == b,
{
    let front = "aurora-"@ + decimal(pid as nat) + "-"@ + decimal(stamp as nat) + "-"@;
    lemma_between(front, decimal(a as nat), decimal(b as nat), ending(kind));
    lemma_numerals_differ(a as nat, b as nat, 10);
}

/// The name of the file that process `pid` writes as its `n`-th, at `stamp` seconds.
pub fn dump_name(pid: u32, stamp: u64, n: u32, kind: DumpFile) -> (r: String)
    ensures
        r@ == file_name(pid, stamp, n, kind),
{
    let mut r: String = String::from_str("aurora-");
    append_number(&mut r, pid as u64, 10);
    r.append("-");
    append_number(&mut r, stamp, 10);
    r.append("-");
    append_number(&mut r, n as u64, 10);
    match kind {
        DumpFile::Dump => r.append(".nv-gpudump"),
        DumpFile::ShaderDebugInfo => r.append(".nvdbg"),
    }
    r
}

/// The watch once another file was written; numbers start over behind the largest.
pub open spec fn counted(watch: CrashWatch) -> CrashWatch {
    CrashWatch {
        files: if watch.files == u32::MAX {
            0
        } else {
            (watch.files + 1) as u32
        },
        ..watch
    }
}

/// Takes note of a file: gives its number; numbers start over behind the largest.
pub fn next_file(watch: &mut CrashWatch) -> (n: u32)
    ensures
        n == old(watch).files,
        *final(watch) == counted(*old(watch)),
{
    let n: u32 = watch.files;
    watch.files = if n == u32::MAX {
        0
    } else {
        n + 1
    };
    n
}

/// Takes note of a dump of `size` bytes; an empty one is none.
pub fn note_dump(watch: &mut CrashWatch, size: u32)
    ensures
        *final(watch) == (CrashWatch { done: old(watch).done || size > 0, ..*old(watch) }),
{
    if size > 0 {
        watch.done = true;
    }
}

} // verus!
