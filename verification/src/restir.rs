//! Reservoir buffers: a ping-pong pair for each rendered view, one reservoir per traced
//! pixel. A pair is made anew, and its history dropped, whenever the traced size changes.

use crate::commands::{
    no_buffer, Buffer, Command, ACCESS_SHADER_READ, ACCESS_SHADER_WRITE, ACCESS_TRANSFER_WRITE,
    STAGE_RAY_TRACING_SHADER, STAGE_TRANSFER, WHOLE_SIZE,
};
use crate::compute::{barrier, memory_barrier};
use crate::ray_render_plugin::frame_after;
use vstd::prelude::*;

verus! {

/// Bytes of one reservoir.
pub const RESERVOIR_BYTES: u64 = 32;

/// One view's pair.
#[derive(Clone, Copy, Debug, PartialEq, Eq, Structural)]
pub struct ReservoirView {
    pub even: Buffer,
    pub odd: Buffer,
    /// The traced size that the pair was made for.
    pub width: u32,
    pub height: u32,
}

/// A view without buffers.
pub open spec fn no_reservoirs() -> ReservoirView {
    ReservoirView { even: no_buffer(), odd: no_buffer(), width: 0, height: 0 }
}

/// The reservoirs of both views.
#[derive(Clone, Copy, Debug, PartialEq, Eq, Structural)]
pub struct RestirState {
    pub left: ReservoirView,
    pub right: ReservoirView,
}

/// The bytes of one buffer for this traced size.
pub open spec fn reservoir_bytes(width: u32, height: u32) -> int {
    width * height * RESERVOIR_BYTES
}

impl RestirState {
    /// The pair of view 0 or 1.
    pub open spec fn view_at(self, view: usize) -> ReservoirView {
        if view == 0 {
            self.left
        } else {
            self.right
        }
    }

    pub fn new() -> (r: Self)
        ensures
            r.left == no_reservoirs(),
            r.right == no_reservoirs(),
    {
        let none = ReservoirView {
            even: Buffer::default(),
            odd: Buffer::default(),
            width: 0,
            height: 0,
        };
        RestirState { left: none, right: none }
    }

    fn pair(&self, view: usize) -> (r: ReservoirView)
        requires
            view < 2,
        ensures
            r == self.view_at(view),
    {
        if view == 0 {
            self.left
        } else {
            self.right
        }
    }

    /// The bytes of each of the two buffers that the view must get anew: whenever its traced
    /// size changed, also to one with as many pixels.
    pub fn needs(&self, width: u32, height: u32, view: usize) -> (r: Option<u64>)
        requires
            view < 2,
            reservoir_bytes(width, height) <= u64::MAX,
        ensures
            r == (if width != self.view_at(view).width || height != self.view_at(view).height {
                Some(reservoir_bytes(width, height) as u64)
            } else {
                None
            }),
    {
        assert(width * height <= u64::MAX) by (nonlinear_arith)
            requires
                width * height * RESERVOIR_BYTES <= u64::MAX,
                RESERVOIR_BYTES == 32,
        ;
        let bytes: u64 = width as u64 * height as u64 * RESERVOIR_BYTES;
        let pair: ReservoirView = self.pair(view);
        if width != pair.width || height != pair.height {
            Some(bytes)
        } else {
            None
        }
    }

    /// The handles that a view gives up.
    pub fn handles(&self, view: usize) -> (r: (u64, u64))
        requires
            view < 2,
        ensures
            r == (self.view_at(view).even.handle, self.view_at(view).odd.handle),
    {
        let pair: ReservoirView = self.pair(view);
        (pair.even.handle, pair.odd.handle)
    }

    /// Takes over a view's new buffers for this traced size; both are cleared before rays read
    /// or write them, so that nothing is left of the history.
    pub fn install(
        &mut self,
        view: usize,
        width: u32,
        height: u32,
        even: Buffer,
        odd: Buffer,
    ) -> (r: Vec<Command>)
        requires
            view < 2,
        ensures
            final(self).view_at(view) == (ReservoirView { even, odd, width, height }),
            view == 0 ==> final(self).right == old(self).right,
            view != 0 ==> final(self).left == old(self).left,
            r@ == seq![
                Command::Clear { buffer: even.handle, size: WHOLE_SIZE },
                Command::Clear { buffer: odd.handle, size: WHOLE_SIZE },
                barrier(
                    STAGE_TRANSFER,
                    ACCESS_TRANSFER_WRITE,
                    STAGE_RAY_TRACING_SHADER,
                    ACCESS_SHADER_READ | ACCESS_SHADER_WRITE,
                ),
            ],
    {
        let pair = ReservoirView { even, odd, width, height };
        if view == 0 {
            self.left = pair;
        } else {
            self.right = pair;
        }
        let r: Vec<Command> = vec![
            Command::Clear { buffer: even.handle, size: WHOLE_SIZE },
            Command::Clear { buffer: odd.handle, size: WHOLE_SIZE },
            memory_barrier(
                STAGE_TRANSFER,
                ACCESS_TRANSFER_WRITE,
                STAGE_RAY_TRACING_SHADER,
                ACCESS_SHADER_READ | ACCESS_SHADER_WRITE,
            ),
        ];
        assert(r@ =~= seq![
            Command::Clear { buffer: even.handle, size: WHOLE_SIZE },
            Command::Clear { buffer: odd.handle, size: WHOLE_SIZE },
            barrier(
                STAGE_TRANSFER,
                ACCESS_TRANSFER_WRITE,
                STAGE_RAY_TRACING_SHADER,
                ACCESS_SHADER_READ | ACCESS_SHADER_WRITE,
            ),
        ]);
        r
    }

    /// The addresses of the previous and of the current buffer of frame `frame`.
    pub open spec fn ping_pong(self, frame: u32, view: usize) -> (u64, u64) {
        let pair = self.view_at(view);
        if frame % 2 == 0 {
            (pair.odd.address, pair.even.address)
        } else {
            (pair.even.address, pair.odd.address)
        }
    }

    /// The addresses of the previous and of the current buffer of frame `frame`.
    pub fn addresses(&self, frame: u32, view: usize) -> (r: (u64, u64))
        requires
            view < 2,
        ensures
            r == self.ping_pong(frame, view),
    {
        let pair: ReservoirView = self.pair(view);
        if frame % 2 == 0 {
            (pair.odd.address, pair.even.address)
        } else {
            (pair.even.address, pair.odd.address)
        }
    }
}

/// What one frame writes is what the next one reads as its history, also where the frame number
/// wraps around.
pub proof fn lemma_history(state: RestirState, frame: u32, view: usize)
    ensures
        state.ping_pong(frame_after(frame), view).0 == state.ping_pong(frame, view).1,
        state.ping_pong(frame_after(frame), view).1 == state.ping_pong(frame, view).0,
{
}

} // verus!
