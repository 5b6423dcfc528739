//! Exposure metering on the device: a histogram of last frame's luminance becomes a smoothed
//! exposure, with one frame of latency and no round trip. Numbers that are no counts are bit
//! patterns.

use crate::commands::{
    no_buffer, AeParams, Buffer, Command, Kernel, Params, Source, ACCESS_SHADER_READ,
    ACCESS_SHADER_WRITE, ACCESS_TRANSFER_WRITE, STAGE_COMPUTE_SHADER, STAGE_FRAGMENT_SHADER,
    STAGE_RAY_TRACING_SHADER, STAGE_TRANSFER, WHOLE_SIZE,
};
use crate::compute::{barrier, lemma_includes, memory_barrier, ordered};
use vstd::prelude::*;

verus! {

/// Threads of the histogram kernel.
pub const HISTOGRAM_THREADS: u32 = 16384;

/// Bins of the histogram.
pub const HISTOGRAM_BINS: u64 = 64;

/// Lowest metered luminance, log2 nits: -5.
pub const MIN_LOG_LUM: u32 = 0xC0A0_0000;

/// Metered range of luminance, log2 nits: 32.
pub const LOG_LUM_RANGE: u32 = 0x4200_0000;

/// One over the metered range.
pub const INV_LOG_LUM_RANGE: u32 = 0x3D00_0000;

// Locked looks: log2 of the multiplier applied to radiance in nits.

/// -15.26
pub const SUNLIGHT_EV: u32 = 0xC174_28F6;

/// -12.26
pub const OVERCAST_EV: u32 = 0xC144_28F6;

/// -7.26
pub const INDOOR_EV: u32 = 0xC0E8_51EC;

/// -9.96
pub const BLENDER_EV: u32 = 0xC11F_5C29;

/// -15
pub const DEFAULT_FIXED_EV: u32 = 0xC170_0000;

/// How metering behaves.
#[derive(Clone, Copy, Debug, PartialEq, Eq, Structural)]
pub struct AutoExposureSettings {
    pub min_ev: u32,
    pub max_ev: u32,
    pub filter_low: u32,
    pub filter_high: u32,
    pub speed_brighten: u32,
    pub speed_darken: u32,
    pub exponential_transition_distance: u32,
    pub compensation: u32,
}

/// The settings that metering has by default.
pub open spec fn default_settings() -> AutoExposureSettings {
    AutoExposureSettings {
        min_ev: 0xC1F0_0000,
        max_ev: 0,
        filter_low: 0x3DCC_CCCD,
        filter_high: 0x3F66_6666,
        speed_brighten: 0x4120_0000,
        speed_darken: 0x4100_0000,
        exponential_transition_distance: 0x3FC0_0000,
        compensation: 0xC000_0000,
    }
}

impl Default for AutoExposureSettings {
    fn default() -> (r: Self)
        ensures
            r == default_settings(),
    {
        AutoExposureSettings {
            min_ev: 0xC1F0_0000,
            max_ev: 0,
            filter_low: 0x3DCC_CCCD,
            filter_high: 0x3F66_6666,
            speed_brighten: 0x4120_0000,
            speed_darken: 0x4100_0000,
            exponential_transition_distance: 0x3FC0_0000,
            compensation: 0xC000_0000,
        }
    }
}

/// A camera's exposure.
#[derive(Clone, Copy, Debug, PartialEq, Eq, Structural)]
pub enum AuroraExposure {
    /// Metered, and adapting.
    Auto(AutoExposureSettings),
    /// A locked look with this EV.
    Fixed { ev: u32 },
}

impl Default for AuroraExposure {
    fn default() -> (r: Self)
        ensures
            r == AuroraExposure::Auto(default_settings()),
    {
        AuroraExposure::Auto(AutoExposureSettings::default())
    }
}

impl AuroraExposure {
    /// A locked look.
    pub fn fixed(ev: u32) -> (r: Self)
        ensures
            r == (AuroraExposure::Fixed { ev }),
    {
        AuroraExposure::Fixed { ev }
    }

    /// The EV of a locked look; `None` where the picture follows the metering.
    pub fn look(&self) -> (r: Option<u32>)
        ensures
            r == (match *self {
                AuroraExposure::Auto(_) => None,
                AuroraExposure::Fixed { ev } => Some(ev),
            }),
    {
        match self {
            AuroraExposure::Auto(_) => None,
            AuroraExposure::Fixed { ev } => Some(*ev),
        }
    }

    /// The settings that a camera is metered with.
    pub open spec fn metered_with(self) -> AutoExposureSettings {
        match self {
            AuroraExposure::Auto(settings) => settings,
            AuroraExposure::Fixed { .. } => default_settings(),
        }
    }

    /// The settings that a camera is metered with; a locked look is metered by default, for
    /// what the denoiser takes in.
    pub fn settings(&self) -> (r: AutoExposureSettings)
        ensures
            r == self.metered_with(),
    {
        match self {
            AuroraExposure::Auto(settings) => *settings,
            AuroraExposure::Fixed { .. } => AutoExposureSettings::default(),
        }
    }
}

/// What metering is done with this frame, each number in its permitted range.
#[derive(Clone, Copy, Debug, PartialEq, Eq, Structural)]
pub struct MeterInput {
    pub low_percent: u32,
    pub high_percent: u32,
    pub speed_brighten: u32,
    pub speed_darken: u32,
    pub exp_transition: u32,
    pub dt: u32,
    pub compensation: u32,
    pub min_ev: u32,
    pub max_ev: u32,
}

/// The metering's buffers.
#[derive(Clone, Copy, Debug, PartialEq, Eq, Structural)]
pub struct AutoExposureState {
    /// Luminance of each traced pixel.
    pub lum: Buffer,
    /// The traced size that `lum` was made for.
    pub width: u32,
    pub height: u32,
    pub histogram: Buffer,
    pub state: Buffer,
    /// `lum` holds a whole traced frame of the current size.
    pub primed: bool,
}

/// Transfers made visible to rays and to the final draw.
pub open spec fn transfer_to_picture() -> Command {
    barrier(
        STAGE_TRANSFER,
        ACCESS_TRANSFER_WRITE,
        STAGE_RAY_TRACING_SHADER | STAGE_FRAGMENT_SHADER,
        ACCESS_SHADER_READ,
    )
}

impl AutoExposureState {
    pub fn new() -> (r: Self)
        ensures
            r == (AutoExposureState {
                lum: no_buffer(),
                width: 0,
                height: 0,
                histogram: no_buffer(),
                state: no_buffer(),
                primed: false,
            }),
    {
        AutoExposureState {
            lum: Buffer::default(),
            width: 0,
            height: 0,
            histogram: Buffer::default(),
            state: Buffer::default(),
            primed: false,
        }
    }

    /// The addresses of the luminance and of the exposure.
    pub fn addresses(&self) -> (r: (u64, u64))
        ensures
            r == (self.lum.address, self.state.address),
    {
        (self.lum.address, self.state.address)
    }

    /// Whether the histogram and the exposure must still be made.
    pub fn needs_state(&self) -> (r: bool)
        ensures
            r == (self.state.handle == 0),
    {
        self.state.handle == 0
    }

    /// Takes over the histogram, which is cleared, and the exposure.
    pub fn install_state(&mut self, histogram: Buffer, state: Buffer) -> (r: Vec<Command>)
        ensures
            *final(self) == (AutoExposureState { histogram, state, ..*old(self) }),
            r@ == seq![Command::Clear { buffer: histogram.handle, size: WHOLE_SIZE }],
    {
        self.histogram = histogram;
        self.state = state;
        let r: Vec<Command> = vec![Command::Clear { buffer: histogram.handle, size: WHOLE_SIZE }];
        assert(r@ =~= seq![Command::Clear { buffer: histogram.handle, size: WHOLE_SIZE }]);
        r
    }

    /// Pixels that the luminance must be made anew for, where the traced size changed, also to
    /// one with as many pixels; at least one.
    pub fn needs_lum(&self, width: u32, height: u32) -> (r: Option<u64>)
        ensures
            r == (if width == self.width && height == self.height {
                None
            } else if width * height < 1 {
                Some(1u64)
            } else {
                Some((width * height) as u64)
            }),
    {
        assert(width * height <= 0xFFFF_FFFFu64 * 0xFFFF_FFFFu64) by (nonlinear_arith)
            requires
                width <= 0xFFFF_FFFF,
                height <= 0xFFFF_FFFF,
        ;
        let pixels: u64 = width as u64 * height as u64;
        if width == self.width && height == self.height {
            None
        } else if pixels < 1 {
            Some(1)
        } else {
            Some(pixels)
        }
    }

    /// Takes over the luminance of a new traced size, cleared; metering waits for a whole
    /// traced frame.
    pub fn install_lum(&mut self, lum: Buffer, width: u32, height: u32) -> (r: Vec<Command>)
        ensures
            *final(self) == (AutoExposureState {
                lum,
                width,
                height,
                primed: false,
                ..*old(self)
            }),
            r@ == seq![Command::Clear { buffer: lum.handle, size: WHOLE_SIZE }],
    {
        self.lum = lum;
        self.width = width;
        self.height = height;
        self.primed = false;
        let r: Vec<Command> = vec![Command::Clear { buffer: lum.handle, size: WHOLE_SIZE }];
        assert(r@ =~= seq![Command::Clear { buffer: lum.handle, size: WHOLE_SIZE }]);
        r
    }

    /// The frame is metered: last frame's luminance is whole, and the kernels are there.
    pub open spec fn meters(self, module_ready: bool) -> bool {
        self.primed && module_ready
    }

    /// The kernels' parameters.
    pub open spec fn params_of(self, input: MeterInput) -> AeParams {
        AeParams {
            lum: self.lum.address,
            histogram: self.histogram.address,
            state: self.state.address,
            pixel_count: ((self.width * self.height) % 0x1_0000_0000) as u32,
            min_log_lum: MIN_LOG_LUM,
            inv_log_lum_range: INV_LOG_LUM_RANGE,
            log_lum_range: LOG_LUM_RANGE,
            low_percent: input.low_percent,
            high_percent: input.high_percent,
            speed_brighten: input.speed_brighten,
            speed_darken: input.speed_darken,
            exp_transition: input.exp_transition,
            dt: input.dt,
            compensation: input.compensation,
            min_ev: input.min_ev,
            max_ev: input.max_ev,
            _pad: 0,
        }
    }

    fn params(&self, input: MeterInput) -> (r: AeParams)
        ensures
            r == self.params_of(input),
    {
        let (w, h): (u32, u32) = (self.width, self.height);
        assert(w * h <= 0xFFFF_FFFFu64 * 0xFFFF_FFFFu64) by (nonlinear_arith)
            requires
                w <= 0xFFFF_FFFF,
                h <= 0xFFFF_FFFF,
        ;
        let pixels: u64 = w as u64 * h as u64;
        AeParams {
            lum: self.lum.address,
            histogram: self.histogram.address,
            state: self.state.address,
            pixel_count: (pixels % 0x1_0000_0000) as u32,
            min_log_lum: MIN_LOG_LUM,
            inv_log_lum_range: INV_LOG_LUM_RANGE,
            log_lum_range: LOG_LUM_RANGE,
            low_percent: input.low_percent,
            high_percent: input.high_percent,
            speed_brighten: input.speed_brighten,
            speed_darken: input.speed_darken,
            exp_transition: input.exp_transition,
            dt: input.dt,
            compensation: input.compensation,
            min_ev: input.min_ev,
            max_ev: input.max_ev,
            _pad: 0,
        }
    }

    /// The commands of a frame that is metered.
    pub open spec fn metering_commands(self, input: MeterInput) -> Seq<Command> {
        let params = Params::Ae(self.params_of(input));
        seq![
            barrier(
                STAGE_RAY_TRACING_SHADER,
                ACCESS_SHADER_WRITE,
                STAGE_COMPUTE_SHADER,
                ACCESS_SHADER_READ | ACCESS_SHADER_WRITE,
            ),
            Command::Dispatch { kernel: Kernel::AeHistogram, params, threads: HISTOGRAM_THREADS },
            barrier(
                STAGE_COMPUTE_SHADER,
                ACCESS_SHADER_WRITE,
                STAGE_COMPUTE_SHADER,
                ACCESS_SHADER_READ | ACCESS_SHADER_WRITE,
            ),
            Command::Dispatch { kernel: Kernel::AeResolve, params, threads: 1 },
            barrier(
                STAGE_COMPUTE_SHADER,
                ACCESS_SHADER_WRITE,
                STAGE_RAY_TRACING_SHADER | STAGE_FRAGMENT_SHADER,
                ACCESS_SHADER_READ | ACCESS_SHADER_WRITE,
            ),
        ]
    }

    /// The commands of a frame that cannot be metered yet: the exposure is written instead.
    pub open spec fn starting_commands(self) -> Seq<Command> {
        seq![
            Command::Update { source: Source::ExposureState, dst: self.state.handle, count: 1 },
            transfer_to_picture(),
        ]
    }

    /// The commands of a frame.
    pub fn record(&self, module_ready: bool, input: MeterInput) -> (r: Vec<Command>)
        ensures
            r@ == (if self.meters(module_ready) {
                self.metering_commands(input)
            } else {
                self.starting_commands()
            }),
    {
        if !self.primed || !module_ready {
            let r: Vec<Command> = vec![
                Command::Update { source: Source::ExposureState, dst: self.state.handle, count: 1 },
                memory_barrier(
                    STAGE_TRANSFER,
                    ACCESS_TRANSFER_WRITE,
                    STAGE_RAY_TRACING_SHADER | STAGE_FRAGMENT_SHADER,
                    ACCESS_SHADER_READ,
                ),
            ];
            assert(r@ =~= self.starting_commands());
            return r;
        }
        let params: Params = Params::Ae(self.params(input));
        let r: Vec<Command> = vec![
            memory_barrier(
                STAGE_RAY_TRACING_SHADER,
                ACCESS_SHADER_WRITE,
                STAGE_COMPUTE_SHADER,
                ACCESS_SHADER_READ | ACCESS_SHADER_WRITE,
            ),
            Command::Dispatch { kernel: Kernel::AeHistogram, params, threads: HISTOGRAM_THREADS },
            memory_barrier(
                STAGE_COMPUTE_SHADER,
                ACCESS_SHADER_WRITE,
                STAGE_COMPUTE_SHADER,
                ACCESS_SHADER_READ | ACCESS_SHADER_WRITE,
            ),
            Command::Dispatch { kernel: Kernel::AeResolve, params, threads: 1 },
            memory_barrier(
                STAGE_COMPUTE_SHADER,
                ACCESS_SHADER_WRITE,
                STAGE_RAY_TRACING_SHADER | STAGE_FRAGMENT_SHADER,
                ACCESS_SHADER_READ | ACCESS_SHADER_WRITE,
            ),
        ];
        assert(r@ =~= self.metering_commands(input));
        r
    }

    /// Takes note of a traced frame: the luminance is whole.
    pub fn note_traced(&mut self)
        ensures
            *final(self) == (AutoExposureState { primed: true, ..*old(self) }),
    {
        self.primed = true;
    }

    /// Gives up all buffers; gives their handles.
    pub fn cleanup(&mut self) -> (r: Vec<u64>)
        ensures
            r@ == seq![old(self).lum.handle, old(self).histogram.handle, old(self).state.handle],
            *final(self) == (AutoExposureState {
                lum: no_buffer(),
                histogram: no_buffer(),
                state: no_buffer(),
                ..*old(self)
            }),
    {
        let r: Vec<u64> = vec![self.lum.handle, self.histogram.handle, self.state.handle];
        assert(r@ =~= seq![self.lum.handle, self.histogram.handle, self.state.handle]);
        self.lum = Buffer::default();
        self.histogram = Buffer::default();
        self.state = Buffer::default();
        r
    }
}

/// A metered frame makes a histogram of the luminance that rays wrote, and of that histogram the
/// exposure that rays and the final draw are given, with the settings of this frame, each stage
/// behind the one before it. A frame that cannot be metered writes that same exposure.
pub proof fn lemma_metering(ae: AutoExposureState, input: MeterInput)
    requires
        ae.width * ae.height <= u32::MAX,
    ensures
        ({
            let c = ae.metering_commands(input);
            &&& c.len() == 5
            &&& match (c[1], c[3]) {
                (
                    Command::Dispatch { kernel, params: Params::Ae(p), threads },
                    Command::Dispatch { kernel: then, params: Params::Ae(q), threads: one },
                ) => {
                    &&& kernel == Kernel::AeHistogram
                    &&& then == Kernel::AeResolve
                    &&& threads == 16384
                    &&& one == 1
                    &&& p == q
                    &&& p.lum == ae.lum.address
                    &&& p.histogram == ae.histogram.address
                    &&& p.state == ae.state.address
                    &&& p.pixel_count == ae.width * ae.height
                    &&& p.low_percent == input.low_percent
                    &&& p.high_percent == input.high_percent
                    &&& p.speed_brighten == input.speed_brighten
                    &&& p.speed_darken == input.speed_darken
                    &&& p.exp_transition == input.exp_transition
                    &&& p.dt == input.dt
                    &&& p.compensation == input.compensation
                    &&& p.min_ev == input.min_ev
                    &&& p.max_ev == input.max_ev
                },
                _ => false,
            }
            &&& ordered(
                c,
                -1,
                1,
                STAGE_RAY_TRACING_SHADER,
                ACCESS_SHADER_WRITE,
                STAGE_COMPUTE_SHADER,
                ACCESS_SHADER_READ,
            )
            &&& ordered(
                c,
                1,
                3,
                STAGE_COMPUTE_SHADER,
                ACCESS_SHADER_WRITE,
                STAGE_COMPUTE_SHADER,
                ACCESS_SHADER_READ,
            )
            &&& ordered(
                c,
                3,
                5,
                STAGE_COMPUTE_SHADER,
                ACCESS_SHADER_WRITE,
                STAGE_RAY_TRACING_SHADER,
                ACCESS_SHADER_READ,
            )
            &&& ordered(
                c,
                3,
                5,
                STAGE_COMPUTE_SHADER,
                ACCESS_SHADER_WRITE,
                STAGE_FRAGMENT_SHADER,
                ACCESS_SHADER_READ,
            )
        }),
        ({
            let c = ae.starting_commands();
            &&& c.len() == 2
            &&& c[0] == (Command::Update {
                source: Source::ExposureState,
                dst: ae.state.handle,
                count: 1,
            })
            &&& ordered(
                c,
                0,
                2,
                STAGE_TRANSFER,
                ACCESS_TRANSFER_WRITE,
                STAGE_RAY_TRACING_SHADER,
                ACCESS_SHADER_READ,
            )
            &&& ordered(
                c,
                0,
                2,
                STAGE_TRANSFER,
                ACCESS_TRANSFER_WRITE,
                STAGE_FRAGMENT_SHADER,
                ACCESS_SHADER_READ,
            )
        }),
{
    lemma_includes(STAGE_RAY_TRACING_SHADER, STAGE_FRAGMENT_SHADER);
    lemma_includes(STAGE_COMPUTE_SHADER, STAGE_TRANSFER);
    lemma_includes(STAGE_TRANSFER, STAGE_TRANSFER);
    lemma_includes(ACCESS_TRANSFER_WRITE, ACCESS_TRANSFER_WRITE);
    lemma_includes(ACCESS_SHADER_READ, ACCESS_SHADER_WRITE);
    lemma_includes(ACCESS_SHADER_WRITE, ACCESS_SHADER_WRITE);
    assert(0 <= ae.width * ae.height) by (nonlinear_arith)
        requires
            0 <= ae.width,
            0 <= ae.height,
    ;
    let c = ae.metering_commands(input);
    assert(c[0] is Barrier);
    assert(c[2] is Barrier);
    assert(c[4] is Barrier);
    let d = ae.starting_commands();
    assert(d[1] is Barrier);
}

} // verus!
