//! Planetary atmosphere and cloud shell: three small lookup tables rebuilt every frame, and
//! noise tables built once.

use crate::bits::Vec3;
use crate::commands::{
    no_buffer, AtmosphereKernelParams, Buffer, Command, Kernel, Params, Source,
    ACCESS_SHADER_READ, ACCESS_SHADER_WRITE, ACCESS_TRANSFER_WRITE, STAGE_COMPUTE_SHADER,
    STAGE_RAY_TRACING_SHADER, STAGE_TRANSFER, WHOLE_SIZE,
};
use crate::compute::{barrier, lemma_includes, memory_barrier, ordered};
use vstd::prelude::*;

verus! {

// Sizes of the lookup and noise tables.
pub const T_W: u32 = 256;

pub const T_H: u32 = 64;

pub const MS_N: u32 = 32;

pub const SV_W: u32 = 192;

pub const SV_H: u32 = 108;

pub const NOISE_N: u32 = 128;

pub const DETAIL_N: u32 = 32;

/// Elements of the transmittance table.
pub const TRANSMITTANCE_LEN: u32 = 16384;

/// Elements of the multiple-scattering table.
pub const MULTISCATTER_LEN: u32 = 1024;

/// Elements of each sky-view table.
pub const SKYVIEW_LEN: u32 = 20736;

/// Elements of the shape noise.
pub const NOISE_LEN: u32 = 2097152;

/// Elements of the erosion noise.
pub const DETAIL_LEN: u32 = 32768;

/// The table lengths are those of their sides.
pub proof fn lemma_table_lengths()
    ensures
        TRANSMITTANCE_LEN == T_W * T_H,
        MULTISCATTER_LEN == MS_N * MS_N,
        SKYVIEW_LEN == SV_W * SV_H,
        NOISE_LEN == NOISE_N * NOISE_N * NOISE_N,
        DETAIL_LEN == DETAIL_N * DETAIL_N * DETAIL_N,
{
}

/// The switches and sample counts of the cloud shell.
#[derive(Clone, Copy, Debug, PartialEq, Eq, Structural)]
pub struct CloudSwitches {
    pub enabled: bool,
    pub shadows: bool,
    pub steps: u32,
    pub light_steps: u32,
}

/// The same as the kernels read them.
#[derive(Clone, Copy, Debug, PartialEq, Eq, Structural)]
pub struct CloudWords {
    pub clouds: u32,
    pub cloud_shadows: u32,
    pub cloud_steps: u32,
    pub cloud_light_steps: u32,
}

/// `x`, kept between `low` and `high`.
pub open spec fn clamped(x: u32, low: u32, high: u32) -> u32 {
    if x < low {
        low
    } else if x > high {
        high
    } else {
        x
    }
}

fn clamp_steps(x: u32, low: u32, high: u32) -> (r: u32)
    ensures
        r == clamped(x, low, high),
{
    if x < low {
        low
    } else if x > high {
        high
    } else {
        x
    }
}

impl CloudSwitches {
    /// The words that the kernels read: 4 to 256 samples along the ray, 1 to 16 towards the
    /// sun.
    pub open spec fn spec_words(self) -> CloudWords {
        CloudWords {
            clouds: if self.enabled {
                1
            } else {
                0
            },
            cloud_shadows: if self.shadows {
                1
            } else {
                0
            },
            cloud_steps: clamped(self.steps, 4, 256),
            cloud_light_steps: clamped(self.light_steps, 1, 16),
        }
    }

    /// The words that the kernels read.
    pub fn words(&self) -> (r: CloudWords)
        ensures
            r == self.spec_words(),
    {
        CloudWords {
            clouds: if self.enabled {
                1
            } else {
                0
            },
            cloud_shadows: if self.shadows {
                1
            } else {
                0
            },
            cloud_steps: clamp_steps(self.steps, 4, 256),
            cloud_light_steps: clamp_steps(self.light_steps, 1, 16),
        }
    }
}

/// The atmosphere's buffers.
#[derive(Clone, Copy, Debug, PartialEq, Eq, Structural)]
pub struct AtmosphereBuffers {
    pub params: Buffer,
    pub transmittance: Buffer,
    pub multiscatter: Buffer,
    pub skyview_rad: Buffer,
    pub skyview_trn: Buffer,
    pub noise: Buffer,
    pub noise_detail: Buffer,
}

/// No buffers.
pub open spec fn no_atmosphere() -> AtmosphereBuffers {
    AtmosphereBuffers {
        params: no_buffer(),
        transmittance: no_buffer(),
        multiscatter: no_buffer(),
        skyview_rad: no_buffer(),
        skyview_trn: no_buffer(),
        noise: no_buffer(),
        noise_detail: no_buffer(),
    }
}

/// The numbers of the air, the sun and the camera.
#[derive(Clone, Copy, Debug, PartialEq, Eq, Structural)]
pub struct AirNumbers {
    pub planet_center: Vec3,
    pub planet_radius: u32,
    pub atmosphere_height: u32,
    pub rayleigh_h: u32,
    pub mie_h: u32,
    pub ozone_center: u32,
    pub ozone_width: u32,
    pub rayleigh_scatter: Vec3,
    pub mie_scatter: Vec3,
    pub mie_absorb: Vec3,
    pub ozone_absorb: Vec3,
    pub mie_g: u32,
    pub ground_albedo: Vec3,
    pub sun_direction: Vec3,
    pub sun_radiance: Vec3,
    pub sun_cos_radius: u32,
    pub camera_pos: Vec3,
}

/// The numbers of the cloud shell; its wind is how far it has drifted.
#[derive(Clone, Copy, Debug, PartialEq, Eq, Structural)]
pub struct ShellNumbers {
    pub bottom: u32,
    pub top: u32,
    pub coverage: u32,
    pub coverage_scale: u32,
    pub density: u32,
    pub extinction: u32,
    pub detail: u32,
    pub scale: u32,
    pub detail_scale: u32,
    pub wind: Vec3,
    pub light_dist: u32,
    pub max_dist: u32,
    pub ambient: u32,
    pub forward_g: u32,
    pub back_g: u32,
}

/// The block that the kernels and rays read: where the tables are, then the numbers.
#[derive(Clone, Copy, Debug, PartialEq, Eq, Structural)]
pub struct AtmosphereGpu {
    pub transmittance: u64,
    pub multiscatter: u64,
    pub skyview_rad: u64,
    pub skyview_trn: u64,
    pub noise: u64,
    pub noise_detail: u64,
    pub air: AirNumbers,
    pub words: CloudWords,
    pub shell: ShellNumbers,
}

/// The atmosphere's state on the device.
#[derive(Clone, Copy, Debug, PartialEq, Eq, Structural)]
pub struct AtmosphereState {
    pub buffers: AtmosphereBuffers,
    pub noise_built: bool,
}

/// One dispatch made visible to the next.
pub open spec fn kernel_to_kernel() -> Command {
    barrier(
        STAGE_COMPUTE_SHADER,
        ACCESS_SHADER_WRITE,
        STAGE_COMPUTE_SHADER,
        ACCESS_SHADER_READ | ACCESS_SHADER_WRITE,
    )
}

fn kernel_barrier() -> (r: Command)
    ensures
        r == kernel_to_kernel(),
{
    memory_barrier(
        STAGE_COMPUTE_SHADER,
        ACCESS_SHADER_WRITE,
        STAGE_COMPUTE_SHADER,
        ACCESS_SHADER_READ | ACCESS_SHADER_WRITE,
    )
}

/// The tables that the kernels fill and the rays read, in the order in which a block names them.
pub open spec fn tables_of(b: AtmosphereBuffers) -> Seq<Buffer> {
    seq![
        b.transmittance,
        b.multiscatter,
        b.skyview_rad,
        b.skyview_trn,
        b.noise,
        b.noise_detail,
    ]
}

impl AtmosphereState {
    pub fn new() -> (r: Self)
        ensures
            r.buffers == no_atmosphere(),
            !r.noise_built,
    {
        let none: Buffer = Buffer::default();
        AtmosphereState {
            buffers: AtmosphereBuffers {
                params: none,
                transmittance: none,
                multiscatter: none,
                skyview_rad: none,
                skyview_trn: none,
                noise: none,
                noise_detail: none,
            },
            noise_built: false,
        }
    }

    /// Device address of the parameter block (0 until the atmosphere first renders).
    pub fn address(&self) -> (r: u64)
        ensures
            r == self.buffers.params.address,
    {
        self.buffers.params.address
    }

    /// The block of a frame, with these numbers.
    pub fn block(&self, air: AirNumbers, clouds: CloudSwitches, shell: ShellNumbers) -> (r:
        AtmosphereGpu)
        ensures
            r == (AtmosphereGpu {
                transmittance: self.buffers.transmittance.address,
                multiscatter: self.buffers.multiscatter.address,
                skyview_rad: self.buffers.skyview_rad.address,
                skyview_trn: self.buffers.skyview_trn.address,
                noise: self.buffers.noise.address,
                noise_detail: self.buffers.noise_detail.address,
                air,
                words: clouds.spec_words(),
                shell,
            }),
            seq![
                r.transmittance,
                r.multiscatter,
                r.skyview_rad,
                r.skyview_trn,
                r.noise,
                r.noise_detail,
            ] == tables_of(self.buffers).map_values(|b: Buffer| b.address),
    {
        AtmosphereGpu {
            transmittance: self.buffers.transmittance.address,
            multiscatter: self.buffers.multiscatter.address,
            skyview_rad: self.buffers.skyview_rad.address,
            skyview_trn: self.buffers.skyview_trn.address,
            noise: self.buffers.noise.address,
            noise_detail: self.buffers.noise_detail.address,
            air,
            words: clouds.words(),
            shell,
        }
    }

    /// Whether the buffers must be made: on the first frame whose sky is the atmosphere.
    pub fn needs_buffers(&self, active: bool) -> (r: bool)
        ensures
            r == (active && self.buffers.params.handle == 0),
    {
        active && self.buffers.params.handle == 0
    }

    /// Takes over new buffers; every table is cleared, so that it has contents before its
    /// kernel has run.
    pub fn install(&mut self, buffers: AtmosphereBuffers) -> (r: Vec<Command>)
        ensures
            *final(self) == (AtmosphereState { buffers, ..*old(self) }),
            r@ == seq![
                Command::Clear { buffer: buffers.transmittance.handle, size: WHOLE_SIZE },
                Command::Clear { buffer: buffers.multiscatter.handle, size: WHOLE_SIZE },
                Command::Clear { buffer: buffers.skyview_rad.handle, size: WHOLE_SIZE },
                Command::Clear { buffer: buffers.skyview_trn.handle, size: WHOLE_SIZE },
                Command::Clear { buffer: buffers.noise.handle, size: WHOLE_SIZE },
                Command::Clear { buffer: buffers.noise_detail.handle, size: WHOLE_SIZE },
            ],
            r@ == tables_of(buffers).map_values(
                |b: Buffer| Command::Clear { buffer: b.handle, size: WHOLE_SIZE },
            ),
    {
        self.buffers = buffers;
        let r: Vec<Command> = vec![
            Command::Clear { buffer: buffers.transmittance.handle, size: WHOLE_SIZE },
            Command::Clear { buffer: buffers.multiscatter.handle, size: WHOLE_SIZE },
            Command::Clear { buffer: buffers.skyview_rad.handle, size: WHOLE_SIZE },
            Command::Clear { buffer: buffers.skyview_trn.handle, size: WHOLE_SIZE },
            Command::Clear { buffer: buffers.noise.handle, size: WHOLE_SIZE },
            Command::Clear { buffer: buffers.noise_detail.handle, size: WHOLE_SIZE },
        ];
        assert(r@ =~= seq![
            Command::Clear { buffer: buffers.transmittance.handle, size: WHOLE_SIZE },
            Command::Clear { buffer: buffers.multiscatter.handle, size: WHOLE_SIZE },
            Command::Clear { buffer: buffers.skyview_rad.handle, size: WHOLE_SIZE },
            Command::Clear { buffer: buffers.skyview_trn.handle, size: WHOLE_SIZE },
            Command::Clear { buffer: buffers.noise.handle, size: WHOLE_SIZE },
            Command::Clear { buffer: buffers.noise_detail.handle, size: WHOLE_SIZE },
        ]);
        r
    }

    /// One kernel over `threads` elements.
    pub open spec fn kernel_dispatch(self, kernel: Kernel, threads: u32) -> Command {
        Command::Dispatch {
            kernel,
            params: Params::AtmosphereKernel(
                AtmosphereKernelParams { atmo: self.buffers.params.address, base: 0, pad: 0 },
            ),
            threads,
        }
    }

    fn dispatch(&self, kernel: Kernel, threads: u32) -> (r: Command)
        ensures
            r == self.kernel_dispatch(kernel, threads),
    {
        Command::Dispatch {
            kernel,
            params: Params::AtmosphereKernel(
                AtmosphereKernelParams { atmo: self.buffers.params.address, base: 0, pad: 0 },
            ),
            threads,
        }
    }

    /// This frame's parameters are written.
    pub open spec fn parameter_commands(self) -> Seq<Command> {
        seq![
            Command::Update {
                source: Source::AtmosphereParams,
                dst: self.buffers.params.handle,
                count: 1,
            },
            barrier(
                STAGE_TRANSFER,
                ACCESS_TRANSFER_WRITE,
                STAGE_COMPUTE_SHADER | STAGE_RAY_TRACING_SHADER,
                ACCESS_SHADER_READ,
            ),
        ]
    }

    /// The noise tables are built.
    pub open spec fn noise_commands(self) -> Seq<Command> {
        seq![
            self.kernel_dispatch(Kernel::CloudNoise, (NOISE_LEN + DETAIL_LEN) as u32),
            kernel_to_kernel(),
        ]
    }

    /// The lookup tables are built, each from those before it.
    pub open spec fn table_commands(self) -> Seq<Command> {
        seq![
            self.kernel_dispatch(Kernel::AtmoTransmittance, TRANSMITTANCE_LEN),
            kernel_to_kernel(),
            self.kernel_dispatch(Kernel::AtmoMultiscatter, MULTISCATTER_LEN),
            kernel_to_kernel(),
            self.kernel_dispatch(Kernel::AtmoSkyview, SKYVIEW_LEN),
            barrier(
                STAGE_COMPUTE_SHADER,
                ACCESS_SHADER_WRITE,
                STAGE_RAY_TRACING_SHADER,
                ACCESS_SHADER_READ,
            ),
        ]
    }

    /// The commands of a frame; none unless the sky is the atmosphere.
    pub open spec fn frame_commands(self, active: bool, module_ready: bool) -> Seq<Command> {
        if !active {
            Seq::empty()
        } else if !module_ready {
            self.parameter_commands()
        } else if self.noise_built {
            self.parameter_commands() + self.table_commands()
        } else {
            self.parameter_commands() + self.noise_commands() + self.table_commands()
        }
    }

    /// The commands of a frame; the noise tables are built on the first frame that has the
    /// kernels.
    pub fn record(&mut self, active: bool, module_ready: bool) -> (r: Vec<Command>)
        requires
            active ==> old(self).buffers.params.handle != 0,
        ensures
            r@ == old(self).frame_commands(active, module_ready),
            final(self).buffers == old(self).buffers,
            final(self).noise_built == (old(self).noise_built || (active && module_ready)),
    {
        let mut r: Vec<Command> = Vec::new();
        if !active {
            return r;
        }
        r.push(
            Command::Update {
                source: Source::AtmosphereParams,
                dst: self.buffers.params.handle,
                count: 1,
            },
        );
        r.push(
            memory_barrier(
                STAGE_TRANSFER,
                ACCESS_TRANSFER_WRITE,
                STAGE_COMPUTE_SHADER | STAGE_RAY_TRACING_SHADER,
                ACCESS_SHADER_READ,
            ),
        );
        assert(r@ =~= self.parameter_commands());
        if !module_ready {
            return r;
        }
        let ghost built = self.noise_built;
        if !self.noise_built {
            r.push(self.dispatch(Kernel::CloudNoise, NOISE_LEN + DETAIL_LEN));
            r.push(kernel_barrier());
            self.noise_built = true;
        }
        r.push(self.dispatch(Kernel::AtmoTransmittance, TRANSMITTANCE_LEN));
        r.push(kernel_barrier());
        r.push(self.dispatch(Kernel::AtmoMultiscatter, MULTISCATTER_LEN));
        r.push(kernel_barrier());
        r.push(self.dispatch(Kernel::AtmoSkyview, SKYVIEW_LEN));
        r.push(
            memory_barrier(
                STAGE_COMPUTE_SHADER,
                ACCESS_SHADER_WRITE,
                STAGE_RAY_TRACING_SHADER,
                ACCESS_SHADER_READ,
            ),
        );
        assert(r@ =~= old(self).frame_commands(active, module_ready));
        r
    }

    /// Gives up all buffers; gives their handles, none where they were never made. Noise is
    /// built again with new buffers.
    pub fn cleanup(&mut self) -> (r: Vec<u64>)
        ensures
            if old(self).buffers.params.handle == 0 {
                r@.len() == 0 && *final(self) == *old(self)
            } else {
                let b = old(self).buffers;
                &&& r@ == seq![
                    b.params.handle,
                    b.transmittance.handle,
                    b.multiscatter.handle,
                    b.skyview_rad.handle,
                    b.skyview_trn.handle,
                    b.noise.handle,
                    b.noise_detail.handle,
                ]
                &&& final(self).buffers == no_atmosphere()
                &&& !final(self).noise_built
            },
    {
        if self.buffers.params.handle == 0 {
            return Vec::new();
        }
        let b: AtmosphereBuffers = self.buffers;
        let r: Vec<u64> = vec![
            b.params.handle,
            b.transmittance.handle,
            b.multiscatter.handle,
            b.skyview_rad.handle,
            b.skyview_trn.handle,
            b.noise.handle,
            b.noise_detail.handle,
        ];
        assert(r@ =~= seq![
            b.params.handle,
            b.transmittance.handle,
            b.multiscatter.handle,
            b.skyview_rad.handle,
            b.skyview_trn.handle,
            b.noise.handle,
            b.noise_detail.handle,
        ]);
        let none: Buffer = Buffer::default();
        self.buffers = AtmosphereBuffers {
            params: none,
            transmittance: none,
            multiscatter: none,
            skyview_rad: none,
            skyview_trn: none,
            noise: none,
            noise_detail: none,
        };
        self.noise_built = false;
        r
    }
}

/// Where kernel `kernel` is run over all of its threads.
pub open spec fn run_at(c: Seq<Command>, i: int, kernel: Kernel, threads: int) -> bool {
    0 <= i < c.len() && (c[i] matches Command::Dispatch { kernel: k, threads: t, .. } && k == kernel
        && t == threads)
}

/// Whatever is run waits for what was run before it, and rays wait for all of it.
pub proof fn lemma_sky_tables(state: AtmosphereState)
    ensures
        ({
            let c = state.frame_commands(true, true);
            let n: int = if state.noise_built {
                2
            } else {
                4
            };
            // The parameters come first, and every kernel is told where they stand.
            &&& c[0] == (Command::Update {
                source: Source::AtmosphereParams,
                dst: state.buffers.params.handle,
                count: 1,
            })
            &&& forall|i: int|
                0 <= i < c.len() ==> ((#[trigger] c[i]) matches Command::Dispatch { params, .. }
                    ==> (params matches Params::AtmosphereKernel(p) && p.atmo
                    == state.buffers.params.address && p.base == 0) && ordered(
                    c,
                    0,
                    i,
                    STAGE_TRANSFER,
                    ACCESS_TRANSFER_WRITE,
                    STAGE_COMPUTE_SHADER,
                    ACCESS_SHADER_READ,
                ))
            // Noise is built exactly where there is none, and both tables of it whole.
            &&& !state.noise_built ==> run_at(
                c,
                2,
                Kernel::CloudNoise,
                NOISE_N * NOISE_N * NOISE_N + DETAIL_N * DETAIL_N * DETAIL_N,
            )
            &&& state.noise_built ==> forall|i: int|
                0 <= i < c.len() ==> !((#[trigger] c[i]) matches Command::Dispatch { kernel, .. }
                    && kernel == Kernel::CloudNoise)
            // Transmittance, then what scatters through it, then the sky as it is seen.
            &&& run_at(c, n, Kernel::AtmoTransmittance, T_W * T_H)
            &&& run_at(c, n + 2, Kernel::AtmoMultiscatter, MS_N * MS_N)
            &&& run_at(c, n + 4, Kernel::AtmoSkyview, SV_W * SV_H)
            &&& forall|i: int, j: int|
                #![trigger c[i], c[j]]
                0 <= i < j < c.len() && c[i] is Dispatch && c[j] is Dispatch ==> ordered(
                    c,
                    i,
                    j,
                    STAGE_COMPUTE_SHADER,
                    ACCESS_SHADER_WRITE,
                    STAGE_COMPUTE_SHADER,
                    ACCESS_SHADER_READ,
                )
            &&& ordered(
                c,
                n + 4,
                c.len() as int,
                STAGE_COMPUTE_SHADER,
                ACCESS_SHADER_WRITE,
                STAGE_RAY_TRACING_SHADER,
                ACCESS_SHADER_READ,
            )
        }),
        state.frame_commands(false, true).len() == 0,
{
    lemma_includes(STAGE_COMPUTE_SHADER, STAGE_RAY_TRACING_SHADER);
    lemma_includes(STAGE_RAY_TRACING_SHADER, STAGE_TRANSFER);
    lemma_includes(STAGE_TRANSFER, STAGE_TRANSFER);
    lemma_includes(ACCESS_TRANSFER_WRITE, ACCESS_TRANSFER_WRITE);
    lemma_includes(ACCESS_SHADER_READ, ACCESS_SHADER_WRITE);
    lemma_includes(ACCESS_SHADER_WRITE, ACCESS_SHADER_READ);
    let c = state.frame_commands(true, true);
    let n: int = if state.noise_built {
        2
    } else {
        4
    };
    assert(c[1] is Barrier);
    if !state.noise_built {
        assert(c[2] == state.noise_commands()[0]);
        assert(c[3] == kernel_to_kernel());
    }
    assert(c.len() == n + 6);
    assert(c[n] == state.table_commands()[0]);
    assert(c[n + 1] == kernel_to_kernel());
    assert(c[n + 2] == state.table_commands()[2]);
    assert(c[n + 3] == kernel_to_kernel());
    assert(c[n + 4] == state.table_commands()[4]);
    assert(c[n + 5] == state.table_commands()[5]);
    assert forall|i: int, j: int|
        #![trigger c[i], c[j]]
        0 <= i < j < c.len() && c[i] is Dispatch && c[j] is Dispatch implies ordered(
        c,
        i,
        j,
        STAGE_COMPUTE_SHADER,
        ACCESS_SHADER_WRITE,
        STAGE_COMPUTE_SHADER,
        ACCESS_SHADER_READ,
    ) by {
        assert(i < i + 1 < j);
        assert(c[i + 1] == kernel_to_kernel());
    }
    assert forall|i: int|
        0 <= i < c.len() && (#[trigger] c[i]) is Dispatch implies ordered(
        c,
        0,
        i,
        STAGE_TRANSFER,
        ACCESS_TRANSFER_WRITE,
        STAGE_COMPUTE_SHADER,
        ACCESS_SHADER_READ,
    ) by {
        assert(0 < 1 < i);
    }
}

/// The kernels are told of each switch as it is set, and of sample counts within their ranges:
/// those that are permitted already, as they are, and others as the nearest permitted.
pub proof fn lemma_cloud_words(c: CloudSwitches, permitted: u32)
    ensures
        ({
            let w = c.spec_words();
            &&& w.clouds == 1 <==> c.enabled
            &&& w.clouds == 0 <==> !c.enabled
            &&& w.cloud_shadows == 1 <==> c.shadows
            &&& w.cloud_shadows == 0 <==> !c.shadows
            &&& 4 <= w.cloud_steps <= 256
            &&& 1 <= w.cloud_light_steps <= 16
            &&& 4 <= c.steps <= 256 ==> w.cloud_steps == c.steps
            &&& 1 <= c.light_steps <= 16 ==> w.cloud_light_steps == c.light_steps
            &&& 4 <= permitted <= 256 && c.steps <= permitted ==> w.cloud_steps <= permitted
            &&& 4 <= permitted <= 256 && c.steps >= permitted ==> w.cloud_steps >= permitted
            &&& 1 <= permitted <= 16 && c.light_steps <= permitted ==> w.cloud_light_steps
                <= permitted
            &&& 1 <= permitted <= 16 && c.light_steps >= permitted ==> w.cloud_light_steps
                >= permitted
        }),
{
}

} // verus!
