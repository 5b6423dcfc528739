//! One view's ray-reconstruction feature: when it is made anew, and how its images go through
//! a frame.

use crate::bits::{negate, negated, Vec2};
use crate::commands::{
    ACCESS_MEMORY_READ, ACCESS_MEMORY_WRITE, ACCESS_SHADER_READ, ACCESS_SHADER_STORAGE_WRITE,
    ACCESS_TRANSFER_WRITE, MemoryBarrier, STAGE_ALL_COMMANDS, STAGE_FRAGMENT_SHADER,
    STAGE_RAY_TRACING_SHADER, STAGE_TRANSFER,
};
use crate::dlss::modes::{AuroraDlss, RrPreset};
use crate::dlss::ngx::{
    EvaluateNumbers, NgxDlssdCreateParams, DENOISE_MODE_DL_UNIFIED, DEPTH_TYPE_LINEAR,
        RESULT_SUCCESS,
    ROUGHNESS_MODE_PACKED,
};
use crate::render_texture::{ImageLayout, Transition};
use vstd::prelude::*;

verus! {

/// Both creation flags: high dynamic range, and motion vectors at the traced size.
pub const CREATE_FLAGS: i32 = 3;

/// A size in pixels.
#[derive(Clone, Copy, Debug, PartialEq, Eq, Structural)]
pub struct Extent {
    pub width: u32,
    pub height: u32,
}

/// The images of one view.
#[derive(Clone, Copy, Debug, PartialEq, Eq, Structural)]
pub struct DlssImages {
    pub color: u64,
    pub normal_roughness: u64,
    pub diffuse: u64,
    pub specular: u64,
    pub depth: u64,
    pub spec_hit: u64,
    pub motion: u64,
    /// One texel that holds 1: without it the driver would expose by itself.
    pub exposure: u64,
    pub output: u64,
}

/// What the rays write, in the order of their bindings.
pub open spec fn guides_of(images: DlssImages) -> Seq<u64> {
    seq![
        images.normal_roughness,
        images.diffuse,
        images.specular,
        images.depth,
        images.spec_hit,
        images.motion,
        images.color,
    ]
}

impl DlssImages {
    /// What the rays write, in the order of their bindings.
    pub fn guides(&self) -> (r: Vec<u64>)
        ensures
            r@ == guides_of(*self),
    {
        let r: Vec<u64> = vec![
            self.normal_roughness,
            self.diffuse,
            self.specular,
            self.depth,
            self.spec_hit,
            self.motion,
            self.color,
        ];
        assert(r@ =~= guides_of(*self));
        r
    }
}

/// One view's feature.
#[derive(Clone, Copy, Debug, PartialEq, Eq, Structural)]
pub struct DlssView {
    pub handle: u64,
    pub mode: AuroraDlss,
    pub preset: RrPreset,
    pub render: Extent,
    pub output: Extent,
    pub images: DlssImages,
    /// The feature was not evaluated yet.
    pub first_evaluate: bool,
    /// The guides were laid out once; after that they go back and forth.
    pub guides_initialized: bool,
}

/// The features of a session, one for each view.
#[derive(Clone, Copy, Debug, PartialEq, Eq, Structural)]
pub struct DlssRenderer {
    pub available: bool,
    pub left: Option<DlssView>,
    pub right: Option<DlssView>,
    pub frame: u32,
}

/// What a view needs before a frame.
#[derive(Clone, Copy, Debug, PartialEq, Eq, Structural)]
pub enum ViewStep {
    /// There is nothing to reconstruct; `release` where the view has a feature to give up.
    Unavailable { release: bool },
    /// The feature stands.
    Keep,
    /// The feature is made anew for these sizes; `release` where the view has one to give up
    /// first. The device is drained before either.
    Rebuild { render: Extent, release: bool },
    /// The driver could not say which size to trace: nothing is reconstructed.
    NoSize,
}

/// What the driver answers to the question for the best traced size.
#[derive(Clone, Copy, Debug, PartialEq, Eq, Structural)]
pub enum Optimal {
    /// It answers with this size.
    Size(Extent),
    /// It fails.
    Failed,
}

/// The view's feature is of another mode, preset or output size, or there is none.
pub open spec fn is_fresh(
    view: Option<DlssView>,
    output: Extent,
    mode: AuroraDlss,
    preset: RrPreset,
) -> bool {
    view is None || view->0.mode != mode || view->0.output != output || view->0.preset != preset
}

/// The size to trace: the output's where nothing is upscaled or the driver names none.
pub open spec fn render_extent(mode: AuroraDlss, output: Extent,
    optimal: Optimal) -> Option<Extent> {
    if mode == AuroraDlss::Dlaa {
        Some(output)
    } else {
        match optimal {
            Optimal::Size(size) => if size.width > 0 && size.height > 0 {
                Some(size)
            } else {
                Some(output)
            },
            Optimal::Failed => None,
        }
    }
}

/// What a view needs before a frame.
pub open spec fn step_of(
    available: bool,
    view: Option<DlssView>,
    output: Extent,
    mode: AuroraDlss,
    preset: RrPreset,
    optimal: Optimal,
) -> ViewStep {
    if !available || output.width == 0 || output.height == 0 {
        ViewStep::Unavailable { release: view is Some }
    } else if !is_fresh(view, output, mode, preset) {
        ViewStep::Keep
    } else {
        match render_extent(mode, output, optimal) {
            Some(render) => ViewStep::Rebuild { render, release: view is Some },
            None => ViewStep::NoSize,
        }
    }
}

/// One image's layout change.
#[derive(Clone, Copy, Debug, PartialEq, Eq, Structural)]
pub struct ImageBarrier {
    pub image: u64,
    pub transition: Transition,
}

/// Guides are about to be written by rays.
pub open spec fn to_rays(initialized: bool) -> Transition {
    Transition {
        from: if initialized {
            ImageLayout::ShaderReadOnly
        } else {
            ImageLayout::Undefined
        },
        to: ImageLayout::General,
        src_stage: STAGE_ALL_COMMANDS,
        src_access: ACCESS_MEMORY_READ,
        dst_stage: STAGE_RAY_TRACING_SHADER,
        dst_access: ACCESS_SHADER_STORAGE_WRITE,
    }
}

/// Guides are about to be read by the driver.
pub open spec fn to_driver() -> Transition {
    Transition {
        from: ImageLayout::General,
        to: ImageLayout::ShaderReadOnly,
        src_stage: STAGE_RAY_TRACING_SHADER,
        src_access: ACCESS_SHADER_STORAGE_WRITE,
        dst_stage: STAGE_ALL_COMMANDS,
        dst_access: ACCESS_SHADER_READ,
    }
}

/// The exposure texel is about to be written.
pub open spec fn exposure_to_transfer() -> Transition {
    Transition {
        from: ImageLayout::Undefined,
        to: ImageLayout::TransferDestination,
        src_stage: STAGE_ALL_COMMANDS,
        src_access: 0,
        dst_stage: STAGE_TRANSFER,
        dst_access: ACCESS_TRANSFER_WRITE,
    }
}

/// The exposure texel was written.
pub open spec fn exposure_to_driver() -> Transition {
    Transition {
        from: ImageLayout::TransferDestination,
        to: ImageLayout::ShaderReadOnly,
        src_stage: STAGE_TRANSFER,
        src_access: ACCESS_TRANSFER_WRITE,
        dst_stage: STAGE_ALL_COMMANDS,
        dst_access: ACCESS_SHADER_READ,
    }
}

/// The output is about to be written; what it held is of no use.
pub open spec fn output_to_driver() -> Transition {
    Transition {
        from: ImageLayout::Undefined,
        to: ImageLayout::General,
        src_stage: STAGE_ALL_COMMANDS,
        src_access: ACCESS_MEMORY_READ,
        dst_stage: STAGE_ALL_COMMANDS,
        dst_access: ACCESS_SHADER_STORAGE_WRITE,
    }
}

/// Every guide, with the same layout change.
pub open spec fn guide_barriers(images: DlssImages, transition: Transition) -> Seq<ImageBarrier> {
    guides_of(images).map_values(|image: u64| ImageBarrier { image, transition })
}

fn all_guides(images: &DlssImages, transition: Transition) -> (out: Vec<ImageBarrier>)
    ensures
        out@ == guide_barriers(*images, transition),
{
    let guides: Vec<u64> = images.guides();
    let mut out: Vec<ImageBarrier> = Vec::new();
    let mut i: usize = 0;
    while i < guides.len()
        invariant
            i <= guides@.len(),
            out@ == guides@.take(i as int).map_values(
                |image: u64| ImageBarrier { image, transition },
            ),
        decreases guides@.len() - i,
    {
        out.push(ImageBarrier { image: guides[i], transition });
        assert(out@ =~= guides@.take(i + 1).map_values(
            |image: u64| ImageBarrier { image, transition },
        ));
        i = i + 1;
    }
    assert(guides@.take(i as int) =~= guides@);
    out
}

/// What is recorded before the rays.
#[derive(Debug)]
pub struct PreTrace {
    pub barriers: Vec<ImageBarrier>,
    /// The exposure texel is set to 1, and then laid out like this.
    pub exposure: Option<ImageBarrier>,
}

/// What is recorded around an evaluate.
#[derive(Debug)]
pub struct Evaluate {
    pub barriers: Vec<ImageBarrier>,
    pub numbers: EvaluateNumbers,
    /// Makes the output visible to the final draw.
    pub after: MemoryBarrier,
}

impl DlssView {
    /// What is recorded before the rays: every guide becomes writable, and on the first frame
    /// the exposure texel is written.
    pub fn record_pre_trace(&mut self) -> (r: PreTrace)
        ensures
            *final(self) == (DlssView { guides_initialized: true, ..*old(self) }),
            ({
                let guides = guide_barriers(
                    old(self).images,
                    to_rays(old(self).guides_initialized),
                );
                let exposure = old(self).images.exposure;
                if old(self).guides_initialized {
                    r.barriers@ == guides && r.exposure is None
                } else {
                    &&& r.barriers@ == guides.push(
                        ImageBarrier { image: exposure, transition: exposure_to_transfer() },
                    )
                    &&& r.exposure == Some(
                        ImageBarrier { image: exposure, transition: exposure_to_driver() },
                    )
                }
            }),
    {
        let transition = Transition {
            from: if self.guides_initialized {
                ImageLayout::ShaderReadOnly
            } else {
                ImageLayout::Undefined
            },
            to: ImageLayout::General,
            src_stage: STAGE_ALL_COMMANDS,
            src_access: ACCESS_MEMORY_READ,
            dst_stage: STAGE_RAY_TRACING_SHADER,
            dst_access: ACCESS_SHADER_STORAGE_WRITE,
        };
        let mut barriers: Vec<ImageBarrier> = all_guides(&self.images, transition);
        let mut exposure: Option<ImageBarrier> = None;
        if !self.guides_initialized {
            barriers.push(
                ImageBarrier {
                    image: self.images.exposure,
                    transition: Transition {
                        from: ImageLayout::Undefined,
                        to: ImageLayout::TransferDestination,
                        src_stage: STAGE_ALL_COMMANDS,
                        src_access: 0,
                        dst_stage: STAGE_TRANSFER,
                        dst_access: ACCESS_TRANSFER_WRITE,
                    },
                },
            );
            exposure = Some(
                ImageBarrier {
                    image: self.images.exposure,
                    transition: Transition {
                        from: ImageLayout::TransferDestination,
                        to: ImageLayout::ShaderReadOnly,
                        src_stage: STAGE_TRANSFER,
                        src_access: ACCESS_TRANSFER_WRITE,
                        dst_stage: STAGE_ALL_COMMANDS,
                        dst_access: ACCESS_SHADER_READ,
                    },
                },
            );
        }
        self.guides_initialized = true;
        PreTrace { barriers, exposure }
    }

    /// What is recorded around an evaluate: every guide becomes readable, the output writable;
    /// the first evaluate has no history. The driver is told the negation of the jitter that the
    /// pixel centres were moved by, the milliseconds since the evaluate before, the scale that
    /// takes motion to pixels, and the whole traced size.
    pub fn record_evaluate(
        &mut self,
        reset: bool,
        jitter: Vec2,
        frame_time_ms: u32,
        mv_scale: Vec2,
    ) -> (r: Evaluate)
        ensures
            *final(self) == (DlssView { first_evaluate: false, ..*old(self) }),
            r.barriers@ == guide_barriers(old(self).images, to_driver()).push(
                ImageBarrier { image: old(self).images.output, transition: output_to_driver() },
            ),
            r.numbers == (EvaluateNumbers {
                jitter_x: negated(jitter.x),
                jitter_y: negated(jitter.y),
                reset: reset || old(self).first_evaluate,
                frame_time_ms,
                mv_scale_x: mv_scale.x,
                mv_scale_y: mv_scale.y,
                render_width: old(self).render.width,
                render_height: old(self).render.height,
            }),
            r.numbers.reset <==> reset || old(self).first_evaluate,
            negated(r.numbers.jitter_x) == jitter.x,
            negated(r.numbers.jitter_y) == jitter.y,
            forall|i: int|
                0 <= i < r.barriers@.len() - 1 ==> (#[trigger] r.barriers@[i]).transition.from
                    == ImageLayout::General && r.barriers@[i].transition.to
                    == ImageLayout::ShaderReadOnly,
            r.barriers@.last().image == old(self).images.output,
            r.barriers@.last().transition.to == ImageLayout::General,
            r.after == (MemoryBarrier {
                src_stage: STAGE_ALL_COMMANDS,
                src_access: ACCESS_MEMORY_WRITE,
                dst_stage: STAGE_FRAGMENT_SHADER,
                dst_access: ACCESS_SHADER_READ,
            }),
    {
        let transition = Transition {
            from: ImageLayout::General,
            to: ImageLayout::ShaderReadOnly,
            src_stage: STAGE_RAY_TRACING_SHADER,
            src_access: ACCESS_SHADER_STORAGE_WRITE,
            dst_stage: STAGE_ALL_COMMANDS,
            dst_access: ACCESS_SHADER_READ,
        };
        let mut barriers: Vec<ImageBarrier> = all_guides(&self.images, transition);
        barriers.push(
            ImageBarrier {
                image: self.images.output,
                transition: Transition {
                    from: ImageLayout::Undefined,
                    to: ImageLayout::General,
                    src_stage: STAGE_ALL_COMMANDS,
                    src_access: ACCESS_MEMORY_READ,
                    dst_stage: STAGE_ALL_COMMANDS,
                    dst_access: ACCESS_SHADER_STORAGE_WRITE,
                },
            },
        );
        let first: bool = self.first_evaluate;
        self.first_evaluate = false;
        Evaluate {
            barriers,
            numbers: EvaluateNumbers {
                jitter_x: negate(jitter.x),
                jitter_y: negate(jitter.y),
                reset: reset || first,
                frame_time_ms,
                mv_scale_x: mv_scale.x,
                mv_scale_y: mv_scale.y,
                render_width: self.render.width,
                render_height: self.render.height,
            },
            after: MemoryBarrier {
                src_stage: STAGE_ALL_COMMANDS,
                src_access: ACCESS_MEMORY_WRITE,
                dst_stage: STAGE_FRAGMENT_SHADER,
                dst_access: ACCESS_SHADER_READ,
            },
        }
    }
}

/// What a feature for these sizes is created with.
pub open spec fn create_params_of(
    render: Extent,
    output: Extent,
    mode: AuroraDlss,
    preset: RrPreset,
) -> NgxDlssdCreateParams {
    NgxDlssdCreateParams {
        denoise_mode: DENOISE_MODE_DL_UNIFIED,
        roughness_mode: ROUGHNESS_MODE_PACKED,
        use_hw_depth: DEPTH_TYPE_LINEAR,
        width: render.width,
        height: render.height,
        target_width: output.width,
        target_height: output.height,
        perf_quality_value: mode.quality(),
        feature_create_flags: CREATE_FLAGS,
        enable_output_subrects: false,
        render_preset: preset.code(),
    }
}

/// What a feature for these sizes is created with.
pub fn create_params(render: Extent, output: Extent, mode: AuroraDlss, preset: RrPreset) -> (r:
    NgxDlssdCreateParams)
    ensures
        r == create_params_of(render, output, mode, preset),
{
    NgxDlssdCreateParams {
        denoise_mode: DENOISE_MODE_DL_UNIFIED,
        roughness_mode: ROUGHNESS_MODE_PACKED,
        use_hw_depth: DEPTH_TYPE_LINEAR,
        width: render.width,
        height: render.height,
        target_width: output.width,
        target_height: output.height,
        perf_quality_value: mode.perf_quality(),
        feature_create_flags: CREATE_FLAGS,
        enable_output_subrects: false,
        render_preset: preset.to_ngx(),
    }
}

/// What the start of a session is decided by.
#[derive(Clone, Copy, Debug, PartialEq, Eq, Structural)]
pub struct SessionAnswers {
    /// The vendor's kit was there when the program was built.
    pub built_in: bool,
    /// The driver's answer to the start.
    pub init: u32,
    /// The driver's answer to the request for its capabilities.
    pub capabilities: u32,
    /// The address of the capabilities, where there are any.
    pub block: u64,
    /// Whether they say that ray reconstruction is available.
    pub reconstruction: Option<i32>,
}

/// Why a session is refused. Ray reconstruction is the only way to a picture, so none is started
/// without it.
#[derive(Clone, Copy, Debug, PartialEq, Eq, Structural)]
pub enum SessionRefused {
    NotBuiltIn,
    Init { result: u32 },
    /// The driver was started, and is shut down again.
    Capabilities { result: u32 },
    /// The driver was started, and is shut down again.
    NoReconstruction,
}

/// Why these answers refuse a session, where they do.
pub open spec fn refusal(a: SessionAnswers) -> Option<SessionRefused> {
    if !a.built_in {
        Some(SessionRefused::NotBuiltIn)
    } else if a.init != RESULT_SUCCESS {
        Some(SessionRefused::Init { result: a.init })
    } else if a.capabilities != RESULT_SUCCESS || a.block == 0 {
        Some(SessionRefused::Capabilities { result: a.capabilities })
    } else if a.reconstruction is None || a.reconstruction == Some(0i32) {
        Some(SessionRefused::NoReconstruction)
    } else {
        None
    }
}

/// Starts a session, in which no view has a feature yet, or says why there is none.
pub fn start_session(a: &SessionAnswers) -> (r: Result<DlssRenderer, SessionRefused>)
    ensures
        match r {
            Ok(session) => refusal(*a) is None && session == (DlssRenderer {
                available: true,
                left: None,
                right: None,
                frame: 0,
            }),
            Err(e) => refusal(*a) == Some(e),
        },
{
    if !a.built_in {
        return Err(SessionRefused::NotBuiltIn);
    }
    if a.init != RESULT_SUCCESS {
        return Err(SessionRefused::Init { result: a.init });
    }
    if a.capabilities != RESULT_SUCCESS || a.block == 0 {
        return Err(SessionRefused::Capabilities { result: a.capabilities });
    }
    let there: bool = match a.reconstruction {
        Some(n) => n != 0,
        None => false,
    };
    if !there {
        return Err(SessionRefused::NoReconstruction);
    }
    Ok(DlssRenderer::new(true))
}

impl DlssRenderer {
    /// A session in which no view has a feature.
    pub fn new(available: bool) -> (r: Self)
        ensures
            r == (DlssRenderer { available, left: None, right: None, frame: 0 }),
    {
        DlssRenderer { available, left: None, right: None, frame: 0 }
    }

    /// The feature of view 0 or 1.
    pub open spec fn view_at(self, slot: usize) -> Option<DlssView> {
        if slot == 0 {
            self.left
        } else {
            self.right
        }
    }

    /// The feature of view 0 or 1.
    pub fn view(&self, slot: usize) -> (r: Option<DlssView>)
        requires
            slot < 2,
        ensures
            r == self.view_at(slot),
    {
        if slot == 0 {
            self.left
        } else {
            self.right
        }
    }

    /// Whether the driver must be asked for the best traced size before a view's step can be
    /// decided.
    pub fn asks_size(
        &self,
        slot: usize,
        output: Extent,
        mode: AuroraDlss,
        preset: RrPreset,
    ) -> (r: bool)
        requires
            slot < 2,
        ensures
            r == (self.available && output.width > 0 && output.height > 0 && is_fresh(
                self.view_at(slot),
                output,
                mode,
                preset,
            ) && mode != AuroraDlss::Dlaa),
    {
        let fresh: bool = match self.view(slot) {
            Some(v) => v.mode != mode || v.output != output || v.preset != preset,
            None => true,
        };
        self.available && output.width > 0 && output.height > 0 && fresh && mode
            != AuroraDlss::Dlaa
    }

    /// Decides what a view needs before a frame.
    pub fn prepare(
        &self,
        slot: usize,
        output: Extent,
        mode: AuroraDlss,
        preset: RrPreset,
        optimal: Optimal,
    ) -> (r: ViewStep)
        requires
            slot < 2,
        ensures
            r == step_of(self.available, self.view_at(slot), output, mode, preset, optimal),
    {
        let view: Option<DlssView> = self.view(slot);
        if !self.available || output.width == 0 || output.height == 0 {
            return ViewStep::Unavailable { release: view.is_some() };
        }
        if let Some(v) = view {
            if v.mode == mode && v.output == output && v.preset == preset {
                return ViewStep::Keep;
            }
        }
        let render: Extent = if mode == AuroraDlss::Dlaa {
            output
        } else {
            match optimal {
                Optimal::Size(size) => if size.width > 0 && size.height > 0 {
                    size
                } else {
                    output
                },
                Optimal::Failed => return ViewStep::NoSize,
            }
        };
        ViewStep::Rebuild { render, release: view.is_some() }
    }

    /// Gives up a view's feature.
    pub fn release(&mut self, slot: usize)
        requires
            slot < 2,
        ensures
            final(self).view_at(slot) is None,
            slot == 0 ==> final(self).right == old(self).right,
            slot != 0 ==> final(self).left == old(self).left,
            final(self).available == old(self).available,
            final(self).frame == old(self).frame,
    {
        if slot == 0 {
            self.left = None;
        } else {
            self.right = None;
        }
    }

    /// Takes over a feature that was made for a view; it has no history, and its guides no
    /// layout yet.
    pub fn install(
        &mut self,
        slot: usize,
        handle: u64,
        mode: AuroraDlss,
        preset: RrPreset,
        render: Extent,
        output: Extent,
        images: DlssImages,
    )
        requires
            slot < 2,
        ensures
            final(self).view_at(slot) == Some(
                DlssView {
                    handle,
                    mode,
                    preset,
                    render,
                    output,
                    images,
                    first_evaluate: true,
                    guides_initialized: false,
                },
            ),
            slot == 0 ==> final(self).right == old(self).right,
            slot != 0 ==> final(self).left == old(self).left,
            final(self).available == old(self).available,
            final(self).frame == old(self).frame,
    {
        let view = DlssView {
            handle,
            mode,
            preset,
            render,
            output,
            images,
            first_evaluate: true,
            guides_initialized: false,
        };
        if slot == 0 {
            self.left = Some(view);
        } else {
            self.right = Some(view);
        }
    }

    /// Starts a view's frame: gives the size to trace and the number that the jitter goes by,
    /// where the view has a feature.
    pub fn begin_frame(&mut self, slot: usize) -> (r: Option<(Extent, u32)>)
        requires
            slot < 2,
        ensures
            final(self).left == old(self).left,
            final(self).right == old(self).right,
            final(self).available == old(self).available,
            match old(self).view_at(slot) {
                Some(v) => {
                    &&& final(self).frame == if old(self).frame == u32::MAX {
                        0
                    } else {
                        (old(self).frame + 1) as u32
                    }
                    &&& r == Some((v.render, final(self).frame))
                },
                None => r is None && final(self).frame == old(self).frame,
            },
    {
        match self.view(slot) {
            Some(v) => {
                self.frame = if self.frame == u32::MAX {
                    0
                } else {
                    self.frame + 1
                };
                Some((v.render, self.frame))
            },
            None => None,
        }
    }
}

/// A feature that was made for what a view asked for stands: the same request does not make it
/// anew.
pub proof fn lemma_rebuild_settles(
    output: Extent,
    mode: AuroraDlss,
    preset: RrPreset,
    optimal: Optimal,
    view: DlssView,
)
    requires
        output.width > 0,
        output.height > 0,
        view.mode == mode,
        view.output == output,
        view.preset == preset,
    ensures
        step_of(true, Some(view), output, mode, preset, optimal) == ViewStep::Keep,
{
}

/// A guide's layouts go round: what one step leaves is what the next one takes.
pub proof fn lemma_guide_layouts()
    ensures
        to_rays(false).to == to_driver().from,
        to_driver().to == to_rays(true).from,
        to_rays(true).to == to_driver().from,
        exposure_to_transfer().to == exposure_to_driver().from,
{
}

/// Every image that the rays write for the reconstruction changes its layout with the others, and
/// no other image does.
pub proof fn lemma_every_guide(images: DlssImages, transition: Transition, b: ImageBarrier)
    ensures
        guide_barriers(images, transition).len() == 7,
        guide_barriers(images, transition).contains(b) <==> b.transition == transition && (b.image
            == images.color || b.image == images.normal_roughness || b.image == images.diffuse
            || b.image == images.specular || b.image == images.depth || b.image == images.spec_hit
            || b.image == images.motion),
{
    let g = guides_of(images);
    let s = guide_barriers(images, transition);
    assert forall|i: int| 0 <= i < 7 implies #[trigger] s[i] == (ImageBarrier {
        image: g[i],
        transition,
    }) by {}
    if b.transition == transition {
        if b.image == images.normal_roughness {
            assert(s[0] == b);
        } else if b.image == images.diffuse {
            assert(s[1] == b);
        } else if b.image == images.specular {
            assert(s[2] == b);
        } else if b.image == images.depth {
            assert(s[3] == b);
        } else if b.image == images.spec_hit {
            assert(s[4] == b);
        } else if b.image == images.motion {
            assert(s[5] == b);
        } else if b.image == images.color {
            assert(s[6] == b);
        }
    }
}

} // verus!
