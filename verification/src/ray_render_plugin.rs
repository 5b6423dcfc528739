//! The frame: which views are rendered, what the shaders are told, and every step from
//! acquiring the window's image to presenting it.

use crate::auto_exposure::{AutoExposureState, MeterInput};
use crate::bits::{Vec2, Vec3, Vec4};
use crate::commands::{Command, Params};
use crate::debug_view::AuroraDebugView;
use crate::dev_ui::DevUIState;
use crate::dlss::renderer::{
    guides_of, output_to_driver, to_driver, to_rays, DlssImages, Extent,
};
use crate::env_light::{ENV_H, ENV_W};
use crate::lights::LightManager;
use crate::record::{lemma_words_bytes_len, put_words, words_bytes, Record};
use crate::render_texture::ImageLayout;
use crate::restir::RestirState;
use crate::sharc::SharcState;
use crate::sky::Sky;
use crate::wire::{le64, put_u64};
use vstd::prelude::*;

verus! {

/// What the shaders read where no focus is pulled.
pub const NO_FOCUS: u32 = 0xFFFF_FFFF;

/// The binding of the scene.
pub const SCENE_BINDING: u32 = 100;

// ---- the window -----------------------------------------------------------------------------

/// The window's size, as the frame and the swapchain see it.
#[derive(Clone, Copy, Debug, PartialEq, Eq, Structural)]
pub struct RenderWindow {
    pub width: u32,
    pub height: u32,
}

/// The window's size in pixels, at least one either way.
pub fn update_render_window(width: u32, height: u32) -> (r: RenderWindow)
    ensures
        r.width == one_or_more(width),
        r.height == one_or_more(height),
{
    RenderWindow {
        width: if width < 1 {
            1
        } else {
            width
        },
        height: if height < 1 {
            1
        } else {
            height
        },
    }
}

/// A pixel.
#[derive(Clone, Copy, Debug, PartialEq, Eq, Structural)]
pub struct Pixel {
    pub x: u32,
    pub y: u32,
}

/// The pixel that the focus is pulled to: the cursor's, while the button is held.
pub fn set_focus_pulling(cursor: Option<Pixel>, pressed: bool) -> (r: Option<Pixel>)
    ensures
        r == (if pressed {
            cursor
        } else {
            None
        }),
{
    if pressed {
        cursor
    } else {
        None
    }
}

/// What a frame does about closing: nothing, or the teardown, after which these windows are
/// closed.
pub fn shutdown(device: bool, closing: Vec<u64>, exiting: bool) -> (r: Option<Vec<u64>>)
    ensures
        match r {
            Some(windows) => device && (closing@.len() > 0 || exiting) && windows == closing,
            None => !device || (closing@.len() == 0 && !exiting),
        },
{
    if !device || (closing.len() == 0 && !exiting) {
        return None;
    }
    Some(closing)
}

/// What is torn down last, in order.
#[derive(Clone, Copy, Debug, PartialEq, Eq, Structural)]
pub enum LastRites {
    RemoveHeadset,
    RemoveDevice,
    DestroyHeadset,
    DestroyUniforms { handle: u64 },
    DestroyFocus { handle: u64 },
    DestroySphereBounds { handle: u64 },
    DestroySphereStructure,
    Tick,
    RemoveSwapchain,
}

/// The last part of the teardown. The headset's session goes before the device that it wraps,
/// and enough ticks follow for all that was given up to be destroyed.
pub open spec fn last_rites(headset: bool, uniforms: (u64, u64), focus: u64, sphere: u64) -> Seq<
    LastRites,
> {
    seq![LastRites::RemoveHeadset, LastRites::RemoveDevice] + (if headset {
        seq![LastRites::DestroyHeadset]
    } else {
        Seq::empty()
    }) + seq![
        LastRites::DestroyUniforms { handle: uniforms.0 },
        LastRites::DestroyUniforms { handle: uniforms.1 },
        LastRites::DestroyFocus { handle: focus },
        LastRites::DestroySphereBounds { handle: sphere },
        LastRites::DestroySphereStructure,
        LastRites::Tick,
        LastRites::Tick,
        LastRites::Tick,
        LastRites::RemoveSwapchain,
    ]
}

/// The last part of the teardown.
pub fn on_shutdown(headset: bool, uniforms: (u64, u64), focus: u64, sphere: u64) -> (r: Vec<
    LastRites,
>)
    ensures
        r@ == last_rites(headset, uniforms, focus, sphere),
{
    let mut r: Vec<LastRites> = Vec::new();
    r.push(LastRites::RemoveHeadset);
    r.push(LastRites::RemoveDevice);
    if headset {
        r.push(LastRites::DestroyHeadset);
    }
    r.push(LastRites::DestroyUniforms { handle: uniforms.0 });
    r.push(LastRites::DestroyUniforms { handle: uniforms.1 });
    r.push(LastRites::DestroyFocus { handle: focus });
    r.push(LastRites::DestroySphereBounds { handle: sphere });
    r.push(LastRites::DestroySphereStructure);
    r.push(LastRites::Tick);
    r.push(LastRites::Tick);
    r.push(LastRites::Tick);
    r.push(LastRites::RemoveSwapchain);
    assert(r@ =~= last_rites(headset, uniforms, focus, sphere));
    r
}

// ---- the views --------------------------------------------------------------------------------

/// How a camera projects.
#[derive(Clone, Copy, Debug, PartialEq, Eq, Structural)]
pub enum ProjectionKind {
    Perspective,
    Orthographic,
    Custom,
}

/// The views of a frame: their number, and the size that they are put out at.
#[derive(Clone, Copy, Debug, PartialEq, Eq, Structural)]
pub struct FrameViews {
    pub count: usize,
    pub output: Extent,
}

/// The views of a frame: both eyes where a headset has one for us, else the window, which only
/// a perspective camera can fill.
pub fn choose_views(headset: Option<Extent>, window: Extent, projection: ProjectionKind) -> (r:
    FrameViews)
    requires
        headset is Some || projection == ProjectionKind::Perspective,
    ensures
        r == (match headset {
            Some(output) => FrameViews { count: 2, output },
            None => FrameViews { count: 1, output: window },
        }),
{
    match headset {
        Some(output) => FrameViews { count: 2, output },
        None => FrameViews { count: 1, output: window },
    }
}

/// What each view projected with last frame.
#[derive(Debug)]
pub struct ViewHistory<M> {
    pub left: Option<M>,
    pub right: Option<M>,
}

impl<M: Copy> ViewHistory<M> {
    pub fn new() -> (r: Self)
        ensures
            r.left is None,
            r.right is None,
    {
        ViewHistory { left: None, right: None }
    }

    /// What view `slot` projected with last frame.
    pub open spec fn last(self, slot: usize) -> Option<M> {
        if slot == 0 {
            self.left
        } else {
            self.right
        }
    }

    /// Takes note of what a view projects with; gives what it projected with last frame, and
    /// on its first one the same again.
    pub fn advance(&mut self, slot: usize, now: M) -> (r: M)
        requires
            slot < 2,
        ensures
            r == (match old(self).last(slot) {
                Some(before) => before,
                None => now,
            }),
            final(self).last(slot) == Some(now),
            slot == 0 ==> final(self).right == old(self).right,
            slot != 0 ==> final(self).left == old(self).left,
    {
        if slot == 0 {
            let r: M = match self.left {
                Some(before) => before,
                None => now,
            };
            self.left = Some(now);
            r
        } else {
            let r: M = match self.right {
                Some(before) => before,
                None => now,
            };
            self.right = Some(now);
            r
        }
    }
}

/// The number of the frame behind frame `frame`; numbers start over behind the largest.
pub open spec fn frame_after(frame: u32) -> u32 {
    if frame == u32::MAX {
        0
    } else {
        (frame + 1) as u32
    }
}

/// The number of the frame behind frame `frame`.
pub fn next_frame(frame: u32) -> (r: u32)
    ensures
        r == frame_after(frame),
{
    if frame == u32::MAX {
        0
    } else {
        frame + 1
    }
}

/// The size that is traced: what the first view's reconstruction takes in, or the output's.
pub fn trace_extent(plan: Option<Extent>, output: Extent) -> (r: Extent)
    ensures
        r == (match plan {
            Some(render) => render,
            None => output,
        }),
{
    match plan {
        Some(render) => render,
        None => output,
    }
}

// ---- what the shaders are told ------------------------------------------------------------------

/// The whole numbers that the shaders are told.
#[derive(Clone, Copy, Debug, PartialEq, Eq, Structural)]
pub struct UniformWords {
    pub pull_focus_x: u32,
    pub pull_focus_y: u32,
    pub frame: u32,
    pub samples: u32,
    pub max_bounces: u32,
    pub sky_mode: u32,
    /// 0 where lights are not sampled.
    pub light_entries: u32,
    /// 0 where reservoirs are not used.
    pub restir_candidates: u32,
    pub light_epoch: u32,
    pub sharc: u32,
    pub env: u64,
    pub env_w: u32,
    pub env_h: u32,
}

/// At least one.
pub open spec fn one_or_more(n: u32) -> u32 {
    if n < 1 {
        1
    } else {
        n
    }
}

/// Between 1 and 32.
pub open spec fn candidates(n: u32) -> u32 {
    if n < 1 {
        1
    } else if n > 32 {
        32
    } else {
        n
    }
}

/// The whole numbers that the shaders are told.
pub open spec fn uniform_words(
    state: DevUIState,
    sky: Sky,
    focus: Option<Pixel>,
    frame: u32,
    active_entries: u32,
    epoch: u32,
    env: u64,
) -> UniformWords {
    UniformWords {
        pull_focus_x: match focus {
            Some(p) => p.x,
            None => NO_FOCUS,
        },
        pull_focus_y: match focus {
            Some(p) => p.y,
            None => NO_FOCUS,
        },
        frame,
        samples: one_or_more(state.samples),
        max_bounces: one_or_more(state.max_bounces),
        sky_mode: sky.spec_mode(),
        light_entries: if state.light_nee {
            active_entries
        } else {
            0
        },
        restir_candidates: if state.restir {
            candidates(state.restir_candidates)
        } else {
            0
        },
        light_epoch: epoch,
        sharc: if state.sharc {
            1
        } else {
            0
        },
        env,
        env_w: if env != 0 {
            ENV_W
        } else {
            0
        },
        env_h: if env != 0 {
            ENV_H
        } else {
            0
        },
    }
}

/// The whole numbers that the shaders are told: the tunables in their ranges, and nothing of a
/// table that is switched off or not there.
pub fn fill_uniforms(
    state: &DevUIState,
    sky: &Sky,
    focus: Option<Pixel>,
    frame: u32,
    active_entries: u32,
    epoch: u32,
    env: u64,
) -> (r: UniformWords)
    ensures
        r == uniform_words(*state, *sky, focus, frame, active_entries, epoch, env),
{
    let (pull_focus_x, pull_focus_y): (u32, u32) = match focus {
        Some(p) => (p.x, p.y),
        None => (NO_FOCUS, NO_FOCUS),
    };
    let restir_candidates: u32 = if !state.restir {
        0
    } else if state.restir_candidates < 1 {
        1
    } else if state.restir_candidates > 32 {
        32
    } else {
        state.restir_candidates
    };
    UniformWords {
        pull_focus_x,
        pull_focus_y,
        frame,
        samples: if state.samples < 1 {
            1
        } else {
            state.samples
        },
        max_bounces: if state.max_bounces < 1 {
            1
        } else {
            state.max_bounces
        },
        sky_mode: sky.mode(),
        light_entries: if state.light_nee {
            active_entries
        } else {
            0
        },
        restir_candidates,
        light_epoch: epoch,
        sharc: if state.sharc {
            1
        } else {
            0
        },
        env,
        env_w: if env != 0 {
            ENV_W
        } else {
            0
        },
        env_h: if env != 0 {
            ENV_H
        } else {
            0
        },
    }
}

/// A matrix, column by column, as bit patterns.
pub type Mat4 = [u32; 16];

/// All that the shaders are told of one view.
#[derive(Clone, Copy, Debug)]
pub struct UniformData {
    pub words: UniformWords,
    pub sky_color: Vec4,
    pub inverse_view: Mat4,
    pub inverse_projection: Mat4,
    pub gamma: u32,
    pub aperture: u32,
    pub foginess: u32,
    pub fog_scatter: u32,
    pub sky_brightness: u32,
    pub view: Mat4,
    pub view_proj: Mat4,
    pub prev_view_proj: Mat4,
    pub jitter: Vec2,
    /// Indirect path contributions are clamped to this luminance.
    pub radiance_clamp: u32,
    pub vignette: u32,
    pub sun_cos_radius: u32,
    pub sun_direction: Vec3,
    pub sun_radiance: Vec3,
    pub sky_zenith: Vec3,
    pub sky_horizon: Vec3,
    pub sky_ground: Vec3,
    pub restir_m_clamp: u32,
    pub sharc_voxel: u32,
    pub emissive_boost: u32,
}

impl UniformData {
    /// The words in front of the address of the environment's tables, and the one that aligns
    /// it.
    pub open spec fn front(self) -> Seq<u32> {
        let w = self.words;
        self.sky_color.words() + self.inverse_view@ + self.inverse_projection@ + seq![
            w.pull_focus_x,
            w.pull_focus_y,
            self.gamma,
            self.aperture,
            self.foginess,
            self.fog_scatter,
            self.sky_brightness,
        ] + self.view@ + self.view_proj@ + self.prev_view_proj@ + self.jitter.words() + seq![
            w.frame,
            self.radiance_clamp,
            w.samples,
            w.max_bounces,
            self.vignette,
            w.sky_mode,
            self.sun_cos_radius,
        ] + self.sun_direction.words() + self.sun_radiance.words() + self.sky_zenith.words()
            + self.sky_horizon.words() + self.sky_ground.words() + seq![
            w.light_entries,
            w.restir_candidates,
            w.light_epoch,
            self.restir_m_clamp,
            w.sharc,
            self.sharc_voxel,
            0,
        ]
    }

    /// The words behind that address, up to a multiple of sixteen bytes.
    pub open spec fn back(self) -> Seq<u32> {
        seq![self.words.env_w, self.words.env_h, self.emissive_boost, 0]
    }

    /// The bytes, as the shaders read them.
    pub open spec fn layout(self) -> Seq<u8> {
        words_bytes(self.front()) + le64(self.words.env) + words_bytes(self.back())
    }

    /// Lays the block out.
    pub fn bytes(&self) -> (r: Vec<u8>)
        ensures
            r@ == self.layout(),
            r@.len() == 512,
    {
        let w: UniformWords = self.words;
        let mut front: Vec<u32> = Vec::new();
        push_words(&mut front, &[self.sky_color.x, self.sky_color.y, self.sky_color.z,
            self.sky_color.w]);
        push_words(&mut front, &self.inverse_view);
        push_words(&mut front, &self.inverse_projection);
        push_words(
            &mut front,
            &[
                w.pull_focus_x,
                w.pull_focus_y,
                self.gamma,
                self.aperture,
                self.foginess,
                self.fog_scatter,
                self.sky_brightness,
            ],
        );
        push_words(&mut front, &self.view);
        push_words(&mut front, &self.view_proj);
        push_words(&mut front, &self.prev_view_proj);
        push_words(&mut front, &[self.jitter.x, self.jitter.y]);
        push_words(
            &mut front,
            &[
                w.frame,
                self.radiance_clamp,
                w.samples,
                w.max_bounces,
                self.vignette,
                w.sky_mode,
                self.sun_cos_radius,
            ],
        );
        push_vec3(&mut front, self.sun_direction);
        push_vec3(&mut front, self.sun_radiance);
        push_vec3(&mut front, self.sky_zenith);
        push_vec3(&mut front, self.sky_horizon);
        push_vec3(&mut front, self.sky_ground);
        push_words(
            &mut front,
            &[
                w.light_entries,
                w.restir_candidates,
                w.light_epoch,
                self.restir_m_clamp,
                w.sharc,
                self.sharc_voxel,
                0,
            ],
        );
        assert(front@ =~= self.front());
        let mut r: Vec<u8> = Vec::new();
        put_words(&mut r, front.as_slice());
        put_u64(&mut r, w.env);
        let back: [u32; 4] = [w.env_w, w.env_h, self.emissive_boost, 0];
        put_words(&mut r, &back);
        assert(back@ =~= self.back());
        assert(r@ =~= self.layout());
        proof {
            lemma_words_bytes_len(self.front());
            lemma_words_bytes_len(self.back());
        }
        r
    }
}

fn push_words<const N: usize>(out: &mut Vec<u32>, words: &[u32; N])
    ensures
        final(out)@ == old(out)@ + words@,
{
    let mut i: usize = 0;
    assert(out@ =~= old(out)@ + words@.take(0));
    while i < N
        invariant
            i <= N,
            out@ == old(out)@ + words@.take(i as int),
        decreases N - i,
    {
        out.push(words[i]);
        i = i + 1;
        assert(out@ =~= old(out)@ + words@.take(i as int));
    }
    assert(words@.take(i as int) =~= words@);
}

fn push_vec3(out: &mut Vec<u32>, v: Vec3)
    ensures
        final(out)@ == old(out)@ + v.words(),
{
    out.push(v.x);
    out.push(v.y);
    out.push(v.z);
    assert(out@ =~= old(out)@ + v.words());
}

/// What a frame must make before it can fill it.
#[derive(Clone, Copy, Debug, PartialEq, Eq, Structural)]
pub enum Missing {
    /// The uniforms of a view.
    Uniforms { slot: usize },
    /// The focus, which starts at this distance.
    Focus { distance: u32 },
}

/// What is missing, by the handles of what is there: the uniforms of either view, and the
/// focus, which starts at a hundred meters.
pub open spec fn missing(uniforms: (u64, u64), focus: u64) -> Seq<Missing> {
    (if uniforms.0 == 0 {
        seq![Missing::Uniforms { slot: 0 }]
    } else {
        Seq::empty()
    }) + (if uniforms.1 == 0 {
        seq![Missing::Uniforms { slot: 1 }]
    } else {
        Seq::empty()
    }) + (if focus == 0 {
        seq![Missing::Focus { distance: 0x42C8_0000 }]
    } else {
        Seq::empty()
    })
}

/// What is missing.
pub fn ensure_buffers(uniforms: (u64, u64), focus: u64) -> (r: Vec<Missing>)
    ensures
        r@ == missing(uniforms, focus),
{
    let mut r: Vec<Missing> = Vec::new();
    if uniforms.0 == 0 {
        r.push(Missing::Uniforms { slot: 0 });
    }
    if uniforms.1 == 0 {
        r.push(Missing::Uniforms { slot: 1 });
    }
    if focus == 0 {
        r.push(Missing::Focus { distance: 0x42C8_0000 });
    }
    assert(r@ =~= missing(uniforms, focus));
    r
}

// ---- descriptors ------------------------------------------------------------------------------

/// The views of the guide images.
#[derive(Clone, Copy, Debug, PartialEq, Eq, Structural)]
pub struct GuideViews {
    pub normal_roughness: u64,
    pub diffuse: u64,
    pub specular: u64,
    pub depth: u64,
    pub spec_hit: u64,
    pub motion: u64,
    pub color: u64,
}

/// An image that a shader reads or writes.
#[derive(Clone, Copy, Debug, PartialEq, Eq, Structural)]
pub struct BoundImage {
    pub binding: u32,
    pub view: u64,
    pub layout: ImageLayout,
}

/// One bound image.
pub open spec fn bound(binding: u32, view: u64, layout: ImageLayout) -> BoundImage {
    BoundImage { binding, view, layout }
}

/// The guides as the rays write them, at bindings 1 to 7.
pub open spec fn ray_images(g: GuideViews) -> Seq<BoundImage> {
    seq![
        bound(1, g.normal_roughness, ImageLayout::General),
        bound(2, g.diffuse, ImageLayout::General),
        bound(3, g.specular, ImageLayout::General),
        bound(4, g.depth, ImageLayout::General),
        bound(5, g.spec_hit, ImageLayout::General),
        bound(6, g.motion, ImageLayout::General),
        bound(7, g.color, ImageLayout::General),
    ]
}

fn bind(binding: u32, view: u64, layout: ImageLayout) -> (r: BoundImage)
    ensures
        r == bound(binding, view, layout),
{
    BoundImage { binding, view, layout }
}

/// The guides as the rays write them; none where the view has none.
pub fn guide_writes(guides: Option<GuideViews>) -> (r: Vec<BoundImage>)
    ensures
        r@ == (match guides {
            Some(g) => ray_images(g),
            None => Seq::empty(),
        }),
{
    match guides {
        Some(g) => {
            let r: Vec<BoundImage> = vec![
                bind(1, g.normal_roughness, ImageLayout::General),
                bind(2, g.diffuse, ImageLayout::General),
                bind(3, g.specular, ImageLayout::General),
                bind(4, g.depth, ImageLayout::General),
                bind(5, g.spec_hit, ImageLayout::General),
                bind(6, g.motion, ImageLayout::General),
                bind(7, g.color, ImageLayout::General),
            ];
            assert(r@ =~= ray_images(g));
            r
        },
        None => Vec::new(),
    }
}

/// What the final draw samples: the reconstructed picture first, then the guides; each guide's
/// place has the picture itself while there are none.
pub open spec fn post_images(source: u64, guides: Option<GuideViews>) -> Seq<BoundImage> {
    match guides {
        Some(g) => seq![
            bound(0, source, ImageLayout::General),
            bound(1, g.color, ImageLayout::ShaderReadOnly),
            bound(2, g.normal_roughness, ImageLayout::ShaderReadOnly),
            bound(3, g.diffuse, ImageLayout::ShaderReadOnly),
            bound(4, g.specular, ImageLayout::ShaderReadOnly),
            bound(5, g.depth, ImageLayout::ShaderReadOnly),
            bound(6, g.spec_hit, ImageLayout::ShaderReadOnly),
            bound(7, g.motion, ImageLayout::ShaderReadOnly),
        ],
        None => Seq::new(8, |i: int| bound(i as u32, source, ImageLayout::General)),
    }
}

/// What the final draw samples.
pub fn record_post_draw(source: u64, guides: Option<GuideViews>) -> (r: Vec<BoundImage>)
    ensures
        r@ == post_images(source, guides),
{
    match guides {
        Some(g) => {
            let r: Vec<BoundImage> = vec![
                bind(0, source, ImageLayout::General),
                bind(1, g.color, ImageLayout::ShaderReadOnly),
                bind(2, g.normal_roughness, ImageLayout::ShaderReadOnly),
                bind(3, g.diffuse, ImageLayout::ShaderReadOnly),
                bind(4, g.specular, ImageLayout::ShaderReadOnly),
                bind(5, g.depth, ImageLayout::ShaderReadOnly),
                bind(6, g.spec_hit, ImageLayout::ShaderReadOnly),
                bind(7, g.motion, ImageLayout::ShaderReadOnly),
            ];
            assert(r@ =~= post_images(source, guides));
            r
        },
        None => {
            let mut r: Vec<BoundImage> = Vec::new();
            let mut i: u32 = 0;
            while i < 8
                invariant
                    i <= 8,
                    r@ == Seq::new(
                        i as nat,
                        |i: int| bound(i as u32, source, ImageLayout::General),
                    ),
                decreases 8 - i,
            {
                r.push(bind(i, source, ImageLayout::General));
                assert(r@ =~= Seq::new(
                    (i + 1) as nat,
                    |i: int| bound(i as u32, source, ImageLayout::General),
                ));
                i = i + 1;
            }
            r
        },
    }
}

// ---- the steps of a frame
// ------------------------------------------------------------------------

/// One step of a frame.
#[derive(Clone, Copy, Debug, PartialEq, Eq, Structural)]
pub enum FrameStep {
    /// The device is drained.
    WaitIdle,
    /// The window's next image is acquired, once the frame before is done with the commands.
    Acquire,
    /// Objects given up long enough ago are destroyed.
    Tick,
    /// The commands of this parity are started over.
    Begin { parity: usize },
    Transforms,
    Skins,
    /// The scene is rebuilt, where a transform or a skin changed.
    Scene,
    Lights,
    Cache { enabled: bool },
    Exposure { trace: Extent },
    /// The sky's image is looked up.
    SkyTexture,
    BindRays,
    /// The view's own descriptor set is written; a set that was recorded must not be.
    WriteRaySet { slot: usize, set: usize, guides: bool },
    BindRaySet { set: usize },
    Reservoirs { slot: usize, trace: Extent },
    PushRayConstants { slot: usize },
    PreTrace { slot: usize },
    Trace { slot: usize, size: Extent },
    Evaluate { slot: usize, reset: bool },
    /// The luminance of a whole frame was written.
    Metered,
    EyeToAttachment { eye: usize },
    BeginEye { eye: usize },
    EndEye { eye: usize },
    EyeToLayer { eye: usize },
    WindowToAttachment,
    BeginWindow,
    /// The viewport of the picture: the whole window, or letterboxed.
    PictureViewport { letterbox: bool },
    /// The picture of view `source` is drawn with descriptor set `set`.
    PostDraw { source: usize, set: usize },
    WindowViewport,
    Gizmos { parity: usize },
    Ui { parity: usize },
    EndWindow,
    /// The window's image is copied out through so many bytes.
    Capture { bytes: u64 },
    ToPresent { from: ImageLayout },
    End,
    Submit,
    EndHeadset,
    SaveCapture,
}

/// One view of a frame.
#[derive(Clone, Copy, Debug, PartialEq, Eq, Structural)]
pub struct FrameView {
    pub slot: usize,
    /// The size that its reconstruction takes in, where it is reconstructed.
    pub plan: Option<Extent>,
    /// The reconstruction has guides and an output.
    pub images: bool,
}

/// What a frame is decided by.
#[derive(Debug)]
pub struct FrameInputs {
    /// The headset has a frame for us.
    pub headset: bool,
    pub views: Vec<FrameView>,
    /// The frame is serialised.
    pub drain: bool,
    /// The reconstruction drops its history.
    pub reset: bool,
    /// The ray pipeline is compiled.
    pub rays_ready: bool,
    /// The scene is built.
    pub scene_ready: bool,
    /// The hit records are there.
    pub records_ready: bool,
    /// The final draw's pipeline is compiled.
    pub post_ready: bool,
    pub capture: bool,
    pub cache: bool,
    pub frame_count: usize,
    pub window: Extent,
    pub trace: Extent,
}

impl FrameInputs {
    /// Rays can be traced.
    pub open spec fn traces(self) -> bool {
        self.rays_ready && self.scene_ready && self.records_ready
    }

    /// A view was traced and reconstructed: only then does a draw read its output.
    pub open spec fn ran(self) -> bool {
        self.traces() && exists|i: int|
            0 <= i < self.views@.len() && (#[trigger] self.views@[i]).plan is Some
    }

    /// Whether the reconstruction of view `slot` has an output.
    pub open spec fn has_output(self, slot: usize) -> bool {
        exists|i: int|
            0 <= i < self.views@.len() && (#[trigger] self.views@[i]).slot == slot
                && self.views@[i].images
    }

    pub open spec fn parity(self) -> int {
        self.frame_count as int % 2
    }
}

/// Steps where they are asked for, else none.
pub open spec fn steps_if(asked: bool, steps: Seq<FrameStep>) -> Seq<FrameStep> {
    if asked {
        steps
    } else {
        Seq::empty()
    }
}

/// The steps of one view: its own set, its reservoirs and constants, and, where it is
/// reconstructed, its trace between the two halves of the reconstruction.
pub open spec fn view_steps(inputs: FrameInputs, v: FrameView) -> Seq<FrameStep> {
    let set = (2 * inputs.parity() + v.slot) as usize;
    seq![
        FrameStep::WriteRaySet { slot: v.slot, set, guides: v.plan is Some && v.images },
        FrameStep::BindRaySet { set },
        FrameStep::Reservoirs { slot: v.slot, trace: inputs.trace },
        FrameStep::PushRayConstants { slot: v.slot },
    ] + steps_if(
        v.plan is Some,
        seq![
            FrameStep::PreTrace { slot: v.slot },
            FrameStep::Trace { slot: v.slot, size: v.plan->0 },
            FrameStep::Evaluate { slot: v.slot, reset: inputs.reset },
            FrameStep::Metered,
        ],
    )
}

/// The steps of the first `n` views.
pub open spec fn views_steps(inputs: FrameInputs, n: nat) -> Seq<FrameStep>
    decreases n,
{
    if n == 0 {
        Seq::empty()
    } else {
        views_steps(inputs, (n - 1) as nat) + view_steps(inputs, inputs.views@[n - 1])
    }
}

/// The steps of one eye: its picture, handed to the headset.
pub open spec fn eye_steps(inputs: FrameInputs, eye: usize) -> Seq<FrameStep> {
    seq![FrameStep::EyeToAttachment { eye }, FrameStep::BeginEye { eye }] + steps_if(
        inputs.has_output(eye),
        seq![FrameStep::PostDraw { source: eye, set: (3 * inputs.parity() + eye) as usize }],
    ) + seq![FrameStep::EndEye { eye }, FrameStep::EyeToLayer { eye }]
}

/// The steps before the window's own pass.
pub open spec fn scene_steps(inputs: FrameInputs) -> Seq<FrameStep> {
    steps_if(inputs.drain, seq![FrameStep::WaitIdle]) + seq![
        FrameStep::Acquire,
        FrameStep::Tick,
        FrameStep::Begin { parity: inputs.parity() as usize },
        FrameStep::Transforms,
        FrameStep::Skins,
        FrameStep::Scene,
        FrameStep::Lights,
        FrameStep::Cache { enabled: inputs.cache },
        FrameStep::Exposure { trace: inputs.trace },
    ] + steps_if(
        inputs.traces(),
        seq![FrameStep::SkyTexture, FrameStep::BindRays] + views_steps(
            inputs,
            inputs.views@.len(),
        ),
    ) + steps_if(
        inputs.headset && inputs.post_ready && inputs.ran(),
        eye_steps(inputs, 0) + eye_steps(inputs, 1),
    )
}

/// The steps of the window's own pass. The picture is left out until there is one; debug lines
/// are left out of a spectator's picture, which they would not fit.
pub open spec fn window_steps(inputs: FrameInputs) -> Seq<FrameStep> {
    let parity = inputs.parity() as usize;
    let target: int = if inputs.headset {
        2
    } else {
        0
    };
    seq![FrameStep::WindowToAttachment, FrameStep::BeginWindow] + steps_if(
        inputs.post_ready && inputs.ran() && inputs.has_output(0),
        seq![
            FrameStep::PictureViewport { letterbox: inputs.headset },
            FrameStep::PostDraw { source: 0, set: (3 * inputs.parity() + target) as usize },
        ],
    ) + seq![FrameStep::WindowViewport] + steps_if(
        !inputs.headset,
        seq![FrameStep::Gizmos { parity }],
    ) + seq![FrameStep::Ui { parity }, FrameStep::EndWindow]
}

/// The steps that end a frame. A capture copies the finished picture on its way to the screen.
pub open spec fn present_steps(inputs: FrameInputs) -> Seq<FrameStep> {
    steps_if(
        inputs.capture,
        seq![
            FrameStep::Capture {
                bytes: (inputs.window.width * inputs.window.height * 4) as u64,
            },
        ],
    ) + seq![
        FrameStep::ToPresent {
            from: if inputs.capture {
                ImageLayout::TransferSource
            } else {
                ImageLayout::Attachment
            },
        },
        FrameStep::End,
        FrameStep::Submit,
    ] + steps_if(inputs.headset, seq![FrameStep::EndHeadset]) + steps_if(
        inputs.drain,
        seq![FrameStep::WaitIdle],
    ) + steps_if(inputs.capture, seq![FrameStep::WaitIdle, FrameStep::SaveCapture])
}

/// All steps of a frame.
pub open spec fn frame_steps(inputs: FrameInputs) -> Seq<FrameStep> {
    scene_steps(inputs) + window_steps(inputs) + present_steps(inputs)
}

impl FrameInputs {
    fn will_trace(&self) -> (r: bool)
        ensures
            r == self.traces(),
    {
        self.rays_ready && self.scene_ready && self.records_ready
    }

    fn has_run(&self) -> (r: bool)
        ensures
            r == self.ran(),
    {
        if !self.will_trace() {
            return false;
        }
        let mut i: usize = 0;
        while i < self.views.len()
            invariant
                i <= self.views@.len(),
                self.traces(),
                forall|j: int| 0 <= j < i ==> (#[trigger] self.views@[j]).plan is None,
            decreases self.views@.len() - i,
        {
            if self.views[i].plan.is_some() {
                return true;
            }
            i = i + 1;
        }
        false
    }

    fn output_there(&self, slot: usize) -> (r: bool)
        ensures
            r == self.has_output(slot),
    {
        let mut i: usize = 0;
        while i < self.views.len()
            invariant
                i <= self.views@.len(),
                forall|j: int|
                    0 <= j < i ==> !((#[trigger] self.views@[j]).slot == slot
                        && self.views@[j].images),
            decreases self.views@.len() - i,
        {
            if self.views[i].slot == slot && self.views[i].images {
                return true;
            }
            i = i + 1;
        }
        false
    }

    fn push_view(&self, out: &mut Vec<FrameStep>, v: FrameView)
        requires
            v.slot < 2,
        ensures
            final(out)@ == old(out)@ + view_steps(*self, v),
    {
        let set: usize = 2 * (self.frame_count % 2) + v.slot;
        out.push(
            FrameStep::WriteRaySet { slot: v.slot, set, guides: v.plan.is_some() && v.images },
        );
        out.push(FrameStep::BindRaySet { set });
        out.push(FrameStep::Reservoirs { slot: v.slot, trace: self.trace });
        out.push(FrameStep::PushRayConstants { slot: v.slot });
        if let Some(size) = v.plan {
            out.push(FrameStep::PreTrace { slot: v.slot });
            out.push(FrameStep::Trace { slot: v.slot, size });
            out.push(FrameStep::Evaluate { slot: v.slot, reset: self.reset });
            out.push(FrameStep::Metered);
        }
        assert(out@ =~= old(out)@ + view_steps(*self, v));
    }

    fn push_eye(&self, out: &mut Vec<FrameStep>, eye: usize)
        requires
            eye < 2,
        ensures
            final(out)@ == old(out)@ + eye_steps(*self, eye),
    {
        out.push(FrameStep::EyeToAttachment { eye });
        out.push(FrameStep::BeginEye { eye });
        if self.output_there(eye) {
            out.push(FrameStep::PostDraw { source: eye, set: 3 * (self.frame_count % 2) + eye });
        }
        out.push(FrameStep::EndEye { eye });
        out.push(FrameStep::EyeToLayer { eye });
        assert(out@ =~= old(out)@ + eye_steps(*self, eye));
    }

    fn push_scene(&self, out: &mut Vec<FrameStep>)
        requires
            forall|i: int| 0 <= i < self.views@.len() ==> (#[trigger] self.views@[i]).slot < 2,
        ensures
            final(out)@ == old(out)@ + scene_steps(*self),
    {
        if self.drain {
            out.push(FrameStep::WaitIdle);
        }
        out.push(FrameStep::Acquire);
        out.push(FrameStep::Tick);
        out.push(FrameStep::Begin { parity: self.frame_count % 2 });
        out.push(FrameStep::Transforms);
        out.push(FrameStep::Skins);
        out.push(FrameStep::Scene);
        out.push(FrameStep::Lights);
        out.push(FrameStep::Cache { enabled: self.cache });
        out.push(FrameStep::Exposure { trace: self.trace });
        let ghost start = out@;
        let ghost traced = seq![FrameStep::SkyTexture, FrameStep::BindRays];
        if self.will_trace() {
            out.push(FrameStep::SkyTexture);
            out.push(FrameStep::BindRays);
            let mut i: usize = 0;
            assert(out@ =~= start + (traced + views_steps(*self, 0)));
            while i < self.views.len()
                invariant
                    i <= self.views@.len(),
                    forall|i: int|
                        0 <= i < self.views@.len() ==> (#[trigger] self.views@[i]).slot < 2,
                    out@ == start + (traced + views_steps(*self, i as nat)),
                decreases self.views@.len() - i,
            {
                let ghost before = out@;
                self.push_view(out, self.views[i]);
                assert(out@ =~= start + (traced + views_steps(*self, (i + 1) as nat)));
                i = i + 1;
            }
        }
        let ghost shown = out@;
        assert(shown =~= start + steps_if(
            self.traces(),
            traced + views_steps(*self, self.views@.len()),
        ));
        if self.headset && self.post_ready && self.has_run() {
            self.push_eye(out, 0);
            self.push_eye(out, 1);
        }
        assert(out@ =~= shown + steps_if(
            self.headset && self.post_ready && self.ran(),
            eye_steps(*self, 0) + eye_steps(*self, 1),
        ));
        assert(out@ =~= old(out)@ + scene_steps(*self));
    }

    fn push_window(&self, out: &mut Vec<FrameStep>)
        ensures
            final(out)@ == old(out)@ + window_steps(*self),
    {
        let parity: usize = self.frame_count % 2;
        out.push(FrameStep::WindowToAttachment);
        out.push(FrameStep::BeginWindow);
        if self.post_ready && self.has_run() && self.output_there(0) {
            let target: usize = if self.headset {
                2
            } else {
                0
            };
            out.push(FrameStep::PictureViewport { letterbox: self.headset });
            out.push(FrameStep::PostDraw { source: 0, set: 3 * parity + target });
        }
        out.push(FrameStep::WindowViewport);
        if !self.headset {
            out.push(FrameStep::Gizmos { parity });
        }
        out.push(FrameStep::Ui { parity });
        out.push(FrameStep::EndWindow);
        assert(out@ =~= old(out)@ + window_steps(*self));
    }

    fn push_present(&self, out: &mut Vec<FrameStep>)
        requires
            self.window.width * self.window.height * 4 <= u64::MAX,
        ensures
            final(out)@ == old(out)@ + present_steps(*self),
    {
        if self.capture {
            assert(self.window.width * self.window.height <= u64::MAX) by (nonlinear_arith)
                requires
                    self.window.width * self.window.height * 4 <= u64::MAX,
            ;
            out.push(
                FrameStep::Capture {
                    bytes: self.window.width as u64 * self.window.height as u64 * 4,
                },
            );
        }
        out.push(
            FrameStep::ToPresent {
                from: if self.capture {
                    ImageLayout::TransferSource
                } else {
                    ImageLayout::Attachment
                },
            },
        );
        out.push(FrameStep::End);
        out.push(FrameStep::Submit);
        if self.headset {
            out.push(FrameStep::EndHeadset);
        }
        if self.drain {
            out.push(FrameStep::WaitIdle);
        }
        if self.capture {
            out.push(FrameStep::WaitIdle);
            out.push(FrameStep::SaveCapture);
        }
        assert(out@ =~= old(out)@ + present_steps(*self));
    }
}

/// The steps of a frame.
pub fn render_frame(inputs: &FrameInputs) -> (out: Vec<FrameStep>)
    requires
        forall|i: int| 0 <= i < inputs.views@.len() ==> (#[trigger] inputs.views@[i]).slot < 2,
        inputs.window.width * inputs.window.height * 4 <= u64::MAX,
    ensures
        out@ == frame_steps(*inputs),
        forall|i: int|
            0 <= i < out@.len() ==> ((#[trigger] out@[i]) matches FrameStep::Evaluate {
                reset,
                ..
            } ==> reset == inputs.reset),
        forall|step: FrameStep| #[trigger] out@.contains(step) <==> belongs(*inputs, step),
        in_order(*inputs, out@, 0, 54),
{
    let mut out: Vec<FrameStep> = Vec::new();
    inputs.push_scene(&mut out);
    inputs.push_window(&mut out);
    inputs.push_present(&mut out);
    assert(out@ =~= frame_steps(*inputs));
    proof {
        lemma_reset_as_asked(*inputs);
        lemma_frame_order(*inputs);
        assert forall|step: FrameStep| #[trigger] out@.contains(step) <==> belongs(*inputs,
            step) by {
            lemma_frame_has(*inputs, step);
        }
    }
    out
}

/// None of the steps draws a reconstructed picture.
pub open spec fn draws_nothing(steps: Seq<FrameStep>) -> bool {
    forall|i: int| 0 <= i < steps.len() ==> !((#[trigger] steps[i]) is PostDraw)
}

proof fn lemma_views_draw_nothing(inputs: FrameInputs, n: nat)
    requires
        n <= inputs.views@.len(),
    ensures
        draws_nothing(views_steps(inputs, n)),
    decreases n,
{
    if n > 0 {
        lemma_views_draw_nothing(inputs, (n - 1) as nat);
        let front = views_steps(inputs, (n - 1) as nat);
        let back = view_steps(inputs, inputs.views@[n - 1]);
        assert forall|i: int| 0 <= i < views_steps(inputs, n).len() implies !((
        #[trigger] views_steps(inputs, n)[i]) is PostDraw) by {
            if i < front.len() {
                assert(views_steps(inputs, n)[i] == front[i]);
            } else {
                assert(views_steps(inputs, n)[i] == back[i - front.len()]);
            }
        }
    }
}

/// A frame in which nothing was reconstructed draws no reconstructed picture: an output that
/// nothing has written is never read.
pub proof fn lemma_draws_only_what_ran(inputs: FrameInputs)
    requires
        !inputs.ran(),
    ensures
        draws_nothing(frame_steps(inputs)),
{
    let scene = scene_steps(inputs);
    let window = window_steps(inputs);
    let present = present_steps(inputs);
    lemma_views_draw_nothing(inputs, inputs.views@.len());
    let views = views_steps(inputs, inputs.views@.len());
    let start = steps_if(inputs.drain, seq![FrameStep::WaitIdle]) + seq![
        FrameStep::Acquire,
        FrameStep::Tick,
        FrameStep::Begin { parity: inputs.parity() as usize },
        FrameStep::Transforms,
        FrameStep::Skins,
        FrameStep::Scene,
        FrameStep::Lights,
        FrameStep::Cache { enabled: inputs.cache },
        FrameStep::Exposure { trace: inputs.trace },
    ];
    assert(draws_nothing(start));
    let rays = seq![FrameStep::SkyTexture, FrameStep::BindRays];
    assert(scene =~= start + steps_if(inputs.traces(), rays + views));
    assert(draws_nothing(rays + views)) by {
        assert forall|i: int| 0 <= i < (rays + views).len() implies !((#[trigger] (rays
            + views)[i]) is PostDraw) by {
            if i >= 2 {
                assert((rays + views)[i] == views[i - 2]);
            }
        }
    }
    assert(draws_nothing(scene)) by {
        assert forall|i: int| 0 <= i < scene.len() implies !((#[trigger] scene[i]) is PostDraw) by {
            if i < start.len() {
                assert(scene[i] == start[i]);
            } else {
                assert(scene[i] == (rays + views)[i - start.len()]);
            }
        }
    }
    assert(draws_nothing(window));
    assert(draws_nothing(present));
    assert forall|i: int| 0 <= i < frame_steps(inputs).len() implies !((
    #[trigger] frame_steps(inputs)[i]) is PostDraw) by {
        if i < scene.len() {
            assert(frame_steps(inputs)[i] == scene[i]);
        } else if i < scene.len() + window.len() {
            assert(frame_steps(inputs)[i] == window[i - scene.len()]);
        } else {
            assert(frame_steps(inputs)[i] == present[i - scene.len() - window.len()]);
        }
    }
}

/// The ray descriptor sets that the steps write, in order.
pub open spec fn ray_sets(steps: Seq<FrameStep>) -> Seq<usize>
    decreases steps.len(),
{
    if steps.len() == 0 {
        Seq::empty()
    } else {
        let front = ray_sets(steps.drop_last());
        match steps.last() {
            FrameStep::WriteRaySet { set, .. } => front.push(set),
            _ => front,
        }
    }
}

/// The descriptor sets of the final draw that the steps write, in order.
pub open spec fn draw_sets(steps: Seq<FrameStep>) -> Seq<usize>
    decreases steps.len(),
{
    if steps.len() == 0 {
        Seq::empty()
    } else {
        let front = draw_sets(steps.drop_last());
        match steps.last() {
            FrameStep::PostDraw { set, .. } => front.push(set),
            _ => front,
        }
    }
}

proof fn lemma_sets_join(a: Seq<FrameStep>, b: Seq<FrameStep>)
    ensures
        ray_sets(a + b) == ray_sets(a) + ray_sets(b),
        draw_sets(a + b) == draw_sets(a) + draw_sets(b),
    decreases b.len(),
{
    if b.len() == 0 {
        assert(a + b =~= a);
        assert(ray_sets(a) + ray_sets(b) =~= ray_sets(a));
        assert(draw_sets(a) + draw_sets(b) =~= draw_sets(a));
    } else {
        lemma_sets_join(a, b.drop_last());
        assert((a + b).drop_last() =~= a + b.drop_last());
        assert((a + b).last() == b.last());
        assert(ray_sets(a + b) =~= ray_sets(a) + ray_sets(b));
        assert(draw_sets(a + b) =~= draw_sets(a) + draw_sets(b));
    }
}

/// Steps that write no set.
pub open spec fn writes_nothing(steps: Seq<FrameStep>) -> bool {
    forall|i: int|
        0 <= i < steps.len() ==> !((#[trigger] steps[i]) is WriteRaySet || steps[i] is PostDraw)
}

proof fn lemma_no_sets(steps: Seq<FrameStep>)
    requires
        writes_nothing(steps),
    ensures
        ray_sets(steps).len() == 0,
        draw_sets(steps).len() == 0,
    decreases steps.len(),
{
    if steps.len() > 0 {
        assert(!(steps[steps.len() - 1] is WriteRaySet || steps[steps.len() - 1] is PostDraw));
        assert forall|i: int| 0 <= i < steps.drop_last().len() implies !((
        #[trigger] steps.drop_last()[i]) is WriteRaySet || steps.drop_last()[i] is PostDraw) by {
            assert(steps.drop_last()[i] == steps[i]);
        }
        lemma_no_sets(steps.drop_last());
    }
}

/// The one set that a single step and steps that write nothing write.
proof fn lemma_one_set(step: FrameStep, rest: Seq<FrameStep>)
    requires
        writes_nothing(rest),
    ensures
        ray_sets(seq![step] + rest) == (match step {
            FrameStep::WriteRaySet { set, .. } => seq![set],
            _ => Seq::empty(),
        }),
        draw_sets(seq![step] + rest) == (match step {
            FrameStep::PostDraw { set, .. } => seq![set],
            _ => Seq::empty(),
        }),
{
    lemma_no_sets(rest);
    lemma_sets_join(seq![step], rest);
    assert(seq![step].drop_last() =~= Seq::<FrameStep>::empty());
    assert(ray_sets(Seq::<FrameStep>::empty()) =~= Seq::<usize>::empty());
    assert(draw_sets(Seq::<FrameStep>::empty()) =~= Seq::<usize>::empty());
    assert(ray_sets(seq![step] + rest) =~= (match step {
        FrameStep::WriteRaySet { set, .. } => seq![set],
        _ => Seq::empty(),
    }));
    assert(draw_sets(seq![step] + rest) =~= (match step {
        FrameStep::PostDraw { set, .. } => seq![set],
        _ => Seq::empty(),
    }));
}

/// The sets of the first `n` views.
pub open spec fn view_sets(inputs: FrameInputs, n: nat) -> Seq<usize> {
    Seq::new(n, |i: int| (2 * inputs.parity() + inputs.views@[i].slot) as usize)
}

proof fn lemma_view_sets(inputs: FrameInputs, n: nat)
    requires
        n <= inputs.views@.len(),
    ensures
        ray_sets(views_steps(inputs, n)) == view_sets(inputs, n),
        draw_sets(views_steps(inputs, n)).len() == 0,
    decreases n,
{
    if n == 0 {
        assert(ray_sets(views_steps(inputs, n)) =~= view_sets(inputs, n));
    } else {
        let v = inputs.views@[n - 1];
        let own = view_steps(inputs, v);
        lemma_view_sets(inputs, (n - 1) as nat);
        lemma_sets_join(views_steps(inputs, (n - 1) as nat), own);
        assert(own =~= seq![own[0]] + own.skip(1));
        assert(writes_nothing(own.skip(1))) by {
            assert forall|i: int| 0 <= i < own.skip(1).len() implies !((
            #[trigger] own.skip(1)[i]) is WriteRaySet || own.skip(1)[i] is PostDraw) by {
                assert(own.skip(1)[i] == own[i + 1]);
            }
        }
        lemma_one_set(own[0], own.skip(1));
        assert(ray_sets(views_steps(inputs, n)) =~= view_sets(inputs, n));
    }
}

proof fn lemma_eye_sets(inputs: FrameInputs, eye: usize)
    requires
        eye < 2,
    ensures
        ray_sets(eye_steps(inputs, eye)).len() == 0,
        draw_sets(eye_steps(inputs, eye)) == (if inputs.has_output(eye) {
            seq![(3 * inputs.parity() + eye) as usize]
        } else {
            Seq::empty()
        }),
{
    let steps = eye_steps(inputs, eye);
    let front = steps.take(2);
    let back = steps.skip(2);
    assert(steps =~= front + back);
    lemma_sets_join(front, back);
    lemma_no_sets(front);
    if inputs.has_output(eye) {
        let tail = back.skip(1);
        assert(back =~= seq![back[0]] + tail);
        lemma_one_set(back[0], tail);
    } else {
        lemma_no_sets(back);
        assert(draw_sets(back) =~= Seq::<usize>::empty());
    }
    assert(draw_sets(steps) =~= draw_sets(back));
}

proof fn lemma_window_sets(inputs: FrameInputs)
    ensures
        ray_sets(window_steps(inputs)).len() == 0,
        draw_sets(window_steps(inputs)) == (if inputs.post_ready && inputs.ran()
            && inputs.has_output(0) {
            seq![
                (3 * inputs.parity() + if inputs.headset {
                    2int
                } else {
                    0
                }) as usize,
            ]
        } else {
            Seq::empty()
        }),
{
    let steps = window_steps(inputs);
    if inputs.post_ready && inputs.ran() && inputs.has_output(0) {
        let front = steps.take(3);
        let back = steps.skip(3);
        assert(steps =~= front + back);
        lemma_sets_join(front, back);
        lemma_no_sets(front);
        let tail = back.skip(1);
        assert(back =~= seq![back[0]] + tail);
        lemma_one_set(back[0], tail);
        assert(draw_sets(steps) =~= draw_sets(back));
    } else {
        lemma_no_sets(steps);
        assert(draw_sets(steps) =~= Seq::<usize>::empty());
    }
}

/// The sets of the final draw that a frame writes.
pub open spec fn all_draw_sets(inputs: FrameInputs) -> Seq<usize> {
    let eye = |e: usize| if inputs.headset && inputs.post_ready && inputs.ran()
        && inputs.has_output(e) {
        seq![(3 * inputs.parity() + e) as usize]
    } else {
        Seq::<usize>::empty()
    };
    eye(0) + eye(1) + if inputs.post_ready && inputs.ran() && inputs.has_output(0) {
        seq![
            (3 * inputs.parity() + if inputs.headset {
                2int
            } else {
                0
            }) as usize,
        ]
    } else {
        Seq::empty()
    }
}

/// The sets that a frame writes: those of its views, and those of its draws.
pub proof fn lemma_frame_sets(inputs: FrameInputs)
    ensures
        ray_sets(frame_steps(inputs)) == (if inputs.traces() {
            view_sets(inputs, inputs.views@.len())
        } else {
            Seq::empty()
        }),
        draw_sets(frame_steps(inputs)) == all_draw_sets(inputs),
{
    let start = steps_if(inputs.drain, seq![FrameStep::WaitIdle]) + seq![
        FrameStep::Acquire,
        FrameStep::Tick,
        FrameStep::Begin { parity: inputs.parity() as usize },
        FrameStep::Transforms,
        FrameStep::Skins,
        FrameStep::Scene,
        FrameStep::Lights,
        FrameStep::Cache { enabled: inputs.cache },
        FrameStep::Exposure { trace: inputs.trace },
    ];
    let rays = seq![FrameStep::SkyTexture, FrameStep::BindRays];
    let views = views_steps(inputs, inputs.views@.len());
    let traced = steps_if(inputs.traces(), rays + views);
    let shown = inputs.headset && inputs.post_ready && inputs.ran();
    let eyes = steps_if(shown, eye_steps(inputs, 0) + eye_steps(inputs, 1));
    let scene = scene_steps(inputs);
    assert(scene =~= start + traced + eyes);
    lemma_no_sets(start);
    lemma_no_sets(rays);
    lemma_view_sets(inputs, inputs.views@.len());
    lemma_sets_join(rays, views);
    lemma_sets_join(start, traced);
    lemma_sets_join(start + traced, eyes);
    lemma_eye_sets(inputs, 0);
    lemma_eye_sets(inputs, 1);
    lemma_sets_join(eye_steps(inputs, 0), eye_steps(inputs, 1));
    lemma_window_sets(inputs);
    lemma_no_sets(present_steps(inputs));
    lemma_sets_join(scene, window_steps(inputs));
    lemma_sets_join(scene + window_steps(inputs), present_steps(inputs));
    assert(ray_sets(frame_steps(inputs)) =~= ray_sets(traced));
    assert(ray_sets(rays + views) =~= ray_sets(views));
    assert(ray_sets(frame_steps(inputs)) =~= (if inputs.traces() {
        view_sets(inputs, inputs.views@.len())
    } else {
        Seq::empty()
    }));
    assert(draw_sets(frame_steps(inputs)) =~= draw_sets(eyes) + draw_sets(
        window_steps(inputs),
    ));
    assert(draw_sets(frame_steps(inputs)) =~= all_draw_sets(inputs));
}

/// A frame writes no descriptor set twice, so none that it has recorded already, and none that
/// a frame of the other parity, which may still be running, reads.
pub proof fn lemma_sets_written_once(inputs: FrameInputs, other: FrameInputs)
    requires
        forall|i: int| 0 <= i < inputs.views@.len() ==> (#[trigger] inputs.views@[i]).slot < 2,
        forall|i: int| 0 <= i < other.views@.len() ==> (#[trigger] other.views@[i]).slot < 2,
        forall|i: int, j: int|
            0 <= i < j < inputs.views@.len() ==> (#[trigger] inputs.views@[i]).slot != (
            #[trigger] inputs.views@[j]).slot,
        inputs.parity() != other.parity(),
    ensures
        ray_sets(frame_steps(inputs)).no_duplicates(),
        draw_sets(frame_steps(inputs)).no_duplicates(),
        forall|s: usize|
            !(#[trigger] ray_sets(frame_steps(inputs)).contains(s) && ray_sets(
                frame_steps(other),
            ).contains(s)),
        forall|s: usize|
            !(#[trigger] draw_sets(frame_steps(inputs)).contains(s) && draw_sets(
                frame_steps(other),
            ).contains(s)),
{
    lemma_frame_sets(inputs);
    lemma_frame_sets(other);
    let a = ray_sets(frame_steps(inputs));
    let b = ray_sets(frame_steps(other));
    assert forall|i: int, j: int| 0 <= i < a.len() && 0 <= j < a.len() && i != j implies a[i]
        != a[j] by {
        let vi = inputs.views@[i];
        let vj = inputs.views@[j];
        if i < j {
            assert(vi.slot != vj.slot);
        } else {
            assert(vj.slot != vi.slot);
        }
        assert(a[i] == 2 * inputs.parity() + vi.slot);
        assert(a[j] == 2 * inputs.parity() + vj.slot);
    }
    assert forall|s: usize| !(#[trigger] a.contains(s) && b.contains(s)) by {
        if a.contains(s) && b.contains(s) {
            let i = choose|i: int| 0 <= i < a.len() && a[i] == s;
            let j = choose|j: int| 0 <= j < b.len() && b[j] == s;
            assert(inputs.views@[i].slot < 2 && other.views@[j].slot < 2);
            assert(a[i] == 2 * inputs.parity() + inputs.views@[i].slot);
            assert(b[j] == 2 * other.parity() + other.views@[j].slot);
        }
    }
    let c = draw_sets(frame_steps(inputs));
    let d = draw_sets(frame_steps(other));
    assert forall|s: usize| #[trigger] c.contains(s) implies 3 * inputs.parity() <= s < 3
        * inputs.parity() + 3 by {}
    assert forall|s: usize| #[trigger] d.contains(s) implies 3 * other.parity() <= s < 3
        * other.parity() + 3 by {}
    assert forall|s: usize| !(#[trigger] c.contains(s) && d.contains(s)) by {}
}

// ---- which steps a frame has, and when ----------------------------------------------------------

/// Some view is traced and reconstructed.
pub open spec fn reconstructs(inputs: FrameInputs) -> bool {
    inputs.rays_ready && inputs.scene_ready && inputs.records_ready && exists|i: int|
        0 <= i < inputs.views@.len() && (#[trigger] inputs.views@[i]).plan is Some
}

/// Some view of this slot has an output.
pub open spec fn shows(inputs: FrameInputs, slot: usize) -> bool {
    exists|i: int|
        0 <= i < inputs.views@.len() && (#[trigger] inputs.views@[i]).slot == slot
            && inputs.views@[i].images
}

/// The step of a view belongs to it: it names the view's slot and its sets, what the view is
/// reconstructed from, and drops the history exactly where that was asked for.
pub open spec fn belongs_to_view(inputs: FrameInputs, v: FrameView, step: FrameStep) -> bool {
    let set = 2 * (inputs.frame_count as int % 2) + v.slot;
    match step {
        FrameStep::WriteRaySet { slot, set: own, guides } => slot == v.slot && own == set && guides
            == (v.plan is Some && v.images),
        FrameStep::BindRaySet { set: own } => own == set,
        FrameStep::Reservoirs { slot, trace } => slot == v.slot && trace == inputs.trace,
        FrameStep::PushRayConstants { slot } => slot == v.slot,
        FrameStep::PreTrace { slot } => slot == v.slot && v.plan is Some,
        FrameStep::Trace { slot, size } => slot == v.slot && v.plan == Some(size),
        FrameStep::Evaluate { slot, reset } => slot == v.slot && v.plan is Some && reset
            == inputs.reset,
        FrameStep::Metered => v.plan is Some,
        _ => false,
    }
}

/// The step belongs to a frame with these inputs.
pub open spec fn belongs(inputs: FrameInputs, step: FrameStep) -> bool {
    let parity = inputs.frame_count as int % 2;
    let rays = inputs.rays_ready && inputs.scene_ready && inputs.records_ready;
    let picture = inputs.post_ready && reconstructs(inputs);
    match step {
        FrameStep::WaitIdle => inputs.drain || inputs.capture,
        FrameStep::Begin { parity: own } => own == parity,
        FrameStep::Cache { enabled } => enabled == inputs.cache,
        FrameStep::Exposure { trace } => trace == inputs.trace,
        FrameStep::SkyTexture | FrameStep::BindRays => rays,
        FrameStep::EyeToAttachment { eye } => eye < 2 && inputs.headset && picture,
        FrameStep::BeginEye { eye } => eye < 2 && inputs.headset && picture,
        FrameStep::EndEye { eye } => eye < 2 && inputs.headset && picture,
        FrameStep::EyeToLayer { eye } => eye < 2 && inputs.headset && picture,
        FrameStep::PictureViewport { letterbox } => picture && shows(inputs, 0) && letterbox
            == inputs.headset,
        FrameStep::PostDraw { source, set } => picture && shows(inputs, source) && {
            ||| inputs.headset && source < 2 && set == 3 * parity + source
            ||| inputs.headset && source == 0 && set == 3 * parity + 2
            ||| !inputs.headset && source == 0 && set == 3 * parity
        },
        FrameStep::Gizmos { parity: own } => !inputs.headset && own == parity,
        FrameStep::Ui { parity: own } => own == parity,
        FrameStep::Capture { bytes } => inputs.capture && bytes == inputs.window.width
            * inputs.window.height * 4,
        FrameStep::ToPresent { from } => from == if inputs.capture {
            ImageLayout::TransferSource
        } else {
            ImageLayout::Attachment
        },
        FrameStep::EndHeadset => inputs.headset,
        FrameStep::SaveCapture => inputs.capture,
        FrameStep::WriteRaySet { .. }
        | FrameStep::BindRaySet { .. }
        | FrameStep::Reservoirs { .. }
        | FrameStep::PushRayConstants { .. }
        | FrameStep::PreTrace { .. }
        | FrameStep::Trace { .. }
        | FrameStep::Evaluate { .. }
        | FrameStep::Metered => rays && exists|i: int|
            0 <= i < inputs.views@.len() && belongs_to_view(
                inputs,
                #[trigger] inputs.views@[i],
                step,
            ),
        _ => true,
    }
}

/// Whether a step is one of a view's.
pub open spec fn of_a_view(step: FrameStep) -> bool {
    match step {
        FrameStep::WriteRaySet { .. }
        | FrameStep::BindRaySet { .. }
        | FrameStep::Reservoirs { .. }
        | FrameStep::PushRayConstants { .. }
        | FrameStep::PreTrace { .. }
        | FrameStep::Trace { .. }
        | FrameStep::Evaluate { .. }
        | FrameStep::Metered => true,
        _ => false,
    }
}

proof fn lemma_view_has(inputs: FrameInputs, v: FrameView, step: FrameStep)
    requires
        v.slot < 2,
    ensures
        view_steps(inputs, v).contains(step) <==> belongs_to_view(inputs, v, step),
{
    broadcast use vstd::seq_lib::group_seq_properties;
}

proof fn lemma_views_have(inputs: FrameInputs, n: nat, step: FrameStep)
    requires
        n <= inputs.views@.len(),
        forall|i: int| 0 <= i < inputs.views@.len() ==> (#[trigger] inputs.views@[i]).slot < 2,
    ensures
        views_steps(inputs, n).contains(step) <==> exists|i: int|
            0 <= i < n && belongs_to_view(inputs, #[trigger] inputs.views@[i], step),
    decreases n,
{
    broadcast use vstd::seq_lib::group_seq_properties;

    if n > 0 {
        lemma_views_have(inputs, (n - 1) as nat, step);
        lemma_view_has(inputs, inputs.views@[n - 1], step);
    }
}

proof fn lemma_eye_has(inputs: FrameInputs, eye: usize, step: FrameStep)
    requires
        eye < 2,
    ensures
        eye_steps(inputs, eye).contains(step) <==> match step {
            FrameStep::EyeToAttachment { eye: own } => own == eye,
            FrameStep::BeginEye { eye: own } => own == eye,
            FrameStep::EndEye { eye: own } => own == eye,
            FrameStep::EyeToLayer { eye: own } => own == eye,
            FrameStep::PostDraw { source, set } => source == eye && shows(inputs, eye) && set == 3
                * (inputs.frame_count as int % 2) + eye,
            _ => false,
        },
{
    broadcast use vstd::seq_lib::group_seq_properties;

    assert(inputs.has_output(eye) == shows(inputs, eye));
}

proof fn lemma_has_join(a: Seq<FrameStep>, b: Seq<FrameStep>, step: FrameStep)
    ensures
        (a + b).contains(step) <==> a.contains(step) || b.contains(step),
{
    if a.contains(step) {
        let i = choose|i: int| 0 <= i < a.len() && a[i] == step;
        assert((a + b)[i] == step);
    }
    if b.contains(step) {
        let i = choose|i: int| 0 <= i < b.len() && b[i] == step;
        assert((a + b)[a.len() + i] == step);
    }
    if (a + b).contains(step) {
        let i = choose|i: int| 0 <= i < (a + b).len() && (a + b)[i] == step;
        if i < a.len() {
            assert(a[i] == step);
        } else {
            assert(b[i - a.len()] == step);
        }
    }
}

/// The steps before any ray.
spec fn opening_steps(inputs: FrameInputs) -> Seq<FrameStep> {
    steps_if(inputs.drain, seq![FrameStep::WaitIdle]) + seq![
        FrameStep::Acquire,
        FrameStep::Tick,
        FrameStep::Begin { parity: inputs.parity() as usize },
        FrameStep::Transforms,
        FrameStep::Skins,
        FrameStep::Scene,
        FrameStep::Lights,
        FrameStep::Cache { enabled: inputs.cache },
        FrameStep::Exposure { trace: inputs.trace },
    ]
}

proof fn lemma_opening_has(inputs: FrameInputs, step: FrameStep)
    ensures
        opening_steps(inputs).contains(step) <==> match step {
            FrameStep::WaitIdle => inputs.drain,
            FrameStep::Acquire
            | FrameStep::Tick
            | FrameStep::Transforms
            | FrameStep::Skins
            | FrameStep::Scene
            | FrameStep::Lights => true,
            FrameStep::Begin { parity } => parity == inputs.frame_count as int % 2,
            FrameStep::Cache { enabled } => enabled == inputs.cache,
            FrameStep::Exposure { trace } => trace == inputs.trace,
            _ => false,
        },
{
    broadcast use vstd::seq_lib::group_seq_properties;

}

proof fn lemma_rays_have(step: FrameStep)
    ensures
        seq![FrameStep::SkyTexture, FrameStep::BindRays].contains(step) <==> step is SkyTexture
            || step is BindRays,
{
    broadcast use vstd::seq_lib::group_seq_properties;

}

proof fn lemma_window_has(inputs: FrameInputs, step: FrameStep)
    ensures
        window_steps(inputs).contains(step) <==> match step {
            FrameStep::WindowToAttachment
            | FrameStep::BeginWindow
            | FrameStep::WindowViewport
            | FrameStep::EndWindow => true,
            FrameStep::PictureViewport { letterbox } => inputs.post_ready && reconstructs(inputs)
                && shows(inputs, 0) && letterbox == inputs.headset,
            FrameStep::PostDraw { source, set } => inputs.post_ready && reconstructs(inputs)
                && shows(inputs, 0) && source == 0 && set == 3 * (inputs.frame_count as int % 2)
                + if inputs.headset {
                2int
            } else {
                0int
            },
            FrameStep::Gizmos { parity } => !inputs.headset && parity == inputs.frame_count as int
                % 2,
            FrameStep::Ui { parity } => parity == inputs.frame_count as int % 2,
            _ => false,
        },
{
    broadcast use vstd::seq_lib::group_seq_properties;

    assert(inputs.has_output(0) == shows(inputs, 0));
    assert(inputs.ran() == reconstructs(inputs));
}

proof fn lemma_present_has(inputs: FrameInputs, step: FrameStep)
    requires
        inputs.window.width * inputs.window.height * 4 <= u64::MAX,
    ensures
        present_steps(inputs).contains(step) <==> match step {
            FrameStep::Capture { bytes } => inputs.capture && bytes == inputs.window.width
                * inputs.window.height * 4,
            FrameStep::ToPresent { from } => from == if inputs.capture {
                ImageLayout::TransferSource
            } else {
                ImageLayout::Attachment
            },
            FrameStep::End | FrameStep::Submit => true,
            FrameStep::EndHeadset => inputs.headset,
            FrameStep::WaitIdle => inputs.drain || inputs.capture,
            FrameStep::SaveCapture => inputs.capture,
            _ => false,
        },
{
    broadcast use vstd::seq_lib::group_seq_properties;

    assert(0 <= inputs.window.width * inputs.window.height) by (nonlinear_arith)
        requires
            0 <= inputs.window.width,
            0 <= inputs.window.height,
    ;
}

/// A frame has the steps that belong to it, and no others. So the reconstruction of every view
/// drops its history exactly where that was asked for, every draw shows a view that has an
/// output, with a set of this frame's own, and nothing is drawn, copied or handed on that was not
/// asked for.
pub proof fn lemma_frame_has(inputs: FrameInputs, step: FrameStep)
    requires
        forall|i: int| 0 <= i < inputs.views@.len() ==> (#[trigger] inputs.views@[i]).slot < 2,
        inputs.window.width * inputs.window.height * 4 <= u64::MAX,
    ensures
        frame_steps(inputs).contains(step) <==> belongs(inputs, step),
{
    let start = opening_steps(inputs);
    let rays = seq![FrameStep::SkyTexture, FrameStep::BindRays];
    let views = views_steps(inputs, inputs.views@.len());
    let traced = steps_if(inputs.traces(), rays + views);
    let shown = inputs.headset && inputs.post_ready && inputs.ran();
    let left = eye_steps(inputs, 0);
    let right = eye_steps(inputs, 1);
    let eyes = steps_if(shown, left + right);
    let scene = scene_steps(inputs);
    let window = window_steps(inputs);
    assert(scene =~= start + traced + eyes);
    assert(inputs.ran() == reconstructs(inputs));
    lemma_opening_has(inputs, step);
    lemma_rays_have(step);
    lemma_views_have(inputs, inputs.views@.len(), step);
    lemma_eye_has(inputs, 0, step);
    lemma_eye_has(inputs, 1, step);
    lemma_window_has(inputs, step);
    lemma_present_has(inputs, step);
    lemma_has_join(rays, views, step);
    lemma_has_join(start, traced, step);
    lemma_has_join(left, right, step);
    lemma_has_join(start + traced, eyes, step);
    lemma_has_join(scene, window, step);
    lemma_has_join(scene + window, present_steps(inputs), step);
    assert(!Seq::<FrameStep>::empty().contains(step));
}

/// Every reconstruction of a frame drops its history exactly where that was asked for: one for
/// which no reset was asked has no evaluation that resets.
pub proof fn lemma_reset_as_asked(inputs: FrameInputs)
    requires
        forall|i: int| 0 <= i < inputs.views@.len() ==> (#[trigger] inputs.views@[i]).slot < 2,
        inputs.window.width * inputs.window.height * 4 <= u64::MAX,
    ensures
        forall|i: int|
            0 <= i < frame_steps(inputs).len() ==> ((#[trigger] frame_steps(
                inputs,
            )[i]) matches FrameStep::Evaluate { reset, .. } ==> reset == inputs.reset),
{
    let steps = frame_steps(inputs);
    assert forall|i: int| 0 <= i < steps.len() implies ((
    #[trigger] steps[i]) matches FrameStep::Evaluate { reset, .. } ==> reset == inputs.reset) by {
        assert(steps.contains(steps[i]));
        lemma_frame_has(inputs, steps[i]);
    }
}

/// When a step comes; the steps of all views come together.
pub open spec fn moment(inputs: FrameInputs, step: FrameStep) -> int {
    match step {
        FrameStep::WaitIdle => 0,
        FrameStep::Acquire => 1,
        FrameStep::Tick => 2,
        FrameStep::Begin { .. } => 3,
        FrameStep::Transforms => 4,
        FrameStep::Skins => 5,
        FrameStep::Scene => 6,
        FrameStep::Lights => 7,
        FrameStep::Cache { .. } => 8,
        FrameStep::Exposure { .. } => 9,
        FrameStep::SkyTexture => 10,
        FrameStep::BindRays => 11,
        FrameStep::EyeToAttachment { eye } => 20 + 5 * eye,
        FrameStep::BeginEye { eye } => 21 + 5 * eye,
        FrameStep::PostDraw { source, set } => if inputs.headset && set as int % 3 != 2 {
            22 + 5 * source
        } else {
            43
        },
        FrameStep::EndEye { eye } => 23 + 5 * eye,
        FrameStep::EyeToLayer { eye } => 24 + 5 * eye,
        FrameStep::WindowToAttachment => 40,
        FrameStep::BeginWindow => 41,
        FrameStep::PictureViewport { .. } => 42,
        FrameStep::WindowViewport => 44,
        FrameStep::Gizmos { .. } => 45,
        FrameStep::Ui { .. } => 46,
        FrameStep::EndWindow => 47,
        FrameStep::Capture { .. } => 48,
        FrameStep::ToPresent { .. } => 49,
        FrameStep::End => 50,
        FrameStep::Submit => 51,
        FrameStep::EndHeadset => 52,
        FrameStep::SaveCapture => 53,
        _ => 12,
    }
}

/// The steps come in order, each at most once but for those of views and for waiting, and all of
/// them from `lo` on and before `hi`.
pub open spec fn in_order(inputs: FrameInputs, steps: Seq<FrameStep>, lo: int, hi: int) -> bool {
    &&& forall|i: int|
        0 <= i < steps.len() && !((#[trigger] steps[i]) is WaitIdle) ==> lo <= moment(
            inputs,
            steps[i],
        ) < hi
    &&& forall|i: int, j: int|
        0 <= i < j < steps.len() && !((#[trigger] steps[i]) is WaitIdle) && !((
        #[trigger] steps[j]) is WaitIdle) ==> moment(inputs, steps[i]) < moment(inputs, steps[j])
            || of_a_view(steps[i]) && of_a_view(steps[j])
}

proof fn lemma_in_order_join(
    inputs: FrameInputs,
    a: Seq<FrameStep>,
    b: Seq<FrameStep>,
    lo: int,
    mid: int,
    hi: int,
)
    requires
        in_order(inputs, a, lo, mid),
        in_order(inputs, b, mid, hi),
        lo <= mid <= hi,
    ensures
        in_order(inputs, a + b, lo, hi),
{
    let s = a + b;
    assert forall|i: int| 0 <= i < s.len() && !((#[trigger] s[i]) is WaitIdle) implies lo <= moment(
        inputs,
        s[i],
    ) < hi by {
        if i < a.len() {
            assert(s[i] == a[i]);
        } else {
            assert(s[i] == b[i - a.len()]);
        }
    }
    assert forall|i: int, j: int|
        0 <= i < j < s.len() && !((#[trigger] s[i]) is WaitIdle) && !((
        #[trigger] s[j]) is WaitIdle) implies moment(inputs, s[i]) < moment(inputs, s[j])
        || of_a_view(s[i]) && of_a_view(s[j]) by {
        if i < a.len() {
            assert(s[i] == a[i]);
        } else {
            assert(s[i] == b[i - a.len()]);
        }
        if j < a.len() {
            assert(s[j] == a[j]);
        } else {
            assert(s[j] == b[j - a.len()]);
        }
    }
}

/// The views' own steps, and what stands around each reconstruction.
proof fn lemma_views_in_order(inputs: FrameInputs, n: nat)
    requires
        n <= inputs.views@.len(),
        forall|i: int| 0 <= i < inputs.views@.len() ==> (#[trigger] inputs.views@[i]).slot < 2,
    ensures
        forall|i: int|
            0 <= i < views_steps(inputs, n).len() ==> of_a_view(
                #[trigger] views_steps(inputs, n)[i],
            ),
        forall|i: int| #[trigger] traced_around(inputs, views_steps(inputs, n), i),
    decreases n,
{
    if n > 0 {
        let p = (n - 1) as nat;
        lemma_views_in_order(inputs, p);
        let a = views_steps(inputs, p);
        let v = inputs.views@[n - 1];
        let b = view_steps(inputs, v);
        let s = views_steps(inputs, n);
        assert forall|i: int| 0 <= i < s.len() implies of_a_view(#[trigger] s[i]) by {
            if i < a.len() {
                assert(s[i] == a[i]);
            } else {
                assert(s[i] == b[i - a.len()]);
            }
        }
        assert forall|i: int| #[trigger] traced_around(inputs, s, i) by {
            if 0 <= i < a.len() {
                assert(traced_around(inputs, a, i));
                assert(s[i] == a[i]);
            } else if a.len() <= i < s.len() {
                let k = i - a.len();
                assert(s[i] == b[k]);
                if s[i] is Evaluate {
                    assert(k == 6);
                    assert(s[i - 6] == b[0] && s[i - 5] == b[1] && s[i - 4] == b[2]);
                    assert(s[i - 3] == b[3] && s[i - 2] == b[4] && s[i - 1] == b[5]);
                    assert(s[i + 1] == b[7]);
                }
            }
        }
    }
}

/// Where step `i` is a reconstruction: the view's own set was written and bound, its reservoirs
/// and constants set up, and the view traced, right before it, and the frame counts as metered
/// right behind it.
pub open spec fn traced_around(inputs: FrameInputs, s: Seq<FrameStep>, i: int) -> bool {
    0 <= i < s.len() && s[i] is Evaluate ==> {
        let slot = s[i]->Evaluate_slot;
        let own = 2 * (inputs.frame_count as int % 2) + slot;
        &&& 6 <= i
        &&& i + 1 < s.len()
        &&& s[i - 6] is WriteRaySet
        &&& s[i - 6]->WriteRaySet_slot == slot
        &&& s[i - 6]->WriteRaySet_set == own
        &&& s[i - 5] is BindRaySet
        &&& s[i - 5]->BindRaySet_set == own
        &&& s[i - 4] is Reservoirs
        &&& s[i - 4]->Reservoirs_slot == slot
        &&& s[i - 3] is PushRayConstants
        &&& s[i - 3]->PushRayConstants_slot == slot
        &&& s[i - 2] is PreTrace
        &&& s[i - 2]->PreTrace_slot == slot
        &&& s[i - 1] is Trace
        &&& s[i - 1]->Trace_slot == slot
        &&& s[i + 1] is Metered
    }
}

proof fn lemma_opening_order(inputs: FrameInputs)
    ensures
        in_order(inputs, opening_steps(inputs), 0, 10),
{
}

proof fn lemma_eye_order(inputs: FrameInputs, eye: usize, lo: int)
    requires
        inputs.headset,
        eye < 2,
        lo <= 20 + 5 * eye,
    ensures
        in_order(inputs, eye_steps(inputs, eye), lo, 25 + 5 * eye),
{
}

proof fn lemma_window_order(inputs: FrameInputs)
    ensures
        in_order(inputs, window_steps(inputs), 30, 48),
{
}

proof fn lemma_present_order(inputs: FrameInputs)
    ensures
        in_order(inputs, present_steps(inputs), 48, 54),
{
}

/// What is traced in two parts is traced in both together.
proof fn lemma_traced_join(inputs: FrameInputs, a: Seq<FrameStep>, b: Seq<FrameStep>)
    requires
        forall|i: int| #[trigger] traced_around(inputs, a, i),
        forall|i: int| #[trigger] traced_around(inputs, b, i),
    ensures
        forall|i: int| #[trigger] traced_around(inputs, a + b, i),
{
    let s = a + b;
    assert forall|i: int| #[trigger] traced_around(inputs, s, i) by {
        if 0 <= i < a.len() {
            assert(traced_around(inputs, a, i));
        } else if a.len() <= i < s.len() {
            assert(traced_around(inputs, b, i - a.len()));
        }
    }
}

/// Where nothing is reconstructed nothing need be traced.
proof fn lemma_untraced(inputs: FrameInputs, s: Seq<FrameStep>)
    requires
        forall|slot: usize, reset: bool|
            !(#[trigger] s.contains(FrameStep::Evaluate { slot, reset })),
    ensures
        forall|i: int| #[trigger] traced_around(inputs, s, i),
{
    assert forall|i: int| #[trigger] traced_around(inputs, s, i) by {
        if 0 <= i < s.len() && s[i] is Evaluate {
            let step = FrameStep::Evaluate {
                slot: s[i]->Evaluate_slot,
                reset: s[i]->Evaluate_reset,
            };
            assert(s[i] == step);
            assert(s.contains(step));
        }
    }
}

proof fn lemma_traced_around(inputs: FrameInputs)
    requires
        forall|i: int| 0 <= i < inputs.views@.len() ==> (#[trigger] inputs.views@[i]).slot < 2,
        inputs.window.width * inputs.window.height * 4 <= u64::MAX,
    ensures
        forall|i: int| #[trigger] traced_around(inputs, frame_steps(inputs), i),
{
    let start = opening_steps(inputs);
    let rays = seq![FrameStep::SkyTexture, FrameStep::BindRays];
    let views = views_steps(inputs, inputs.views@.len());
    let traced = steps_if(inputs.traces(), rays + views);
    let shown = inputs.headset && inputs.post_ready && inputs.ran();
    let left = eye_steps(inputs, 0);
    let right = eye_steps(inputs, 1);
    let eyes = steps_if(shown, left + right);
    let scene = scene_steps(inputs);
    let window = window_steps(inputs);
    let present = present_steps(inputs);
    assert(scene =~= start + traced + eyes);
    assert forall|slot: usize, reset: bool| !(#[trigger] start.contains(
        FrameStep::Evaluate { slot, reset },
    )) by {
        lemma_opening_has(inputs, FrameStep::Evaluate { slot, reset });
    }
    lemma_untraced(inputs, start);
    assert forall|slot: usize, reset: bool| !(#[trigger] rays.contains(
        FrameStep::Evaluate { slot, reset },
    )) by {
        lemma_rays_have(FrameStep::Evaluate { slot, reset });
    }
    lemma_untraced(inputs, rays);
    assert forall|slot: usize, reset: bool| !(#[trigger] eyes.contains(
        FrameStep::Evaluate { slot, reset },
    )) by {
        lemma_eye_has(inputs, 0, FrameStep::Evaluate { slot, reset });
        lemma_eye_has(inputs, 1, FrameStep::Evaluate { slot, reset });
        lemma_has_join(left, right, FrameStep::Evaluate { slot, reset });
    }
    lemma_untraced(inputs, eyes);
    assert forall|slot: usize, reset: bool| !(#[trigger] window.contains(
        FrameStep::Evaluate { slot, reset },
    )) by {
        lemma_window_has(inputs, FrameStep::Evaluate { slot, reset });
    }
    lemma_untraced(inputs, window);
    assert forall|slot: usize, reset: bool| !(#[trigger] present.contains(
        FrameStep::Evaluate { slot, reset },
    )) by {
        lemma_present_has(inputs, FrameStep::Evaluate { slot, reset });
    }
    lemma_untraced(inputs, present);
    lemma_views_in_order(inputs, inputs.views@.len());
    lemma_traced_join(inputs, rays, views);
    lemma_traced_join(inputs, start, traced);
    lemma_traced_join(inputs, start + traced, eyes);
    lemma_traced_join(inputs, scene, window);
    lemma_traced_join(inputs, scene + window, present);
}

/// A frame's steps come in order: the transforms before the skins that read them, those before
/// the scene that is built over them, all of it before any ray; every view's trace between the
/// two halves of its own reconstruction; every picture between the start and the end of its pass;
/// and the end and the submission after everything that is recorded.
pub proof fn lemma_frame_order(inputs: FrameInputs)
    requires
        forall|i: int| 0 <= i < inputs.views@.len() ==> (#[trigger] inputs.views@[i]).slot < 2,
        inputs.window.width * inputs.window.height * 4 <= u64::MAX,
    ensures
        in_order(inputs, frame_steps(inputs), 0, 54),
        forall|i: int| #[trigger] traced_around(inputs, frame_steps(inputs), i),
        // A serialised frame waits before it starts and after it is submitted, and a capture is
        // read only once the device is done with it.
        inputs.drain ==> frame_steps(inputs)[0] is WaitIdle,
        inputs.drain ==> exists|i: int, j: int|
            0 <= i < j < frame_steps(inputs).len() && (#[trigger] frame_steps(
                inputs,
            )[i]) is Submit && (#[trigger] frame_steps(inputs)[j]) is WaitIdle,
        inputs.capture ==> frame_steps(inputs).last() is SaveCapture && frame_steps(
            inputs,
        )[frame_steps(inputs).len() - 2] is WaitIdle,
{
    let start = opening_steps(inputs);
    let rays = seq![FrameStep::SkyTexture, FrameStep::BindRays];
    let views = views_steps(inputs, inputs.views@.len());
    let traced = steps_if(inputs.traces(), rays + views);
    let shown = inputs.headset && inputs.post_ready && inputs.ran();
    let left = eye_steps(inputs, 0);
    let right = eye_steps(inputs, 1);
    let eyes = steps_if(shown, left + right);
    let scene = scene_steps(inputs);
    let window = window_steps(inputs);
    let present = present_steps(inputs);
    let steps = frame_steps(inputs);
    lemma_views_in_order(inputs, inputs.views@.len());
    assert(scene =~= start + traced + eyes);
    lemma_opening_order(inputs);
    assert(in_order(inputs, rays, 10, 12));
    assert(in_order(inputs, views, 12, 13));
    lemma_in_order_join(inputs, rays, views, 10, 12, 13);
    assert(in_order(inputs, traced, 10, 13));
    lemma_in_order_join(inputs, start, traced, 0, 10, 13);
    if shown {
        lemma_eye_order(inputs, 0, 13);
        lemma_eye_order(inputs, 1, 25);
        lemma_in_order_join(inputs, left, right, 13, 25, 30);
    }
    assert(in_order(inputs, eyes, 13, 30));
    lemma_in_order_join(inputs, start + traced, eyes, 0, 13, 30);
    lemma_window_order(inputs);
    lemma_present_order(inputs);
    lemma_in_order_join(inputs, scene, window, 0, 30, 48);
    lemma_in_order_join(inputs, scene + window, present, 0, 48, 54);
    lemma_traced_around(inputs);
    if inputs.drain {
        assert(steps[0] == start[0]);
        let at = scene.len() + window.len() + if inputs.capture {
            3int
        } else {
            2int
        };
        let at_end = at + if inputs.headset {
            2int
        } else {
            1int
        };
        assert(steps[at] is Submit);
        assert(steps[at_end] is WaitIdle);
    }
}

// ---- what the pipelines are told
// ------------------------------------------------------------------

/// What a trace is told: addresses, and the sky's texture.
#[derive(Clone, Copy, Debug, PartialEq, Eq, Structural)]
pub struct RaytracingPushConstants {
    pub uniform_buffer: u64,
    pub material_buffer: u64,
    pub bluenoise_buffer2: u64,
    pub focus_buffer: u64,
    pub sky_texture: u32,
    pub padding: u32,
    pub prev_instances: u64,
    pub lights: u64,
    pub instances: u64,
    pub reservoirs_prev: u64,
    pub reservoirs_cur: u64,
    pub sharc: u64,
    pub lum_buffer: u64,
    pub auto_exposure: u64,
}

/// Where the instances stand on the device.
#[derive(Clone, Copy, Debug, PartialEq, Eq, Structural)]
pub struct SceneAddresses {
    pub materials: u64,
    pub instances: u64,
    pub prev_instances: u64,
    pub bluenoise: u64,
    pub focus: u64,
}

/// What the trace of a view is told.
pub open spec fn ray_constants_of(
    uniforms: u64,
    scene: SceneAddresses,
    sky_texture: u32,
    lights: LightManager,
    restir: RestirState,
    frame: u32,
    view: usize,
    sharc: SharcState,
    exposure: AutoExposureState,
) -> RaytracingPushConstants {
    RaytracingPushConstants {
        uniform_buffer: uniforms,
        material_buffer: scene.materials,
        bluenoise_buffer2: scene.bluenoise,
        focus_buffer: scene.focus,
        sky_texture,
        padding: 0,
        prev_instances: scene.prev_instances,
        lights: lights.header.address,
        instances: scene.instances,
        reservoirs_prev: restir.ping_pong(frame, view).0,
        reservoirs_cur: restir.ping_pong(frame, view).1,
        sharc: sharc.buffer.address,
        lum_buffer: exposure.lum.address,
        auto_exposure: exposure.state.address,
    }
}

/// What the trace of a view is told.
pub fn ray_constants(
    uniforms: u64,
    scene: SceneAddresses,
    sky_texture: u32,
    lights: &LightManager,
    restir: &RestirState,
    frame: u32,
    view: usize,
    sharc: &SharcState,
    exposure: &AutoExposureState,
) -> (r: RaytracingPushConstants)
    requires
        view < 2,
    ensures
        r == (RaytracingPushConstants {
            uniform_buffer: uniforms,
            material_buffer: scene.materials,
            bluenoise_buffer2: scene.bluenoise,
            focus_buffer: scene.focus,
            sky_texture,
            padding: 0,
            prev_instances: scene.prev_instances,
            lights: lights.header.address,
            instances: scene.instances,
            reservoirs_prev: restir.ping_pong(frame, view).0,
            reservoirs_cur: restir.ping_pong(frame, view).1,
            sharc: sharc.buffer.address,
            lum_buffer: exposure.lum.address,
            auto_exposure: exposure.state.address,
        }),
        r == ray_constants_of(
            uniforms,
            scene,
            sky_texture,
            *lights,
            *restir,
            frame,
            view,
            *sharc,
            *exposure,
        ),
{
    let (reservoirs_prev, reservoirs_cur): (u64, u64) = restir.addresses(frame, view);
    let (lum_buffer, auto_exposure): (u64, u64) = exposure.addresses();
    RaytracingPushConstants {
        uniform_buffer: uniforms,
        material_buffer: scene.materials,
        bluenoise_buffer2: scene.bluenoise,
        focus_buffer: scene.focus,
        sky_texture,
        padding: 0,
        prev_instances: scene.prev_instances,
        lights: lights.header_address(),
        instances: scene.instances,
        reservoirs_prev,
        reservoirs_cur,
        sharc: sharc.address(),
        lum_buffer,
        auto_exposure,
    }
}

/// What a final draw is told.
#[derive(Clone, Copy, Debug, PartialEq, Eq, Structural)]
pub struct PostProcessPushConstants {
    pub uniforms: u64,
    pub auto_exposure: u64,
    pub display_exposure: u32,
    pub debug_view: u32,
}

/// What a final draw is told.
pub open spec fn post_constants_of(
    uniforms: u64,
    exposure: AutoExposureState,
    display_exposure: u32,
    view: Option<AuroraDebugView>,
) -> PostProcessPushConstants {
    PostProcessPushConstants {
        uniforms,
        auto_exposure: exposure.state.address,
        display_exposure,
        debug_view: match view {
            Some(view) => view.index() as u32,
            None => 0,
        },
    }
}

/// What a final draw is told; a camera without a debug view shows the picture.
pub fn post_constants(
    uniforms: u64,
    exposure: &AutoExposureState,
    display_exposure: u32,
    view: Option<AuroraDebugView>,
) -> (r: PostProcessPushConstants)
    ensures
        r == (PostProcessPushConstants {
            uniforms,
            auto_exposure: exposure.state.address,
            display_exposure,
            debug_view: match view {
                Some(view) => view.index() as u32,
                None => 0,
            },
        }),
        r == post_constants_of(uniforms, *exposure, display_exposure, view),
{
    let debug_view: u32 = match view {
        Some(view) => view.shader_index(),
        None => AuroraDebugView::Picture.shader_index(),
    };
    PostProcessPushConstants {
        uniforms,
        auto_exposure: exposure.addresses().1,
        display_exposure,
        debug_view,
    }
}

/// What rays are told is what the kernels of the same frame work on. The lights' header is the one
/// that the sum of their weights goes to, and their instances are those that the weights were
/// computed from; the luminance is the one that is metered, and the exposure the one that metering
/// resolves and that the final draw is told of too; the cache is the one that is resolved. The
/// reservoirs that one frame writes are the next frame's history.
pub proof fn lemma_rays_are_told(
    uniforms: u64,
    scene: SceneAddresses,
    sky_texture: u32,
    lights: LightManager,
    restir: RestirState,
    frame: u32,
    view: usize,
    sharc: SharcState,
    exposure: AutoExposureState,
    input: MeterInput,
    display_exposure: u32,
    debug: Option<AuroraDebugView>,
)
    ensures
        ({
            let r = ray_constants_of(
                uniforms,
                scene,
                sky_texture,
                lights,
                restir,
                frame,
                view,
                sharc,
                exposure,
            );
            let next = ray_constants_of(
                uniforms,
                scene,
                sky_texture,
                lights,
                restir,
                if frame == u32::MAX {
                    0
                } else {
                    (frame + 1) as u32
                },
                view,
                sharc,
                exposure,
            );
            let post = post_constants_of(uniforms, exposure, display_exposure, debug);
            &&& lights.power_commands(r.instances)[0] matches Command::Dispatch {
                params: Params::LightPower(p),
                ..
            } && p.instances == r.instances
            &&& lights.power_commands(r.instances)[2] matches Command::Dispatch {
                params: Params::LightScan(p),
                ..
            } && p.header == r.lights
            &&& exposure.metering_commands(input)[3] matches Command::Dispatch {
                params: Params::Ae(p),
                ..
            } && p.lum == r.lum_buffer && p.state == r.auto_exposure
            &&& post.auto_exposure == r.auto_exposure
            &&& post.uniforms == r.uniform_buffer
            &&& post.display_exposure == display_exposure
            &&& debug is None ==> post.debug_view == 0
            &&& sharc.resolve_commands(frame)[0] matches Command::Dispatch {
                params: Params::SharcResolve(p),
                ..
            } && p.entries == r.sharc
            &&& next.reservoirs_prev == r.reservoirs_cur
            &&& next.reservoirs_cur == r.reservoirs_prev
            &&& r.sky_texture == sky_texture
            &&& r.instances == scene.instances
            &&& r.prev_instances == scene.prev_instances
            &&& r.material_buffer == scene.materials
            &&& r.bluenoise_buffer2 == scene.bluenoise
            &&& r.focus_buffer == scene.focus
            &&& r.uniform_buffer == uniforms
        }),
{
}

/// What the shaders are told follows the switches: a light table, a reservoir pass, a cache or an
/// environment that is off or not there is told of as nothing, and one that is on as it is; counts
/// stay where they were while they are permitted.
pub proof fn lemma_uniforms_follow(
    state: DevUIState,
    sky: Sky,
    focus: Option<Pixel>,
    frame: u32,
    active_entries: u32,
    epoch: u32,
    env: u64,
)
    ensures
        ({
            let r = uniform_words(state, sky, focus, frame, active_entries, epoch, env);
            &&& r.frame == frame
            &&& r.light_epoch == epoch
            &&& r.env == env
            &&& r.light_entries == active_entries || !state.light_nee && r.light_entries == 0
            &&& !state.light_nee ==> r.light_entries == 0
            &&& r.restir_candidates == 0 <==> !state.restir
            &&& r.restir_candidates <= 32
            &&& state.restir && 1 <= state.restir_candidates <= 32 ==> r.restir_candidates
                == state.restir_candidates
            &&& r.sharc == 1 <==> state.sharc
            &&& r.sharc == 0 <==> !state.sharc
            &&& r.samples >= 1 && r.max_bounces >= 1
            &&& state.samples >= 1 ==> r.samples == state.samples
            &&& state.max_bounces >= 1 ==> r.max_bounces == state.max_bounces
            &&& env == 0 ==> r.env_w == 0 && r.env_h == 0
            &&& env != 0 ==> r.env_w == ENV_W && r.env_h == ENV_H
            &&& focus matches Some(p) ==> r.pull_focus_x == p.x && r.pull_focus_y == p.y
            &&& focus is None ==> r.pull_focus_x == 0xFFFF_FFFF && r.pull_focus_y == 0xFFFF_FFFF
        }),
{
}

/// The guides are bound to the rays in the order in which the reconstruction has them, laid out to
/// be written; and the final draw, where it shows one, finds each of them again, laid out as the
/// reconstruction left it, behind the picture. Without guides it finds the picture everywhere.
pub proof fn lemma_guides_bound(g: GuideViews, source: u64)
    ensures
        ({
            let rays = ray_images(g);
            let post = post_images(source, Some(g));
            let bare = post_images(source, None);
            let views = guides_of(
                DlssImages {
                    color: g.color,
                    normal_roughness: g.normal_roughness,
                    diffuse: g.diffuse,
                    specular: g.specular,
                    depth: g.depth,
                    spec_hit: g.spec_hit,
                    motion: g.motion,
                    exposure: 0,
                    output: 0,
                },
            );
            &&& rays.len() == 7 && post.len() == 8 && bare.len() == 8
            &&& forall|i: int|
                0 <= i < 7 ==> {
                    let b = #[trigger] rays[i];
                    &&& b.view == views[i]
                    &&& b.binding == i + 1
                    &&& b.layout == to_rays(true).to
                }
            &&& forall|i: int|
                0 <= i < 8 ==> (#[trigger] post[i]).binding == i && (i > 0 ==> post[i].view
                    == rays[(i + 5) % 7].view && post[i].layout
                    == to_driver().to)
            &&& post[0].view == source
            &&& post[0].layout == output_to_driver().to
            &&& forall|i: int|
                0 <= i < 8 ==> (#[trigger] bare[i]).view == source && bare[i].binding == i
                    && bare[i].layout == post[0].layout
        }),
{
}

} // verus!
