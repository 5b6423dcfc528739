//! The driver's parameters: what a feature is created and evaluated with, and what its result
//! codes are called. Numbers with a fraction are bit patterns; device objects are addresses.

use crate::text::{append_number, hex};
use vstd::prelude::*;
use vstd::string::*;

verus! {

pub const RESULT_SUCCESS: u32 = 0x1;

pub const RESULT_FAIL: u32 = 0xBAD0_0000;

pub const FEATURE_SUPERSAMPLING: u32 = 1;

pub const FEATURE_RAY_RECONSTRUCTION: u32 = 13;

pub const LOGGING_LEVEL_OFF: u32 = 0;

pub const LOGGING_LEVEL_ON: u32 = 1;

pub const LOGGING_LEVEL_VERBOSE: u32 = 2;

pub const DLSS_FLAG_IS_HDR: i32 = 1;

pub const DLSS_FLAG_MV_LOW_RES: i32 = 2;

pub const DENOISE_MODE_DL_UNIFIED: u32 = 1;

pub const ROUGHNESS_MODE_PACKED: u32 = 1;

pub const DEPTH_TYPE_LINEAR: u32 = 0;

/// The bit pattern of the number one.
pub const ONE_BITS: u32 = 0x3F80_0000;

/// A parameter block of the driver, by its address.
#[derive(Clone, Copy, Debug, PartialEq, Eq, Structural)]
pub struct NgxParameter {
    pub address: u64,
}

/// A feature of the driver, by its address.
#[derive(Clone, Copy, Debug, PartialEq, Eq, Structural)]
pub struct NgxHandle {
    pub address: u64,
}

/// A list of directories, by its address and length.
#[derive(Clone, Copy, Debug, PartialEq, Eq, Structural)]
pub struct NgxPathListInfo {
    pub path: u64,
    pub length: u32,
}

/// What a ray-reconstruction feature is created with.
#[derive(Clone, Copy, Debug, PartialEq, Eq, Structural)]
pub struct NgxDlssdCreateParams {
    pub denoise_mode: u32,
    pub roughness_mode: u32,
    pub use_hw_depth: u32,
    pub width: u32,
    pub height: u32,
    pub target_width: u32,
    pub target_height: u32,
    pub perf_quality_value: i32,
    pub feature_create_flags: i32,
    pub enable_output_subrects: bool,
    /// The preset, for every mode alike.
    pub render_preset: u32,
}

/// What a plain upscaling feature is created with.
#[derive(Clone, Copy, Debug, PartialEq, Eq, Structural)]
pub struct NgxDlssCreateParams {
    pub width: u32,
    pub height: u32,
    pub target_width: u32,
    pub target_height: u32,
    pub perf_quality_value: i32,
    pub feature_create_flags: i32,
    pub enable_output_subrects: bool,
}

// ---- result codes -----------------------------------------------------------------------

/// What a result code is called.
pub open spec fn code_name(r: u32) -> Seq<char> {
    if r == RESULT_SUCCESS {
        "Success"@
    } else if r == 0xBAD0_0000 {
        "Fail"@
    } else if r == 0xBAD0_0001 {
        "FAIL_FeatureNotSupported"@
    } else if r == 0xBAD0_0002 {
        "FAIL_PlatformError"@
    } else if r == 0xBAD0_0003 {
        "FAIL_FeatureAlreadyExists"@
    } else if r == 0xBAD0_0004 {
        "FAIL_FeatureNotFound"@
    } else if r == 0xBAD0_0005 {
        "FAIL_InvalidParameter"@
    } else if r == 0xBAD0_0006 {
        "FAIL_ScratchBufferTooSmall"@
    } else if r == 0xBAD0_0007 {
        "FAIL_NotInitialized"@
    } else if r == 0xBAD0_0008 {
        "FAIL_UnsupportedInputFormat"@
    } else if r == 0xBAD0_0009 {
        "FAIL_RWFlagMissing"@
    } else if r == 0xBAD0_000A {
        "FAIL_MissingInput"@
    } else if r == 0xBAD0_000B {
        "FAIL_UnableToInitializeFeature"@
    } else if r == 0xBAD0_000C {
        "FAIL_OutOfDate"@
    } else if r == 0xBAD0_000D {
        "FAIL_OutOfGPUMemory"@
    } else if r == 0xBAD0_000E {
        "FAIL_UnsupportedFormat"@
    } else if r == 0xBAD0_000F {
        "FAIL_UnableToWriteToAppDataPath"@
    } else if r == 0xBAD0_0010 {
        "FAIL_UnsupportedParameter"@
    } else if r == 0xBAD0_0011 {
        "FAIL_Denied"@
    } else if r == 0xBAD0_0012 {
        "FAIL_NotImplemented"@
    } else {
        "Unknown"@
    }
}

fn code_text(r: u32) -> (s: &'static str)
    ensures
        s@ == code_name(r),
{
    if r == RESULT_SUCCESS {
        "Success"
    } else if r == 0xBAD0_0000 {
        "Fail"
    } else if r == 0xBAD0_0001 {
        "FAIL_FeatureNotSupported"
    } else if r == 0xBAD0_0002 {
        "FAIL_PlatformError"
    } else if r == 0xBAD0_0003 {
        "FAIL_FeatureAlreadyExists"
    } else if r == 0xBAD0_0004 {
        "FAIL_FeatureNotFound"
    } else if r == 0xBAD0_0005 {
        "FAIL_InvalidParameter"
    } else if r == 0xBAD0_0006 {
        "FAIL_ScratchBufferTooSmall"
    } else if r == 0xBAD0_0007 {
        "FAIL_NotInitialized"
    } else if r == 0xBAD0_0008 {
        "FAIL_UnsupportedInputFormat"
    } else if r == 0xBAD0_0009 {
        "FAIL_RWFlagMissing"
    } else if r == 0xBAD0_000A {
        "FAIL_MissingInput"
    } else if r == 0xBAD0_000B {
        "FAIL_UnableToInitializeFeature"
    } else if r == 0xBAD0_000C {
        "FAIL_OutOfDate"
    } else if r == 0xBAD0_000D {
        "FAIL_OutOfGPUMemory"
    } else if r == 0xBAD0_000E {
        "FAIL_UnsupportedFormat"
    } else if r == 0xBAD0_000F {
        "FAIL_UnableToWriteToAppDataPath"
    } else if r == 0xBAD0_0010 {
        "FAIL_UnsupportedParameter"
    } else if r == 0xBAD0_0011 {
        "FAIL_Denied"
    } else if r == 0xBAD0_0012 {
        "FAIL_NotImplemented"
    } else {
        "Unknown"
    }
}

/// A result code by its name and number.
pub open spec fn result_text(r: u32) -> Seq<char> {
    code_name(r) + " ("@ + hex(r as nat) + ")"@
}

/// A result code by its name and number.
pub fn result_name(r: u32) -> (s: String)
    ensures
        s@ == result_text(r),
{
    let mut s: String = String::from_str(code_text(r));
    s.append(" (");
    s.append("0x");
    append_number(&mut s, r as u64, 16);
    s.append(")");
    assert(s@ =~= result_text(r));
    s
}

/// Whether a call succeeded; else what it was and how it failed.
pub fn check(what: &str, r: u32) -> (result: Result<(), String>)
    ensures
        match result {
            Ok(_) => r == RESULT_SUCCESS,
            Err(text) => r != RESULT_SUCCESS && text@ == what@ + " -> "@ + result_text(r),
        },
{
    if r == RESULT_SUCCESS {
        return Ok(());
    }
    let mut text: String = String::from_str(what);
    text.append(" -> ");
    let name: String = result_name(r);
    text.append(name.as_str());
    Err(text)
}

/// A text as the driver reads it: the number of each character, then 0.
pub open spec fn wide_of(s: Seq<char>) -> Seq<i32> {
    s.map_values(|c: char| c as u32 as i32).push(0)
}

/// A text as the driver reads it.
pub fn wide(s: &str) -> (r: Vec<i32>)
    ensures
        r@ == wide_of(s@),
{
    let n: usize = s.unicode_len();
    let mut r: Vec<i32> = Vec::new();
    let mut i: usize = 0;
    while i < n
        invariant
            i <= n,
            n == s@.len(),
            r@ == s@.take(i as int).map_values(|c: char| c as u32 as i32),
        decreases n - i,
    {
        r.push(s.get_char(i) as u32 as i32);
        assert(r@ =~= s@.take(i + 1).map_values(|c: char| c as u32 as i32));
        i = i + 1;
    }
    assert(s@.take(i as int) =~= s@);
    r.push(0);
    r
}

// ---- parameters -------------------------------------------------------------------------------

/// The parameters that are set.
#[derive(Clone, Copy, Debug, PartialEq, Eq, Structural)]
pub enum Param {
    CreationNodeMask,
    VisibilityNodeMask,
    Width,
    Height,
    OutWidth,
    OutHeight,
    PerfQualityValue,
    RtxValue,
    FeatureCreateFlags,
    EnableOutputSubrects,
    DenoiseMode,
    RoughnessMode,
    UseHwDepth,
    PresetDlaa,
    PresetQuality,
    PresetBalanced,
    PresetPerformance,
    PresetUltraPerformance,
    PresetUltraQuality,
    Color,
    Output,
    Depth,
    MotionVectors,
    DiffuseAlbedo,
    SpecularAlbedo,
    GbufferNormals,
    SpecularHitDistance,
    GbufferRoughness,
    GbufferSpecularMvec,
    ExposureTexture,
    WorldToViewMatrix,
    ViewToClipMatrix,
    JitterOffsetX,
    JitterOffsetY,
    Reset,
    FrameTimeDelta,
    MvScaleX,
    MvScaleY,
    TonemapperType,
    PreExposure,
    ExposureScale,
    RenderSubrectWidth,
    RenderSubrectHeight,
    InputColorSubrectX,
    InputColorSubrectY,
    InputDepthSubrectX,
    InputDepthSubrectY,
    InputMvSubrectX,
    InputMvSubrectY,
    OutputSubrectX,
    OutputSubrectY,
}

impl Param {
    /// The name that the driver knows the parameter by.
    pub open spec fn spec_name(self) -> Seq<char> {
        match self {
            Param::CreationNodeMask => "CreationNodeMask"@,
            Param::VisibilityNodeMask => "VisibilityNodeMask"@,
            Param::Width => "Width"@,
            Param::Height => "Height"@,
            Param::OutWidth => "OutWidth"@,
            Param::OutHeight => "OutHeight"@,
            Param::PerfQualityValue => "PerfQualityValue"@,
            Param::RtxValue => "RTXValue"@,
            Param::FeatureCreateFlags => "DLSS.Feature.Create.Flags"@,
            Param::EnableOutputSubrects => "DLSS.Enable.Output.Subrects"@,
            Param::DenoiseMode => "DLSS.Denoise.Mode"@,
            Param::RoughnessMode => "DLSS.Roughness.Mode"@,
            Param::UseHwDepth => "DLSS.Use.HW.Depth"@,
            Param::PresetDlaa => "RayReconstruction.Hint.Render.Preset.DLAA"@,
            Param::PresetQuality => "RayReconstruction.Hint.Render.Preset.Quality"@,
            Param::PresetBalanced => "RayReconstruction.Hint.Render.Preset.Balanced"@,
            Param::PresetPerformance => "RayReconstruction.Hint.Render.Preset.Performance"@,
            Param::PresetUltraPerformance => "RayReconstruction.Hint.Render.Preset.UltraPerformance"@,
            Param::PresetUltraQuality => "RayReconstruction.Hint.Render.Preset.UltraQuality"@,
            Param::Color => "Color"@,
            Param::Output => "Output"@,
            Param::Depth => "Depth"@,
            Param::MotionVectors => "MotionVectors"@,
            Param::DiffuseAlbedo => "DLSS.Input.DiffuseAlbedo"@,
            Param::SpecularAlbedo => "DLSS.Input.SpecularAlbedo"@,
            Param::GbufferNormals => "GBuffer.Normals"@,
            Param::SpecularHitDistance => "DLSSD.SpecularHitDistance"@,
            Param::GbufferRoughness => "GBuffer.Roughness"@,
            Param::GbufferSpecularMvec => "GBuffer.SpecularMvec"@,
            Param::ExposureTexture => "ExposureTexture"@,
            Param::WorldToViewMatrix => "WorldToViewMatrix"@,
            Param::ViewToClipMatrix => "ViewToClipMatrix"@,
            Param::JitterOffsetX => "Jitter.Offset.X"@,
            Param::JitterOffsetY => "Jitter.Offset.Y"@,
            Param::Reset => "Reset"@,
            Param::FrameTimeDelta => "FrameTimeDeltaInMsec"@,
            Param::MvScaleX => "MV.Scale.X"@,
            Param::MvScaleY => "MV.Scale.Y"@,
            Param::TonemapperType => "TonemapperType"@,
            Param::PreExposure => "DLSS.Pre.Exposure"@,
            Param::ExposureScale => "DLSS.Exposure.Scale"@,
            Param::RenderSubrectWidth => "DLSS.Render.Subrect.Dimensions.Width"@,
            Param::RenderSubrectHeight => "DLSS.Render.Subrect.Dimensions.Height"@,
            Param::InputColorSubrectX => "DLSS.Input.Color.Subrect.Base.X"@,
            Param::InputColorSubrectY => "DLSS.Input.Color.Subrect.Base.Y"@,
            Param::InputDepthSubrectX => "DLSS.Input.Depth.Subrect.Base.X"@,
            Param::InputDepthSubrectY => "DLSS.Input.Depth.Subrect.Base.Y"@,
            Param::InputMvSubrectX => "DLSS.Input.MV.Subrect.Base.X"@,
            Param::InputMvSubrectY => "DLSS.Input.MV.Subrect.Base.Y"@,
            Param::OutputSubrectX => "DLSS.Output.Subrect.Base.X"@,
            Param::OutputSubrectY => "DLSS.Output.Subrect.Base.Y"@,
        }
    }

    /// The name that the driver knows the parameter by.
    pub fn name(&self) -> (r: &'static str)
        ensures
            r@ == self.spec_name(),
    {
        match self {
            Param::CreationNodeMask => "CreationNodeMask",
            Param::VisibilityNodeMask => "VisibilityNodeMask",
            Param::Width => "Width",
            Param::Height => "Height",
            Param::OutWidth => "OutWidth",
            Param::OutHeight => "OutHeight",
            Param::PerfQualityValue => "PerfQualityValue",
            Param::RtxValue => "RTXValue",
            Param::FeatureCreateFlags => "DLSS.Feature.Create.Flags",
            Param::EnableOutputSubrects => "DLSS.Enable.Output.Subrects",
            Param::DenoiseMode => "DLSS.Denoise.Mode",
            Param::RoughnessMode => "DLSS.Roughness.Mode",
            Param::UseHwDepth => "DLSS.Use.HW.Depth",
            Param::PresetDlaa => "RayReconstruction.Hint.Render.Preset.DLAA",
            Param::PresetQuality => "RayReconstruction.Hint.Render.Preset.Quality",
            Param::PresetBalanced => "RayReconstruction.Hint.Render.Preset.Balanced",
            Param::PresetPerformance => "RayReconstruction.Hint.Render.Preset.Performance",
            Param::PresetUltraPerformance => "RayReconstruction.Hint.Render.Preset.UltraPerformance",
            Param::PresetUltraQuality => "RayReconstruction.Hint.Render.Preset.UltraQuality",
            Param::Color => "Color",
            Param::Output => "Output",
            Param::Depth => "Depth",
            Param::MotionVectors => "MotionVectors",
            Param::DiffuseAlbedo => "DLSS.Input.DiffuseAlbedo",
            Param::SpecularAlbedo => "DLSS.Input.SpecularAlbedo",
            Param::GbufferNormals => "GBuffer.Normals",
            Param::SpecularHitDistance => "DLSSD.SpecularHitDistance",
            Param::GbufferRoughness => "GBuffer.Roughness",
            Param::GbufferSpecularMvec => "GBuffer.SpecularMvec",
            Param::ExposureTexture => "ExposureTexture",
            Param::WorldToViewMatrix => "WorldToViewMatrix",
            Param::ViewToClipMatrix => "ViewToClipMatrix",
            Param::JitterOffsetX => "Jitter.Offset.X",
            Param::JitterOffsetY => "Jitter.Offset.Y",
            Param::Reset => "Reset",
            Param::FrameTimeDelta => "FrameTimeDeltaInMsec",
            Param::MvScaleX => "MV.Scale.X",
            Param::MvScaleY => "MV.Scale.Y",
            Param::TonemapperType => "TonemapperType",
            Param::PreExposure => "DLSS.Pre.Exposure",
            Param::ExposureScale => "DLSS.Exposure.Scale",
            Param::RenderSubrectWidth => "DLSS.Render.Subrect.Dimensions.Width",
            Param::RenderSubrectHeight => "DLSS.Render.Subrect.Dimensions.Height",
            Param::InputColorSubrectX => "DLSS.Input.Color.Subrect.Base.X",
            Param::InputColorSubrectY => "DLSS.Input.Color.Subrect.Base.Y",
            Param::InputDepthSubrectX => "DLSS.Input.Depth.Subrect.Base.X",
            Param::InputDepthSubrectY => "DLSS.Input.Depth.Subrect.Base.Y",
            Param::InputMvSubrectX => "DLSS.Input.MV.Subrect.Base.X",
            Param::InputMvSubrectY => "DLSS.Input.MV.Subrect.Base.Y",
            Param::OutputSubrectX => "DLSS.Output.Subrect.Base.X",
            Param::OutputSubrectY => "DLSS.Output.Subrect.Base.Y",
        }
    }
}

/// What a parameter is set to.
#[derive(Clone, Copy, Debug, PartialEq, Eq, Structural)]
pub enum Value {
    Unsigned(u32),
    Signed(i32),
    /// A number with a fraction, by its bits.
    Number(u32),
    /// An object, by its address; 0 for none.
    Object(u64),
}

/// One parameter that is set.
#[derive(Clone, Copy, Debug, PartialEq, Eq, Structural)]
pub struct Setting {
    pub param: Param,
    pub value: Value,
}

/// One parameter that is set.
pub open spec fn set_param(param: Param, value: Value) -> Setting {
    Setting { param, value }
}

/// A switch, as the driver reads it.
pub open spec fn switch(on: bool) -> i32 {
    if on {
        1
    } else {
        0
    }
}

fn push_setting(out: &mut Vec<Setting>, param: Param, value: Value)
    ensures
        final(out)@ == old(out)@.push(set_param(param, value)),
{
    out.push(Setting { param, value });
}

/// What every feature is created with, in order.
pub open spec fn size_settings(
    width: u32,
    height: u32,
    target_width: u32,
    target_height: u32,
    quality: i32,
    flags: i32,
    subrects: bool,
) -> Seq<Setting> {
    seq![
        set_param(Param::CreationNodeMask, Value::Unsigned(1)),
        set_param(Param::VisibilityNodeMask, Value::Unsigned(1)),
        set_param(Param::Width, Value::Unsigned(width)),
        set_param(Param::Height, Value::Unsigned(height)),
        set_param(Param::OutWidth, Value::Unsigned(target_width)),
        set_param(Param::OutHeight, Value::Unsigned(target_height)),
        set_param(Param::PerfQualityValue, Value::Signed(quality)),
        set_param(Param::FeatureCreateFlags, Value::Signed(flags)),
        set_param(Param::EnableOutputSubrects, Value::Signed(switch(subrects))),
    ]
}

/// What a ray-reconstruction feature is created with beside that, in order.
pub open spec fn denoiser_settings(create: NgxDlssdCreateParams) -> Seq<Setting> {
    let preset = Value::Unsigned(create.render_preset);
    seq![
        set_param(Param::DenoiseMode, Value::Signed(create.denoise_mode as i32)),
        set_param(Param::RoughnessMode, Value::Unsigned(create.roughness_mode)),
        set_param(Param::UseHwDepth, Value::Unsigned(create.use_hw_depth)),
        set_param(Param::PresetDlaa, preset),
        set_param(Param::PresetQuality, preset),
        set_param(Param::PresetBalanced, preset),
        set_param(Param::PresetPerformance, preset),
        set_param(Param::PresetUltraPerformance, preset),
        set_param(Param::PresetUltraQuality, preset),
    ]
}

fn sizes(
    width: u32,
    height: u32,
    target_width: u32,
    target_height: u32,
    quality: i32,
    flags: i32,
    subrects: bool,
) -> (out: Vec<Setting>)
    ensures
        out@ == size_settings(
            width,
            height,
            target_width,
            target_height,
            quality,
            flags,
            subrects,
        ),
{
    let mut out: Vec<Setting> = Vec::new();
    push_setting(&mut out, Param::CreationNodeMask, Value::Unsigned(1));
    push_setting(&mut out, Param::VisibilityNodeMask, Value::Unsigned(1));
    push_setting(&mut out, Param::Width, Value::Unsigned(width));
    push_setting(&mut out, Param::Height, Value::Unsigned(height));
    push_setting(&mut out, Param::OutWidth, Value::Unsigned(target_width));
    push_setting(&mut out, Param::OutHeight, Value::Unsigned(target_height));
    push_setting(&mut out, Param::PerfQualityValue, Value::Signed(quality));
    push_setting(&mut out, Param::FeatureCreateFlags, Value::Signed(flags));
    let on: i32 = if subrects {
        1
    } else {
        0
    };
    push_setting(&mut out, Param::EnableOutputSubrects, Value::Signed(on));
    assert(out@ =~= size_settings(
        width,
        height,
        target_width,
        target_height,
        quality,
        flags,
        subrects,
    ));
    out
}

/// What a ray-reconstruction feature is created with.
pub fn create_dlssd_feature(create: &NgxDlssdCreateParams) -> (out: Vec<Setting>)
    requires
        create.denoise_mode <= i32::MAX,
    ensures
        out@ == size_settings(
            create.width,
            create.height,
            create.target_width,
            create.target_height,
            create.perf_quality_value,
            create.feature_create_flags,
            create.enable_output_subrects,
        ) + denoiser_settings(*create),
{
    let mut out: Vec<Setting> = sizes(
        create.width,
        create.height,
        create.target_width,
        create.target_height,
        create.perf_quality_value,
        create.feature_create_flags,
        create.enable_output_subrects,
    );
    let ghost before = out@;
    let preset: Value = Value::Unsigned(create.render_preset);
    push_setting(&mut out, Param::DenoiseMode, Value::Signed(create.denoise_mode as i32));
    push_setting(&mut out, Param::RoughnessMode, Value::Unsigned(create.roughness_mode));
    push_setting(&mut out, Param::UseHwDepth, Value::Unsigned(create.use_hw_depth));
    push_setting(&mut out, Param::PresetDlaa, preset);
    push_setting(&mut out, Param::PresetQuality, preset);
    push_setting(&mut out, Param::PresetBalanced, preset);
    push_setting(&mut out, Param::PresetPerformance, preset);
    push_setting(&mut out, Param::PresetUltraPerformance, preset);
    push_setting(&mut out, Param::PresetUltraQuality, preset);
    assert(out@ =~= before + denoiser_settings(*create));
    out
}

/// What a plain upscaling feature is created with.
pub fn create_dlss_feature(create: &NgxDlssCreateParams) -> (out: Vec<Setting>)
    ensures
        out@ == size_settings(
            create.width,
            create.height,
            create.target_width,
            create.target_height,
            create.perf_quality_value,
            create.feature_create_flags,
            create.enable_output_subrects,
        ),
{
    sizes(
        create.width,
        create.height,
        create.target_width,
        create.target_height,
        create.perf_quality_value,
        create.feature_create_flags,
        create.enable_output_subrects,
    )
}

/// What the driver is asked the best traced size with.
pub fn optimal_settings_query(width: u32, height: u32, quality: i32) -> (out: Vec<Setting>)
    ensures
        out@ == seq![
            set_param(Param::Width, Value::Unsigned(width)),
            set_param(Param::Height, Value::Unsigned(height)),
            set_param(Param::PerfQualityValue, Value::Signed(quality)),
            set_param(Param::RtxValue, Value::Signed(0)),
        ],
{
    let mut out: Vec<Setting> = Vec::new();
    push_setting(&mut out, Param::Width, Value::Unsigned(width));
    push_setting(&mut out, Param::Height, Value::Unsigned(height));
    push_setting(&mut out, Param::PerfQualityValue, Value::Signed(quality));
    push_setting(&mut out, Param::RtxValue, Value::Signed(0));
    assert(out@ =~= seq![
        set_param(Param::Width, Value::Unsigned(width)),
        set_param(Param::Height, Value::Unsigned(height)),
        set_param(Param::PerfQualityValue, Value::Signed(quality)),
        set_param(Param::RtxValue, Value::Signed(0)),
    ]);
    out
}

/// The render sizes that the driver answers for an output size.
#[derive(Clone, Copy, Debug)]
pub struct OptimalSettings {
    pub optimal: (u32, u32),
    pub min: (u32, u32),
    pub max: (u32, u32),
}

/// A number that the driver answered, or what stands in for it.
pub open spec fn answered(answer: Option<u32>, otherwise: u32) -> u32 {
    match answer {
        Some(n) => n,
        None => otherwise,
    }
}

fn answer_or(answer: Option<u32>, otherwise: u32) -> (r: u32)
    ensures
        r == answered(answer, otherwise),
{
    match answer {
        Some(n) => n,
        None => otherwise,
    }
}

/// The render sizes, out of what the driver answered: a size that it did not answer is 0, and a
/// bound that it did not answer is the size itself.
pub fn optimal_settings(
    optimal: (Option<u32>, Option<u32>),
    max: (Option<u32>, Option<u32>),
    min: (Option<u32>, Option<u32>),
) -> (r: OptimalSettings)
    ensures
        r.optimal == (answered(optimal.0, 0), answered(optimal.1, 0)),
        r.max == (answered(max.0, r.optimal.0), answered(max.1, r.optimal.1)),
        r.min == (answered(min.0, r.optimal.0), answered(min.1, r.optimal.1)),
{
    let width: u32 = answer_or(optimal.0, 0);
    let height: u32 = answer_or(optimal.1, 0);
    OptimalSettings {
        optimal: (width, height),
        max: (answer_or(max.0, width), answer_or(max.1, height)),
        min: (answer_or(min.0, width), answer_or(min.1, height)),
    }
}

/// The images that an evaluate reads and writes, and the camera's matrices, by address.
#[derive(Clone, Copy, Debug, PartialEq, Eq, Structural)]
pub struct EvaluateObjects {
    pub color: u64,
    pub output: u64,
    pub depth: u64,
    pub motion_vectors: u64,
    pub diffuse_albedo: u64,
    pub specular_albedo: u64,
    /// Roughness lies in the last channel.
    pub normals_roughness: u64,
    pub specular_hit_distance: u64,
    pub exposure: Option<u64>,
    pub world_to_view: u64,
    pub view_to_clip: u64,
}

/// The numbers of an evaluate; those with a fraction are bit patterns.
#[derive(Clone, Copy, Debug, PartialEq, Eq, Structural)]
pub struct EvaluateNumbers {
    pub jitter_x: u32,
    pub jitter_y: u32,
    pub reset: bool,
    pub frame_time_ms: u32,
    pub mv_scale_x: u32,
    pub mv_scale_y: u32,
    pub render_width: u32,
    pub render_height: u32,
}

/// The objects of an evaluate. Slots that are not used are cleared: the block is shared with
/// the creation, and remembers.
pub open spec fn object_settings(o: EvaluateObjects) -> Seq<Setting> {
    seq![
        set_param(Param::Color, Value::Object(o.color)),
        set_param(Param::Output, Value::Object(o.output)),
        set_param(Param::Depth, Value::Object(o.depth)),
        set_param(Param::MotionVectors, Value::Object(o.motion_vectors)),
        set_param(Param::DiffuseAlbedo, Value::Object(o.diffuse_albedo)),
        set_param(Param::SpecularAlbedo, Value::Object(o.specular_albedo)),
        set_param(Param::GbufferNormals, Value::Object(o.normals_roughness)),
        set_param(Param::SpecularHitDistance, Value::Object(o.specular_hit_distance)),
        set_param(Param::GbufferRoughness, Value::Object(0)),
        set_param(Param::GbufferSpecularMvec, Value::Object(0)),
        set_param(
            Param::ExposureTexture,
            Value::Object(
                match o.exposure {
                    Some(e) => e,
                    None => 0,
                },
            ),
        ),
        set_param(Param::WorldToViewMatrix, Value::Object(o.world_to_view)),
        set_param(Param::ViewToClipMatrix, Value::Object(o.view_to_clip)),
    ]
}

/// The numbers of an evaluate; the whole traced image is used.
pub open spec fn number_settings(n: EvaluateNumbers) -> Seq<Setting> {
    seq![
        set_param(Param::JitterOffsetX, Value::Number(n.jitter_x)),
        set_param(Param::JitterOffsetY, Value::Number(n.jitter_y)),
        set_param(Param::Reset, Value::Signed(switch(n.reset))),
        set_param(Param::FrameTimeDelta, Value::Number(n.frame_time_ms)),
        set_param(Param::MvScaleX, Value::Number(n.mv_scale_x)),
        set_param(Param::MvScaleY, Value::Number(n.mv_scale_y)),
        set_param(Param::TonemapperType, Value::Unsigned(0)),
        set_param(Param::PreExposure, Value::Number(ONE_BITS)),
        set_param(Param::ExposureScale, Value::Number(ONE_BITS)),
        set_param(Param::RenderSubrectWidth, Value::Unsigned(n.render_width)),
        set_param(Param::RenderSubrectHeight, Value::Unsigned(n.render_height)),
        set_param(Param::InputColorSubrectX, Value::Unsigned(0)),
        set_param(Param::InputColorSubrectY, Value::Unsigned(0)),
        set_param(Param::InputDepthSubrectX, Value::Unsigned(0)),
        set_param(Param::InputDepthSubrectY, Value::Unsigned(0)),
        set_param(Param::InputMvSubrectX, Value::Unsigned(0)),
        set_param(Param::InputMvSubrectY, Value::Unsigned(0)),
        set_param(Param::OutputSubrectX, Value::Unsigned(0)),
        set_param(Param::OutputSubrectY, Value::Unsigned(0)),
    ]
}

fn objects(o: &EvaluateObjects) -> (out: Vec<Setting>)
    ensures
        out@ == object_settings(*o),
{
    let mut out: Vec<Setting> = Vec::new();
    push_setting(&mut out, Param::Color, Value::Object(o.color));
    push_setting(&mut out, Param::Output, Value::Object(o.output));
    push_setting(&mut out, Param::Depth, Value::Object(o.depth));
    push_setting(&mut out, Param::MotionVectors, Value::Object(o.motion_vectors));
    push_setting(&mut out, Param::DiffuseAlbedo, Value::Object(o.diffuse_albedo));
    push_setting(&mut out, Param::SpecularAlbedo, Value::Object(o.specular_albedo));
    push_setting(&mut out, Param::GbufferNormals, Value::Object(o.normals_roughness));
    push_setting(&mut out, Param::SpecularHitDistance, Value::Object(o.specular_hit_distance));
    push_setting(&mut out, Param::GbufferRoughness, Value::Object(0));
    push_setting(&mut out, Param::GbufferSpecularMvec, Value::Object(0));
    let exposure: u64 = match o.exposure {
        Some(e) => e,
        None => 0,
    };
    push_setting(&mut out, Param::ExposureTexture, Value::Object(exposure));
    push_setting(&mut out, Param::WorldToViewMatrix, Value::Object(o.world_to_view));
    push_setting(&mut out, Param::ViewToClipMatrix, Value::Object(o.view_to_clip));
    assert(out@ =~= object_settings(*o));
    out
}

/// What an evaluate is run with, in order.
pub fn evaluate_dlssd(o: &EvaluateObjects, n: &EvaluateNumbers) -> (out: Vec<Setting>)
    ensures
        out@ == object_settings(*o) + number_settings(*n),
{
    let mut out: Vec<Setting> = objects(o);
    let ghost before = out@;
    push_setting(&mut out, Param::JitterOffsetX, Value::Number(n.jitter_x));
    push_setting(&mut out, Param::JitterOffsetY, Value::Number(n.jitter_y));
    let reset: i32 = if n.reset {
        1
    } else {
        0
    };
    push_setting(&mut out, Param::Reset, Value::Signed(reset));
    push_setting(&mut out, Param::FrameTimeDelta, Value::Number(n.frame_time_ms));
    push_setting(&mut out, Param::MvScaleX, Value::Number(n.mv_scale_x));
    push_setting(&mut out, Param::MvScaleY, Value::Number(n.mv_scale_y));
    push_setting(&mut out, Param::TonemapperType, Value::Unsigned(0));
    push_setting(&mut out, Param::PreExposure, Value::Number(ONE_BITS));
    push_setting(&mut out, Param::ExposureScale, Value::Number(ONE_BITS));
    push_setting(&mut out, Param::RenderSubrectWidth, Value::Unsigned(n.render_width));
    push_setting(&mut out, Param::RenderSubrectHeight, Value::Unsigned(n.render_height));
    push_setting(&mut out, Param::InputColorSubrectX, Value::Unsigned(0));
    push_setting(&mut out, Param::InputColorSubrectY, Value::Unsigned(0));
    push_setting(&mut out, Param::InputDepthSubrectX, Value::Unsigned(0));
    push_setting(&mut out, Param::InputDepthSubrectY, Value::Unsigned(0));
    push_setting(&mut out, Param::InputMvSubrectX, Value::Unsigned(0));
    push_setting(&mut out, Param::InputMvSubrectY, Value::Unsigned(0));
    push_setting(&mut out, Param::OutputSubrectX, Value::Unsigned(0));
    push_setting(&mut out, Param::OutputSubrectY, Value::Unsigned(0));
    assert(out@ =~= before + number_settings(*n));
    out
}

/// The driver is told to drop its history exactly where the evaluate says so, and for each of its
/// inputs the image that stands for it; the slots that are not used are cleared.
pub proof fn lemma_driver_told(o: EvaluateObjects, n: EvaluateNumbers)
    ensures
        ({
            let s = object_settings(o) + number_settings(n);
            let none: u64 = 0;
            &&& s.len() == 32
            &&& s.contains(set_param(Param::Reset, Value::Signed(1))) <==> n.reset
            &&& s.contains(set_param(Param::Reset, Value::Signed(0))) <==> !n.reset
            &&& s.contains(set_param(Param::Color, Value::Object(o.color)))
            &&& s.contains(set_param(Param::Output, Value::Object(o.output)))
            &&& s.contains(set_param(Param::Depth, Value::Object(o.depth)))
            &&& s.contains(set_param(Param::MotionVectors, Value::Object(o.motion_vectors)))
            &&& s.contains(set_param(Param::DiffuseAlbedo, Value::Object(o.diffuse_albedo)))
            &&& s.contains(set_param(Param::SpecularAlbedo, Value::Object(o.specular_albedo)))
            &&& s.contains(set_param(Param::GbufferNormals, Value::Object(o.normals_roughness)))
            &&& s.contains(
                set_param(Param::SpecularHitDistance, Value::Object(o.specular_hit_distance)),
            )
            &&& o.exposure is None ==> s.contains(
                set_param(Param::ExposureTexture, Value::Object(none)),
            )
            &&& o.exposure matches Some(e) ==> s.contains(
                set_param(Param::ExposureTexture, Value::Object(e)),
            )
            &&& s.contains(set_param(Param::WorldToViewMatrix, Value::Object(o.world_to_view)))
            &&& s.contains(set_param(Param::ViewToClipMatrix, Value::Object(o.view_to_clip)))
            &&& s.contains(set_param(Param::GbufferRoughness, Value::Object(none)))
            &&& s.contains(set_param(Param::GbufferSpecularMvec, Value::Object(none)))
            &&& s.contains(set_param(Param::JitterOffsetX, Value::Number(n.jitter_x)))
            &&& s.contains(set_param(Param::JitterOffsetY, Value::Number(n.jitter_y)))
            &&& s.contains(set_param(Param::MvScaleX, Value::Number(n.mv_scale_x)))
            &&& s.contains(set_param(Param::MvScaleY, Value::Number(n.mv_scale_y)))
            &&& s.contains(set_param(Param::FrameTimeDelta, Value::Number(n.frame_time_ms)))
            &&& s.contains(
                set_param(Param::RenderSubrectWidth, Value::Unsigned(n.render_width)),
            )
            &&& s.contains(
                set_param(Param::RenderSubrectHeight, Value::Unsigned(n.render_height)),
            )
        }),
{
    let a = object_settings(o);
    let b = number_settings(n);
    let s = a + b;
    assert forall|i: int| 0 <= i < 13 implies s.contains(#[trigger] a[i]) by {
        assert(s[i] == a[i]);
    }
    assert forall|i: int| 0 <= i < 19 implies s.contains(#[trigger] b[i]) by {
        assert(s[13 + i] == b[i]);
    }
    assert(s.contains(a[0]) && s.contains(a[1]) && s.contains(a[2]) && s.contains(a[3]));
    assert(s.contains(a[4]) && s.contains(a[5]) && s.contains(a[6]) && s.contains(a[7]));
    assert(s.contains(a[8]) && s.contains(a[9]) && s.contains(a[10]) && s.contains(a[11]));
    assert(s.contains(a[12]));
    assert(s.contains(b[0]) && s.contains(b[1]) && s.contains(b[2]) && s.contains(b[3]));
    assert(s.contains(b[4]) && s.contains(b[5]) && s.contains(b[9]) && s.contains(b[10]));
    assert forall|i: int| 0 <= i < s.len() && (#[trigger] s[i]).param == Param::Reset implies s[i]
        == b[2] by {
        if i < 13 {
            assert(s[i] == a[i]);
        } else {
            assert(s[i] == b[i - 13]);
        }
    }
}

} // verus!
