use aurora::aftermath::{
    dump_name, enable, must_wait, next_file, note_answer, note_device_lost, note_dump, on_panic,
    wait_for_dump, Answered, CrashWatch, DumpFile, DumpWait, PanicStep, WaitStep,
    ERROR_DEVICE_LOST, STATUS_COLLECTING_FAILED, STATUS_FINISHED, STATUS_NOT_STARTED,
};
use aurora::atmosphere::{AtmosphereBuffers, AtmosphereState, CloudSwitches};
use aurora::auto_exposure::{AuroraExposure, AutoExposureState};
use aurora::bits::{Vec2, Vec3, Vec4};
use aurora::commands::{Buffer, Command, SharcResolveParams};
use aurora::compute::{
    group_count, record_dispatch, CompiledComputeModule, MAX_GROUPS, MAX_THREADS,
};
use aurora::debug_view::AuroraDebugView;
use aurora::dev_ui::{
    agreed_lock, sync_dlss_mode, sync_exposure, sync_rr_preset, DevUIState, ExposureLock,
    ExposureSync,
};
use aurora::lights::LightManager;
use aurora::dlss::modes::{search_path, AuroraDlss, DevKeys, DlssState, RrPreset};
use aurora::dlss::ngx::{
    check, create_dlssd_feature, optimal_settings, result_name, wide, Param, Value,
};
use aurora::dlss::renderer::{
    create_params, start_session, DlssImages, DlssRenderer, Extent, Optimal, SessionAnswers,
    SessionRefused, ViewStep,
};
use aurora::env_light::{cell_of, pixel_layout, EnvLight, EnvStep, PixelLayout, SkyImage, ENV_W};
use aurora::procedural_mesh::{extract, fill_push, is_acceptable, ProceduralHeader, ProceduralSkip};
use aurora::ray_render_plugin::{
    choose_views, ensure_buffers, fill_uniforms, guide_writes, next_frame, on_shutdown,
    post_constants, ray_constants, record_post_draw, render_frame, set_focus_pulling, shutdown,
        trace_extent,
    update_render_window, FrameInputs, FrameStep, FrameView, GuideViews, LastRites, Missing, Pixel,
    ProjectionKind, SceneAddresses, UniformData, UniformWords, ViewHistory, NO_FOCUS,
};
use aurora::render_device::Doomed;
use aurora::render_texture::ImageLayout;
use aurora::restir::RestirState;
use aurora::sharc::SharcState;
use aurora::sky::Sky;

fn buffer(n: u64) -> Buffer {
    Buffer { handle: n, address: n * 0x1000, len: 1 }
}

fn extent(width: u32, height: u32) -> Extent {
    Extent { width, height }
}

fn inputs() -> FrameInputs {
    FrameInputs {
        headset: false,
        views: vec![FrameView { slot: 0, plan: Some(extent(960, 540)), images: true }],
        drain: false,
        reset: true,
        rays_ready: true,
        scene_ready: true,
        records_ready: true,
        post_ready: true,
        capture: false,
        cache: true,
        frame_count: 7,
        window: extent(1920, 1080),
        trace: extent(960, 540),
    }
}

#[test]
fn a_flat_frame() {
    let steps = render_frame(&inputs());
    assert_eq!(
        steps,
        vec![
            FrameStep::Acquire,
            FrameStep::Tick,
            FrameStep::Begin { parity: 1 },
            FrameStep::Transforms,
            FrameStep::Skins,
            FrameStep::Scene,
            FrameStep::Lights,
            FrameStep::Cache { enabled: true },
            FrameStep::Exposure { trace: extent(960, 540) },
            FrameStep::SkyTexture,
            FrameStep::BindRays,
            FrameStep::WriteRaySet { slot: 0, set: 2, guides: true },
            FrameStep::BindRaySet { set: 2 },
            FrameStep::Reservoirs { slot: 0, trace: extent(960, 540) },
            FrameStep::PushRayConstants { slot: 0 },
            FrameStep::PreTrace { slot: 0 },
            FrameStep::Trace { slot: 0, size: extent(960, 540) },
            FrameStep::Evaluate { slot: 0, reset: true },
            FrameStep::Metered,
            FrameStep::WindowToAttachment,
            FrameStep::BeginWindow,
            FrameStep::PictureViewport { letterbox: false },
            FrameStep::PostDraw { source: 0, set: 3 },
            FrameStep::WindowViewport,
            FrameStep::Gizmos { parity: 1 },
            FrameStep::Ui { parity: 1 },
            FrameStep::EndWindow,
            FrameStep::ToPresent { from: ImageLayout::Attachment },
            FrameStep::End,
            FrameStep::Submit,
        ]
    );
}

#[test]
fn a_frame_before_anything_is_compiled() {
    let mut early = inputs();
    early.rays_ready = false;
    let mut other = inputs();
    other.frame_count = 8;
    let set = |steps: &[FrameStep]| {
        steps.iter().find_map(|s| match s {
            FrameStep::WriteRaySet { set, .. } => Some(*set),
            _ => None,
        })
    };
    assert_eq!(set(&render_frame(&inputs())), Some(2));
    assert_eq!(set(&render_frame(&other)), Some(0));
    assert_eq!(set(&render_frame(&early)), None);
    let steps = render_frame(&early);
    assert!(!steps.iter().any(|s| matches!(s, FrameStep::PostDraw { .. })));
    assert!(!steps.iter().any(|s| matches!(s, FrameStep::Trace { .. })));
    assert!(steps.contains(&FrameStep::Ui { parity: 1 }));
}

#[test]
fn a_headset_frame() {
    let mut both = inputs();
    both.headset = true;
    both.frame_count = 4;
    both.views.push(FrameView { slot: 1, plan: Some(extent(960, 540)), images: true });
    let steps = render_frame(&both);
    assert!(steps.contains(&FrameStep::WriteRaySet { slot: 1, set: 1, guides: true }));
    assert!(steps.contains(&FrameStep::PostDraw { source: 1, set: 1 }));
    assert!(steps.contains(&FrameStep::PostDraw { source: 0, set: 2 }));
    assert!(steps.contains(&FrameStep::PictureViewport { letterbox: true }));
    assert!(!steps.iter().any(|s| matches!(s, FrameStep::Gizmos { .. })));
    assert_eq!(steps[steps.len() - 1], FrameStep::EndHeadset);
}

#[test]
fn a_captured_and_drained_frame() {
    let mut c = inputs();
    c.capture = true;
    c.drain = true;
    let steps = render_frame(&c);
    assert_eq!(steps[0], FrameStep::WaitIdle);
    assert!(steps.contains(&FrameStep::Capture { bytes: 1920 * 1080 * 4 }));
    assert!(steps.contains(&FrameStep::ToPresent { from: ImageLayout::TransferSource }));
    let n = steps.len();
    assert_eq!(
        steps[n - 4..],
        [
            FrameStep::Submit,
            FrameStep::WaitIdle,
            FrameStep::WaitIdle,
            FrameStep::SaveCapture
        ]
    );
}

#[test]
fn views_and_their_history() {
    let flat = choose_views(None, extent(3, 4), ProjectionKind::Perspective);
    assert_eq!((flat.count, flat.output), (1, extent(3, 4)));
    let both = choose_views(Some(extent(5, 6)), extent(3, 4), ProjectionKind::Orthographic);
    assert_eq!((both.count, both.output), (2, extent(5, 6)));
    let mut history: ViewHistory<u32> = ViewHistory::new();
    assert_eq!(history.advance(0, 10), 10);
    assert_eq!(history.advance(0, 11), 10);
    assert_eq!(history.advance(1, 20), 20);
    assert_eq!(history.advance(0, 12), 11);
    assert_eq!(next_frame(5), 6);
    assert_eq!(next_frame(u32::MAX), 0);
    assert_eq!(trace_extent(None, extent(1, 2)), extent(1, 2));
    assert_eq!(trace_extent(Some(extent(3, 4)), extent(1, 2)), extent(3, 4));
}

#[test]
fn the_window_and_its_focus() {
    let window = update_render_window(0, 1080);
    assert_eq!((window.width, window.height), (1, 1080));
    let at = Pixel { x: 3, y: 4 };
    assert_eq!(set_focus_pulling(Some(at), true), Some(at));
    assert_eq!(set_focus_pulling(Some(at), false), None);
    assert_eq!(set_focus_pulling(None, true), None);
}

#[test]
fn closing_tears_down_once() {
    assert_eq!(shutdown(false, vec![1], true), None);
    assert_eq!(shutdown(true, vec![], false), None);
    assert_eq!(shutdown(true, vec![1, 2], false), Some(vec![1, 2]));
    assert_eq!(shutdown(true, vec![], true), Some(vec![]));
    let rites = on_shutdown(true, (1, 2), 3, 4);
    assert_eq!(rites[0], LastRites::RemoveHeadset);
    assert_eq!(rites[2], LastRites::DestroyHeadset);
    assert_eq!(rites.iter().filter(|r| **r == LastRites::Tick).count(), 3);
    assert_eq!(rites[rites.len() - 1], LastRites::RemoveSwapchain);
}

fn words() -> UniformWords {
    let mut state = DevUIState::new(AuroraDlss::Dlaa, RrPreset::Default);
    state.samples = 0;
    state.restir = true;
    state.restir_candidates = 99;
    state.light_nee = false;
    state.sharc = true;
    fill_uniforms(&state, &Sky::Procedural, None, 6, 12, 3, 0x5000)
}

#[test]
fn uniforms_stay_in_range() {
    let w = words();
    assert_eq!((w.pull_focus_x, w.pull_focus_y), (NO_FOCUS, NO_FOCUS));
    assert_eq!((w.frame, w.samples, w.max_bounces), (6, 1, 32));
    assert_eq!((w.sky_mode, w.light_entries, w.restir_candidates), (2, 0, 32));
    assert_eq!((w.light_epoch, w.sharc), (3, 1));
    assert_eq!((w.env, w.env_w, w.env_h), (0x5000, 512, 256));
}

#[test]
fn uniforms_match_the_shader_layout() {
    let v3 = Vec3 { x: 1, y: 2, z: 3 };
    let data = UniformData {
        words: words(),
        sky_color: Sky::Hdr { image: 1, scale: 77 }.color(),
        inverse_view: [11; 16],
        inverse_projection: [12; 16],
        gamma: 13,
        aperture: 14,
        foginess: 15,
        fog_scatter: 16,
        sky_brightness: 17,
        view: [18; 16],
        view_proj: [19; 16],
        prev_view_proj: [20; 16],
        jitter: Vec2 { x: 21, y: 22 },
        radiance_clamp: 23,
        vignette: 24,
        sun_cos_radius: 25,
        sun_direction: v3,
        sun_radiance: v3,
        sky_zenith: v3,
        sky_horizon: v3,
        sky_ground: v3,
        restir_m_clamp: 26,
        sharc_voxel: 27,
        emissive_boost: 28,
    };
    let bytes = data.bytes();
    let word = |at: usize| u32::from_le_bytes(bytes[at..at + 4].try_into().unwrap());
    assert_eq!(bytes.len(), 512);
    assert_eq!(word(0), 77);
    assert_eq!(word(12), 77);
    assert_eq!(word(144), NO_FOCUS);
    assert_eq!(word(152), 13);
    assert_eq!(word(172), 18);
    assert_eq!(word(364), 21);
    assert_eq!(word(372), 6);
    assert_eq!(word(392), 2);
    assert_eq!(word(400), 1);
    assert_eq!(word(476), 1);
    assert_eq!(bytes[488..496], 0x5000u64.to_le_bytes());
    assert_eq!(word(504), 28);
}

#[test]
fn the_sky_as_the_shaders_see_it() {
    let flat = Sky::Color { radiance: Vec3 { x: 1, y: 2, z: 3 } };
    assert_eq!(flat.color(), Vec4 { x: 1, y: 2, z: 3, w: 0 });
    assert_eq!(flat.mode(), 0);
    assert_eq!(flat.texture(Some(5), 9), 9);
    let image = Sky::Hdr { image: 4, scale: 2 };
    assert_eq!(image.image(), Some(4));
    assert_eq!(image.texture(Some(5), 9), 5);
    assert_eq!(image.texture(None, 9), 9);
}

fn guides() -> GuideViews {
    GuideViews {
        normal_roughness: 1,
        diffuse: 2,
        specular: 3,
        depth: 4,
        spec_hit: 5,
        motion: 6,
        color: 7,
    }
}

#[test]
fn guides_are_bound_from_one_to_seven() {
    let bound: Vec<(u32, u64)> =
        guide_writes(Some(guides())).iter().map(|b| (b.binding, b.view)).collect();
    assert_eq!(bound, vec![(1, 1), (2, 2), (3, 3), (4, 4), (5, 5), (6, 6), (7, 7)]);
    assert!(guide_writes(None).is_empty());
}

#[test]
fn the_final_draw_samples_eight_images() {
    let with: Vec<u64> = record_post_draw(50, Some(guides())).iter().map(|b| b.view).collect();
    assert_eq!(with, vec![50, 7, 1, 2, 3, 4, 5, 6]);
    let without = record_post_draw(50, None);
    assert_eq!(without.len(), 8);
    assert!(without.iter().all(|b| b.view == 50 && b.layout == ImageLayout::General));
    assert_eq!(without[7].binding, 7);
}

#[test]
fn missing_buffers_are_made() {
    assert_eq!(
        ensure_buffers((0, 5), 0),
        vec![Missing::Uniforms { slot: 0 }, Missing::Focus { distance: 100.0f32.to_bits() }]
    );
    assert!(ensure_buffers((1, 2), 3).is_empty());
}

#[test]
fn dispatches_are_cut_at_the_limit() {
    assert_eq!(group_count(0), 1);
    assert_eq!(group_count(64), 1);
    assert_eq!(group_count(65), 2);
    assert_eq!(group_count(u32::MAX), MAX_GROUPS);
    let params = SharcResolveParams { entries: 1, entry_count: 2, frame: 3, base: 0, pad: 0 };
    let bytes = params.bytes();
    assert!(record_dispatch(&bytes, 0, Some(16)).is_empty());
    let chunks = record_dispatch(&bytes, MAX_THREADS + 65, Some(16));
    assert_eq!(chunks.len(), 2);
    assert_eq!(chunks[0].groups, MAX_GROUPS);
    assert_eq!(chunks[0].push[16..20], 0u32.to_le_bytes());
    assert_eq!(chunks[1].groups, 2);
    assert_eq!(chunks[1].push[16..20], MAX_THREADS.to_le_bytes());
    assert_eq!(chunks[1].push[..16], bytes[..16]);
    // Without a place for the first thread the block stays as it is, and all threads run.
    let chunks = record_dispatch(&bytes, MAX_THREADS + 65, None);
    assert_eq!(chunks.len(), 2);
    assert!(chunks.iter().all(|c| c.push == bytes));
    assert_eq!(chunks.iter().map(|c| c.groups).sum::<u32>(), MAX_GROUPS + 2);
}

#[test]
fn pipelines_by_entry_point() {
    let module = CompiledComputeModule {
        pipeline_layout: 9,
        entry_points: vec!["a".to_string(), "b".to_string(), "a".to_string()],
        handles: vec![1, 2, 3],
    };
    assert_eq!(module.pipeline("b"), 2);
    assert_eq!(module.find("a"), Some(3));
    assert_eq!(module.find("c"), None);
    assert_eq!(
        module.destroy_asset(),
        vec![Doomed::Pipeline(2), Doomed::Pipeline(3), Doomed::PipelineLayout(9)]
    );
}

#[test]
fn crash_dumps_are_waited_for() {
    let mut watch = CrashWatch::new();
    let mut wait = DumpWait { saw_activity: false, logged: false };
    assert_eq!(wait_for_dump(&watch, &mut wait, 0, None), WaitStep::NotNeeded);
    assert!(enable(&mut watch));
    assert_eq!(note_answer(&mut watch, 0), Answered::Disabled);
    assert!(!watch.armed);
    assert_eq!(on_panic(&watch), vec![PanicStep::PreviousHook]);
    assert!(!enable(&mut watch));
    assert!(!enable(&mut watch));
    assert_eq!(note_answer(&mut watch, 1), Answered::InstallHook);
    assert!(watch.armed);
    assert_eq!(on_panic(&watch), vec![PanicStep::WaitForDump, PanicStep::PreviousHook]);
    assert!(must_wait(&watch));
    assert_eq!(
        wait_for_dump(&watch, &mut wait, 500, Some(STATUS_NOT_STARTED)),
        WaitStep::Sleep { announce: false }
    );
    assert_eq!(
        wait_for_dump(&watch, &mut wait, 1500, Some(STATUS_NOT_STARTED)),
        WaitStep::NeverStarted
    );
    assert_eq!(wait_for_dump(&watch, &mut wait, 0, Some(1)), WaitStep::Sleep { announce: true });
    assert_eq!(wait_for_dump(&watch, &mut wait, 0, Some(1)), WaitStep::Sleep { announce: false });
    assert_eq!(wait_for_dump(&watch, &mut wait, 0, Some(STATUS_FINISHED)), WaitStep::Finished);
    assert_eq!(
        wait_for_dump(&watch, &mut wait, 0, Some(STATUS_COLLECTING_FAILED)),
        WaitStep::Failed
    );
    assert_eq!(wait_for_dump(&watch, &mut wait, 0, None), WaitStep::NoAnswer);
    assert_eq!(wait_for_dump(&watch, &mut wait, 10000, Some(1)), WaitStep::TimedOut);
    note_dump(&mut watch, 0);
    assert!(!watch.done);
    note_dump(&mut watch, 12);
    assert_eq!(wait_for_dump(&watch, &mut wait, 0, Some(1)), WaitStep::Complete);
    assert!(note_device_lost(ERROR_DEVICE_LOST));
    assert_eq!(next_file(&mut watch), 0);
    assert_eq!(next_file(&mut watch), 1);
    assert_eq!(dump_name(12, 34, 5, DumpFile::Dump), "aurora-12-34-5.nv-gpudump");
}

#[test]
fn debug_views_come_round() {
    let all = AuroraDebugView::all();
    assert_eq!(all.len(), 10);
    let mut view = AuroraDebugView::default();
    for (i, expected) in all.iter().enumerate() {
        assert_eq!(view, *expected);
        assert_eq!(view.shader_index(), i as u32);
        view = view.next();
    }
    assert_eq!(view, AuroraDebugView::Picture);
    assert_eq!(AuroraDebugView::from_name(Some("nits")), AuroraDebugView::Luminance);
    assert_eq!(AuroraDebugView::from_name(Some("spec-hit")), AuroraDebugView::SpecHit);
    assert_eq!(AuroraDebugView::from_name(Some("what")), AuroraDebugView::Picture);
    assert_eq!(AuroraDebugView::from_name(None), AuroraDebugView::Picture);
}

#[test]
fn modes_and_presets() {
    for mode in AuroraDlss::all() {
        assert_eq!(AuroraDlss::parse(mode.label()), Some(mode));
    }
    assert_eq!(AuroraDlss::parse("ultra"), Some(AuroraDlss::UltraPerformance));
    assert_eq!(AuroraDlss::from_name(Some("off")), AuroraDlss::Dlaa);
    assert_eq!(AuroraDlss::UltraPerformance.next(), AuroraDlss::Dlaa);
    for preset in [RrPreset::Default, RrPreset::D, RrPreset::E] {
        assert_eq!(RrPreset::from_ngx(preset.to_ngx()), preset);
    }
    assert_eq!(search_path("/sdk", true), "/sdk/lib/Linux_x86_64/dev");
    assert_eq!(search_path("/sdk", false), "/sdk/lib/Linux_x86_64/rel");
}

#[test]
fn resets_and_drains() {
    let mut state = DlssState::new();
    assert!(state.take_reset(true));
    assert!(!state.take_reset(true));
    state.request_reset();
    assert!(state.take_reset(true));
    assert!(!state.take_reset(false));
    assert!(state.take_reset(true));
    let none = DevKeys { shift: false, ctrl: false, alt: false, function_key: false, f10: false };
    state.dev_snippet_hotkeys(DevKeys { shift: true, function_key: true, ..none });
    for _ in 0..4 {
        assert!(state.take_drain());
    }
    assert!(!state.take_drain());
    state.dev_snippet_hotkeys(DevKeys { f10: true, ..none });
    assert_eq!(state.dev_drain, 2);
}

#[test]
fn results_by_name() {
    assert!(check("init", 1).is_ok());
    assert_eq!(check("init", 0xBAD0_0001).unwrap_err(), format!("init -> {}",
        result_name(0xBAD0_0001)));
    assert!(result_name(0xBAD0_0001).ends_with("(0xbad00001)"));
    assert_eq!(wide("a\u{e9}"), vec![97, 233, 0]);
}

#[test]
fn a_feature_is_created_from_its_settings() {
    let params =
        create_params(extent(960, 540), extent(1920, 1080), AuroraDlss::Performance, RrPreset::D);
    let settings = create_dlssd_feature(&params);
    let value = |p: Param| settings.iter().find(|s| s.param == p).map(|s| s.value);
    assert_eq!(value(Param::Width), Some(Value::Unsigned(960)));
    assert_eq!(value(Param::OutHeight), Some(Value::Unsigned(1080)));
    assert_eq!(
        value(Param::PerfQualityValue),
        Some(Value::Signed(AuroraDlss::Performance.perf_quality()))
    );
    assert_eq!(Param::JitterOffsetX.name(), "Jitter.Offset.X");
}

fn images() -> DlssImages {
    DlssImages {
        color: 1,
        normal_roughness: 2,
        diffuse: 3,
        specular: 4,
        depth: 5,
        spec_hit: 6,
        motion: 7,
        exposure: 8,
        output: 9,
    }
}

#[test]
fn a_view_is_rebuilt_when_it_must_be() {
    let mut renderer = DlssRenderer::new(true);
    let out = extent(1920, 1080);
    let (mode, preset) = (AuroraDlss::Quality, RrPreset::Default);
    assert!(renderer.asks_size(0, out, mode, preset));
    let optimal = Optimal::Size(extent(1280, 720));
    assert_eq!(
        renderer.prepare(0, out, mode, preset, optimal),
        ViewStep::Rebuild { render: extent(1280, 720), release: false }
    );
    renderer.install(0, 77, mode, preset, extent(1280, 720), out, images());
    assert_eq!(renderer.prepare(0, out, mode, preset, optimal), ViewStep::Keep);
    assert_eq!(
        renderer.prepare(0, out, mode, RrPreset::E, optimal),
        ViewStep::Rebuild { render: extent(1280, 720), release: true }
    );
    assert_eq!(
        renderer.prepare(0, extent(0, 5), mode, preset, optimal),
        ViewStep::Unavailable { release: true }
    );
    assert!(!renderer.asks_size(1, out, AuroraDlss::Dlaa, preset));
    assert_eq!(renderer.begin_frame(1), None);
    assert_eq!(renderer.begin_frame(0), Some((extent(1280, 720), 1)));
    renderer.release(0);
    assert!(renderer.view(0).is_none());
}

#[test]
fn a_view_starts_its_history_anew() {
    let mut renderer = DlssRenderer::new(true);
    let out = extent(1920, 1080);
    renderer.install(1, 77, AuroraDlss::Dlaa, RrPreset::Default, out, out, images());
    let mut view = renderer.view(1).unwrap();
    let first = view.record_pre_trace();
    assert_eq!(first.barriers.len(), 8);
    assert!(first.exposure.is_some());
    assert_eq!(first.barriers[0].transition.from, ImageLayout::Undefined);
    let jitter = Vec2 { x: 0x3E80_0000, y: 0xBE00_0000 };
    let scale = Vec2 { x: 0xC4F0_0000, y: 0xC487_0000 };
    let evaluated = view.record_evaluate(false, jitter, 0x4180_0000, scale);
    assert!(evaluated.numbers.reset);
    assert_eq!(evaluated.numbers.jitter_x, (-0.25f32).to_bits());
    assert_eq!(evaluated.numbers.jitter_y, 0.125f32.to_bits());
    assert_eq!(evaluated.numbers.frame_time_ms, 16f32.to_bits());
    assert_eq!(evaluated.numbers.mv_scale_x, (-1920f32).to_bits());
    assert_eq!(evaluated.numbers.mv_scale_y, (-1080f32).to_bits());
    assert_eq!((evaluated.numbers.render_width, evaluated.numbers.render_height), (1920, 1080));
    assert_eq!(evaluated.barriers.len(), 8);
    let second = view.record_pre_trace();
    assert_eq!(second.barriers.len(), 7);
    assert_eq!(second.barriers[0].transition.from, ImageLayout::ShaderReadOnly);
    assert!(!view.record_evaluate(false, jitter, 0, scale).numbers.reset);
    assert!(view.record_evaluate(true, jitter, 0, scale).numbers.reset);
}

#[test]
fn panels_and_cameras_agree() {
    let mut panel = AuroraDlss::Dlaa;
    let mut cameras = vec![AuroraDlss::Dlaa, AuroraDlss::Quality];
    let mut agreed = Some(AuroraDlss::Dlaa);
    sync_dlss_mode(&mut panel, &mut cameras, &mut agreed);
    assert_eq!(panel, AuroraDlss::Quality);
    panel = AuroraDlss::Balanced;
    sync_dlss_mode(&mut panel, &mut cameras, &mut agreed);
    assert_eq!(cameras, vec![AuroraDlss::Balanced; 2]);
    sync_dlss_mode(&mut panel, &mut cameras, &mut agreed);
    assert_eq!(panel, AuroraDlss::Balanced);
    assert_eq!(agreed, Some(AuroraDlss::Balanced));
    let lock = ExposureLock { locked: true, ev100: 7 };
    assert_eq!(sync_exposure(lock, None, None, false), ExposureSync::Push);
    assert_eq!(sync_exposure(lock, Some(true), None, false), ExposureSync::Push);
    let open = ExposureLock { locked: false, ev100: 7 };
    assert_eq!(
        sync_exposure(lock, Some(false), Some(open), false),
        ExposureSync::Pull(open)
    );
    assert_eq!(sync_exposure(lock, Some(false), Some(lock), false), ExposureSync::Keep);
    assert_eq!(agreed_lock(lock, ExposureSync::Pull(open)), open);
    assert_eq!(agreed_lock(lock, ExposureSync::Push), lock);
    assert_eq!(sync_exposure(open, Some(false), Some(open), false), ExposureSync::Keep);
    assert_eq!(sync_rr_preset(RrPreset::D, RrPreset::E), Some(RrPreset::D));
    assert_eq!(sync_rr_preset(RrPreset::D, RrPreset::D), None);
}

#[test]
fn environments_are_built_once() {
    let mut env = EnvLight::new();
    assert_eq!(env.plan(Some(5), SkyImage::Missing), EnvStep::Keep);
    let step = env.plan(Some(5), SkyImage::Readable);
    assert_eq!(step, EnvStep::Build { image: 5 });
    assert_eq!(env.apply(step, buffer(3)), None);
    assert_eq!(env.address(), 0x3000);
    assert_eq!(env.plan(Some(5), SkyImage::Readable), EnvStep::Keep);
    let step = env.plan(Some(6), SkyImage::Unreadable);
    assert_eq!(env.apply(step, buffer(4)), Some(3));
    assert_eq!(env.address(), 0);
    assert_eq!(env.plan(None, SkyImage::Missing), EnvStep::Release);
    // The table of one image does not stand in for another that has not come yet.
    assert_eq!(env.plan(Some(7), SkyImage::Missing), EnvStep::Release);
    assert_eq!(pixel_layout(Some(16 * 8), 4, 2), Some(PixelLayout::Float));
    assert_eq!(pixel_layout(Some(4 * 8), 4, 2), Some(PixelLayout::Byte));
    assert_eq!(pixel_layout(Some(4 * 8), 0, 2), None);
    assert_eq!(cell_of(1, 1, 2, 2), (128 * ENV_W + 256) as usize);
}

#[test]
fn reservoirs_take_turns() {
    let mut restir = RestirState::new();
    assert_eq!(restir.needs(4, 4, 0), Some(512));
    let cleared = restir.install(0, 4, 4, buffer(1), buffer(2));
    assert_eq!(cleared.len(), 3);
    assert_eq!(restir.needs(4, 4, 0), None);
    let (prev, cur) = restir.addresses(6, 0);
    assert_eq!(restir.addresses(7, 0), (cur, prev));
    assert_ne!(prev, cur);
    // The frame number starts over, and the turns go on.
    let (prev, cur) = restir.addresses(u32::MAX, 0);
    assert_eq!(restir.addresses(next_frame(u32::MAX), 0), (cur, prev));
    assert_eq!(restir.handles(0), (1, 2));
    assert_eq!(restir.needs(4, 4, 1), Some(512));
    // As many pixels in another shape are another size: the history is dropped.
    restir.install(1, 100, 200, buffer(3), buffer(4));
    assert_eq!(restir.needs(100, 200, 1), None);
    assert_eq!(restir.needs(200, 100, 1), Some(100 * 200 * 32));
}

#[test]
fn the_cache_is_made_when_first_used() {
    let mut sharc = SharcState::new();
    assert_eq!(sharc.needs(false), None);
    assert_eq!(sharc.needs(true), Some(1048576 * 32));
    assert!(sharc.record(true, 1).is_empty());
    sharc.install(buffer(1));
    assert_eq!(sharc.needs(true), None);
    assert!(!sharc.record(true, 1).is_empty());
    assert!(sharc.record(false, 1).is_empty());
}

#[test]
fn exposure_meters_once_primed() {
    let mut ae = AutoExposureState::new();
    assert!(ae.needs_state());
    ae.install_state(buffer(1), buffer(2));
    assert_eq!(ae.needs_lum(10, 20), Some(200));
    assert_eq!(AutoExposureState::new().needs_lum(0, 5), Some(1));
    assert_eq!(AutoExposureState::new().needs_lum(0, 0), None);
    ae.install_lum(buffer(3), 10, 20);
    assert_eq!(ae.needs_lum(10, 20), None);
    assert_eq!(ae.needs_lum(20, 10), Some(200));
    assert!(!ae.primed);
    ae.note_traced();
    assert!(ae.primed);
    assert_eq!(ae.addresses(), (0x3000, 0x2000));
    assert_eq!(ae.cleanup(), vec![3, 1, 2]);
    assert_eq!(AuroraExposure::fixed(5).look(), Some(5));
}

#[test]
fn the_atmosphere_is_built_when_active() {
    let mut state = AtmosphereState::new();
    assert!(!state.needs_buffers(false));
    assert!(state.needs_buffers(true));
    let cleared = state.install(AtmosphereBuffers {
        params: buffer(1),
        transmittance: buffer(2),
        multiscatter: buffer(3),
        skyview_rad: buffer(4),
        skyview_trn: buffer(5),
        noise: buffer(6),
        noise_detail: buffer(7),
    });
    assert_eq!(cleared.len(), 6);
    assert!(matches!(cleared[0], Command::Clear { buffer: 2, .. }));
    let first = state.record(true, true).len();
    let second = state.record(true, true).len();
    // The noise is built once only.
    assert!(first > second);
    assert_eq!(state.cleanup(), vec![1, 2, 3, 4, 5, 6, 7]);
    assert!(!state.noise_built);
    let words = CloudSwitches { enabled: true, shadows: false, steps: 1000,
        light_steps: 0 }.words();
    assert_eq!((words.clouds, words.cloud_shadows), (1, 0));
    assert_eq!((words.cloud_steps, words.cloud_light_steps), (256, 1));
}

#[test]
fn procedural_meshes() {
    assert!(is_acceptable(112, 3));
    assert!(!is_acceptable(113, 3));
    assert!(matches!(extract(false, true, true), Err(ProceduralSkip::FillModule)));
    assert!(matches!(extract(true, false, true), Err(ProceduralSkip::EntryPoint)));
    assert!(matches!(extract(true, true, false), Err(ProceduralSkip::PackModule)));
    assert!(extract(true, true, true).is_ok());
    let push = fill_push(
        ProceduralHeader { vertices: 0x77, vertex_count: 9, base: 0 },
        &vec![1, 2, 3],
    );
    assert_eq!(push.len(), 128);
    assert_eq!(push[0..8], 0x77u64.to_le_bytes());
    assert_eq!(push[8..12], 9u32.to_le_bytes());
    assert_eq!(push[16..20], [1, 2, 3, 0]);
}

#[test]
fn pipelines_are_told_where_things_are() {
    let mut restir = RestirState::new();
    restir.install(1, 4, 4, buffer(1), buffer(2));
    let mut sharc = SharcState::new();
    sharc.install(buffer(3));
    let mut ae = AutoExposureState::new();
    ae.install_state(buffer(4), buffer(5));
    ae.install_lum(buffer(6), 1, 1);
    let mut lights = LightManager::new();
    lights.header = buffer(7);
    let scene = SceneAddresses {
        materials: 11,
        instances: 12,
        prev_instances: 13,
        bluenoise: 14,
        focus: 15,
    };
    let c = ray_constants(10, scene, 16, &lights, &restir, 8, 1, &sharc, &ae);
    assert_eq!((c.uniform_buffer, c.material_buffer, c.bluenoise_buffer2), (10, 11, 14));
    assert_eq!((c.focus_buffer, c.sky_texture, c.padding), (15, 16, 0));
    assert_eq!((c.prev_instances, c.instances, c.lights), (13, 12, 0x7000));
    assert_eq!((c.reservoirs_prev, c.reservoirs_cur), restir.addresses(8, 1));
    assert_eq!((c.sharc, c.lum_buffer, c.auto_exposure), (0x3000, 0x6000, 0x5000));
    let p = post_constants(10, &ae, 20, Some(AuroraDebugView::Depth));
    assert_eq!((p.uniforms, p.auto_exposure, p.display_exposure), (10, 0x5000, 20));
    assert_eq!(p.debug_view, AuroraDebugView::Depth.shader_index());
    assert_eq!(post_constants(10, &ae, 20, None).debug_view, 0);
}

#[test]
fn bounds_that_are_not_answered() {
    let s = optimal_settings((Some(1280), Some(720)), (Some(1920), None), (None, Some(360)));
    assert_eq!((s.optimal, s.max, s.min), ((1280, 720), (1920, 720), (1280, 360)));
}

#[test]
fn no_session_without_reconstruction() {
    let good = SessionAnswers {
        built_in: true,
        init: 1,
        capabilities: 1,
        block: 0x10,
        reconstruction: Some(1),
    };
    assert!(start_session(&good).unwrap().available);
    let refused = |a: SessionAnswers| start_session(&a).unwrap_err();
    assert_eq!(refused(SessionAnswers { built_in: false, ..good }), SessionRefused::NotBuiltIn);
    assert_eq!(
        refused(SessionAnswers { init: 0xBAD0_0001, ..good }),
        SessionRefused::Init { result: 0xBAD0_0001 }
    );
    assert_eq!(
        refused(SessionAnswers { block: 0, ..good }),
        SessionRefused::Capabilities { result: 1 }
    );
    assert_eq!(
        refused(SessionAnswers { reconstruction: Some(0), ..good }),
        SessionRefused::NoReconstruction
    );
    assert_eq!(
        refused(SessionAnswers { reconstruction: None, ..good }),
        SessionRefused::NoReconstruction
    );
}
