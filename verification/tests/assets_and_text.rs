use aurora::animclip::{parse_animclip, Channel, ClipError, CurveKind};
use aurora::assets::aurora_asset;
use aurora::bits::{Vec3, Vec4};
use aurora::blas::Corners;
use aurora::collision::{parse_collider, ColliderError};
use aurora::dev_ui::{overrides, DevUIState, FlagField, NumberField, Override, WordField};
use aurora::dlss::modes::{AuroraDlss, RrPreset};
use aurora::shader::{
    header_path, join_path, module_name, reload_modified, route, ShaderDeps, ShaderRoute,
    ShaderStage,
};
use aurora::text::{append_number, chars_of, same_chars, same_text};

fn collider(positions: &[[u32; 3]], triangles: &[[u32; 3]]) -> Vec<u8> {
    let mut bytes = Vec::new();
    bytes.extend_from_slice(b"ACOL");
    bytes.extend_from_slice(&1u32.to_le_bytes());
    bytes.extend_from_slice(&(positions.len() as u32).to_le_bytes());
    bytes.extend_from_slice(&(triangles.len() as u32).to_le_bytes());
    for row in positions.iter().chain(triangles) {
        for word in row {
            bytes.extend_from_slice(&word.to_le_bytes());
        }
    }
    bytes
}

#[test]
fn a_collider_is_read() {
    let bytes = collider(&[[1, 2, 3], [4, 5, 6]], &[[0, 1, 0]]);
    let shape = parse_collider(&bytes).unwrap();
    assert_eq!(shape.positions, vec![Vec3 { x: 1, y: 2, z: 3 }, Vec3 { x: 4, y: 5, z: 6 }]);
    assert_eq!(shape.triangles, vec![Corners { a: 0, b: 1, c: 0 }]);
    assert_eq!(shape.len(), 1);
    assert!(!shape.is_empty());
}

#[test]
fn colliders_that_are_none() {
    let bytes = collider(&[[1, 2, 3]], &[[0, 0, 0]]);
    assert!(matches!(parse_collider(&bytes[..15]), Err(ColliderError::TruncatedHeader)));
    assert!(matches!(
        parse_collider(&bytes[..bytes.len() - 1]),
        Err(ColliderError::TruncatedBody)
    ));
    let mut wrong = bytes.clone();
    wrong[4] = 2;
    assert!(matches!(parse_collider(&wrong), Err(ColliderError::NotVersion1)));
    let mut wrong = bytes.clone();
    wrong[0] = b'B';
    assert!(matches!(parse_collider(&wrong), Err(ColliderError::NotVersion1)));
    assert_ne!(ColliderError::TruncatedHeader.message(), ColliderError::TruncatedBody.message());
}

fn clip_name(out: &mut Vec<u8>, name: &[u8]) {
    out.extend_from_slice(&(name.len() as u16).to_le_bytes());
    out.extend_from_slice(name);
}

fn words(out: &mut Vec<u8>, ws: &[u32]) {
    for w in ws {
        out.extend_from_slice(&w.to_le_bytes());
    }
}

/// One target at `hip/knee` with a translation of two keys and a scale of one.
fn clip(name: &[u8]) -> Vec<u8> {
    let mut b = Vec::new();
    b.extend_from_slice(b"ANIMCLP\x01");
    words(&mut b, &[1]);
    b.extend_from_slice(&2u16.to_le_bytes());
    clip_name(&mut b, b"hip");
    clip_name(&mut b, name);
    b.push(1 | 4);
    words(&mut b, &[2, 10, 11, 1, 2, 3, 4, 5, 6]);
    words(&mut b, &[1, 12, 7, 8, 9]);
    b
}

#[test]
fn a_clip_is_read() {
    let targets = parse_animclip(&clip("kn\u{e9}e".as_bytes())).unwrap();
    assert_eq!(targets.len(), 1);
    assert_eq!(targets[0].path, vec!["hip".to_string(), "kn\u{e9}e".to_string()]);
    let translation = targets[0].translation.as_ref().unwrap();
    assert_eq!(translation.times, vec![10, 11]);
    assert_eq!(translation.values, vec![1, 2, 3, 4, 5, 6]);
    assert!(targets[0].rotation.is_none());
    let scale = targets[0].scale.as_ref().unwrap();
    assert_eq!(scale.values, vec![7, 8, 9]);
}

#[test]
fn clips_that_are_none() {
    let good = clip(b"knee");
    let mut wrong = good.clone();
    wrong[7] = 2;
    assert!(matches!(parse_animclip(&wrong), Err(ClipError::BadMagic)));
    assert!(matches!(parse_animclip(&good[..good.len() - 1]), Err(ClipError::Truncated)));
    assert!(matches!(parse_animclip(&clip(&[0xFF, 0xFE])), Err(ClipError::BadUtf8)));
    for n in 0..good.len() {
        assert!(matches!(parse_animclip(&good[..n]), Err(ClipError::Truncated)));
    }
    let mut longer = good.clone();
    longer.extend_from_slice(&[1, 2, 3]);
    let targets = parse_animclip(&longer).unwrap();
    assert_eq!(targets.len(), 1);
    assert_eq!(targets[0].scale.as_ref().unwrap().values, vec![7, 8, 9]);
}

#[test]
fn curves_by_their_keys() {
    let channel = |keys: u32| Channel {
        times: (0..keys).collect(),
        values: (0..12 * keys).collect(),
    };
    assert_eq!(channel(0).kind(), CurveKind::Nothing);
    assert_eq!(channel(1).kind(), CurveKind::Constant);
    assert_eq!(channel(2).kind(), CurveKind::Sampled);
    let targets = parse_animclip(&clip(b"knee")).unwrap();
    let scale = targets[0].scale.as_ref().unwrap();
    assert_eq!(scale.kind(), CurveKind::Constant);
    assert_eq!(scale.points3(), vec![Vec3 { x: 7, y: 8, z: 9 }]);
    let odd = Channel { times: vec![], values: (0..9).collect() };
    assert_eq!(odd.points4()[1], Vec4 { x: 4, y: 5, z: 6, w: 7 });
    assert_eq!((odd.points3().len(), odd.points4().len()), (3, 2));
}

#[test]
fn assets_have_their_own_scheme() {
    assert_eq!(aurora_asset("shaders/a.slang"), "aurora://shaders/a.slang");
}

#[test]
fn shaders_are_routed_by_extension() {
    assert_eq!(route("slang"), Some(ShaderRoute::Slang));
    assert_eq!(route("rchit"), Some(ShaderRoute::Glsl(ShaderStage::ClosestHit)));
    assert_eq!(route("vert"), Some(ShaderRoute::Glsl(ShaderStage::Vertex)));
    assert_eq!(route("txt"), None);
}

#[test]
fn shader_paths() {
    assert_eq!(join_path("shaders", "a.glsl"), "shaders/a.glsl");
    assert_eq!(header_path("assets", "b.glsl"), "assets/shaders/b.glsl");
    assert_eq!(module_name(120, 7), "120-7.spv");
}

#[test]
fn shaders_reload_with_what_they_read() {
    let shaders = vec![
        ShaderDeps { shader: 1, dependencies: vec![5, 6] },
        ShaderDeps { shader: 2, dependencies: vec![] },
        ShaderDeps { shader: 3, dependencies: vec![6] },
    ];
    assert_eq!(reload_modified(&shaders, 6), vec![1, 3]);
    assert_eq!(reload_modified(&shaders, 7), Vec::<u64>::new());
}

#[test]
fn numbers_in_any_base() {
    let mut s = String::new();
    append_number(&mut s, 0, 10);
    append_number(&mut s, 1204, 10);
    append_number(&mut s, 0xBAD, 16);
    assert_eq!(s, "01204bad");
}

#[test]
fn texts_compare_by_character() {
    assert!(same_text("h\u{fc}", "h\u{fc}"));
    assert!(!same_text("a", "ab"));
    assert!(same_chars(&chars_of("xyz"), "xyz"));
    assert!(!same_chars(&chars_of("xyz"), "xy"));
}

#[test]
fn overrides_are_trimmed_and_typed() {
    let found = overrides(" samples = 4 ,\u{a0}restir=false, aperture=0.5, nonsense, dlss=1 ,");
    assert_eq!(found.len(), 5);
    assert!(matches!(found[0], Override::Word { field: WordField::Samples, value: 4 }));
    assert!(matches!(found[1], Override::Flag { field: FlagField::Restir, value: false }));
    match &found[2] {
        Override::Number { field, text } => {
            assert_eq!(*field, NumberField::Aperture);
            assert_eq!(text.iter().collect::<String>(), "0.5");
        }
        _ => panic!("not a number"),
    }
    assert!(matches!(found[3], Override::Refused { .. }));
    assert!(matches!(found[4], Override::Refused { .. }));
    let mut state = DevUIState::new(AuroraDlss::Dlaa, RrPreset::Default);
    let half = Some(0.5f32.to_bits());
    let numbers = vec![None, None, half, None, None];
    assert_eq!(state.apply_all(&found, &numbers), vec![3, 4]);
    assert_eq!(state.aperture, 0.5f32.to_bits());
    assert_eq!(state.samples, 4);
    assert!(!state.restir);
    assert_eq!(state.max_bounces, 32);
    state.set_number(NumberField::Aperture, 0);
    assert_eq!(state.aperture, 0);
    // The later of two counts, and a number that cannot be read is skipped.
    let found = overrides("samples=2,samples=3,aperture=x");
    assert_eq!(state.apply_all(&found, &vec![None; 3]), vec![2]);
    assert_eq!(state.samples, 3);
    assert!(!state.apply(&found[2], None));
    assert!(state.apply(&found[0], None));
    assert_eq!(state.samples, 2);
}

#[test]
fn names_of_one_process_differ() {
    assert_ne!(module_name(12, 1), module_name(12, 11));
    assert_eq!(module_name(12, 11), "12-11.spv");
}
