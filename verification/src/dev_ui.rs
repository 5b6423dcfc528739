//! The development panel's tunables: their defaults, how a setting overrides them, and how the
//! panel and the cameras are kept equal. Numbers with a fraction are bit patterns.

use crate::auto_exposure::{default_settings, AuroraExposure};
use crate::dlss::modes::{AuroraDlss, RrPreset};
use crate::text::{chars_of, same_chars};
use vstd::prelude::*;

verus! {

/// A tunable that is a number with a fraction.
#[derive(Clone, Copy, Debug, PartialEq, Eq, Structural)]
pub enum NumberField {
    Aperture,
    Foginess,
    FogScatter,
    SkyBrightness,
    EmissiveBoost,
    FireflyClamp,
    Vignette,
    TextureLodBias,
    SpecHitRoughness,
    RestirHistory,
    SharcVoxel,
    Ev100,
    JitterScale,
}

/// A tunable that is a count.
#[derive(Clone, Copy, Debug, PartialEq, Eq, Structural)]
pub enum WordField {
    Samples,
    MaxBounces,
    LightCandidates,
    RestirCandidates,
}

/// A tunable that is a switch.
#[derive(Clone, Copy, Debug, PartialEq, Eq, Structural)]
pub enum FlagField {
    LightNee,
    Restir,
    Sharc,
    Omm,
    Ev100Lock,
}

/// A tunable that a setting may override.
#[derive(Clone, Copy, Debug, PartialEq, Eq, Structural)]
pub enum DevField {
    Number(NumberField),
    Word(WordField),
    Flag(FlagField),
}

/// The renderer's tunables.
#[derive(Clone, Copy, Debug, PartialEq, Eq, Structural)]
pub struct DevUIState {
    pub aperture: u32,
    pub foginess: u32,
    pub fog_scatter: u32,
    pub sky_brightness: u32,
    pub emissive_boost: u32,
    pub firefly_clamp: u32,
    pub vignette: u32,
    pub texture_lod_bias: u32,
    pub spec_hit_roughness: u32,
    pub restir_history: u32,
    pub sharc_voxel: u32,
    pub ev100: u32,
    pub jitter_scale: u32,
    pub samples: u32,
    pub max_bounces: u32,
    pub light_candidates: u32,
    pub restir_candidates: u32,
    pub light_nee: bool,
    pub restir: bool,
    pub sharc: bool,
    pub omm: bool,
    pub ev100_lock: bool,
    pub dlss: AuroraDlss,
    pub rr_preset: RrPreset,
}

/// The tunables by default, in this mode and with this preset.
pub open spec fn default_state(dlss: AuroraDlss, rr_preset: RrPreset) -> DevUIState {
    DevUIState {
        aperture: 0,
        foginess: 0x3A83_126F,
        fog_scatter: 0x3F66_6666,
        sky_brightness: 0x3F80_0000,
        emissive_boost: 0x3F80_0000,
        firefly_clamp: 0x4100_0000,
        vignette: 0,
        texture_lod_bias: 0xBF80_0000,
        spec_hit_roughness: 0x3F19_999A,
        restir_history: 0x41A0_0000,
        sharc_voxel: 0x3E80_0000,
        ev100: 0x40E0_0000,
        jitter_scale: 0x3F80_0000,
        samples: 1,
        max_bounces: 32,
        light_candidates: 8,
        restir_candidates: 8,
        light_nee: true,
        restir: false,
        sharc: false,
        omm: true,
        ev100_lock: false,
        dlss,
        rr_preset,
    }
}

/// The tunable with this name, where a setting may override it.
pub open spec fn field_named(name: Seq<char>) -> Option<DevField> {
    if name == "aperture"@ {
        Some(DevField::Number(NumberField::Aperture))
    } else if name == "foginess"@ {
        Some(DevField::Number(NumberField::Foginess))
    } else if name == "fog_scatter"@ {
        Some(DevField::Number(NumberField::FogScatter))
    } else if name == "sky_brightness"@ {
        Some(DevField::Number(NumberField::SkyBrightness))
    } else if name == "emissive_boost"@ {
        Some(DevField::Number(NumberField::EmissiveBoost))
    } else if name == "firefly_clamp"@ {
        Some(DevField::Number(NumberField::FireflyClamp))
    } else if name == "vignette"@ {
        Some(DevField::Number(NumberField::Vignette))
    } else if name == "texture_lod_bias"@ {
        Some(DevField::Number(NumberField::TextureLodBias))
    } else if name == "spec_hit_roughness"@ {
        Some(DevField::Number(NumberField::SpecHitRoughness))
    } else if name == "restir_history"@ {
        Some(DevField::Number(NumberField::RestirHistory))
    } else if name == "sharc_voxel"@ {
        Some(DevField::Number(NumberField::SharcVoxel))
    } else if name == "ev100"@ {
        Some(DevField::Number(NumberField::Ev100))
    } else if name == "jitter_scale"@ {
        Some(DevField::Number(NumberField::JitterScale))
    } else if name == "samples"@ {
        Some(DevField::Word(WordField::Samples))
    } else if name == "max_bounces"@ {
        Some(DevField::Word(WordField::MaxBounces))
    } else if name == "light_candidates"@ {
        Some(DevField::Word(WordField::LightCandidates))
    } else if name == "restir_candidates"@ {
        Some(DevField::Word(WordField::RestirCandidates))
    } else if name == "light_nee"@ {
        Some(DevField::Flag(FlagField::LightNee))
    } else if name == "restir"@ {
        Some(DevField::Flag(FlagField::Restir))
    } else if name == "sharc"@ {
        Some(DevField::Flag(FlagField::Sharc))
    } else if name == "omm"@ {
        Some(DevField::Flag(FlagField::Omm))
    } else if name == "ev100_lock"@ {
        Some(DevField::Flag(FlagField::Ev100Lock))
    } else {
        None
    }
}

fn find_field(name: &Vec<char>) -> (r: Option<DevField>)
    ensures
        r == field_named(name@),
{
    if same_chars(name, "aperture") {
        Some(DevField::Number(NumberField::Aperture))
    } else if same_chars(name, "foginess") {
        Some(DevField::Number(NumberField::Foginess))
    } else if same_chars(name, "fog_scatter") {
        Some(DevField::Number(NumberField::FogScatter))
    } else if same_chars(name, "sky_brightness") {
        Some(DevField::Number(NumberField::SkyBrightness))
    } else if same_chars(name, "emissive_boost") {
        Some(DevField::Number(NumberField::EmissiveBoost))
    } else if same_chars(name, "firefly_clamp") {
        Some(DevField::Number(NumberField::FireflyClamp))
    } else if same_chars(name, "vignette") {
        Some(DevField::Number(NumberField::Vignette))
    } else if same_chars(name, "texture_lod_bias") {
        Some(DevField::Number(NumberField::TextureLodBias))
    } else if same_chars(name, "spec_hit_roughness") {
        Some(DevField::Number(NumberField::SpecHitRoughness))
    } else if same_chars(name, "restir_history") {
        Some(DevField::Number(NumberField::RestirHistory))
    } else if same_chars(name, "sharc_voxel") {
        Some(DevField::Number(NumberField::SharcVoxel))
    } else if same_chars(name, "ev100") {
        Some(DevField::Number(NumberField::Ev100))
    } else if same_chars(name, "jitter_scale") {
        Some(DevField::Number(NumberField::JitterScale))
    } else if same_chars(name, "samples") {
        Some(DevField::Word(WordField::Samples))
    } else if same_chars(name, "max_bounces") {
        Some(DevField::Word(WordField::MaxBounces))
    } else if same_chars(name, "light_candidates") {
        Some(DevField::Word(WordField::LightCandidates))
    } else if same_chars(name, "restir_candidates") {
        Some(DevField::Word(WordField::RestirCandidates))
    } else if same_chars(name, "light_nee") {
        Some(DevField::Flag(FlagField::LightNee))
    } else if same_chars(name, "restir") {
        Some(DevField::Flag(FlagField::Restir))
    } else if same_chars(name, "sharc") {
        Some(DevField::Flag(FlagField::Sharc))
    } else if same_chars(name, "omm") {
        Some(DevField::Flag(FlagField::Omm))
    } else if same_chars(name, "ev100_lock") {
        Some(DevField::Flag(FlagField::Ev100Lock))
    } else {
        None
    }
}

impl DevUIState {
    /// The tunables by default.
    pub fn new(dlss: AuroraDlss, rr_preset: RrPreset) -> (r: Self)
        ensures
            r == default_state(dlss, rr_preset),
    {
        DevUIState {
            aperture: 0,
            foginess: 0x3A83_126F,
            fog_scatter: 0x3F66_6666,
            sky_brightness: 0x3F80_0000,
            emissive_boost: 0x3F80_0000,
            firefly_clamp: 0x4100_0000,
            vignette: 0,
            texture_lod_bias: 0xBF80_0000,
            spec_hit_roughness: 0x3F19_999A,
            restir_history: 0x41A0_0000,
            sharc_voxel: 0x3E80_0000,
            ev100: 0x40E0_0000,
            jitter_scale: 0x3F80_0000,
            samples: 1,
            max_bounces: 32,
            light_candidates: 8,
            restir_candidates: 8,
            light_nee: true,
            restir: false,
            sharc: false,
            omm: true,
            ev100_lock: false,
            dlss,
            rr_preset,
        }
    }

    /// The tunables with one number set.
    pub open spec fn with_number(self, field: NumberField, bits: u32) -> DevUIState {
        match field {
            NumberField::Aperture => DevUIState { aperture: bits, ..self },
            NumberField::Foginess => DevUIState { foginess: bits, ..self },
            NumberField::FogScatter => DevUIState { fog_scatter: bits, ..self },
            NumberField::SkyBrightness => DevUIState { sky_brightness: bits, ..self },
            NumberField::EmissiveBoost => DevUIState { emissive_boost: bits, ..self },
            NumberField::FireflyClamp => DevUIState { firefly_clamp: bits, ..self },
            NumberField::Vignette => DevUIState { vignette: bits, ..self },
            NumberField::TextureLodBias => DevUIState { texture_lod_bias: bits, ..self },
            NumberField::SpecHitRoughness => DevUIState { spec_hit_roughness: bits, ..self },
            NumberField::RestirHistory => DevUIState { restir_history: bits, ..self },
            NumberField::SharcVoxel => DevUIState { sharc_voxel: bits, ..self },
            NumberField::Ev100 => DevUIState { ev100: bits, ..self },
            NumberField::JitterScale => DevUIState { jitter_scale: bits, ..self },
        }
    }

    /// The tunables with one count set.
    pub open spec fn with_word(self, field: WordField, value: u32) -> DevUIState {
        match field {
            WordField::Samples => DevUIState { samples: value, ..self },
            WordField::MaxBounces => DevUIState { max_bounces: value, ..self },
            WordField::LightCandidates => DevUIState { light_candidates: value, ..self },
            WordField::RestirCandidates => DevUIState { restir_candidates: value, ..self },
        }
    }

    /// The tunables with one switch set.
    pub open spec fn with_flag(self, field: FlagField, value: bool) -> DevUIState {
        match field {
            FlagField::LightNee => DevUIState { light_nee: value, ..self },
            FlagField::Restir => DevUIState { restir: value, ..self },
            FlagField::Sharc => DevUIState { sharc: value, ..self },
            FlagField::Omm => DevUIState { omm: value, ..self },
            FlagField::Ev100Lock => DevUIState { ev100_lock: value, ..self },
        }
    }

    /// Sets one number.
    pub fn set_number(&mut self, field: NumberField, bits: u32)
        ensures
            *final(self) == old(self).with_number(field, bits),
    {
        match field {
            NumberField::Aperture => {
                self.aperture = bits;
            },
            NumberField::Foginess => {
                self.foginess = bits;
            },
            NumberField::FogScatter => {
                self.fog_scatter = bits;
            },
            NumberField::SkyBrightness => {
                self.sky_brightness = bits;
            },
            NumberField::EmissiveBoost => {
                self.emissive_boost = bits;
            },
            NumberField::FireflyClamp => {
                self.firefly_clamp = bits;
            },
            NumberField::Vignette => {
                self.vignette = bits;
            },
            NumberField::TextureLodBias => {
                self.texture_lod_bias = bits;
            },
            NumberField::SpecHitRoughness => {
                self.spec_hit_roughness = bits;
            },
            NumberField::RestirHistory => {
                self.restir_history = bits;
            },
            NumberField::SharcVoxel => {
                self.sharc_voxel = bits;
            },
            NumberField::Ev100 => {
                self.ev100 = bits;
            },
            NumberField::JitterScale => {
                self.jitter_scale = bits;
            },
        }
    }

    /// Sets one count.
    pub fn set_word(&mut self, field: WordField, value: u32)
        ensures
            *final(self) == old(self).with_word(field, value),
    {
        match field {
            WordField::Samples => {
                self.samples = value;
            },
            WordField::MaxBounces => {
                self.max_bounces = value;
            },
            WordField::LightCandidates => {
                self.light_candidates = value;
            },
            WordField::RestirCandidates => {
                self.restir_candidates = value;
            },
        }
    }

    /// Sets one switch.
    pub fn set_flag(&mut self, field: FlagField, value: bool)
        ensures
            *final(self) == old(self).with_flag(field, value),
    {
        match field {
            FlagField::LightNee => {
                self.light_nee = value;
            },
            FlagField::Restir => {
                self.restir = value;
            },
            FlagField::Sharc => {
                self.sharc = value;
            },
            FlagField::Omm => {
                self.omm = value;
            },
            FlagField::Ev100Lock => {
                self.ev100_lock = value;
            },
        }
    }
}

// ---- overrides ----------------------------------------------------------------------------

/// A character has the property `White_Space` of Unicode.
pub open spec fn white_space(c: char) -> bool {
    let n = c as u32;
    ||| 0x0009 <= n <= 0x000D
    ||| n == 0x0020
    ||| n == 0x0085
    ||| n == 0x00A0
    ||| n == 0x1680
    ||| 0x2000 <= n <= 0x200A
    ||| n == 0x2028
    ||| n == 0x2029
    ||| n == 0x202F
    ||| n == 0x205F
    ||| n == 0x3000
}

/// Whether a character has the property `White_Space` of Unicode.
fn is_white(c: char) -> (r: bool)
    ensures
        r == white_space(c),
{
    let n: u32 = c as u32;
    (0x0009 <= n && n <= 0x000D) || n == 0x0020 || n == 0x0085 || n == 0x00A0 || n == 0x1680 || (
    0x2000 <= n && n <= 0x200A) || n == 0x2028 || n == 0x2029 || n == 0x202F || n == 0x205F || n
        == 0x3000
}

/// `s` without leading white space.
pub open spec fn trimmed_start(s: Seq<char>) -> Seq<char>
    decreases s.len(),
{
    if s.len() > 0 && white_space(s[0]) {
        trimmed_start(s.skip(1))
    } else {
        s
    }
}

/// `s` without trailing white space.
pub open spec fn trimmed_end(s: Seq<char>) -> Seq<char>
    decreases s.len(),
{
    if s.len() > 0 && white_space(s.last()) {
        trimmed_end(s.drop_last())
    } else {
        s
    }
}

/// `s` without white space at either end.
pub open spec fn trimmed(s: Seq<char>) -> Seq<char> {
    trimmed_end(trimmed_start(s))
}

fn copy_chars(s: &Vec<char>, start: usize, end: usize) -> (r: Vec<char>)
    requires
        start <= end <= s@.len(),
    ensures
        r@ == s@.subrange(start as int, end as int),
{
    let mut r: Vec<char> = Vec::new();
    let mut i: usize = start;
    while i < end
        invariant
            start <= i <= end <= s@.len(),
            r@ == s@.subrange(start as int, i as int),
        decreases end - i,
    {
        r.push(s[i]);
        assert(r@ =~= s@.subrange(start as int, i + 1));
        i = i + 1;
    }
    r
}

fn trim(s: &Vec<char>) -> (r: Vec<char>)
    ensures
        r@ == trimmed(s@),
{
    let mut start: usize = 0;
    let n: usize = s.len();
    assert(s@.subrange(0, n as int) =~= s@);
    while start < n && is_white(s[start])
        invariant
            start <= n,
            n == s@.len(),
            trimmed_start(s@) == trimmed_start(s@.subrange(start as int, n as int)),
        decreases n - start,
    {
        assert(s@.subrange(start as int, n as int).skip(1) =~= s@.subrange(start + 1, n as int));
        start = start + 1;
    }
    let ghost front = s@.subrange(start as int, n as int);
    assert(trimmed_start(s@) == front) by {
        if start < n {
            assert(front[0] == s@[start as int]);
        }
    }
    let mut end: usize = n;
    while end > start && is_white(s[end - 1])
        invariant
            start <= end <= n,
            n == s@.len(),
            trimmed_end(front) == trimmed_end(s@.subrange(start as int, end as int)),
        decreases end,
    {
        let ghost t = s@.subrange(start as int, end as int);
        assert(t.last() == s@[end - 1]);
        assert(t.drop_last() =~= s@.subrange(start as int, end - 1));
        end = end - 1;
    }
    proof {
        let t = s@.subrange(start as int, end as int);
        if end > start {
            assert(t.last() == s@[end - 1]);
        }
    }
    copy_chars(s, start, end)
}

/// The pieces of `s` between commas.
pub open spec fn pieces(s: Seq<char>) -> Seq<Seq<char>>
    decreases s.len(),
{
    if s.len() == 0 {
        seq![Seq::empty()]
    } else {
        let front = pieces(s.drop_last());
        if s.last() == ',' {
            front.push(Seq::empty())
        } else {
            front.drop_last().push(front.last().push(s.last()))
        }
    }
}

/// There is always a piece.
proof fn lemma_pieces(s: Seq<char>)
    ensures
        pieces(s).len() > 0,
    decreases s.len(),
{
    if s.len() > 0 {
        lemma_pieces(s.drop_last());
    }
}

/// The pieces, by their characters.
pub open spec fn spelled(pieces: Seq<Vec<char>>) -> Seq<Seq<char>> {
    pieces.map_values(|p: Vec<char>| p@)
}

fn split(s: &Vec<char>) -> (r: Vec<Vec<char>>)
    ensures
        spelled(r@) == pieces(s@),
{
    let mut done: Vec<Vec<char>> = Vec::new();
    let mut piece: Vec<char> = Vec::new();
    let mut i: usize = 0;
    assert(spelled(done@).push(piece@) =~= pieces(s@.take(0)));
    while i < s.len()
        invariant
            i <= s@.len(),
            spelled(done@).push(piece@) == pieces(s@.take(i as int)),
        decreases s@.len() - i,
    {
        let ghost before = done@;
        let ghost open = piece@;
        let ghost front = pieces(s@.take(i as int));
        assert(s@.take(i + 1).drop_last() =~= s@.take(i as int));
        assert(front.last() == open);
        assert(front.drop_last() =~= spelled(before));
        if s[i] == ',' {
            done.push(piece);
            piece = Vec::new();
            assert(spelled(done@) =~= spelled(before).push(open));
            assert(spelled(done@).push(piece@) =~= front.push(Seq::empty()));
        } else {
            piece.push(s[i]);
            assert(spelled(done@).push(piece@) =~= front.drop_last().push(
                front.last().push(s@[i as int]),
            ));
        }
        i = i + 1;
    }
    assert(s@.take(i as int) =~= s@);
    let ghost before = done@;
    let ghost open = piece@;
    done.push(piece);
    assert(spelled(done@) =~= spelled(before).push(open));
    done
}

/// The first place of `c` in `s`; the length of `s` where it is nowhere.
pub open spec fn first_of(s: Seq<char>, c: char) -> int
    decreases s.len(),
{
    if s.len() == 0 || s[0] == c {
        0
    } else {
        1 + first_of(s.skip(1), c)
    }
}

fn find_char(s: &Vec<char>, c: char) -> (r: usize)
    ensures
        r == first_of(s@, c),
        r <= s@.len(),
{
    let mut i: usize = 0;
    assert(s@.skip(0) =~= s@);
    while i < s.len() && s[i] != c
        invariant
            i <= s@.len(),
            first_of(s@, c) == i + first_of(s@.skip(i as int), c),
        decreases s@.len() - i,
    {
        assert(s@.skip(i as int).skip(1) =~= s@.skip(i + 1));
        assert(s@.skip(i as int)[0] == s@[i as int]);
        i = i + 1;
    }
    if i < s.len() {
        assert(s@.skip(i as int)[0] == s@[i as int]);
    }
    i
}

/// The digits that `s` has are decimal ones.
pub open spec fn is_digit(c: char) -> bool {
    '0' <= c && c <= '9'
}

/// The number that decimal digits mean.
pub open spec fn digits_value(s: Seq<char>) -> nat
    decreases s.len(),
{
    if s.len() == 0 {
        0
    } else {
        10 * digits_value(s.drop_last()) + (s.last() as u32 - '0' as u32) as nat
    }
}

/// `s` without a leading plus sign.
pub open spec fn unsigned_part(s: Seq<char>) -> Seq<char> {
    if s.len() > 0 && s[0] == '+' {
        s.skip(1)
    } else {
        s
    }
}

/// The count that a text means, where it means one.
pub open spec fn word_of(s: Seq<char>) -> Option<u32> {
    let d = unsigned_part(s);
    if d.len() > 0 && (forall|i: int| 0 <= i < d.len() ==> is_digit(#[trigger] d[i]))
        && digits_value(d) <= u32::MAX {
        Some(digits_value(d) as u32)
    } else {
        None
    }
}

/// More digits mean no less.
proof fn lemma_digits_grow(s: Seq<char>, k: int)
    requires
        0 <= k <= s.len(),
        forall|i: int| 0 <= i < s.len() ==> is_digit(#[trigger] s[i]),
    ensures
        digits_value(s.take(k)) <= digits_value(s),
    decreases s.len() - k,
{
    if k < s.len() {
        lemma_digits_grow(s, k + 1);
        assert(s.take(k + 1).drop_last() =~= s.take(k));
    } else {
        assert(s.take(k) =~= s);
    }
}

fn parse_word(s: &Vec<char>) -> (r: Option<u32>)
    ensures
        r == word_of(s@),
{
    let start: usize = if s.len() > 0 && s[0] == '+' {
        1
    } else {
        0
    };
    let ghost d = unsigned_part(s@);
    assert(d =~= s@.skip(start as int));
    if start == s.len() {
        return None;
    }
    let mut value: u64 = 0;
    let mut fits: bool = true;
    let mut i: usize = start;
    while i < s.len()
        invariant
            start <= i <= s@.len(),
            d == s@.skip(start as int),
            d == unsigned_part(s@),
            forall|j: int| 0 <= j < i - start ==> is_digit(#[trigger] d[j]),
            fits ==> value == digits_value(d.take(i - start)) && value <= u32::MAX,
            !fits ==> digits_value(d.take(i - start)) > u32::MAX,
        decreases s@.len() - i,
    {
        let c: char = s[i];
        assert(d[i - start] == c);
        if !('0' <= c && c <= '9') {
            assert(!is_digit(d[i - start]));
            return None;
        }
        let ghost t = d.take(i - start + 1);
        assert(t.drop_last() =~= d.take(i - start));
        assert(t.last() == c);
        let digit: u64 = (c as u32 - '0' as u32) as u64;
        if fits {
            value = 10 * value + digit;
            if value > 0xFFFF_FFFF {
                fits = false;
            }
        }
        i = i + 1;
    }
    assert(d.take(i - start) =~= d);
    if fits {
        Some(value as u32)
    } else {
        None
    }
}

/// What one piece of a setting comes to.
#[derive(Debug)]
#[allow(inconsistent_fields)]
pub enum Override {
    /// A number with a fraction, still to be read.
    Number { field: NumberField, text: Vec<char> },
    Word { field: WordField, value: u32 },
    Flag { field: FlagField, value: bool },
    /// The piece cannot be applied.
    Refused { piece: Vec<char> },
}

/// The contents of an [`Override`].
#[allow(inconsistent_fields)]
pub ghost enum OverrideView {
    Number { field: NumberField, text: Seq<char> },
    Word { field: WordField, value: u32 },
    Flag { field: FlagField, value: bool },
    Refused { piece: Seq<char> },
}

impl View for Override {
    type V = OverrideView;

    open spec fn view(&self) -> OverrideView {
        match *self {
            Override::Number { field, text } => OverrideView::Number { field, text: text@ },
            Override::Word { field, value } => OverrideView::Word { field, value },
            Override::Flag { field, value } => OverrideView::Flag { field, value },
            Override::Refused { piece } => OverrideView::Refused { piece: piece@ },
        }
    }
}

/// What one piece of a setting comes to: `name=value`, both without white space around them. A
/// piece without `=`, an unknown name and a value that cannot be read are refused.
pub open spec fn override_of(piece: Seq<char>) -> OverrideView {
    let at = first_of(piece, '=');
    let name = trimmed(piece.take(at));
    let value = trimmed(piece.skip(at + 1));
    if at >= piece.len() {
        OverrideView::Refused { piece }
    } else {
        match field_named(name) {
            None => OverrideView::Refused { piece },
            Some(DevField::Number(field)) => OverrideView::Number { field, text: value },
            Some(DevField::Word(field)) => match word_of(value) {
                Some(value) => OverrideView::Word { field, value },
                None => OverrideView::Refused { piece },
            },
            Some(DevField::Flag(field)) => if value == "true"@ {
                OverrideView::Flag { field, value: true }
            } else if value == "false"@ {
                OverrideView::Flag { field, value: false }
            } else {
                OverrideView::Refused { piece }
            },
        }
    }
}

/// What the pieces of a setting come to; blank ones are left out.
pub open spec fn overrides_of(pieces: Seq<Seq<char>>) -> Seq<OverrideView>
    decreases pieces.len(),
{
    if pieces.len() == 0 {
        Seq::empty()
    } else {
        let front = overrides_of(pieces.drop_last());
        if trimmed(pieces.last()).len() == 0 {
            front
        } else {
            front.push(override_of(pieces.last()))
        }
    }
}

fn read_piece(piece: Vec<char>) -> (r: Override)
    ensures
        r@ == override_of(piece@),
{
    let at: usize = find_char(&piece, '=');
    if at >= piece.len() {
        return Override::Refused { piece };
    }
    let name: Vec<char> = trim(&copy_chars(&piece, 0, at));
    let value: Vec<char> = trim(&copy_chars(&piece, at + 1, piece.len()));
    assert(piece@.subrange(0, at as int) =~= piece@.take(at as int));
    assert(piece@.subrange(at + 1, piece@.len() as int) =~= piece@.skip(at + 1));
    match find_field(&name) {
        None => Override::Refused { piece },
        Some(DevField::Number(field)) => Override::Number { field, text: value },
        Some(DevField::Word(field)) => match parse_word(&value) {
            Some(value) => Override::Word { field, value },
            None => Override::Refused { piece },
        },
        Some(DevField::Flag(field)) => if same_chars(&value, "true") {
            Override::Flag { field, value: true }
        } else if same_chars(&value, "false") {
            Override::Flag { field, value: false }
        } else {
            Override::Refused { piece }
        },
    }
}

/// The overrides that a setting asks for, in order.
pub fn overrides(text: &str) -> (r: Vec<Override>)
    ensures
        r@.map_values(|o: Override| o@) == overrides_of(pieces(text@)),
{
    let chars: Vec<char> = chars_of(text);
    let mut parts: Vec<Vec<char>> = split(&chars);
    let ghost all = spelled(parts@);
    let mut r: Vec<Override> = Vec::new();
    let mut i: usize = 0;
    assert(r@.map_values(|o: Override| o@) =~= overrides_of(all.take(0)));
    while i < parts.len()
        invariant
            i <= parts@.len(),
            all == spelled(parts@),
            r@.map_values(|o: Override| o@) == overrides_of(all.take(i as int)),
        decreases parts@.len() - i,
    {
        let ghost before = r@;
        assert(all.take(i + 1).drop_last() =~= all.take(i as int));
        assert(all.take(i + 1).last() == parts@[i as int]@);
        if trim(&parts[i]).len() > 0 {
            let piece: Vec<char> = copy_chars(&parts[i], 0, parts[i].len());
            assert(piece@ =~= parts@[i as int]@);
            let o: Override = read_piece(piece);
            r.push(o);
            assert(r@.map_values(|o: Override| o@) =~= before.map_values(
                |o: Override| o@,
            ).push(o@));
        }
        i = i + 1;
    }
    assert(all.take(i as int) =~= all);
    r
}

/// The tunables once an override was applied; `number` is what its text reads as, where it is a
/// number with a fraction.
pub open spec fn overridden(state: DevUIState, o: OverrideView, number: Option<u32>) -> DevUIState {
    match o {
        OverrideView::Number { field, .. } => match number {
            Some(bits) => state.with_number(field, bits),
            None => state,
        },
        OverrideView::Word { field, value } => state.with_word(field, value),
        OverrideView::Flag { field, value } => state.with_flag(field, value),
        OverrideView::Refused { .. } => state,
    }
}

/// The override cannot be applied: it names no tunable, or its value cannot be read.
pub open spec fn is_refused(o: OverrideView, number: Option<u32>) -> bool {
    match o {
        OverrideView::Number { .. } => number is None,
        OverrideView::Refused { .. } => true,
        _ => false,
    }
}

/// The tunables once overrides were applied, from the first to the last.
pub open spec fn all_overridden(
    state: DevUIState,
    found: Seq<Override>,
    numbers: Seq<Option<u32>>,
) -> DevUIState
    decreases found.len(),
{
    if found.len() == 0 {
        state
    } else {
        overridden(
            all_overridden(state, found.drop_last(), numbers),
            found.last()@,
            numbers[found.len() - 1],
        )
    }
}

/// Which of the overrides cannot be applied, in order.
pub open spec fn all_refused(found: Seq<Override>, numbers: Seq<Option<u32>>) -> Seq<usize>
    decreases found.len(),
{
    if found.len() == 0 {
        Seq::empty()
    } else {
        let front = all_refused(found.drop_last(), numbers);
        if is_refused(found.last()@, numbers[found.len() - 1]) {
            front.push((found.len() - 1) as usize)
        } else {
            front
        }
    }
}

impl DevUIState {
    /// Applies an override; gives whether it could be.
    pub fn apply(&mut self, o: &Override, number: Option<u32>) -> (r: bool)
        ensures
            r == !is_refused(o@, number),
            *final(self) == overridden(*old(self), o@, number),
    {
        match o {
            Override::Number { field, .. } => match number {
                Some(bits) => {
                    self.set_number(*field, bits);
                    true
                },
                None => false,
            },
            Override::Word { field, value } => {
                self.set_word(*field, *value);
                true
            },
            Override::Flag { field, value } => {
                self.set_flag(*field, *value);
                true
            },
            Override::Refused { .. } => false,
        }
    }

    /// Applies overrides from the first to the last, so that of two for one tunable the later
    /// one counts; `numbers` has what the text of each reads as, where it is a number with a
    /// fraction. Gives which could not be applied: they are skipped.
    pub fn apply_all(&mut self, found: &Vec<Override>, numbers: &Vec<Option<u32>>) -> (r: Vec<
        usize,
    >)
        requires
            found@.len() == numbers@.len(),
        ensures
            *final(self) == all_overridden(*old(self), found@, numbers@),
            r@ == all_refused(found@, numbers@),
    {
        let mut r: Vec<usize> = Vec::new();
        let mut i: usize = 0;
        assert(found@.take(0) =~= Seq::empty());
        while i < found.len()
            invariant
                i <= found@.len(),
                found@.len() == numbers@.len(),
                *self == all_overridden(*old(self), found@.take(i as int), numbers@),
                r@ == all_refused(found@.take(i as int), numbers@),
            decreases found@.len() - i,
        {
            assert(found@.take(i + 1).drop_last() =~= found@.take(i as int));
            if !self.apply(&found[i], numbers[i]) {
                r.push(i);
            }
            i = i + 1;
        }
        assert(found@.take(i as int) =~= found@);
        r
    }
}

// ---- the panel and the cameras ----------------------------------------------------------------

/// The first of the modes that is another one, if any is.
pub open spec fn first_other(modes: Seq<AuroraDlss>, mode: AuroraDlss) -> Option<AuroraDlss>
    decreases modes.len(),
{
    if modes.len() == 0 {
        None
    } else {
        match first_other(modes.drop_last(), mode) {
            Some(other) => Some(other),
            None => if modes.last() != mode {
                Some(modes.last())
            } else {
                None
            },
        }
    }
}

/// The mode last agreed on; before the first agreement, the panel's.
pub open spec fn last_mode(panel: AuroraDlss, agreed: Option<AuroraDlss>) -> AuroraDlss {
    match agreed {
        Some(mode) => mode,
        None => panel,
    }
}

/// The mode that is agreed on: the panel's, where it moved, else that of the first camera that
/// moved.
pub open spec fn agreed_mode(panel: AuroraDlss, cameras: Seq<AuroraDlss>, last: AuroraDlss) ->
    AuroraDlss {
    if panel != last {
        panel
    } else {
        match first_other(cameras, last) {
            Some(other) => other,
            None => last,
        }
    }
}

/// The cameras' modes: the panel's, where it moved.
pub open spec fn agreed_cameras(
    panel: AuroraDlss,
    cameras: Seq<AuroraDlss>,
    last: AuroraDlss,
) -> Seq<AuroraDlss> {
    if panel != last {
        Seq::new(cameras.len(), |i: int| panel)
    } else {
        cameras
    }
}

/// Where all modes are one, that one is met, unless it is the mode asked about.
proof fn lemma_one_mode(modes: Seq<AuroraDlss>, mode: AuroraDlss, one: AuroraDlss)
    requires
        modes.len() > 0,
        forall|i: int| 0 <= i < modes.len() ==> #[trigger] modes[i] == one,
    ensures
        first_other(modes, mode) == (if one != mode {
            Some(one)
        } else {
            None
        }),
    decreases modes.len(),
{
    let front = modes.drop_last();
    assert forall|i: int| 0 <= i < front.len() implies #[trigger] front[i] == one by {
        assert(front[i] == modes[i]);
    }
    assert(modes[modes.len() - 1] == one);
    if front.len() > 0 {
        lemma_one_mode(front, mode, one);
    } else {
        assert(first_other(front, mode) is None);
    }
}

/// Cameras that had one mode have the panel's once they were made equal, and then nothing
/// moves any more.
pub proof fn lemma_modes_agree(
    panel: AuroraDlss,
    cameras: Seq<AuroraDlss>,
    last: AuroraDlss,
    one: AuroraDlss,
)
    requires
        forall|i: int| 0 <= i < cameras.len() ==> #[trigger] cameras[i] == one,
    ensures
        ({
            let mode = agreed_mode(panel, cameras, last);
            let after = agreed_cameras(panel, cameras, last);
            &&& forall|i: int| 0 <= i < after.len() ==> #[trigger] after[i] == mode
            &&& agreed_mode(mode, after, mode) == mode
            &&& agreed_cameras(mode, after, mode) == after
        }),
{
    let mode = agreed_mode(panel, cameras, last);
    let after = agreed_cameras(panel, cameras, last);
    if cameras.len() > 0 {
        lemma_one_mode(cameras, last, one);
        lemma_one_mode(after, mode, mode);
    } else {
        assert(first_other(after, mode) is None);
    }
}

/// Once another mode was met, what follows changes nothing.
proof fn lemma_first_other(modes: Seq<AuroraDlss>, mode: AuroraDlss, k: int)
    requires
        0 <= k <= modes.len(),
        first_other(modes.take(k), mode) is Some,
    ensures
        first_other(modes, mode) == first_other(modes.take(k), mode),
    decreases modes.len() - k,
{
    if k < modes.len() {
        assert(modes.take(k + 1).drop_last() =~= modes.take(k));
        lemma_first_other(modes, mode, k + 1);
    } else {
        assert(modes.take(k) =~= modes);
    }
}

/// Keeps the panel's mode and the cameras' equal: whichever side moved last wins. `agreed` is
/// what they last agreed on.
pub fn sync_dlss_mode(
    panel: &mut AuroraDlss,
    cameras: &mut Vec<AuroraDlss>,
    agreed: &mut Option<AuroraDlss>,
)
    ensures
        *final(agreed) == Some(*final(panel)),
        *final(panel) == agreed_mode(*old(panel), old(cameras)@, last_mode(*old(panel),
            *old(agreed))),
        final(cameras)@ == agreed_cameras(
            *old(panel),
            old(cameras)@,
            last_mode(*old(panel), *old(agreed)),
        ),
{
    let last: AuroraDlss = match *agreed {
        Some(mode) => mode,
        None => *panel,
    };
    if *panel != last {
        let mode: AuroraDlss = *panel;
        let n: usize = cameras.len();
        let mut i: usize = 0;
        while i < n
            invariant
                i <= n,
                n == cameras@.len(),
                forall|j: int| 0 <= j < i ==> cameras@[j] == mode,
            decreases n - i,
        {
            cameras.set(i, mode);
            i = i + 1;
        }
        assert(cameras@ =~= Seq::new(n as nat, |i: int| mode));
        *agreed = Some(mode);
        return;
    }
    let mut i: usize = 0;
    while i < cameras.len()
        invariant
            i <= cameras@.len(),
            cameras@ == old(cameras)@,
            *panel == last,
            *old(panel) == last,
            last == (match *old(agreed) {
                Some(mode) => mode,
                None => *old(panel),
            }),
            first_other(cameras@.take(i as int), last) is None,
        decreases cameras@.len() - i,
    {
        assert(cameras@.take(i + 1).drop_last() =~= cameras@.take(i as int));
        if cameras[i] != last {
            proof {
                lemma_first_other(cameras@, last, i + 1);
            }
            *panel = cameras[i];
            *agreed = Some(*panel);
            return;
        }
        i = i + 1;
    }
    assert(cameras@.take(i as int) =~= cameras@);
    *agreed = Some(last);
}

/// The panel's exposure: whether it is locked, and the stop it is locked to.
#[derive(Clone, Copy, Debug, PartialEq, Eq, Structural)]
pub struct ExposureLock {
    pub locked: bool,
    pub ev100: u32,
}

/// How the panel and the cameras are made equal.
#[derive(Clone, Copy, Debug, PartialEq, Eq, Structural)]
pub enum ExposureSync {
    /// The cameras take on the panel's exposure.
    Push,
    /// The panel takes on the first camera's.
    Pull(ExposureLock),
    /// They agree.
    Keep,
}

/// How the panel and the cameras are made equal. `moved` says whether the panel differs from
/// what was last agreed on (`None` before the first time); `camera` is the first camera's
/// exposure in the panel's terms, and `apart` whether its stop is away from the panel's.
pub open spec fn exposure_step(
    panel: ExposureLock,
    moved: Option<bool>,
    camera: Option<ExposureLock>,
    apart: bool,
) -> ExposureSync {
    if moved != Some(false) {
        ExposureSync::Push
    } else {
        match camera {
            Some(now) => if now.locked != panel.locked || (now.locked && apart) {
                ExposureSync::Pull(now)
            } else {
                ExposureSync::Keep
            },
            None => ExposureSync::Keep,
        }
    }
}

/// Decides how the panel and the cameras are made equal: the panel rules on the first frame and
/// whenever it moved; else a camera that moved does.
pub fn sync_exposure(
    panel: ExposureLock,
    moved: Option<bool>,
    camera: Option<ExposureLock>,
    apart: bool,
) -> (r: ExposureSync)
    ensures
        r == exposure_step(panel, moved, camera, apart),
{
    let still: bool = match moved {
        Some(moved) => !moved,
        None => false,
    };
    if !still {
        return ExposureSync::Push;
    }
    match camera {
        Some(now) => if now.locked != panel.locked || (now.locked && apart) {
            ExposureSync::Pull(now)
        } else {
            ExposureSync::Keep
        },
        None => ExposureSync::Keep,
    }
}

/// What the panel and the cameras agree on once a step was taken, and what the panel shows then.
pub open spec fn lock_after(panel: ExposureLock, step: ExposureSync) -> ExposureLock {
    match step {
        ExposureSync::Pull(now) => now,
        ExposureSync::Push => panel,
        ExposureSync::Keep => panel,
    }
}

/// What the panel and the cameras agree on once a step was taken.
pub fn agreed_lock(panel: ExposureLock, step: ExposureSync) -> (r: ExposureLock)
    ensures
        r == lock_after(panel, step),
{
    match step {
        ExposureSync::Pull(now) => now,
        ExposureSync::Push => panel,
        ExposureSync::Keep => panel,
    }
}

/// Once a step was taken, the panel and the first camera are locked alike and to one stop, or
/// neither is locked; and then nothing moves any more. A camera that was pushed to reads as the
/// panel.
pub proof fn lemma_exposures_agree(
    panel: ExposureLock,
    moved: Option<bool>,
    camera: Option<ExposureLock>,
    apart: bool,
)
    ensures
        ({
            let step = exposure_step(panel, moved, camera, apart);
            let after = lock_after(panel, step);
            let read = if step == ExposureSync::Push && camera is Some {
                Some(after)
            } else {
                camera
            };
            let away = step == ExposureSync::Keep && apart;
            &&& read is Some ==> read->0.locked == after.locked && !(read->0.locked && away)
            &&& exposure_step(after, Some(false), read, away) == ExposureSync::Keep
        }),
{
}

/// The exposure that the panel pushes out; `ev` is its stop in the cameras' terms.
pub fn pushed_exposure(panel: ExposureLock, ev: u32) -> (r: AuroraExposure)
    ensures
        r == (if panel.locked {
            AuroraExposure::Fixed { ev }
        } else {
            AuroraExposure::Auto(default_settings())
        }),
{
    if panel.locked {
        AuroraExposure::fixed(ev)
    } else {
        AuroraExposure::default()
    }
}

/// The preset to put in force, where the panel's is another than the one that is.
pub fn sync_rr_preset(panel: RrPreset, current: RrPreset) -> (r: Option<RrPreset>)
    ensures
        r == (if panel != current {
            Some(panel)
        } else {
            None
        }),
{
    if panel != current {
        Some(panel)
    } else {
        None
    }
}

/// What a tunable stands at.
pub ghost enum Tunable {
    Bits(u32),
    Count(u32),
    Switch(bool),
}

/// What the tunable of this kind stands at.
pub open spec fn stands_at(s: DevUIState, field: DevField) -> Tunable {
    match field {
        DevField::Number(NumberField::Aperture) => Tunable::Bits(s.aperture),
        DevField::Number(NumberField::Foginess) => Tunable::Bits(s.foginess),
        DevField::Number(NumberField::FogScatter) => Tunable::Bits(s.fog_scatter),
        DevField::Number(NumberField::SkyBrightness) => Tunable::Bits(s.sky_brightness),
        DevField::Number(NumberField::EmissiveBoost) => Tunable::Bits(s.emissive_boost),
        DevField::Number(NumberField::FireflyClamp) => Tunable::Bits(s.firefly_clamp),
        DevField::Number(NumberField::Vignette) => Tunable::Bits(s.vignette),
        DevField::Number(NumberField::TextureLodBias) => Tunable::Bits(s.texture_lod_bias),
        DevField::Number(NumberField::SpecHitRoughness) => Tunable::Bits(s.spec_hit_roughness),
        DevField::Number(NumberField::RestirHistory) => Tunable::Bits(s.restir_history),
        DevField::Number(NumberField::SharcVoxel) => Tunable::Bits(s.sharc_voxel),
        DevField::Number(NumberField::Ev100) => Tunable::Bits(s.ev100),
        DevField::Number(NumberField::JitterScale) => Tunable::Bits(s.jitter_scale),
        DevField::Word(WordField::Samples) => Tunable::Count(s.samples),
        DevField::Word(WordField::MaxBounces) => Tunable::Count(s.max_bounces),
        DevField::Word(WordField::LightCandidates) => Tunable::Count(s.light_candidates),
        DevField::Word(WordField::RestirCandidates) => Tunable::Count(s.restir_candidates),
        DevField::Flag(FlagField::LightNee) => Tunable::Switch(s.light_nee),
        DevField::Flag(FlagField::Restir) => Tunable::Switch(s.restir),
        DevField::Flag(FlagField::Sharc) => Tunable::Switch(s.sharc),
        DevField::Flag(FlagField::Omm) => Tunable::Switch(s.omm),
        DevField::Flag(FlagField::Ev100Lock) => Tunable::Switch(s.ev100_lock),
    }
}

/// An override that is applied moves its own tunable to its value and no other; one that is
/// refused moves none. Neither touches the mode and the preset.
pub proof fn lemma_override_moves_one(
    state: DevUIState,
    o: OverrideView,
    number: Option<u32>,
    other: DevField,
)
    ensures
        ({
            let after = overridden(state, o, number);
            &&& after.dlss == state.dlss
            &&& after.rr_preset == state.rr_preset
            &&& is_refused(o, number) ==> after == state
            &&& match o {
                OverrideView::Number { field, .. } => {
                    &&& number matches Some(bits) ==> stands_at(after, DevField::Number(field))
                        == Tunable::Bits(bits)
                    &&& other != DevField::Number(field) ==> stands_at(after, other) == stands_at(
                        state,
                        other,
                    )
                },
                OverrideView::Word { field, value } => {
                    &&& stands_at(after, DevField::Word(field)) == Tunable::Count(value)
                    &&& other != DevField::Word(field) ==> stands_at(after, other) == stands_at(
                        state,
                        other,
                    )
                },
                OverrideView::Flag { field, value } => {
                    &&& stands_at(after, DevField::Flag(field)) == Tunable::Switch(value)
                    &&& other != DevField::Flag(field) ==> stands_at(after, other) == stands_at(
                        state,
                        other,
                    )
                },
                OverrideView::Refused { .. } => after == state,
            }
        }),
{
}

} // verus!
