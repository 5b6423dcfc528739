//! The modes of ray reconstruction, and what a session remembers between frames.

use crate::text::same_text;
use vstd::prelude::*;
use vstd::string::*;

verus! {

/// Frames that a debug hotkey serialises.
pub const DEV_DRAIN_FRAMES: u32 = 4;

/// How many modes there are.
pub const MODE_COUNT: u32 = 5;

/// Which model a feature is created with.
#[derive(Clone, Copy, Debug, PartialEq, Eq, Structural)]
pub enum RrPreset {
    /// The vendor's pick.
    Default,
    /// The default transformer model.
    D,
    /// The latest transformer model.
    E,
}

impl Default for RrPreset {
    fn default() -> (r: Self)
        ensures
            r == RrPreset::Default,
    {
        RrPreset::Default
    }
}

impl RrPreset {
    /// The number that the driver knows the preset by.
    pub open spec fn code(self) -> u32 {
        match self {
            RrPreset::Default => 0,
            RrPreset::D => 4,
            RrPreset::E => 5,
        }
    }

    /// The preset with this number; the vendor's pick for a number that is none.
    pub open spec fn of_code(code: u32) -> RrPreset {
        if code == 4 {
            RrPreset::D
        } else if code == 5 {
            RrPreset::E
        } else {
            RrPreset::Default
        }
    }

    /// The number that the driver knows the preset by; it names the preset again.
    pub fn to_ngx(&self) -> (r: u32)
        ensures
            r == self.code(),
            RrPreset::of_code(r) == *self,
    {
        match self {
            RrPreset::Default => 0,
            RrPreset::D => 4,
            RrPreset::E => 5,
        }
    }

    /// The preset with this number.
    pub fn from_ngx(code: u32) -> (r: Self)
        ensures
            r == RrPreset::of_code(code),
    {
        if code == 4 {
            RrPreset::D
        } else if code == 5 {
            RrPreset::E
        } else {
            RrPreset::Default
        }
    }
}

/// How far the picture is upscaled.
#[derive(Clone, Copy, Debug, PartialEq, Eq, Structural)]
pub enum AuroraDlss {
    /// Not at all: denoised and anti-aliased only.
    Dlaa,
    Quality,
    Balanced,
    Performance,
    UltraPerformance,
}

impl Default for AuroraDlss {
    fn default() -> (r: Self)
        ensures
            r == AuroraDlss::Dlaa,
    {
        AuroraDlss::Dlaa
    }
}

impl AuroraDlss {
    pub open spec fn index(self) -> int {
        match self {
            AuroraDlss::Dlaa => 0,
            AuroraDlss::Quality => 1,
            AuroraDlss::Balanced => 2,
            AuroraDlss::Performance => 3,
            AuroraDlss::UltraPerformance => 4,
        }
    }

    /// The mode with this number, modulo their count.
    pub open spec fn at(i: int) -> AuroraDlss {
        let i = i % MODE_COUNT as int;
        if i == 0 {
            AuroraDlss::Dlaa
        } else if i == 1 {
            AuroraDlss::Quality
        } else if i == 2 {
            AuroraDlss::Balanced
        } else if i == 3 {
            AuroraDlss::Performance
        } else {
            AuroraDlss::UltraPerformance
        }
    }

    /// All modes, in order.
    pub fn all() -> (r: Vec<AuroraDlss>)
        ensures
            r@ == Seq::new(MODE_COUNT as nat, |i: int| AuroraDlss::at(i)),
    {
        let r: Vec<AuroraDlss> = vec![
            AuroraDlss::Dlaa,
            AuroraDlss::Quality,
            AuroraDlss::Balanced,
            AuroraDlss::Performance,
            AuroraDlss::UltraPerformance,
        ];
        assert(r@ =~= Seq::new(MODE_COUNT as nat, |i: int| AuroraDlss::at(i)));
        r
    }

    /// The name of the mode.
    pub open spec fn spec_label(self) -> Seq<char> {
        match self {
            AuroraDlss::Dlaa => "dlaa"@,
            AuroraDlss::Quality => "quality"@,
            AuroraDlss::Balanced => "balanced"@,
            AuroraDlss::Performance => "performance"@,
            AuroraDlss::UltraPerformance => "ultra-performance"@,
        }
    }

    /// The name of the mode.
    pub fn label(&self) -> (r: &'static str)
        ensures
            r@ == self.spec_label(),
    {
        match self {
            AuroraDlss::Dlaa => "dlaa",
            AuroraDlss::Quality => "quality",
            AuroraDlss::Balanced => "balanced",
            AuroraDlss::Performance => "performance",
            AuroraDlss::UltraPerformance => "ultra-performance",
        }
    }

    /// The mode that a name means.
    pub open spec fn named(name: Seq<char>) -> Option<AuroraDlss> {
        if name == "dlaa"@ {
            Some(AuroraDlss::Dlaa)
        } else if name == "quality"@ {
            Some(AuroraDlss::Quality)
        } else if name == "balanced"@ {
            Some(AuroraDlss::Balanced)
        } else if name == "performance"@ {
            Some(AuroraDlss::Performance)
        } else if name == "ultra-performance"@ || name == "ultra"@ {
            Some(AuroraDlss::UltraPerformance)
        } else {
            None
        }
    }

    /// The mode that a name means, where it means one.
    pub fn parse(s: &str) -> (r: Option<Self>)
        ensures
            r == AuroraDlss::named(s@),
    {
        if same_text(s, "dlaa") {
            Some(AuroraDlss::Dlaa)
        } else if same_text(s, "quality") {
            Some(AuroraDlss::Quality)
        } else if same_text(s, "balanced") {
            Some(AuroraDlss::Balanced)
        } else if same_text(s, "performance") {
            Some(AuroraDlss::Performance)
        } else if same_text(s, "ultra-performance") || same_text(s, "ultra") {
            Some(AuroraDlss::UltraPerformance)
        } else {
            None
        }
    }

    /// The mode that a setting asks for; the first one where it asks for none.
    pub fn from_name(name: Option<&str>) -> (r: Self)
        ensures
            r == (match name {
                Some(name) => match AuroraDlss::named(name@) {
                    Some(mode) => mode,
                    None => AuroraDlss::Dlaa,
                },
                None => AuroraDlss::Dlaa,
            }),
    {
        match name {
            Some(name) => match AuroraDlss::parse(name) {
                Some(mode) => mode,
                None => AuroraDlss::Dlaa,
            },
            None => AuroraDlss::Dlaa,
        }
    }

    /// The number that the driver knows the mode by.
    pub open spec fn quality(self) -> i32 {
        match self {
            AuroraDlss::Dlaa => 5,
            AuroraDlss::Quality => 2,
            AuroraDlss::Balanced => 1,
            AuroraDlss::Performance => 0,
            AuroraDlss::UltraPerformance => 3,
        }
    }

    /// The number that the driver knows the mode by.
    pub fn perf_quality(&self) -> (r: i32)
        ensures
            r == self.quality(),
    {
        match self {
            AuroraDlss::Dlaa => 5,
            AuroraDlss::Quality => 2,
            AuroraDlss::Balanced => 1,
            AuroraDlss::Performance => 0,
            AuroraDlss::UltraPerformance => 3,
        }
    }

    /// The mode behind this one; behind the last comes the first.
    pub fn next(&self) -> (r: Self)
        ensures
            r == AuroraDlss::at(self.index() + 1),
    {
        match self {
            AuroraDlss::Dlaa => AuroraDlss::Quality,
            AuroraDlss::Quality => AuroraDlss::Balanced,
            AuroraDlss::Balanced => AuroraDlss::Performance,
            AuroraDlss::Performance => AuroraDlss::UltraPerformance,
            AuroraDlss::UltraPerformance => AuroraDlss::Dlaa,
        }
    }
}

/// Every mode is found again by its name.
pub proof fn lemma_label_names(mode: AuroraDlss)
    ensures
        AuroraDlss::named(mode.spec_label()) == Some(mode),
{
    reveal_strlit("dlaa");
    reveal_strlit("quality");
    reveal_strlit("balanced");
    reveal_strlit("performance");
    reveal_strlit("ultra-performance");
    reveal_strlit("ultra");
    assert("quality"@[0] != "dlaa"@[0]);
    assert("balanced"@[0] != "dlaa"@[0]);
    assert("balanced"@[0] != "quality"@[0]);
    assert("performance"@[0] != "dlaa"@[0]);
    assert("performance"@[0] != "quality"@[0]);
    assert("performance"@[0] != "balanced"@[0]);
    assert("ultra-performance"@[0] != "dlaa"@[0]);
    assert("ultra-performance"@[0] != "quality"@[0]);
    assert("ultra-performance"@[0] != "balanced"@[0]);
    assert("ultra-performance"@[0] != "performance"@[0]);
}

/// Cycling through the modes meets each one once and comes back.
pub proof fn lemma_mode_cycle(mode: AuroraDlss, n: nat)
    ensures
        AuroraDlss::at(mode.index()) == mode,
        AuroraDlss::at(AuroraDlss::at(mode.index() + n).index() + 1) == AuroraDlss::at(
            mode.index() + n + 1,
        ),
        AuroraDlss::at(mode.index() + MODE_COUNT) == mode,
{
    let i = mode.index() + n;
    assert(AuroraDlss::at(i).index() == i % 5);
}

/// What a session remembers between frames.
#[derive(Clone, Copy, Debug, PartialEq, Eq, Structural)]
pub struct DlssState {
    /// The next evaluate drops its history.
    pub reset_requested: bool,
    /// Frames left to serialise around a debug hotkey.
    pub dev_drain: u32,
    /// The last frame was reconstructed.
    pub was_active: bool,
}

/// The keys that matter, as they stand in one frame.
#[derive(Clone, Copy, Debug, PartialEq, Eq, Structural)]
pub struct DevKeys {
    pub shift: bool,
    pub ctrl: bool,
    pub alt: bool,
    /// One of the debug function keys went down.
    pub function_key: bool,
    pub f10: bool,
}

impl DlssState {
    pub fn new() -> (r: Self)
        ensures
            r == (DlssState { reset_requested: false, dev_drain: 0, was_active: false }),
    {
        DlssState { reset_requested: false, dev_drain: 0, was_active: false }
    }

    /// Asks for the history to be dropped.
    pub fn request_reset(&mut self)
        ensures
            *final(self) == (DlssState { reset_requested: true, ..*old(self) }),
    {
        self.reset_requested = true;
    }

    /// Spots the debug hotkeys: frames around one are serialised, and so is every frame while
    /// F10 is held.
    pub fn dev_snippet_hotkeys(&mut self, keys: DevKeys)
        ensures
            ({
                let combo = (keys.shift || (keys.ctrl && keys.alt)) && keys.function_key;
                let drain = if combo {
                    DEV_DRAIN_FRAMES
                } else {
                    old(self).dev_drain
                };
                *final(self) == (DlssState {
                    dev_drain: if keys.f10 && drain < 2 {
                        2
                    } else {
                        drain
                    },
                    ..*old(self)
                })
            }),
    {
        if (keys.shift || (keys.ctrl && keys.alt)) && keys.function_key {
            self.dev_drain = DEV_DRAIN_FRAMES;
        }
        if keys.f10 && self.dev_drain < 2 {
            self.dev_drain = 2;
        }
    }

    /// Starts a frame that is serialised, where one is due.
    pub fn take_drain(&mut self) -> (r: bool)
        ensures
            r == (old(self).dev_drain > 0),
            *final(self) == (DlssState {
                dev_drain: if r {
                    (old(self).dev_drain - 1) as u32
                } else {
                    0
                },
                ..*old(self)
            }),
    {
        if self.dev_drain > 0 {
            self.dev_drain = self.dev_drain - 1;
            true
        } else {
            false
        }
    }

    /// Whether a frame that is reconstructed (or not) drops its history: on the first one after
    /// a gap, and where it was asked for. The request is spent either way.
    pub fn take_reset(&mut self, active: bool) -> (r: bool)
        ensures
            r == (active && (!old(self).was_active || old(self).reset_requested)),
            *final(self) == (DlssState {
                reset_requested: false,
                was_active: active,
                ..*old(self)
            }),
    {
        let r: bool = active && (!self.was_active || self.reset_requested);
        self.reset_requested = false;
        self.was_active = active;
        r
    }
}

/// Where the driver looks for its libraries first: in the development or the release
/// directory of the kit.
pub fn search_path(kit: &str, development: bool) -> (r: String)
    ensures
        r@ == kit@ + "/lib/Linux_x86_64/"@ + if development {
            "dev"@
        } else {
            "rel"@
        },
{
    let mut r: String = String::from_str(kit);
    r.append("/lib/Linux_x86_64/");
    if development {
        r.append("dev");
    } else {
        r.append("rel");
    }
    r
}

} // verus!
