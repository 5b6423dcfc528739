//! Which buffer the final picture shows.

use crate::text::same_text;
use vstd::prelude::*;

verus! {

/// Which buffer the final picture shows.
#[derive(Clone, Copy, Debug, PartialEq, Eq, Structural)]
pub enum AuroraDebugView {
    /// The reconstructed frame.
    Picture,
    /// The denoiser's noisy colour input.
    Color,
    Normals,
    Roughness,
    Diffuse,
    Specular,
    Depth,
    SpecHit,
    Motion,
    /// Scene luminance, in false colours.
    Luminance,
}

impl Default for AuroraDebugView {
    fn default() -> (r: Self)
        ensures
            r == AuroraDebugView::Picture,
    {
        AuroraDebugView::Picture
    }
}

/// How many views there are.
pub const VIEW_COUNT: u32 = 10;

/// The view that a name asks for; the normal picture where it asks for none.
pub open spec fn view_named(name: Seq<char>) -> AuroraDebugView {
    if name == "color"@ {
        AuroraDebugView::Color
    } else if name == "normals"@ {
        AuroraDebugView::Normals
    } else if name == "roughness"@ {
        AuroraDebugView::Roughness
    } else if name == "diffuse"@ {
        AuroraDebugView::Diffuse
    } else if name == "specular"@ {
        AuroraDebugView::Specular
    } else if name == "depth"@ {
        AuroraDebugView::Depth
    } else if name == "spec-hit"@ {
        AuroraDebugView::SpecHit
    } else if name == "motion"@ {
        AuroraDebugView::Motion
    } else if name == "luminance"@ || name == "nits"@ {
        AuroraDebugView::Luminance
    } else {
        AuroraDebugView::Picture
    }
}

impl AuroraDebugView {
    /// The number of the view, counted from the normal picture.
    pub open spec fn index(self) -> u32 {
        match self {
            AuroraDebugView::Picture => 0,
            AuroraDebugView::Color => 1,
            AuroraDebugView::Normals => 2,
            AuroraDebugView::Roughness => 3,
            AuroraDebugView::Diffuse => 4,
            AuroraDebugView::Specular => 5,
            AuroraDebugView::Depth => 6,
            AuroraDebugView::SpecHit => 7,
            AuroraDebugView::Motion => 8,
            AuroraDebugView::Luminance => 9,
        }
    }

    /// The view with this number, modulo their count.
    pub open spec fn at(i: int) -> AuroraDebugView {
        let i = i % VIEW_COUNT as int;
        if i == 0 {
            AuroraDebugView::Picture
        } else if i == 1 {
            AuroraDebugView::Color
        } else if i == 2 {
            AuroraDebugView::Normals
        } else if i == 3 {
            AuroraDebugView::Roughness
        } else if i == 4 {
            AuroraDebugView::Diffuse
        } else if i == 5 {
            AuroraDebugView::Specular
        } else if i == 6 {
            AuroraDebugView::Depth
        } else if i == 7 {
            AuroraDebugView::SpecHit
        } else if i == 8 {
            AuroraDebugView::Motion
        } else {
            AuroraDebugView::Luminance
        }
    }

    /// All views, in order.
    pub fn all() -> (r: Vec<AuroraDebugView>)
        ensures
            r@ == Seq::new(VIEW_COUNT as nat, |i: int| AuroraDebugView::at(i)),
    {
        let r: Vec<AuroraDebugView> = vec![
            AuroraDebugView::Picture,
            AuroraDebugView::Color,
            AuroraDebugView::Normals,
            AuroraDebugView::Roughness,
            AuroraDebugView::Diffuse,
            AuroraDebugView::Specular,
            AuroraDebugView::Depth,
            AuroraDebugView::SpecHit,
            AuroraDebugView::Motion,
            AuroraDebugView::Luminance,
        ];
        assert(r@ =~= Seq::new(VIEW_COUNT as nat, |i: int| AuroraDebugView::at(i)));
        r
    }

    /// The number that the shaders know the view by.
    pub fn shader_index(&self) -> (r: u32)
        ensures
            r == self.index(),
    {
        match self {
            AuroraDebugView::Picture => 0,
            AuroraDebugView::Color => 1,
            AuroraDebugView::Normals => 2,
            AuroraDebugView::Roughness => 3,
            AuroraDebugView::Diffuse => 4,
            AuroraDebugView::Specular => 5,
            AuroraDebugView::Depth => 6,
            AuroraDebugView::SpecHit => 7,
            AuroraDebugView::Motion => 8,
            AuroraDebugView::Luminance => 9,
        }
    }

    /// The view that a setting asks for.
    pub fn from_name(name: Option<&str>) -> (r: Self)
        ensures
            r == (match name {
                Some(name) => view_named(name@),
                None => AuroraDebugView::Picture,
            }),
    {
        let name: &str = match name {
            Some(name) => name,
            None => return AuroraDebugView::Picture,
        };
        if same_text(name, "color") {
            AuroraDebugView::Color
        } else if same_text(name, "normals") {
            AuroraDebugView::Normals
        } else if same_text(name, "roughness") {
            AuroraDebugView::Roughness
        } else if same_text(name, "diffuse") {
            AuroraDebugView::Diffuse
        } else if same_text(name, "specular") {
            AuroraDebugView::Specular
        } else if same_text(name, "depth") {
            AuroraDebugView::Depth
        } else if same_text(name, "spec-hit") {
            AuroraDebugView::SpecHit
        } else if same_text(name, "motion") {
            AuroraDebugView::Motion
        } else if same_text(name, "luminance") || same_text(name, "nits") {
            AuroraDebugView::Luminance
        } else {
            AuroraDebugView::Picture
        }
    }

    /// The view behind this one; behind the last comes the first.
    pub fn next(&self) -> (r: Self)
        ensures
            r == AuroraDebugView::at(self.index() + 1),
    {
        match self {
            AuroraDebugView::Picture => AuroraDebugView::Color,
            AuroraDebugView::Color => AuroraDebugView::Normals,
            AuroraDebugView::Normals => AuroraDebugView::Roughness,
            AuroraDebugView::Roughness => AuroraDebugView::Diffuse,
            AuroraDebugView::Diffuse => AuroraDebugView::Specular,
            AuroraDebugView::Specular => AuroraDebugView::Depth,
            AuroraDebugView::Depth => AuroraDebugView::SpecHit,
            AuroraDebugView::SpecHit => AuroraDebugView::Motion,
            AuroraDebugView::Motion => AuroraDebugView::Luminance,
            AuroraDebugView::Luminance => AuroraDebugView::Picture,
        }
    }
}

/// The view `n` steps on from `view` is `n` places further, so cycling through all views meets
/// each one once and comes back.
pub proof fn lemma_cycle(view: AuroraDebugView, n: nat)
    ensures
        AuroraDebugView::at(view.index() as int) == view,
        AuroraDebugView::at(AuroraDebugView::at(view.index() + n).index() + 1)
            == AuroraDebugView::at(view.index() + n + 1),
        AuroraDebugView::at(view.index() + VIEW_COUNT) == view,
{
    let i = view.index() + n;
    assert(AuroraDebugView::at(i as int).index() == i % 10);
}

} // verus!
