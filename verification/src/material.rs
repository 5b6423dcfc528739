//! The ray tracer's material. Numbers that are no indices are bit patterns.
//!
//! On the device a material is a record plus the image ids its texture slots come from; the
//! slots are resolved to bindless indices when instances are prepared, so textures apply
//! whenever they finish loading.

use crate::bits::{Vec3, Vec4};
use crate::render_device::{BindlessMap, BindlessSlots, Registration};
use vstd::prelude::*;

verus! {

/// One.
pub const ONE: u32 = 0x3F80_0000;

/// One half.
pub const HALF: u32 = 0x3F00_0000;

/// One and a half.
pub const ONE_AND_A_HALF: u32 = 0x3FC0_0000;

/// Positive infinity.
pub const INFINITY: u32 = 0x7F80_0000;

/// How a surface's alpha is treated.
#[derive(Clone, Copy, Debug, PartialEq, Eq, Structural)]
pub enum AlphaMode {
    Opaque,
    Mask(u32),
    Blend,
}

impl Default for AlphaMode {
    fn default() -> (r: Self)
        ensures
            r == AlphaMode::Opaque,
    {
        AlphaMode::Opaque
    }
}

/// A material as it is authored; textures by their image ids.
#[derive(Clone, Copy, Debug, PartialEq, Eq, Structural)]
pub struct AuroraMaterial {
    pub base_color: Vec4,
    pub base_color_texture: Option<u64>,
    /// Linear radiance.
    pub emissive: Vec4,
    pub emissive_texture: Option<u64>,
    pub perceptual_roughness: u32,
    pub metallic: u32,
    pub metallic_roughness_texture: Option<u64>,
    pub normal_map_texture: Option<u64>,
    pub depth_map: Option<u64>,
    pub specular_transmission: u32,
    pub ior: u32,
    pub attenuation_color: Vec4,
    pub attenuation_distance: u32,
    pub alpha_mode: AlphaMode,
}

/// A white, rough, opaque surface.
pub open spec fn default_material() -> AuroraMaterial {
    AuroraMaterial {
        base_color: Vec4 { x: ONE, y: ONE, z: ONE, w: ONE },
        base_color_texture: None,
        emissive: Vec4 { x: 0, y: 0, z: 0, w: ONE },
        emissive_texture: None,
        perceptual_roughness: HALF,
        metallic: 0,
        metallic_roughness_texture: None,
        normal_map_texture: None,
        depth_map: None,
        specular_transmission: 0,
        ior: ONE_AND_A_HALF,
        attenuation_color: Vec4 { x: ONE, y: ONE, z: ONE, w: ONE },
        attenuation_distance: INFINITY,
        alpha_mode: AlphaMode::Opaque,
    }
}

impl Default for AuroraMaterial {
    fn default() -> (r: Self)
        ensures
            r == default_material(),
    {
        AuroraMaterial {
            base_color: Vec4 { x: ONE, y: ONE, z: ONE, w: ONE },
            base_color_texture: None,
            emissive: Vec4 { x: 0, y: 0, z: 0, w: ONE },
            emissive_texture: None,
            perceptual_roughness: HALF,
            metallic: 0,
            metallic_roughness_texture: None,
            normal_map_texture: None,
            depth_map: None,
            specular_transmission: 0,
            ior: ONE_AND_A_HALF,
            attenuation_color: Vec4 { x: ONE, y: ONE, z: ONE, w: ONE },
            attenuation_distance: INFINITY,
            alpha_mode: AlphaMode::Opaque,
        }
    }
}

impl AuroraMaterial {
    /// The default material in this colour.
    pub fn from_color(base_color: Vec4) -> (r: Self)
        ensures
            r == (AuroraMaterial { base_color, ..default_material() }),
    {
        let mut r: AuroraMaterial = AuroraMaterial::default();
        r.base_color = base_color;
        r
    }
}

/// The record that the hit shaders read.
#[derive(Clone, Copy, Debug, PartialEq, Eq, Structural)]
pub struct RTXMaterial {
    pub base_color_factor: Vec4,
    pub base_emissive_factor: Vec4,
    pub base_color_texture: u32,
    pub base_emissive_texture: u32,
    pub specular_transmission_texture: u32,
    pub metallic_roughness_texture: u32,
    pub normal_texture: u32,
    pub specular_transmission_factor: u32,
    pub roughness_factor: u32,
    pub metallic_factor: u32,
    pub refract_index: u32,
    /// Absorption per unit distance travelled inside the surface.
    pub absorption: Vec3,
}

/// The bindless indices that stand in for textures that are not there.
#[derive(Clone, Copy, Debug, PartialEq, Eq, Structural)]
pub struct Fallbacks {
    pub white: u32,
    pub normal: u32,
}

/// The distance is a number above zero: light is absorbed along it. Else the medium is clear.
pub open spec fn is_positive_finite(bits: u32) -> bool {
    0 < bits < INFINITY
}

/// Whether a medium with this attenuation distance absorbs light. An infinite distance, one
/// that is no number and one that is not above zero mean a clear medium.
pub fn absorbs(distance: u32) -> (r: bool)
    ensures
        r == is_positive_finite(distance),
{
    0 < distance && distance < INFINITY
}

impl RTXMaterial {
    /// The record of a material without textures.
    pub fn from_material(material: &AuroraMaterial, absorption: Vec3, fallbacks: Fallbacks) -> (r:
        Self)
        ensures
            r == (RTXMaterial {
                base_color_factor: material.base_color,
                base_emissive_factor: material.emissive,
                base_color_texture: fallbacks.white,
                base_emissive_texture: fallbacks.white,
                specular_transmission_texture: fallbacks.white,
                metallic_roughness_texture: fallbacks.white,
                normal_texture: fallbacks.normal,
                specular_transmission_factor: material.specular_transmission,
                roughness_factor: material.perceptual_roughness,
                metallic_factor: material.metallic,
                refract_index: material.ior,
                absorption,
            }),
    {
        RTXMaterial {
            base_color_factor: material.base_color,
            base_emissive_factor: material.emissive,
            base_color_texture: fallbacks.white,
            base_emissive_texture: fallbacks.white,
            specular_transmission_texture: fallbacks.white,
            metallic_roughness_texture: fallbacks.white,
            normal_texture: fallbacks.normal,
            specular_transmission_factor: material.specular_transmission,
            roughness_factor: material.perceptual_roughness,
            metallic_factor: material.metallic,
            refract_index: material.ior,
            absorption,
        }
    }

    /// The record of a surface that has no material: grey, fully rough.
    pub fn plain(fallbacks: Fallbacks) -> (r: Self)
        ensures
            r == (RTXMaterial {
                base_color_factor: Vec4 { x: HALF, y: HALF, z: HALF, w: ONE },
                base_emissive_factor: Vec4 { x: 0, y: 0, z: 0, w: 0 },
                base_color_texture: fallbacks.white,
                base_emissive_texture: fallbacks.white,
                specular_transmission_texture: fallbacks.white,
                metallic_roughness_texture: fallbacks.white,
                normal_texture: fallbacks.normal,
                specular_transmission_factor: 0,
                roughness_factor: ONE,
                metallic_factor: 0,
                refract_index: ONE,
                absorption: Vec3 { x: 0, y: 0, z: 0 },
            }),
    {
        RTXMaterial {
            base_color_factor: Vec4 { x: HALF, y: HALF, z: HALF, w: ONE },
            base_emissive_factor: Vec4 { x: 0, y: 0, z: 0, w: 0 },
            base_color_texture: fallbacks.white,
            base_emissive_texture: fallbacks.white,
            specular_transmission_texture: fallbacks.white,
            metallic_roughness_texture: fallbacks.white,
            normal_texture: fallbacks.normal,
            specular_transmission_factor: 0,
            roughness_factor: ONE,
            metallic_factor: 0,
            refract_index: ONE,
            absorption: Vec3 { x: 0, y: 0, z: 0 },
        }
    }
}

/// A texture slot of a material.
#[derive(Clone, Copy, Debug, PartialEq, Eq, Structural)]
pub enum TextureSlot {
    /// The material names no texture.
    Unused,
    /// The material names one that is not on the device yet.
    Loading,
    /// The material names one that is on the device, with this view.
    Loaded { view: u64 },
}

/// A material's record with its texture slots.
#[derive(Clone, Copy, Debug, PartialEq, Eq, Structural)]
pub struct StandardRtxMaterial {
    pub material: RTXMaterial,
    pub base_color_texture: TextureSlot,
    pub emissive_texture: TextureSlot,
    pub metallic_roughness_texture: TextureSlot,
    pub normal_map_texture: TextureSlot,
}

/// A descriptor to write: the view, and the slot it goes to.
#[derive(Clone, Copy, Debug, PartialEq, Eq, Structural)]
pub struct DescriptorWrite {
    pub index: u32,
    pub view: u64,
}

/// What resolving a material comes to.
#[derive(Debug)]
pub struct Resolved {
    pub material: RTXMaterial,
    /// Every texture that the material names was found; else the record is worth resolving
    /// again later.
    pub complete: bool,
    pub writes: Vec<DescriptorWrite>,
}

impl TextureSlot {
    /// There is a bindless slot for the texture.
    pub open spec fn has_room(self, slots: BindlessSlots) -> bool {
        match self {
            TextureSlot::Loaded { view } => slots.has_room(view),
            _ => true,
        }
    }

    /// The bindless table once the texture is registered.
    pub open spec fn registered(self, slots: BindlessSlots) -> BindlessSlots {
        match self {
            TextureSlot::Loaded { view } => slots.with(view),
            _ => slots,
        }
    }

    /// The index of the texture: a loaded one's bindless slot, for everything else the
    /// fallback.
    pub open spec fn index(self, slots: BindlessSlots, fallback: u32) -> u32 {
        match self {
            TextureSlot::Loaded { view } => self.registered(slots).by_view[view],
            _ => fallback,
        }
    }

    /// The descriptor to write: that of a texture that had no slot before.
    pub open spec fn write(self, slots: BindlessSlots) -> Seq<DescriptorWrite> {
        match self {
            TextureSlot::Loaded { view } => if slots.by_view.contains_key(view) {
                Seq::empty()
            } else {
                seq![DescriptorWrite { index: slots.with(view).by_view[view], view }]
            },
            _ => Seq::empty(),
        }
    }
}

/// Registers the texture of one slot, where it has one.
fn resolve_slot(
    slot: TextureSlot,
    fallback: u32,
    map: &mut BindlessMap,
    writes: &mut Vec<DescriptorWrite>,
) -> (index: u32)
    requires
        old(map).wf(),
        slot.has_room(old(map)@),
    ensures
        final(map).wf(),
        final(map)@ == slot.registered(old(map)@),
        final(writes)@ == old(writes)@ + slot.write(old(map)@),
        index == slot.index(old(map)@, fallback),
{
    match slot {
        TextureSlot::Loaded { view } => {
            let r: Registration = map.register(view);
            if r.write {
                writes.push(DescriptorWrite { index: r.index, view });
            }
            assert(writes@ =~= old(writes)@ + slot.write(old(map)@));
            r.index
        },
        _ => {
            assert(writes@ =~= old(writes)@ + slot.write(old(map)@));
            fallback
        },
    }
}

impl StandardRtxMaterial {
    /// No slot waits for its texture.
    pub open spec fn all_there(self) -> bool {
        &&& self.base_color_texture != TextureSlot::Loading
        &&& self.emissive_texture != TextureSlot::Loading
        &&& self.metallic_roughness_texture != TextureSlot::Loading
        &&& self.normal_map_texture != TextureSlot::Loading
    }

    /// The bindless table as the emissive texture finds it.
    pub open spec fn after_base_color(self, slots: BindlessSlots) -> BindlessSlots {
        self.base_color_texture.registered(slots)
    }

    /// The bindless table as the metallic and roughness texture finds it.
    pub open spec fn after_emissive(self, slots: BindlessSlots) -> BindlessSlots {
        self.emissive_texture.registered(self.after_base_color(slots))
    }

    /// The bindless table as the normal map finds it.
    pub open spec fn after_metallic_roughness(self, slots: BindlessSlots) -> BindlessSlots {
        self.metallic_roughness_texture.registered(self.after_emissive(slots))
    }

    /// There is a bindless slot for every texture.
    pub open spec fn has_room(self, slots: BindlessSlots) -> bool {
        &&& self.base_color_texture.has_room(slots)
        &&& self.emissive_texture.has_room(self.after_base_color(slots))
        &&& self.metallic_roughness_texture.has_room(self.after_emissive(slots))
        &&& self.normal_map_texture.has_room(self.after_metallic_roughness(slots))
    }

    /// The record with every texture slot filled.
    pub open spec fn filled(self, slots: BindlessSlots, fallbacks: Fallbacks) -> RTXMaterial {
        RTXMaterial {
            base_color_texture: self.base_color_texture.index(slots, fallbacks.white),
            base_emissive_texture: self.emissive_texture.index(
                self.after_base_color(slots),
                fallbacks.white,
            ),
            metallic_roughness_texture: self.metallic_roughness_texture.index(
                self.after_emissive(slots),
                fallbacks.white,
            ),
            normal_texture: self.normal_map_texture.index(
                self.after_metallic_roughness(slots),
                fallbacks.normal,
            ),
            ..self.material
        }
    }

    /// The record with every texture slot filled from the bindless table, or its fallback,
    /// and whether every texture that the material names was found.
    pub fn resolve_checked(&self, map: &mut BindlessMap, fallbacks: Fallbacks) -> (r: Resolved)
        requires
            old(map).wf(),
            self.has_room(old(map)@),
        ensures
            final(map).wf(),
            final(map)@ == self.normal_map_texture.registered(
                self.after_metallic_roughness(old(map)@),
            ),
            r.material == self.filled(old(map)@, fallbacks),
            r.complete == self.all_there(),
            r.writes@ == self.base_color_texture.write(old(map)@) + self.emissive_texture.write(
                self.after_base_color(old(map)@),
            ) + self.metallic_roughness_texture.write(self.after_emissive(old(map)@))
                + self.normal_map_texture.write(self.after_metallic_roughness(old(map)@)),
    {
        let mut writes: Vec<DescriptorWrite> = Vec::new();
        let base_color: u32 = resolve_slot(
            self.base_color_texture,
            fallbacks.white,
            map,
            &mut writes,
        );
        let emissive: u32 = resolve_slot(self.emissive_texture, fallbacks.white, map, &mut writes);
        let metallic_roughness: u32 = resolve_slot(
            self.metallic_roughness_texture,
            fallbacks.white,
            map,
            &mut writes,
        );
        let normal: u32 = resolve_slot(
            self.normal_map_texture,
            fallbacks.normal,
            map,
            &mut writes,
        );
        let complete: bool = self.base_color_texture != TextureSlot::Loading
            && self.emissive_texture != TextureSlot::Loading && self.metallic_roughness_texture
            != TextureSlot::Loading && self.normal_map_texture != TextureSlot::Loading;
        let mut material: RTXMaterial = self.material;
        material.base_color_texture = base_color;
        material.base_emissive_texture = emissive;
        material.metallic_roughness_texture = metallic_roughness;
        material.normal_texture = normal;
        assert(writes@ =~= self.base_color_texture.write(old(map)@) + self.emissive_texture.write(
            self.after_base_color(old(map)@),
        ) + self.metallic_roughness_texture.write(self.after_emissive(old(map)@))
            + self.normal_map_texture.write(self.after_metallic_roughness(old(map)@)));
        Resolved { material, complete, writes }
    }
}

/// Once a material is resolved, resolving it again gives the same record, registers nothing and
/// writes nothing.
pub proof fn lemma_resolved_once(m: StandardRtxMaterial, slots: BindlessSlots, fallbacks: Fallbacks)
    ensures
        ({
            let after = m.normal_map_texture.registered(m.after_metallic_roughness(slots));
            &&& m.filled(after, fallbacks) == m.filled(slots, fallbacks)
            &&& m.normal_map_texture.registered(m.after_metallic_roughness(after)) == after
            &&& m.base_color_texture.write(after).len() == 0
            &&& m.emissive_texture.write(m.after_base_color(after)).len() == 0
            &&& m.metallic_roughness_texture.write(m.after_emissive(after)).len() == 0
            &&& m.normal_map_texture.write(m.after_metallic_roughness(after)).len() == 0
        }),
{
}

/// The slot's index is the bindless slot that its own texture has in the end, where that is on
/// the device, and else what stands in for it.
pub open spec fn bound_to(slot: TextureSlot, index: u32, fallback: u32,
    after: BindlessSlots) -> bool {
    match slot {
        TextureSlot::Loaded { view } => after.by_view.contains_key(view) && after.by_view[view]
            == index,
        TextureSlot::Loading | TextureSlot::Unused => index == fallback,
    }
}

/// Each of a resolved record's texture slots leads to its own texture or its own fallback, all
/// else of the record is the material's, every view that had a bindless slot keeps it, and each
/// descriptor that is written is that of a view that had none, at the slot that it got.
pub proof fn lemma_textures_bound(
    m: StandardRtxMaterial,
    slots: BindlessSlots,
    fallbacks: Fallbacks,
)
    ensures
        ({
            let r = m.filled(slots, fallbacks);
            let after = m.normal_map_texture.registered(m.after_metallic_roughness(slots));
            let writes = m.base_color_texture.write(slots) + m.emissive_texture.write(
                m.after_base_color(slots),
            ) + m.metallic_roughness_texture.write(m.after_emissive(slots))
                + m.normal_map_texture.write(m.after_metallic_roughness(slots));
            &&& bound_to(m.base_color_texture, r.base_color_texture, fallbacks.white, after)
            &&& bound_to(m.emissive_texture, r.base_emissive_texture, fallbacks.white, after)
            &&& bound_to(
                m.metallic_roughness_texture,
                r.metallic_roughness_texture,
                fallbacks.white,
                after,
            )
            &&& bound_to(m.normal_map_texture, r.normal_texture, fallbacks.normal, after)
            &&& r.base_color_factor == m.material.base_color_factor
            &&& r.base_emissive_factor == m.material.base_emissive_factor
            &&& r.specular_transmission_texture == m.material.specular_transmission_texture
            &&& r.specular_transmission_factor == m.material.specular_transmission_factor
            &&& r.roughness_factor == m.material.roughness_factor
            &&& r.metallic_factor == m.material.metallic_factor
            &&& r.refract_index == m.material.refract_index
            &&& r.absorption == m.material.absorption
            &&& forall|v: u64|
                slots.by_view.contains_key(v) ==> #[trigger] after.by_view.contains_key(v)
                    && after.by_view[v] == slots.by_view[v]
            &&& forall|i: int|
                0 <= i < writes.len() ==> {
                    let w = #[trigger] writes[i];
                    &&& !slots.by_view.contains_key(w.view)
                    &&& after.by_view.contains_key(w.view)
                    &&& after.by_view[w.view] == w.index
                }
            // A texture that is new is written.
            &&& forall|v: u64|
                after.by_view.contains_key(v) && !slots.by_view.contains_key(v) ==> exists|i: int|
                    0 <= i < writes.len() && (#[trigger] writes[i]).view == v
        }),
{
    let a = m.base_color_texture.write(slots);
    let b = m.emissive_texture.write(m.after_base_color(slots));
    let c = m.metallic_roughness_texture.write(m.after_emissive(slots));
    let d = m.normal_map_texture.write(m.after_metallic_roughness(slots));
    let writes = a + b + c + d;
    let after = m.normal_map_texture.registered(m.after_metallic_roughness(slots));
    assert forall|i: int| 0 <= i < writes.len() implies {
        let w = #[trigger] writes[i];
        &&& !slots.by_view.contains_key(w.view)
        &&& after.by_view.contains_key(w.view)
        &&& after.by_view[w.view] == w.index
    } by {
        if i < a.len() {
            assert(writes[i] == a[i]);
        } else if i < a.len() + b.len() {
            assert(writes[i] == b[i - a.len()]);
        } else if i < a.len() + b.len() + c.len() {
            assert(writes[i] == c[i - a.len() - b.len()]);
        } else {
            assert(writes[i] == d[i - a.len() - b.len() - c.len()]);
        }
    }
    assert forall|v: u64|
        after.by_view.contains_key(v) && !slots.by_view.contains_key(v) implies exists|i: int|
        0 <= i < writes.len() && (#[trigger] writes[i]).view == v by {
        if m.after_base_color(slots).by_view.contains_key(v) {
            assert(writes[0] == a[0]);
        } else if m.after_emissive(slots).by_view.contains_key(v) {
            assert(writes[a.len() as int] == b[0]);
        } else if m.after_metallic_roughness(slots).by_view.contains_key(v) {
            assert(writes[(a.len() + b.len()) as int] == c[0]);
        } else {
            assert(writes[(a.len() + b.len() + c.len()) as int] == d[0]);
        }
    }
}

} // verus!
