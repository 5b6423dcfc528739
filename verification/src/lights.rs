//! The light table for next-event estimation: analytic lights, then emissive triangles.
//!
//! Entries `[0, analytic_count)` are analytic lights. Behind them every emissive instance has
//! all of its triangles as one contiguous range. The host only tracks *which* instances are
//! emissive and uploads their records; the sampling weights are computed on the device.

use crate::bits::{Vec2, Vec3};
use crate::commands::{
    no_buffer, Buffer, Command, Kernel, LightPowerParams, LightScanParams, Params, Source,
    ACCESS_INDIRECT_COMMAND_READ, ACCESS_SHADER_READ, ACCESS_SHADER_WRITE, ACCESS_TRANSFER_WRITE,
    STAGE_COMPUTE_SHADER, STAGE_DRAW_INDIRECT, STAGE_RAY_TRACING_SHADER, STAGE_TRANSFER,
};
use crate::compute::{
    barrier, compute_to_compute, compute_to_compute_barrier, includes, lemma_includes,
    memory_barrier, ordered,
};
use crate::slot_map::SlotMap;
use vstd::prelude::*;

verus! {

/// A slot that lights nothing.
pub const NO_LIGHT: u32 = 0xFFFF_FFFF;

/// What an emissive instance's geometry and emission come from, by asset ids.
#[derive(Clone, Copy, Debug, PartialEq, Eq, Structural)]
pub enum LightSource {
    /// A mesh with an emissive material: one emission for every geometry.
    Mesh { mesh: u64, material: u64 },
    /// A glTF bundle: emission per geometry, from its materials.
    Gltf { gltf: u64 },
}

/// One analytic light; numbers but `kind` and `flags` are bit patterns.
#[derive(Clone, Copy, Debug, PartialEq, Eq, Structural)]
pub struct AnalyticLight {
    pub position: Vec3,
    /// 0 point, 1 spot, 2 rect.
    pub kind: u32,
    pub direction: Vec3,
    pub radius: u32,
    pub tangent: Vec3,
    pub cos_inner: u32,
    pub emission: Vec3,
    pub cos_outer: u32,
    pub half_extents: Vec2,
    pub power: u32,
    pub flags: u32,
}

/// One emissive instance, as the kernels read it.
#[derive(Clone, Copy, Debug, PartialEq, Eq, Structural)]
pub struct LightInst {
    pub verts: u64,
    pub indices: u64,
    pub geom_to_index: u64,
    pub geom_to_triangle: u64,
    pub geom_count: u32,
    pub slot: u32,
    pub entry_base: u32,
    pub tri_count: u32,
    /// Address of the instance's emissions, three numbers for each geometry.
    pub geom_emission: u64,
    pub pad: u64,
}

/// The head of the light table, as the kernels read it.
#[derive(Clone, Copy, Debug, PartialEq, Eq, Structural)]
pub struct LightsHeader {
    pub entry_count: u32,
    pub linst_count: u32,
    /// Written by the scan; 0 until then.
    pub total_power: u32,
    pub slot_map_count: u32,
    pub analytic_count: u32,
    pub pad1: u32,
    pub cdf: u64,
    pub linsts: u64,
    pub slot_to_linst: u64,
    pub analytics: u64,
}

/// The light table: which instances light the scene, and its state on the device.
#[derive(Debug)]
pub struct LightManager {
    /// Instances that may light the scene.
    pub sources: SlotMap<LightSource>,
    /// Mesh instances whose material had not loaded when they were seen.
    pub pending: SlotMap<LightSource>,
    pub dirty: bool,
    pub header: Buffer,
    pub linsts: Buffer,
    pub slot_map: Buffer,
    pub cdf: Buffer,
    pub emissions: Buffer,
    pub analytics: Buffer,
    /// The analytic lights as last extracted, in entry order.
    pub analytic_cache: Vec<AnalyticLight>,
    /// The entities of those lights, in entry order.
    pub analytic_entities: Vec<u64>,
    /// The cache changed in place: it is uploaded again without a rebuild.
    pub analytic_upload: bool,
    pub entry_count: u32,
    pub linst_count: u32,
    pub needs_power_pass: bool,
    pub warned_module: bool,
    pub logged_instances: u32,
    pub logged_entries: u32,
    /// Entries that the frame may use (0 while the table is empty).
    pub active_entries: u32,
    /// Changed by every rebuild; reservoirs remember it, so that stale entries are dropped.
    pub epoch: u32,
}

// ---- which instances light the scene ------------------------------------------------------

/// An instance, as far as lighting goes.
#[derive(Clone, Copy, Debug, PartialEq, Eq, Structural)]
pub struct LightCandidate {
    pub slot: u32,
    pub gltf: Option<u64>,
    pub mesh: Option<u64>,
    pub material: Option<u64>,
    /// Whether the material emits; `None` while it has not loaded.
    pub emissive: Option<bool>,
}

/// Which instances light the scene, and whether that changed.
#[verifier::ext_equal]
pub ghost struct Tracking {
    pub sources: Map<u32, LightSource>,
    pub pending: Map<u32, LightSource>,
    pub dirty: bool,
}

/// A source is put in place; the table changes unless it stood there.
pub open spec fn tracked_on(t: Tracking, slot: u32, source: LightSource) -> Tracking {
    Tracking {
        sources: t.sources.insert(slot, source),
        pending: t.pending.remove(slot),
        dirty: t.dirty || !(t.sources.contains_key(slot) && t.sources[slot] == source),
    }
}

/// A slot lights nothing; the table changes if it did.
pub open spec fn tracked_off(t: Tracking, slot: u32) -> Tracking {
    Tracking {
        sources: t.sources.remove(slot),
        pending: t.pending.remove(slot),
        dirty: t.dirty || t.sources.contains_key(slot),
    }
}

/// An instance was considered. A glTF bundle may light the scene whatever its materials; a
/// mesh does where its material emits, and waits where that has not loaded; anything else is
/// left as it is.
pub open spec fn considered(t: Tracking, c: LightCandidate) -> Tracking {
    if c.gltf is Some {
        tracked_on(t, c.slot, LightSource::Gltf { gltf: c.gltf->0 })
    } else if c.mesh is None || c.material is None {
        t
    } else {
        let source = LightSource::Mesh { mesh: c.mesh->0, material: c.material->0 };
        match c.emissive {
            None => Tracking { pending: t.pending.insert(c.slot, source), ..t },
            Some(true) => tracked_on(t, c.slot, source),
            Some(false) => tracked_off(t, c.slot),
        }
    }
}

pub open spec fn all_considered(t: Tracking, candidates: Seq<LightCandidate>) -> Tracking
    decreases candidates.len(),
{
    if candidates.len() == 0 {
        t
    } else {
        considered(all_considered(t, candidates.drop_last()), candidates.last())
    }
}

// ---- the analytic lights --------------------------------------------------------------------

/// The bits are not those of a number.
pub open spec fn not_a_number(bits: u32) -> bool {
    bits % 0x8000_0000 > 0x7F80_0000
}

/// The two numbers are equal: both are numbers, and have the same bits or are both zero.
pub open spec fn same_number(a: u32, b: u32) -> bool {
    &&& !not_a_number(a)
    &&& !not_a_number(b)
    &&& a == b || (a % 0x8000_0000 == 0 && b % 0x8000_0000 == 0)
}

fn equal_numbers(a: u32, b: u32) -> (r: bool)
    ensures
        r == same_number(a, b),
{
    a % 0x8000_0000 <= 0x7F80_0000 && b % 0x8000_0000 <= 0x7F80_0000 && (a == b || (a % 0x8000_0000
        == 0 && b % 0x8000_0000 == 0))
}

/// The three numbers are equal.
pub open spec fn same_vec3(a: Vec3, b: Vec3) -> bool {
    same_number(a.x, b.x) && same_number(a.y, b.y) && same_number(a.z, b.z)
}

fn equal_vec3(a: Vec3, b: Vec3) -> (r: bool)
    ensures
        r == same_vec3(a, b),
{
    equal_numbers(a.x, b.x) && equal_numbers(a.y, b.y) && equal_numbers(a.z, b.z)
}

/// The two lights are equal, number by number.
pub open spec fn same_light(a: AnalyticLight, b: AnalyticLight) -> bool {
    &&& same_vec3(a.position, b.position)
    &&& a.kind == b.kind
    &&& same_vec3(a.direction, b.direction)
    &&& same_number(a.radius, b.radius)
    &&& same_vec3(a.tangent, b.tangent)
    &&& same_number(a.cos_inner, b.cos_inner)
    &&& same_vec3(a.emission, b.emission)
    &&& same_number(a.cos_outer, b.cos_outer)
    &&& same_number(a.half_extents.x, b.half_extents.x)
    &&& same_number(a.half_extents.y, b.half_extents.y)
    &&& same_number(a.power, b.power)
    &&& a.flags == b.flags
}

fn equal_lights(a: AnalyticLight, b: AnalyticLight) -> (r: bool)
    ensures
        r == same_light(a, b),
{
    equal_vec3(a.position, b.position) && a.kind == b.kind && equal_vec3(a.direction, b.direction)
        && equal_numbers(a.radius, b.radius) && equal_vec3(a.tangent, b.tangent) && equal_numbers(
        a.cos_inner,
        b.cos_inner,
    ) && equal_vec3(a.emission, b.emission) && equal_numbers(a.cos_outer, b.cos_outer)
        && equal_numbers(a.half_extents.x, b.half_extents.x) && equal_numbers(
        a.half_extents.y,
        b.half_extents.y,
    ) && equal_numbers(a.power, b.power) && a.flags == b.flags
}

/// The two lists have equal lights.
pub open spec fn same_lights(a: Seq<AnalyticLight>, b: Seq<AnalyticLight>) -> bool {
    a.len() == b.len() && forall|i: int| 0 <= i < a.len() ==> same_light(#[trigger] a[i], b[i])
}

fn equal_light_lists(a: &Vec<AnalyticLight>, b: &Vec<AnalyticLight>) -> (r: bool)
    ensures
        r == same_lights(a@, b@),
{
    if a.len() != b.len() {
        return false;
    }
    let mut i: usize = 0;
    while i < a.len()
        invariant
            i <= a@.len(),
            a@.len() == b@.len(),
            forall|j: int| 0 <= j < i ==> same_light(#[trigger] a@[j], b@[j]),
        decreases a@.len() - i,
    {
        if !equal_lights(a[i], b[i]) {
            assert(!same_light(a@[i as int], b@[i as int]));
            return false;
        }
        i = i + 1;
    }
    true
}

/// A light that was found, by its entity.
#[derive(Clone, Copy, Debug, PartialEq, Eq, Structural)]
pub struct FoundLight {
    pub entity: u64,
    pub light: AnalyticLight,
}

/// `sorted` with `f` put in behind all entities that are no larger.
pub open spec fn put_in(sorted: Seq<FoundLight>, f: FoundLight) -> Seq<FoundLight>
    decreases sorted.len(),
{
    if sorted.len() == 0 || sorted.last().entity <= f.entity {
        sorted.push(f)
    } else {
        put_in(sorted.drop_last(), f).push(sorted.last())
    }
}

/// The lights in the order of their entities; those of one entity stay in order.
pub open spec fn by_entity(found: Seq<FoundLight>) -> Seq<FoundLight>
    decreases found.len(),
{
    if found.len() == 0 {
        Seq::empty()
    } else {
        put_in(by_entity(found.drop_last()), found.last())
    }
}

/// The entities rise.
pub open spec fn entities_rise(s: Seq<FoundLight>) -> bool {
    forall|i: int, j: int|
        0 <= i < j < s.len() ==> (#[trigger] s[i]).entity <= (#[trigger] s[j]).entity
}

proof fn lemma_put_in(sorted: Seq<FoundLight>, f: FoundLight)
    requires
        entities_rise(sorted),
    ensures
        entities_rise(put_in(sorted, f)),
        put_in(sorted, f).len() == sorted.len() + 1,
        put_in(sorted, f).to_multiset() == sorted.to_multiset().insert(f),
        forall|i: int|
            0 <= i < put_in(sorted, f).len() ==> (#[trigger] put_in(sorted, f)[i]) == f
                || exists|j: int| 0 <= j < sorted.len() && sorted[j] == put_in(sorted, f)[i],
    decreases sorted.len(),
{
    broadcast use vstd::seq_lib::group_to_multiset_ensures;

    let out = put_in(sorted, f);
    if sorted.len() == 0 || sorted.last().entity <= f.entity {
        assert forall|i: int, j: int| 0 <= i < j < out.len() implies (#[trigger] out[i]).entity <= (
        #[trigger] out[j]).entity by {
            if j == sorted.len() {
                if i < sorted.len() - 1 {
                    assert(sorted[i].entity <= sorted[sorted.len() - 1].entity);
                }
            } else {
                assert(sorted[i].entity <= sorted[j].entity);
            }
        }
        assert forall|i: int| 0 <= i < out.len() implies (#[trigger] out[i]) == f || exists|j: int|
            0 <= j < sorted.len() && sorted[j] == out[i] by {
            if i < sorted.len() {
                assert(sorted[i] == out[i]);
            }
        }
    } else {
        let front = sorted.drop_last();
        let last = sorted.last();
        assert(entities_rise(front)) by {
            assert forall|i: int, j: int| 0 <= i < j < front.len() implies (
            #[trigger] front[i]).entity <= (#[trigger] front[j]).entity by {
                assert(sorted[i].entity <= sorted[j].entity);
            }
        }
        lemma_put_in(front, f);
        let inner = put_in(front, f);
        assert forall|i: int, j: int| 0 <= i < j < out.len() implies (#[trigger] out[i]).entity <= (
        #[trigger] out[j]).entity by {
            if j == inner.len() {
                assert(out[i] == inner[i]);
                if inner[i] != f {
                    let k = choose|k: int| 0 <= k < front.len() && front[k] == inner[i];
                    assert(sorted[k].entity <= sorted[sorted.len() - 1].entity);
                }
            } else {
                assert(inner[i].entity <= inner[j].entity);
            }
        }
        assert forall|i: int| 0 <= i < out.len() implies (#[trigger] out[i]) == f || exists|j: int|
            0 <= j < sorted.len() && sorted[j] == out[i] by {
            if i < inner.len() {
                assert(out[i] == inner[i]);
                if inner[i] != f {
                    let k = choose|k: int| 0 <= k < front.len() && front[k] == inner[i];
                    assert(sorted[k] == out[i]);
                }
            } else {
                assert(sorted[sorted.len() - 1] == out[i]);
            }
        }
        assert(front.push(last) =~= sorted);
        assert(out.to_multiset() =~= sorted.to_multiset().insert(f));
    }
}

/// The lights in the order of their entities are the same lights, and their entities rise.
pub proof fn lemma_by_entity(found: Seq<FoundLight>)
    ensures
        entities_rise(by_entity(found)),
        by_entity(found).len() == found.len(),
        by_entity(found).to_multiset() == found.to_multiset(),
    decreases found.len(),
{
    broadcast use vstd::seq_lib::group_to_multiset_ensures;

    if found.len() > 0 {
        lemma_by_entity(found.drop_last());
        lemma_put_in(by_entity(found.drop_last()), found.last());
        assert(found.drop_last().push(found.last()) =~= found);
    }
}

/// Puts a light in behind all entities that are no larger.
fn put_in_order(sorted: &mut Vec<FoundLight>, f: FoundLight)
    ensures
        final(sorted)@ == put_in(old(sorted)@, f),
{
    let ghost before = sorted@;
    let mut k: usize = sorted.len();
    proof {
        assert(before.take(k as int) =~= before);
        assert(put_in(before, f) + before.skip(k as int) =~= put_in(before, f));
    }
    while k > 0 && sorted[k - 1].entity > f.entity
        invariant
            k <= before.len(),
            sorted@ == before,
            put_in(before, f) == put_in(before.take(k as int), f) + before.skip(k as int),
        decreases k,
    {
        proof {
            let t = before.take(k as int);
            assert(t.last() == before[k - 1]);
            assert(t.drop_last() =~= before.take(k - 1));
            assert(put_in(before.take(k - 1), f).push(before[k - 1]) + before.skip(k as int)
                =~= put_in(before.take(k - 1), f) + before.skip(k - 1));
        }
        k = k - 1;
    }
    proof {
        let t = before.take(k as int);
        if k > 0 {
            assert(t.last() == before[k - 1]);
        }
        assert(put_in(t, f) == t.push(f));
        assert(t.push(f) + before.skip(k as int) =~= before.insert(k as int, f));
    }
    sorted.insert(k, f);
}

/// The lights in the order of their entities; those of one entity stay in order.
pub fn sort_by_entity(found: &Vec<FoundLight>) -> (r: Vec<FoundLight>)
    ensures
        r@ == by_entity(found@),
{
    let mut sorted: Vec<FoundLight> = Vec::new();
    let mut i: usize = 0;
    while i < found.len()
        invariant
            i <= found@.len(),
            sorted@ == by_entity(found@.take(i as int)),
        decreases found@.len() - i,
    {
        assert(found@.take(i + 1).drop_last() =~= found@.take(i as int));
        put_in_order(&mut sorted, found[i]);
        i = i + 1;
    }
    assert(found@.take(i as int) =~= found@);
    sorted
}

/// The lights alone.
pub open spec fn lights_of(found: Seq<FoundLight>) -> Seq<AnalyticLight> {
    found.map_values(|f: FoundLight| f.light)
}

/// The entities alone.
pub open spec fn entities_of(found: Seq<FoundLight>) -> Seq<u64> {
    found.map_values(|f: FoundLight| f.entity)
}

fn just_lights(found: &Vec<FoundLight>) -> (r: Vec<AnalyticLight>)
    ensures
        r@ == lights_of(found@),
{
    let mut r: Vec<AnalyticLight> = Vec::new();
    let mut i: usize = 0;
    while i < found.len()
        invariant
            i <= found@.len(),
            r@ == lights_of(found@.take(i as int)),
        decreases found@.len() - i,
    {
        r.push(found[i].light);
        i = i + 1;
        assert(r@ =~= lights_of(found@.take(i as int)));
    }
    assert(found@.take(i as int) =~= found@);
    r
}

fn just_entities(found: &Vec<FoundLight>) -> (r: Vec<u64>)
    ensures
        r@ == entities_of(found@),
{
    let mut r: Vec<u64> = Vec::new();
    let mut i: usize = 0;
    while i < found.len()
        invariant
            i <= found@.len(),
            r@ == entities_of(found@.take(i as int)),
        decreases found@.len() - i,
    {
        r.push(found[i].entity);
        i = i + 1;
        assert(r@ =~= entities_of(found@.take(i as int)));
    }
    assert(found@.take(i as int) =~= found@);
    r
}

fn equal_entities(a: &Vec<u64>, b: &Vec<u64>) -> (r: bool)
    ensures
        r == (a@ == b@),
{
    if a.len() != b.len() {
        return false;
    }
    let mut i: usize = 0;
    while i < a.len()
        invariant
            i <= a@.len(),
            a@.len() == b@.len(),
            forall|j: int| 0 <= j < i ==> #[trigger] a@[j] == b@[j],
        decreases a@.len() - i,
    {
        if a[i] != b[i] {
            return false;
        }
        i = i + 1;
    }
    assert(a@ =~= b@);
    true
}

proof fn lemma_entities_multiset(found: Seq<FoundLight>)
    ensures
        entities_of(by_entity(found)).to_multiset() == entities_of(found).to_multiset(),
    decreases found.len(),
{
    broadcast use vstd::seq_lib::group_to_multiset_ensures;

    if found.len() > 0 {
        let front = found.drop_last();
        lemma_entities_multiset(front);
        lemma_put_in_entities(by_entity(front), found.last());
        assert(entities_of(found) =~= entities_of(front).push(found.last().entity));
    } else {
        assert(entities_of(by_entity(found)) =~= entities_of(found));
    }
}

proof fn lemma_put_in_entities(sorted: Seq<FoundLight>, f: FoundLight)
    ensures
        entities_of(put_in(sorted, f)).to_multiset() == entities_of(sorted).to_multiset().insert(
            f.entity,
        ),
    decreases sorted.len(),
{
    broadcast use vstd::seq_lib::group_to_multiset_ensures;

    if sorted.len() == 0 || sorted.last().entity <= f.entity {
        assert(entities_of(put_in(sorted, f)) =~= entities_of(sorted).push(f.entity));
    } else {
        let front = sorted.drop_last();
        lemma_put_in_entities(front, f);
        assert(entities_of(put_in(sorted, f)) =~= entities_of(put_in(front, f)).push(
            sorted.last().entity,
        ));
        assert(entities_of(sorted) =~= entities_of(front).push(sorted.last().entity));
        assert(entities_of(put_in(sorted, f)).to_multiset() =~= entities_of(
            sorted,
        ).to_multiset().insert(f.entity));
    }
}

/// The order of the entries depends on the set of lights alone: it is stable while the set is,
/// in whatever order the lights are found, and another set has another order.
pub proof fn lemma_order_is_the_set(a: Seq<FoundLight>, b: Seq<FoundLight>)
    ensures
        entities_of(by_entity(a)) == entities_of(by_entity(b)) <==> entities_of(a).to_multiset()
            == entities_of(b).to_multiset(),
{
    lemma_entities_multiset(a);
    lemma_entities_multiset(b);
    let x = entities_of(by_entity(a));
    let y = entities_of(by_entity(b));
    if x.to_multiset() == y.to_multiset() {
        let leq = |s: u64, t: u64| s <= t;
        lemma_by_entity(a);
        lemma_by_entity(b);
        assert forall|i: int, j: int| 0 <= i < j < x.len() implies #[trigger] leq(x[i], x[j]) by {
            assert(by_entity(a)[i].entity <= by_entity(a)[j].entity);
        }
        assert forall|i: int, j: int| 0 <= i < j < y.len() implies #[trigger] leq(y[i], y[j]) by {
            assert(by_entity(b)[i].entity <= by_entity(b)[j].entity);
        }
        vstd::seq_lib::lemma_sorted_unique(x, y, leq);
    }
}

// ---- building the table -----------------------------------------------------------------------

/// What the kernels read of an instance's geometry, on the device.
#[derive(Clone, Copy, Debug, PartialEq, Eq, Structural)]
pub struct LightGeometry {
    pub verts: u64,
    pub indices: u64,
    pub geom_to_index: u64,
    pub geom_to_triangle: u64,
    pub index_count: u64,
    pub geometry_count: u64,
}

/// A material of a glTF bundle: its emission, and whether that is above nothing.
#[derive(Clone, Copy, Debug, PartialEq, Eq, Structural)]
pub struct BundleMaterial {
    pub emission: Vec3,
    pub lit: bool,
}

/// What is known of one source when the table is built.
#[derive(Debug)]
pub enum LightInput {
    /// A mesh: its geometry and its material's emission, where they have loaded.
    Mesh { geometry: Option<LightGeometry>, emission: Option<Vec3> },
    /// A glTF bundle: its geometry, where it has loaded, and its materials, where it has any.
    Gltf { geometry: Option<LightGeometry>, materials: Option<Vec<BundleMaterial>> },
}

impl LightInput {
    /// The source must be looked at again: something has not loaded.
    pub open spec fn waits(self) -> bool {
        match self {
            LightInput::Mesh { geometry, emission } => geometry is None || emission is None,
            LightInput::Gltf { geometry, .. } => geometry is None,
        }
    }

    /// The emission of each geometry.
    pub open spec fn emissions(self) -> Seq<Vec3> {
        match self {
            LightInput::Mesh { geometry, emission } => Seq::new(
                if geometry->0.geometry_count < 1 {
                    1
                } else {
                    geometry->0.geometry_count as nat
                },
                |i: int| emission->0,
            ),
            LightInput::Gltf { materials, .. } => materials->0@.map_values(
                |m: BundleMaterial| m.emission,
            ),
        }
    }

    pub open spec fn geometry(self) -> Option<LightGeometry> {
        match self {
            LightInput::Mesh { geometry, .. } => geometry,
            LightInput::Gltf { geometry, .. } => geometry,
        }
    }

    /// The source lights the scene: all has loaded, it has a triangle, and, for a bundle, a
    /// material that emits.
    pub open spec fn shines(self) -> bool {
        &&& !self.waits()
        &&& self.geometry()->0.index_count >= 3
        &&& match self {
            LightInput::Mesh { .. } => true,
            LightInput::Gltf { materials, .. } => materials is Some && exists|i: int|
                0 <= i < materials->0@.len() && (#[trigger] materials->0@[i]).lit,
        }
    }

    pub open spec fn triangles(self) -> int {
        self.geometry()->0.index_count as int / 3
    }
}

/// The triangles of the sources that light the scene.
pub open spec fn lit_triangles(inputs: Seq<(u32, LightInput)>) -> int
    decreases inputs.len(),
{
    if inputs.len() == 0 {
        0
    } else {
        lit_triangles(inputs.drop_last()) + if inputs.last().1.shines() {
            inputs.last().1.triangles()
        } else {
            0
        }
    }
}

/// The emissions of the sources that light the scene, one source after the other.
pub open spec fn lit_emissions(inputs: Seq<(u32, LightInput)>) -> Seq<Vec3>
    decreases inputs.len(),
{
    if inputs.len() == 0 {
        Seq::empty()
    } else if inputs.last().1.shines() {
        lit_emissions(inputs.drop_last()) + inputs.last().1.emissions()
    } else {
        lit_emissions(inputs.drop_last())
    }
}

/// The record of one source: its entries stand behind `analytic_count` others and those of
/// the sources before it; its emissions are still counted from the first one.
pub open spec fn record_of(
    analytic_count: int,
    before: Seq<(u32, LightInput)>,
    slot: u32,
    input: LightInput,
) -> LightInst {
    let g = input.geometry()->0;
    LightInst {
        verts: g.verts,
        indices: g.indices,
        geom_to_index: g.geom_to_index,
        geom_to_triangle: g.geom_to_triangle,
        geom_count: input.emissions().len() as u32,
        slot,
        entry_base: (analytic_count + lit_triangles(before)) as u32,
        tri_count: input.triangles() as u32,
        geom_emission: (3 * lit_emissions(before).len()) as u64,
        pad: 0,
    }
}

/// The records of the sources that light the scene.
pub open spec fn lit_records(analytic_count: int, inputs: Seq<(u32, LightInput)>) -> Seq<LightInst>
    decreases inputs.len(),
{
    if inputs.len() == 0 {
        Seq::empty()
    } else {
        let front = lit_records(analytic_count, inputs.drop_last());
        let (slot, input) = inputs.last();
        if input.shines() {
            front.push(record_of(analytic_count, inputs.drop_last(), slot, input))
        } else {
            front
        }
    }
}

/// Any source must be looked at again.
pub open spec fn any_waits(inputs: Seq<(u32, LightInput)>) -> bool {
    exists|i: int| 0 <= i < inputs.len() && (#[trigger] inputs[i]).1.waits()
}

/// For each slot up to the largest that lights the scene, its record; [`NO_LIGHT`] for a slot
/// that lights nothing.
pub open spec fn is_slot_map(map: Seq<u32>, records: Seq<LightInst>) -> bool {
    &&& forall|i: int|
        0 <= i < records.len() ==> (#[trigger] records[i]).slot < map.len()
            && map[records[i].slot as int] == i
    &&& forall|s: int|
        0 <= s < map.len() ==> (#[trigger] map[s]) == NO_LIGHT || (map[s] < records.len()
            && records[map[s] as int].slot == s)
    &&& if records.len() == 0 {
        map.len() == 1
    } else {
        exists|i: int| 0 <= i < records.len() && (#[trigger] records[i]).slot + 1 == map.len()
    }
}

/// A built table, before it has buffers.
#[derive(Debug)]
pub struct LightTable {
    pub records: Vec<LightInst>,
    pub emissions: Vec<Vec3>,
    pub slot_map: Vec<u32>,
    pub entry_count: u32,
    pub waiting: bool,
}

/// All entries, records and emissions can be counted in 32 bits, and slots in machine words.
pub open spec fn table_fits(analytic_count: int, inputs: Seq<(u32, LightInput)>) -> bool {
    &&& analytic_count + lit_triangles(inputs) <= u32::MAX
    &&& lit_emissions(inputs).len() <= u32::MAX
    &&& inputs.len() < u32::MAX
    &&& forall|i: int|
        0 <= i < inputs.len() ==> (#[trigger] inputs[i]).0 < u32::MAX && inputs[i].0 < usize::MAX
}

proof fn lemma_lit_prefix(inputs: Seq<(u32, LightInput)>, k: int)
    requires
        0 <= k <= inputs.len(),
    ensures
        0 <= lit_triangles(inputs.take(k)) <= lit_triangles(inputs),
        lit_emissions(inputs.take(k)).len() <= lit_emissions(inputs).len(),
    decreases inputs.len(),
{
    if k == inputs.len() {
        assert(inputs.take(k) =~= inputs);
        if k > 0 {
            lemma_lit_prefix(inputs.drop_last(), k - 1);
            assert(inputs.drop_last().take(k - 1) =~= inputs.drop_last());
        }
    } else {
        lemma_lit_prefix(inputs.drop_last(), k);
        assert(inputs.drop_last().take(k) =~= inputs.take(k));
    }
}

/// The records have the slots of their sources, in order.
proof fn lemma_record_slots(analytic_count: int, inputs: Seq<(u32, LightInput)>)
    requires
        forall|i: int, j: int|
            0 <= i < j < inputs.len() ==> (#[trigger] inputs[i]).0 < (#[trigger] inputs[j]).0,
    ensures
        ({
            let r = lit_records(analytic_count, inputs);
            &&& r.len() <= inputs.len()
            &&& forall|i: int, j: int|
                0 <= i < j < r.len() ==> (#[trigger] r[i]).slot < (#[trigger] r[j]).slot
            &&& forall|i: int|
                0 <= i < r.len() ==> exists|j: int|
                    0 <= j < inputs.len() && (#[trigger] inputs[j]).0 == (#[trigger] r[i]).slot
        }),
    decreases inputs.len(),
{
    if inputs.len() > 0 {
        let front = inputs.drop_last();
        assert forall|i: int, j: int| 0 <= i < j < front.len() implies (#[trigger] front[i]).0 < (
        #[trigger] front[j]).0 by {
            assert(inputs[i].0 < inputs[j].0);
        }
        lemma_record_slots(analytic_count, front);
        let before = lit_records(analytic_count, front);
        let r = lit_records(analytic_count, inputs);
        assert forall|i: int| 0 <= i < r.len() implies exists|j: int|
            0 <= j < inputs.len() && (#[trigger] inputs[j]).0 == (#[trigger] r[i]).slot by {
            if i < before.len() {
                assert(r[i] == before[i]);
                let j = choose|j: int| 0 <= j < front.len() && (#[trigger] front[j]).0
                    == before[i].slot;
                assert(inputs[j].0 == r[i].slot);
            } else {
                assert(inputs[inputs.len() - 1].0 == r[i].slot);
            }
        }
        assert forall|i: int, j: int| 0 <= i < j < r.len() implies (#[trigger] r[i]).slot < (
        #[trigger] r[j]).slot by {
            assert(r[i] == before[i]);
            if j < before.len() {
                assert(r[j] == before[j]);
            } else {
                let k = choose|k: int| 0 <= k < front.len() && (#[trigger] front[k]).0
                    == before[i].slot;
                assert(inputs[k].0 < inputs[inputs.len() - 1].0);
            }
        }
    }
}

/// The entries of the records lie one behind the other, from `analytic_count` on, without a
/// gap: record `i` ends where record `i + 1` starts, and the last one ends with the table.
pub proof fn lemma_entries_contiguous(analytic_count: int, inputs: Seq<(u32, LightInput)>)
    requires
        0 <= analytic_count,
        analytic_count + lit_triangles(inputs) <= u32::MAX,
    ensures
        ({
            let r = lit_records(analytic_count, inputs);
            &&& r.len() == 0 ==> lit_triangles(inputs) == 0
            &&& r.len() > 0 ==> r[0].entry_base == analytic_count && r.last().entry_base
                + r.last().tri_count == analytic_count + lit_triangles(inputs)
            &&& forall|i: int|
                0 <= i < r.len() - 1 ==> (#[trigger] r[i]).entry_base + r[i].tri_count == r[i
                    + 1].entry_base
            &&& forall|i: int| 0 <= i < r.len() ==> (#[trigger] r[i]).tri_count > 0
        }),
    decreases inputs.len(),
{
    if inputs.len() > 0 {
        let front = inputs.drop_last();
        lemma_lit_prefix(inputs, inputs.len() - 1);
        assert(inputs.take(inputs.len() - 1) =~= front);
        lemma_entries_contiguous(analytic_count, front);
        let before = lit_records(analytic_count, front);
        let r = lit_records(analytic_count, inputs);
        assert forall|i: int| 0 <= i < r.len() - 1 implies (#[trigger] r[i]).entry_base
            + r[i].tri_count == r[i + 1].entry_base by {
            assert(r[i] == before[i]);
            if i + 1 < before.len() {
                assert(r[i + 1] == before[i + 1]);
            }
        }
        assert forall|i: int| 0 <= i < r.len() implies (#[trigger] r[i]).tri_count > 0 by {
            if i < before.len() {
                assert(r[i] == before[i]);
            }
        }
    }
}

fn any_lit(materials: &Vec<BundleMaterial>) -> (r: bool)
    ensures
        r == exists|i: int| 0 <= i < materials@.len() && (#[trigger] materials@[i]).lit,
{
    let mut i: usize = 0;
    while i < materials.len()
        invariant
            i <= materials@.len(),
            forall|j: int| 0 <= j < i ==> !(#[trigger] materials@[j]).lit,
        decreases materials@.len() - i,
    {
        if materials[i].lit {
            return true;
        }
        i = i + 1;
    }
    false
}

/// What a source that lights the scene contributes.
struct Shining {
    geometry: LightGeometry,
    emissions: Vec<Vec3>,
}

/// What a source contributes, where it lights the scene; and whether it waits.
fn look_at(input: &LightInput) -> (r: (bool, Option<Shining>))
    requires
        input.shines() ==> input.emissions().len() <= u32::MAX,
    ensures
        r.0 == input.waits(),
        r.1 is Some == input.shines(),
        r.1 matches Some(s) ==> s.geometry == input.geometry()->0 && s.emissions@
            == input.emissions(),
{
    match input {
        LightInput::Mesh { geometry, emission } => {
            let g: LightGeometry = match geometry {
                Some(g) => *g,
                None => return (true, None),
            };
            let e: Vec3 = match emission {
                Some(e) => *e,
                None => return (true, None),
            };
            if g.index_count < 3 {
                return (false, None);
            }
            let n: u64 = if g.geometry_count < 1 {
                1
            } else {
                g.geometry_count
            };
            let mut emissions: Vec<Vec3> = Vec::new();
            let mut i: u64 = 0;
            while i < n
                invariant
                    i <= n,
                    emissions@ == Seq::new(i as nat, |k: int| e),
                decreases n - i,
            {
                emissions.push(e);
                assert(emissions@ =~= Seq::new((i + 1) as nat, |k: int| e));
                i = i + 1;
            }
            assert(emissions@ =~= input.emissions());
            (false, Some(Shining { geometry: g, emissions }))
        },
        LightInput::Gltf { geometry, materials } => {
            let g: LightGeometry = match geometry {
                Some(g) => *g,
                None => return (true, None),
            };
            let m: &Vec<BundleMaterial> = match materials {
                Some(m) => m,
                None => return (false, None),
            };
            if !any_lit(m) || g.index_count < 3 {
                return (false, None);
            }
            let mut emissions: Vec<Vec3> = Vec::new();
            let mut i: usize = 0;
            while i < m.len()
                invariant
                    i <= m@.len(),
                    emissions@ == m@.take(i as int).map_values(|m: BundleMaterial| m.emission),
                decreases m@.len() - i,
            {
                emissions.push(m[i].emission);
                assert(emissions@ =~= m@.take(i + 1).map_values(|m: BundleMaterial| m.emission));
                i = i + 1;
            }
            assert(m@.take(i as int) =~= m@);
            (false, Some(Shining { geometry: g, emissions }))
        },
    }
}

/// For each slot up to the largest, its record.
fn make_slot_map(records: &Vec<LightInst>) -> (map: Vec<u32>)
    requires
        records@.len() < u32::MAX,
        forall|i: int, j: int|
            0 <= i < j < records@.len() ==> (#[trigger] records@[i]).slot < (
            #[trigger] records@[j]).slot,
        forall|i: int| 0 <= i < records@.len() ==> (#[trigger] records@[i]).slot < usize::MAX,
    ensures
        is_slot_map(map@, records@),
{
    let mut map: Vec<u32> = Vec::new();
    let n: usize = records.len();
    if n == 0 {
        map.push(NO_LIGHT);
        return map;
    }
    let len: usize = records[n - 1].slot as usize + 1;
    let mut s: usize = 0;
    let mut k: usize = 0;
    while s < len
        invariant
            s <= len,
            n == records@.len(),
            0 < n < u32::MAX,
            k <= n,
            len == records@[n - 1].slot + 1,
            map@.len() == s,
            forall|i: int, j: int|
                0 <= i < j < records@.len() ==> (#[trigger] records@[i]).slot < (
                #[trigger] records@[j]).slot,
            forall|i: int|
                0 <= i < k ==> (#[trigger] records@[i]).slot < s && map@[records@[i].slot as int]
                    == i,
            forall|i: int| k <= i < n ==> (#[trigger] records@[i]).slot >= s,
            forall|t: int|
                0 <= t < s ==> (#[trigger] map@[t]) == NO_LIGHT || (map@[t] < n
                    && records@[map@[t] as int].slot == t),
        decreases len - s,
    {
        if k < n && records[k].slot as usize == s {
            map.push(k as u32);
            assert forall|i: int| k + 1 <= i < n implies (#[trigger] records@[i]).slot >= s + 1 by {
                assert(records@[k as int].slot < records@[i].slot);
            }
            k = k + 1;
        } else {
            map.push(NO_LIGHT);
            assert forall|i: int| k <= i < n implies (#[trigger] records@[i]).slot >= s + 1 by {
                if k < i {
                    assert(records@[k as int].slot < records@[i].slot);
                }
            }
        }
        s = s + 1;
    }
    assert(k == n) by {
        if k < n {
            if k < n - 1 {
                assert(records@[k as int].slot < records@[n - 1].slot);
            }
            assert(records@[n - 1].slot >= s);
        }
    }
    assert(records@[n - 1].slot + 1 == map@.len());
    map
}

/// Builds the table of these sources, given in the order of their slots.
pub fn build_table(analytic_count: u32, inputs: &Vec<(u32, LightInput)>) -> (r: LightTable)
    requires
        table_fits(analytic_count as int, inputs@),
        forall|i: int, j: int|
            0 <= i < j < inputs@.len() ==> (#[trigger] inputs@[i]).0 < (#[trigger] inputs@[j]).0,
    ensures
        r.records@ == lit_records(analytic_count as int, inputs@),
        r.emissions@ == lit_emissions(inputs@),
        r.entry_count == analytic_count + lit_triangles(inputs@),
        r.waiting == any_waits(inputs@),
        is_slot_map(r.slot_map@, r.records@),
{
    let mut records: Vec<LightInst> = Vec::new();
    let mut emissions: Vec<Vec3> = Vec::new();
    let mut entry_base: u32 = analytic_count;
    let mut waiting: bool = false;
    let mut i: usize = 0;
    while i < inputs.len()
        invariant
            i <= inputs@.len(),
            table_fits(analytic_count as int, inputs@),
            records@ == lit_records(analytic_count as int, inputs@.take(i as int)),
            emissions@ == lit_emissions(inputs@.take(i as int)),
            entry_base == analytic_count + lit_triangles(inputs@.take(i as int)),
            waiting == any_waits(inputs@.take(i as int)),
        decreases inputs@.len() - i,
    {
        let ghost next = inputs@.take(i + 1);
        proof {
            assert(next.drop_last() =~= inputs@.take(i as int));
            assert(next.last() == inputs@[i as int]);
            lemma_lit_prefix(inputs@, i + 1);
            lemma_lit_prefix(inputs@, i as int);
        }
        let slot: u32 = inputs[i].0;
        let (waits, shining): (bool, Option<Shining>) = look_at(&inputs[i].1);
        proof {
            let taken = inputs@.take(i as int);
            if waits {
                assert(next[i as int].1.waits());
            }
            if any_waits(taken) {
                let j = choose|j: int| 0 <= j < taken.len() && (#[trigger] taken[j]).1.waits();
                assert(next[j].1.waits());
            }
            if any_waits(next) && !waits {
                let j = choose|j: int| 0 <= j < next.len() && (#[trigger] next[j]).1.waits();
                assert(taken[j].1.waits());
            }
        }
        if waits {
            waiting = true;
        }
        if let Some(s) = shining {
            let tri_count: u32 = (s.geometry.index_count / 3) as u32;
            records.push(
                LightInst {
                    verts: s.geometry.verts,
                    indices: s.geometry.indices,
                    geom_to_index: s.geometry.geom_to_index,
                    geom_to_triangle: s.geometry.geom_to_triangle,
                    geom_count: s.emissions.len() as u32,
                    slot,
                    entry_base,
                    tri_count,
                    geom_emission: 3 * emissions.len() as u64,
                    pad: 0,
                },
            );
            emissions.extend_from_slice(s.emissions.as_slice());
            assert(emissions@ =~= lit_emissions(next));
            entry_base = entry_base + tri_count;
        }
        i = i + 1;
    }
    proof {
        assert(inputs@.take(i as int) =~= inputs@);
        lemma_record_slots(analytic_count as int, inputs@);
        assert forall|j: int| 0 <= j < records@.len() implies (#[trigger] records@[j]).slot
            < usize::MAX by {
            let k = choose|k: int|
                0 <= k < inputs@.len() && (#[trigger] inputs@[k]).0 == records@[j].slot;
            assert(inputs@[k].0 < usize::MAX);
        }
    }
    let slot_map: Vec<u32> = make_slot_map(&records);
    LightTable { records, emissions, slot_map, entry_count: entry_base, waiting }
}

// ---- the table on the device --------------------------------------------------------------------

/// The table's buffers.
#[derive(Clone, Copy, Debug, PartialEq, Eq, Structural)]
pub struct LightBuffers {
    pub header: Buffer,
    pub linsts: Buffer,
    pub slot_map: Buffer,
    pub cdf: Buffer,
    pub emissions: Buffer,
    pub analytics: Buffer,
}

/// The lengths of the table's buffers, in elements; an empty list still gets one.
#[derive(Clone, Copy, Debug, PartialEq, Eq, Structural)]
pub struct LightLengths {
    pub header: u64,
    pub linsts: u64,
    pub slot_map: u64,
    pub cdf: u64,
    pub emissions: u64,
    pub analytics: u64,
}

/// At least one.
pub open spec fn at_least_one(n: int) -> int {
    if n < 1 {
        1
    } else {
        n
    }
}

fn one_or_more(n: u64) -> (r: u64)
    ensures
        r == at_least_one(n as int),
{
    if n < 1 {
        1
    } else {
        n
    }
}

/// The epoch behind `epoch`; never 0.
pub open spec fn next_epoch(epoch: u32) -> u32 {
    if epoch == u32::MAX {
        1
    } else {
        (epoch + 1) as u32
    }
}

/// A rebuilt table is of another generation than the one before it, and never of none: what
/// refers to the earlier one is dropped.
pub proof fn lemma_epoch_moves(epoch: u32)
    ensures
        next_epoch(epoch) != 0,
        next_epoch(epoch) != epoch,
{
}

/// An upload, where there is anything to upload.
pub open spec fn upload_if(asked: bool, source: Source, dst: u64, count: int) -> Seq<Command> {
    if asked {
        seq![Command::Upload { source, dst, count: count as u64 }]
    } else {
        Seq::empty()
    }
}

/// A record whose emissions are found at their device address.
pub open spec fn rebased(r: LightInst, emissions: u64) -> LightInst {
    LightInst { geom_emission: (emissions + 4 * r.geom_emission) as u64, ..r }
}

impl LightManager {
    /// The maps are in order.
    pub open spec fn wf(self) -> bool {
        self.sources.wf() && self.pending.wf()
    }

    /// Which instances light the scene.
    pub open spec fn tracking(self) -> Tracking {
        Tracking { sources: self.sources@, pending: self.pending@, dirty: self.dirty }
    }

    /// Nothing but which instances light the scene differs.
    pub open spec fn same_table(self, other: LightManager) -> bool {
        &&& self.header == other.header
        &&& self.linsts == other.linsts
        &&& self.slot_map == other.slot_map
        &&& self.cdf == other.cdf
        &&& self.emissions == other.emissions
        &&& self.analytics == other.analytics
        &&& self.analytic_cache == other.analytic_cache
        &&& self.analytic_entities == other.analytic_entities
        &&& self.analytic_upload == other.analytic_upload
        &&& self.entry_count == other.entry_count
        &&& self.linst_count == other.linst_count
        &&& self.needs_power_pass == other.needs_power_pass
        &&& self.warned_module == other.warned_module
        &&& self.logged_instances == other.logged_instances
        &&& self.logged_entries == other.logged_entries
        &&& self.active_entries == other.active_entries
        &&& self.epoch == other.epoch
    }

    /// No light.
    pub fn new() -> (r: Self)
        ensures
            r.wf(),
            r.tracking() == (Tracking { sources: Map::empty(), pending: Map::empty(),
                dirty: false }),
            r.device_buffers() == (LightBuffers {
                header: no_buffer(),
                linsts: no_buffer(),
                slot_map: no_buffer(),
                cdf: no_buffer(),
                emissions: no_buffer(),
                analytics: no_buffer(),
            }),
            r.analytic_cache@.len() == 0,
            r.analytic_entities@.len() == 0,
            !r.analytic_upload,
            r.entry_count == 0,
            r.linst_count == 0,
            !r.needs_power_pass,
            !r.warned_module,
            r.logged_instances == 0,
            r.logged_entries == 0,
            r.active_entries == 0,
            r.epoch == 1,
    {
        LightManager {
            sources: SlotMap::new(),
            pending: SlotMap::new(),
            dirty: false,
            header: Buffer::default(),
            linsts: Buffer::default(),
            slot_map: Buffer::default(),
            cdf: Buffer::default(),
            emissions: Buffer::default(),
            analytics: Buffer::default(),
            analytic_cache: Vec::new(),
            analytic_entities: Vec::new(),
            analytic_upload: false,
            entry_count: 0,
            linst_count: 0,
            needs_power_pass: false,
            warned_module: false,
            logged_instances: 0,
            logged_entries: 0,
            active_entries: 0,
            epoch: 1,
        }
    }

    /// Device address of the header (0 until the first build).
    pub fn header_address(&self) -> (r: u64)
        ensures
            r == self.header.address,
    {
        self.header.address
    }

    fn turn_on(&mut self, slot: u32, source: LightSource)
        requires
            old(self).wf(),
        ensures
            final(self).wf(),
            final(self).same_table(*old(self)),
            final(self).tracking() == tracked_on(old(self).tracking(), slot, source),
    {
        self.pending.remove(slot);
        match self.sources.insert(slot, source) {
            Some(was) => {
                if was != source {
                    self.dirty = true;
                }
            },
            None => {
                self.dirty = true;
            },
        }
    }

    fn turn_off(&mut self, slot: u32)
        requires
            old(self).wf(),
        ensures
            final(self).wf(),
            final(self).same_table(*old(self)),
            final(self).tracking() == tracked_off(old(self).tracking(), slot),
    {
        self.pending.remove(slot);
        if self.sources.remove(slot).is_some() {
            self.dirty = true;
        }
    }

    fn consider(&mut self, c: LightCandidate)
        requires
            old(self).wf(),
        ensures
            final(self).wf(),
            final(self).same_table(*old(self)),
            final(self).tracking() == considered(old(self).tracking(), c),
    {
        if let Some(gltf) = c.gltf {
            self.turn_on(c.slot, LightSource::Gltf { gltf });
            return;
        }
        if let (Some(mesh), Some(material)) = (c.mesh, c.material) {
            let source = LightSource::Mesh { mesh, material };
            match c.emissive {
                None => {
                    self.pending.insert(c.slot, source);
                },
                Some(emissive) => {
                    if emissive {
                        self.turn_on(c.slot, source);
                    } else {
                        self.turn_off(c.slot);
                    }
                },
            }
        }
    }

    /// Takes note of the instances that changed, or of all of them where a material was modified.
    pub fn track(
        &mut self,
        modified: bool,
        changed: &Vec<LightCandidate>,
        all: &Vec<LightCandidate>,
    )
        requires
            old(self).wf(),
        ensures
            final(self).wf(),
            final(self).same_table(*old(self)),
            final(self).tracking() == all_considered(
                old(self).tracking(),
                if modified {
                    all@
                } else {
                    changed@
                },
            ),
    {
        let candidates: &Vec<LightCandidate> = if modified {
            all
        } else {
            changed
        };
        let mut i: usize = 0;
        while i < candidates.len()
            invariant
                i <= candidates@.len(),
                self.wf(),
                self.same_table(*old(self)),
                self.tracking() == all_considered(
                    old(self).tracking(),
                    candidates@.take(i as int),
                ),
            decreases candidates@.len() - i,
        {
            assert(candidates@.take(i + 1).drop_last() =~= candidates@.take(i as int));
            self.consider(candidates[i]);
            i = i + 1;
        }
        assert(candidates@.take(i as int) =~= candidates@);
    }

    /// Takes note of whether the material of a pending mesh emits, once it has loaded.
    pub fn settle(&mut self, slot: u32, emissive: bool)
        requires
            old(self).wf(),
            old(self).pending@.contains_key(slot),
        ensures
            final(self).wf(),
            final(self).same_table(*old(self)),
            final(self).tracking() == (if emissive {
                tracked_on(old(self).tracking(), slot, old(self).pending@[slot])
            } else {
                tracked_off(old(self).tracking(), slot)
            }),
    {
        match self.pending.get(slot) {
            Some(source) => {
                if emissive {
                    self.turn_on(slot, source);
                } else {
                    self.turn_off(slot);
                }
            },
            None => {},
        }
    }

    /// Takes an instance that went away out of the table.
    pub fn remove_instance(&mut self, slot: u32)
        requires
            old(self).wf(),
        ensures
            final(self).wf(),
            final(self).same_table(*old(self)),
            final(self).tracking() == tracked_off(old(self).tracking(), slot),
    {
        self.turn_off(slot);
    }

    /// Takes note of the analytic lights; their entries stand in the order of their entities.
    /// Another set of them asks for a rebuild, which drops what refers to the old entries; lights
    /// of the same set that moved or were tuned are uploaded again in place.
    pub fn update_analytics(&mut self, found: &Vec<FoundLight>)
        requires
            old(self).wf(),
        ensures
            final(self).wf(),
            final(self).sources == old(self).sources,
            final(self).pending == old(self).pending,
            ({
                let sorted = by_entity(found@);
                let another = entities_of(sorted) != old(self).analytic_entities@;
                let moved = !another && !same_lights(
                    lights_of(sorted),
                    old(self).analytic_cache@,
                );
                &&& final(self).dirty == (old(self).dirty || another)
                &&& final(self).analytic_upload == (old(self).analytic_upload || moved)
                &&& final(self).needs_power_pass == (old(self).needs_power_pass || moved)
                &&& final(self).analytic_entities@ == entities_of(sorted)
                &&& final(self).analytic_cache@ == if another || moved {
                    lights_of(sorted)
                } else {
                    old(self).analytic_cache@
                }
            }),
            final(self).entry_count == old(self).entry_count,
            final(self).linst_count == old(self).linst_count,
            final(self).active_entries == old(self).active_entries,
            final(self).epoch == old(self).epoch,
            final(self).device_buffers() == old(self).device_buffers(),
            final(self).warned_module == old(self).warned_module,
            final(self).logged_instances == old(self).logged_instances,
            final(self).logged_entries == old(self).logged_entries,
    {
        let sorted: Vec<FoundLight> = sort_by_entity(found);
        let entities: Vec<u64> = just_entities(&sorted);
        let lights: Vec<AnalyticLight> = just_lights(&sorted);
        if !equal_entities(&entities, &self.analytic_entities) {
            self.dirty = true;
            self.analytic_entities = entities;
            self.analytic_cache = lights;
        } else if !equal_light_lists(&lights, &self.analytic_cache) {
            self.analytic_upload = true;
            self.needs_power_pass = true;
            self.analytic_cache = lights;
        }
    }

    /// The upload is one of a table's, and goes, whole, to the buffer that is for it.
    pub open spec fn takes_upload(self, table: LightTable, c: Command) -> bool {
        match c {
            Command::Upload { source: Source::LightInstances, dst, count } => dst
                == self.linsts.handle && count == table.records@.len(),
            Command::Upload { source: Source::LightSlotMap, dst, count } => dst
                == self.slot_map.handle && count == table.slot_map@.len(),
            Command::Upload { source: Source::LightHeader, dst, count } => dst
                == self.header.handle && count == 1,
            Command::Upload { source: Source::LightEmissions, dst, count } => dst
                == self.emissions.handle && count == 3 * table.emissions@.len(),
            Command::Upload { source: Source::AnalyticLights, dst, count } => dst
                == self.analytics.handle && count == self.analytic_cache@.len(),
            _ => false,
        }
    }

    /// The table's buffers.
    pub open spec fn device_buffers(self) -> LightBuffers {
        LightBuffers {
            header: self.header,
            linsts: self.linsts,
            slot_map: self.slot_map,
            cdf: self.cdf,
            emissions: self.emissions,
            analytics: self.analytics,
        }
    }

    /// The handles of the table's buffers, in the order in which they are given up.
    pub fn handles(&self) -> (r: Vec<u64>)
        ensures
            r@ == seq![
                self.header.handle,
                self.linsts.handle,
                self.slot_map.handle,
                self.cdf.handle,
                self.emissions.handle,
                self.analytics.handle,
            ],
    {
        let r: Vec<u64> = vec![
            self.header.handle,
            self.linsts.handle,
            self.slot_map.handle,
            self.cdf.handle,
            self.emissions.handle,
            self.analytics.handle,
        ];
        assert(r@ =~= seq![
            self.header.handle,
            self.linsts.handle,
            self.slot_map.handle,
            self.cdf.handle,
            self.emissions.handle,
            self.analytics.handle,
        ]);
        r
    }

    /// Rebuilds the table where the lights changed; `inputs` says what is known of each source.
    /// The old buffers are given up. While anything is still loading, the table is rebuilt
    /// again next frame.
    pub fn rebuild(&mut self, inputs: &Vec<(u32, LightInput)>) -> (r: Option<LightTable>)
        requires
            old(self).wf(),
            old(self).analytic_cache@.len() <= u32::MAX,
            table_fits(old(self).analytic_cache@.len() as int, inputs@),
            inputs@.len() == old(self).sources.entries@.len(),
            forall|i: int|
                0 <= i < inputs@.len() ==> (#[trigger] inputs@[i]).0
                    == old(self).sources.entries@[i].0,
        ensures
            final(self).wf(),
            r is Some == old(self).dirty,
            r is None ==> *final(self) == *old(self),
            r matches Some(table) ==> {
                let n = old(self).analytic_cache@.len() as int;
                &&& table.records@ == lit_records(n, inputs@)
                &&& table.emissions@ == lit_emissions(inputs@)
                &&& table.entry_count == n + lit_triangles(inputs@)
                &&& table.waiting == any_waits(inputs@)
                &&& is_slot_map(table.slot_map@, table.records@)
                &&& final(self).dirty == table.waiting
                &&& final(self).epoch == next_epoch(old(self).epoch)
                &&& final(self).entry_count == table.entry_count
                &&& final(self).active_entries == table.entry_count
                &&& final(self).linst_count == table.records@.len()
                &&& final(self).needs_power_pass == (table.entry_count > 0)
                &&& final(self).analytic_upload == (old(self).analytic_upload
                    && table.entry_count == 0)
                &&& final(self).device_buffers() == (LightBuffers {
                    header: no_buffer(),
                    linsts: no_buffer(),
                    slot_map: no_buffer(),
                    cdf: no_buffer(),
                    emissions: no_buffer(),
                    analytics: no_buffer(),
                })
                &&& final(self).sources == old(self).sources
                &&& final(self).pending == old(self).pending
                &&& final(self).analytic_cache == old(self).analytic_cache
                &&& final(self).analytic_entities == old(self).analytic_entities
                &&& final(self).warned_module == old(self).warned_module
                &&& final(self).logged_instances == old(self).logged_instances
                &&& final(self).logged_entries == old(self).logged_entries
            },
    {
        if !self.dirty {
            return None;
        }
        proof {
            let entries = self.sources.entries@;
            assert forall|i: int, j: int| 0 <= i < j < inputs@.len() implies (
            #[trigger] inputs@[i]).0 < (#[trigger] inputs@[j]).0 by {
                assert(entries[i].0 < entries[j].0);
            }
            lemma_record_slots(self.analytic_cache@.len() as int, inputs@);
        }
        let table: LightTable = build_table(self.analytic_cache.len() as u32, inputs);
        self.dirty = table.waiting;
        let none: Buffer = Buffer::default();
        self.header = none;
        self.linsts = none;
        self.slot_map = none;
        self.cdf = none;
        self.emissions = none;
        self.analytics = none;
        self.epoch = if self.epoch == u32::MAX {
            1
        } else {
            self.epoch + 1
        };
        self.entry_count = table.entry_count;
        self.linst_count = table.records.len() as u32;
        self.active_entries = table.entry_count;
        self.needs_power_pass = table.entry_count > 0;
        if table.entry_count > 0 {
            self.analytic_upload = false;
        }
        Some(table)
    }

    /// The lengths of the buffers for a table.
    pub fn lengths(&self, table: &LightTable) -> (r: LightLengths)
        requires
            table.emissions@.len() <= u32::MAX,
        ensures
            r == (LightLengths {
                header: 1,
                linsts: at_least_one(table.records@.len() as int) as u64,
                slot_map: table.slot_map@.len() as u64,
                cdf: table.entry_count as u64,
                emissions: at_least_one(3 * table.emissions@.len() as int) as u64,
                analytics: at_least_one(self.analytic_cache@.len() as int) as u64,
            }),
    {
        LightLengths {
            header: 1,
            linsts: one_or_more(table.records.len() as u64),
            slot_map: table.slot_map.len() as u64,
            cdf: table.entry_count as u64,
            emissions: one_or_more(3 * table.emissions.len() as u64),
            analytics: one_or_more(self.analytic_cache.len() as u64),
        }
    }

    /// Takes over a table's buffers: each record's emissions get their device address. Gives
    /// the header and the uploads; what is empty is not uploaded.
    pub fn install(&mut self, table: &mut LightTable, buffers: LightBuffers) -> (r: (
        LightsHeader,
        Vec<Command>,
    ))
        requires
            old(self).wf(),
            old(self).analytic_cache@.len() <= u32::MAX,
            old(table).records@.len() <= u32::MAX,
            old(table).slot_map@.len() <= u32::MAX,
            old(table).emissions@.len() <= u32::MAX,
            forall|i: int|
                0 <= i < old(table).records@.len() ==> buffers.emissions.address + 4 * (
                #[trigger] old(table).records@[i]).geom_emission <= u64::MAX,
        ensures
            final(self).wf(),
            final(self).device_buffers() == buffers,
            final(self).sources == old(self).sources,
            final(self).pending == old(self).pending,
            final(self).dirty == old(self).dirty,
            final(self).analytic_cache == old(self).analytic_cache,
            final(self).analytic_entities == old(self).analytic_entities,
            final(self).analytic_upload == old(self).analytic_upload,
            final(self).entry_count == old(self).entry_count,
            final(self).linst_count == old(self).linst_count,
            final(self).needs_power_pass == old(self).needs_power_pass,
            final(self).warned_module == old(self).warned_module,
            final(self).logged_instances == old(self).logged_instances,
            final(self).logged_entries == old(self).logged_entries,
            final(self).active_entries == old(self).active_entries,
            final(self).epoch == old(self).epoch,
            final(table).records@ == old(table).records@.map_values(
                |l: LightInst| rebased(l, buffers.emissions.address),
            ),
            final(table).emissions == old(table).emissions,
            final(table).slot_map == old(table).slot_map,
            final(table).entry_count == old(table).entry_count,
            final(table).waiting == old(table).waiting,
            r.0 == (LightsHeader {
                entry_count: old(table).entry_count,
                linst_count: old(table).records@.len() as u32,
                total_power: 0,
                slot_map_count: old(table).slot_map@.len() as u32,
                analytic_count: old(self).analytic_cache@.len() as u32,
                pad1: 0,
                cdf: buffers.cdf.address,
                linsts: buffers.linsts.address,
                slot_to_linst: buffers.slot_map.address,
                analytics: buffers.analytics.address,
            }),
            r.0.cdf == final(self).cdf.address,
            r.0.linsts == final(self).linsts.address,
            r.0.slot_to_linst == final(self).slot_map.address,
            r.0.analytics == final(self).analytics.address,
            forall|i: int|
                0 <= i < r.1@.len() ==> final(self).takes_upload(*final(table), #[trigger] r.1@[i]),
            r.1@ == upload_if(
                old(table).records@.len() > 0,
                Source::LightInstances,
                buffers.linsts.handle,
                old(table).records@.len() as int,
            ) + upload_if(
                true,
                Source::LightSlotMap,
                buffers.slot_map.handle,
                old(table).slot_map@.len() as int,
            ) + upload_if(true, Source::LightHeader, buffers.header.handle, 1) + upload_if(
                old(table).emissions@.len() > 0,
                Source::LightEmissions,
                buffers.emissions.handle,
                3 * old(table).emissions@.len() as int,
            ) + upload_if(
                old(self).analytic_cache@.len() > 0,
                Source::AnalyticLights,
                buffers.analytics.handle,
                old(self).analytic_cache@.len() as int,
            ),
    {
        self.header = buffers.header;
        self.linsts = buffers.linsts;
        self.slot_map = buffers.slot_map;
        self.cdf = buffers.cdf;
        self.emissions = buffers.emissions;
        self.analytics = buffers.analytics;
        let ghost before = table.records@;
        let mut moved: Vec<LightInst> = Vec::new();
        let mut i: usize = 0;
        while i < table.records.len()
            invariant
                i <= before.len(),
                table.records@ == before,
                *table == *old(table),
                forall|i: int|
                    0 <= i < before.len() ==> buffers.emissions.address + 4 * (
                    #[trigger] before[i]).geom_emission <= u64::MAX,
                moved@ == before.take(i as int).map_values(
                    |l: LightInst| rebased(l, buffers.emissions.address),
                ),
            decreases before.len() - i,
        {
            let mut l: LightInst = table.records[i];
            assert(before[i as int] == l);
            l.geom_emission = buffers.emissions.address + l.geom_emission * 4;
            moved.push(l);
            assert(moved@ =~= before.take(i + 1).map_values(
                |l: LightInst| rebased(l, buffers.emissions.address),
            ));
            i = i + 1;
        }
        assert(before.take(i as int) =~= before);
        table.records = moved;
        let header = LightsHeader {
            entry_count: table.entry_count,
            linst_count: table.records.len() as u32,
            total_power: 0,
            slot_map_count: table.slot_map.len() as u32,
            analytic_count: self.analytic_cache.len() as u32,
            pad1: 0,
            cdf: buffers.cdf.address,
            linsts: buffers.linsts.address,
            slot_to_linst: buffers.slot_map.address,
            analytics: buffers.analytics.address,
        };
        let mut out: Vec<Command> = Vec::new();
        if table.records.len() > 0 {
            out.push(
                Command::Upload {
                    source: Source::LightInstances,
                    dst: buffers.linsts.handle,
                    count: table.records.len() as u64,
                },
            );
        }
        out.push(
            Command::Upload {
                source: Source::LightSlotMap,
                dst: buffers.slot_map.handle,
                count: table.slot_map.len() as u64,
            },
        );
        out.push(
            Command::Upload { source: Source::LightHeader, dst: buffers.header.handle, count: 1 },
        );
        if table.emissions.len() > 0 {
            out.push(
                Command::Upload {
                    source: Source::LightEmissions,
                    dst: buffers.emissions.handle,
                    count: 3 * table.emissions.len() as u64,
                },
            );
        }
        if self.analytic_cache.len() > 0 {
            out.push(
                Command::Upload {
                    source: Source::AnalyticLights,
                    dst: buffers.analytics.handle,
                    count: self.analytic_cache.len() as u64,
                },
            );
        }
        assert(out@ =~= upload_if(
            before.len() > 0,
            Source::LightInstances,
            buffers.linsts.handle,
            before.len() as int,
        ) + upload_if(
            true,
            Source::LightSlotMap,
            buffers.slot_map.handle,
            table.slot_map@.len() as int,
        ) + upload_if(true, Source::LightHeader, buffers.header.handle, 1) + upload_if(
            table.emissions@.len() > 0,
            Source::LightEmissions,
            buffers.emissions.handle,
            3 * table.emissions@.len() as int,
        ) + upload_if(
            self.analytic_cache@.len() > 0,
            Source::AnalyticLights,
            buffers.analytics.handle,
            self.analytic_cache@.len() as int,
        ));
        (header, out)
    }

    // ---- the commands of a frame ----

    /// The table has weights to compute, and what they are computed from is there.
    pub open spec fn due(self, instances: u64) -> bool {
        &&& self.needs_power_pass
        &&& self.entry_count > 0
        &&& !(self.linst_count > 0 && instances == 0)
    }

    /// Analytic lights that moved are written again.
    pub open spec fn refreshes(self) -> bool {
        self.analytic_upload && self.analytics.handle != 0
    }

    pub open spec fn refresh_commands(self) -> Seq<Command> {
        seq![
            Command::Update {
                source: Source::AnalyticLights,
                dst: self.analytics.handle,
                count: self.analytic_cache@.len() as u64,
            },
            barrier(
                STAGE_TRANSFER,
                ACCESS_TRANSFER_WRITE,
                STAGE_COMPUTE_SHADER | STAGE_RAY_TRACING_SHADER,
                ACCESS_SHADER_READ,
            ),
        ]
    }

    /// The weights are computed and summed up.
    pub open spec fn power_commands(self, instances: u64) -> Seq<Command> {
        seq![
            Command::Dispatch {
                kernel: Kernel::LightPowers,
                params: Params::LightPower(
                    LightPowerParams {
                        linsts: self.linsts.address,
                        instances,
                        powers: self.cdf.address,
                        analytics: self.analytics.address,
                        linst_count: self.linst_count,
                        entry_count: self.entry_count,
                        analytic_count: self.analytic_cache@.len() as u32,
                        base: 0,
                    },
                ),
                threads: self.entry_count,
            },
            compute_to_compute(),
            Command::Dispatch {
                kernel: Kernel::LightScan,
                params: Params::LightScan(
                    LightScanParams {
                        powers: self.cdf.address,
                        header: self.header.address,
                        entry_count: self.entry_count,
                        pad: 0,
                    },
                ),
                threads: 1,
            },
            barrier(
                STAGE_COMPUTE_SHADER,
                ACCESS_SHADER_WRITE,
                STAGE_RAY_TRACING_SHADER,
                ACCESS_SHADER_READ,
            ),
        ]
    }

    /// The commands of a frame: the weights and their sums, where they are due. `instances` is
    /// the address of the live instance rows, which triangle entries read.
    pub fn record(&mut self, module_ready: bool, instances: u64) -> (r: (bool, Vec<Command>))
        requires
            old(self).wf(),
            old(self).analytic_cache@.len() <= u32::MAX,
        ensures
            final(self).wf(),
            r.0 == (old(self).due(instances) && !module_ready && !old(self).warned_module),
            final(self).warned_module == (old(self).warned_module || (old(self).due(instances)
                && !module_ready)),
            ({
                let runs = old(self).due(instances) && module_ready;
                &&& r.1@ == if !runs {
                    Seq::empty()
                } else if old(self).refreshes() {
                    old(self).refresh_commands() + old(self).power_commands(instances)
                } else {
                    old(self).power_commands(instances)
                }
                &&& final(self).needs_power_pass == (old(self).needs_power_pass && !runs)
                &&& final(self).analytic_upload == (old(self).analytic_upload && !(runs
                    && old(self).refreshes()))
                &&& final(self).logged_instances == if runs {
                    old(self).linst_count
                } else {
                    old(self).logged_instances
                }
                &&& final(self).logged_entries == if runs {
                    old(self).entry_count
                } else {
                    old(self).logged_entries
                }
            }),
            final(self).sources == old(self).sources,
            final(self).pending == old(self).pending,
            final(self).dirty == old(self).dirty,
            final(self).device_buffers() == old(self).device_buffers(),
            final(self).analytic_cache == old(self).analytic_cache,
            final(self).analytic_entities == old(self).analytic_entities,
            final(self).entry_count == old(self).entry_count,
            final(self).linst_count == old(self).linst_count,
            final(self).active_entries == old(self).active_entries,
            final(self).epoch == old(self).epoch,
    {
        let mut out: Vec<Command> = Vec::new();
        if !self.needs_power_pass || self.entry_count == 0 {
            return (false, out);
        }
        if self.linst_count > 0 && instances == 0 {
            return (false, out);
        }
        if !module_ready {
            let warn: bool = !self.warned_module;
            self.warned_module = true;
            return (warn, out);
        }
        if self.analytic_upload && self.analytics.handle != 0 {
            self.analytic_upload = false;
            out.push(
                Command::Update {
                    source: Source::AnalyticLights,
                    dst: self.analytics.handle,
                    count: self.analytic_cache.len() as u64,
                },
            );
            out.push(
                memory_barrier(
                    STAGE_TRANSFER,
                    ACCESS_TRANSFER_WRITE,
                    STAGE_COMPUTE_SHADER | STAGE_RAY_TRACING_SHADER,
                    ACCESS_SHADER_READ,
                ),
            );
        }
        out.push(
            Command::Dispatch {
                kernel: Kernel::LightPowers,
                params: Params::LightPower(
                    LightPowerParams {
                        linsts: self.linsts.address,
                        instances,
                        powers: self.cdf.address,
                        analytics: self.analytics.address,
                        linst_count: self.linst_count,
                        entry_count: self.entry_count,
                        analytic_count: self.analytic_cache.len() as u32,
                        base: 0,
                    },
                ),
                threads: self.entry_count,
            },
        );
        out.push(compute_to_compute_barrier());
        out.push(
            Command::Dispatch {
                kernel: Kernel::LightScan,
                params: Params::LightScan(
                    LightScanParams {
                        powers: self.cdf.address,
                        header: self.header.address,
                        entry_count: self.entry_count,
                        pad: 0,
                    },
                ),
                threads: 1,
            },
        );
        out.push(
            memory_barrier(
                STAGE_COMPUTE_SHADER,
                ACCESS_SHADER_WRITE,
                STAGE_RAY_TRACING_SHADER,
                ACCESS_SHADER_READ,
            ),
        );
        proof {
            assert(out@ =~= if old(self).refreshes() {
                old(self).refresh_commands() + old(self).power_commands(instances)
            } else {
                old(self).power_commands(instances)
            });
        }
        self.needs_power_pass = false;
        self.logged_instances = self.linst_count;
        self.logged_entries = self.entry_count;
        (false, out)
    }
}

/// How many of the first `n` sources light the scene.
pub open spec fn lit_before(inputs: Seq<(u32, LightInput)>, n: int) -> int
    decreases n,
{
    if n <= 0 {
        0
    } else {
        lit_before(inputs, n - 1) + if inputs[n - 1].1.shines() {
            1int
        } else {
            0int
        }
    }
}

proof fn lemma_lit_before_front(inputs: Seq<(u32, LightInput)>, n: int)
    requires
        0 <= n < inputs.len(),
    ensures
        lit_before(inputs.drop_last(), n) == lit_before(inputs, n),
        lit_before(inputs, n) >= 0,
    decreases n,
{
    if n > 0 {
        lemma_lit_before_front(inputs, n - 1);
        assert(inputs.drop_last()[n - 1] == inputs[n - 1]);
    }
}

proof fn lemma_lit_count(analytic_count: int, inputs: Seq<(u32, LightInput)>)
    ensures
        lit_records(analytic_count, inputs).len() == lit_before(inputs, inputs.len() as int),
    decreases inputs.len(),
{
    if inputs.len() > 0 {
        let last = inputs.len() - 1;
        lemma_lit_count(analytic_count, inputs.drop_last());
        lemma_lit_before_front(inputs, last);
        assert(inputs[last] == inputs.last());
    }
}

/// Every source that lights the scene has one record, behind those of the sources before it. The
/// record names the source's slot, its geometry and all of its triangles, and its share of the
/// emissions is the source's own: the one emission for every geometry of a mesh, and for a bundle
/// that of each of its materials.
pub proof fn lemma_source_recorded(analytic_count: int, inputs: Seq<(u32, LightInput)>, j: int)
    requires
        0 <= analytic_count,
        table_fits(analytic_count, inputs),
        0 <= j < inputs.len(),
        inputs[j].1.shines(),
    ensures
        ({
            let r = lit_records(analytic_count, inputs)[lit_before(inputs, j)];
            let e = lit_emissions(inputs);
            let from = r.geom_emission as int / 3;
            let g = match inputs[j].1 {
                LightInput::Mesh { geometry, .. } => geometry->0,
                LightInput::Gltf { geometry, .. } => geometry->0,
            };
            &&& 0 <= lit_before(inputs, j) < lit_records(analytic_count, inputs).len()
            &&& lit_records(analytic_count, inputs).len() == lit_before(inputs, inputs.len() as int)
            &&& r.slot == inputs[j].0
            &&& r.verts == g.verts
            &&& r.indices == g.indices
            &&& r.geom_to_index == g.geom_to_index
            &&& r.geom_to_triangle == g.geom_to_triangle
            &&& 3 * r.tri_count <= g.index_count < 3 * r.tri_count + 3
            &&& r.entry_base >= analytic_count
            &&& r.geom_emission % 3 == 0
            &&& from + r.geom_count <= e.len()
            &&& match inputs[j].1 {
                LightInput::Mesh { emission, .. } => {
                    &&& r.geom_count == if g.geometry_count == 0 {
                        1
                    } else {
                        g.geometry_count
                    }
                    &&& forall|i: int|
                        0 <= i < r.geom_count ==> #[trigger] e[from + i] == emission->0
                },
                LightInput::Gltf { materials, .. } => {
                    &&& r.geom_count == materials->0@.len()
                    &&& forall|i: int|
                        0 <= i < r.geom_count ==> #[trigger] e[from + i]
                            == materials->0@[i].emission
                },
            }
        }),
    decreases inputs.len(),
{
    let front = inputs.drop_last();
    let last = inputs.len() - 1;
    let before = lit_records(analytic_count, front);
    lemma_lit_count(analytic_count, front);
    lemma_lit_count(analytic_count, inputs);
    lemma_lit_before_front(inputs, last);
    lemma_lit_prefix(inputs, last);
    assert(inputs.take(last) =~= front);
    assert(inputs[last] == inputs.last());
    let e = lit_emissions(inputs);
    let b = lit_emissions(front);
    if j < last {
        lemma_lit_before_front(inputs, j);
        assert(front[j] == inputs[j]);
        assert forall|i: int| 0 <= i < front.len() implies (#[trigger] front[i]).0 < u32::MAX
            && front[i].0 < usize::MAX by {
            assert(front[i] == inputs[i]);
        }
        lemma_source_recorded(analytic_count, front, j);
        let k = lit_before(inputs, j);
        assert(lit_records(analytic_count, inputs)[k] == before[k]);
        assert forall|i: int| 0 <= i < b.len() implies #[trigger] e[i] == b[i] by {}
    } else {
        let own = inputs.last().1.emissions();
        assert(e =~= b + own);
        assert forall|i: int| 0 <= i < own.len() implies #[trigger] e[b.len() + i] == own[i] by {}
    }
}

/// The two kernels of a pass work on one table: the weights that the first writes, one for each
/// entry, are those that the second sums up, and the sum goes to the header that rays are given.
/// Lights that moved are written before either.
pub proof fn lemma_power_pass(m: LightManager, instances: u64)
    ensures
        ({
            let c = m.power_commands(instances);
            &&& match (c[0], c[2]) {
                (
                    Command::Dispatch { kernel, params: Params::LightPower(p), threads },
                    Command::Dispatch { kernel: then, params: Params::LightScan(q), threads: one },
                ) => {
                    &&& kernel == Kernel::LightPowers
                    &&& then == Kernel::LightScan
                    &&& threads == m.entry_count
                    &&& p.entry_count == threads
                    &&& p.base == 0
                    &&& q.entry_count == threads
                    &&& one == 1
                    &&& q.powers == p.powers
                    &&& p.powers == m.cdf.address
                    &&& q.header == m.header.address
                    &&& p.linsts == m.linsts.address
                    &&& p.linst_count == m.linst_count
                    &&& p.analytics == m.analytics.address
                    &&& p.analytic_count == m.analytic_cache@.len() as u32
                    &&& p.instances == instances
                },
                _ => false,
            }
            &&& c.len() == 4
            &&& ordered(
                c,
                0,
                2,
                STAGE_COMPUTE_SHADER,
                ACCESS_SHADER_WRITE,
                STAGE_COMPUTE_SHADER,
                ACCESS_SHADER_READ,
            )
            &&& ordered(
                c,
                2,
                4,
                STAGE_COMPUTE_SHADER,
                ACCESS_SHADER_WRITE,
                STAGE_RAY_TRACING_SHADER,
                ACCESS_SHADER_READ,
            )
        }),
        ({
            let c = m.refresh_commands();
            &&& c.len() == 2
            &&& c[0] == (Command::Update {
                source: Source::AnalyticLights,
                dst: m.analytics.handle,
                count: m.analytic_cache@.len() as u64,
            })
            &&& ordered(
                c,
                0,
                2,
                STAGE_TRANSFER,
                ACCESS_TRANSFER_WRITE,
                STAGE_COMPUTE_SHADER,
                ACCESS_SHADER_READ,
            )
            &&& ordered(
                c,
                0,
                2,
                STAGE_TRANSFER,
                ACCESS_TRANSFER_WRITE,
                STAGE_RAY_TRACING_SHADER,
                ACCESS_SHADER_READ,
            )
        }),
{
    lemma_includes(STAGE_COMPUTE_SHADER, STAGE_RAY_TRACING_SHADER);
    lemma_includes(STAGE_COMPUTE_SHADER, STAGE_DRAW_INDIRECT);
    lemma_includes(STAGE_RAY_TRACING_SHADER, STAGE_TRANSFER);
    lemma_includes(STAGE_TRANSFER, STAGE_TRANSFER);
    lemma_includes(ACCESS_TRANSFER_WRITE, ACCESS_TRANSFER_WRITE);
    lemma_includes(ACCESS_SHADER_READ, ACCESS_SHADER_WRITE);
    lemma_includes(ACCESS_SHADER_WRITE, ACCESS_SHADER_READ);
    lemma_includes(ACCESS_SHADER_READ | ACCESS_SHADER_WRITE, ACCESS_INDIRECT_COMMAND_READ);
    assert(includes(
        ACCESS_SHADER_READ | ACCESS_SHADER_WRITE | ACCESS_INDIRECT_COMMAND_READ,
        ACCESS_SHADER_READ | ACCESS_SHADER_WRITE,
    ));
    let c = m.power_commands(instances);
    assert(c[1] == compute_to_compute());
    assert(c[3] is Barrier);
    let d = m.refresh_commands();
    assert(d[1] is Barrier);
}

/// Considering an instance tells of that instance alone. It lights the scene as a bundle, or as a
/// mesh whose material is known to emit; a mesh whose material is known not to emit lights
/// nothing; one whose material has not loaded waits. The table is to be rebuilt exactly where what
/// lights the scene changed, so considering the instance again changes nothing.
pub proof fn lemma_tracking(t: Tracking, c: LightCandidate, other: u32)
    ensures
        ({
            let a = considered(t, c);
            let whole = c.mesh is Some && c.material is Some;
            let mesh = LightSource::Mesh { mesh: c.mesh->0, material: c.material->0 };
            &&& other != c.slot ==> (a.sources.contains_key(other) <==> t.sources.contains_key(
                other,
            )) && (a.pending.contains_key(other) <==> t.pending.contains_key(other))
            &&& other != c.slot && t.sources.contains_key(other) ==> a.sources[other]
                == t.sources[other]
            &&& other != c.slot && t.pending.contains_key(other) ==> a.pending[other]
                == t.pending[other]
            &&& c.gltf matches Some(gltf) ==> a.sources.contains_key(c.slot) && a.sources[c.slot]
                == (LightSource::Gltf { gltf }) && !a.pending.contains_key(c.slot)
            &&& c.gltf is None && whole && c.emissive == Some(true) ==> a.sources.contains_key(
                c.slot,
            ) && a.sources[c.slot] == mesh && !a.pending.contains_key(c.slot)
            &&& c.gltf is None && whole && c.emissive == Some(false) ==> !a.sources.contains_key(
                c.slot,
            ) && !a.pending.contains_key(c.slot)
            &&& c.gltf is None && whole && c.emissive is None ==> a.sources == t.sources
                && a.pending.contains_key(c.slot) && a.pending[c.slot] == mesh
            &&& c.gltf is None && !whole ==> a == t
            &&& a.dirty <==> t.dirty || a.sources != t.sources
            &&& considered(a, c) == a
        }),
{
    let a = considered(t, c);
    if a.sources != t.sources {
    } else {
        assert(a.sources.contains_key(c.slot) == t.sources.contains_key(c.slot));
    }
    if c.gltf is Some || c.mesh is Some && c.material is Some {
        if t.sources.contains_key(c.slot) && a.sources.contains_key(c.slot) && a.sources[c.slot]
            == t.sources[c.slot] {
            assert(a.sources =~= t.sources);
        }
        if !t.sources.contains_key(c.slot) && !a.sources.contains_key(c.slot) {
            assert(a.sources =~= t.sources);
        }
    }
    assert(considered(a, c).sources =~= a.sources);
    assert(considered(a, c).pending =~= a.pending);
}

} // verus!
