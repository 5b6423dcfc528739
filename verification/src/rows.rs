//! Tables as the kernels and shaders read them: rows of a fixed number of words, one behind the
//! other.

use crate::atmosphere::AtmosphereGpu;
use crate::bits::Vec3;
use crate::blas::{Triangle, Vertex};
use crate::gpu_transform::{LocalRecord, NodeLocal, U32Record};
use crate::lights::{AnalyticLight, LightInst, LightsHeader};
use crate::material::RTXMaterial;
use crate::portal::GpuPortal;
use crate::ray_render_plugin::{PostProcessPushConstants, RaytracingPushConstants};
use crate::record::{lemma_words_bytes_len, put_words, words_bytes};
use vstd::prelude::*;

verus! {

/// The word that comes first of a long one.
pub open spec fn low_word(x: u64) -> u32 {
    (x % 0x1_0000_0000) as u32
}

/// The word that comes second of a long one.
pub open spec fn high_word(x: u64) -> u32 {
    (x / 0x1_0000_0000) as u32
}

fn low(x: u64) -> (r: u32)
    ensures
        r == low_word(x),
{
    (x % 0x1_0000_0000) as u32
}

fn high(x: u64) -> (r: u32)
    ensures
        r == high_word(x),
{
    (x / 0x1_0000_0000) as u32
}

/// A row of a table.
pub trait Row: Sized {
    /// The words of every row.
    spec fn count() -> nat;

    /// The row's words, in order; a long one stands as two.
    spec fn words(self) -> Seq<u32>;

    /// Every row is as long.
    proof fn lemma_count(self)
        ensures
            self.words().len() == Self::count(),
    ;

    /// Appends the row.
    fn put_row(&self, out: &mut Vec<u8>)
        ensures
            final(out)@ == old(out)@ + words_bytes(self.words()),
    ;
}

/// The bytes of a table.
pub open spec fn table_layout<T: Row>(items: Seq<T>) -> Seq<u8>
    decreases items.len(),
{
    if items.len() == 0 {
        Seq::empty()
    } else {
        table_layout(items.drop_last()) + words_bytes(items.last().words())
    }
}

/// Lays a table out.
pub fn table_bytes<T: Row>(items: &[T]) -> (r: Vec<u8>)
    ensures
        r@ == table_layout(items@),
{
    let mut r: Vec<u8> = Vec::new();
    let mut i: usize = 0;
    assert(items@.take(0) =~= Seq::<T>::empty());
    while i < items.len()
        invariant
            i <= items@.len(),
            r@ == table_layout(items@.take(i as int)),
        decreases items@.len() - i,
    {
        items[i].put_row(&mut r);
        assert(items@.take(i as int + 1).drop_last() =~= items@.take(i as int));
        i = i + 1;
    }
    assert(items@.take(i as int) =~= items@);
    r
}

/// Row `k` of a table stands behind `k` rows.
pub proof fn lemma_row_place<T: Row>(items: Seq<T>, k: int)
    requires
        0 <= k < items.len(),
    ensures
        table_layout(items).len() == items.len() * (4 * T::count()),
        (k + 1) * (4 * T::count()) <= table_layout(items).len(),
        table_layout(items).subrange(k * (4 * T::count()), (k + 1) * (4 * T::count()))
            == words_bytes(items[k].words()),
    decreases items.len(),
{
    let n = 4 * T::count() as int;
    let front = items.drop_last();
    let last = items.last();
    last.lemma_count();
    lemma_words_bytes_len(last.words());
    let m = front.len() as int;
    if m > 0 {
        lemma_row_place(front, 0);
    } else {
        assert(m * n == 0) by (nonlinear_arith)
            requires
                m == 0,
        ;
    }
    assert(table_layout(front).len() == m * n);
    assert((m + 1) * n == m * n + n) by (nonlinear_arith);
    assert((k + 1) * n == k * n + n) by (nonlinear_arith);
    assert(k * n >= 0) by (nonlinear_arith)
        requires
            k >= 0,
            n >= 0,
    ;
    let all = table_layout(items);
    if k < m {
        lemma_row_place(front, k);
        assert(all.subrange(k * n, (k + 1) * n) =~= table_layout(front).subrange(
            k * n,
            (k + 1) * n,
        ));
    } else {
        assert(k == m);
        assert(all.subrange(k * n, (k + 1) * n) =~= words_bytes(last.words()));
    }
}

impl Row for u32 {
    open spec fn count() -> nat {
        1
    }

    open spec fn words(self) -> Seq<u32> {
        seq![self]
    }

    proof fn lemma_count(self) {
    }

    fn put_row(&self, out: &mut Vec<u8>) {
        let ws: [u32; 1] = [*self];
        assert(ws@ =~= self.words());
        put_words(out, &ws);
    }
}

impl Row for NodeLocal {
    open spec fn count() -> nat {
        12
    }

    open spec fn words(self) -> Seq<u32> {
        seq![
            self.rotation.x,
            self.rotation.y,
            self.rotation.z,
            self.rotation.w,
            self.translation.x,
            self.translation.y,
            self.translation.z,
            self.translation.w,
            self.scale.x,
            self.scale.y,
            self.scale.z,
            self.scale.w,
        ]
    }

    proof fn lemma_count(self) {
    }

    fn put_row(&self, out: &mut Vec<u8>) {
        let ws: [u32; 12] = [
            self.rotation.x,
            self.rotation.y,
            self.rotation.z,
            self.rotation.w,
            self.translation.x,
            self.translation.y,
            self.translation.z,
            self.translation.w,
            self.scale.x,
            self.scale.y,
            self.scale.z,
            self.scale.w,
        ];
        assert(ws@ =~= self.words());
        put_words(out, &ws);
    }
}

impl Row for U32Record {
    open spec fn count() -> nat {
        2
    }

    open spec fn words(self) -> Seq<u32> {
        seq![
            self.slot,
            self.value,
        ]
    }

    proof fn lemma_count(self) {
    }

    fn put_row(&self, out: &mut Vec<u8>) {
        let ws: [u32; 2] = [
            self.slot,
            self.value,
        ];
        assert(ws@ =~= self.words());
        put_words(out, &ws);
    }
}

impl Row for GpuPortal {
    open spec fn count() -> nat {
        4
    }

    open spec fn words(self) -> Seq<u32> {
        seq![
            self.instance_slot,
            self.target_slot,
            self.valid,
            self.pad,
        ]
    }

    proof fn lemma_count(self) {
    }

    fn put_row(&self, out: &mut Vec<u8>) {
        let ws: [u32; 4] = [
            self.instance_slot,
            self.target_slot,
            self.valid,
            self.pad,
        ];
        assert(ws@ =~= self.words());
        put_words(out, &ws);
    }
}

impl Row for AnalyticLight {
    open spec fn count() -> nat {
        20
    }

    open spec fn words(self) -> Seq<u32> {
        seq![
            self.position.x,
            self.position.y,
            self.position.z,
            self.kind,
            self.direction.x,
            self.direction.y,
            self.direction.z,
            self.radius,
            self.tangent.x,
            self.tangent.y,
            self.tangent.z,
            self.cos_inner,
            self.emission.x,
            self.emission.y,
            self.emission.z,
            self.cos_outer,
            self.half_extents.x,
            self.half_extents.y,
            self.power,
            self.flags,
        ]
    }

    proof fn lemma_count(self) {
    }

    fn put_row(&self, out: &mut Vec<u8>) {
        let ws: [u32; 20] = [
            self.position.x,
            self.position.y,
            self.position.z,
            self.kind,
            self.direction.x,
            self.direction.y,
            self.direction.z,
            self.radius,
            self.tangent.x,
            self.tangent.y,
            self.tangent.z,
            self.cos_inner,
            self.emission.x,
            self.emission.y,
            self.emission.z,
            self.cos_outer,
            self.half_extents.x,
            self.half_extents.y,
            self.power,
            self.flags,
        ];
        assert(ws@ =~= self.words());
        put_words(out, &ws);
    }
}

impl Row for LightInst {
    open spec fn count() -> nat {
        16
    }

    open spec fn words(self) -> Seq<u32> {
        seq![
            low_word(self.verts),
            high_word(self.verts),
            low_word(self.indices),
            high_word(self.indices),
            low_word(self.geom_to_index),
            high_word(self.geom_to_index),
            low_word(self.geom_to_triangle),
            high_word(self.geom_to_triangle),
            self.geom_count,
            self.slot,
            self.entry_base,
            self.tri_count,
            low_word(self.geom_emission),
            high_word(self.geom_emission),
            low_word(self.pad),
            high_word(self.pad),
        ]
    }

    proof fn lemma_count(self) {
    }

    fn put_row(&self, out: &mut Vec<u8>) {
        let ws: [u32; 16] = [
            low(self.verts),
            high(self.verts),
            low(self.indices),
            high(self.indices),
            low(self.geom_to_index),
            high(self.geom_to_index),
            low(self.geom_to_triangle),
            high(self.geom_to_triangle),
            self.geom_count,
            self.slot,
            self.entry_base,
            self.tri_count,
            low(self.geom_emission),
            high(self.geom_emission),
            low(self.pad),
            high(self.pad),
        ];
        assert(ws@ =~= self.words());
        put_words(out, &ws);
    }
}

impl Row for LightsHeader {
    open spec fn count() -> nat {
        14
    }

    open spec fn words(self) -> Seq<u32> {
        seq![
            self.entry_count,
            self.linst_count,
            self.total_power,
            self.slot_map_count,
            self.analytic_count,
            self.pad1,
            low_word(self.cdf),
            high_word(self.cdf),
            low_word(self.linsts),
            high_word(self.linsts),
            low_word(self.slot_to_linst),
            high_word(self.slot_to_linst),
            low_word(self.analytics),
            high_word(self.analytics),
        ]
    }

    proof fn lemma_count(self) {
    }

    fn put_row(&self, out: &mut Vec<u8>) {
        let ws: [u32; 14] = [
            self.entry_count,
            self.linst_count,
            self.total_power,
            self.slot_map_count,
            self.analytic_count,
            self.pad1,
            low(self.cdf),
            high(self.cdf),
            low(self.linsts),
            high(self.linsts),
            low(self.slot_to_linst),
            high(self.slot_to_linst),
            low(self.analytics),
            high(self.analytics),
        ];
        assert(ws@ =~= self.words());
        put_words(out, &ws);
    }
}

impl Row for RTXMaterial {
    open spec fn count() -> nat {
        20
    }

    open spec fn words(self) -> Seq<u32> {
        seq![
            self.base_color_factor.x,
            self.base_color_factor.y,
            self.base_color_factor.z,
            self.base_color_factor.w,
            self.base_emissive_factor.x,
            self.base_emissive_factor.y,
            self.base_emissive_factor.z,
            self.base_emissive_factor.w,
            self.base_color_texture,
            self.base_emissive_texture,
            self.specular_transmission_texture,
            self.metallic_roughness_texture,
            self.normal_texture,
            self.specular_transmission_factor,
            self.roughness_factor,
            self.metallic_factor,
            self.refract_index,
            self.absorption.x,
            self.absorption.y,
            self.absorption.z,
        ]
    }

    proof fn lemma_count(self) {
    }

    fn put_row(&self, out: &mut Vec<u8>) {
        let ws: [u32; 20] = [
            self.base_color_factor.x,
            self.base_color_factor.y,
            self.base_color_factor.z,
            self.base_color_factor.w,
            self.base_emissive_factor.x,
            self.base_emissive_factor.y,
            self.base_emissive_factor.z,
            self.base_emissive_factor.w,
            self.base_color_texture,
            self.base_emissive_texture,
            self.specular_transmission_texture,
            self.metallic_roughness_texture,
            self.normal_texture,
            self.specular_transmission_factor,
            self.roughness_factor,
            self.metallic_factor,
            self.refract_index,
            self.absorption.x,
            self.absorption.y,
            self.absorption.z,
        ];
        assert(ws@ =~= self.words());
        put_words(out, &ws);
    }
}

impl Row for Vertex {
    open spec fn count() -> nat {
        8
    }

    open spec fn words(self) -> Seq<u32> {
        seq![
            self.position.x,
            self.position.y,
            self.position.z,
            self.normal.x,
            self.normal.y,
            self.normal.z,
            self.uv.x,
            self.uv.y,
        ]
    }

    proof fn lemma_count(self) {
    }

    fn put_row(&self, out: &mut Vec<u8>) {
        let ws: [u32; 8] = [
            self.position.x,
            self.position.y,
            self.position.z,
            self.normal.x,
            self.normal.y,
            self.normal.z,
            self.uv.x,
            self.uv.y,
        ];
        assert(ws@ =~= self.words());
        put_words(out, &ws);
    }
}

impl Row for Triangle {
    open spec fn count() -> nat {
        8
    }

    open spec fn words(self) -> Seq<u32> {
        seq![
            self.tangent,
            self.normals[0],
            self.normals[1],
            self.normals[2],
            self.uvs[0],
            self.uvs[1],
            self.uvs[2],
            self.padding,
        ]
    }

    proof fn lemma_count(self) {
    }

    fn put_row(&self, out: &mut Vec<u8>) {
        let ws: [u32; 8] = [
            self.tangent,
            self.normals[0],
            self.normals[1],
            self.normals[2],
            self.uvs[0],
            self.uvs[1],
            self.uvs[2],
            self.padding,
        ];
        assert(ws@ =~= self.words());
        put_words(out, &ws);
    }
}

impl Row for Vec3 {
    open spec fn count() -> nat {
        3
    }

    open spec fn words(self) -> Seq<u32> {
        seq![
            self.x,
            self.y,
            self.z,
        ]
    }

    proof fn lemma_count(self) {
    }

    fn put_row(&self, out: &mut Vec<u8>) {
        let ws: [u32; 3] = [
            self.x,
            self.y,
            self.z,
        ];
        assert(ws@ =~= self.words());
        put_words(out, &ws);
    }
}

impl Row for LocalRecord {
    open spec fn count() -> nat {
        16
    }

    open spec fn words(self) -> Seq<u32> {
        seq![
            self.slot,
            self.pad0,
            self.pad1,
            self.pad2,
            self.local.rotation.x,
            self.local.rotation.y,
            self.local.rotation.z,
            self.local.rotation.w,
            self.local.translation.x,
            self.local.translation.y,
            self.local.translation.z,
            self.local.translation.w,
            self.local.scale.x,
            self.local.scale.y,
            self.local.scale.z,
            self.local.scale.w,
        ]
    }

    proof fn lemma_count(self) {
    }

    fn put_row(&self, out: &mut Vec<u8>) {
        let ws: [u32; 16] = [
            self.slot,
            self.pad0,
            self.pad1,
            self.pad2,
            self.local.rotation.x,
            self.local.rotation.y,
            self.local.rotation.z,
            self.local.rotation.w,
            self.local.translation.x,
            self.local.translation.y,
            self.local.translation.z,
            self.local.translation.w,
            self.local.scale.x,
            self.local.scale.y,
            self.local.scale.z,
            self.local.scale.w,
        ];
        assert(ws@ =~= self.words());
        put_words(out, &ws);
    }
}

impl Row for AtmosphereGpu {
    open spec fn count() -> nat {
        68
    }

    open spec fn words(self) -> Seq<u32> {
        seq![
            low_word(self.transmittance),
            high_word(self.transmittance),
            low_word(self.multiscatter),
            high_word(self.multiscatter),
            low_word(self.skyview_rad),
            high_word(self.skyview_rad),
            low_word(self.skyview_trn),
            high_word(self.skyview_trn),
            low_word(self.noise),
            high_word(self.noise),
            low_word(self.noise_detail),
            high_word(self.noise_detail),
            self.air.planet_center.x,
            self.air.planet_center.y,
            self.air.planet_center.z,
            self.air.planet_radius,
            self.air.atmosphere_height,
            self.air.rayleigh_h,
            self.air.mie_h,
            self.air.ozone_center,
            self.air.ozone_width,
            self.air.rayleigh_scatter.x,
            self.air.rayleigh_scatter.y,
            self.air.rayleigh_scatter.z,
            self.air.mie_scatter.x,
            self.air.mie_scatter.y,
            self.air.mie_scatter.z,
            self.air.mie_absorb.x,
            self.air.mie_absorb.y,
            self.air.mie_absorb.z,
            self.air.ozone_absorb.x,
            self.air.ozone_absorb.y,
            self.air.ozone_absorb.z,
            self.air.mie_g,
            self.air.ground_albedo.x,
            self.air.ground_albedo.y,
            self.air.ground_albedo.z,
            self.air.sun_direction.x,
            self.air.sun_direction.y,
            self.air.sun_direction.z,
            self.air.sun_radiance.x,
            self.air.sun_radiance.y,
            self.air.sun_radiance.z,
            self.air.sun_cos_radius,
            self.air.camera_pos.x,
            self.air.camera_pos.y,
            self.air.camera_pos.z,
            self.words.clouds,
            self.words.cloud_shadows,
            self.words.cloud_steps,
            self.words.cloud_light_steps,
            self.shell.bottom,
            self.shell.top,
            self.shell.coverage,
            self.shell.coverage_scale,
            self.shell.density,
            self.shell.extinction,
            self.shell.detail,
            self.shell.scale,
            self.shell.detail_scale,
            self.shell.wind.x,
            self.shell.wind.y,
            self.shell.wind.z,
            self.shell.light_dist,
            self.shell.max_dist,
            self.shell.ambient,
            self.shell.forward_g,
            self.shell.back_g,
        ]
    }

    proof fn lemma_count(self) {
    }

    fn put_row(&self, out: &mut Vec<u8>) {
        let ws: [u32; 68] = [
            low(self.transmittance),
            high(self.transmittance),
            low(self.multiscatter),
            high(self.multiscatter),
            low(self.skyview_rad),
            high(self.skyview_rad),
            low(self.skyview_trn),
            high(self.skyview_trn),
            low(self.noise),
            high(self.noise),
            low(self.noise_detail),
            high(self.noise_detail),
            self.air.planet_center.x,
            self.air.planet_center.y,
            self.air.planet_center.z,
            self.air.planet_radius,
            self.air.atmosphere_height,
            self.air.rayleigh_h,
            self.air.mie_h,
            self.air.ozone_center,
            self.air.ozone_width,
            self.air.rayleigh_scatter.x,
            self.air.rayleigh_scatter.y,
            self.air.rayleigh_scatter.z,
            self.air.mie_scatter.x,
            self.air.mie_scatter.y,
            self.air.mie_scatter.z,
            self.air.mie_absorb.x,
            self.air.mie_absorb.y,
            self.air.mie_absorb.z,
            self.air.ozone_absorb.x,
            self.air.ozone_absorb.y,
            self.air.ozone_absorb.z,
            self.air.mie_g,
            self.air.ground_albedo.x,
            self.air.ground_albedo.y,
            self.air.ground_albedo.z,
            self.air.sun_direction.x,
            self.air.sun_direction.y,
            self.air.sun_direction.z,
            self.air.sun_radiance.x,
            self.air.sun_radiance.y,
            self.air.sun_radiance.z,
            self.air.sun_cos_radius,
            self.air.camera_pos.x,
            self.air.camera_pos.y,
            self.air.camera_pos.z,
            self.words.clouds,
            self.words.cloud_shadows,
            self.words.cloud_steps,
            self.words.cloud_light_steps,
            self.shell.bottom,
            self.shell.top,
            self.shell.coverage,
            self.shell.coverage_scale,
            self.shell.density,
            self.shell.extinction,
            self.shell.detail,
            self.shell.scale,
            self.shell.detail_scale,
            self.shell.wind.x,
            self.shell.wind.y,
            self.shell.wind.z,
            self.shell.light_dist,
            self.shell.max_dist,
            self.shell.ambient,
            self.shell.forward_g,
            self.shell.back_g,
        ];
        assert(ws@ =~= self.words());
        put_words(out, &ws);
    }
}

impl Row for RaytracingPushConstants {
    open spec fn count() -> nat {
        26
    }

    open spec fn words(self) -> Seq<u32> {
        seq![
            low_word(self.uniform_buffer),
            high_word(self.uniform_buffer),
            low_word(self.material_buffer),
            high_word(self.material_buffer),
            low_word(self.bluenoise_buffer2),
            high_word(self.bluenoise_buffer2),
            low_word(self.focus_buffer),
            high_word(self.focus_buffer),
            self.sky_texture,
            self.padding,
            low_word(self.prev_instances),
            high_word(self.prev_instances),
            low_word(self.lights),
            high_word(self.lights),
            low_word(self.instances),
            high_word(self.instances),
            low_word(self.reservoirs_prev),
            high_word(self.reservoirs_prev),
            low_word(self.reservoirs_cur),
            high_word(self.reservoirs_cur),
            low_word(self.sharc),
            high_word(self.sharc),
            low_word(self.lum_buffer),
            high_word(self.lum_buffer),
            low_word(self.auto_exposure),
            high_word(self.auto_exposure),
        ]
    }

    proof fn lemma_count(self) {
    }

    fn put_row(&self, out: &mut Vec<u8>) {
        let ws: [u32; 26] = [
            low(self.uniform_buffer),
            high(self.uniform_buffer),
            low(self.material_buffer),
            high(self.material_buffer),
            low(self.bluenoise_buffer2),
            high(self.bluenoise_buffer2),
            low(self.focus_buffer),
            high(self.focus_buffer),
            self.sky_texture,
            self.padding,
            low(self.prev_instances),
            high(self.prev_instances),
            low(self.lights),
            high(self.lights),
            low(self.instances),
            high(self.instances),
            low(self.reservoirs_prev),
            high(self.reservoirs_prev),
            low(self.reservoirs_cur),
            high(self.reservoirs_cur),
            low(self.sharc),
            high(self.sharc),
            low(self.lum_buffer),
            high(self.lum_buffer),
            low(self.auto_exposure),
            high(self.auto_exposure),
        ];
        assert(ws@ =~= self.words());
        put_words(out, &ws);
    }
}

impl Row for PostProcessPushConstants {
    open spec fn count() -> nat {
        6
    }

    open spec fn words(self) -> Seq<u32> {
        seq![
            low_word(self.uniforms),
            high_word(self.uniforms),
            low_word(self.auto_exposure),
            high_word(self.auto_exposure),
            self.display_exposure,
            self.debug_view,
        ]
    }

    proof fn lemma_count(self) {
    }

    fn put_row(&self, out: &mut Vec<u8>) {
        let ws: [u32; 6] = [
            low(self.uniforms),
            high(self.uniforms),
            low(self.auto_exposure),
            high(self.auto_exposure),
            self.display_exposure,
            self.debug_view,
        ];
        assert(ws@ =~= self.words());
        put_words(out, &ws);
    }
}

} // verus!
