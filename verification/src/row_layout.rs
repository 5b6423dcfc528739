//! Where a shader that is given the address of a table finds each number of each row, and where a
//! file keeps each number of each record.

use crate::atmosphere::AtmosphereGpu;
use crate::bits::{Vec2, Vec3, Vec4};
use crate::blas::{Triangle, Vertex};
use crate::cluster_mesh::types::{
    Cluster, ClusterBloatAabb, ClusterBvhNode, ClusterLodGroup, JointIndices, OmmDesc, OmmUsage,
};
use crate::gpu_transform::{LocalRecord, NodeLocal, U32Record};
use crate::lights::{AnalyticLight, LightInst, LightsHeader};
use crate::material::RTXMaterial;
use crate::portal::GpuPortal;
use crate::ray_render_plugin::{PostProcessPushConstants, RaytracingPushConstants};
use crate::record::{items_at, lemma_words_at, lemma_words_bytes_len, words_at, Record};
use crate::rows::{high_word, lemma_row_place, low_word, table_layout, Row};
use crate::wire::{word16, word32, word64};
use vstd::prelude::*;

verus! {

/// The word that a shader reads `at` bytes into a table.
#[verifier::opaque]
pub open spec fn read_word(s: Seq<u8>, at: int) -> u32 {
    word32(s, at)
}

/// The long word that a shader reads `at` bytes into a table.
#[verifier::opaque]
pub open spec fn read_long(s: Seq<u8>, at: int) -> u64 {
    word64(s, at)
}

/// Word `j` of row `k` stands `j` words behind where the row starts.
proof fn lemma_word_place<T: Row>(items: Seq<T>, k: int, j: int, stride: int)
    requires
        0 <= k < items.len(),
        0 <= j < T::count(),
        stride == 4 * T::count(),
    ensures
        read_word(table_layout(items), stride * k + 4 * j) == items[k].words()[j],
        table_layout(items).len() == stride * items.len(),
{
    reveal(read_word);
    let s = table_layout(items);
    let ws = items[k].words();
    items[k].lemma_count();
    lemma_row_place(items, k);
    lemma_words_bytes_len(ws);
    assert((k + 1) * stride == stride * k + stride && 0 <= stride * k && k * stride == stride * k)
        by (nonlinear_arith)
        requires
            0 <= k,
            0 <= stride,
    ;
    assert(items.len() * stride == stride * items.len()) by (nonlinear_arith);
    lemma_words_at(s, stride * k, ws);
    assert(words_at(s, stride * k, ws.len())[j] == ws[j]);
}

/// A long word of row `k` stands as two words, the low one first.
proof fn lemma_long_place<T: Row>(items: Seq<T>, k: int, j: int, stride: int, x: u64)
    requires
        0 <= k < items.len(),
        0 <= j,
        j + 1 < T::count(),
        stride == 4 * T::count(),
        items[k].words()[j] == low_word(x),
        items[k].words()[j + 1] == high_word(x),
    ensures
        read_long(table_layout(items), stride * k + 4 * j) == x,
        table_layout(items).len() == stride * items.len(),
{
    reveal(read_word);
    reveal(read_long);
    lemma_word_place(items, k, j, stride);
    lemma_word_place(items, k, j + 1, stride);
}

/// Each number of row `k` stands at its own place of the row's 48 bytes.
pub proof fn lemma_locals_read(items: Seq<NodeLocal>, k: int)
    requires
        0 <= k < items.len(),
    ensures
        table_layout(items).len() == 48 * items.len(),
        read_word(table_layout(items), 48 * k) == items[k].rotation.x,
        read_word(table_layout(items), 48 * k + 4) == items[k].rotation.y,
        read_word(table_layout(items), 48 * k + 8) == items[k].rotation.z,
        read_word(table_layout(items), 48 * k + 12) == items[k].rotation.w,
        read_word(table_layout(items), 48 * k + 16) == items[k].translation.x,
        read_word(table_layout(items), 48 * k + 20) == items[k].translation.y,
        read_word(table_layout(items), 48 * k + 24) == items[k].translation.z,
        read_word(table_layout(items), 48 * k + 28) == items[k].translation.w,
        read_word(table_layout(items), 48 * k + 32) == items[k].scale.x,
        read_word(table_layout(items), 48 * k + 36) == items[k].scale.y,
        read_word(table_layout(items), 48 * k + 40) == items[k].scale.z,
        read_word(table_layout(items), 48 * k + 44) == items[k].scale.w,
{
    assert(<NodeLocal as Row>::count() == 12);
    lemma_word_place(items, k, 0, 48);
    lemma_word_place(items, k, 1, 48);
    lemma_word_place(items, k, 2, 48);
    lemma_word_place(items, k, 3, 48);
    lemma_word_place(items, k, 4, 48);
    lemma_word_place(items, k, 5, 48);
    lemma_word_place(items, k, 6, 48);
    lemma_word_place(items, k, 7, 48);
    lemma_word_place(items, k, 8, 48);
    lemma_word_place(items, k, 9, 48);
    lemma_word_place(items, k, 10, 48);
    lemma_word_place(items, k, 11, 48);
}

/// Each number of row `k` stands at its own place of the row's 8 bytes.
pub proof fn lemma_word_records_read(items: Seq<U32Record>, k: int)
    requires
        0 <= k < items.len(),
    ensures
        table_layout(items).len() == 8 * items.len(),
        read_word(table_layout(items), 8 * k) == items[k].slot,
        read_word(table_layout(items), 8 * k + 4) == items[k].value,
{
    assert(<U32Record as Row>::count() == 2);
    lemma_word_place(items, k, 0, 8);
    lemma_word_place(items, k, 1, 8);
}

/// Each number of row `k` stands at its own place of the row's 16 bytes.
pub proof fn lemma_portals_read(items: Seq<GpuPortal>, k: int)
    requires
        0 <= k < items.len(),
    ensures
        table_layout(items).len() == 16 * items.len(),
        read_word(table_layout(items), 16 * k) == items[k].instance_slot,
        read_word(table_layout(items), 16 * k + 4) == items[k].target_slot,
        read_word(table_layout(items), 16 * k + 8) == items[k].valid,
        read_word(table_layout(items), 16 * k + 12) == items[k].pad,
{
    assert(<GpuPortal as Row>::count() == 4);
    lemma_word_place(items, k, 0, 16);
    lemma_word_place(items, k, 1, 16);
    lemma_word_place(items, k, 2, 16);
    lemma_word_place(items, k, 3, 16);
}

/// Each number of row `k` stands at its own place of the row's 80 bytes.
pub proof fn lemma_analytic_lights_read(items: Seq<AnalyticLight>, k: int)
    requires
        0 <= k < items.len(),
    ensures
        table_layout(items).len() == 80 * items.len(),
        read_word(table_layout(items), 80 * k) == items[k].position.x,
        read_word(table_layout(items), 80 * k + 4) == items[k].position.y,
        read_word(table_layout(items), 80 * k + 8) == items[k].position.z,
        read_word(table_layout(items), 80 * k + 12) == items[k].kind,
        read_word(table_layout(items), 80 * k + 16) == items[k].direction.x,
        read_word(table_layout(items), 80 * k + 20) == items[k].direction.y,
        read_word(table_layout(items), 80 * k + 24) == items[k].direction.z,
        read_word(table_layout(items), 80 * k + 28) == items[k].radius,
        read_word(table_layout(items), 80 * k + 32) == items[k].tangent.x,
        read_word(table_layout(items), 80 * k + 36) == items[k].tangent.y,
        read_word(table_layout(items), 80 * k + 40) == items[k].tangent.z,
        read_word(table_layout(items), 80 * k + 44) == items[k].cos_inner,
        read_word(table_layout(items), 80 * k + 48) == items[k].emission.x,
        read_word(table_layout(items), 80 * k + 52) == items[k].emission.y,
        read_word(table_layout(items), 80 * k + 56) == items[k].emission.z,
        read_word(table_layout(items), 80 * k + 60) == items[k].cos_outer,
        read_word(table_layout(items), 80 * k + 64) == items[k].half_extents.x,
        read_word(table_layout(items), 80 * k + 68) == items[k].half_extents.y,
        read_word(table_layout(items), 80 * k + 72) == items[k].power,
        read_word(table_layout(items), 80 * k + 76) == items[k].flags,
{
    assert(<AnalyticLight as Row>::count() == 20);
    lemma_word_place(items, k, 0, 80);
    lemma_word_place(items, k, 1, 80);
    lemma_word_place(items, k, 2, 80);
    lemma_word_place(items, k, 3, 80);
    lemma_word_place(items, k, 4, 80);
    lemma_word_place(items, k, 5, 80);
    lemma_word_place(items, k, 6, 80);
    lemma_word_place(items, k, 7, 80);
    lemma_word_place(items, k, 8, 80);
    lemma_word_place(items, k, 9, 80);
    lemma_word_place(items, k, 10, 80);
    lemma_word_place(items, k, 11, 80);
    lemma_word_place(items, k, 12, 80);
    lemma_word_place(items, k, 13, 80);
    lemma_word_place(items, k, 14, 80);
    lemma_word_place(items, k, 15, 80);
    lemma_word_place(items, k, 16, 80);
    lemma_word_place(items, k, 17, 80);
    lemma_word_place(items, k, 18, 80);
    lemma_word_place(items, k, 19, 80);
}

/// Each number of row `k` stands at its own place of the row's 64 bytes.
pub proof fn lemma_light_instances_read(items: Seq<LightInst>, k: int)
    requires
        0 <= k < items.len(),
    ensures
        table_layout(items).len() == 64 * items.len(),
        read_long(table_layout(items), 64 * k) == items[k].verts,
        read_long(table_layout(items), 64 * k + 8) == items[k].indices,
        read_long(table_layout(items), 64 * k + 16) == items[k].geom_to_index,
        read_long(table_layout(items), 64 * k + 24) == items[k].geom_to_triangle,
        read_word(table_layout(items), 64 * k + 32) == items[k].geom_count,
        read_word(table_layout(items), 64 * k + 36) == items[k].slot,
        read_word(table_layout(items), 64 * k + 40) == items[k].entry_base,
        read_word(table_layout(items), 64 * k + 44) == items[k].tri_count,
        read_long(table_layout(items), 64 * k + 48) == items[k].geom_emission,
        read_long(table_layout(items), 64 * k + 56) == items[k].pad,
{
    assert(<LightInst as Row>::count() == 16);
    lemma_long_place(items, k, 0, 64, items[k].verts);
    lemma_long_place(items, k, 2, 64, items[k].indices);
    lemma_long_place(items, k, 4, 64, items[k].geom_to_index);
    lemma_long_place(items, k, 6, 64, items[k].geom_to_triangle);
    lemma_word_place(items, k, 8, 64);
    lemma_word_place(items, k, 9, 64);
    lemma_word_place(items, k, 10, 64);
    lemma_word_place(items, k, 11, 64);
    lemma_long_place(items, k, 12, 64, items[k].geom_emission);
    lemma_long_place(items, k, 14, 64, items[k].pad);
}

/// Each number of row `k` stands at its own place of the row's 56 bytes.
pub proof fn lemma_light_headers_read(items: Seq<LightsHeader>, k: int)
    requires
        0 <= k < items.len(),
    ensures
        table_layout(items).len() == 56 * items.len(),
        read_word(table_layout(items), 56 * k) == items[k].entry_count,
        read_word(table_layout(items), 56 * k + 4) == items[k].linst_count,
        read_word(table_layout(items), 56 * k + 8) == items[k].total_power,
        read_word(table_layout(items), 56 * k + 12) == items[k].slot_map_count,
        read_word(table_layout(items), 56 * k + 16) == items[k].analytic_count,
        read_word(table_layout(items), 56 * k + 20) == items[k].pad1,
        read_long(table_layout(items), 56 * k + 24) == items[k].cdf,
        read_long(table_layout(items), 56 * k + 32) == items[k].linsts,
        read_long(table_layout(items), 56 * k + 40) == items[k].slot_to_linst,
        read_long(table_layout(items), 56 * k + 48) == items[k].analytics,
{
    assert(<LightsHeader as Row>::count() == 14);
    lemma_word_place(items, k, 0, 56);
    lemma_word_place(items, k, 1, 56);
    lemma_word_place(items, k, 2, 56);
    lemma_word_place(items, k, 3, 56);
    lemma_word_place(items, k, 4, 56);
    lemma_word_place(items, k, 5, 56);
    lemma_long_place(items, k, 6, 56, items[k].cdf);
    lemma_long_place(items, k, 8, 56, items[k].linsts);
    lemma_long_place(items, k, 10, 56, items[k].slot_to_linst);
    lemma_long_place(items, k, 12, 56, items[k].analytics);
}

/// Each number of row `k` stands at its own place of the row's 80 bytes.
pub proof fn lemma_materials_read(items: Seq<RTXMaterial>, k: int)
    requires
        0 <= k < items.len(),
    ensures
        table_layout(items).len() == 80 * items.len(),
        read_word(table_layout(items), 80 * k) == items[k].base_color_factor.x,
        read_word(table_layout(items), 80 * k + 4) == items[k].base_color_factor.y,
        read_word(table_layout(items), 80 * k + 8) == items[k].base_color_factor.z,
        read_word(table_layout(items), 80 * k + 12) == items[k].base_color_factor.w,
        read_word(table_layout(items), 80 * k + 16) == items[k].base_emissive_factor.x,
        read_word(table_layout(items), 80 * k + 20) == items[k].base_emissive_factor.y,
        read_word(table_layout(items), 80 * k + 24) == items[k].base_emissive_factor.z,
        read_word(table_layout(items), 80 * k + 28) == items[k].base_emissive_factor.w,
        read_word(table_layout(items), 80 * k + 32) == items[k].base_color_texture,
        read_word(table_layout(items), 80 * k + 36) == items[k].base_emissive_texture,
        read_word(table_layout(items), 80 * k + 40) == items[k].specular_transmission_texture,
        read_word(table_layout(items), 80 * k + 44) == items[k].metallic_roughness_texture,
        read_word(table_layout(items), 80 * k + 48) == items[k].normal_texture,
        read_word(table_layout(items), 80 * k + 52) == items[k].specular_transmission_factor,
        read_word(table_layout(items), 80 * k + 56) == items[k].roughness_factor,
        read_word(table_layout(items), 80 * k + 60) == items[k].metallic_factor,
        read_word(table_layout(items), 80 * k + 64) == items[k].refract_index,
        read_word(table_layout(items), 80 * k + 68) == items[k].absorption.x,
        read_word(table_layout(items), 80 * k + 72) == items[k].absorption.y,
        read_word(table_layout(items), 80 * k + 76) == items[k].absorption.z,
{
    assert(<RTXMaterial as Row>::count() == 20);
    lemma_word_place(items, k, 0, 80);
    lemma_word_place(items, k, 1, 80);
    lemma_word_place(items, k, 2, 80);
    lemma_word_place(items, k, 3, 80);
    lemma_word_place(items, k, 4, 80);
    lemma_word_place(items, k, 5, 80);
    lemma_word_place(items, k, 6, 80);
    lemma_word_place(items, k, 7, 80);
    lemma_word_place(items, k, 8, 80);
    lemma_word_place(items, k, 9, 80);
    lemma_word_place(items, k, 10, 80);
    lemma_word_place(items, k, 11, 80);
    lemma_word_place(items, k, 12, 80);
    lemma_word_place(items, k, 13, 80);
    lemma_word_place(items, k, 14, 80);
    lemma_word_place(items, k, 15, 80);
    lemma_word_place(items, k, 16, 80);
    lemma_word_place(items, k, 17, 80);
    lemma_word_place(items, k, 18, 80);
    lemma_word_place(items, k, 19, 80);
}

/// Each number of row `k` stands at its own place of the row's 32 bytes.
pub proof fn lemma_vertices_read(items: Seq<Vertex>, k: int)
    requires
        0 <= k < items.len(),
    ensures
        table_layout(items).len() == 32 * items.len(),
        read_word(table_layout(items), 32 * k) == items[k].position.x,
        read_word(table_layout(items), 32 * k + 4) == items[k].position.y,
        read_word(table_layout(items), 32 * k + 8) == items[k].position.z,
        read_word(table_layout(items), 32 * k + 12) == items[k].normal.x,
        read_word(table_layout(items), 32 * k + 16) == items[k].normal.y,
        read_word(table_layout(items), 32 * k + 20) == items[k].normal.z,
        read_word(table_layout(items), 32 * k + 24) == items[k].uv.x,
        read_word(table_layout(items), 32 * k + 28) == items[k].uv.y,
{
    assert(<Vertex as Row>::count() == 8);
    lemma_word_place(items, k, 0, 32);
    lemma_word_place(items, k, 1, 32);
    lemma_word_place(items, k, 2, 32);
    lemma_word_place(items, k, 3, 32);
    lemma_word_place(items, k, 4, 32);
    lemma_word_place(items, k, 5, 32);
    lemma_word_place(items, k, 6, 32);
    lemma_word_place(items, k, 7, 32);
}

/// Each number of row `k` stands at its own place of the row's 32 bytes.
pub proof fn lemma_triangles_read(items: Seq<Triangle>, k: int)
    requires
        0 <= k < items.len(),
    ensures
        table_layout(items).len() == 32 * items.len(),
        read_word(table_layout(items), 32 * k) == items[k].tangent,
        read_word(table_layout(items), 32 * k + 4) == items[k].normals[0],
        read_word(table_layout(items), 32 * k + 8) == items[k].normals[1],
        read_word(table_layout(items), 32 * k + 12) == items[k].normals[2],
        read_word(table_layout(items), 32 * k + 16) == items[k].uvs[0],
        read_word(table_layout(items), 32 * k + 20) == items[k].uvs[1],
        read_word(table_layout(items), 32 * k + 24) == items[k].uvs[2],
        read_word(table_layout(items), 32 * k + 28) == items[k].padding,
{
    assert(<Triangle as Row>::count() == 8);
    lemma_word_place(items, k, 0, 32);
    lemma_word_place(items, k, 1, 32);
    lemma_word_place(items, k, 2, 32);
    lemma_word_place(items, k, 3, 32);
    lemma_word_place(items, k, 4, 32);
    lemma_word_place(items, k, 5, 32);
    lemma_word_place(items, k, 6, 32);
    lemma_word_place(items, k, 7, 32);
}

/// Each number of row `k` stands at its own place of the row's 12 bytes.
pub proof fn lemma_emissions_read(items: Seq<Vec3>, k: int)
    requires
        0 <= k < items.len(),
    ensures
        table_layout(items).len() == 12 * items.len(),
        read_word(table_layout(items), 12 * k) == items[k].x,
        read_word(table_layout(items), 12 * k + 4) == items[k].y,
        read_word(table_layout(items), 12 * k + 8) == items[k].z,
{
    assert(<Vec3 as Row>::count() == 3);
    lemma_word_place(items, k, 0, 12);
    lemma_word_place(items, k, 1, 12);
    lemma_word_place(items, k, 2, 12);
}

/// Each number of row `k` stands at its own place of the row's 64 bytes.
pub proof fn lemma_local_records_read(items: Seq<LocalRecord>, k: int)
    requires
        0 <= k < items.len(),
    ensures
        table_layout(items).len() == 64 * items.len(),
        read_word(table_layout(items), 64 * k) == items[k].slot,
        read_word(table_layout(items), 64 * k + 4) == items[k].pad0,
        read_word(table_layout(items), 64 * k + 8) == items[k].pad1,
        read_word(table_layout(items), 64 * k + 12) == items[k].pad2,
        read_word(table_layout(items), 64 * k + 16) == items[k].local.rotation.x,
        read_word(table_layout(items), 64 * k + 20) == items[k].local.rotation.y,
        read_word(table_layout(items), 64 * k + 24) == items[k].local.rotation.z,
        read_word(table_layout(items), 64 * k + 28) == items[k].local.rotation.w,
        read_word(table_layout(items), 64 * k + 32) == items[k].local.translation.x,
        read_word(table_layout(items), 64 * k + 36) == items[k].local.translation.y,
        read_word(table_layout(items), 64 * k + 40) == items[k].local.translation.z,
        read_word(table_layout(items), 64 * k + 44) == items[k].local.translation.w,
        read_word(table_layout(items), 64 * k + 48) == items[k].local.scale.x,
        read_word(table_layout(items), 64 * k + 52) == items[k].local.scale.y,
        read_word(table_layout(items), 64 * k + 56) == items[k].local.scale.z,
        read_word(table_layout(items), 64 * k + 60) == items[k].local.scale.w,
{
    assert(<LocalRecord as Row>::count() == 16);
    lemma_word_place(items, k, 0, 64);
    lemma_word_place(items, k, 1, 64);
    lemma_word_place(items, k, 2, 64);
    lemma_word_place(items, k, 3, 64);
    lemma_word_place(items, k, 4, 64);
    lemma_word_place(items, k, 5, 64);
    lemma_word_place(items, k, 6, 64);
    lemma_word_place(items, k, 7, 64);
    lemma_word_place(items, k, 8, 64);
    lemma_word_place(items, k, 9, 64);
    lemma_word_place(items, k, 10, 64);
    lemma_word_place(items, k, 11, 64);
    lemma_word_place(items, k, 12, 64);
    lemma_word_place(items, k, 13, 64);
    lemma_word_place(items, k, 14, 64);
    lemma_word_place(items, k, 15, 64);
}

/// Each number of row `k` stands at its own place of the row's 272 bytes.
pub proof fn lemma_atmospheres_read(items: Seq<AtmosphereGpu>, k: int)
    requires
        0 <= k < items.len(),
    ensures
        table_layout(items).len() == 272 * items.len(),
        read_long(table_layout(items), 272 * k) == items[k].transmittance,
        read_long(table_layout(items), 272 * k + 8) == items[k].multiscatter,
        read_long(table_layout(items), 272 * k + 16) == items[k].skyview_rad,
        read_long(table_layout(items), 272 * k + 24) == items[k].skyview_trn,
        read_long(table_layout(items), 272 * k + 32) == items[k].noise,
        read_long(table_layout(items), 272 * k + 40) == items[k].noise_detail,
        read_word(table_layout(items), 272 * k + 48) == items[k].air.planet_center.x,
        read_word(table_layout(items), 272 * k + 52) == items[k].air.planet_center.y,
        read_word(table_layout(items), 272 * k + 56) == items[k].air.planet_center.z,
        read_word(table_layout(items), 272 * k + 60) == items[k].air.planet_radius,
        read_word(table_layout(items), 272 * k + 64) == items[k].air.atmosphere_height,
        read_word(table_layout(items), 272 * k + 68) == items[k].air.rayleigh_h,
        read_word(table_layout(items), 272 * k + 72) == items[k].air.mie_h,
        read_word(table_layout(items), 272 * k + 76) == items[k].air.ozone_center,
        read_word(table_layout(items), 272 * k + 80) == items[k].air.ozone_width,
        read_word(table_layout(items), 272 * k + 84) == items[k].air.rayleigh_scatter.x,
        read_word(table_layout(items), 272 * k + 88) == items[k].air.rayleigh_scatter.y,
        read_word(table_layout(items), 272 * k + 92) == items[k].air.rayleigh_scatter.z,
        read_word(table_layout(items), 272 * k + 96) == items[k].air.mie_scatter.x,
        read_word(table_layout(items), 272 * k + 100) == items[k].air.mie_scatter.y,
        read_word(table_layout(items), 272 * k + 104) == items[k].air.mie_scatter.z,
        read_word(table_layout(items), 272 * k + 108) == items[k].air.mie_absorb.x,
        read_word(table_layout(items), 272 * k + 112) == items[k].air.mie_absorb.y,
        read_word(table_layout(items), 272 * k + 116) == items[k].air.mie_absorb.z,
        read_word(table_layout(items), 272 * k + 120) == items[k].air.ozone_absorb.x,
        read_word(table_layout(items), 272 * k + 124) == items[k].air.ozone_absorb.y,
        read_word(table_layout(items), 272 * k + 128) == items[k].air.ozone_absorb.z,
        read_word(table_layout(items), 272 * k + 132) == items[k].air.mie_g,
        read_word(table_layout(items), 272 * k + 136) == items[k].air.ground_albedo.x,
        read_word(table_layout(items), 272 * k + 140) == items[k].air.ground_albedo.y,
        read_word(table_layout(items), 272 * k + 144) == items[k].air.ground_albedo.z,
        read_word(table_layout(items), 272 * k + 148) == items[k].air.sun_direction.x,
        read_word(table_layout(items), 272 * k + 152) == items[k].air.sun_direction.y,
        read_word(table_layout(items), 272 * k + 156) == items[k].air.sun_direction.z,
        read_word(table_layout(items), 272 * k + 160) == items[k].air.sun_radiance.x,
        read_word(table_layout(items), 272 * k + 164) == items[k].air.sun_radiance.y,
        read_word(table_layout(items), 272 * k + 168) == items[k].air.sun_radiance.z,
        read_word(table_layout(items), 272 * k + 172) == items[k].air.sun_cos_radius,
        read_word(table_layout(items), 272 * k + 176) == items[k].air.camera_pos.x,
        read_word(table_layout(items), 272 * k + 180) == items[k].air.camera_pos.y,
        read_word(table_layout(items), 272 * k + 184) == items[k].air.camera_pos.z,
        read_word(table_layout(items), 272 * k + 188) == items[k].words.clouds,
        read_word(table_layout(items), 272 * k + 192) == items[k].words.cloud_shadows,
        read_word(table_layout(items), 272 * k + 196) == items[k].words.cloud_steps,
        read_word(table_layout(items), 272 * k + 200) == items[k].words.cloud_light_steps,
        read_word(table_layout(items), 272 * k + 204) == items[k].shell.bottom,
        read_word(table_layout(items), 272 * k + 208) == items[k].shell.top,
        read_word(table_layout(items), 272 * k + 212) == items[k].shell.coverage,
        read_word(table_layout(items), 272 * k + 216) == items[k].shell.coverage_scale,
        read_word(table_layout(items), 272 * k + 220) == items[k].shell.density,
        read_word(table_layout(items), 272 * k + 224) == items[k].shell.extinction,
        read_word(table_layout(items), 272 * k + 228) == items[k].shell.detail,
        read_word(table_layout(items), 272 * k + 232) == items[k].shell.scale,
        read_word(table_layout(items), 272 * k + 236) == items[k].shell.detail_scale,
        read_word(table_layout(items), 272 * k + 240) == items[k].shell.wind.x,
        read_word(table_layout(items), 272 * k + 244) == items[k].shell.wind.y,
        read_word(table_layout(items), 272 * k + 248) == items[k].shell.wind.z,
        read_word(table_layout(items), 272 * k + 252) == items[k].shell.light_dist,
        read_word(table_layout(items), 272 * k + 256) == items[k].shell.max_dist,
        read_word(table_layout(items), 272 * k + 260) == items[k].shell.ambient,
        read_word(table_layout(items), 272 * k + 264) == items[k].shell.forward_g,
        read_word(table_layout(items), 272 * k + 268) == items[k].shell.back_g,
{
    assert(<AtmosphereGpu as Row>::count() == 68);
    lemma_long_place(items, k, 0, 272, items[k].transmittance);
    lemma_long_place(items, k, 2, 272, items[k].multiscatter);
    lemma_long_place(items, k, 4, 272, items[k].skyview_rad);
    lemma_long_place(items, k, 6, 272, items[k].skyview_trn);
    lemma_long_place(items, k, 8, 272, items[k].noise);
    lemma_long_place(items, k, 10, 272, items[k].noise_detail);
    lemma_word_place(items, k, 12, 272);
    lemma_word_place(items, k, 13, 272);
    lemma_word_place(items, k, 14, 272);
    lemma_word_place(items, k, 15, 272);
    lemma_word_place(items, k, 16, 272);
    lemma_word_place(items, k, 17, 272);
    lemma_word_place(items, k, 18, 272);
    lemma_word_place(items, k, 19, 272);
    lemma_word_place(items, k, 20, 272);
    lemma_word_place(items, k, 21, 272);
    lemma_word_place(items, k, 22, 272);
    lemma_word_place(items, k, 23, 272);
    lemma_word_place(items, k, 24, 272);
    lemma_word_place(items, k, 25, 272);
    lemma_word_place(items, k, 26, 272);
    lemma_word_place(items, k, 27, 272);
    lemma_word_place(items, k, 28, 272);
    lemma_word_place(items, k, 29, 272);
    lemma_word_place(items, k, 30, 272);
    lemma_word_place(items, k, 31, 272);
    lemma_word_place(items, k, 32, 272);
    lemma_word_place(items, k, 33, 272);
    lemma_word_place(items, k, 34, 272);
    lemma_word_place(items, k, 35, 272);
    lemma_word_place(items, k, 36, 272);
    lemma_word_place(items, k, 37, 272);
    lemma_word_place(items, k, 38, 272);
    lemma_word_place(items, k, 39, 272);
    lemma_word_place(items, k, 40, 272);
    lemma_word_place(items, k, 41, 272);
    lemma_word_place(items, k, 42, 272);
    lemma_word_place(items, k, 43, 272);
    lemma_word_place(items, k, 44, 272);
    lemma_word_place(items, k, 45, 272);
    lemma_word_place(items, k, 46, 272);
    lemma_word_place(items, k, 47, 272);
    lemma_word_place(items, k, 48, 272);
    lemma_word_place(items, k, 49, 272);
    lemma_word_place(items, k, 50, 272);
    lemma_word_place(items, k, 51, 272);
    lemma_word_place(items, k, 52, 272);
    lemma_word_place(items, k, 53, 272);
    lemma_word_place(items, k, 54, 272);
    lemma_word_place(items, k, 55, 272);
    lemma_word_place(items, k, 56, 272);
    lemma_word_place(items, k, 57, 272);
    lemma_word_place(items, k, 58, 272);
    lemma_word_place(items, k, 59, 272);
    lemma_word_place(items, k, 60, 272);
    lemma_word_place(items, k, 61, 272);
    lemma_word_place(items, k, 62, 272);
    lemma_word_place(items, k, 63, 272);
    lemma_word_place(items, k, 64, 272);
    lemma_word_place(items, k, 65, 272);
    lemma_word_place(items, k, 66, 272);
    lemma_word_place(items, k, 67, 272);
}

/// Each number of row `k` stands at its own place of the row's 104 bytes.
pub proof fn lemma_ray_constants_read(items: Seq<RaytracingPushConstants>, k: int)
    requires
        0 <= k < items.len(),
    ensures
        table_layout(items).len() == 104 * items.len(),
        read_long(table_layout(items), 104 * k) == items[k].uniform_buffer,
        read_long(table_layout(items), 104 * k + 8) == items[k].material_buffer,
        read_long(table_layout(items), 104 * k + 16) == items[k].bluenoise_buffer2,
        read_long(table_layout(items), 104 * k + 24) == items[k].focus_buffer,
        read_word(table_layout(items), 104 * k + 32) == items[k].sky_texture,
        read_word(table_layout(items), 104 * k + 36) == items[k].padding,
        read_long(table_layout(items), 104 * k + 40) == items[k].prev_instances,
        read_long(table_layout(items), 104 * k + 48) == items[k].lights,
        read_long(table_layout(items), 104 * k + 56) == items[k].instances,
        read_long(table_layout(items), 104 * k + 64) == items[k].reservoirs_prev,
        read_long(table_layout(items), 104 * k + 72) == items[k].reservoirs_cur,
        read_long(table_layout(items), 104 * k + 80) == items[k].sharc,
        read_long(table_layout(items), 104 * k + 88) == items[k].lum_buffer,
        read_long(table_layout(items), 104 * k + 96) == items[k].auto_exposure,
{
    assert(<RaytracingPushConstants as Row>::count() == 26);
    lemma_long_place(items, k, 0, 104, items[k].uniform_buffer);
    lemma_long_place(items, k, 2, 104, items[k].material_buffer);
    lemma_long_place(items, k, 4, 104, items[k].bluenoise_buffer2);
    lemma_long_place(items, k, 6, 104, items[k].focus_buffer);
    lemma_word_place(items, k, 8, 104);
    lemma_word_place(items, k, 9, 104);
    lemma_long_place(items, k, 10, 104, items[k].prev_instances);
    lemma_long_place(items, k, 12, 104, items[k].lights);
    lemma_long_place(items, k, 14, 104, items[k].instances);
    lemma_long_place(items, k, 16, 104, items[k].reservoirs_prev);
    lemma_long_place(items, k, 18, 104, items[k].reservoirs_cur);
    lemma_long_place(items, k, 20, 104, items[k].sharc);
    lemma_long_place(items, k, 22, 104, items[k].lum_buffer);
    lemma_long_place(items, k, 24, 104, items[k].auto_exposure);
}

/// Each number of row `k` stands at its own place of the row's 24 bytes.
pub proof fn lemma_post_constants_read(items: Seq<PostProcessPushConstants>, k: int)
    requires
        0 <= k < items.len(),
    ensures
        table_layout(items).len() == 24 * items.len(),
        read_long(table_layout(items), 24 * k) == items[k].uniforms,
        read_long(table_layout(items), 24 * k + 8) == items[k].auto_exposure,
        read_word(table_layout(items), 24 * k + 16) == items[k].display_exposure,
        read_word(table_layout(items), 24 * k + 20) == items[k].debug_view,
{
    assert(<PostProcessPushConstants as Row>::count() == 6);
    lemma_long_place(items, k, 0, 24, items[k].uniforms);
    lemma_long_place(items, k, 2, 24, items[k].auto_exposure);
    lemma_word_place(items, k, 4, 24);
    lemma_word_place(items, k, 5, 24);
}

// ---- records of files ------------------------------------------------------------------------

/// Each number of record `k` is read at its own place of the record's 48 bytes.
pub proof fn lemma_clusters_at(s: Seq<u8>, at: int, n: nat, k: int)
    requires
        0 <= k < n,
    ensures
        items_at::<Cluster>(s, at, n).len() == n,
        items_at::<Cluster>(s, at, n)[k].vertex_offset == word32(s, at + 48 * k),
        items_at::<Cluster>(s, at, n)[k].vertex_count == word32(s, at + 48 * k + 4),
        items_at::<Cluster>(s, at, n)[k].index_offset == word32(s, at + 48 * k + 8),
        items_at::<Cluster>(s, at, n)[k].triangle_count == word32(s, at + 48 * k + 12),
        items_at::<Cluster>(s, at, n)[k].bounds_sphere.x == word32(s, at + 48 * k + 16),
        items_at::<Cluster>(s, at, n)[k].bounds_sphere.y == word32(s, at + 48 * k + 20),
        items_at::<Cluster>(s, at, n)[k].bounds_sphere.z == word32(s, at + 48 * k + 24),
        items_at::<Cluster>(s, at, n)[k].bounds_sphere.w == word32(s, at + 48 * k + 28),
        items_at::<Cluster>(s, at, n)[k].local_material_id == word32(s, at + 48 * k + 32),
        items_at::<Cluster>(s, at, n)[k].lod_level == word32(s, at + 48 * k + 36),
{
    assert(<Cluster as Record>::count() == 12);
    let ws = words_at(s, at + 48 * k, 12);
    assert(items_at::<Cluster>(s, at, n)[k] == <Cluster as Record>::of_words(ws));
}

/// Each number of record `k` is read at its own place of the record's 48 bytes.
pub proof fn lemma_groups_at(s: Seq<u8>, at: int, n: nat, k: int)
    requires
        0 <= k < n,
    ensures
        items_at::<ClusterLodGroup>(s, at, n).len() == n,
        items_at::<ClusterLodGroup>(s, at, n)[k].cluster_start == word32(s, at + 48 * k),
        items_at::<ClusterLodGroup>(s, at, n)[k].cluster_count == word32(s, at + 48 * k + 4),
        items_at::<ClusterLodGroup>(s, at, n)[k].children_offset == word32(s, at + 48 * k + 8),
        items_at::<ClusterLodGroup>(s, at, n)[k].children_count == word32(s, at + 48 * k + 12),
        items_at::<ClusterLodGroup>(s, at, n)[k].traversal_sphere.x == word32(s, at + 48 * k + 16),
        items_at::<ClusterLodGroup>(s, at, n)[k].traversal_sphere.y == word32(s, at + 48 * k + 20),
        items_at::<ClusterLodGroup>(s, at, n)[k].traversal_sphere.z == word32(s, at + 48 * k + 24),
        items_at::<ClusterLodGroup>(s, at, n)[k].traversal_sphere.w == word32(s, at + 48 * k + 28),
        items_at::<ClusterLodGroup>(s, at, n)[k].max_quadric_error == word32(s, at + 48 * k + 32),
        items_at::<ClusterLodGroup>(s, at, n)[k].parent_group == word32(s, at + 48 * k + 36),
        items_at::<ClusterLodGroup>(s, at, n)[k].lod_level == word32(s, at + 48 * k + 40),
{
    assert(<ClusterLodGroup as Record>::count() == 12);
    let ws = words_at(s, at + 48 * k, 12);
    assert(items_at::<ClusterLodGroup>(s, at, n)[k] == <ClusterLodGroup as Record>::of_words(ws));
}

/// Each number of record `k` is read at its own place of the record's 32 bytes.
pub proof fn lemma_nodes_at(s: Seq<u8>, at: int, n: nat, k: int)
    requires
        0 <= k < n,
    ensures
        items_at::<ClusterBvhNode>(s, at, n).len() == n,
        items_at::<ClusterBvhNode>(s, at, n)[k].traversal_sphere.x == word32(s, at + 32 * k),
        items_at::<ClusterBvhNode>(s, at, n)[k].traversal_sphere.y == word32(s, at + 32 * k + 4),
        items_at::<ClusterBvhNode>(s, at, n)[k].traversal_sphere.z == word32(s, at + 32 * k + 8),
        items_at::<ClusterBvhNode>(s, at, n)[k].traversal_sphere.w == word32(s, at + 32 * k + 12),
        items_at::<ClusterBvhNode>(s, at, n)[k].max_quadric_error == word32(s, at + 32 * k + 16),
        items_at::<ClusterBvhNode>(s, at, n)[k].children_offset == word32(s, at + 32 * k + 20),
        items_at::<ClusterBvhNode>(s, at, n)[k].children_packed == word32(s, at + 32 * k + 24),
{
    assert(<ClusterBvhNode as Record>::count() == 8);
    let ws = words_at(s, at + 32 * k, 8);
    assert(items_at::<ClusterBvhNode>(s, at, n)[k] == <ClusterBvhNode as Record>::of_words(ws));
}

/// Each number of record `k` is read at its own place of the record's 32 bytes.
pub proof fn lemma_bloat_boxes_at(s: Seq<u8>, at: int, n: nat, k: int)
    requires
        0 <= k < n,
    ensures
        items_at::<ClusterBloatAabb>(s, at, n).len() == n,
        items_at::<ClusterBloatAabb>(s, at, n)[k].min.x == word32(s, at + 32 * k),
        items_at::<ClusterBloatAabb>(s, at, n)[k].min.y == word32(s, at + 32 * k + 4),
        items_at::<ClusterBloatAabb>(s, at, n)[k].min.z == word32(s, at + 32 * k + 8),
        items_at::<ClusterBloatAabb>(s, at, n)[k].min.w == word32(s, at + 32 * k + 12),
        items_at::<ClusterBloatAabb>(s, at, n)[k].max.x == word32(s, at + 32 * k + 16),
        items_at::<ClusterBloatAabb>(s, at, n)[k].max.y == word32(s, at + 32 * k + 20),
        items_at::<ClusterBloatAabb>(s, at, n)[k].max.z == word32(s, at + 32 * k + 24),
        items_at::<ClusterBloatAabb>(s, at, n)[k].max.w == word32(s, at + 32 * k + 28),
{
    assert(<ClusterBloatAabb as Record>::count() == 8);
    let ws = words_at(s, at + 32 * k, 8);
    assert(items_at::<ClusterBloatAabb>(s, at, n)[k] == <ClusterBloatAabb as Record>::of_words(ws));
}

/// Each number of record `k` is read at its own place of the record's 8 bytes.
pub proof fn lemma_micromap_descriptions_at(s: Seq<u8>, at: int, n: nat, k: int)
    requires
        0 <= k < n,
    ensures
        items_at::<OmmDesc>(s, at, n).len() == n,
        items_at::<OmmDesc>(s, at, n)[k].offset == word32(s, at + 8 * k),
        items_at::<OmmDesc>(s, at, n)[k].subdivision_level == word16(s, at + 8 * k + 4),
        items_at::<OmmDesc>(s, at, n)[k].format == word16(s, at + 8 * k + 6),
{
    assert(<OmmDesc as Record>::count() == 2);
    let ws = words_at(s, at + 8 * k, 2);
    assert(items_at::<OmmDesc>(s, at, n)[k] == <OmmDesc as Record>::of_words(ws));
}

/// Each number of record `k` is read at its own place of the record's 8 bytes.
pub proof fn lemma_micromap_usages_at(s: Seq<u8>, at: int, n: nat, k: int)
    requires
        0 <= k < n,
    ensures
        items_at::<OmmUsage>(s, at, n).len() == n,
        items_at::<OmmUsage>(s, at, n)[k].count == word32(s, at + 8 * k),
        items_at::<OmmUsage>(s, at, n)[k].subdivision_level == word16(s, at + 8 * k + 4),
        items_at::<OmmUsage>(s, at, n)[k].format == word16(s, at + 8 * k + 6),
{
    assert(<OmmUsage as Record>::count() == 2);
    let ws = words_at(s, at + 8 * k, 2);
    assert(items_at::<OmmUsage>(s, at, n)[k] == <OmmUsage as Record>::of_words(ws));
}

/// Each number of record `k` is read at its own place of the record's 8 bytes.
pub proof fn lemma_joint_indices_at(s: Seq<u8>, at: int, n: nat, k: int)
    requires
        0 <= k < n,
    ensures
        items_at::<JointIndices>(s, at, n).len() == n,
        items_at::<JointIndices>(s, at, n)[k].j0 == word16(s, at + 8 * k),
        items_at::<JointIndices>(s, at, n)[k].j1 == word16(s, at + 8 * k + 2),
        items_at::<JointIndices>(s, at, n)[k].j2 == word16(s, at + 8 * k + 4),
        items_at::<JointIndices>(s, at, n)[k].j3 == word16(s, at + 8 * k + 6),
{
    assert(<JointIndices as Record>::count() == 2);
    let ws = words_at(s, at + 8 * k, 2);
    assert(items_at::<JointIndices>(s, at, n)[k] == <JointIndices as Record>::of_words(ws));
}

/// Each number of record `k` is read at its own place of the record's 8 bytes.
pub proof fn lemma_pairs_at(s: Seq<u8>, at: int, n: nat, k: int)
    requires
        0 <= k < n,
    ensures
        items_at::<Vec2>(s, at, n).len() == n,
        items_at::<Vec2>(s, at, n)[k].x == word32(s, at + 8 * k),
        items_at::<Vec2>(s, at, n)[k].y == word32(s, at + 8 * k + 4),
{
    assert(<Vec2 as Record>::count() == 2);
    let ws = words_at(s, at + 8 * k, 2);
    assert(items_at::<Vec2>(s, at, n)[k] == <Vec2 as Record>::of_words(ws));
}

/// Each number of record `k` is read at its own place of the record's 12 bytes.
pub proof fn lemma_triples_at(s: Seq<u8>, at: int, n: nat, k: int)
    requires
        0 <= k < n,
    ensures
        items_at::<Vec3>(s, at, n).len() == n,
        items_at::<Vec3>(s, at, n)[k].x == word32(s, at + 12 * k),
        items_at::<Vec3>(s, at, n)[k].y == word32(s, at + 12 * k + 4),
        items_at::<Vec3>(s, at, n)[k].z == word32(s, at + 12 * k + 8),
{
    assert(<Vec3 as Record>::count() == 3);
    let ws = words_at(s, at + 12 * k, 3);
    assert(items_at::<Vec3>(s, at, n)[k] == <Vec3 as Record>::of_words(ws));
}

/// Each number of record `k` is read at its own place of the record's 16 bytes.
pub proof fn lemma_quadruples_at(s: Seq<u8>, at: int, n: nat, k: int)
    requires
        0 <= k < n,
    ensures
        items_at::<Vec4>(s, at, n).len() == n,
        items_at::<Vec4>(s, at, n)[k].x == word32(s, at + 16 * k),
        items_at::<Vec4>(s, at, n)[k].y == word32(s, at + 16 * k + 4),
        items_at::<Vec4>(s, at, n)[k].z == word32(s, at + 16 * k + 8),
        items_at::<Vec4>(s, at, n)[k].w == word32(s, at + 16 * k + 12),
{
    assert(<Vec4 as Record>::count() == 4);
    let ws = words_at(s, at + 16 * k, 4);
    assert(items_at::<Vec4>(s, at, n)[k] == <Vec4 as Record>::of_words(ws));
}

} // verus!
