//! From indexed triangles to a single-level cluster set.

use crate::bits::{Vec2, Vec3, Vec4};
use crate::cluster_mesh::rebuild::{
    finest, fits_at, gathered, gathered_indices, lemma_gathered_len, rebuildable, rebuilt,
    vertex_total, TriangleMesh,
};
use crate::cluster_mesh::types::{
    Attribute, Cluster, ClusterLodGroup, ClusterMeshAabb, ClusterMeshData, ClusterMeshError,
    ClusterMeshView,
};
use std::collections::HashMap;
use vstd::prelude::*;

verus! {

broadcast use vstd::std_specs::hash::group_hash_axioms;

/// The most triangles of one cluster.
pub const MAX_CLUSTER_TRIANGLES: usize = 128;

/// The most vertices of one cluster.
pub const MAX_CLUSTER_VERTICES: usize = 256;

/// The bit pattern of the number one.
pub const ONE_BITS: u32 = 0x3F80_0000;

/// The distinct numbers among `src[from..to]`, in the order in which they are first met.
pub open spec fn seen(src: Seq<u32>, from: int, to: int) -> Seq<u32>
    decreases to - from,
{
    if to <= from {
        Seq::empty()
    } else {
        let before = seen(src, from, to - 1);
        if before.contains(src[to - 1]) {
            before
        } else {
            before.push(src[to - 1])
        }
    }
}

/// One where `s` lacks `x`, else nothing.
pub open spec fn lacking(s: Seq<u32>, x: u32) -> int {
    if s.contains(x) {
        0
    } else {
        1
    }
}

/// A cluster that starts with triangle `start` and holds those before `t` can take `t` too:
/// it has room for a triangle, and for each corner of `t` that it lacks.
pub open spec fn takes(src: Seq<u32>, start: int, t: int) -> bool {
    let s = seen(src, 3 * start, 3 * t);
    &&& t - start < MAX_CLUSTER_TRIANGLES
    &&& s.len() + lacking(s, src[3 * t]) + lacking(s, src[3 * t + 1]) + lacking(s, src[3 * t + 2])
        <= MAX_CLUSTER_VERTICES
}

/// The first triangle at or after `t` that a cluster starting with `start` does not take, out
/// of `n` triangles.
pub open spec fn run_end(src: Seq<u32>, start: int, t: int, n: int) -> int
    decreases n - t,
{
    if t < n && takes(src, start, t) {
        run_end(src, start, t + 1, n)
    } else {
        t
    }
}

/// The first triangle of cluster `k`: each cluster takes all that it can, in order.
pub open spec fn cut(src: Seq<u32>, k: nat) -> int
    decreases k,
{
    if k == 0 {
        0
    } else {
        let start = cut(src, (k - 1) as nat);
        run_end(src, start, start, src.len() as int / 3)
    }
}

/// The source vertices of cluster `k`, in its own order.
pub open spec fn cluster_ids(src: Seq<u32>, k: int) -> Seq<u32> {
    seen(src, 3 * cut(src, k as nat), 3 * cut(src, (k + 1) as nat))
}

/// The vertices of the clusters before cluster `k`.
pub open spec fn vertex_start(src: Seq<u32>, k: nat) -> int
    decreases k,
{
    if k == 0 {
        0
    } else {
        vertex_start(src, (k - 1) as nat) + cluster_ids(src, k - 1).len()
    }
}

/// The source vertices of the clusters before cluster `k`, one cluster after the other.
pub open spec fn all_ids(src: Seq<u32>, k: nat) -> Seq<u32>
    decreases k,
{
    if k == 0 {
        Seq::empty()
    } else {
        all_ids(src, (k - 1) as nat) + cluster_ids(src, k - 1)
    }
}

/// The bounds that nobody has computed yet.
pub open spec fn no_bounds() -> Vec4 {
    Vec4 { x: 0, y: 0, z: 0, w: 0 }
}

/// The clusters cover the triangles of `src`: the last one ends with the last triangle.
pub open spec fn covers(src: Seq<u32>, m: nat) -> bool {
    &&& cut(src, m) == src.len() as int / 3
    &&& forall|k: nat| k < m ==> #[trigger] cut(src, k) < src.len() as int / 3
}

/// Cluster `k`, with these bounds.
pub open spec fn flat_cluster(src: Seq<u32>, k: int, bounds_sphere: Vec4) -> Cluster {
    Cluster {
        vertex_offset: vertex_start(src, k as nat) as u32,
        vertex_count: cluster_ids(src, k).len() as u32,
        index_offset: (3 * cut(src, k as nat)) as u32,
        triangle_count: (cut(src, (k + 1) as nat) - cut(src, k as nat)) as u32,
        bounds_sphere,
        local_material_id: 0,
        lod_level: 0,
        _pad0: 0,
        _pad1: 0,
    }
}

/// `ids[at..]` starts with the source vertices of cluster `k`.
pub open spec fn ids_placed(src: Seq<u32>, ids: Seq<u32>, k: int) -> bool {
    let own = cluster_ids(src, k);
    let at = vertex_start(src, k as nat);
    &&& at + own.len() <= ids.len()
    &&& forall|j: int| 0 <= j < own.len() ==> #[trigger] ids[at + j] == own[j]
}

/// The indices of cluster `k` name, in its own order, the corners that `src` names.
pub open spec fn corners_placed(src: Seq<u32>, indices: Seq<u32>, k: int) -> bool {
    let own = cluster_ids(src, k);
    forall|i: int|
        3 * cut(src, k as nat) <= i < 3 * cut(src, (k + 1) as nat) ==> (#[trigger] indices[i])
            < own.len() && own[indices[i] as int] == src[i]
}

/// The clusters are cut where they should be; their bounds may be anything.
pub open spec fn clusters_cut(src: Seq<u32>, clusters: Seq<Cluster>) -> bool {
    forall|k: int|
        0 <= k < clusters.len() ==> #[trigger] clusters[k] == flat_cluster(
            src,
            k,
            clusters[k].bounds_sphere,
        )
}

/// `ids`, `indices` and `clusters` are the triangles of `src`, cut greedily into clusters:
/// `ids` names the source vertex of every vertex, and `indices` the corners.
pub open spec fn is_flat(
    src: Seq<u32>,
    ids: Seq<u32>,
    indices: Seq<u32>,
    clusters: Seq<Cluster>,
) -> bool {
    let m = clusters.len();
    &&& covers(src, m)
    &&& ids.len() == vertex_start(src, m)
    &&& indices.len() == 3 * (src.len() as int / 3)
    &&& clusters_cut(src, clusters)
    &&& forall|k: int| 0 <= k < m ==> #[trigger] ids_placed(src, ids, k)
    &&& forall|k: int| 0 <= k < m ==> #[trigger] corners_placed(src, indices, k)
}

proof fn lemma_seen(src: Seq<u32>, from: int, to: int)
    requires
        0 <= from <= to <= src.len(),
    ensures
        seen(src, from, to).len() <= to - from,
        seen(src, from, to).no_duplicates(),
        forall|i: int| from <= i < to ==> seen(src, from, to).contains(#[trigger] src[i]),
        forall|j: int|
            0 <= j < seen(src, from, to).len() ==> exists|i: int|
                from <= i < to && src[i] == #[trigger] seen(src, from, to)[j],
    decreases to - from,
{
    if from < to {
        lemma_seen(src, from, to - 1);
        let before = seen(src, from, to - 1);
        let now = seen(src, from, to);
        assert forall|i: int| from <= i < to implies now.contains(#[trigger] src[i]) by {
            if i < to - 1 {
                assert(before.contains(src[i]));
                let j = choose|j: int| 0 <= j < before.len() && before[j] == src[i];
                assert(now[j] == src[i]);
            } else if !before.contains(src[i]) {
                assert(now[before.len() as int] == src[i]);
            }
        }
        assert forall|j: int| 0 <= j < now.len() implies exists|i: int|
            from <= i < to && src[i] == #[trigger] now[j] by {
            if j < before.len() {
                let i = choose|i: int| from <= i < to - 1 && src[i] == before[j];
                assert(src[i] == now[j]);
            } else {
                assert(src[to - 1] == now[j]);
            }
        }
    }
}

/// A cluster always takes its first triangle, and its end lies within the mesh.
proof fn lemma_run_end(src: Seq<u32>, start: int, t: int, n: int)
    requires
        0 <= start <= t <= n,
    ensures
        t <= run_end(src, start, t, n) <= n,
        t == start && t < n ==> run_end(src, start, t, n) > t,
        t - start <= MAX_CLUSTER_TRIANGLES ==> run_end(src, start, t, n) - start
            <= MAX_CLUSTER_TRIANGLES,
    decreases n - t,
{
    if t < n && takes(src, start, t) {
        lemma_run_end(src, start, t + 1, n);
    }
    if t == start && t < n {
        assert(seen(src, 3 * start, 3 * t).len() == 0);
        assert(takes(src, start, t));
    }
}

/// Clusters are cut in order, within the mesh.
proof fn lemma_cut(src: Seq<u32>, k: nat)
    ensures
        0 <= cut(src, k) <= cut(src, k + 1) <= src.len() as int / 3,
        cut(src, k) < src.len() as int / 3 ==> cut(src, k) < cut(src, k + 1),
        cut(src, k + 1) - cut(src, k) <= MAX_CLUSTER_TRIANGLES,
    decreases k,
{
    if k > 0 {
        lemma_cut(src, (k - 1) as nat);
    }
    lemma_run_end(src, cut(src, k), cut(src, k), src.len() as int / 3);
}

/// Vertices start after those of the clusters before, and are no more than the corners.
proof fn lemma_vertex_start(src: Seq<u32>, k: nat)
    ensures
        0 <= vertex_start(src, k) <= 3 * cut(src, k),
    decreases k,
{
    if k > 0 {
        let p = (k - 1) as nat;
        lemma_vertex_start(src, p);
        lemma_cut(src, p);
        lemma_seen(src, 3 * cut(src, p), 3 * cut(src, k));
    }
}

/// What a cluster takes never exceeds its room for vertices.
proof fn lemma_room(src: Seq<u32>, start: int, t: int, n: int)
    requires
        0 <= start <= t <= n,
        3 * n <= src.len(),
        seen(src, 3 * start, 3 * t).len() <= MAX_CLUSTER_VERTICES,
    ensures
        seen(src, 3 * start, 3 * run_end(src, start, t, n)).len() <= MAX_CLUSTER_VERTICES,
    decreases n - t,
{
    if t < n && takes(src, start, t) {
        let s0 = seen(src, 3 * start, 3 * t);
        let s1 = seen(src, 3 * start, 3 * t + 1);
        let s2 = seen(src, 3 * start, 3 * t + 2);
        let s3 = seen(src, 3 * start, 3 * t + 3);
        assert(s1.len() == s0.len() + lacking(s0, src[3 * t]));
        assert(s2.len() <= s1.len() + lacking(s0, src[3 * t + 1])) by {
            if s0.contains(src[3 * t + 1]) {
                let j = choose|j: int| 0 <= j < s0.len() && s0[j] == src[3 * t + 1];
                assert(s1[j] == src[3 * t + 1]);
            }
        }
        assert(s3.len() <= s2.len() + lacking(s0, src[3 * t + 2])) by {
            if s0.contains(src[3 * t + 2]) {
                let j = choose|j: int| 0 <= j < s0.len() && s0[j] == src[3 * t + 2];
                assert(s1[j] == src[3 * t + 2]);
                assert(s2[j] == src[3 * t + 2]);
            }
        }
        assert(3 * (t + 1) == 3 * t + 3);
        lemma_room(src, start, t + 1, n);
    }
}

/// No cluster has more than the most triangles, or than the most vertices, of one cluster,
/// and together they have every triangle of the mesh.
pub proof fn lemma_flat_limits(
    src: Seq<u32>,
    ids: Seq<u32>,
    indices: Seq<u32>,
    clusters: Seq<Cluster>,
)
    requires
        is_flat(src, ids, indices, clusters),
        src.len() <= u32::MAX,
    ensures
        forall|k: int|
            0 <= k < clusters.len() ==> (#[trigger] clusters[k]).triangle_count
                <= MAX_CLUSTER_TRIANGLES && clusters[k].vertex_count <= MAX_CLUSTER_VERTICES,
        triangle_total(clusters) == src.len() as int / 3,
{
    assert forall|k: int| 0 <= k < clusters.len() implies (#[trigger] clusters[k]).triangle_count
        <= MAX_CLUSTER_TRIANGLES && clusters[k].vertex_count <= MAX_CLUSTER_VERTICES by {
        let start = cut(src, k as nat);
        lemma_cut(src, k as nat);
        assert(cut(src, k as nat) < src.len() as int / 3);
        lemma_room(src, start, start, src.len() as int / 3);
        assert(clusters[k] == flat_cluster(src, k, clusters[k].bounds_sphere));
    }
    assert(clusters.take(clusters.len() as int) =~= clusters);
    lemma_triangle_total(src, clusters, clusters.len());
}

/// The triangles of all clusters together.
pub open spec fn triangle_total(clusters: Seq<Cluster>) -> int
    decreases clusters.len(),
{
    if clusters.len() == 0 {
        0
    } else {
        triangle_total(clusters.drop_last()) + clusters.last().triangle_count
    }
}

proof fn lemma_triangle_total(src: Seq<u32>, clusters: Seq<Cluster>, m: nat)
    requires
        m <= clusters.len(),
        src.len() <= u32::MAX,
        clusters_cut(src, clusters),
    ensures
        triangle_total(clusters.take(m as int)) == cut(src, m),
    decreases m,
{
    if m > 0 {
        let p = (m - 1) as nat;
        lemma_triangle_total(src, clusters, p);
        lemma_cut(src, p);
        assert(clusters.take(m as int).drop_last() =~= clusters.take(p as int));
        assert(clusters.take(m as int).last() == clusters[p as int]);
    }
}

/// The cut of a triangle list into clusters.
struct Chunks {
    ids: Vec<u32>,
    indices: Vec<u32>,
    clusters: Vec<Cluster>,
}

/// What stands of the cluster being filled, which starts with triangle `start`, once the
/// corners before `to` are in: its vertices from `at` on, where each is found, and its
/// indices.
spec fn filling(
    src: Seq<u32>,
    start: int,
    to: int,
    at: int,
    ids: Seq<u32>,
    indices: Seq<u32>,
    local: Map<u32, u32>,
) -> bool {
    let own = seen(src, 3 * start, to);
    &&& 0 <= at
    &&& ids.len() == at + own.len()
    &&& indices.len() == to
    &&& forall|j: int| 0 <= j < own.len() ==> #[trigger] ids[at + j] == own[j]
    &&& forall|x: u32| #[trigger] local.contains_key(x) <==> own.contains(x)
    &&& forall|x: u32| #[trigger]
        local.contains_key(x) ==> local[x] < own.len() && own[local[x] as int] == x
    &&& forall|i: int|
        3 * start <= i < to ==> (#[trigger] indices[i]) < own.len() && own[indices[i] as int]
            == src[i]
}

/// Puts one corner into the cluster being filled.
fn add_corner(
    src: &Vec<u32>,
    c: usize,
    at: usize,
    ids: &mut Vec<u32>,
    indices: &mut Vec<u32>,
    local: &mut HashMap<u32, u32>,
    Ghost(start): Ghost<int>,
)
    requires
        c < src@.len() <= u32::MAX,
        0 <= 3 * start <= c,
        filling(src@, start, c as int, at as int, old(ids)@, old(indices)@, old(local)@),
    ensures
        filling(src@, start, c + 1, at as int, final(ids)@, final(indices)@, final(local)@),
        final(ids)@.len() >= old(ids)@.len(),
        final(ids)@.take(old(ids)@.len() as int) == old(ids)@,
        final(indices)@ == old(indices)@.push(final(indices)@.last()),
{
    let x: u32 = src[c];
    let ghost own = seen(src@, 3 * start, c as int);
    let ghost now = seen(src@, 3 * start, c + 1);
    proof {
        lemma_seen(src@, 3 * start, c as int);
        lemma_seen(src@, 3 * start, c + 1);
    }
    assert(ids@.take(ids@.len() as int) =~= ids@);
    if local.contains_key(&x) {
        assert(now == own);
        let idx: u32 = *local.get(&x).unwrap();
        indices.push(idx);
    } else {
        let next: u32 = (ids.len() - at) as u32;
        local.insert(x, next);
        ids.push(x);
        indices.push(next);
        proof {
            assert(now == own.push(x));
            assert(now[next as int] == x);
            assert forall|y: u32| #[trigger] local@.contains_key(y) <==> now.contains(y) by {
                if now.contains(y) && y != x {
                    let j = choose|j: int| 0 <= j < now.len() && now[j] == y;
                    assert(own[j] == y);
                }
                if own.contains(y) {
                    let j = choose|j: int| 0 <= j < own.len() && own[j] == y;
                    assert(now[j] == y);
                }
            }
            assert forall|j: int| 0 <= j < now.len() implies #[trigger] ids@[at + j] == now[j] by {
                if j < own.len() {
                    assert(old(ids)@[at + j] == own[j]);
                }
            }
            assert(ids@.take(old(ids)@.len() as int) =~= old(ids)@);
        }
    }
}

/// How many of the corners of triangle `t` the cluster being filled lacks.
fn missing(src: &Vec<u32>, t: usize, local: &HashMap<u32, u32>, Ghost(own): Ghost<Seq<u32>>) -> (r:
    usize)
    requires
        3 * t + 3 <= src@.len(),
        forall|x: u32| #[trigger] local@.contains_key(x) <==> own.contains(x),
    ensures
        r == lacking(own, src@[3 * t as int]) + lacking(own, src@[3 * t + 1]) + lacking(
            own,
            src@[3 * t + 2],
        ),
{
    assert(src.len() <= usize::MAX);
    let mut r: usize = 0;
    if !local.contains_key(&src[3 * t]) {
        r = r + 1;
    }
    if !local.contains_key(&src[3 * t + 1]) {
        r = r + 1;
    }
    if !local.contains_key(&src[3 * t + 2]) {
        r = r + 1;
    }
    r
}

/// What stands once the clusters before cluster `m` are done.
spec fn done(
    src: Seq<u32>,
    m: nat,
    ids: Seq<u32>,
    indices: Seq<u32>,
    clusters: Seq<Cluster>,
) -> bool {
    &&& clusters.len() == m
    &&& clusters_cut(src, clusters)
    &&& forall|k: int| 0 <= k < m ==> #[trigger] ids_placed(src, ids, k)
    &&& forall|k: int| 0 <= k < m ==> #[trigger] corners_placed(src, indices, k)
    &&& forall|k: nat| k < m ==> #[trigger] cut(src, k) < src.len() as int / 3
}

/// More vertices and indices behind those of the clusters that are done change nothing.
proof fn lemma_done_grows(
    src: Seq<u32>,
    m: nat,
    ids: Seq<u32>,
    indices: Seq<u32>,
    clusters: Seq<Cluster>,
    ids2: Seq<u32>,
    indices2: Seq<u32>,
)
    requires
        done(src, m, ids, indices, clusters),
        indices.len() >= 3 * cut(src, m),
        ids2.len() >= ids.len(),
        ids2.take(ids.len() as int) == ids,
        indices2.len() >= indices.len(),
        indices2.take(indices.len() as int) == indices,
    ensures
        done(src, m, ids2, indices2, clusters),
{
    assert forall|k: int| 0 <= k < m implies #[trigger] ids_placed(src, ids2, k) by {
        assert(ids_placed(src, ids, k));
        lemma_vertex_start(src, k as nat);
        let at = vertex_start(src, k as nat);
        assert forall|j: int| 0 <= j < cluster_ids(src, k).len() implies #[trigger] ids2[at + j]
            == cluster_ids(src, k)[j] by {
            assert(ids2.take(ids.len() as int)[at + j] == ids[at + j]);
        }
    }
    assert forall|k: int| 0 <= k < m implies #[trigger] corners_placed(src, indices2, k) by {
        assert(corners_placed(src, indices, k));
        lemma_cut_order(src, (k + 1) as nat, m);
        lemma_cut(src, k as nat);
        assert forall|i: int|
            3 * cut(src, k as nat) <= i < 3 * cut(src, (k + 1) as nat) implies (
        #[trigger] indices2[i]) < cluster_ids(src, k).len() && cluster_ids(
            src,
            k,
        )[indices2[i] as int] == src[i] by {
            assert(indices2.take(indices.len() as int)[i] == indices[i]);
        }
    }
}

proof fn lemma_cut_order(src: Seq<u32>, a: nat, b: nat)
    requires
        a <= b,
    ensures
        cut(src, a) <= cut(src, b),
    decreases b - a,
{
    if a < b {
        lemma_cut(src, a);
        lemma_cut_order(src, a + 1, b);
    }
}

/// Where every cluster's vertices stand in place, they are all the vertices.
proof fn lemma_ids(src: Seq<u32>, ids: Seq<u32>, k: nat)
    requires
        forall|j: int| 0 <= j < k ==> #[trigger] ids_placed(src, ids, j),
    ensures
        all_ids(src, k).len() == vertex_start(src, k),
        0 <= vertex_start(src, k),
        vertex_start(src, k) <= ids.len(),
        ids.take(vertex_start(src, k)) == all_ids(src, k),
    decreases k,
{
    if k > 0 {
        let p = (k - 1) as nat;
        lemma_ids(src, ids, p);
        assert(ids_placed(src, ids, p as int));
        let at = vertex_start(src, p);
        let own = cluster_ids(src, p as int);
        assert forall|i: int| 0 <= i < at + own.len() implies #[trigger] ids[i] == all_ids(src,
            k)[i] by {
            if i < at {
                assert(ids.take(at)[i] == all_ids(src, p)[i]);
            } else {
                assert(ids[at + (i - at)] == own[i - at]);
            }
        }
        assert(ids.take(vertex_start(src, k)) =~= all_ids(src, k));
    }
}

/// Cuts a triangle list greedily into clusters.
fn chunk_triangles(src: &Vec<u32>) -> (r: Chunks)
    requires
        src@.len() <= u32::MAX,
    ensures
        is_flat(src@, r.ids@, r.indices@, r.clusters@),
        r.ids@ == all_ids(src@, r.clusters@.len()),
        forall|k: int|
            0 <= k < r.clusters@.len() ==> (#[trigger] r.clusters@[k]).bounds_sphere == no_bounds(),
{
    let n: usize = src.len() / 3;
    let mut ids: Vec<u32> = Vec::new();
    let mut indices: Vec<u32> = Vec::new();
    let mut clusters: Vec<Cluster> = Vec::new();
    let mut tri: usize = 0;
    while tri < n
        invariant
            src@.len() <= u32::MAX,
            n == src@.len() as int / 3,
            tri <= n,
            tri == cut(src@, clusters@.len()),
            indices@.len() == 3 * tri,
            ids@.len() == vertex_start(src@, clusters@.len()),
            done(src@, clusters@.len(), ids@, indices@, clusters@),
            forall|k: int|
                0 <= k < clusters@.len() ==> (#[trigger] clusters@[k]).bounds_sphere == no_bounds(),
        decreases n - tri,
    {
        let ghost k = clusters@.len();
        let ghost start = tri as int;
        let ghost ids0 = ids@;
        let ghost indices0 = indices@;
        proof {
            lemma_cut(src@, k);
            lemma_vertex_start(src@, k);
        }
        let at: usize = ids.len();
        let index_offset: u32 = indices.len() as u32;
        let mut local: HashMap<u32, u32> = HashMap::new();
        let mut taken: usize = 0;
        assert(ids@.take(ids0.len() as int) =~= ids0);
        assert(indices@.take(indices0.len() as int) =~= indices0);
        assert(seen(src@, 3 * start, 3 * start).len() == 0);
        let mut open: bool = true;
        while open && tri < n && taken < MAX_CLUSTER_TRIANGLES
            invariant
                src@.len() <= u32::MAX,
                n == src@.len() as int / 3,
                0 <= start <= tri <= n,
                start < n,
                taken == tri - start,
                at == ids0.len(),
                indices0.len() == 3 * start,
                run_end(src@, start, start, n as int) == run_end(src@, start, tri as int, n as int),
                filling(src@, start, 3 * tri, at as int, ids@, indices@, local@),
                ids@.len() >= ids0.len(),
                ids@.take(ids0.len() as int) == ids0,
                indices@.len() >= indices0.len(),
                indices@.take(indices0.len() as int) == indices0,
                open || !takes(src@, start, tri as int),
                tri == start ==> open,
            decreases n - tri, (if open {
                1int
            } else {
                0int
            }),
        {
            let ghost own = seen(src@, 3 * start, 3 * tri);
            let new_verts: usize = missing(src, tri, &local, Ghost(own));
            proof {
                lemma_seen(src@, 3 * start, 3 * tri);
            }
            if ids.len() - at + new_verts > MAX_CLUSTER_VERTICES {
                open = false;
                proof {
                    if tri == start {
                        assert(own.len() == 0);
                    }
                }
            } else {
                let ghost ids1 = ids@;
                let ghost indices1 = indices@;
                add_corner(src, 3 * tri, at, &mut ids, &mut indices, &mut local, Ghost(start));
                add_corner(src, 3 * tri + 1, at, &mut ids, &mut indices, &mut local, Ghost(start));
                add_corner(src, 3 * tri + 2, at, &mut ids, &mut indices, &mut local, Ghost(start));
                proof {
                    assert(takes(src@, start, tri as int));
                    assert(ids@.take(ids0.len() as int) =~= ids0) by {
                        assert forall|i: int| 0 <= i < ids0.len() implies ids@[i] == ids0[i] by {
                            assert(ids1.take(ids0.len() as int)[i] == ids0[i]);
                        }
                    }
                    assert(indices@.take(indices0.len() as int) =~= indices0) by {
                        assert forall|i: int| 0 <= i < indices0.len() implies indices@[i]
                            == indices0[i] by {
                            assert(indices1.take(indices0.len() as int)[i] == indices0[i]);
                        }
                    }
                    assert(3 * (tri + 1) == 3 * tri + 3);
                }
                taken = taken + 1;
                tri = tri + 1;
            }
        }
        assert(cut(src@, k + 1) == tri) by {
            assert(!(tri < n && takes(src@, start, tri as int)));
        }
        let ghost own = cluster_ids(src@, k as int);
        assert(own == seen(src@, 3 * start, 3 * tri));
        proof {
            lemma_seen(src@, 3 * start, 3 * tri);
        }
        clusters.push(
            Cluster {
                vertex_offset: at as u32,
                vertex_count: (ids.len() - at) as u32,
                index_offset,
                triangle_count: taken as u32,
                bounds_sphere: Vec4 { x: 0, y: 0, z: 0, w: 0 },
                local_material_id: 0,
                lod_level: 0,
                _pad0: 0,
                _pad1: 0,
            },
        );
        proof {
            let before = clusters@.drop_last();
            assert(before =~= clusters@.take(k as int));
            lemma_done_grows(src@, k, ids0, indices0, before, ids@, indices@);
            assert(ids_placed(src@, ids@, k as int));
            assert(corners_placed(src@, indices@, k as int));
            assert forall|j: int| 0 <= j < k + 1 implies #[trigger] clusters@[j] == flat_cluster(
                src@,
                j,
                clusters@[j].bounds_sphere,
            ) by {
                if j < k {
                    assert(before[j] == clusters@[j]);
                }
            }
        }
    }
    proof {
        lemma_ids(src@, ids@, clusters@.len());
        assert(ids@.take(ids@.len() as int) =~= ids@);
    }
    Chunks { ids, indices, clusters }
}

/// The corner indices of a mesh, in either width.
#[derive(Debug)]
pub enum MeshIndices {
    U16(Vec<u16>),
    U32(Vec<u32>),
}

/// A triangle mesh by its attributes, each present or not. Normals are octahedral, packed as
/// 2x16 snorm.
#[derive(Debug)]
pub struct MeshSource {
    pub positions: Option<Vec<Vec3>>,
    /// The normals that the mesh carries, or those computed from its triangles where it carries
    /// none; `None` where computing them gave none either.
    pub normals: Option<Vec<u32>>,
    pub uvs: Option<Vec<Vec2>>,
    pub tangents: Option<Vec<Vec4>>,
    pub indices: Option<MeshIndices>,
}

impl MeshSource {
    /// The corner indices; a mesh without any has its vertices in order.
    pub open spec fn source_indices(self) -> Seq<u32> {
        match self.indices {
            Some(MeshIndices::U16(narrow)) => narrow@.map_values(|i: u16| i as u32),
            Some(MeshIndices::U32(wide)) => wide@,
            None => Seq::new(self.positions->0@.len(), |i: int| i as u32),
        }
    }

    /// The texture coordinates; a mesh without any has zeros.
    pub open spec fn source_uvs(self) -> Seq<Vec2> {
        match self.uvs {
            Some(uvs) => uvs@,
            None => Seq::new(self.positions->0@.len(), |i: int| Vec2 { x: 0, y: 0 }),
        }
    }

    /// The tangents; a mesh without any has `(1, 0, 0, 1)`.
    pub open spec fn source_tangents(self) -> Seq<Vec4> {
        match self.tangents {
            Some(tangents) => tangents@,
            None => Seq::new(
                self.positions->0@.len(),
                |i: int| Vec4 { x: ONE_BITS, y: 0, z: 0, w: ONE_BITS },
            ),
        }
    }

    /// Every corner of a whole triangle has all attributes, and the corners can be counted
    /// in 32 bits.
    pub open spec fn usable(self) -> bool {
        let src = self.source_indices();
        &&& src.len() <= u32::MAX
        &&& forall|i: int|
            0 <= i < 3 * (src.len() as int / 3) ==> {
                &&& (#[trigger] src[i]) < self.positions->0@.len()
                &&& src[i] < self.normals->0@.len()
                &&& src[i] < self.source_uvs().len()
                &&& src[i] < self.source_tangents().len()
            }
    }

    fn read_indices(&self) -> (r: Vec<u32>)
        requires
            self.positions is Some,
        ensures
            r@ == self.source_indices(),
    {
        let mut r: Vec<u32> = Vec::new();
        match &self.indices {
            Some(MeshIndices::U32(wide)) => {
                r.extend_from_slice(wide.as_slice());
                assert(r@ =~= wide@);
            },
            Some(MeshIndices::U16(narrow)) => {
                let mut i: usize = 0;
                while i < narrow.len()
                    invariant
                        i <= narrow@.len(),
                        r@ == narrow@.take(i as int).map_values(|i: u16| i as u32),
                    decreases narrow@.len() - i,
                {
                    r.push(narrow[i] as u32);
                    assert(r@ =~= narrow@.take(i + 1).map_values(|i: u16| i as u32));
                    i = i + 1;
                }
                assert(narrow@.take(i as int) =~= narrow@);
            },
            None => {
                let n: usize = self.positions.as_ref().unwrap().len();
                let mut i: usize = 0;
                while i < n
                    invariant
                        i <= n,
                        r@ == Seq::new(i as nat, |i: int| i as u32),
                    decreases n - i,
                {
                    r.push(i as u32);
                    assert(r@ =~= Seq::new((i + 1) as nat, |i: int| i as u32));
                    i = i + 1;
                }
            },
        }
        r
    }

    fn read_uvs(&self) -> (r: Vec<Vec2>)
        requires
            self.positions is Some,
        ensures
            r@ == self.source_uvs(),
    {
        match &self.uvs {
            Some(uvs) => {
                let mut r: Vec<Vec2> = Vec::new();
                r.extend_from_slice(uvs.as_slice());
                assert(r@ =~= uvs@);
                r
            },
            None => {
                let r = vec![Vec2 { x: 0, y: 0 }; self.positions.as_ref().unwrap().len()];
                assert(r@ =~= self.source_uvs());
                r
            },
        }
    }

    fn read_tangents(&self) -> (r: Vec<Vec4>)
        requires
            self.positions is Some,
        ensures
            r@ == self.source_tangents(),
    {
        match &self.tangents {
            Some(tangents) => {
                let mut r: Vec<Vec4> = Vec::new();
                r.extend_from_slice(tangents.as_slice());
                assert(r@ =~= tangents@);
                r
            },
            None => {
                let one = Vec4 { x: ONE_BITS, y: 0, z: 0, w: ONE_BITS };
                let r = vec![one; self.positions.as_ref().unwrap().len()];
                assert(r@ =~= self.source_tangents());
                r
            },
        }
    }

    /// Whether every corner has all attributes, and the corners can be counted in 32 bits.
    pub fn is_usable(&self) -> (b: bool)
        requires
            self.positions is Some,
            self.normals is Some,
        ensures
            b == self.usable(),
    {
        let src: Vec<u32> = self.read_indices();
        let positions: usize = self.positions.as_ref().unwrap().len();
        let normals: usize = self.normals.as_ref().unwrap().len();
        let uvs: usize = self.read_uvs().len();
        let tangents: usize = self.read_tangents().len();
        if src.len() as u64 > 0xFFFF_FFFF {
            return false;
        }
        let n: usize = 3 * (src.len() / 3);
        let mut i: usize = 0;
        while i < n
            invariant
                i <= n,
                n == 3 * (src@.len() as int / 3),
                src@ == self.source_indices(),
                positions == self.positions->0@.len(),
                normals == self.normals->0@.len(),
                uvs == self.source_uvs().len(),
                tangents == self.source_tangents().len(),
                forall|j: int|
                    0 <= j < i ==> {
                        &&& (#[trigger] src@[j]) < positions
                        &&& src@[j] < normals
                        &&& src@[j] < uvs
                        &&& src@[j] < tangents
                    },
            decreases n - i,
        {
            let c: u64 = src[i] as u64;
            if c >= positions as u64 || c >= normals as u64 || c >= uvs as u64 || c
                >= tangents as u64 {
                return false;
            }
            i = i + 1;
        }
        true
    }
}

/// The items of `stream` that `ids` names.
pub open spec fn picked<T>(stream: Seq<T>, ids: Seq<u32>) -> Seq<T> {
    Seq::new(ids.len(), |i: int| stream[ids[i] as int])
}

fn pick<T: Copy>(stream: &Vec<T>, ids: &Vec<u32>) -> (r: Vec<T>)
    requires
        forall|i: int| 0 <= i < ids@.len() ==> (#[trigger] ids@[i]) < stream@.len(),
    ensures
        r@ == picked(stream@, ids@),
{
    let mut r: Vec<T> = Vec::new();
    let mut i: usize = 0;
    while i < ids.len()
        invariant
            i <= ids@.len(),
            forall|i: int| 0 <= i < ids@.len() ==> (#[trigger] ids@[i]) < stream@.len(),
            r@ == picked(stream@, ids@.take(i as int)),
        decreases ids@.len() - i,
    {
        assert(ids@[i as int] < stream@.len());
        r.push(stream[ids[i] as usize]);
        assert(r@ =~= picked(stream@, ids@.take(i + 1)));
        i = i + 1;
    }
    assert(ids@.take(i as int) =~= ids@);
    r
}

/// `v` is the single-level cluster set of `mesh`, whatever its bounds: the clusters are cut
/// greedily, every vertex carries the attributes of its source vertex, and one root group
/// holds all clusters.
pub open spec fn is_flat_mesh(mesh: MeshSource, v: ClusterMeshView) -> bool {
    let src = mesh.source_indices();
    let ids = all_ids(src, v.clusters.len());
    &&& is_flat(src, ids, v.indices, v.clusters)
    &&& v.vertex_positions == picked(mesh.positions->0@, ids)
    &&& v.vertex_normals == picked(mesh.normals->0@, ids)
    &&& v.vertex_tangents == picked(mesh.source_tangents(), ids)
    &&& v.vertex_uvs == picked(mesh.source_uvs(), ids)
    &&& v.groups == seq![flat_group(v.clusters.len(), v.groups[0].traversal_sphere)]
    &&& v.nodes.len() == 0
    &&& v.child_table.len() == 0
    &&& v.cluster_to_group == Seq::new(v.clusters.len(), |k: int| 0u32)
    &&& v.mesh_max_error == 0
    &&& v.root_group_id == 0
    &&& v.root_node_id == u32::MAX
    &&& v.lod_levels == 1
    &&& v.omm_array_data.len() == 0
    &&& v.omm_descs.len() == 0
    &&& v.omm_index.len() == 0
    &&& v.omm_usage.len() == 0
    &&& v.omm_index_usage.len() == 0
    &&& v.vertex_joint_indices.len() == 0
    &&& v.vertex_joint_weights.len() == 0
    &&& v.cluster_bloat_aabbs.len() == 0
    &&& v.inverse_bind_count == 0
}

/// The root group of `m` clusters, with these bounds.
pub open spec fn flat_group(m: nat, traversal_sphere: Vec4) -> ClusterLodGroup {
    ClusterLodGroup {
        cluster_start: 0,
        cluster_count: m as u32,
        children_offset: 0,
        children_count: 0,
        traversal_sphere,
        max_quadric_error: 0,
        parent_group: u32::MAX,
        lod_level: 0,
        _pad: 0,
    }
}

/// Nobody has computed the bounds of `v` yet.
pub open spec fn is_unbounded(v: ClusterMeshView) -> bool {
    &&& forall|k: int|
        0 <= k < v.clusters.len() ==> (#[trigger] v.clusters[k]).bounds_sphere == no_bounds()
    &&& v.groups[0].traversal_sphere == no_bounds()
    &&& v.aabb == ClusterMeshAabb { center: no_bounds(), half_extent: no_bounds() }
}

proof fn lemma_ids_usable(src: Seq<u32>, k: nat, bound: int)
    requires
        forall|i: int| 0 <= i < 3 * (src.len() as int / 3) ==> (#[trigger] src[i]) < bound,
    ensures
        forall|i: int| 0 <= i < all_ids(src, k).len() ==> (#[trigger] all_ids(src, k)[i]) < bound,
    decreases k,
{
    if k > 0 {
        let p = (k - 1) as nat;
        lemma_ids_usable(src, p, bound);
        lemma_cut(src, p);
        let own = cluster_ids(src, p as int);
        lemma_seen(src, 3 * cut(src, p), 3 * cut(src, k));
        assert forall|i: int| 0 <= i < all_ids(src, k).len() implies (#[trigger] all_ids(
            src,
            k,
        )[i]) < bound by {
            let front = all_ids(src, p).len() as int;
            if i >= front {
                assert(all_ids(src, k)[i] == own[i - front]);
                let c = choose|c: int|
                    3 * cut(src, p) <= c < 3 * cut(src, k) && src[c] == own[i - front];
                assert(src[c] < bound);
            }
        }
    }
}

impl ClusterMeshData {
    /// Chunks a triangle mesh into a single-level cluster set (at most 128 triangles and 256
    /// vertices per cluster, one root group, no hierarchy nodes). The normals are those that the
    /// mesh carries or that were computed for it; a mesh for which there are none is refused.
    /// Bounds are left empty for [`ClusterMeshData::set_bounds`].
    pub fn from_mesh_flat(mesh: &MeshSource) -> (r: Result<Self, ClusterMeshError>)
        requires
            mesh.positions is Some && mesh.normals is Some ==> mesh.usable(),
        ensures
            match r {
                Ok(data) => {
                    &&& mesh.positions is Some
                    &&& mesh.normals is Some
                    &&& is_flat_mesh(*mesh, data@)
                    &&& is_unbounded(data@)
                },
                Err(e) => if mesh.positions is None {
                    e == ClusterMeshError::MissingAttribute(Attribute::Position)
                } else {
                    mesh.normals is None && e == ClusterMeshError::MissingAttribute(
                        Attribute::Normal,
                    )
                },
            },
    {
        let positions: &Vec<Vec3> = match &mesh.positions {
            Some(positions) => positions,
            None => return Err(ClusterMeshError::MissingAttribute(Attribute::Position)),
        };
        let normals: &Vec<u32> = match &mesh.normals {
            Some(normals) => normals,
            None => return Err(ClusterMeshError::MissingAttribute(Attribute::Normal)),
        };
        let uvs: Vec<Vec2> = mesh.read_uvs();
        let tangents: Vec<Vec4> = mesh.read_tangents();
        let src: Vec<u32> = mesh.read_indices();
        let chunks: Chunks = chunk_triangles(&src);
        let ghost m = chunks.clusters@.len();
        proof {
            lemma_ids_usable(src@, m, positions@.len() as int);
            lemma_ids_usable(src@, m, normals@.len() as int);
            lemma_ids_usable(src@, m, uvs@.len() as int);
            lemma_ids_usable(src@, m, tangents@.len() as int);
        }
        let vertex_positions: Vec<Vec3> = pick(positions, &chunks.ids);
        let vertex_normals: Vec<u32> = pick(normals, &chunks.ids);
        let vertex_tangents: Vec<Vec4> = pick(&tangents, &chunks.ids);
        let vertex_uvs: Vec<Vec2> = pick(&uvs, &chunks.ids);
        let none = Vec4 { x: 0, y: 0, z: 0, w: 0 };
        let count: usize = chunks.clusters.len();
        let group = ClusterLodGroup {
            cluster_start: 0,
            cluster_count: count as u32,
            children_offset: 0,
            children_count: 0,
            traversal_sphere: none,
            max_quadric_error: 0,
            parent_group: u32::MAX,
            lod_level: 0,
            _pad: 0,
        };
        let groups: Vec<ClusterLodGroup> = vec![group];
        let cluster_to_group: Vec<u32> = vec![0u32; count];
        let data = ClusterMeshData {
            vertex_positions,
            vertex_normals,
            vertex_tangents,
            vertex_uvs,
            indices: chunks.indices,
            clusters: chunks.clusters,
            groups,
            nodes: Vec::new(),
            child_table: Vec::new(),
            cluster_to_group,
            aabb: ClusterMeshAabb { center: none, half_extent: none },
            mesh_max_error: 0,
            root_group_id: 0,
            root_node_id: u32::MAX,
            lod_levels: 1,
            omm_array_data: Vec::new(),
            omm_descs: Vec::new(),
            omm_index: Vec::new(),
            omm_usage: Vec::new(),
            omm_index_usage: Vec::new(),
            vertex_joint_indices: Vec::new(),
            vertex_joint_weights: Vec::new(),
            cluster_bloat_aabbs: Vec::new(),
            inverse_bind_count: 0,
        };
        proof {
            assert(data@.groups =~= seq![flat_group(m, data@.groups[0].traversal_sphere)]);
            assert(data@.cluster_to_group =~= Seq::new(m, |k: int| 0u32));
        }
        Ok(data)
    }

    /// Fills in the bounds: a sphere for each cluster, and the box around the whole mesh with
    /// the radius of the sphere around it.
    pub fn set_bounds(&mut self, spheres: &Vec<Vec4>, center: Vec3, half: Vec3, radius: u32)
        requires
            spheres@.len() == old(self)@.clusters.len(),
            old(self)@.groups.len() == 1,
        ensures
            final(self)@ == (ClusterMeshView {
                clusters: Seq::new(
                    spheres@.len(),
                    |k: int| Cluster { bounds_sphere: spheres@[k], ..old(self)@.clusters[k] },
                ),
                groups: seq![
                    ClusterLodGroup {
                        traversal_sphere: Vec4 { x: center.x, y: center.y, z: center.z, w: radius },
                        ..old(self)@.groups[0]
                    },
                ],
                aabb: ClusterMeshAabb {
                    center: Vec4 { x: center.x, y: center.y, z: center.z, w: 0 },
                    half_extent: Vec4 { x: half.x, y: half.y, z: half.z, w: 0 },
                },
                ..old(self)@
            }),
    {
        let ghost before = self@;
        let mut clusters: Vec<Cluster> = Vec::new();
        let mut k: usize = 0;
        while k < spheres.len()
            invariant
                k <= spheres@.len(),
                spheres@.len() == self@.clusters.len(),
                self@ == before,
                clusters@ == Seq::new(
                    k as nat,
                    |k: int| Cluster { bounds_sphere: spheres@[k], ..before.clusters[k] },
                ),
            decreases spheres@.len() - k,
        {
            let mut c: Cluster = self.clusters[k];
            c.bounds_sphere = spheres[k];
            clusters.push(c);
            assert(clusters@ =~= Seq::new(
                (k + 1) as nat,
                |k: int| Cluster { bounds_sphere: spheres@[k], ..before.clusters[k] },
            ));
            k = k + 1;
        }
        let mut group: ClusterLodGroup = self.groups[0];
        group.traversal_sphere = Vec4 { x: center.x, y: center.y, z: center.z, w: radius };
        self.clusters = clusters;
        self.groups = vec![group];
        self.aabb = ClusterMeshAabb {
            center: Vec4 { x: center.x, y: center.y, z: center.z, w: 0 },
            half_extent: Vec4 { x: half.x, y: half.y, z: half.z, w: 0 },
        };
        assert(self@.groups =~= seq![group]);
    }
}

proof fn lemma_all_finest(clusters: Seq<Cluster>)
    requires
        forall|k: int| 0 <= k < clusters.len() ==> (#[trigger] clusters[k]).lod_level == 0,
    ensures
        clusters.filter(|c: Cluster| c.lod_level == 0) == clusters,
    decreases clusters.len(),
{
    reveal(Seq::filter);
    if clusters.len() > 0 {
        lemma_all_finest(clusters.drop_last());
        assert(clusters.last() == clusters[clusters.len() - 1]);
        assert(clusters.drop_last().push(clusters.last()) =~= clusters);
    } else {
        assert(clusters.filter(|c: Cluster| c.lod_level == 0) =~= clusters);
    }
}

/// The first `k` clusters have the first vertices, and leave every stream as it is.
proof fn lemma_gathered_flat<T>(
    src: Seq<u32>,
    clusters: Seq<Cluster>,
    stream: Seq<T>,
    k: nat,
)
    requires
        src.len() <= u32::MAX,
        k <= clusters.len(),
        clusters_cut(src, clusters),
        vertex_start(src, clusters.len()) <= stream.len(),
    ensures
        vertex_total(clusters.take(k as int)) == vertex_start(src, k),
        vertex_start(src, k) <= stream.len(),
        gathered(clusters.take(k as int), stream) == stream.take(vertex_start(src, k)),
    decreases k,
{
    lemma_vertex_order(src, k, clusters.len());
    if k > 0 {
        let p = (k - 1) as nat;
        lemma_gathered_flat(src, clusters, stream, p);
        lemma_vertex_start(src, p);
        lemma_cut(src, p);
        lemma_seen(src, 3 * cut(src, p), 3 * cut(src, k));
        let c = clusters[p as int];
        assert(c == flat_cluster(src, p as int, c.bounds_sphere));
        assert(clusters.take(k as int).drop_last() =~= clusters.take(p as int));
        assert(clusters.take(k as int).last() == c);
        assert(c.vertex_offset == vertex_start(src, p));
        assert(c.vertex_offset + c.vertex_count == vertex_start(src, k));
        assert(stream.take(vertex_start(src, p)) + stream.subrange(
            vertex_start(src, p),
            vertex_start(src, k),
        ) =~= stream.take(vertex_start(src, k)));
    } else {
        assert(gathered(clusters.take(0), stream) =~= stream.take(0));
    }
}

proof fn lemma_vertex_order(src: Seq<u32>, a: nat, b: nat)
    requires
        a <= b,
    ensures
        0 <= vertex_start(src, a) <= vertex_start(src, b),
    decreases b - a,
{
    lemma_vertex_start(src, a);
    if a < b {
        lemma_vertex_order(src, a + 1, b);
    }
}

/// Each index of the first `k` clusters, moved up, names a vertex whose source vertex is the
/// corner that `src` names.
proof fn lemma_corners(
    src: Seq<u32>,
    ids: Seq<u32>,
    indices: Seq<u32>,
    clusters: Seq<Cluster>,
    k: nat,
)
    requires
        src.len() <= u32::MAX,
        k <= clusters.len(),
        is_flat(src, ids, indices, clusters),
    ensures
        ({
            let g = gathered_indices(clusters.take(k as int), indices);
            &&& g.len() == 3 * cut(src, k)
            &&& forall|i: int|
                0 <= i < g.len() ==> (#[trigger] g[i]) < vertex_start(src, k) && ids[g[i] as int]
                    == src[i]
        }),
    decreases k,
{
    if k > 0 {
        let p = (k - 1) as nat;
        lemma_corners(src, ids, indices, clusters, p);
        lemma_gathered_flat(src, clusters, ids, p);
        lemma_vertex_order(src, p, k);
        lemma_vertex_order(src, k, clusters.len());
        lemma_vertex_start(src, clusters.len());
        lemma_cut(src, p);
        lemma_cut_order(src, k, clusters.len());
        lemma_seen(src, 3 * cut(src, p), 3 * cut(src, k));
        let c = clusters[p as int];
        assert(c == flat_cluster(src, p as int, c.bounds_sphere));
        let before = gathered_indices(clusters.take(p as int), indices);
        let g = gathered_indices(clusters.take(k as int), indices);
        assert(clusters.take(k as int).drop_last() =~= clusters.take(p as int));
        assert(clusters.take(k as int).last() == c);
        assert(c.index_offset == 3 * cut(src, p));
        assert(c.index_offset + 3 * c.triangle_count == 3 * cut(src, k));
        let base = vertex_start(src, p);
        assert(ids_placed(src, ids, p as int));
        assert(corners_placed(src, indices, p as int));
        assert forall|i: int| 0 <= i < g.len() implies (#[trigger] g[i]) < vertex_start(src, k)
            && ids[g[i] as int] == src[i] by {
            if i < 3 * cut(src, p) {
                assert(g[i] == before[i]);
            } else {
                let own = cluster_ids(src, p as int);
                let j = indices[i] as int;
                assert(indices[i] < own.len() && own[j] == src[i]);
                assert(indices.subrange(3 * cut(src, p), 3 * cut(src, k))[i - 3 * cut(src, p)]
                    == indices[i]);
                assert(g[i] == (base + j) as u32);
                assert(base + j <= u32::MAX);
                assert(ids[base + j] == own[j]);
            }
        }
    }
}

/// A mesh that was cut into clusters can be rebuilt, and every rebuilt triangle has, corner
/// by corner, the attributes of the source triangle.
pub proof fn lemma_flat_rebuilds(mesh: MeshSource, v: ClusterMeshView)
    requires
        mesh.positions is Some,
        mesh.normals is Some,
        mesh.usable(),
        is_flat_mesh(mesh, v),
    ensures
        rebuildable(v),
        ({
            let src = mesh.source_indices();
            let f = finest(v.clusters);
            let g = gathered_indices(f, v.indices);
            &&& g.len() == 3 * (src.len() as int / 3)
            &&& forall|i: int|
                0 <= i < g.len() ==> {
                    &&& (#[trigger] g[i]) < gathered(f, v.vertex_positions).len()
                    &&& gathered(f, v.vertex_positions)[g[i] as int]
                        == mesh.positions->0@[src[i] as int]
                    &&& gathered(f, v.vertex_normals)[g[i] as int]
                        == mesh.normals->0@[src[i] as int]
                    &&& gathered(f, v.vertex_uvs)[g[i] as int] == mesh.source_uvs()[src[i] as int]
                    &&& gathered(f, v.vertex_tangents)[g[i] as int]
                        == mesh.source_tangents()[src[i] as int]
                }
        }),
{
    let src = mesh.source_indices();
    let m = v.clusters.len();
    let ids = all_ids(src, m);
    let g = gathered_indices(v.clusters, v.indices);
    assert forall|k: int| 0 <= k < m implies (#[trigger] v.clusters[k]).lod_level == 0 by {
        assert(v.clusters[k] == flat_cluster(src, k, v.clusters[k].bounds_sphere));
    }
    lemma_all_finest(v.clusters);
    assert(finest(v.clusters) =~= v.clusters);
    assert(v.clusters.take(m as int) =~= v.clusters);
    lemma_corners(src, ids, v.indices, v.clusters, m);
    lemma_gathered_flat(src, v.clusters, v.vertex_positions, m);
    lemma_gathered_flat(src, v.clusters, v.vertex_normals, m);
    lemma_gathered_flat(src, v.clusters, v.vertex_uvs, m);
    lemma_gathered_flat(src, v.clusters, v.vertex_tangents, m);
    assert(v.vertex_positions.take(ids.len() as int) =~= v.vertex_positions);
    assert(v.vertex_normals.take(ids.len() as int) =~= v.vertex_normals);
    assert(v.vertex_uvs.take(ids.len() as int) =~= v.vertex_uvs);
    assert(v.vertex_tangents.take(ids.len() as int) =~= v.vertex_tangents);
    assert forall|k: int| 0 <= k < m implies #[trigger] fits_at(v, k) by {
        let c = v.clusters[k];
        assert(c == flat_cluster(src, k, c.bounds_sphere));
        lemma_gathered_flat(src, v.clusters, ids, k as nat);
        lemma_cut(src, k as nat);
        lemma_cut_order(src, (k + 1) as nat, m);
        lemma_vertex_order(src, k as nat, (k + 1) as nat);
        lemma_vertex_order(src, (k + 1) as nat, m);
        lemma_vertex_start(src, m);
        lemma_seen(src, 3 * cut(src, k as nat), 3 * cut(src, (k + 1) as nat));
        assert(corners_placed(src, v.indices, k));
    }
}

/// The vertex that corner `i` of a mesh names; without indices every vertex is a corner.
pub open spec fn named_by_corner(mesh: MeshSource, i: int) -> int {
    match mesh.indices {
        Some(MeshIndices::U16(narrow)) => narrow@[i] as int,
        Some(MeshIndices::U32(wide)) => wide@[i] as int,
        None => i,
    }
}

/// The corners of a mesh.
pub open spec fn corner_count(mesh: MeshSource) -> int {
    match mesh.indices {
        Some(MeshIndices::U16(narrow)) => narrow@.len() as int,
        Some(MeshIndices::U32(wide)) => wide@.len() as int,
        None => mesh.positions->0@.len() as int,
    }
}

/// Cut into clusters and rebuilt, a mesh is what it was: it has normals, texture coordinates and
/// tangents, one of each for each position, and corner `i` of its triangles has the attributes of
/// corner `i` of the source. Where the source has no texture coordinates they are zero, and where
/// it has no tangents they point along the first axis. A last triangle that is not whole is left
/// out.
pub proof fn lemma_flat_round_trip(mesh: MeshSource, data: ClusterMeshData, r: TriangleMesh)
    requires
        mesh.positions is Some,
        mesh.normals is Some,
        mesh.usable(),
        is_flat_mesh(mesh, data@),
        rebuilt(data@, r),
    ensures
        r.indices@.len() == corner_count(mesh) - corner_count(mesh) % 3,
        r.normals is Some,
        r.uvs is Some,
        r.tangents is Some,
        r.normals->0@.len() == r.positions@.len(),
        r.uvs->0@.len() == r.positions@.len(),
        r.tangents->0@.len() == r.positions@.len(),
        forall|i: int|
            0 <= i < r.indices@.len() ==> {
                let at = (#[trigger] r.indices@[i]) as int;
                let from = named_by_corner(mesh, i);
                &&& at < r.positions@.len()
                &&& r.positions@[at] == mesh.positions->0@[from]
                &&& r.normals->0@[at] == mesh.normals->0@[from]
                &&& match mesh.uvs {
                    Some(uvs) => r.uvs->0@[at] == uvs@[from],
                    None => r.uvs->0@[at] == (Vec2 { x: 0, y: 0 }),
                }
                &&& match mesh.tangents {
                    Some(tangents) => r.tangents->0@[at] == tangents@[from],
                    None => r.tangents->0@[at] == (Vec4 {
                        x: 0x3F80_0000,
                        y: 0,
                        z: 0,
                        w: 0x3F80_0000,
                    }),
                }
            },
{
    let v = data@;
    lemma_flat_rebuilds(mesh, v);
    let f = finest(v.clusters);
    assert forall|k: int| 0 <= k < f.len() implies (#[trigger] f[k]).vertex_offset
        + f[k].vertex_count <= v.vertex_positions.len() by {
        assert(fits_at(v, k));
    }
    lemma_gathered_len(f, v.vertex_positions);
    lemma_gathered_len(f, v.vertex_normals);
    lemma_gathered_len(f, v.vertex_uvs);
    lemma_gathered_len(f, v.vertex_tangents);
    let src = mesh.source_indices();
    assert(src.len() == corner_count(mesh));
    assert forall|i: int| 0 <= i < src.len() implies (#[trigger] src[i]) == named_by_corner(
        mesh,
        i,
    ) by {}
}

} // verus!
