//! From clusters back to indexed triangles.

use crate::bits::{Vec2, Vec3, Vec4};
use crate::cluster_mesh::types::{Cluster, ClusterMeshData, ClusterMeshView};
use vstd::prelude::*;

verus! {

/// An indexed triangle list. An attribute that the clusters do not carry is `None`.
#[derive(Debug)]
pub struct TriangleMesh {
    pub positions: Vec<Vec3>,
    /// Octahedral normals packed as 2x16 snorm; where the clusters carry none, the mesh gets
    /// those that are computed from its triangles.
    pub normals: Option<Vec<u32>>,
    pub uvs: Option<Vec<Vec2>>,
    pub tangents: Option<Vec<Vec4>>,
    pub indices: Vec<u32>,
}

/// The clusters of the finest level: those with `lod_level == 0`, or all of them where no
/// cluster has that level.
pub open spec fn finest(clusters: Seq<Cluster>) -> Seq<Cluster> {
    let lod0 = clusters.filter(|c: Cluster| c.lod_level == 0);
    if lod0.len() == 0 {
        clusters
    } else {
        lod0
    }
}

/// The vertices of all clusters together.
pub open spec fn vertex_total(clusters: Seq<Cluster>) -> nat
    decreases clusters.len(),
{
    if clusters.len() == 0 {
        0
    } else {
        vertex_total(clusters.drop_last()) + clusters.last().vertex_count as nat
    }
}

/// The vertex range of every cluster out of `stream`, one after the other.
pub open spec fn gathered<T>(clusters: Seq<Cluster>, stream: Seq<T>) -> Seq<T>
    decreases clusters.len(),
{
    if clusters.len() == 0 {
        Seq::empty()
    } else {
        let c = clusters.last();
        gathered(clusters.drop_last(), stream) + stream.subrange(
            c.vertex_offset as int,
            c.vertex_offset + c.vertex_count,
        )
    }
}

/// The index range of every cluster, one after the other, each index moved up by the number
/// of vertices that the clusters before it have.
pub open spec fn gathered_indices(clusters: Seq<Cluster>, indices: Seq<u32>) -> Seq<u32>
    decreases clusters.len(),
{
    if clusters.len() == 0 {
        Seq::empty()
    } else {
        let c = clusters.last();
        let base = vertex_total(clusters.drop_last());
        gathered_indices(clusters.drop_last(), indices) + indices.subrange(
            c.index_offset as int,
            c.index_offset + 3 * c.triangle_count,
        ).map_values(|i: u32| (base + i) as u32)
    }
}

/// The ranges of `c` lie inside the streams, and none of its indices leaves 32 bits once
/// `base` vertices stand before it.
pub open spec fn cluster_fits(
    c: Cluster,
    base: nat,
    vertices: nat,
    indices: Seq<u32>,
) -> bool {
    &&& c.vertex_offset + c.vertex_count <= vertices
    &&& c.index_offset + 3 * c.triangle_count <= indices.len()
    &&& forall|i: int|
        c.index_offset <= i < c.index_offset + 3 * c.triangle_count ==> base + #[trigger] indices[i]
            <= u32::MAX
}

/// Cluster `k` of the finest level fits after those before it.
pub open spec fn fits_at(v: ClusterMeshView, k: int) -> bool {
    let f = finest(v.clusters);
    cluster_fits(f[k], vertex_total(f.take(k)), v.vertex_positions.len(), v.indices)
}

/// Every cluster of the finest level fits.
pub open spec fn rebuildable(v: ClusterMeshView) -> bool {
    forall|k: int| 0 <= k < finest(v.clusters).len() ==> #[trigger] fits_at(v, k)
}

/// A stream that goes along with the positions, or nothing where its length is another.
pub open spec fn attribute<T>(v: ClusterMeshView, stream: Seq<T>) -> Option<Seq<T>> {
    if stream.len() == v.vertex_positions.len() {
        Some(gathered(finest(v.clusters), stream))
    } else {
        None
    }
}

/// An optional vector by its contents.
pub open spec fn contents<T>(stream: Option<Vec<T>>) -> Option<Seq<T>> {
    match stream {
        Some(items) => Some(items@),
        None => None,
    }
}

/// What the streams of a mesh hold: the attributes of the finest level and its indices.
pub open spec fn rebuilt(v: ClusterMeshView, r: TriangleMesh) -> bool {
    &&& r.positions@ == gathered(finest(v.clusters), v.vertex_positions)
    &&& contents(r.normals) == attribute(v, v.vertex_normals)
    &&& contents(r.uvs) == attribute(v, v.vertex_uvs)
    &&& contents(r.tangents) == attribute(v, v.vertex_tangents)
    &&& r.indices@ == gathered_indices(finest(v.clusters), v.indices)
}

/// The clusters of the finest level.
fn finest_clusters(clusters: &Vec<Cluster>) -> (r: Vec<Cluster>)
    ensures
        r@ == finest(clusters@),
{
    let ghost level0 = |c: Cluster| c.lod_level == 0;
    let mut lod0: Vec<Cluster> = Vec::new();
    let mut all: Vec<Cluster> = Vec::new();
    let mut i: usize = 0;
    proof {
        reveal(Seq::filter);
    }
    assert(clusters@.take(0).filter(level0) =~= Seq::empty());
    while i < clusters.len()
        invariant
            i <= clusters@.len(),
            all@ == clusters@.take(i as int),
            lod0@ == clusters@.take(i as int).filter(level0),
            level0 == (|c: Cluster| c.lod_level == 0),
        decreases clusters@.len() - i,
    {
        let c: Cluster = clusters[i];
        proof {
            let next = clusters@.take(i as int + 1);
            assert(next.drop_last() =~= clusters@.take(i as int));
            assert(next.last() == c);
            reveal(Seq::filter);
        }
        if c.lod_level == 0 {
            lod0.push(c);
        }
        all.push(c);
        assert(all@ =~= clusters@.take(i as int + 1));
        i = i + 1;
    }
    assert(clusters@.take(i as int) =~= clusters@);
    if lod0.len() == 0 {
        all
    } else {
        lod0
    }
}

/// Appends `stream[start..end]`.
fn extend_range<T: Copy>(out: &mut Vec<T>, stream: &Vec<T>, start: usize, end: usize)
    requires
        start <= end <= stream@.len(),
    ensures
        final(out)@ == old(out)@ + stream@.subrange(start as int, end as int),
{
    let mut i: usize = start;
    assert(out@ =~= old(out)@ + stream@.subrange(start as int, i as int));
    while i < end
        invariant
            start <= i <= end <= stream@.len(),
            out@ == old(out)@ + stream@.subrange(start as int, i as int),
        decreases end - i,
    {
        out.push(stream[i]);
        assert(out@ =~= old(out)@ + stream@.subrange(start as int, i + 1));
        i = i + 1;
    }
}

/// The vertex ranges of the clusters out of one stream.
fn gather<T: Copy>(clusters: &Vec<Cluster>, stream: &Vec<T>) -> (r: Vec<T>)
    requires
        forall|k: int|
            0 <= k < clusters@.len() ==> (#[trigger] clusters@[k]).vertex_offset
                + clusters@[k].vertex_count <= stream@.len(),
    ensures
        r@ == gathered(clusters@, stream@),
{
    let mut r: Vec<T> = Vec::new();
    let mut i: usize = 0;
    while i < clusters.len()
        invariant
            i <= clusters@.len(),
            forall|k: int|
                0 <= k < clusters@.len() ==> (#[trigger] clusters@[k]).vertex_offset
                    + clusters@[k].vertex_count <= stream@.len(),
            r@ == gathered(clusters@.take(i as int), stream@),
        decreases clusters@.len() - i,
    {
        let c: Cluster = clusters[i];
        assert(stream.len() <= usize::MAX);
        let start: usize = c.vertex_offset as usize;
        extend_range(&mut r, stream, start, start + c.vertex_count as usize);
        proof {
            let next = clusters@.take(i as int + 1);
            assert(next.drop_last() =~= clusters@.take(i as int));
            assert(next.last() == c);
        }
        i = i + 1;
    }
    assert(clusters@.take(i as int) =~= clusters@);
    r
}

/// The vertices gathered of a stream are as many as the clusters have.
pub proof fn lemma_gathered_len<T>(clusters: Seq<Cluster>, stream: Seq<T>)
    requires
        forall|k: int|
            0 <= k < clusters.len() ==> (#[trigger] clusters[k]).vertex_offset
                + clusters[k].vertex_count <= stream.len(),
    ensures
        gathered(clusters, stream).len() == vertex_total(clusters),
    decreases clusters.len(),
{
    if clusters.len() > 0 {
        let front = clusters.drop_last();
        assert forall|k: int| 0 <= k < front.len() implies (#[trigger] front[k]).vertex_offset
            + front[k].vertex_count <= stream.len() by {
            assert(front[k] == clusters[k]);
        }
        assert(clusters[clusters.len() - 1] == clusters.last());
        lemma_gathered_len(front, stream);
    }
}

/// Whether a cluster fits after `base` vertices; beyond 32 bits every `base` is alike.
fn fits_after(c: Cluster, base: u64, vertices: usize, indices: &Vec<u32>) -> (b: bool)
    requires
        base <= 0x1_0000_0000,
    ensures
        b == cluster_fits(c, base as nat, vertices as nat, indices@),
        base == 0x1_0000_0000 ==> forall|more: nat|
            more >= base ==> b == cluster_fits(c, more, vertices as nat, indices@),
{
    if c.vertex_offset as u64 + c.vertex_count as u64 > vertices as u64 {
        return false;
    }
    let end: u64 = c.index_offset as u64 + 3 * c.triangle_count as u64;
    if end > indices.len() as u64 {
        return false;
    }
    let mut j: usize = c.index_offset as usize;
    while j < end as usize
        invariant
            end == c.index_offset + 3 * c.triangle_count,
            end <= indices@.len(),
            c.index_offset <= j <= end,
            base <= 0x1_0000_0000,
            forall|k: int| c.index_offset <= k < j ==> base + #[trigger] indices@[k] <= u32::MAX,
        decreases end - j,
    {
        if base + indices[j] as u64 > 0xFFFF_FFFF {
            return false;
        }
        j = j + 1;
    }
    true
}

impl ClusterMeshData {
    /// Whether every range of the finest level lies inside the streams and every rebuilt
    /// index fits in 32 bits.
    pub fn is_rebuildable(&self) -> (b: bool)
        ensures
            b == rebuildable(self@),
    {
        let f: Vec<Cluster> = finest_clusters(&self.clusters);
        let cap: u64 = 0x1_0000_0000;
        let mut base: u64 = 0;
        let mut i: usize = 0;
        while i < f.len()
            invariant
                i <= f@.len(),
                f@ == finest(self@.clusters),
                cap == 0x1_0000_0000,
                base == (if vertex_total(f@.take(i as int)) < cap {
                    vertex_total(f@.take(i as int)) as int
                } else {
                    cap as int
                }),
                forall|k: int| 0 <= k < i ==> #[trigger] fits_at(self@, k),
            decreases f@.len() - i,
        {
            let c: Cluster = f[i];
            if !fits_after(c, base, self.vertex_positions.len(), &self.indices) {
                assert(!fits_at(self@, i as int));
                return false;
            }
            assert(fits_at(self@, i as int));
            base = base + c.vertex_count as u64;
            if base > cap {
                base = cap;
            }
            proof {
                let next = f@.take(i as int + 1);
                assert(next.drop_last() =~= f@.take(i as int));
                assert(next.last() == c);
            }
            i = i + 1;
        }
        true
    }

    /// Rebuilds an indexed triangle mesh from the finest level.
    pub fn to_mesh(&self) -> (r: TriangleMesh)
        requires
            rebuildable(self@),
        ensures
            r.positions@ == gathered(finest(self@.clusters), self@.vertex_positions),
            contents(r.normals) == attribute(self@, self@.vertex_normals),
            contents(r.uvs) == attribute(self@, self@.vertex_uvs),
            contents(r.tangents) == attribute(self@, self@.vertex_tangents),
            r.indices@ == gathered_indices(finest(self@.clusters), self@.indices),
            r.normals is Some <==> self@.vertex_normals.len() == self@.vertex_positions.len(),
            r.uvs is Some <==> self@.vertex_uvs.len() == self@.vertex_positions.len(),
            r.tangents is Some <==> self@.vertex_tangents.len() == self@.vertex_positions.len(),
            rebuilt(self@, r),
    {
        let f: Vec<Cluster> = finest_clusters(&self.clusters);
        assert forall|k: int| 0 <= k < f@.len() implies (#[trigger] f@[k]).vertex_offset
            + f@[k].vertex_count <= self@.vertex_positions.len() by {
            assert(fits_at(self@, k));
        }
        let count: usize = self.vertex_positions.len();
        let positions: Vec<Vec3> = gather(&f, &self.vertex_positions);
        let normals: Option<Vec<u32>> = if self.vertex_normals.len() == count {
            Some(gather(&f, &self.vertex_normals))
        } else {
            None
        };
        let uvs: Option<Vec<Vec2>> = if self.vertex_uvs.len() == count {
            Some(gather(&f, &self.vertex_uvs))
        } else {
            None
        };
        let tangents: Option<Vec<Vec4>> = if self.vertex_tangents.len() == count {
            Some(gather(&f, &self.vertex_tangents))
        } else {
            None
        };
        let mut indices: Vec<u32> = Vec::new();
        // Only kept exact while an index can still be added to it.
        let mut base: u64 = 0;
        let mut i: usize = 0;
        while i < f.len()
            invariant
                i <= f@.len(),
                f@ == finest(self@.clusters),
                rebuildable(self@),
                base == (if vertex_total(f@.take(i as int)) < 0x1_0000_0000 {
                    vertex_total(f@.take(i as int)) as int
                } else {
                    0x1_0000_0000
                }),
                indices@ == gathered_indices(f@.take(i as int), self@.indices),
            decreases f@.len() - i,
        {
            let c: Cluster = f[i];
            let ghost total = vertex_total(f@.take(i as int));
            let ghost before = indices@;
            assert(fits_at(self@, i as int));
            assert(self.indices.len() <= usize::MAX);
            let start: usize = c.index_offset as usize;
            let end: usize = start + 3 * c.triangle_count as usize;
            let mut j: usize = start;
            let ghost moved = |k: u32| (total + k) as u32;
            assert(indices@ =~= before + self@.indices.subrange(start as int, j as int).map_values(
                moved,
            ));
            while j < end
                invariant
                    start <= j <= end <= self@.indices.len(),
                    moved == (|k: u32| (total + k) as u32),
                    base == (if total < 0x1_0000_0000 {
                        total as int
                    } else {
                        0x1_0000_0000
                    }),
                    forall|k: int|
                        start <= k < end ==> total + #[trigger] self@.indices[k] <= u32::MAX,
                    indices@ == before + self@.indices.subrange(start as int, j as int).map_values(
                        moved,
                    ),
                decreases end - j,
            {
                assert(total + self@.indices[j as int] <= u32::MAX);
                indices.push((base + self.indices[j] as u64) as u32);
                assert(indices@ =~= before + self@.indices.subrange(
                    start as int,
                    j + 1,
                ).map_values(moved));
                j = j + 1;
            }
            base = base + c.vertex_count as u64;
            if base > 0x1_0000_0000 {
                base = 0x1_0000_0000;
            }
            proof {
                let next = f@.take(i as int + 1);
                assert(next.drop_last() =~= f@.take(i as int));
                assert(next.last() == c);
            }
            i = i + 1;
        }
        assert(f@.take(i as int) =~= f@);
        TriangleMesh { positions, normals, uvs, tangents, indices }
    }
}

// ---- what a rebuilt mesh shows --------------------------------------------------------------

proof fn lemma_level0(clusters: Seq<Cluster>, c: Cluster)
    ensures
        clusters.filter(|x: Cluster| x.lod_level == 0).contains(c) <==> clusters.contains(c)
            && c.lod_level == 0,
    decreases clusters.len(),
{
    let level0 = |x: Cluster| x.lod_level == 0;
    reveal(Seq::filter);
    if clusters.len() > 0 {
        let front = clusters.drop_last();
        let before = front.filter(level0);
        lemma_level0(front, c);
        assert(clusters =~= front.push(clusters.last()));
        assert(clusters.contains(c) <==> front.contains(c) || clusters.last() == c) by {
            if front.contains(c) {
                let k = choose|k: int| 0 <= k < front.len() && front[k] == c;
                assert(clusters[k] == c);
            }
            assert(clusters[clusters.len() - 1] == clusters.last());
        }
        if level0(clusters.last()) {
            let now = before.push(clusters.last());
            assert(now.contains(c) <==> before.contains(c) || clusters.last() == c) by {
                if before.contains(c) {
                    let k = choose|k: int| 0 <= k < before.len() && before[k] == c;
                    assert(now[k] == c);
                }
                assert(now[before.len() as int] == clusters.last());
            }
        }
    }
}

/// The finest level is made of the clusters of level 0 and of no others, unless there are none
/// of level 0: then every cluster belongs to it.
pub proof fn lemma_finest(clusters: Seq<Cluster>, c: Cluster)
    ensures
        finest(clusters).contains(c) <==> clusters.contains(c) && (c.lod_level == 0
            || forall|k: int|
            0 <= k < clusters.len() ==> (#[trigger] clusters[k]).lod_level != 0),
{
    let lod0 = clusters.filter(|x: Cluster| x.lod_level == 0);
    lemma_level0(clusters, c);
    if lod0.len() == 0 {
        assert forall|k: int| 0 <= k < clusters.len() implies (
        #[trigger] clusters[k]).lod_level != 0 by {
            lemma_level0(clusters, clusters[k]);
        }
    } else {
        lemma_level0(clusters, lod0[0]);
        assert(lod0.contains(lod0[0]));
    }
}

/// The corners of the first `k` clusters.
pub open spec fn corners_before(clusters: Seq<Cluster>, k: int) -> int
    decreases k,
{
    if k <= 0 {
        0
    } else {
        corners_before(clusters, k - 1) + 3 * clusters[k - 1].triangle_count
    }
}

proof fn lemma_corners_before_front(clusters: Seq<Cluster>, k: int)
    requires
        0 <= k < clusters.len(),
    ensures
        corners_before(clusters.drop_last(), k) == corners_before(clusters, k),
        corners_before(clusters, k) >= 0,
    decreases k,
{
    if k > 0 {
        lemma_corners_before_front(clusters, k - 1);
        assert(clusters.drop_last()[k - 1] == clusters[k - 1]);
    }
}

proof fn lemma_gathered_indices_len(clusters: Seq<Cluster>, indices: Seq<u32>)
    requires
        forall|k: int|
            0 <= k < clusters.len() ==> (#[trigger] clusters[k]).index_offset + 3
                * clusters[k].triangle_count <= indices.len(),
    ensures
        gathered_indices(clusters, indices).len() == corners_before(
            clusters,
            clusters.len() as int,
        ),
    decreases clusters.len(),
{
    if clusters.len() > 0 {
        let front = clusters.drop_last();
        let last = clusters.len() - 1;
        assert forall|k: int| 0 <= k < front.len() implies (#[trigger] front[k]).index_offset + 3
            * front[k].triangle_count <= indices.len() by {
            assert(front[k] == clusters[k]);
        }
        lemma_gathered_indices_len(front, indices);
        lemma_corners_before_front(clusters, last);
        assert(clusters[last] == clusters.last());
    }
}

/// Corner `j` of cluster `k` stands behind the corners of the clusters before it, and names the
/// vertex that the cluster names, behind the vertices of the clusters before it.
proof fn lemma_corner_gathered(clusters: Seq<Cluster>, indices: Seq<u32>, k: int, j: int)
    requires
        0 <= k < clusters.len(),
        0 <= j < 3 * clusters[k].triangle_count,
        forall|m: int|
            0 <= m < clusters.len() ==> (#[trigger] clusters[m]).index_offset + 3
                * clusters[m].triangle_count <= indices.len(),
    ensures
        0 <= corners_before(clusters, k) + j < gathered_indices(clusters, indices).len(),
        gathered_indices(clusters, indices)[corners_before(clusters, k) + j] == (vertex_total(
            clusters.take(k),
        ) + indices[clusters[k].index_offset + j]) as u32,
    decreases clusters.len(),
{
    let front = clusters.drop_last();
    let last = clusters.len() - 1;
    assert forall|m: int| 0 <= m < front.len() implies (#[trigger] front[m]).index_offset + 3
        * front[m].triangle_count <= indices.len() by {
        assert(front[m] == clusters[m]);
    }
    lemma_gathered_indices_len(front, indices);
    lemma_corners_before_front(clusters, last);
    assert(clusters[last] == clusters.last());
    if k < last {
        lemma_corners_before_front(clusters, k);
        assert(front[k] == clusters[k]);
        lemma_corner_gathered(front, indices, k, j);
        assert(front.take(k) =~= clusters.take(k));
    } else {
        assert(clusters.take(k) =~= front);
        let base = vertex_total(front);
        let c = clusters.last();
        let own = indices.subrange(c.index_offset as int, c.index_offset + 3 * c.triangle_count);
        assert(own.map_values(|i: u32| (base + i) as u32)[j] == (base + own[j]) as u32);
    }
}

/// Vertex `i` of cluster `k` stands behind the vertices of the clusters before it.
proof fn lemma_vertex_gathered<T>(clusters: Seq<Cluster>, stream: Seq<T>, k: int, i: int)
    requires
        0 <= k < clusters.len(),
        0 <= i < clusters[k].vertex_count,
        forall|m: int|
            0 <= m < clusters.len() ==> (#[trigger] clusters[m]).vertex_offset
                + clusters[m].vertex_count <= stream.len(),
    ensures
        vertex_total(clusters.take(k)) + i < gathered(clusters, stream).len(),
        gathered(clusters, stream)[vertex_total(clusters.take(k)) + i]
            == stream[clusters[k].vertex_offset + i],
    decreases clusters.len(),
{
    let front = clusters.drop_last();
    let last = clusters.len() - 1;
    assert forall|m: int| 0 <= m < front.len() implies (#[trigger] front[m]).vertex_offset
        + front[m].vertex_count <= stream.len() by {
        assert(front[m] == clusters[m]);
    }
    lemma_gathered_len(front, stream);
    assert(clusters[last] == clusters.last());
    if k < last {
        assert(front[k] == clusters[k]);
        lemma_vertex_gathered(front, stream, k, i);
        assert(front.take(k) =~= clusters.take(k));
    } else {
        assert(clusters.take(k) =~= front);
    }
}

/// A rebuilt mesh has every triangle of the finest level, in order, and each of its corners has
/// the attributes of the vertex that the cluster's corner names: its position, and its normal,
/// texture coordinates and tangent where the clusters carry one for each position.
pub proof fn lemma_rebuilt_corner(v: ClusterMeshView, r: TriangleMesh, k: int, j: int)
    requires
        rebuildable(v),
        rebuilt(v, r),
        0 <= k < finest(v.clusters).len(),
        0 <= j < 3 * finest(v.clusters)[k].triangle_count,
        v.indices[finest(v.clusters)[k].index_offset + j] < finest(v.clusters)[k].vertex_count,
    ensures
        ({
            let f = finest(v.clusters);
            let at = corners_before(f, k) + j;
            let from = f[k].vertex_offset + v.indices[f[k].index_offset + j];
            &&& r.indices@.len() == corners_before(f, f.len() as int)
            &&& 0 <= at < r.indices@.len()
            &&& r.indices@[at] < r.positions@.len()
            &&& r.positions@[r.indices@[at] as int] == v.vertex_positions[from]
            &&& v.vertex_normals.len() == v.vertex_positions.len() ==> {
                &&& r.normals is Some
                &&& r.normals->0@.len() == r.positions@.len()
                &&& r.normals->0@[r.indices@[at] as int] == v.vertex_normals[from]
            }
            &&& v.vertex_uvs.len() == v.vertex_positions.len() ==> {
                &&& r.uvs is Some
                &&& r.uvs->0@.len() == r.positions@.len()
                &&& r.uvs->0@[r.indices@[at] as int] == v.vertex_uvs[from]
            }
            &&& v.vertex_tangents.len() == v.vertex_positions.len() ==> {
                &&& r.tangents is Some
                &&& r.tangents->0@.len() == r.positions@.len()
                &&& r.tangents->0@[r.indices@[at] as int] == v.vertex_tangents[from]
            }
            &&& v.vertex_normals.len() != v.vertex_positions.len() ==> r.normals is None
            &&& v.vertex_uvs.len() != v.vertex_positions.len() ==> r.uvs is None
            &&& v.vertex_tangents.len() != v.vertex_positions.len() ==> r.tangents is None
        }),
{
    let f = finest(v.clusters);
    let local = v.indices[f[k].index_offset + j] as int;
    assert forall|m: int| 0 <= m < f.len() implies (#[trigger] f[m]).vertex_offset
        + f[m].vertex_count <= v.vertex_positions.len() && f[m].index_offset + 3
        * f[m].triangle_count <= v.indices.len() by {
        assert(fits_at(v, m));
    }
    assert(fits_at(v, k));
    lemma_gathered_indices_len(f, v.indices);
    lemma_corner_gathered(f, v.indices, k, j);
    lemma_gathered_len(f, v.vertex_positions);
    lemma_vertex_gathered(f, v.vertex_positions, k, local);
    if v.vertex_normals.len() == v.vertex_positions.len() {
        lemma_gathered_len(f, v.vertex_normals);
        lemma_vertex_gathered(f, v.vertex_normals, k, local);
    }
    if v.vertex_uvs.len() == v.vertex_positions.len() {
        lemma_gathered_len(f, v.vertex_uvs);
        lemma_vertex_gathered(f, v.vertex_uvs, k, local);
    }
    if v.vertex_tangents.len() == v.vertex_positions.len() {
        lemma_gathered_len(f, v.vertex_tangents);
        lemma_vertex_gathered(f, v.vertex_tangents, k, local);
    }
}

} // verus!
