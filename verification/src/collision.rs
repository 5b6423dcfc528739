//! Baked collision geometry: the mesh, not the physics.
//!
//! A `.collider` file is `ACOL`, version, vertex count, triangle count (little-endian words),
//! then the positions (three numbers each) and the triangles (three indices each).

use crate::bits::Vec3;
use crate::blas::Corners;
use crate::record::{
    items_at, lemma_words_at, lemma_words_bytes_len, put_words, read_items, words_at, words_bytes,
    Record,
};
use crate::wire::{get_u32, le32, lemma_word32_of_le32, word32};
use vstd::prelude::*;

verus! {

/// `ACOL`, as the first word of the file reads.
pub const MAGIC: u32 = 0x4C4F_4341;

/// The version that is read.
pub const VERSION: u32 = 1;

/// Bytes before the positions.
pub const HEADER_BYTES: usize = 16;

impl Record for Corners {
    open spec fn count() -> nat {
        3
    }

    open spec fn words(self) -> Seq<u32> {
        seq![self.a, self.b, self.c]
    }

    open spec fn of_words(ws: Seq<u32>) -> Self {
        Corners { a: ws[0], b: ws[1], c: ws[2] }
    }

    proof fn lemma_words(self) {
    }

    fn word_count() -> (n: usize) {
        3
    }

    fn get(bytes: &[u8], at: usize) -> (r: Self) {
        assert(bytes.len() <= usize::MAX);
        Corners {
            a: get_u32(bytes, at),
            b: get_u32(bytes, at + 4),
            c: get_u32(bytes, at + 8),
        }
    }

    fn put(&self, out: &mut Vec<u8>) {
        let ws: [u32; 3] = [self.a, self.b, self.c];
        assert(ws@ =~= self.words());
        put_words(out, &ws);
    }
}

/// One baked collision mesh.
#[derive(Debug)]
pub struct CollisionShape {
    pub positions: Vec<Vec3>,
    pub triangles: Vec<Corners>,
}

/// Why a file is no collision mesh.
#[derive(Clone, Copy, Debug, PartialEq, Eq, Structural)]
pub enum ColliderError {
    TruncatedHeader,
    NotVersion1,
    TruncatedBody,
}

impl ColliderError {
    /// What is said of the error.
    pub open spec fn spec_message(self) -> Seq<char> {
        match self {
            ColliderError::TruncatedHeader => "truncated .collider header"@,
            ColliderError::NotVersion1 => "not a version 1 .collider"@,
            ColliderError::TruncatedBody => "truncated .collider body"@,
        }
    }

    /// What is said of the error.
    pub fn message(&self) -> (r: &'static str)
        ensures
            r@ == self.spec_message(),
    {
        match self {
            ColliderError::TruncatedHeader => "truncated .collider header",
            ColliderError::NotVersion1 => "not a version 1 .collider",
            ColliderError::TruncatedBody => "truncated .collider body",
        }
    }
}

impl CollisionShape {
    /// Triangles of the shape.
    pub fn len(&self) -> (r: usize)
        ensures
            r == self.triangles@.len(),
    {
        self.triangles.len()
    }

    pub fn is_empty(&self) -> (r: bool)
        ensures
            r == (self.triangles@.len() == 0),
    {
        self.triangles.len() == 0
    }
}

/// What is wrong with the bytes of a file, if anything: its body must be exactly as long as
/// its header says.
pub open spec fn collider_error(bytes: Seq<u8>) -> Option<ColliderError> {
    if bytes.len() < HEADER_BYTES {
        Some(ColliderError::TruncatedHeader)
    } else if word32(bytes, 0) != MAGIC || word32(bytes, 4) != VERSION {
        Some(ColliderError::NotVersion1)
    } else if bytes.len() - HEADER_BYTES != 12 * (word32(bytes, 8) + word32(bytes, 12)) {
        Some(ColliderError::TruncatedBody)
    } else {
        None
    }
}

/// Reads a `.collider` file.
pub fn parse_collider(bytes: &[u8]) -> (r: Result<CollisionShape, ColliderError>)
    ensures
        match r {
            Ok(shape) => {
                let v = word32(bytes@, 8) as nat;
                let t = word32(bytes@, 12) as nat;
                &&& collider_error(bytes@) is None
                &&& shape.positions@ == items_at::<Vec3>(bytes@, 16, v)
                &&& shape.triangles@ == items_at::<Corners>(bytes@, 16 + 12 * v as int, t)
            },
            Err(e) => collider_error(bytes@) == Some(e),
        },
{
    if bytes.len() < HEADER_BYTES {
        return Err(ColliderError::TruncatedHeader);
    }
    if get_u32(bytes, 0) != MAGIC || get_u32(bytes, 4) != VERSION {
        return Err(ColliderError::NotVersion1);
    }
    let vertices: u64 = get_u32(bytes, 8) as u64;
    let triangles: u64 = get_u32(bytes, 12) as u64;
    if (bytes.len() - HEADER_BYTES) as u64 != 12 * (vertices + triangles) {
        return Err(ColliderError::TruncatedBody);
    }
    let positions: Vec<Vec3> = read_items::<Vec3>(bytes, HEADER_BYTES, vertices as usize);
    let corners: Vec<Corners> = read_items::<Corners>(
        bytes,
        HEADER_BYTES + 12 * vertices as usize,
        triangles as usize,
    );
    Ok(CollisionShape { positions, triangles: corners })
}

/// The coordinates of positions, one after the other.
pub open spec fn coordinates(positions: Seq<Vec3>) -> Seq<u32> {
    Seq::new(
        3 * positions.len(),
        |i: int|
            if i % 3 == 0 {
                positions[i / 3].x
            } else if i % 3 == 1 {
                positions[i / 3].y
            } else {
                positions[i / 3].z
            },
    )
}

/// The corners of triangles, one after the other.
pub open spec fn corner_words(triangles: Seq<Corners>) -> Seq<u32> {
    Seq::new(
        3 * triangles.len(),
        |i: int|
            if i % 3 == 0 {
                triangles[i / 3].a
            } else if i % 3 == 1 {
                triangles[i / 3].b
            } else {
                triangles[i / 3].c
            },
    )
}

/// A file: `ACOL`, the version, the two counts, the positions, then the triangles.
pub open spec fn collider_bytes(positions: Seq<Vec3>, triangles: Seq<Corners>) -> Seq<u8> {
    seq![0x41u8, 0x43, 0x4F, 0x4C] + le32(1) + le32(positions.len() as u32) + le32(
        triangles.len() as u32,
    ) + words_bytes(coordinates(positions)) + words_bytes(corner_words(triangles))
}

proof fn lemma_positions_stand(s: Seq<u8>, p: int, positions: Seq<Vec3>)
    requires
        0 <= p,
        p + 12 * positions.len() <= s.len(),
        s.subrange(p, p + 12 * positions.len()) == words_bytes(coordinates(positions)),
    ensures
        items_at::<Vec3>(s, p, positions.len()) == positions,
{
    let a = coordinates(positions);
    lemma_words_at(s, p, a);
    let items = items_at::<Vec3>(s, p, positions.len());
    assert forall|k: int| 0 <= k < positions.len() implies #[trigger] items[k] == positions[k] by {
        let x = 3 * k;
        assert(words_at(s, p, a.len())[x] == a[x]);
        assert(words_at(s, p, a.len())[x + 1] == a[x + 1]);
        assert(words_at(s, p, a.len())[x + 2] == a[x + 2]);
        assert(4 * 3 * k == 12 * k);
        assert(<Vec3 as Record>::count() == 3);
    }
    assert(items =~= positions);
}

proof fn lemma_triangles_stand(s: Seq<u8>, p: int, triangles: Seq<Corners>)
    requires
        0 <= p,
        p + 12 * triangles.len() <= s.len(),
        s.subrange(p, p + 12 * triangles.len()) == words_bytes(corner_words(triangles)),
    ensures
        items_at::<Corners>(s, p, triangles.len()) == triangles,
{
    let a = corner_words(triangles);
    lemma_words_at(s, p, a);
    let items = items_at::<Corners>(s, p, triangles.len());
    assert forall|k: int| 0 <= k < triangles.len() implies #[trigger] items[k] == triangles[k] by {
        let x = 3 * k;
        assert(words_at(s, p, a.len())[x] == a[x]);
        assert(words_at(s, p, a.len())[x + 1] == a[x + 1]);
        assert(words_at(s, p, a.len())[x + 2] == a[x + 2]);
        assert(4 * 3 * k == 12 * k);
        assert(<Corners as Record>::count() == 3);
    }
    assert(items =~= triangles);
}

/// A file that was written reads back as the positions and triangles that were written; with
/// anything behind it, or anything missing, it is no file.
pub proof fn lemma_collider_round_trip(positions: Seq<Vec3>, triangles: Seq<Corners>)
    requires
        positions.len() <= u32::MAX,
        triangles.len() <= u32::MAX,
    ensures
        ({
            let s = collider_bytes(positions, triangles);
            &&& collider_error(s) is None
            &&& word32(s, 8) == positions.len()
            &&& word32(s, 12) == triangles.len()
            &&& items_at::<Vec3>(s, 16, positions.len()) == positions
            &&& items_at::<Corners>(
                s,
                (16 + 12 * positions.len()) as int,
                triangles.len(),
            ) == triangles
            &&& forall|t: Seq<u8>|
                t.len() != s.len() && t.len() >= 16 && #[trigger] t.take(16) == s.take(16)
                    ==> collider_error(t) == Some(ColliderError::TruncatedBody)
        }),
{
    let s = collider_bytes(positions, triangles);
    let v = positions.len() as u32;
    let t = triangles.len() as u32;
    let a = coordinates(positions);
    let b = corner_words(triangles);
    let head = seq![0x41u8, 0x43, 0x4F, 0x4C] + le32(1) + le32(v) + le32(t);
    lemma_word32_of_le32(1);
    lemma_word32_of_le32(v);
    lemma_word32_of_le32(t);
    lemma_words_bytes_len(a);
    lemma_words_bytes_len(b);
    assert(head.len() == 16);
    assert forall|i: int| 0 <= i < 16 implies #[trigger] s[i] == head[i] by {}
    assert(word32(s, 0) == 0x4C4F_4341);
    assert(word32(s, 4) == word32(le32(1), 0));
    assert(word32(s, 8) == word32(le32(v), 0));
    assert(word32(s, 12) == word32(le32(t), 0));
    let p = 16 + 12 * v as int;
    assert(s.subrange(16, 16 + 12 * v) =~= words_bytes(a));
    assert(s.subrange(p, p + 12 * t) =~= words_bytes(b));
    lemma_positions_stand(s, 16, positions);
    lemma_triangles_stand(s, p, triangles);
    assert forall|o: Seq<u8>|
        o.len() != s.len() && o.len() >= 16 && #[trigger] o.take(16) == s.take(
            16,
        ) implies collider_error(o) == Some(ColliderError::TruncatedBody) by {
        assert forall|i: int| 0 <= i < 16 implies #[trigger] o[i] == s[i] by {
            assert(o.take(16)[i] == s.take(16)[i]);
        }
    }
}

} // verus!
