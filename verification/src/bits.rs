//! Vectors of floating-point numbers, each number held as its bit pattern.

use crate::record::{put_words, Record};
use crate::wire::get_u32;
use vstd::prelude::*;

verus! {

/// Two numbers.
#[derive(Clone, Copy, Debug, Default, PartialEq, Eq, Structural)]
pub struct Vec2 {
    pub x: u32,
    pub y: u32,
}

/// Three numbers.
#[derive(Clone, Copy, Debug, Default, PartialEq, Eq, Structural)]
pub struct Vec3 {
    pub x: u32,
    pub y: u32,
    pub z: u32,
}

/// Four numbers.
#[derive(Clone, Copy, Debug, Default, PartialEq, Eq, Structural)]
pub struct Vec4 {
    pub x: u32,
    pub y: u32,
    pub z: u32,
    pub w: u32,
}

/// The number with the other sign.
pub open spec fn negated(bits: u32) -> u32 {
    if bits < 0x8000_0000 {
        (bits + 0x8000_0000) as u32
    } else {
        (bits - 0x8000_0000) as u32
    }
}

/// Gives a number the other sign.
pub fn negate(bits: u32) -> (r: u32)
    ensures
        r == negated(bits),
{
    if bits < 0x8000_0000 {
        bits + 0x8000_0000
    } else {
        bits - 0x8000_0000
    }
}

/// The other sign of the other sign is the first one.
pub proof fn lemma_negated_twice(bits: u32)
    ensures
        negated(negated(bits)) == bits,
        negated(bits) != bits,
{
}

impl Record for Vec2 {
    open spec fn count() -> nat {
        2
    }

    open spec fn words(self) -> Seq<u32> {
        seq![
            self.x,
            self.y,
        ]
    }

    open spec fn of_words(ws: Seq<u32>) -> Self {
        Vec2 {
            x: ws[0],
            y: ws[1],
        }
    }

    proof fn lemma_words(self) {
    }

    fn word_count() -> (n: usize) {
        2
    }

    fn get(bytes: &[u8], at: usize) -> (r: Self) {
        assert(bytes.len() <= usize::MAX);
        Vec2 {
            x: get_u32(bytes, at),
            y: get_u32(bytes, at + 4),
        }
    }

    fn put(&self, out: &mut Vec<u8>) {
        let ws: [u32; 2] = [
            self.x,
            self.y,
        ];
        assert(ws@ =~= self.words());
        put_words(out, &ws);
    }
}

impl Record for Vec3 {
    open spec fn count() -> nat {
        3
    }

    open spec fn words(self) -> Seq<u32> {
        seq![
            self.x,
            self.y,
            self.z,
        ]
    }

    open spec fn of_words(ws: Seq<u32>) -> Self {
        Vec3 {
            x: ws[0],
            y: ws[1],
            z: ws[2],
        }
    }

    proof fn lemma_words(self) {
    }

    fn word_count() -> (n: usize) {
        3
    }

    fn get(bytes: &[u8], at: usize) -> (r: Self) {
        assert(bytes.len() <= usize::MAX);
        Vec3 {
            x: get_u32(bytes, at),
            y: get_u32(bytes, at + 4),
            z: get_u32(bytes, at + 8),
        }
    }

    fn put(&self, out: &mut Vec<u8>) {
        let ws: [u32; 3] = [
            self.x,
            self.y,
            self.z,
        ];
        assert(ws@ =~= self.words());
        put_words(out, &ws);
    }
}

impl Record for Vec4 {
    open spec fn count() -> nat {
        4
    }

    open spec fn words(self) -> Seq<u32> {
        seq![
            self.x,
            self.y,
            self.z,
            self.w,
        ]
    }

    open spec fn of_words(ws: Seq<u32>) -> Self {
        Vec4 {
            x: ws[0],
            y: ws[1],
            z: ws[2],
            w: ws[3],
        }
    }

    proof fn lemma_words(self) {
    }

    fn word_count() -> (n: usize) {
        4
    }

    fn get(bytes: &[u8], at: usize) -> (r: Self) {
        assert(bytes.len() <= usize::MAX);
        Vec4 {
            x: get_u32(bytes, at),
            y: get_u32(bytes, at + 4),
            z: get_u32(bytes, at + 8),
            w: get_u32(bytes, at + 12),
        }
    }

    fn put(&self, out: &mut Vec<u8>) {
        let ws: [u32; 4] = [
            self.x,
            self.y,
            self.z,
            self.w,
        ];
        assert(ws@ =~= self.words());
        put_words(out, &ws);
    }
}

impl Record for u32 {
    open spec fn count() -> nat {
        1
    }

    open spec fn words(self) -> Seq<u32> {
        seq![self]
    }

    open spec fn of_words(ws: Seq<u32>) -> Self {
        ws[0]
    }

    proof fn lemma_words(self) {
    }

    fn word_count() -> (n: usize) {
        1
    }

    fn get(bytes: &[u8], at: usize) -> (r: Self) {
        get_u32(bytes, at)
    }

    fn put(&self, out: &mut Vec<u8>) {
        let ws: [u32; 1] = [*self];
        assert(ws@ =~= self.words());
        put_words(out, &ws);
    }
}

/// A signed word stands as the word with the same bits.
impl Record for i32 {
    open spec fn count() -> nat {
        1
    }

    open spec fn words(self) -> Seq<u32> {
        seq![self as u32]
    }

    open spec fn of_words(ws: Seq<u32>) -> Self {
        ws[0] as i32
    }

    proof fn lemma_words(self) {
        assert((self as u32) as i32 == self) by (bit_vector);
    }

    fn word_count() -> (n: usize) {
        1
    }

    fn get(bytes: &[u8], at: usize) -> (r: Self) {
        get_u32(bytes, at) as i32
    }

    fn put(&self, out: &mut Vec<u8>) {
        let ws: [u32; 1] = [*self as u32];
        assert(ws@ =~= self.words());
        put_words(out, &ws);
    }
}

} // verus!
