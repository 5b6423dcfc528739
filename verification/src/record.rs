//! Fixed-size records made of four-byte words, and length-prefixed slices of them.

use crate::wire::{
    get_u64, lemma_word32_of_le32, lemma_word64_of_le64, le32, le64, put_u32, put_u64, word32,
    word64,
};
use vstd::prelude::*;

verus! {

/// The bytes of a run of words, each least significant byte first.
pub open spec fn words_bytes(ws: Seq<u32>) -> Seq<u8>
    decreases ws.len(),
{
    if ws.len() == 0 {
        Seq::empty()
    } else {
        words_bytes(ws.drop_last()) + le32(ws.last())
    }
}

/// The `n` words that stand from `at` on.
pub open spec fn words_at(s: Seq<u8>, at: int, n: nat) -> Seq<u32> {
    Seq::new(n, |k: int| word32(s, at + 4 * k))
}

pub proof fn lemma_words_bytes_len(ws: Seq<u32>)
    ensures
        words_bytes(ws).len() == 4 * ws.len(),
    decreases ws.len(),
{
    if ws.len() > 0 {
        lemma_words_bytes_len(ws.drop_last());
    }
}

/// Words read where they were written are the words.
pub proof fn lemma_words_at(s: Seq<u8>, at: int, ws: Seq<u32>)
    requires
        0 <= at,
        at + 4 * ws.len() <= s.len(),
        s.subrange(at, at + 4 * ws.len()) == words_bytes(ws),
    ensures
        words_at(s, at, ws.len()) == ws,
    decreases ws.len(),
{
    lemma_words_bytes_len(ws);
    if ws.len() > 0 {
        let n = ws.len() as int - 1;
        let front = ws.drop_last();
        lemma_words_bytes_len(front);
        let whole = s.subrange(at, at + 4 * ws.len());
        assert(s.subrange(at, at + 4 * n) =~= whole.subrange(0, 4 * n));
        assert(words_bytes(front) =~= words_bytes(ws).subrange(0, 4 * n));
        lemma_words_at(s, at, front);
        lemma_word32_of_le32(ws.last());
        assert(forall|k: int|
            0 <= k < 4 ==> whole[4 * n + k] == #[trigger] le32(ws.last())[k]);
        assert(word32(s, at + 4 * n) == ws.last()) by {
            let last = le32(ws.last());
            assert(s[at + 4 * n] == whole[4 * n + 0] && last[0] == whole[4 * n + 0]);
            assert(s[at + 4 * n + 1] == whole[4 * n + 1] && last[1] == whole[4 * n + 1]);
            assert(s[at + 4 * n + 2] == whole[4 * n + 2] && last[2] == whole[4 * n + 2]);
            assert(s[at + 4 * n + 3] == whole[4 * n + 3] && last[3] == whole[4 * n + 3]);
        }
        assert forall|k: int| 0 <= k < ws.len() implies words_at(s, at, ws.len())[k] == ws[k] by {
            if k < n {
                assert(words_at(s, at, front.len())[k] == front[k]);
            }
        }
    }
    assert(words_at(s, at, ws.len()) =~= ws);
}

/// A record of a fixed number of words.
pub trait Record: Sized {
    /// How many words the record has.
    spec fn count() -> nat;

    /// The record's words, in the order in which they stand.
    spec fn words(self) -> Seq<u32>;

    /// The record that has the words `ws`.
    spec fn of_words(ws: Seq<u32>) -> Self;

    /// The words determine the record.
    proof fn lemma_words(self)
        ensures
            self.words().len() == Self::count(),
            Self::of_words(self.words()) == self,
    ;

    fn word_count() -> (n: usize)
        ensures
            n == Self::count(),
            0 < n <= 16,
    ;

    /// Reads the record at `at`.
    fn get(bytes: &[u8], at: usize) -> (r: Self)
        requires
            at + 4 * Self::count() <= bytes@.len(),
        ensures
            r == Self::of_words(words_at(bytes@, at as int, Self::count())),
    ;

    /// Appends the record.
    fn put(&self, out: &mut Vec<u8>)
        ensures
            final(out)@ == old(out)@ + words_bytes(self.words()),
    ;
}

/// Appends a run of words.
pub fn put_words(out: &mut Vec<u8>, ws: &[u32])
    ensures
        final(out)@ == old(out)@ + words_bytes(ws@),
{
    let mut i: usize = 0;
    assert(ws@.take(0) =~= Seq::<u32>::empty());
    assert(out@ =~= old(out)@ + words_bytes(ws@.take(0)));
    while i < ws.len()
        invariant
            i <= ws@.len(),
            out@ == old(out)@ + words_bytes(ws@.take(i as int)),
        decreases ws@.len() - i,
    {
        put_u32(out, ws[i]);
        proof {
            let next = ws@.take(i as int + 1);
            assert(next.drop_last() =~= ws@.take(i as int));
            assert(out@ =~= old(out)@ + words_bytes(next));
        }
        i = i + 1;
    }
    assert(ws@.take(i as int) =~= ws@);
}

/// The bytes of a run of records.
pub open spec fn items_bytes<T: Record>(items: Seq<T>) -> Seq<u8>
    decreases items.len(),
{
    if items.len() == 0 {
        Seq::empty()
    } else {
        items_bytes(items.drop_last()) + words_bytes(items.last().words())
    }
}

/// The `n` records that stand from `at` on.
pub open spec fn items_at<T: Record>(s: Seq<u8>, at: int, n: nat) -> Seq<T> {
    Seq::new(n, |k: int| T::of_words(words_at(s, at + 4 * T::count() * k, T::count())))
}

/// A slice as it stands in a file: the number of records, then the records.
pub open spec fn slice_bytes<T: Record>(items: Seq<T>) -> Seq<u8> {
    le64(items.len() as u64) + items_bytes(items)
}

/// Where the slice that starts at `at` ends; nothing where `s` ends before it does.
pub open spec fn slice_end<T: Record>(s: Seq<u8>, at: Option<int>) -> Option<int> {
    match at {
        None => None,
        Some(p) => if p + 8 <= s.len() && p + 8 + 4 * T::count() * word64(s, p) <= s.len() {
            Some(p + 8 + 4 * T::count() * word64(s, p))
        } else {
            None
        },
    }
}

/// The records of the slice that starts at `at`.
pub open spec fn slice_items<T: Record>(s: Seq<u8>, at: Option<int>) -> Seq<T> {
    items_at(s, at->0 + 8, word64(s, at->0) as nat)
}

pub proof fn lemma_items_bytes_len<T: Record>(items: Seq<T>)
    ensures
        items_bytes(items).len() == 4 * T::count() * items.len(),
    decreases items.len(),
{
    if items.len() > 0 {
        lemma_items_bytes_len(items.drop_last());
        items.last().lemma_words();
        lemma_words_bytes_len(items.last().words());
        let n = items.len() as int;
        let c = T::count() as int;
        assert(4 * c * (n - 1) + 4 * c == 4 * c * n) by (nonlinear_arith);
    } else {
        assert(4 * T::count() * 0 == 0) by (nonlinear_arith);
    }
}

/// Records read where they were written are the records.
pub proof fn lemma_items_at<T: Record>(s: Seq<u8>, at: int, items: Seq<T>)
    requires
        0 <= at,
        at + items_bytes(items).len() <= s.len(),
        s.subrange(at, at + items_bytes(items).len()) == items_bytes(items),
    ensures
        items_at::<T>(s, at, items.len()) == items,
    decreases items.len(),
{
    lemma_items_bytes_len(items);
    if items.len() > 0 {
        let front = items.drop_last();
        let last = items.last();
        let n = items.len() as int;
        let c = T::count() as int;
        lemma_items_bytes_len(front);
        last.lemma_words();
        lemma_words_bytes_len(last.words());
        let m = 4 * c * (n - 1);
        assert(m + 4 * c == 4 * c * n && 0 <= m) by (nonlinear_arith)
            requires
                m == 4 * c * (n - 1),
                n >= 1,
                c >= 0,
        ;
        let whole = s.subrange(at, at + 4 * c * n);
        assert(s.subrange(at, at + m) =~= whole.subrange(0, m));
        assert(items_bytes(front) =~= items_bytes(items).subrange(0, m));
        lemma_items_at(s, at, front);
        assert(s.subrange(at + m, at + m + 4 * c) =~= whole.subrange(m, m + 4 * c));
        assert(words_bytes(last.words()) =~= items_bytes(items).subrange(m, m + 4 * c));
        lemma_words_at(s, at + m, last.words());
        assert forall|k: int| 0 <= k < n implies items_at::<T>(s, at, items.len())[k]
            == items[k] by {
            if k < n - 1 {
                assert(items_at::<T>(s, at, front.len())[k] == front[k]);
            }
        }
    }
    assert(items_at::<T>(s, at, items.len()) =~= items);
}

/// A slice read where it was written is the slice, and ends where its bytes end.
pub proof fn lemma_slice_at<T: Record>(s: Seq<u8>, p: int, items: Seq<T>)
    requires
        0 <= p,
        items.len() <= u64::MAX,
        p + slice_bytes(items).len() <= s.len(),
        s.subrange(p, p + slice_bytes(items).len()) == slice_bytes(items),
    ensures
        slice_end::<T>(s, Some(p)) == Some(p + slice_bytes(items).len()),
        slice_items::<T>(s, Some(p)) == items,
{
    let n = items.len() as u64;
    let whole = slice_bytes(items);
    lemma_word64_of_le64(n);
    lemma_items_bytes_len(items);
    let sub = s.subrange(p, p + whole.len());
    assert(s.subrange(p, p + 8) =~= sub.subrange(0, 8));
    assert(sub.subrange(0, 8) =~= le64(n));
    lemma_word64_at(s, p, n);
    let len = items_bytes(items).len() as int;
    assert(s.subrange(p + 8, p + 8 + len) =~= sub.subrange(8, 8 + len));
    assert(items_bytes(items) =~= whole.subrange(8, 8 + len));
    lemma_items_at(s, p + 8, items);
}

/// Appends a slice: its length, then its records.
pub fn write_slice<T: Record>(items: &Vec<T>, out: &mut Vec<u8>)
    ensures
        final(out)@ == old(out)@ + slice_bytes(items@),
{
    put_u64(out, items.len() as u64);
    let ghost start = out@;
    let mut i: usize = 0;
    assert(items@.take(0) =~= Seq::<T>::empty());
    assert(out@ =~= start + items_bytes(items@.take(0)));
    while i < items.len()
        invariant
            i <= items@.len(),
            out@ == start + items_bytes(items@.take(i as int)),
        decreases items@.len() - i,
    {
        items[i].put(out);
        proof {
            let next = items@.take(i as int + 1);
            assert(next.drop_last() =~= items@.take(i as int));
            assert(out@ =~= start + items_bytes(next));
        }
        i = i + 1;
    }
    assert(items@.take(i as int) =~= items@);
    assert(out@ =~= old(out)@ + slice_bytes(items@));
}

/// Reads the slice at `at`, and where it ends; nothing where the bytes end before it does.
pub fn read_slice<T: Record>(bytes: &[u8], at: usize) -> (r: Option<(Vec<T>, usize)>)
    requires
        at <= bytes@.len(),
    ensures
        match r {
            Some((items, end)) => {
                &&& slice_end::<T>(bytes@, Some(at as int)) == Some(end as int)
                &&& items@ == slice_items::<T>(bytes@, Some(at as int))
                &&& end <= bytes@.len()
            },
            None => slice_end::<T>(bytes@, Some(at as int)) is None,
        },
{
    if bytes.len() - at < 8 {
        return None;
    }
    let n: u64 = get_u64(bytes, at);
    let room: usize = bytes.len() - at - 8;
    let size: usize = 4 * T::word_count();
    if n > (room / size) as u64 {
        proof {
            let c = T::count() as int;
            assert(4 * c * n > room) by (nonlinear_arith)
                requires
                    size == 4 * c,
                    size > 0,
                    n > room as int / size as int,
            ;
        }
        return None;
    }
    proof {
        let c = T::count() as int;
        assert(4 * c * n <= room) by (nonlinear_arith)
            requires
                size == 4 * c,
                size > 0,
                n <= room as int / size as int,
        ;
    }
    let count: usize = n as usize;
    proof {
        assert(4 * T::count() * count == size * count) by (nonlinear_arith)
            requires
                size == 4 * T::count(),
        ;
    }
    let items: Vec<T> = read_items::<T>(bytes, at + 8, count);
    Some((items, at + 8 + size * count))
}

/// Reads the `count` records that stand from `at` on.
pub fn read_items<T: Record>(bytes: &[u8], at: usize, count: usize) -> (items: Vec<T>)
    requires
        at + 4 * T::count() * count <= bytes@.len(),
    ensures
        items@ == items_at::<T>(bytes@, at as int, count as nat),
{
    let size: usize = 4 * T::word_count();
    let mut items: Vec<T> = Vec::new();
    let mut i: usize = 0;
    let mut p: usize = at;
    while i < count
        invariant
            i <= count,
            size == 4 * T::count(),
            size > 0,
            p == at + size * i,
            at + 4 * T::count() * count <= bytes@.len(),
            items@ == items_at::<T>(bytes@, at as int, i as nat),
        decreases count - i,
    {
        proof {
            assert(size * i + size <= 4 * T::count() * count) by (nonlinear_arith)
                requires
                    size == 4 * T::count(),
                    i < count,
                    size > 0,
            ;
            assert(size * (i + 1) == size * i + size) by (nonlinear_arith);
            assert(4 * T::count() * i == size * i) by (nonlinear_arith)
                requires
                    size == 4 * T::count(),
            ;
            assert(bytes.len() <= usize::MAX);
        }
        items.push(T::get(bytes, p));
        assert(items@ =~= items_at::<T>(bytes@, at as int, (i + 1) as nat));
        p = p + size;
        i = i + 1;
    }
    items
}

/// A slice of bytes as it stands in a file: the number of bytes, then the bytes.
pub open spec fn byte_slice_bytes(items: Seq<u8>) -> Seq<u8> {
    le64(items.len() as u64) + items
}

/// Where the byte slice that starts at `at` ends; nothing where `s` ends before it does.
pub open spec fn byte_slice_end(s: Seq<u8>, at: Option<int>) -> Option<int> {
    match at {
        None => None,
        Some(p) => if p + 8 <= s.len() && p + 8 + word64(s, p) <= s.len() {
            Some(p + 8 + word64(s, p))
        } else {
            None
        },
    }
}

/// The bytes of the byte slice that starts at `at`.
pub open spec fn byte_slice_items(s: Seq<u8>, at: Option<int>) -> Seq<u8> {
    s.subrange(at->0 + 8, at->0 + 8 + word64(s, at->0))
}

/// The eight-byte word that stands where `le64` put it.
pub proof fn lemma_word64_at(s: Seq<u8>, p: int, x: u64)
    requires
        0 <= p,
        p + 8 <= s.len(),
        s.subrange(p, p + 8) == le64(x),
    ensures
        word64(s, p) == x,
{
    lemma_word64_of_le64(x);
    let head = le64(x);
    let sub = s.subrange(p, p + 8);
    assert(sub[0] == s[p] && sub[1] == s[p + 1] && sub[2] == s[p + 2] && sub[3] == s[p + 3]);
    assert(sub[4] == s[p + 4] && sub[5] == s[p + 5] && sub[6] == s[p + 6] && sub[7] == s[p + 7]);
    assert(word32(s, p) == word32(head, 0));
    assert(word32(s, p + 4) == word32(head, 4));
}

/// A byte slice read where it was written is the slice, and ends where its bytes end.
pub proof fn lemma_byte_slice_at(s: Seq<u8>, p: int, items: Seq<u8>)
    requires
        0 <= p,
        items.len() <= u64::MAX,
        p + byte_slice_bytes(items).len() <= s.len(),
        s.subrange(p, p + byte_slice_bytes(items).len()) == byte_slice_bytes(items),
    ensures
        byte_slice_end(s, Some(p)) == Some(p + byte_slice_bytes(items).len()),
        byte_slice_items(s, Some(p)) == items,
{
    let whole = byte_slice_bytes(items);
    let n = items.len() as u64;
    lemma_word64_of_le64(n);
    let sub = s.subrange(p, p + whole.len());
    assert(s.subrange(p, p + 8) =~= sub.subrange(0, 8));
    assert(sub.subrange(0, 8) =~= le64(n));
    lemma_word64_at(s, p, n);
    assert(s.subrange(p + 8, p + 8 + n) =~= sub.subrange(8, 8 + n as int));
    assert(sub.subrange(8, 8 + n as int) =~= items);
}

/// Appends a byte slice: its length, then its bytes.
pub fn write_byte_slice(items: &Vec<u8>, out: &mut Vec<u8>)
    ensures
        final(out)@ == old(out)@ + byte_slice_bytes(items@),
{
    put_u64(out, items.len() as u64);
    out.extend_from_slice(items.as_slice());
    assert(out@ =~= old(out)@ + byte_slice_bytes(items@));
}

/// Reads the byte slice at `at`, and where it ends; nothing where the bytes end before it
/// does.
pub fn read_byte_slice(bytes: &[u8], at: usize) -> (r: Option<(Vec<u8>, usize)>)
    requires
        at <= bytes@.len(),
    ensures
        match r {
            Some((items, end)) => {
                &&& byte_slice_end(bytes@, Some(at as int)) == Some(end as int)
                &&& items@ == byte_slice_items(bytes@, Some(at as int))
                &&& end <= bytes@.len()
            },
            None => byte_slice_end(bytes@, Some(at as int)) is None,
        },
{
    if bytes.len() - at < 8 {
        return None;
    }
    let n: u64 = get_u64(bytes, at);
    if n > (bytes.len() - at - 8) as u64 {
        return None;
    }
    let start: usize = at + 8;
    let end: usize = start + n as usize;
    let items: Vec<u8> = copy_bytes(bytes, start, end);
    Some((items, end))
}

/// The bytes from `start` up to `end`.
pub fn copy_bytes(bytes: &[u8], start: usize, end: usize) -> (r: Vec<u8>)
    requires
        start <= end <= bytes@.len(),
    ensures
        r@ == bytes@.subrange(start as int, end as int),
{
    let mut r: Vec<u8> = Vec::new();
    let mut i: usize = start;
    while i < end
        invariant
            start <= i <= end <= bytes@.len(),
            r@ == bytes@.subrange(start as int, i as int),
        decreases end - i,
    {
        r.push(bytes[i]);
        assert(r@ =~= bytes@.subrange(start as int, i + 1));
        i = i + 1;
    }
    r
}

} // verus!
