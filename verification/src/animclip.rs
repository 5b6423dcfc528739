//! Serialised animation clips, bound by node name path.
//!
//! ```text
//!   magic  "ANIMCLP\x01"                     (8 bytes)
//!   u32    target_count
//!   per target:
//!     u16  path_len;  per component: u16 len + len UTF-8 bytes
//!     u8   channel_mask                       (bit0 = translation, bit1 = rotation, bit2 = scale)
//!     per present channel, in translation, rotation, scale order:
//!       u32  key_count
//!       key_count numbers        times (seconds)
//!       key_count x dim numbers  values         (dim: 3, 4, 3)
//! ```
//! Little-endian; numbers are kept as their bit patterns.

use crate::bits::{Vec3, Vec4};
use crate::record::{
    items_at, lemma_words_at, lemma_words_bytes_len, read_items, words_at, words_bytes, Record,
};
use crate::wire::{
    get_u16, get_u32, get_u64, le16, le32, lemma_word16_of_le16, lemma_word32_of_le32, word16,
    word32, word64,
};
use vstd::prelude::*;
use vstd::utf8::{
    decode_utf8, encode_utf8, encode_utf8_decode_utf8, encode_utf8_valid_utf8, valid_utf8,
};

verus! {

/// The first eight bytes of a clip, as one little-endian word.
pub const MAGIC: u64 = 0x0150_4C43_4D49_4E41;

pub const CH_T: u8 = 1;

pub const CH_R: u8 = 2;

pub const CH_S: u8 = 4;

/// Why a file is no clip.
#[derive(Clone, Copy, Debug, PartialEq, Eq, Structural)]
pub enum ClipError {
    BadMagic,
    Truncated,
    BadUtf8,
}

/// The keys of one channel.
#[derive(Debug)]
pub struct Channel {
    pub times: Vec<u32>,
    /// `dim` numbers for each time.
    pub values: Vec<u32>,
}

/// One animated node.
#[derive(Debug)]
pub struct ClipTarget {
    pub path: Vec<String>,
    pub translation: Option<Channel>,
    pub rotation: Option<Channel>,
    pub scale: Option<Channel>,
}

/// The contents of a [`Channel`].
pub ghost struct ChannelView {
    pub times: Seq<u32>,
    pub values: Seq<u32>,
}

/// The contents of a [`ClipTarget`].
pub ghost struct TargetView {
    pub path: Seq<Seq<char>>,
    pub translation: Option<ChannelView>,
    pub rotation: Option<ChannelView>,
    pub scale: Option<ChannelView>,
}

impl View for Channel {
    type V = ChannelView;

    open spec fn view(&self) -> ChannelView {
        ChannelView { times: self.times@, values: self.values@ }
    }
}

/// An optional channel by its contents.
pub open spec fn channel_view(c: Option<Channel>) -> Option<ChannelView> {
    match c {
        Some(c) => Some(c@),
        None => None,
    }
}

impl View for ClipTarget {
    type V = TargetView;

    open spec fn view(&self) -> TargetView {
        TargetView {
            path: self.path@.map_values(|s: String| s@),
            translation: channel_view(self.translation),
            rotation: channel_view(self.rotation),
            scale: channel_view(self.scale),
        }
    }
}

/// Calls `core::str::from_utf8`. What is claimed: it gives a string exactly where the bytes
/// are UTF-8, and then the one that they encode.
#[verifier::external_body]
fn read_utf8(bytes: &[u8]) -> (r: Option<String>)
    ensures
        match r {
            Some(s) => valid_utf8(bytes@) && s@ == decode_utf8(bytes@),
            None => !valid_utf8(bytes@),
        },
{
    core::str::from_utf8(bytes).ok().map(|s| s.to_string())
}

// ---- what the bytes mean: a value, and where it ends --------------------------------------

/// One component of a name path.
pub open spec fn name_at(s: Seq<u8>, p: int) -> Result<(Seq<char>, int), ClipError> {
    let n = word16(s, p) as int;
    if p + 2 > s.len() || p + 2 + n > s.len() {
        Err(ClipError::Truncated)
    } else if !valid_utf8(s.subrange(p + 2, p + 2 + n)) {
        Err(ClipError::BadUtf8)
    } else {
        Ok((decode_utf8(s.subrange(p + 2, p + 2 + n)), p + 2 + n))
    }
}

/// `k` components of a name path.
pub open spec fn names_at(s: Seq<u8>, p: int, k: nat) -> Result<(Seq<Seq<char>>, int), ClipError>
    decreases k,
{
    if k == 0 {
        Ok((Seq::empty(), p))
    } else {
        match names_at(s, p, (k - 1) as nat) {
            Err(e) => Err(e),
            Ok((names, q)) => match name_at(s, q) {
                Err(e) => Err(e),
                Ok((name, end)) => Ok((names.push(name), end)),
            },
        }
    }
}

/// One channel with `dim` numbers for each key.
pub open spec fn channel_at(s: Seq<u8>, p: int, dim: int) -> Result<(ChannelView, int), ClipError> {
    let keys = word32(s, p) as int;
    if p + 4 > s.len() || p + 4 + 4 * keys > s.len() || p + 4 + 4 * keys + 4 * (keys * dim)
        > s.len() {
        Err(ClipError::Truncated)
    } else {
        Ok(
            (
                ChannelView {
                    times: items_at::<u32>(s, p + 4, keys as nat),
                    values: items_at::<u32>(s, p + 4 + 4 * keys, (keys * dim) as nat),
                },
                p + 4 + 4 * keys + 4 * (keys * dim),
            ),
        )
    }
}

/// One channel where it is present, else none.
pub open spec fn present_at(s: Seq<u8>, p: int, present: bool, dim: int) -> Result<
    (Option<ChannelView>, int),
    ClipError,
> {
    if present {
        match channel_at(s, p, dim) {
            Ok((c, end)) => Ok((Some(c), end)),
            Err(e) => Err(e),
        }
    } else {
        Ok((None, p))
    }
}

/// The three channels that `mask` names.
pub open spec fn channels_at(s: Seq<u8>, p: int, path: Seq<Seq<char>>, mask: u8) -> Result<
    (TargetView, int),
    ClipError,
> {
    match present_at(s, p, mask & CH_T != 0, 3) {
        Err(e) => Err(e),
        Ok((translation, p1)) => match present_at(s, p1, mask & CH_R != 0, 4) {
            Err(e) => Err(e),
            Ok((rotation, p2)) => match present_at(s, p2, mask & CH_S != 0, 3) {
                Err(e) => Err(e),
                Ok((scale, p3)) => Ok((TargetView { path, translation, rotation, scale }, p3)),
            },
        },
    }
}

/// One target.
#[verifier::opaque]
pub open spec fn target_at(s: Seq<u8>, p: int) -> Result<(TargetView, int), ClipError> {
    if p + 2 > s.len() {
        Err(ClipError::Truncated)
    } else {
        match names_at(s, p + 2, word16(s, p) as nat) {
            Err(e) => Err(e),
            Ok((path, q)) => if q + 1 > s.len() {
                Err(ClipError::Truncated)
            } else {
                channels_at(s, q + 1, path, s[q])
            },
        }
    }
}

/// `k` targets.
pub open spec fn targets_at(s: Seq<u8>, p: int, k: nat) -> Result<(Seq<TargetView>, int), ClipError>
    decreases k,
{
    if k == 0 {
        Ok((Seq::empty(), p))
    } else {
        match targets_at(s, p, (k - 1) as nat) {
            Err(e) => Err(e),
            Ok((targets, q)) => match target_at(s, q) {
                Err(e) => Err(e),
                Ok((target, end)) => Ok((targets.push(target), end)),
            },
        }
    }
}

/// What the bytes of a clip mean; what stands behind the last target is not looked at.
pub open spec fn clip_of(s: Seq<u8>) -> Result<Seq<TargetView>, ClipError> {
    if s.len() < 8 {
        Err(ClipError::Truncated)
    } else if word64(s, 0) != MAGIC {
        Err(ClipError::BadMagic)
    } else if s.len() < 12 {
        Err(ClipError::Truncated)
    } else {
        match targets_at(s, 12, word32(s, 8) as nat) {
            Err(e) => Err(e),
            Ok((targets, _)) => Ok(targets),
        }
    }
}

/// Once a name fails, all longer paths fail alike.
proof fn lemma_names_fail(s: Seq<u8>, p: int, k: nat, m: nat)
    requires
        k <= m,
        names_at(s, p, k) is Err,
    ensures
        names_at(s, p, m) == names_at(s, p, k),
    decreases m - k,
{
    if k < m {
        lemma_names_fail(s, p, k, (m - 1) as nat);
    }
}

/// Once a target fails, all longer lists fail alike.
proof fn lemma_targets_fail(s: Seq<u8>, p: int, k: nat, m: nat)
    requires
        k <= m,
        targets_at(s, p, k) is Err,
    ensures
        targets_at(s, p, m) == targets_at(s, p, k),
    decreases m - k,
{
    if k < m {
        lemma_targets_fail(s, p, k, (m - 1) as nat);
    }
}

fn read_name(bytes: &[u8], p: usize) -> (r: Result<(String, usize), ClipError>)
    requires
        p <= bytes@.len(),
    ensures
        match r {
            Ok((name, end)) => name_at(bytes@, p as int) == Ok::<(Seq<char>, int), ClipError>(
                (name@, end as int),
            ) && end <= bytes@.len(),
            Err(e) => name_at(bytes@, p as int) == Err::<(Seq<char>, int), ClipError>(e),
        },
{
    if bytes.len() - p < 2 {
        return Err(ClipError::Truncated);
    }
    let n: usize = get_u16(bytes, p) as usize;
    if bytes.len() - p - 2 < n {
        return Err(ClipError::Truncated);
    }
    let name: &[u8] = vstd::slice::slice_subrange(bytes, p + 2, p + 2 + n);
    match read_utf8(name) {
        Some(s) => Ok((s, p + 2 + n)),
        None => Err(ClipError::BadUtf8),
    }
}

fn read_names(bytes: &[u8], p: usize, k: u16) -> (r: Result<(Vec<String>, usize), ClipError>)
    requires
        p <= bytes@.len(),
    ensures
        match r {
            Ok((names, end)) => names_at(bytes@, p as int, k as nat) == Ok::<
                (Seq<Seq<char>>, int),
                ClipError,
            >((names@.map_values(|s: String| s@), end as int)) && end <= bytes@.len(),
            Err(e) => names_at(bytes@, p as int, k as nat) == Err::<
                (Seq<Seq<char>>, int),
                ClipError,
            >(e),
        },
{
    let mut names: Vec<String> = Vec::new();
    let mut q: usize = p;
    let mut i: u16 = 0;
    assert(names@.map_values(|s: String| s@) =~= Seq::<Seq<char>>::empty());
    while i < k
        invariant
            i <= k,
            q <= bytes@.len(),
            names_at(bytes@, p as int, i as nat) == Ok::<(Seq<Seq<char>>, int), ClipError>(
                (names@.map_values(|s: String| s@), q as int),
            ),
        decreases k - i,
    {
        match read_name(bytes, q) {
            Ok((name, end)) => {
                let ghost before = names@;
                names.push(name);
                assert(names@.map_values(|s: String| s@) =~= before.map_values(
                    |s: String| s@,
                ).push(name@));
                q = end;
            },
            Err(e) => {
                proof {
                    lemma_names_fail(bytes@, p as int, (i + 1) as nat, k as nat);
                }
                return Err(e);
            },
        }
        i = i + 1;
    }
    Ok((names, q))
}

fn read_channel(bytes: &[u8], p: usize, dim: usize) -> (r: Result<(Channel, usize), ClipError>)
    requires
        p <= bytes@.len(),
        dim <= 4,
    ensures
        match r {
            Ok((c, end)) => channel_at(bytes@, p as int, dim as int) == Ok::<
                (ChannelView, int),
                ClipError,
            >((c@, end as int)) && end <= bytes@.len(),
            Err(e) => channel_at(bytes@, p as int, dim as int) == Err::<
                (ChannelView, int),
                ClipError,
            >(e),
        },
{
    if bytes.len() - p < 4 {
        return Err(ClipError::Truncated);
    }
    let keys: u64 = get_u32(bytes, p) as u64;
    let room: u64 = (bytes.len() - p - 4) as u64;
    if room < 4 * keys {
        return Err(ClipError::Truncated);
    }
    assert(0 <= keys * dim <= keys * 4) by (nonlinear_arith)
        requires
            dim <= 4,
    ;
    let numbers: u64 = keys * dim as u64;
    if room - 4 * keys < 4 * numbers {
        return Err(ClipError::Truncated);
    }
    let times_at: usize = p + 4;
    let values_at: usize = times_at + 4 * keys as usize;
    let times: Vec<u32> = read_items::<u32>(bytes, times_at, keys as usize);
    let values: Vec<u32> = read_items::<u32>(bytes, values_at, numbers as usize);
    Ok((Channel { times, values }, values_at + 4 * numbers as usize))
}

fn read_present(bytes: &[u8], p: usize, present: bool, dim: usize) -> (r: Result<
    (Option<Channel>, usize),
    ClipError,
>)
    requires
        p <= bytes@.len(),
        dim <= 4,
    ensures
        match r {
            Ok((c, end)) => present_at(bytes@, p as int, present, dim as int) == Ok::<
                (Option<ChannelView>, int),
                ClipError,
            >((channel_view(c), end as int)) && end <= bytes@.len(),
            Err(e) => present_at(bytes@, p as int, present, dim as int) == Err::<
                (Option<ChannelView>, int),
                ClipError,
            >(e),
        },
{
    if present {
        match read_channel(bytes, p, dim) {
            Ok((c, end)) => Ok((Some(c), end)),
            Err(e) => Err(e),
        }
    } else {
        Ok((None, p))
    }
}

fn read_target(bytes: &[u8], p: usize) -> (r: Result<(ClipTarget, usize), ClipError>)
    requires
        p <= bytes@.len(),
    ensures
        match r {
            Ok((t, end)) => target_at(bytes@, p as int) == Ok::<(TargetView, int), ClipError>(
                (t@, end as int),
            ) && end <= bytes@.len(),
            Err(e) => target_at(bytes@, p as int) == Err::<(TargetView, int), ClipError>(e),
        },
{
    proof {
        reveal(target_at);
    }
    if bytes.len() - p < 2 {
        return Err(ClipError::Truncated);
    }
    let (path, q): (Vec<String>, usize) = match read_names(bytes, p + 2, get_u16(bytes, p)) {
        Ok(names) => names,
        Err(e) => return Err(e),
    };
    if bytes.len() - q < 1 {
        return Err(ClipError::Truncated);
    }
    let mask: u8 = bytes[q];
    let (translation, p1): (Option<Channel>, usize) = match read_present(
        bytes,
        q + 1,
        mask & CH_T != 0,
        3,
    ) {
        Ok(c) => c,
        Err(e) => return Err(e),
    };
    let (rotation, p2): (Option<Channel>, usize) = match read_present(
        bytes,
        p1,
        mask & CH_R != 0,
        4,
    ) {
        Ok(c) => c,
        Err(e) => return Err(e),
    };
    let (scale, p3): (Option<Channel>, usize) = match read_present(
        bytes,
        p2,
        mask & CH_S != 0,
        3,
    ) {
        Ok(c) => c,
        Err(e) => return Err(e),
    };
    Ok((ClipTarget { path, translation, rotation, scale }, p3))
}

/// The contents of each target.
#[verifier::opaque]
pub open spec fn target_views(targets: Seq<ClipTarget>) -> Seq<TargetView> {
    targets.map_values(|t: ClipTarget| t@)
}

proof fn lemma_target_views(targets: Seq<ClipTarget>, t: ClipTarget)
    ensures
        target_views(Seq::empty()) == Seq::<TargetView>::empty(),
        target_views(targets.push(t)) == target_views(targets).push(t@),
{
    reveal(target_views);
    assert(target_views(Seq::empty()) =~= Seq::<TargetView>::empty());
    assert(target_views(targets.push(t)) =~= target_views(targets).push(t@));
}

proof fn lemma_targets_step(s: Seq<u8>, p: int, k: nat, targets: Seq<TargetView>, q: int)
    requires
        targets_at(s, p, k) == Ok::<(Seq<TargetView>, int), ClipError>((targets, q)),
    ensures
        targets_at(s, p, k + 1) == (match target_at(s, q) {
            Err(e) => Err::<(Seq<TargetView>, int), ClipError>(e),
            Ok((target, end)) => Ok((targets.push(target), end)),
        }),
{
}

fn read_targets(bytes: &[u8], p: usize, count: u32) -> (r: Result<Vec<ClipTarget>, ClipError>)
    requires
        p <= bytes@.len(),
    ensures
        match r {
            Ok(targets) => targets_at(bytes@, p as int, count as nat) is Ok && targets_at(
                bytes@,
                p as int,
                count as nat,
            )->Ok_0.0 == target_views(targets@),
            Err(e) => targets_at(bytes@, p as int, count as nat) == Err::<
                (Seq<TargetView>, int),
                ClipError,
            >(e),
        },
{
    let mut targets: Vec<ClipTarget> = Vec::new();
    let mut q: usize = p;
    let mut i: u32 = 0;
    proof {
        assert(targets@ =~= Seq::empty());
        reveal(target_views);
        assert(target_views(targets@) =~= Seq::<TargetView>::empty());
    }
    while i < count
        invariant
            i <= count,
            q <= bytes@.len(),
            targets_at(bytes@, p as int, i as nat) == Ok::<(Seq<TargetView>, int), ClipError>(
                (target_views(targets@), q as int),
            ),
        decreases count - i,
    {
        proof {
            lemma_targets_step(bytes@, p as int, i as nat, target_views(targets@), q as int);
        }
        match read_target(bytes, q) {
            Ok((target, end)) => {
                proof {
                    lemma_target_views(targets@, target);
                }
                targets.push(target);
                q = end;
            },
            Err(e) => {
                proof {
                    lemma_targets_fail(bytes@, p as int, (i + 1) as nat, count as nat);
                }
                return Err(e);
            },
        }
        i = i + 1;
    }
    Ok(targets)
}

/// Reads a clip.
pub fn parse_animclip(bytes: &[u8]) -> (r: Result<Vec<ClipTarget>, ClipError>)
    ensures
        match r {
            Ok(targets) => clip_of(bytes@) == Ok::<Seq<TargetView>, ClipError>(
                target_views(targets@),
            ),
            Err(e) => clip_of(bytes@) == Err::<Seq<TargetView>, ClipError>(e),
        },
{
    if bytes.len() < 8 {
        return Err(ClipError::Truncated);
    }
    if get_u64(bytes, 0) != MAGIC {
        return Err(ClipError::BadMagic);
    }
    if bytes.len() < 12 {
        return Err(ClipError::Truncated);
    }
    read_targets(bytes, 12, get_u32(bytes, 8))
}

// ---- bytes behind and bytes missing
// ---------------------------------------------------------------

/// `s` is how `t` begins.
pub open spec fn begins(s: Seq<u8>, t: Seq<u8>) -> bool {
    s.len() <= t.len() && forall|i: int| 0 <= i < s.len() ==> #[trigger] s[i] == t[i]
}

/// What reading a value gives where `t`, of which only `room` bytes are left, holds it up to
/// where it ends: the value, where it ends in time, else nothing.
pub open spec fn cut_short<V>(whole: Result<(V, int), ClipError>, room: int) -> Result<
    (V, int),
    ClipError,
> {
    match whole {
        Ok((v, end)) => if end <= room {
            Ok((v, end))
        } else {
            Err(ClipError::Truncated)
        },
        Err(e) => Err(e),
    }
}

/// How reading from a beginning goes: what it gives, the whole gives too; and what the whole
/// gives, it gives where it reaches that far, else it is cut short.
pub open spec fn agrees<V>(
    part: Result<(V, int), ClipError>,
    whole: Result<(V, int), ClipError>,
    p: int,
    room: int,
) -> bool {
    &&& part is Ok ==> whole == part && p <= part->Ok_0.1 <= room
    &&& whole is Ok ==> p <= whole->Ok_0.1 && part == cut_short(whole, room)
}

proof fn lemma_words_begin(s: Seq<u8>, t: Seq<u8>, p: int)
    requires
        begins(s, t),
        0 <= p,
    ensures
        p + 2 <= s.len() ==> word16(s, p) == word16(t, p),
        p + 4 <= s.len() ==> word32(s, p) == word32(t, p),
        p + 8 <= s.len() ==> word64(s, p) == word64(t, p),
{
}

proof fn lemma_items_begin(s: Seq<u8>, t: Seq<u8>, at: int, n: nat)
    requires
        begins(s, t),
        0 <= at,
        at + 4 * n <= s.len(),
    ensures
        items_at::<u32>(s, at, n) == items_at::<u32>(t, at, n),
{
    let a = items_at::<u32>(s, at, n);
    let b = items_at::<u32>(t, at, n);
    assert forall|i: int| 0 <= i < n implies #[trigger] a[i] == b[i] by {
        lemma_words_begin(s, t, at + 4 * i);
        assert(words_at(s, at + 4 * i, 1) =~= words_at(t, at + 4 * i, 1));
    }
    assert(a =~= b);
}

proof fn lemma_name_begins(s: Seq<u8>, t: Seq<u8>, p: int)
    requires
        begins(s, t),
        0 <= p <= s.len(),
    ensures
        agrees(name_at(s, p), name_at(t, p), p, s.len() as int),
{
    lemma_words_begin(s, t, p);
    let n = word16(t, p) as int;
    if p + 2 + n <= s.len() {
        assert(s.subrange(p + 2, p + 2 + n) =~= t.subrange(p + 2, p + 2 + n));
    }
}

proof fn lemma_names_begin(s: Seq<u8>, t: Seq<u8>, p: int, k: nat)
    requires
        begins(s, t),
        0 <= p <= s.len(),
    ensures
        agrees(names_at(s, p, k), names_at(t, p, k), p, s.len() as int),
    decreases k,
{
    if k > 0 {
        lemma_names_begin(s, t, p, (k - 1) as nat);
        let front = names_at(t, p, (k - 1) as nat);
        if front is Ok {
            let q = front->Ok_0.1;
            if q <= s.len() {
                lemma_name_begins(s, t, q);
            } else {
                lemma_name_forward(t, q);
            }
        }
    }
}

/// A name ends behind where it starts.
proof fn lemma_name_forward(t: Seq<u8>, q: int)
    ensures
        name_at(t, q) is Ok ==> q <= name_at(t, q)->Ok_0.1,
{
}

proof fn lemma_channel_begins(s: Seq<u8>, t: Seq<u8>, p: int, dim: int)
    requires
        begins(s, t),
        0 <= p <= s.len(),
        0 <= dim,
    ensures
        agrees(channel_at(s, p, dim), channel_at(t, p, dim), p, s.len() as int),
{
    lemma_words_begin(s, t, p);
    let keys = word32(t, p) as int;
    assert(keys * dim >= 0) by (nonlinear_arith)
        requires
            keys >= 0,
            dim >= 0,
    ;
    let end = p + 4 + 4 * keys + 4 * (keys * dim);
    if end <= s.len() {
        lemma_items_begin(s, t, p + 4, keys as nat);
        lemma_items_begin(s, t, p + 4 + 4 * keys, (keys * dim) as nat);
    }
}

proof fn lemma_present_begins(s: Seq<u8>, t: Seq<u8>, p: int, present: bool, dim: int)
    requires
        begins(s, t),
        0 <= p <= s.len(),
        0 <= dim,
    ensures
        agrees(present_at(s, p, present, dim), present_at(t, p, present, dim), p, s.len() as int),
{
    lemma_channel_begins(s, t, p, dim);
}

/// A channel ends behind where it starts.
proof fn lemma_present_forward(t: Seq<u8>, p: int, present: bool, dim: int)
    requires
        0 <= dim,
    ensures
        present_at(t, p, present, dim) is Ok ==> p <= present_at(t, p, present, dim)->Ok_0.1,
{
    let keys = word32(t, p) as int;
    assert(keys * dim >= 0) by (nonlinear_arith)
        requires
            keys >= 0,
            dim >= 0,
    ;
}

proof fn lemma_channels_begin(s: Seq<u8>, t: Seq<u8>, p: int, path: Seq<Seq<char>>, mask: u8)
    requires
        begins(s, t),
        0 <= p <= s.len(),
    ensures
        agrees(channels_at(s, p, path, mask), channels_at(t, p, path, mask), p, s.len() as int),
{
    let a = mask & CH_T != 0;
    let b = mask & CH_R != 0;
    let c = mask & CH_S != 0;
    lemma_present_begins(s, t, p, a, 3);
    let first = present_at(t, p, a, 3);
    if first is Ok {
        let p1 = first->Ok_0.1;
        let second = present_at(t, p1, b, 4);
        lemma_present_forward(t, p1, b, 4);
        if p1 <= s.len() {
            lemma_present_begins(s, t, p1, b, 4);
        }
        if second is Ok {
            let p2 = second->Ok_0.1;
            lemma_present_forward(t, p2, c, 3);
            if p2 <= s.len() {
                lemma_present_begins(s, t, p2, c, 3);
            }
        }
    }
}

/// The channels end behind where they start.
proof fn lemma_channels_forward(t: Seq<u8>, p: int, path: Seq<Seq<char>>, mask: u8)
    ensures
        channels_at(t, p, path, mask) is Ok ==> p <= channels_at(t, p, path, mask)->Ok_0.1,
{
    let first = present_at(t, p, mask & CH_T != 0, 3);
    lemma_present_forward(t, p, mask & CH_T != 0, 3);
    if first is Ok {
        let p1 = first->Ok_0.1;
        lemma_present_forward(t, p1, mask & CH_R != 0, 4);
        let second = present_at(t, p1, mask & CH_R != 0, 4);
        if second is Ok {
            lemma_present_forward(t, second->Ok_0.1, mask & CH_S != 0, 3);
        }
    }
}

proof fn lemma_target_begins(s: Seq<u8>, t: Seq<u8>, p: int)
    requires
        begins(s, t),
        0 <= p <= s.len(),
    ensures
        agrees(target_at(s, p), target_at(t, p), p, s.len() as int),
{
    reveal(target_at);
    lemma_words_begin(s, t, p);
    if p + 2 <= s.len() {
        let k = word16(t, p) as nat;
        lemma_names_begin(s, t, p + 2, k);
        let names = names_at(t, p + 2, k);
        if names is Ok {
            let (path, q) = names->Ok_0;
            lemma_channels_forward(t, q + 1, path, t[q]);
            if q + 1 <= s.len() {
                assert(s[q] == t[q]);
                lemma_channels_begin(s, t, q + 1, path, t[q]);
            }
        }
    } else {
        lemma_target_forward(t, p);
    }
}

proof fn lemma_names_forward(t: Seq<u8>, p: int, k: nat)
    ensures
        names_at(t, p, k) is Ok ==> p <= names_at(t, p, k)->Ok_0.1,
    decreases k,
{
    if k > 0 {
        lemma_names_forward(t, p, (k - 1) as nat);
    }
}

/// A target takes two bytes at least.
proof fn lemma_target_forward(t: Seq<u8>, p: int)
    ensures
        target_at(t, p) is Ok ==> p + 2 <= target_at(t, p)->Ok_0.1,
{
    reveal(target_at);
    if p + 2 <= t.len() {
        let k = word16(t, p) as nat;
        lemma_names_forward(t, p + 2, k);
        let names = names_at(t, p + 2, k);
        if names is Ok {
            let (path, q) = names->Ok_0;
            lemma_channels_forward(t, q + 1, path, t[q]);
        }
    }
}

proof fn lemma_targets_begin(s: Seq<u8>, t: Seq<u8>, p: int, k: nat)
    requires
        begins(s, t),
        0 <= p <= s.len(),
    ensures
        agrees(targets_at(s, p, k), targets_at(t, p, k), p, s.len() as int),
    decreases k,
{
    if k > 0 {
        lemma_targets_begin(s, t, p, (k - 1) as nat);
        let front = targets_at(t, p, (k - 1) as nat);
        if front is Ok {
            let q = front->Ok_0.1;
            lemma_target_forward(t, q);
            if q <= s.len() {
                lemma_target_begins(s, t, q);
            }
        }
    }
}

/// What stands behind the last target of a clip changes nothing.
pub proof fn lemma_clip_extended(clip: Seq<u8>, more: Seq<u8>)
    requires
        clip_of(clip) is Ok,
    ensures
        clip_of(clip + more) == clip_of(clip),
{
    let t = clip + more;
    assert(begins(clip, t));
    lemma_words_begin(clip, t, 0);
    lemma_words_begin(clip, t, 8);
    lemma_targets_begin(clip, t, 12, word32(clip, 8) as nat);
}

/// The bytes are a clip, and its last target ends with the last of them.
pub open spec fn is_whole_clip(s: Seq<u8>) -> bool {
    &&& clip_of(s) is Ok
    &&& targets_at(s, 12, word32(s, 8) as nat)->Ok_0.1 == s.len()
}

/// A clip of which anything is missing is cut short: it never gives a part of its targets.
pub proof fn lemma_clip_cut(clip: Seq<u8>, n: int)
    requires
        is_whole_clip(clip),
        0 <= n < clip.len(),
    ensures
        clip_of(clip.take(n)) == Err::<Seq<TargetView>, ClipError>(ClipError::Truncated),
{
    let s = clip.take(n);
    assert(begins(s, clip));
    lemma_words_begin(s, clip, 0);
    lemma_words_begin(s, clip, 8);
    if n >= 12 {
        lemma_targets_begin(s, clip, 12, word32(clip, 8) as nat);
    }
}

// ---- writing a clip -----------------------------------------------------------------------

/// One component of a name path: the length of its UTF-8 encoding, then the encoding.
pub open spec fn name_bytes(name: Seq<char>) -> Seq<u8> {
    le16(encode_utf8(name).len() as u16) + encode_utf8(name)
}

/// The components of a name path, one after the other.
pub open spec fn path_bytes(path: Seq<Seq<char>>) -> Seq<u8>
    decreases path.len(),
{
    if path.len() == 0 {
        Seq::empty()
    } else {
        path_bytes(path.drop_last()) + name_bytes(path.last())
    }
}

/// A channel, where there is one: the number of its keys, their times, then their values.
pub open spec fn channel_bytes(c: Option<ChannelView>) -> Seq<u8> {
    match c {
        Some(c) => le32(c.times.len() as u32) + words_bytes(c.times) + words_bytes(c.values),
        None => Seq::empty(),
    }
}

/// Which channels a target has: bit 0 for the translation, bit 1 for the rotation, bit 2 for the
/// scale.
pub open spec fn mask_of(t: TargetView) -> u8 {
    ((if t.translation is Some {
        1int
    } else {
        0int
    }) + (if t.rotation is Some {
        2int
    } else {
        0int
    }) + (if t.scale is Some {
        4int
    } else {
        0int
    })) as u8
}

/// A target: the length of its path, the path, the mask of its channels, then the channels.
pub open spec fn target_bytes(t: TargetView) -> Seq<u8> {
    le16(t.path.len() as u16) + path_bytes(t.path) + seq![mask_of(t)] + channel_bytes(
        t.translation,
    ) + channel_bytes(t.rotation) + channel_bytes(t.scale)
}

/// Targets, one after the other.
pub open spec fn targets_bytes(targets: Seq<TargetView>) -> Seq<u8>
    decreases targets.len(),
{
    if targets.len() == 0 {
        Seq::empty()
    } else {
        targets_bytes(targets.drop_last()) + target_bytes(targets.last())
    }
}

/// A clip: `ANIMCLP` and a version byte, the number of its targets, then the targets.
pub open spec fn clip_bytes(targets: Seq<TargetView>) -> Seq<u8> {
    seq![0x41u8, 0x4E, 0x49, 0x4D, 0x43, 0x4C, 0x50, 0x01] + le32(targets.len() as u32)
        + targets_bytes(targets)
}

/// The channel can be written: it has `dim` numbers for each key, and its keys can be counted.
pub open spec fn channel_fits(c: Option<ChannelView>, dim: int) -> bool {
    c matches Some(c) ==> c.times.len() <= u32::MAX && c.values.len() == dim * c.times.len()
}

/// The target can be written: its path and each name of it can be counted, and so can the keys of
/// its channels.
pub open spec fn target_fits(t: TargetView) -> bool {
    &&& t.path.len() <= u16::MAX
    &&& forall|i: int|
        0 <= i < t.path.len() ==> encode_utf8(#[trigger] t.path[i]).len() <= u16::MAX
    &&& channel_fits(t.translation, 3)
    &&& channel_fits(t.rotation, 4)
    &&& channel_fits(t.scale, 3)
}

/// The bytes stand in `s` from `p` on.
#[verifier::opaque]
pub open spec fn stands_at(s: Seq<u8>, p: int, bytes: Seq<u8>) -> bool {
    &&& 0 <= p
    &&& p + bytes.len() <= s.len()
    &&& forall|i: int| 0 <= i < bytes.len() ==> s[p + i] == #[trigger] bytes[i]
}

/// Where two runs of bytes stand together, each of them stands.
proof fn lemma_stand_apart(s: Seq<u8>, p: int, a: Seq<u8>, b: Seq<u8>)
    requires
        stands_at(s, p, a + b),
    ensures
        stands_at(s, p, a),
        stands_at(s, p + a.len(), b),
        0 <= p,
        p + a.len() + b.len() <= s.len(),
{
    reveal(stands_at);
    assert forall|i: int| 0 <= i < a.len() implies s[p + i] == #[trigger] a[i] by {
        assert((a + b)[i] == a[i]);
    }
    assert forall|i: int| 0 <= i < b.len() implies s[p + a.len() + i] == #[trigger] b[i] by {
        assert((a + b)[a.len() + i] == b[i]);
        assert(s[p + (a.len() + i)] == (a + b)[a.len() + i]);
    }
}

proof fn lemma_word16_stands(s: Seq<u8>, p: int, x: u16)
    requires
        stands_at(s, p, le16(x)),
    ensures
        word16(s, p) == x,
{
    reveal(stands_at);
    lemma_word16_of_le16(x);
    assert(s[p + 0] == le16(x)[0]);
    assert(s[p + 1] == le16(x)[1]);
}

proof fn lemma_word32_stands(s: Seq<u8>, p: int, x: u32)
    requires
        stands_at(s, p, le32(x)),
    ensures
        word32(s, p) == x,
{
    reveal(stands_at);
    lemma_word32_of_le32(x);
    assert(s[p + 0] == le32(x)[0]);
    assert(s[p + 1] == le32(x)[1]);
    assert(s[p + 2] == le32(x)[2]);
    assert(s[p + 3] == le32(x)[3]);
}

proof fn lemma_numbers_stand(s: Seq<u8>, p: int, ws: Seq<u32>)
    requires
        stands_at(s, p, words_bytes(ws)),
    ensures
        words_bytes(ws).len() == 4 * ws.len(),
        items_at::<u32>(s, p, ws.len()) == ws,
{
    reveal(stands_at);
    lemma_words_bytes_len(ws);
    assert(s.subrange(p, p + 4 * ws.len()) =~= words_bytes(ws));
    lemma_words_at(s, p, ws);
    let items = items_at::<u32>(s, p, ws.len());
    assert forall|k: int| 0 <= k < ws.len() implies #[trigger] items[k] == ws[k] by {
        assert(words_at(s, p, ws.len())[k] == ws[k]);
        assert(words_at(s, p + 4 * k, 1)[0] == word32(s, p + 4 * k));
        assert(4 * <u32 as Record>::count() * k == 4 * k) by {
            assert(<u32 as Record>::count() == 1);
        }
    }
    assert(items =~= ws);
}

proof fn lemma_name_stands(s: Seq<u8>, p: int, name: Seq<char>)
    requires
        encode_utf8(name).len() <= u16::MAX,
        stands_at(s, p, name_bytes(name)),
    ensures
        name_at(s, p) == Ok::<(Seq<char>, int), ClipError>((name, p + name_bytes(name).len())),
{
    let text = encode_utf8(name);
    let n = text.len() as u16;
    lemma_word16_of_le16(n);
    lemma_stand_apart(s, p, le16(n), text);
    lemma_word16_stands(s, p, n);
    assert(s.subrange(p + 2, p + 2 + n) =~= text) by {
        reveal(stands_at);
        assert forall|i: int| 0 <= i < text.len() implies s.subrange(p + 2, p + 2 + n)[i]
            == text[i] by {
            assert(s[p + 2 + i] == text[i]);
        }
    }
    encode_utf8_valid_utf8(name);
    encode_utf8_decode_utf8(name);
}

proof fn lemma_path_stands(s: Seq<u8>, p: int, path: Seq<Seq<char>>)
    requires
        forall|i: int| 0 <= i < path.len() ==> encode_utf8(#[trigger] path[i]).len() <= u16::MAX,
        stands_at(s, p, path_bytes(path)),
    ensures
        names_at(s, p, path.len()) == Ok::<(Seq<Seq<char>>, int), ClipError>(
            (path, p + path_bytes(path).len()),
        ),
    decreases path.len(),
{
    if path.len() == 0 {
        assert(path =~= Seq::<Seq<char>>::empty());
    } else {
        let front = path.drop_last();
        assert(path[path.len() - 1] == path.last());
        assert forall|i: int| 0 <= i < front.len() implies encode_utf8(#[trigger] front[i]).len()
            <= u16::MAX by {
            assert(front[i] == path[i]);
        }
        lemma_stand_apart(s, p, path_bytes(front), name_bytes(path.last()));
        lemma_path_stands(s, p, front);
        lemma_name_stands(s, p + path_bytes(front).len(), path.last());
        assert(front.push(path.last()) =~= path);
    }
}

proof fn lemma_channel_stands(s: Seq<u8>, p: int, c: Option<ChannelView>, dim: int)
    requires
        0 <= p <= s.len(),
        channel_fits(c, dim),
        stands_at(s, p, channel_bytes(c)),
    ensures
        present_at(s, p, c is Some, dim) == Ok::<(Option<ChannelView>, int), ClipError>(
            (c, p + channel_bytes(c).len()),
        ),
{
    if let Some(channel) = c {
        let n = channel.times.len() as u32;
        let count = le32(n);
        let times = words_bytes(channel.times);
        let values = words_bytes(channel.values);
        lemma_word32_of_le32(n);
        lemma_stand_apart(s, p, count + times, values);
        lemma_stand_apart(s, p, count, times);
        lemma_word32_stands(s, p, n);
        lemma_numbers_stand(s, p + 4, channel.times);
        lemma_numbers_stand(s, p + 4 + 4 * n, channel.values);
        vstd::arithmetic::mul::lemma_mul_is_commutative(dim, n as int);
    }
}

/// The three channels of a target, one after the other.
spec fn own_channels(t: TargetView) -> Seq<u8> {
    channel_bytes(t.translation) + channel_bytes(t.rotation) + channel_bytes(t.scale)
}

proof fn lemma_channels_stand(s: Seq<u8>, p: int, t: TargetView)
    requires
        channel_fits(t.translation, 3),
        channel_fits(t.rotation, 4),
        channel_fits(t.scale, 3),
        stands_at(s, p, own_channels(t)),
    ensures
        channels_at(s, p, t.path, mask_of(t)) == Ok::<(TargetView, int), ClipError>(
            (t, p + own_channels(t).len()),
        ),
{
    let a = channel_bytes(t.translation);
    let b = channel_bytes(t.rotation);
    let c = channel_bytes(t.scale);
    lemma_stand_apart(s, p, a + b, c);
    lemma_stand_apart(s, p, a, b);
    lemma_mask(mask_of(t));
    lemma_channel_stands(s, p, t.translation, 3);
    lemma_channel_stands(s, p + a.len(), t.rotation, 4);
    lemma_channel_stands(s, p + a.len() + b.len(), t.scale, 3);
}

proof fn lemma_target_stands(s: Seq<u8>, p: int, t: TargetView)
    requires
        target_fits(t),
        stands_at(s, p, target_bytes(t)),
    ensures
        target_at(s, p) == Ok::<(TargetView, int), ClipError>((t, p + target_bytes(t).len())),
{
    let n = t.path.len() as u16;
    let mask = mask_of(t);
    let names = path_bytes(t.path);
    let rest = own_channels(t);
    let head = le16(n) + names;
    let q = p + 2 + names.len();
    lemma_word16_of_le16(n);
    assert(target_bytes(t) =~= head + seq![mask] + rest);
    lemma_stand_apart(s, p, head + seq![mask], rest);
    lemma_stand_apart(s, p, head, seq![mask]);
    lemma_stand_apart(s, p, le16(n), names);
    lemma_word16_stands(s, p, n);
    lemma_path_stands(s, p + 2, t.path);
    assert(s[q] == mask) by {
        reveal(stands_at);
        assert(s[q + 0] == seq![mask][0]);
    }
    lemma_channels_stand(s, q + 1, t);
    assert(target_at(s, p) == channels_at(s, q + 1, t.path, mask)) by {
        reveal(target_at);
    }
}

proof fn lemma_mask(mask: u8)
    ensures
        mask & CH_T != 0 <==> mask % 2 == 1,
        mask & CH_R != 0 <==> mask / 2 % 2 == 1,
        mask & CH_S != 0 <==> mask / 4 % 2 == 1,
{
    assert((mask & 1 != 0) == (mask % 2 == 1) && (mask & 2 != 0) == (mask / 2 % 2 == 1) && (mask & 4
        != 0) == (mask / 4 % 2 == 1)) by (bit_vector);
}

proof fn lemma_targets_stand(s: Seq<u8>, p: int, targets: Seq<TargetView>)
    requires
        forall|i: int| 0 <= i < targets.len() ==> target_fits(#[trigger] targets[i]),
        stands_at(s, p, targets_bytes(targets)),
    ensures
        targets_at(s, p, targets.len()) == Ok::<(Seq<TargetView>, int), ClipError>(
            (targets, p + targets_bytes(targets).len()),
        ),
    decreases targets.len(),
{
    if targets.len() == 0 {
        assert(targets =~= Seq::<TargetView>::empty());
    } else {
        let front = targets.drop_last();
        assert(targets[targets.len() - 1] == targets.last());
        assert forall|i: int| 0 <= i < front.len() implies target_fits(#[trigger] front[i]) by {
            assert(front[i] == targets[i]);
        }
        lemma_stand_apart(s, p, targets_bytes(front), target_bytes(targets.last()));
        lemma_targets_stand(s, p, front);
        lemma_target_stands(s, p + targets_bytes(front).len(), targets.last());
        assert(front.push(targets.last()) =~= targets);
    }
}

/// A clip that was written reads back as the targets that were written, whatever stands behind
/// it.
pub proof fn lemma_clip_round_trip(targets: Seq<TargetView>, more: Seq<u8>)
    requires
        targets.len() <= u32::MAX,
        forall|i: int| 0 <= i < targets.len() ==> target_fits(#[trigger] targets[i]),
    ensures
        clip_of(clip_bytes(targets) + more) == Ok::<Seq<TargetView>, ClipError>(targets),
{
    let magic = seq![0x41u8, 0x4E, 0x49, 0x4D, 0x43, 0x4C, 0x50, 0x01];
    let s = clip_bytes(targets) + more;
    let n = targets.len() as u32;
    lemma_word32_of_le32(n);
    assert(stands_at(s, 0, clip_bytes(targets))) by {
        reveal(stands_at);
    }
    lemma_stand_apart(s, 0, magic + le32(n), targets_bytes(targets));
    lemma_stand_apart(s, 0, magic, le32(n));
    lemma_word32_stands(s, 8, n);
    assert forall|i: int| 0 <= i < 8 implies #[trigger] s[i] == magic[i] by {
        reveal(stands_at);
        assert(s[0 + i] == magic[i]);
    }
    assert(word32(s, 0) == 0x4D49_4E41);
    assert(word32(s, 4) == 0x0150_4C43);
    lemma_targets_stand(s, 12, targets);
}

/// Whatever the bytes, a target has a translation, a rotation and a scale exactly where bits 0, 1
/// and 2 of the mask behind its path are set, and its path has as many names as it says.
pub proof fn lemma_mask_says(s: Seq<u8>, p: int)
    requires
        target_at(s, p) is Ok,
    ensures
        ({
            let t = target_at(s, p)->Ok_0.0;
            let names = names_at(s, p + 2, word16(s, p) as nat);
            &&& names is Ok
            &&& t.path == names->Ok_0.0
            &&& t.translation is Some <==> s[names->Ok_0.1] % 2 == 1
            &&& t.rotation is Some <==> s[names->Ok_0.1] / 2 % 2 == 1
            &&& t.scale is Some <==> s[names->Ok_0.1] / 4 % 2 == 1
        }),
{
    reveal(target_at);
    let names = names_at(s, p + 2, word16(s, p) as nat);
    lemma_mask(s[names->Ok_0.1]);
}

/// The curve that a channel becomes.
#[derive(Clone, Copy, Debug, PartialEq, Eq, Structural)]
pub enum CurveKind {
    /// No key, no curve.
    Nothing,
    /// A single key holds everywhere.
    Constant,
    /// Linear between the keys.
    Sampled,
}

/// The curve that a channel with so many keys becomes.
pub open spec fn curve_kind(keys: nat) -> CurveKind {
    if keys == 0 {
        CurveKind::Nothing
    } else if keys == 1 {
        CurveKind::Constant
    } else {
        CurveKind::Sampled
    }
}

/// The points of a channel with three numbers for each key; numbers left over make no point.
pub open spec fn points3_of(values: Seq<u32>) -> Seq<Vec3> {
    Seq::new(
        values.len() / 3,
        |i: int| Vec3 { x: values[3 * i], y: values[3 * i + 1], z: values[3 * i + 2] },
    )
}

/// The points of a channel with four numbers for each key; numbers left over make no point.
pub open spec fn points4_of(values: Seq<u32>) -> Seq<Vec4> {
    Seq::new(
        values.len() / 4,
        |i: int|
            Vec4 {
                x: values[4 * i],
                y: values[4 * i + 1],
                z: values[4 * i + 2],
                w: values[4 * i + 3],
            },
    )
}

/// Every channel has one point for each key.
pub open spec fn is_keyed(t: TargetView) -> bool {
    &&& t.translation is Some ==> points3_of(t.translation->0.values).len()
        == t.translation->0.times.len()
    &&& t.rotation is Some ==> points4_of(t.rotation->0.values).len()
        == t.rotation->0.times.len()
    &&& t.scale is Some ==> points3_of(t.scale->0.values).len() == t.scale->0.times.len()
}

proof fn lemma_targets_keyed(s: Seq<u8>, p: int, k: nat, i: int)
    requires
        targets_at(s, p, k) is Ok,
        0 <= i < targets_at(s, p, k)->Ok_0.0.len(),
    ensures
        is_keyed(targets_at(s, p, k)->Ok_0.0[i]),
    decreases k,
{
    let front = targets_at(s, p, (k - 1) as nat);
    if i < front->Ok_0.0.len() {
        lemma_targets_keyed(s, p, (k - 1) as nat, i);
    } else {
        reveal(target_at);
    }
}

/// The channels of a clip have one point for each key.
pub proof fn lemma_point_for_each_key(clip: Seq<u8>, i: int)
    requires
        clip_of(clip) is Ok,
        0 <= i < clip_of(clip)->Ok_0.len(),
    ensures
        is_keyed(clip_of(clip)->Ok_0[i]),
{
    lemma_targets_keyed(clip, 12, word32(clip, 8) as nat, i);
}

impl Channel {
    /// The curve that the channel becomes, by the number of its keys.
    pub fn kind(&self) -> (r: CurveKind)
        ensures
            r == curve_kind(self.times@.len()),
    {
        if self.times.len() == 0 {
            CurveKind::Nothing
        } else if self.times.len() == 1 {
            CurveKind::Constant
        } else {
            CurveKind::Sampled
        }
    }

    /// The points of a translation or a scale, one for each key.
    pub fn points3(&self) -> (r: Vec<Vec3>)
        ensures
            r@ == points3_of(self.values@),
    {
        let n: usize = self.values.len() / 3;
        let mut r: Vec<Vec3> = Vec::new();
        let mut i: usize = 0;
        while i < n
            invariant
                i <= n,
                n == self.values@.len() / 3,
                r@ == points3_of(self.values@).take(i as int),
            decreases n - i,
        {
            assert(self.values.len() <= usize::MAX);
            let at: usize = 3 * i;
            r.push(Vec3 { x: self.values[at], y: self.values[at + 1], z: self.values[at + 2] });
            i = i + 1;
            assert(r@ =~= points3_of(self.values@).take(i as int));
        }
        assert(points3_of(self.values@).take(i as int) =~= points3_of(self.values@));
        r
    }

    /// The points of a rotation, one for each key.
    pub fn points4(&self) -> (r: Vec<Vec4>)
        ensures
            r@ == points4_of(self.values@),
    {
        let n: usize = self.values.len() / 4;
        let mut r: Vec<Vec4> = Vec::new();
        let mut i: usize = 0;
        while i < n
            invariant
                i <= n,
                n == self.values@.len() / 4,
                r@ == points4_of(self.values@).take(i as int),
            decreases n - i,
        {
            assert(self.values.len() <= usize::MAX);
            let at: usize = 4 * i;
            r.push(
                Vec4 {
                    x: self.values[at],
                    y: self.values[at + 1],
                    z: self.values[at + 2],
                    w: self.values[at + 3],
                },
            );
            i = i + 1;
            assert(r@ =~= points4_of(self.values@).take(i as int));
        }
        assert(points4_of(self.values@).take(i as int) =~= points4_of(self.values@));
        r
    }
}

} // verus!
