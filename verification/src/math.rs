//! Small integer helpers.

use vstd::prelude::*;

verus! {

/// The first of `p`, `2p`, `4p`, .. that is no less than `n`.
pub open spec fn doubled_to(p: nat, n: nat) -> nat
    decreases if n > p { n - p } else { 0 },
{
    if p >= n || p == 0 {
        p
    } else {
        doubled_to(2 * p, n)
    }
}

/// The smallest power of two that is no less than `n`.
pub open spec fn power_of_two_from(n: nat) -> nat {
    doubled_to(1, n)
}

/// `p` is a power of two.
pub open spec fn is_power_of_two(p: nat) -> bool
    decreases p,
{
    p == 1 || (p > 1 && p % 2 == 0 && is_power_of_two(p / 2))
}

proof fn lemma_doubled(p: nat, n: nat)
    requires
        is_power_of_two(p),
    ensures
        is_power_of_two(doubled_to(p, n)),
        doubled_to(p, n) >= n,
        doubled_to(p, n) >= p,
        p < n ==> doubled_to(p, n) < 2 * n,
    decreases if n > p { n - p } else { 0 },
{
    if p < n {
        assert(2 * p / 2 == p);
        lemma_doubled(2 * p, n);
    }
}

/// What [`power_of_two_from`] gives is a power of two, no less than `n`, and less than twice
/// as much.
pub proof fn lemma_power_of_two(n: nat)
    ensures
        is_power_of_two(power_of_two_from(n)),
        power_of_two_from(n) >= n,
        power_of_two_from(n) >= 1,
        n > 1 ==> power_of_two_from(n) < 2 * n,
{
    lemma_doubled(1, n);
}

proof fn lemma_doubled_monotone(p: nat, n: nat, m: nat)
    requires
        n <= m,
        p > 0,
    ensures
        doubled_to(p, n) <= doubled_to(p, m),
    decreases if m > p { m - p } else { 0 },
{
    if p < n {
        lemma_doubled_monotone(2 * p, n, m);
    } else if p < m {
        lemma_doubled_at_least(2 * p, m);
    }
}

proof fn lemma_doubled_at_least(p: nat, n: nat)
    ensures
        doubled_to(p, n) >= p,
    decreases if n > p { n - p } else { 0 },
{
    if p < n && p != 0 {
        lemma_doubled_at_least(2 * p, n);
    }
}

/// A power of two is its own next power of two.
proof fn lemma_doubled_exact(p: nat, k: nat, n: nat)
    requires
        p > 0,
        n == p * k,
        is_power_of_two(k),
    ensures
        doubled_to(p, n) == n,
    decreases k,
{
    if k > 1 {
        let h = k / 2;
        assert(n == (2 * p) * h) by (nonlinear_arith)
            requires
                n == p * k,
                k == 2 * h,
        ;
        assert(p < n) by (nonlinear_arith)
            requires
                n == p * k,
                k > 1,
                p > 0,
        ;
        lemma_doubled_exact(2 * p, h, n);
    } else {
        assert(n == p) by (nonlinear_arith)
            requires
                n == p * k,
                k == 1,
        ;
    }
}

/// A power of two that is no less than `n` is no less than the smallest one.
pub proof fn lemma_power_of_two_le(n: nat, p: nat)
    requires
        n <= p,
        is_power_of_two(p),
    ensures
        power_of_two_from(n) <= p,
{
    lemma_doubled_monotone(1, n, p);
    lemma_doubled_exact(1, p, p);
}

/// Up to the largest power of two that a word of 64 bits holds, the next power of two fits.
proof fn lemma_power_of_two_fits(n: nat)
    requires
        n <= 0x8000_0000_0000_0000,
    ensures
        power_of_two_from(n) <= 0x8000_0000_0000_0000,
{
    assert(is_power_of_two(0x8000_0000_0000_0000)) by {
        reveal_with_fuel(is_power_of_two, 65);
    }
    lemma_power_of_two_le(n, 0x8000_0000_0000_0000);
}

/// The smallest power of two that is no less than `n`.
pub fn next_power_of_two(n: u64) -> (r: u64)
    requires
        n <= 0x8000_0000_0000_0000,
    ensures
        r == power_of_two_from(n as nat),
        r >= n,
        r <= 0x8000_0000_0000_0000,
{
    proof {
        lemma_power_of_two_fits(n as nat);
        lemma_power_of_two(n as nat);
    }
    let mut p: u64 = 1;
    while p < n
        invariant
            p > 0,
            doubled_to(p as nat, n as nat) == power_of_two_from(n as nat),
            power_of_two_from(n as nat) <= 0x8000_0000_0000_0000,
        decreases if n > p { n - p } else { 0 },
    {
        proof {
            lemma_doubled_at_least(2 * p as nat, n as nat);
        }
        p = 2 * p;
    }
    p
}

/// `size` rounded up to a multiple of `alignment`.
pub open spec fn aligned(size: int, alignment: int) -> int {
    (size + alignment - 1) / alignment * alignment
}

/// What was rounded up is the least multiple that is not below what it was.
pub proof fn lemma_aligned(size: int, alignment: int)
    requires
        alignment > 0,
    ensures
        size <= aligned(size, alignment) < size + alignment,
        aligned(size, alignment) % alignment == 0,
{
    let t = size + alignment - 1;
    vstd::arithmetic::div_mod::lemma_fundamental_div_mod(t, alignment);
    vstd::arithmetic::mul::lemma_mul_is_commutative(alignment, t / alignment);
    vstd::arithmetic::div_mod::lemma_mod_multiples_basic(t / alignment, alignment);
}

/// `size` rounded up to a multiple of `alignment`.
pub fn aligned_size(size: u64, alignment: u64) -> (r: u64)
    requires
        alignment > 0,
        size + alignment - 1 <= u64::MAX,
    ensures
        r == aligned(size as int, alignment as int),
        size <= r < size + alignment,
        r as int % alignment as int == 0,
{
    let q: u64 = (size + (alignment - 1)) / alignment;
    proof {
        let s = size as int;
        let a = alignment as int;
        let t = s + a - 1;
        vstd::arithmetic::div_mod::lemma_fundamental_div_mod(t, a);
        assert(q as int == t / a);
        assert(a * (t / a) == q as int * a) by (nonlinear_arith)
            requires
                q as int == t / a,
        ;
        assert(0 <= t % a < a) by (nonlinear_arith)
            requires
                a > 0,
        ;
        vstd::arithmetic::div_mod::lemma_mod_multiples_basic(q as int, a);
    }
    q * alignment
}

} // verus!
