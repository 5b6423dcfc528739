//! Comparing and composing text.

use vstd::arithmetic::div_mod::lemma_small_mod;
use vstd::prelude::*;
use vstd::string::*;

verus! {

/// Whether two texts have the same characters.
pub fn same_text(a: &str, b: &str) -> (r: bool)
    ensures
        r == (a@ == b@),
{
    let n: usize = a.unicode_len();
    if n != b.unicode_len() {
        return false;
    }
    let mut i: usize = 0;
    while i < n
        invariant
            i <= n,
            n == a@.len(),
            n == b@.len(),
            forall|j: int| 0 <= j < i ==> a@[j] == b@[j],
        decreases n - i,
    {
        if a.get_char(i) != b.get_char(i) {
            return false;
        }
        i = i + 1;
    }
    assert(a@ =~= b@);
    true
}

/// The characters of a text.
pub fn chars_of(s: &str) -> (r: Vec<char>)
    ensures
        r@ == s@,
{
    let n: usize = s.unicode_len();
    let mut r: Vec<char> = Vec::new();
    let mut i: usize = 0;
    while i < n
        invariant
            i <= n,
            n == s@.len(),
            r@ == s@.take(i as int),
        decreases n - i,
    {
        r.push(s.get_char(i));
        assert(r@ =~= s@.take(i + 1));
        i = i + 1;
    }
    assert(s@.take(i as int) =~= s@);
    r
}

/// Whether characters are those of a text.
pub fn same_chars(a: &Vec<char>, b: &str) -> (r: bool)
    ensures
        r == (a@ == b@),
{
    let n: usize = a.len();
    if n != b.unicode_len() {
        return false;
    }
    let mut i: usize = 0;
    while i < n
        invariant
            i <= n,
            n == a@.len(),
            n == b@.len(),
            forall|j: int| 0 <= j < i ==> a@[j] == b@[j],
        decreases n - i,
    {
        if a[i] != b.get_char(i) {
            return false;
        }
        i = i + 1;
    }
    assert(a@ =~= b@);
    true
}

/// The character of one hexadecimal digit.
pub open spec fn digit_char(d: int) -> char {
    if d == 0 {
        '0'
    } else if d == 1 {
        '1'
    } else if d == 2 {
        '2'
    } else if d == 3 {
        '3'
    } else if d == 4 {
        '4'
    } else if d == 5 {
        '5'
    } else if d == 6 {
        '6'
    } else if d == 7 {
        '7'
    } else if d == 8 {
        '8'
    } else if d == 9 {
        '9'
    } else if d == 10 {
        'a'
    } else if d == 11 {
        'b'
    } else if d == 12 {
        'c'
    } else if d == 13 {
        'd'
    } else if d == 14 {
        'e'
    } else {
        'f'
    }
}

/// A number in base `base`, most significant digit first, without leading zeros.
pub open spec fn numeral(n: nat, base: nat) -> Seq<char>
    decreases n,
    via numeral_shrinks
{
    if base < 2 || n < base {
        seq![digit_char(n as int)]
    } else {
        numeral(n / base, base).push(digit_char((n % base) as int))
    }
}

#[via_fn]
proof fn numeral_shrinks(n: nat, base: nat) {
    if !(base < 2 || n < base) {
        assert(n / base < n) by (nonlinear_arith)
            requires
                n >= base,
                base >= 2,
        ;
    }
}

fn digit_text(d: u64) -> (r: &'static str)
    requires
        d < 16,
    ensures
        r@ == seq![digit_char(d as int)],
{
    proof {
        reveal_strlit("0");
        reveal_strlit("1");
        reveal_strlit("2");
        reveal_strlit("3");
        reveal_strlit("4");
        reveal_strlit("5");
        reveal_strlit("6");
        reveal_strlit("7");
        reveal_strlit("8");
        reveal_strlit("9");
        reveal_strlit("a");
        reveal_strlit("b");
        reveal_strlit("c");
        reveal_strlit("d");
        reveal_strlit("e");
        reveal_strlit("f");
    }
    let r: &'static str = if d == 0 {
        "0"
    } else if d == 1 {
        "1"
    } else if d == 2 {
        "2"
    } else if d == 3 {
        "3"
    } else if d == 4 {
        "4"
    } else if d == 5 {
        "5"
    } else if d == 6 {
        "6"
    } else if d == 7 {
        "7"
    } else if d == 8 {
        "8"
    } else if d == 9 {
        "9"
    } else if d == 10 {
        "a"
    } else if d == 11 {
        "b"
    } else if d == 12 {
        "c"
    } else if d == 13 {
        "d"
    } else if d == 14 {
        "e"
    } else {
        "f"
    };
    assert(r@ =~= seq![digit_char(d as int)]);
    r
}

/// Appends a number in base `base`.
pub fn append_number(out: &mut String, n: u64, base: u64)
    requires
        2 <= base <= 16,
    ensures
        final(out)@ == old(out)@ + numeral(n as nat, base as nat),
    decreases n,
{
    if n >= base {
        proof {
            assert(n / base < n) by (nonlinear_arith)
                requires
                    n >= base,
                    base >= 2,
            ;
            assert(n % base < base) by (nonlinear_arith)
                requires
                    base >= 2,
            ;
        }
        append_number(out, n / base, base);
        let ghost mid = out@;
        out.append(digit_text(n % base));
        assert(out@ =~= old(out)@ + numeral(n as nat, base as nat));
    } else {
        out.append(digit_text(n));
        assert(out@ =~= old(out)@ + numeral(n as nat, base as nat));
    }
}

/// A number in base ten.
pub open spec fn decimal(n: nat) -> Seq<char> {
    numeral(n, 10)
}

/// A number in base sixteen, marked as such.
pub open spec fn hex(n: nat) -> Seq<char> {
    "0x"@ + numeral(n, 16)
}

proof fn lemma_digits_differ(a: int, b: int)
    requires
        0 <= a < 16,
        0 <= b < 16,
        digit_char(a) == digit_char(b),
    ensures
        a == b,
{
}

/// Different numbers are written differently.
pub proof fn lemma_numerals_differ(a: nat, b: nat, base: nat)
    requires
        2 <= base <= 16,
        numeral(a, base) == numeral(b, base),
    ensures
        a == b,
    decreases a,
{
    assert(numeral(a, base).last() == digit_char((a % base) as int)) by {
        if a < base {
            lemma_small_mod(a, base);
        }
    }
    assert(numeral(b, base).last() == digit_char((b % base) as int)) by {
        if b < base {
            lemma_small_mod(b, base);
        }
    }
    lemma_mod_below(a, base);
    lemma_mod_below(b, base);
    lemma_digits_differ((a % base) as int, (b % base) as int);
    lemma_numeral_len(a, base);
    lemma_numeral_len(b, base);
    if a < base {
        lemma_small_mod(a, base);
        if b >= base {
            lemma_numeral_len(b / base, base);
        } else {
            lemma_small_mod(b, base);
        }
    } else {
        lemma_numeral_len(a / base, base);
        if b < base {
            lemma_small_mod(b, base);
        } else {
            assert(a / base < a) by (nonlinear_arith)
                requires
                    a >= base,
                    base >= 2,
            ;
            assert(numeral(a, base).drop_last() =~= numeral(a / base, base));
            assert(numeral(b, base).drop_last() =~= numeral(b / base, base));
            lemma_numerals_differ(a / base, b / base, base);
            lemma_div_mod(a, base);
            lemma_div_mod(b, base);
        }
    }
}

proof fn lemma_numeral_len(n: nat, base: nat)
    ensures
        numeral(n, base).len() >= 1,
{
}

proof fn lemma_mod_below(n: nat, base: nat)
    requires
        base > 0,
    ensures
        0 <= n % base < base,
{
    assert(0 <= n % base < base) by (nonlinear_arith)
        requires
            base > 0,
    ;
}

proof fn lemma_div_mod(n: nat, base: nat)
    requires
        base > 0,
    ensures
        n == (n / base) * base + n % base,
{
    assert(n == (n / base) * base + n % base) by (nonlinear_arith)
        requires
            base > 0,
    ;
}

/// What stands between the same beginning and the same end is the same.
pub proof fn lemma_between(front: Seq<char>, a: Seq<char>, b: Seq<char>, back: Seq<char>)
    requires
        front + a + back == front + b + back,
    ensures
        a == b,
{
    let x = front + a + back;
    assert(x.len() == (front + b + back).len());
    assert(a =~= x.subrange(front.len() as int, (front.len() + a.len()) as int));
    assert(b =~= x.subrange(front.len() as int, (front.len() + a.len()) as int));
}

} // verus!
