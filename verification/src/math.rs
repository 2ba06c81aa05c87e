//! Powers of two: recognising them and rounding up to the next one.

use vstd::prelude::*;
use vstd::arithmetic::div_mod::{lemma_fundamental_div_mod, lemma_mod_multiples_basic};
use vstd::arithmetic::power::pow;
use vstd::arithmetic::power2::{
    is_pow2, is_pow2_equiv, lemma_pow2, lemma_pow2_pos, lemma_pow2_strictly_increases,
    lemma_pow2_unfold, pow2,
};
use vstd::arithmetic::logarithm::{lemma_log0, lemma_log_nonnegative, lemma_log_pow, lemma_log_s, log};

verus! {

/// `r` is the smallest power of two that is at least `v`.
pub open spec fn is_next_power_of_2(v: int, r: int) -> bool {
    &&& is_pow2(r)
    &&& v <= r
    &&& forall|p: int| is_pow2(p) && v <= p ==> r <= p
}

/// The smallest power of two that is at least `v`; 1 for every `v <= 1`.
pub open spec fn spec_next_power_of_2(v: int) -> int {
    if v <= 1 {
        1
    } else {
        pow2((log(2, v - 1) + 1) as nat) as int
    }
}

/// `2^e` is a power of two.
pub proof fn lemma_pow2_is_pow2(e: nat)
    ensures
        is_pow2(pow2(e) as int),
{
    lemma_pow2(e);
    is_pow2_equiv(pow2(e) as int);
    assert(pow(2, e) == pow2(e) as int);
}

/// Every power of two is `2^e` for `e` its logarithm.
pub proof fn lemma_is_pow2_log(p: int)
    requires
        is_pow2(p),
    ensures
        log(2, p) >= 0,
        p == pow2(log(2, p) as nat),
{
    is_pow2_equiv(p);
    let e = choose|e: nat| pow(2, e) == p;
    lemma_log_pow(2, e);
    lemma_pow2(e);
}

/// `2^a <= 2^b` exactly when `a <= b`.
pub proof fn lemma_pow2_order(a: nat, b: nat)
    ensures
        a <= b <==> pow2(a) <= pow2(b),
{
    if a < b {
        lemma_pow2_strictly_increases(a, b);
    } else if b < a {
        lemma_pow2_strictly_increases(b, a);
    }
}

/// The logarithm of `x` brackets it between two neighbouring powers of two.
pub proof fn lemma_log_brackets(x: int)
    requires
        x >= 1,
    ensures
        log(2, x) >= 0,
        pow2(log(2, x) as nat) <= x < pow2((log(2, x) + 1) as nat),
    decreases x,
{
    lemma_log_nonnegative(2, x);
    if x < 2 {
        lemma_log0(2, x);
        lemma_pow2_unfold(1);
        assert(pow2(0) == 1) by {
            lemma_pow2(0);
            reveal(pow);
        }
    } else {
        lemma_log_s(2, x);
        lemma_log_brackets(x / 2);
        let e = log(2, x / 2);
        lemma_pow2_unfold((e + 1) as nat);
        lemma_pow2_unfold((e + 2) as nat);
    }
}

/// Two powers of two with `p` above half of `q` satisfy `p >= q`.
pub proof fn lemma_pow2_gap(p: int, q: int)
    requires
        is_pow2(p),
        is_pow2(q),
        q == 1 || p > q / 2,
    ensures
        p >= q,
{
    lemma_is_pow2_log(p);
    lemma_is_pow2_log(q);
    let a = log(2, p) as nat;
    let b = log(2, q) as nat;
    lemma_pow2_pos(a);
    if b >= 1 {
        lemma_pow2_unfold(b);
        lemma_pow2_order(a, (b - 1) as nat);
        lemma_pow2_order(b, a);
    } else {
        assert(pow2(0) == 1) by {
            lemma_pow2(0);
            reveal(pow);
        }
    }
}

/// A power of two at least `v` whose half lies below `v` is the smallest one.
pub proof fn lemma_tight_is_next(v: int, r: int)
    requires
        is_pow2(r),
        v <= r,
        r == 1 || r / 2 < v,
    ensures
        is_next_power_of_2(v, r),
{
    assert forall|p: int| is_pow2(p) && v <= p implies r <= p by {
        lemma_pow2_gap(p, r);
    }
}

/// `spec_next_power_of_2(v)` is the smallest power of two that is at least `v`,
/// and no other number is.
pub proof fn lemma_next_power_of_2(v: int)
    ensures
        is_next_power_of_2(v, spec_next_power_of_2(v)),
        forall|r: int| is_next_power_of_2(v, r) ==> r == spec_next_power_of_2(v),
{
    let n = spec_next_power_of_2(v);
    if v <= 1 {
        lemma_pow2_is_pow2(0);
        assert(pow2(0) == 1) by {
            lemma_pow2(0);
            reveal(pow);
        }
        lemma_tight_is_next(v, 1);
    } else {
        lemma_log_brackets(v - 1);
        let e = (log(2, v - 1) + 1) as nat;
        lemma_pow2_is_pow2(e);
        lemma_pow2_unfold(e);
        lemma_tight_is_next(v, n);
    }
    assert forall|r: int| is_next_power_of_2(v, r) implies r == n by {
        assert(r <= n);
        assert(n <= r);
    }
}

/// Rounding up to a power of two is monotone.
pub proof fn lemma_next_power_of_2_monotone(v1: int, v2: int)
    requires
        v1 <= v2,
    ensures
        spec_next_power_of_2(v1) <= spec_next_power_of_2(v2),
{
    lemma_next_power_of_2(v1);
    lemma_next_power_of_2(v2);
}

/// A multiple of a multiple of `d` is a multiple of `d`.
pub proof fn lemma_multiple_of_multiple(x: int, m: int, d: int)
    requires
        m > 0,
        d > 0,
        x % m == 0,
        m % d == 0,
    ensures
        x % d == 0,
{
    lemma_fundamental_div_mod(x, m);
    lemma_fundamental_div_mod(m, d);
    let a = x / m;
    let b = m / d;
    assert(x == (a * b) * d) by (nonlinear_arith)
        requires
            x == m * a,
            m == d * b,
    ;
    lemma_mod_multiples_basic(a * b, d);
}

/// The sum of two multiples of `d` is a multiple of `d`.
pub proof fn lemma_sum_of_multiples(x: int, y: int, d: int)
    requires
        d > 0,
        x % d == 0,
        y % d == 0,
    ensures
        (x + y) % d == 0,
{
    lemma_fundamental_div_mod(x, d);
    lemma_fundamental_div_mod(y, d);
    let a = x / d;
    let b = y / d;
    assert(x + y == (a + b) * d) by (nonlinear_arith)
        requires
            x == d * a,
            y == d * b,
    ;
    lemma_mod_multiples_basic(a + b, d);
}

/// A power of two divides every power of two that is no smaller.
pub proof fn lemma_pow2_divides(p: int, q: int)
    requires
        is_pow2(p),
        is_pow2(q),
        p <= q,
    ensures
        p > 0,
        q % p == 0,
{
    lemma_is_pow2_log(p);
    lemma_is_pow2_log(q);
    let a = log(2, p) as nat;
    let b = log(2, q) as nat;
    lemma_pow2_pos(a);
    lemma_pow2_order(a, b);
    if b < a {
        lemma_pow2_strictly_increases(b, a);
    }
    vstd::arithmetic::power2::lemma_pow2_adds((b - a) as nat, a);
    lemma_mod_multiples_basic(pow2((b - a) as nat) as int, p);
}

/// A power of two that fits a machine word is at most half the word's range,
/// rounded up.
pub proof fn lemma_pow2_fits(p: int)
    requires
        is_pow2(p),
        p <= usize::MAX,
    ensures
        0 < p <= usize::MAX / 2 + 1,
        0 <= log(2, p) < usize::BITS,
{
    lemma_is_pow2_log(p);
    let e = log(2, p) as nat;
    lemma_pow2_pos(e);
    vstd::arithmetic::power2::lemma2_to64();
    vstd::arithmetic::power2::lemma2_to64_rest();
    lemma_pow2_order(usize::BITS as nat, e);
    lemma_pow2_order(e, (usize::BITS - 1) as nat);
}

/// The bit test `v & (v - 1) == 0` on a non-zero word recognises the powers of two.
proof fn lemma_bit_test(v: u64)
    ensures
        (v != 0 && v & ((v - 1) as u64) == 0) <==> is_pow2(v as int),
    decreases v,
{
    reveal(is_pow2);
    if v == 0 {
    } else if v == 1 {
        assert(1u64 & ((1u64 - 1) as u64) == 0) by (bit_vector);
    } else {
        let h: u64 = v / 2;
        lemma_bit_test(h);
        assert(v >= 2 ==> ((v & ((v - 1) as u64) == 0) <==> (v % 2 == 0 && (v / 2) & ((v / 2 - 1) as u64)
            == 0))) by (bit_vector);
    }
}

/// Numbers that can be tested for being a power of two and rounded up to one.
pub trait PowersOf2: Sized {
    /// The number that this value stands for.
    spec fn number(self) -> int;

    /// Whether the number is `2^e` for some `e`.
    fn is_power_of_2(self) -> (r: bool)
        ensures
            r == is_pow2(self.number()),
    ;

    /// The smallest power of two that is at least the number; 1 for 0.
    fn next_power_of_2(self) -> (r: usize)
        requires
            self.number() <= usize::MAX / 2 + 1,
        ensures
            r == spec_next_power_of_2(self.number()),
            is_next_power_of_2(self.number(), r as int),
            self.number() > 0 ==> self.number() > r / 2,
    ;
}

impl PowersOf2 for usize {
    open spec fn number(self) -> int {
        self as int
    }

    fn is_power_of_2(self) -> (r: bool) {
        let v: u64 = self as u64;
        proof {
            lemma_bit_test(v);
        }
        v != 0 && (v & (v - 1)) == 0
    }

    fn next_power_of_2(self) -> (r: usize) {
        proof {
            lemma_next_power_of_2(self as int);
        }
        if self == 0 {
            return 1;
        }
        let x: u64 = self as u64;
        let v0: u64 = x - 1;
        let v1: u64 = v0 | (v0 >> 1);
        let v2: u64 = v1 | (v1 >> 2);
        let v3: u64 = v2 | (v2 >> 4);
        let v4: u64 = v3 | (v3 >> 8);
        let v5: u64 = v4 | (v4 >> 16);
        let v6: u64 = v5 | (v5 >> 32);
        assert(v6 < 0xffff_ffff_ffff_ffffu64 && ((v6 + 1) as u64) & v6 == 0 && v6 + 1 >= x && x > (v6
            + 1) / 2) by (bit_vector)
            requires
                1 <= x <= 0x8000_0000_0000_0000u64,
                v0 == (x - 1) as u64,
                v1 == v0 | (v0 >> 1),
                v2 == v1 | (v1 >> 2),
                v3 == v2 | (v2 >> 4),
                v4 == v3 | (v3 >> 8),
                v5 == v4 | (v4 >> 16),
                v6 == v5 | (v5 >> 32),
        ;
        let w: u64 = v6 + 1;
        proof {
            lemma_bit_test(w);
            lemma_tight_is_next(self as int, w as int);
        }
        w as usize
    }
}

/// The floor of the binary logarithm of a positive number.
pub fn log2(v: usize) -> (r: u8)
    requires
        v > 0,
    ensures
        r == log(2, v as int),
        r < usize::BITS,
{
    let mut n: usize = v;
    let mut r: u8 = 0;
    proof {
        lemma_log_brackets(v as int);
        lemma_pow2_order(usize::BITS as nat, log(2, v as int) as nat);
        vstd::arithmetic::power2::lemma2_to64();
    }
    while n > 1
        invariant
            n >= 1,
            log(2, v as int) == r + log(2, n as int),
            0 <= log(2, v as int) < usize::BITS,
        decreases n,
    {
        proof {
            lemma_log_s(2, n as int);
            lemma_log_nonnegative(2, n as int / 2);
        }
        n = n / 2;
        r = r + 1;
    }
    proof {
        lemma_log0(2, n as int);
    }
    r
}

} // verus!
