//! Numbers in the IEEE 754 format binary64, held by their bits, and what they scale a count to.

use vstd::prelude::*;

verus! {

/// A binary64 number, held by its bit pattern.
#[derive(Clone, Copy, Debug, PartialEq, Eq, Structural)]
pub struct Binary64 {
    pub bits: u64,
}

/// The number of halvings after which `n` fits in 53 bits.
pub open spec fn excess_bits(n: nat) -> nat
    decreases n,
{
    if n < 0x20000000000000 {
        0
    } else {
        1 + excess_bits(n / 2)
    }
}

/// `n` divided by `d`, rounded to the nearest integer, and to the even one of two equally near.
pub open spec fn nearest_even(n: nat, d: nat) -> nat {
    let q = n / d;
    let r = n % d;
    if 2 * r > d || (2 * r == d && q % 2 == 1) {
        q + 1
    } else {
        q
    }
}

/// `n` rounded to 53 significant bits.
pub open spec fn rounded(n: nat) -> nat {
    let d = vstd::arithmetic::power2::pow2(excess_bits(n));
    nearest_even(n, d) * d
}

/// The integer nearest to `m * 2^e`, and the greater one of two equally near.
pub open spec fn nearest_integer(m: nat, e: int) -> nat {
    if e >= 0 {
        m * vstd::arithmetic::power2::pow2(e as nat)
    } else {
        let d = vstd::arithmetic::power2::pow2((-e) as nat);
        (2 * m + d) / (2 * d)
    }
}

impl Binary64 {
    pub open spec fn is_negative(self) -> bool {
        self.bits >= 0x8000000000000000
    }

    pub open spec fn exponent_field(self) -> nat {
        (self.bits / 0x10000000000000) as nat % 0x800
    }

    pub open spec fn fraction_field(self) -> nat {
        self.bits as nat % 0x10000000000000
    }

    pub open spec fn is_nan(self) -> bool {
        self.exponent_field() == 0x7ff && self.fraction_field() != 0
    }

    pub open spec fn is_infinite(self) -> bool {
        self.exponent_field() == 0x7ff && self.fraction_field() == 0
    }

    /// The integer by which a power of two is multiplied: a finite number is, but for its sign,
    /// `significand * 2^exponent`.
    pub open spec fn significand(self) -> nat {
        if self.exponent_field() == 0 {
            self.fraction_field()
        } else {
            0x10000000000000 + self.fraction_field()
        }
    }

    pub open spec fn exponent(self) -> int {
        if self.exponent_field() == 0 {
            -1074
        } else {
            self.exponent_field() - 1075
        }
    }

    /// The binary64 product of `count` and this number, rounded to an integer (half away from
    /// zero) and brought into the range from 0 to `cap`. A product that is not a number gives
    /// `cap`. Where the product is out of the range of normal numbers, the integer is 0 or at least
    /// `cap` whatever the format makes of it.
    pub open spec fn scaled(self, count: u32, cap: u32) -> u32 {
        if self.is_nan() || (self.is_infinite() && count == 0) {
            cap
        } else if self.is_negative() {
            0
        } else if self.is_infinite() {
            cap
        } else {
            let n = nearest_integer(rounded(count as nat * self.significand()), self.exponent());
            if n < cap {
                n as u32
            } else {
                cap
            }
        }
    }

    /// Scales a count: see `scaled`.
    pub fn scale(self, count: u32, cap: u32) -> (r: u32)
        ensures
            r == self.scaled(count, cap),
    {
        let negative: bool = self.bits >= 0x8000000000000000;
        let field: u64 = (self.bits / 0x10000000000000) % 0x800;
        let fraction: u64 = self.bits % 0x10000000000000;
        if field == 0x7ff {
            if fraction != 0 || count == 0 {
                return cap;
            }
            return if negative {
                0
            } else {
                cap
            };
        }
        if negative {
            return 0;
        }
        let significand: u64 = if field == 0 {
            fraction
        } else {
            0x10000000000000 + fraction
        };
        assert(0 <= count * significand < 0x20000000000000000000000) by (nonlinear_arith)
            requires
                0 <= count < 0x100000000,
                0 <= significand < 0x20000000000000,
        ;
        let product: u128 = count as u128 * significand as u128;
        let m: u128 = round_to_53_bits(product);
        if field >= 1075 {
            proof {
                if count > 0 {
                    assert(product >= 0x10000000000000) by (nonlinear_arith)
                        requires
                            product == count * significand,
                            count >= 1,
                            significand >= 0x10000000000000,
                    ;
                }
                lemma_scaled_up(m as nat, (field - 1075) as nat);
            }
            return if m == 0 {
                0
            } else {
                cap
            };
        }
        let shift: u64 = if field == 0 {
            1074
        } else {
            1075 - field
        };
        let n: u128 = divide_by_power(m, shift);
        if n < cap as u128 {
            n as u32
        } else {
            cap
        }
    }
}

proof fn lemma_scaled_up(m: nat, e: nat)
    ensures
        nearest_integer(m, e as int) >= m,
        m == 0 ==> nearest_integer(m, e as int) == 0,
{
    vstd::arithmetic::power2::lemma_pow2_pos(e);
    let d = vstd::arithmetic::power2::pow2(e);
    assert(m * d >= m) by (nonlinear_arith)
        requires
            d >= 1,
            m >= 0,
    ;
    assert(m == 0 ==> m * d == 0) by (nonlinear_arith);
}

fn round_to_53_bits(n: u128) -> (r: u128)
    requires
        n < 0x20000000000000000000000,
    ensures
        r == rounded(n as nat),
        r <= 0x40000000000000000000000,
        n >= 0x10000000000000 ==> r >= 0x10000000000000,
        n == 0 ==> r == 0,
{
    let mut d: u128 = 1;
    let mut q: u128 = n;
    let ghost mut k: nat = 0;
    proof {
        vstd::arithmetic::power2::lemma2_to64();
    }
    while q >= 0x20000000000000
        invariant
            n < 0x20000000000000000000000,
            d == vstd::arithmetic::power2::pow2(k),
            d >= 1,
            q == n as nat / d as nat,
            q * d <= n,
            k + excess_bits(q as nat) == excess_bits(n as nat),
            n >= 0x10000000000000 ==> q >= 0x10000000000000,
        decreases q,
    {
        assert(d < 0x10000000000) by (nonlinear_arith)
            requires
                q * d <= n,
                q >= 0x20000000000000,
                n < 0x20000000000000000000000,
                d >= 1,
        ;
        proof {
            vstd::arithmetic::power2::lemma_pow2_unfold(k + 1);
            vstd::arithmetic::div_mod::lemma_div_denominator(n as int, d as int, 2);
            let half = q / 2;
            assert(half * (2 * d) <= n) by (nonlinear_arith)
                requires
                    q * d <= n,
                    2 * half <= q,
                    d >= 1,
            ;
            k = k + 1;
        }
        d = d * 2;
        q = q / 2;
    }
    let rest: u128 = n % d;
    proof {
        assert(d <= n || d == 1) by (nonlinear_arith)
            requires
                q * d <= n,
                d >= 1,
                q >= 1 || d == 1,
        ;
    }
    let up: bool = 2 * rest > d || (2 * rest == d && q % 2 == 1);
    let whole: u128 = if up {
        q + 1
    } else {
        q
    };
    proof {
        assert(d == vstd::arithmetic::power2::pow2(excess_bits(n as nat)));
        assert(whole * d <= n + d) by (nonlinear_arith)
            requires
                whole <= q + 1,
                q * d <= n,
                d >= 1,
        ;
        assert(whole * d >= whole) by (nonlinear_arith)
            requires
                d >= 1,
                whole >= 0,
        ;
        if n == 0 {
            assert(whole == 0);
            assert(whole * d == 0) by (nonlinear_arith)
                requires
                    whole == 0,
            ;
        }
    }
    whole * d
}

fn divide_by_power(m: u128, shift: u64) -> (r: u128)
    requires
        m <= 0x40000000000000000000000,
        1 <= shift,
    ensures
        r == nearest_integer(m as nat, -(shift as int)),
{
    if shift >= 100 {
        proof {
            lemma_vanishes(m as nat, shift as nat);
        }
        return 0;
    }
    let mut d: u128 = 1;
    let mut k: u64 = 0;
    proof {
        vstd::arithmetic::power2::lemma2_to64();
    }
    while k < shift
        invariant
            k <= shift < 100,
            d == vstd::arithmetic::power2::pow2(k as nat),
            d <= 0x10000000000000000000000000,
        decreases shift - k,
    {
        proof {
            vstd::arithmetic::power2::lemma_pow2_unfold((k + 1) as nat);
            vstd::arithmetic::power2::lemma_pow2_adds(k as nat, (100 - k) as nat);
            lemma_two_to_the_hundred();
            let p = vstd::arithmetic::power2::pow2((100 - k) as nat);
            vstd::arithmetic::power2::lemma_pow2_unfold((100 - k) as nat);
            vstd::arithmetic::power2::lemma_pow2_pos((99 - k) as nat);
            assert(2 * d <= d * p) by (nonlinear_arith)
                requires
                    p >= 2,
                    d >= 0,
            ;
        }
        d = d * 2;
        k = k + 1;
    }
    proof {
        vstd::arithmetic::power2::lemma_pow2_pos(shift as nat);
    }
    (2 * m + d) / (2 * d)
}

proof fn lemma_two_to_the_hundred()
    ensures
        vstd::arithmetic::power2::pow2(100) == 0x10000000000000000000000000,
{
    vstd::arithmetic::power2::lemma2_to64();
    vstd::arithmetic::power2::lemma2_to64_rest();
    vstd::arithmetic::power2::lemma_pow2_adds(64, 36);
}

proof fn lemma_vanishes(m: nat, shift: nat)
    requires
        m <= 0x40000000000000000000000,
        shift >= 100,
    ensures
        nearest_integer(m, -(shift as int)) == 0,
{
    lemma_two_to_the_hundred();
    if shift > 100 {
        vstd::arithmetic::power2::lemma_pow2_strictly_increases(100, shift);
    }
    let d = vstd::arithmetic::power2::pow2(shift);
    vstd::arithmetic::div_mod::lemma_basic_div((2 * m + d) as int, (2 * d) as int);
}

proof fn lemma_excess(n: nat)
    ensures
        n / vstd::arithmetic::power2::pow2(excess_bits(n)) < 0x20000000000000,
        excess_bits(n) > 0 ==> n / vstd::arithmetic::power2::pow2(excess_bits(n))
            >= 0x10000000000000,
    decreases n,
{
    vstd::arithmetic::power2::lemma_pow2_pos(excess_bits(n));
    if n < 0x20000000000000 {
        vstd::arithmetic::power2::lemma2_to64();
    } else {
        let k = excess_bits(n / 2);
        lemma_excess(n / 2);
        vstd::arithmetic::power2::lemma_pow2_pos(k);
        vstd::arithmetic::power2::lemma_pow2_unfold(k + 1);
        vstd::arithmetic::div_mod::lemma_div_denominator(
            n as int,
            2,
            vstd::arithmetic::power2::pow2(k) as int,
        );
        if k == 0 {
            vstd::arithmetic::power2::lemma2_to64();
        }
    }
}

proof fn lemma_excess_grows(a: nat, b: nat)
    requires
        a <= b,
    ensures
        excess_bits(a) <= excess_bits(b),
    decreases b,
{
    if a >= 0x20000000000000 {
        lemma_excess_grows(a / 2, b / 2);
    }
}

proof fn lemma_nearest_even_grows(a: nat, b: nat, d: nat)
    requires
        a <= b,
        d > 0,
    ensures
        nearest_even(a, d) <= nearest_even(b, d),
{
    vstd::arithmetic::div_mod::lemma_div_is_ordered(a as int, b as int, d as int);
    vstd::arithmetic::div_mod::lemma_fundamental_div_mod(a as int, d as int);
    vstd::arithmetic::div_mod::lemma_fundamental_div_mod(b as int, d as int);
}

proof fn lemma_rounded_grows(a: nat, b: nat)
    requires
        a <= b,
    ensures
        rounded(a) <= rounded(b),
{
    let j = excess_bits(a);
    let k = excess_bits(b);
    let d = vstd::arithmetic::power2::pow2(j);
    let e = vstd::arithmetic::power2::pow2(k);
    vstd::arithmetic::power2::lemma_pow2_pos(j);
    vstd::arithmetic::power2::lemma_pow2_pos(k);
    lemma_excess_grows(a, b);
    lemma_excess(a);
    lemma_excess(b);
    let p = nearest_even(a, d);
    let q = nearest_even(b, e);
    if j == k {
        lemma_nearest_even_grows(a, b, d);
        assert(p * d <= q * d) by (nonlinear_arith)
            requires
                p <= q,
                d >= 0,
        ;
    } else {
        let f = vstd::arithmetic::power2::pow2((k - j - 1) as nat);
        vstd::arithmetic::power2::lemma_pow2_pos((k - j - 1) as nat);
        vstd::arithmetic::power2::lemma_pow2_unfold((k - j) as nat);
        vstd::arithmetic::power2::lemma_pow2_adds(j, (k - j) as nat);
        assert(p * d <= q * e) by (nonlinear_arith)
            requires
                p <= 0x20000000000000,
                q >= 0x10000000000000,
                e == d * (2 * f),
                f >= 1,
                d >= 1,
        ;
    }
}

proof fn lemma_nearest_integer_grows(a: nat, b: nat, e: int)
    requires
        a <= b,
    ensures
        nearest_integer(a, e) <= nearest_integer(b, e),
{
    if e >= 0 {
        let d = vstd::arithmetic::power2::pow2(e as nat);
        assert(a * d <= b * d) by (nonlinear_arith)
            requires
                a <= b,
                d >= 0,
        ;
    } else {
        let d = vstd::arithmetic::power2::pow2((-e) as nat);
        vstd::arithmetic::power2::lemma_pow2_pos((-e) as nat);
        vstd::arithmetic::div_mod::lemma_div_is_ordered(
            (2 * a + d) as int,
            (2 * b + d) as int,
            (2 * d) as int,
        );
    }
}

/// A greater count is never scaled to less, unless by negative infinity: that has no product with
/// 0, which counts as the cap, and scales any other count to 0.
pub proof fn law_scaling_is_monotonic(ratio: Binary64, low: u32, high: u32, cap: u32)
    requires
        low <= high,
        !(ratio.is_infinite() && ratio.is_negative()),
    ensures
        ratio.scaled(low, cap) <= ratio.scaled(high, cap),
{
    let m = ratio.significand();
    assert(low * m <= high * m) by (nonlinear_arith)
        requires
            low <= high,
            m >= 0,
    ;
    lemma_rounded_grows((low * m) as nat, (high * m) as nat);
    lemma_nearest_integer_grows(
        rounded((low * m) as nat),
        rounded((high * m) as nat),
        ratio.exponent(),
    );
}

proof fn lemma_few_excess_bits(n: nat, k: nat)
    requires
        n < 0x20000000000000 * vstd::arithmetic::power2::pow2(k),
    ensures
        excess_bits(n) <= k,
    decreases k,
{
    if n >= 0x20000000000000 {
        if k == 0 {
            vstd::arithmetic::power2::lemma2_to64();
        } else {
            vstd::arithmetic::power2::lemma_pow2_unfold(k);
            lemma_few_excess_bits(n / 2, (k - 1) as nat);
        }
    }
}

/// A product is kept exactly where it has at most 53 bits. Else it is rounded to a multiple of the
/// power of two that leaves 53 bits, and to the nearest one; of two that are equally near, to the one
/// whose multiplier is even.
pub proof fn law_products_are_rounded(n: nat)
    ensures
        n < 0x20000000000000 ==> rounded(n) == n,
        ({
            let d = vstd::arithmetic::power2::pow2(excess_bits(n));
            &&& rounded(n) % d == 0
            &&& 2 * rounded(n) <= 2 * n + d
            &&& 2 * n <= 2 * rounded(n) + d
            &&& (2 * rounded(n) == 2 * n + d || 2 * n == 2 * rounded(n) + d) ==> (rounded(n) / d)
                % 2 == 0
        }),
{
    let d = vstd::arithmetic::power2::pow2(excess_bits(n));
    vstd::arithmetic::power2::lemma_pow2_pos(excess_bits(n));
    vstd::arithmetic::power2::lemma2_to64();
    vstd::arithmetic::div_mod::lemma_fundamental_div_mod(n as int, d as int);
    vstd::arithmetic::div_mod::lemma_mod_bound(n as int, d as int);
    let a = n / d;
    let r = n % d;
    let q = nearest_even(n, d);
    assert(d * a == a * d) by (nonlinear_arith);
    assert((a + 1) * d == a * d + d) by (nonlinear_arith);
    assert(rounded(n) == q * d);
    vstd::arithmetic::div_mod::lemma_div_multiples_vanish(q as int, d as int);
    vstd::arithmetic::div_mod::lemma_mod_multiples_basic(q as int, d as int);
    assert(q * d == d * q) by (nonlinear_arith);
    if n < 0x20000000000000 {
        assert(d == 1);
        assert(q * 1 == q);
    }
}

/// A ratio of 1 keeps a count, one of a half halves it and rounds a half up, a negative one makes it
/// 0, and so does 0; what is no number, and infinity, make it the cap.
pub proof fn law_simple_ratios(count: u32, cap: u32, ratio: Binary64)
    ensures
        (Binary64 { bits: 0x3ff0000000000000 }).scaled(count, cap) == if count < cap {
            count
        } else {
            cap
        },
        (Binary64 { bits: 0x3fe0000000000000 }).scaled(count, cap) == if (count + 1) / 2 < cap {
            (count + 1) / 2
        } else {
            cap as int
        },
        (Binary64 { bits: 0 }).scaled(count, cap) == 0,
        ratio.bits > 0x8000000000000000 && ratio.bits < 0xfff0000000000000 ==> ratio.scaled(
            count,
            cap,
        ) == 0,
        ratio.bits == 0x7ff0000000000000 ==> ratio.scaled(count, cap) == cap,
        ratio.bits == 0xfff0000000000000 && count > 0 ==> ratio.scaled(count, cap) == 0,
        0x7ff0000000000000 < ratio.bits < 0x8000000000000000 ==> ratio.scaled(count, cap) == cap,
        ratio.bits > 0xfff0000000000000 ==> ratio.scaled(count, cap) == cap,
{
    vstd::arithmetic::power2::lemma2_to64();
    vstd::arithmetic::power2::lemma2_to64_rest();
    let one = Binary64 { bits: 0x3ff0000000000000 };
    assert(one.exponent_field() == 1023 && one.fraction_field() == 0);
    let half = Binary64 { bits: 0x3fe0000000000000 };
    assert(half.exponent_field() == 1022 && half.fraction_field() == 0);
    let m = 0x10000000000000nat;
    let n = (count * m) as nat;
    lemma_exact(count as nat);
    let c = count as int;
    assert(n == c * 0x10000000000000);
    assert((2 * n + 0x10000000000000) / 0x20000000000000 == c);
    assert((2 * n + 0x20000000000000) / 0x40000000000000 == (c + 1) / 2);
    assert(vstd::arithmetic::power2::pow2(52) == 0x10000000000000);
    assert(vstd::arithmetic::power2::pow2(53) == 0x20000000000000);
    assert(nearest_integer(n, -52) == c);
    assert(nearest_integer(n, -53) == (c + 1) / 2);
    assert(one.significand() == m && one.exponent() == -52);
    assert(half.significand() == m && half.exponent() == -53);
    let zero = Binary64 { bits: 0 };
    assert(zero.exponent_field() == 0 && zero.fraction_field() == 0);
    assert(zero.significand() == 0);
    assert(count as nat * 0nat == 0);
    law_products_are_rounded(0);
    lemma_vanishes(0, 1074);
}

proof fn lemma_exact(count: nat)
    requires
        count <= u32::MAX,
    ensures
        rounded(count * 0x10000000000000) == count * 0x10000000000000,
{
    let n = count * 0x10000000000000;
    let k = excess_bits(n);
    vstd::arithmetic::power2::lemma2_to64();
    if n >= 0x20000000000000 {
        lemma_few_excess_bits(n, 32);
        vstd::arithmetic::power2::lemma_pow2_pos(k);
        let d = vstd::arithmetic::power2::pow2(k);
        let e = vstd::arithmetic::power2::pow2((52 - k) as nat);
        vstd::arithmetic::power2::lemma_pow2_adds(k, (52 - k) as nat);
        vstd::arithmetic::power2::lemma2_to64_rest();
        assert(d * e == 0x10000000000000);
        assert(n == (count * e) * d) by (nonlinear_arith)
            requires
                n == count * 0x10000000000000,
                d * e == 0x10000000000000,
        ;
        vstd::arithmetic::div_mod::lemma_div_multiples_vanish((count * e) as int, d as int);
        vstd::arithmetic::div_mod::lemma_mod_multiples_basic((count * e) as int, d as int);
        assert(n / d == count * e && n % d == 0) by {
            assert((count * e) * d == d * (count * e)) by (nonlinear_arith);
        }
    } else {
        law_products_are_rounded(n);
    }
}

/// The ratio of the built-in model is a fifth: a count is divided by five and rounded to the nearest
/// number, up to the cap.
pub proof fn law_a_fifth(count: u32, cap: u32)
    ensures
        (Binary64 { bits: 0x3fc999999999999a }).scaled(count, cap) == if (2 * count + 5) / 10 < cap {
            (2 * count + 5) / 10
        } else {
            cap as int
        },
{
    let fifth = Binary64 { bits: 0x3fc999999999999a };
    let m = 0x1999999999999anat;
    assert(fifth.exponent_field() == 1020 && fifth.fraction_field() == 0x999999999999a);
    assert(fifth.significand() == m && fifth.exponent() == -55);
    vstd::arithmetic::power2::lemma2_to64();
    vstd::arithmetic::power2::lemma2_to64_rest();
    let n = (count * m) as nat;
    lemma_few_excess_bits(n, 32);
    let k = excess_bits(n);
    let d = vstd::arithmetic::power2::pow2(k);
    if k < 32 {
        vstd::arithmetic::power2::lemma_pow2_strictly_increases(k, 32);
    }
    assert(d <= 0x100000000);
    law_products_are_rounded(n);
    let x = rounded(n);
    assert(2 * x <= 2 * n + 0x100000000 && 2 * n <= 2 * x + 0x100000000);
    assert(nearest_integer(x, -55) == (2 * x + 0x80000000000000) / 0x100000000000000);
    let c = count as int;
    let q = c / 5;
    let r = c % 5;
    assert(5 * m == 0x80000000000002);
    assert(n == q * 0x80000000000002 + r * m) by (nonlinear_arith)
        requires
            n == c * m,
            c == 5 * q + r,
            5 * m == 0x80000000000002,
    ;
    assert((2 * c + 5) / 10 == q + if r >= 3 { 1int } else { 0 });
    assert((2 * x + 0x80000000000000) / 0x100000000000000 == (2 * c + 5) / 10);
}

} // verus!
