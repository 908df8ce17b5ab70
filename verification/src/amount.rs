use vstd::prelude::*;
use crate::strings::{dec_digits, padded_digits, push_dec_digits, push_padded_digits};
use vstd::arithmetic::mul::{lemma_mul_inequality, lemma_mul_is_distributive_add_other_way};
use vstd::arithmetic::div_mod::lemma_fundamental_div_mod;

verus! {

/// Exact decimal amounts are a 96-bit signed coefficient and a power-of-ten
/// exponent; this is one more than the largest coefficient magnitude.
pub const MANTISSA_LIMIT: i128 = 79228162514264337593543950336;

/// The largest admitted decimal exponent.
pub const MAX_SCALE: u32 = 28;

/// An exact signed decimal number: the value `mantissa / 10^scale`.
/// Sums over such amounts carry no binary rounding at all, and the scale is
/// kept, so `0.30` and `0.3` stay distinct in the rendered text.
#[derive(Clone, Copy, PartialEq, Eq, Structural, Debug)]
pub struct Amount {
    pub mantissa: i128,
    pub scale: u32,
}

/// Power of ten, the scaling factor between two decimal exponents.
pub open spec fn pow10(e: nat) -> nat
    decreases e,
{
    if e == 0 {
        1
    } else {
        10 * pow10((e - 1) as nat)
    }
}

pub proof fn lemma_pow10_pos(e: nat)
    ensures
        pow10(e) >= 1,
    decreases e,
{
    if e > 0 {
        lemma_pow10_pos((e - 1) as nat);
    }
}

pub proof fn lemma_pow10_le(a: nat, b: nat)
    requires
        a <= b,
    ensures
        pow10(a) <= pow10(b),
    decreases b,
{
    if a < b {
        lemma_pow10_le(a, (b - 1) as nat);
        lemma_pow10_pos((b - 1) as nat);
    }
}

pub proof fn lemma_pow10_add(a: nat, b: nat)
    ensures
        pow10(a + b) == pow10(a) * pow10(b),
    decreases a,
{
    if a == 0 {
        assert(pow10(a) == 1);
    } else {
        lemma_pow10_add((a - 1) as nat, b);
        assert(pow10(a + b) == 10 * pow10((a - 1) as nat + b));
        assert(pow10(a) == 10 * pow10((a - 1) as nat));
        assert(pow10(a + b) == pow10(a) * pow10(b)) by (nonlinear_arith)
            requires
                pow10(a + b) == 10 * pow10((a - 1) as nat + b),
                pow10((a - 1) as nat + b) == pow10((a - 1) as nat) * pow10(b),
                pow10(a) == 10 * pow10((a - 1) as nat),
        ;
    }
}

pub proof fn lemma_pow10_28()
    ensures
        pow10(28) == 10000000000000000000000000000,
{
    reveal_with_fuel(pow10, 29);
}

impl Amount {
    /// The representation the rest of the library relies on: the exponent is
    /// bounded and the coefficient fits in 96 bits.
    pub open spec fn wf(self) -> bool {
        &&& self.scale <= MAX_SCALE
        &&& -(MANTISSA_LIMIT as int) < (self.mantissa as int) < (MANTISSA_LIMIT as int)
    }

    /// The amount's value expressed in units of `10^-MAX_SCALE`, a plain
    /// integer; two amounts are equal in value exactly when their units agree.
    pub open spec fn units(self) -> int {
        (self.mantissa as int) * (pow10((MAX_SCALE - self.scale) as nat) as int)
    }

    /// The zero amount, rendered "0".
    pub fn zero() -> (r: Amount)
        ensures
            r == (Amount { mantissa: 0, scale: 0 }),
    {
        Amount { mantissa: 0, scale: 0 }
    }

    /// Builds an amount out of a coefficient and an exponent; rejects exactly
    /// the representations the library does not admit.
    pub fn new(mantissa: i128, scale: u32) -> (r: Option<Amount>)
        ensures
            r == (if scale <= MAX_SCALE && -MANTISSA_LIMIT < mantissa < MANTISSA_LIMIT {
                Some(Amount { mantissa, scale })
            } else {
                None::<Amount>
            }),
            r matches Some(a) ==> a.wf(),
    {
        if scale <= MAX_SCALE && -MANTISSA_LIMIT < mantissa && mantissa < MANTISSA_LIMIT {
            Some(Amount { mantissa, scale })
        } else {
            None
        }
    }
}

/// Whether a coefficient magnitude is representable.
pub open spec fn in_mantissa_range(m: int) -> bool {
    -(MANTISSA_LIMIT as int) < m < (MANTISSA_LIMIT as int)
}

/// Exact decimal addition: both coefficients are brought to the larger of
/// the two exponents and added; `None` exactly when a rescaled coefficient
/// or the sum falls outside the representation.
pub open spec fn spec_add(a: Amount, b: Amount) -> Option<Amount> {
    let s = if a.scale >= b.scale {
        a.scale
    } else {
        b.scale
    };
    let m1 = (a.mantissa as int) * (pow10((s - a.scale) as nat) as int);
    let m2 = (b.mantissa as int) * (pow10((s - b.scale) as nat) as int);
    if in_mantissa_range(m1) && in_mantissa_range(m2) && in_mantissa_range(m1 + m2) {
        Some(Amount { mantissa: (m1 + m2) as i128, scale: s })
    } else {
        None
    }
}

/// For nonnegative `x` and `c` and positive `f`: `x * f <= c` exactly when
/// `x <= c / f`.
proof fn lemma_mul_le_iff_div(x: int, f: int, c: int)
    requires
        x >= 0,
        f > 0,
        c >= 0,
    ensures
        x * f <= c <==> x <= c / f,
{
    lemma_fundamental_div_mod(c, f);
    if x <= c / f {
        lemma_mul_inequality(x, c / f, f);
    }
    if x * f <= c {
        if x > c / f {
            lemma_mul_inequality(c / f + 1, x, f);
            assert((c / f + 1) * f == (c / f) * f + f) by (nonlinear_arith);
            assert(false);
        }
    }
}

/// Rescaled coefficient `m * f`, or `None` exactly when that leaves the
/// representable range.
fn scaled_mantissa(m: i128, f: i128) -> (r: Option<i128>)
    requires
        f > 0,
        in_mantissa_range(m as int),
    ensures
        r == (if in_mantissa_range(m as int * f as int) {
            Some((m as int * f as int) as i128)
        } else {
            None::<i128>
        }),
{
    let mag: i128 = if m < 0 {
        -m
    } else {
        m
    };
    let limit: i128 = (MANTISSA_LIMIT - 1) / f;
    proof {
        lemma_mul_le_iff_div(mag as int, f as int, (MANTISSA_LIMIT - 1) as int);
        assert(m as int * f as int == if m < 0 {
            -(mag as int * f as int)
        } else {
            mag as int * f as int
        }) by (nonlinear_arith)
            requires
                mag as int == if m < 0 {
                    -(m as int)
                } else {
                    m as int
                },
        ;
        assert(mag as int * f as int >= 0) by (nonlinear_arith)
            requires
                mag >= 0 && f > 0,
        ;
    }
    if mag <= limit {
        Some(m * f)
    } else {
        None
    }
}

fn pow10_u128(e: u32) -> (r: u128)
    requires
        e <= MAX_SCALE,
    ensures
        r == pow10(e as nat),
{
    let mut r: u128 = 1;
    let mut i: u32 = 0;
    while i < e
        invariant
            i <= e <= MAX_SCALE,
            r == pow10(i as nat),
        decreases e - i,
    {
        proof {
            lemma_pow10_le((i + 1) as nat, 28);
            lemma_pow10_28();
        }
        r = r * 10;
        i = i + 1;
    }
    r
}

impl Amount {
    /// Exact decimal addition as `spec_add` states it.
    pub fn add(self, other: Amount) -> (r: Option<Amount>)
        requires
            self.wf(),
            other.wf(),
        ensures
            r == spec_add(self, other),
            r matches Some(t) ==> t.wf() && t.scale == (if self.scale >= other.scale {
                self.scale
            } else {
                other.scale
            }),
    {
        let s = if self.scale >= other.scale {
            self.scale
        } else {
            other.scale
        };
        proof {
            lemma_pow10_le((s - self.scale) as nat, 28);
            lemma_pow10_le((s - other.scale) as nat, 28);
            lemma_pow10_28();
        }
        let f1 = pow10_u128(s - self.scale) as i128;
        let f2 = pow10_u128(s - other.scale) as i128;
        proof {
            lemma_pow10_pos((s - self.scale) as nat);
            lemma_pow10_pos((s - other.scale) as nat);
        }
        let m1 = match scaled_mantissa(self.mantissa, f1) {
            Some(v) => v,
            None => {
                return None;
            },
        };
        let m2 = match scaled_mantissa(other.mantissa, f2) {
            Some(v) => v,
            None => {
                return None;
            },
        };
        let m = m1 + m2;
        if -MANTISSA_LIMIT < m && m < MANTISSA_LIMIT {
            Some(Amount { mantissa: m, scale: s })
        } else {
            None
        }
    }
}

/// The left-to-right exact sum of a sequence of amounts, started from zero;
/// `None` exactly when some partial sum leaves the representation.
pub open spec fn spec_total(s: Seq<Amount>) -> Option<Amount>
    decreases s.len(),
{
    if s.len() == 0 {
        Some(Amount { mantissa: 0, scale: 0 })
    } else {
        match spec_total(s.drop_last()) {
            Some(t) => spec_add(t, s.last()),
            None => None,
        }
    }
}

/// The integer sum of the values of a sequence of amounts, in units of
/// `10^-MAX_SCALE`.
pub open spec fn units_sum(s: Seq<Amount>) -> int
    decreases s.len(),
{
    if s.len() == 0 {
        0
    } else {
        units_sum(s.drop_last()) + s.last().units()
    }
}

pub open spec fn all_wf(s: Seq<Amount>) -> bool {
    forall|i: int| 0 <= i < s.len() ==> s[i].wf()
}

/// A successful addition preserves well-formedness and adds the values.
proof fn lemma_add_units(a: Amount, b: Amount, t: Amount)
    requires
        a.wf(),
        b.wf(),
        spec_add(a, b) == Some(t),
    ensures
        t.wf(),
        t.units() == a.units() + b.units(),
        t.scale == (if a.scale >= b.scale {
            a.scale
        } else {
            b.scale
        }),
{
    let s = if a.scale >= b.scale {
        a.scale
    } else {
        b.scale
    };
    let m1 = (a.mantissa as int) * (pow10((s - a.scale) as nat) as int);
    let m2 = (b.mantissa as int) * (pow10((s - b.scale) as nat) as int);
    lemma_pow10_add((s - a.scale) as nat, (MAX_SCALE - s) as nat);
    lemma_pow10_add((s - b.scale) as nat, (MAX_SCALE - s) as nat);
    let p = pow10((MAX_SCALE - s) as nat) as int;
    assert(m1 * p == (a.mantissa as int) * (pow10((MAX_SCALE - a.scale) as nat) as int))
        by (nonlinear_arith)
        requires
            m1 == (a.mantissa as int) * (pow10((s - a.scale) as nat) as int),
            pow10((MAX_SCALE - a.scale) as nat) == pow10((s - a.scale) as nat) * pow10(
                (MAX_SCALE - s) as nat,
            ),
            p == pow10((MAX_SCALE - s) as nat) as int,
    ;
    assert(m2 * p == (b.mantissa as int) * (pow10((MAX_SCALE - b.scale) as nat) as int))
        by (nonlinear_arith)
        requires
            m2 == (b.mantissa as int) * (pow10((s - b.scale) as nat) as int),
            pow10((MAX_SCALE - b.scale) as nat) == pow10((s - b.scale) as nat) * pow10(
                (MAX_SCALE - s) as nat,
            ),
            p == pow10((MAX_SCALE - s) as nat) as int,
    ;
    lemma_mul_is_distributive_add_other_way(p, m1, m2);
}

/// What a defined total looks like: it is well formed, its exponent is the
/// largest exponent present (zero for an empty list), and its value is the
/// sum of the values.
pub proof fn lemma_total_shape(s: Seq<Amount>)
    requires
        all_wf(s),
        spec_total(s) is Some,
    ensures
        spec_total(s) matches Some(t) && t.wf() && t.units() == units_sum(s) && (forall|i: int|
            0 <= i < s.len() ==> s[i].scale <= t.scale) && (t.scale == 0 || exists|i: int|
            0 <= i < s.len() && s[i].scale == t.scale),
    decreases s.len(),
{
    if s.len() == 0 {
    } else {
        assert(all_wf(s.drop_last()));
        lemma_total_shape(s.drop_last());
        let t0 = spec_total(s.drop_last()).unwrap();
        let t = spec_total(s).unwrap();
        lemma_add_units(t0, s.last(), t);
        assert forall|i: int| 0 <= i < s.len() implies s[i].scale <= t.scale by {
            if i < s.len() - 1 {
                assert(s[i] == s.drop_last()[i]);
            }
        }
        if t.scale != 0 {
            if t0.scale >= s.last().scale {
                assert(t0.scale != 0);
                let i0 = choose|i: int|
                    0 <= i < s.drop_last().len() && s.drop_last()[i].scale == t0.scale;
                assert(s[i0] == s.drop_last()[i0]);
                assert(s[i0].scale == t.scale);
            } else {
                assert(s[s.len() - 1].scale == t.scale);
            }
        }
    }
}

proof fn lemma_units_sum_remove(s: Seq<Amount>, i: int)
    requires
        0 <= i < s.len(),
    ensures
        units_sum(s) == units_sum(s.remove(i)) + s[i].units(),
    decreases s.len(),
{
    if i == s.len() - 1 {
        assert(s.remove(i) =~= s.drop_last());
    } else {
        lemma_units_sum_remove(s.drop_last(), i);
        assert(s.remove(i).drop_last() =~= s.drop_last().remove(i));
        assert(s.remove(i).last() == s.last());
    }
}

/// The value of the sum depends only on which amounts occur, not on their
/// order.
pub proof fn lemma_units_sum_permutation(s1: Seq<Amount>, s2: Seq<Amount>)
    requires
        s1.to_multiset() == s2.to_multiset(),
    ensures
        units_sum(s1) == units_sum(s2),
    decreases s1.len(),
{
    broadcast use vstd::seq_lib::group_to_multiset_ensures;

    assert(s1.len() == s1.to_multiset().len());
    assert(s2.len() == s2.to_multiset().len());
    if s1.len() == 0 {
        assert(s2.len() == 0);
    } else {
        let x = s1.last();
        assert(s1.contains(x));
        assert(s2.to_multiset().count(x) > 0);
        assert(s2.contains(x));
        let j = choose|j: int| 0 <= j < s2.len() && s2[j] == x;
        assert(s1.drop_last() =~= s1.remove(s1.len() - 1));
        assert(s1.remove(s1.len() - 1).to_multiset() == s1.to_multiset().remove(x));
        assert(s2.remove(j).to_multiset() == s2.to_multiset().remove(x));
        lemma_units_sum_permutation(s1.drop_last(), s2.remove(j));
        lemma_units_sum_remove(s2, j);
    }
}

/// Reordering the amounts does not change a defined total at all: the same
/// coefficient and the same exponent come out, so the rendered figure is
/// unchanged.
pub proof fn lemma_total_permutation(s1: Seq<Amount>, s2: Seq<Amount>)
    requires
        all_wf(s1),
        s1.to_multiset() == s2.to_multiset(),
        spec_total(s1) is Some,
        spec_total(s2) is Some,
    ensures
        spec_total(s1) == spec_total(s2),
{
    broadcast use vstd::seq_lib::group_to_multiset_ensures;

    assert(all_wf(s2)) by {
        assert forall|i: int| 0 <= i < s2.len() implies s2[i].wf() by {
            assert(s2.contains(s2[i]));
            assert(s2.to_multiset().count(s2[i]) > 0);
            assert(s1.contains(s2[i]));
        }
    }
    lemma_total_shape(s1);
    lemma_total_shape(s2);
    lemma_units_sum_permutation(s1, s2);
    let t1 = spec_total(s1).unwrap();
    let t2 = spec_total(s2).unwrap();
    assert(t1.scale == t2.scale) by {
        if t1.scale != 0 {
            let i = choose|i: int| 0 <= i < s1.len() && s1[i].scale == t1.scale;
            assert(s1.contains(s1[i]));
            assert(s1.to_multiset().count(s1[i]) > 0);
            assert(s2.to_multiset().count(s1[i]) > 0);
            assert(s2.contains(s1[i]));
            let j = choose|j: int| 0 <= j < s2.len() && s2[j] == s1[i];
            assert(s2[j].scale <= t2.scale);
        }
        if t2.scale != 0 {
            let i = choose|i: int| 0 <= i < s2.len() && s2[i].scale == t2.scale;
            assert(s2.contains(s2[i]));
            assert(s2.to_multiset().count(s2[i]) > 0);
            assert(s1.to_multiset().count(s2[i]) > 0);
            assert(s1.contains(s2[i]));
            let j = choose|j: int| 0 <= j < s1.len() && s1[j] == s2[i];
            assert(s1[j].scale <= t1.scale);
        }
    }
    assert(t1.mantissa == t2.mantissa) by {
        let p = pow10((MAX_SCALE - t1.scale) as nat) as int;
        lemma_pow10_pos((MAX_SCALE - t1.scale) as nat);
        assert((t1.mantissa as int) * p == (t2.mantissa as int) * p);
        assert(t1.mantissa as int == t2.mantissa as int) by (nonlinear_arith)
            requires
                p > 0,
                (t1.mantissa as int) * p == (t2.mantissa as int) * p,
        ;
    }
}

/// How an amount renders: an optional minus sign, the integer digits, and,
/// for a positive exponent, a point followed by exactly `scale` fraction
/// digits.
pub open spec fn magnitude_text(n: nat, scale: nat) -> Seq<char> {
    if scale == 0 {
        dec_digits(n)
    } else {
        dec_digits(n / pow10(scale)) + seq!['.'] + padded_digits(n % pow10(scale), scale)
    }
}

pub open spec fn amount_text(a: Amount) -> Seq<char> {
    if a.mantissa < 0 {
        seq!['-'] + magnitude_text((-(a.mantissa as int)) as nat, a.scale as nat)
    } else {
        magnitude_text(a.mantissa as nat, a.scale as nat)
    }
}

impl Amount {
    /// The exact decimal rendering of this amount, sign preserved, scale
    /// preserved.
    pub fn to_decimal_string(&self) -> (r: String)
        requires
            self.wf(),
        ensures
            r@ == amount_text(*self),
    {
        let mut out = String::new();
        let neg = self.mantissa < 0;
        let mag: u128 = if neg {
            (-self.mantissa) as u128
        } else {
            self.mantissa as u128
        };
        if neg {
            out.push('-');
        }
        if self.scale == 0 {
            push_dec_digits(&mut out, mag);
        } else {
            let p = pow10_u128(self.scale);
            proof {
                lemma_pow10_pos(self.scale as nat);
            }
            push_dec_digits(&mut out, mag / p);
            out.push('.');
            push_padded_digits(&mut out, mag % p, self.scale);
        }
        proof {
            assert(out@ =~= amount_text(*self));
        }
        out
    }
}

} // verus!
