//! Exact decimal amounts.
//!
//! An amount is a mantissa together with a power-of-ten scale, the
//! representation used for monetary units throughout the ledger.  All
//! arithmetic here is verified; conversion from and to decimal text is
//! delegated to the `rust_decimal` crate behind trusted wrappers.

use vstd::arithmetic::mul::*;
use vstd::arithmetic::power::*;
use vstd::prelude::*;

verus! {

/// One past the largest mantissa magnitude a decimal may carry (`2^96`,
/// matching the range of `rust_decimal`'s 96-bit mantissa).
pub const MANTISSA_LIMIT: i128 = 79228162514264337593543950336;

/// The largest admissible scale (digits after the decimal point).
pub const MAX_SCALE: u32 = 28;

/// A decimal number `mantissa * 10^(-scale)`.
///
/// `Dec { mantissa: 4250, scale: 2 }` is the number `42.50`.  Two values with
/// different scales may denote the same number; contracts therefore compare
/// decimals through [`Dec::val`], their value scaled to `MAX_SCALE`.
#[derive(Clone, Copy, Debug, PartialEq, Eq, Structural)]
pub struct Dec {
    pub mantissa: i128,
    pub scale: u32,
}

/// Does `x` lie strictly inside the mantissa range?
pub open spec fn in_mantissa_range(x: int) -> bool {
    -MANTISSA_LIMIT < x < MANTISSA_LIMIT
}

impl Dec {
    /// Well-formed: scale within range, mantissa within the 96-bit range.
    pub open spec fn wf(self) -> bool {
        self.scale <= MAX_SCALE && in_mantissa_range(self.mantissa as int)
    }

    /// The number denoted, as an integer count of `10^(-MAX_SCALE)` units.
    /// Exact: two well-formed decimals denote the same number iff their
    /// `val`s are equal.
    pub open spec fn val(self) -> int {
        self.mantissa * pow(10, (MAX_SCALE - self.scale) as nat)
    }

    /// The zero amount.
    pub fn zero() -> (r: Dec)
        ensures
            r.wf(),
            r.val() == 0,
            r.mantissa == 0,
            r.scale == 0,
    {
        let r = Dec { mantissa: 0, scale: 0 };
        proof {
            lemma_mul_by_zero_is_zero(pow(10, MAX_SCALE as nat));
        }
        r
    }

    /// The negation: same scale, mantissa negated.
    pub fn neg(self) -> (r: Dec)
        requires
            self.wf(),
        ensures
            r.wf(),
            r.val() == -self.val(),
            r.scale == self.scale,
            r.mantissa == -self.mantissa,
    {
        let r = Dec { mantissa: -self.mantissa, scale: self.scale };
        proof {
            lemma_mul_unary_negation(self.mantissa as int, pow(10, (MAX_SCALE - self.scale) as nat));
        }
        r
    }

    /// True exactly when the denoted number is zero.
    pub fn is_zero(&self) -> (r: bool)
        requires
            self.wf(),
        ensures
            r == (self.val() == 0),
    {
        proof {
            lemma_pow_positive(10, (MAX_SCALE - self.scale) as nat);
            if self.mantissa != 0 {
                lemma_mul_nonzero(self.mantissa as int, pow(10, (MAX_SCALE - self.scale) as nat));
            } else {
                lemma_mul_by_zero_is_zero(pow(10, (MAX_SCALE - self.scale) as nat));
            }
        }
        self.mantissa == 0
    }
}

/// The mantissa of `d` re-expressed at the (no smaller) scale `s`.
pub open spec fn aligned_mantissa(d: Dec, s: u32) -> int
    recommends
        d.scale <= s,
{
    d.mantissa * pow(10, (s - d.scale) as nat)
}

/// The scale both operands of an addition are brought to.
pub open spec fn joint_scale(a: Dec, b: Dec) -> u32 {
    if a.scale >= b.scale {
        a.scale
    } else {
        b.scale
    }
}

/// Addition of `a` and `b` fails exactly when one of the operands, or their
/// sum, does not fit in the mantissa range at the joint scale.
pub open spec fn add_overflows(a: Dec, b: Dec) -> bool {
    let s = joint_scale(a, b);
    ||| !in_mantissa_range(aligned_mantissa(a, s))
    ||| !in_mantissa_range(aligned_mantissa(b, s))
    ||| !in_mantissa_range(aligned_mantissa(a, s) + aligned_mantissa(b, s))
}

/// `m * 10^k`, or `None` when the product leaves the mantissa range.
fn rescale_mantissa(m: i128, k: u32) -> (r: Option<i128>)
    requires
        in_mantissa_range(m as int),
        k <= MAX_SCALE,
    ensures
        match r {
            Some(v) => v == m * pow(10, k as nat) && in_mantissa_range(v as int),
            None => !in_mantissa_range(m * pow(10, k as nat)),
        },
{
    let mut cur: i128 = m;
    let mut j: u32 = 0;
    proof {
        lemma_pow0(10);
        lemma_mul_basics_2(m as int);
    }
    while j < k
        invariant
            j <= k,
            k <= MAX_SCALE,
            in_mantissa_range(m as int),
            in_mantissa_range(cur as int),
            cur == m * pow(10, j as nat),
        decreases k - j,
    {
        let ghost pj = pow(10, j as nat);
        let next: i128 = cur * 10;
        proof {
            // next == m * 10^(j+1)
            lemma_pow1(10);
            lemma_pow_adds(10, j as nat, 1);
            lemma_mul_is_associative(m as int, pj, 10);
        }
        if next <= -MANTISSA_LIMIT || next >= MANTISSA_LIMIT {
            proof {
                // The magnitude only grows with further factors of ten.
                let rest = pow(10, (k - j - 1) as nat);
                lemma_pow_positive(10, (k - j - 1) as nat);
                lemma_pow_adds(10, (j + 1) as nat, (k - j - 1) as nat);
                lemma_mul_is_associative(m as int, pow(10, (j + 1) as nat), rest);
                assert(m * pow(10, k as nat) == (next as int) * rest);
                assert(!in_mantissa_range((next as int) * rest)) by (nonlinear_arith)
                    requires
                        rest >= 1,
                        !in_mantissa_range(next as int),
                ;
            }
            return None;
        }
        cur = next;
        j = j + 1;
    }
    Some(cur)
}

impl Dec {
    /// Exact addition at the joint scale.  Returns `None` exactly when the
    /// result is not representable ([`add_overflows`]); otherwise the result
    /// denotes the sum of the two numbers.
    pub fn add(self, other: Dec) -> (r: Option<Dec>)
        requires
            self.wf(),
            other.wf(),
        ensures
            r is Some <==> !add_overflows(self, other),
            match r {
                Some(c) => {
                    &&& c.wf()
                    &&& c.val() == self.val() + other.val()
                    &&& c.scale == joint_scale(self, other)
                    &&& c.mantissa == aligned_mantissa(self, c.scale) + aligned_mantissa(
                        other,
                        c.scale,
                    )
                },
                None => true,
            },
    {
        let s: u32 = if self.scale >= other.scale {
            self.scale
        } else {
            other.scale
        };
        let ra = match rescale_mantissa(self.mantissa, s - self.scale) {
            Some(v) => v,
            None => {
                return None;
            },
        };
        let rb = match rescale_mantissa(other.mantissa, s - other.scale) {
            Some(v) => v,
            None => {
                return None;
            },
        };
        let sum: i128 = ra + rb;
        if sum <= -MANTISSA_LIMIT || sum >= MANTISSA_LIMIT {
            None
        } else {
            let c = Dec { mantissa: sum, scale: s };
            proof {
                lemma_aligned_sum_val(self, other, c);
            }
            Some(c)
        }
    }
}

/// The negation of `d`, as a value.
pub open spec fn spec_neg(d: Dec) -> Dec {
    Dec { mantissa: (-d.mantissa) as i128, scale: d.scale }
}

/// Multiplication of `a` and `b` fails exactly when the scales sum past
/// [`MAX_SCALE`] or the product of the mantissas leaves the mantissa range.
pub open spec fn mul_overflows(a: Dec, b: Dec) -> bool {
    ||| a.scale + b.scale > MAX_SCALE
    ||| !in_mantissa_range(a.mantissa * b.mantissa)
}

impl Dec {
    /// The sign of a well-formed decimal is the sign of its mantissa.
    pub proof fn lemma_val_sign(self)
        requires
            self.wf(),
        ensures
            (self.mantissa < 0) == (self.val() < 0),
            (self.mantissa == 0) == (self.val() == 0),
            (self.mantissa > 0) == (self.val() > 0),
    {
        let p = pow(10, (MAX_SCALE - self.scale) as nat);
        lemma_pow_positive(10, (MAX_SCALE - self.scale) as nat);
        let m = self.mantissa as int;
        assert(((m < 0) == (m * p < 0)) && ((m == 0) == (m * p == 0)) && ((m > 0) == (m * p
            > 0))) by (nonlinear_arith)
            requires
                p > 0,
        ;
    }

    /// Exact multiplication.  Returns `None` exactly when the product is not
    /// representable ([`mul_overflows`]); otherwise the result denotes the
    /// product of the two numbers (`val`s multiply up to the fixed
    /// `10^MAX_SCALE` scaling).
    pub fn mul(self, other: Dec) -> (r: Option<Dec>)
        requires
            self.wf(),
            other.wf(),
        ensures
            r is Some <==> !mul_overflows(self, other),
            r matches Some(c) ==> {
                &&& c.wf()
                &&& c.val() * pow(10, MAX_SCALE as nat) == self.val() * other.val()
                &&& c.scale == self.scale + other.scale
                &&& c.mantissa == self.mantissa * other.mantissa
            },
    {
        if self.scale > MAX_SCALE - other.scale {
            return None;
        }
        match self.mantissa.checked_mul(other.mantissa) {
            Some(p) => {
                if p <= -MANTISSA_LIMIT || p >= MANTISSA_LIMIT {
                    None
                } else {
                    let c = Dec { mantissa: p, scale: self.scale + other.scale };
                    proof {
                        lemma_mul_val(self, other, c);
                    }
                    Some(c)
                }
            },
            None => {
                proof {
                    // An `i128` overflow is far outside the mantissa range.
                    assert(!in_mantissa_range(self.mantissa * other.mantissa));
                }
                None
            },
        }
    }

    /// Exact value equality, across scales.
    pub fn eq_val(self, other: Dec) -> (r: bool)
        requires
            self.wf(),
            other.wf(),
        ensures
            r == (self.val() == other.val()),
    {
        let nb = other.neg();
        match self.add(nb) {
            Some(d) => {
                proof {
                    d.lemma_val_sign();
                }
                d.mantissa == 0
            },
            None => {
                proof {
                    lemma_overflow_sum_nonzero(self, nb);
                }
                false
            },
        }
    }

    /// Exact value ordering, across scales.  `None` exactly when the
    /// difference is not representable ([`add_overflows`] on the negated
    /// second operand).
    pub fn lt_val(self, other: Dec) -> (r: Option<bool>)
        requires
            self.wf(),
            other.wf(),
        ensures
            r is Some <==> !add_overflows(self, spec_neg(other)),
            r matches Some(b) ==> b == (self.val() < other.val()),
    {
        let nb = other.neg();
        match self.add(nb) {
            Some(d) => {
                proof {
                    d.lemma_val_sign();
                }
                Some(d.mantissa < 0)
            },
            None => None,
        }
    }
}

/// The product of mantissas at the summed scale denotes the product of the
/// values (relative to the fixed `10^MAX_SCALE` scaling).
proof fn lemma_mul_val(a: Dec, b: Dec, c: Dec)
    requires
        a.wf(),
        b.wf(),
        a.scale + b.scale <= MAX_SCALE,
        c.scale == a.scale + b.scale,
        c.mantissa == a.mantissa * b.mantissa,
    ensures
        c.val() * pow(10, MAX_SCALE as nat) == a.val() * b.val(),
{
    let pa = pow(10, (MAX_SCALE - a.scale) as nat);
    let pb = pow(10, (MAX_SCALE - b.scale) as nat);
    let pc = pow(10, (MAX_SCALE - c.scale) as nat);
    let p28 = pow(10, MAX_SCALE as nat);
    lemma_pow_adds(10, (MAX_SCALE - a.scale) as nat, (MAX_SCALE - b.scale) as nat);
    lemma_pow_adds(10, (MAX_SCALE - c.scale) as nat, MAX_SCALE as nat);
    assert(pa * pb == pc * p28);
    let ma = a.mantissa as int;
    let mb = b.mantissa as int;
    assert((ma * mb * pc) * p28 == (ma * pa) * (mb * pb)) by (nonlinear_arith)
        requires
            pa * pb == pc * p28,
    ;
}

/// Where forming the difference overflows, the operands' sum is non-zero:
/// overflow never hides equality.
proof fn lemma_overflow_sum_nonzero(a: Dec, b: Dec)
    requires
        a.wf(),
        b.wf(),
        add_overflows(a, b),
    ensures
        a.val() + b.val() != 0,
{
    let s = joint_scale(a, b);
    let p = pow(10, (MAX_SCALE - s) as nat);
    lemma_pow_positive(10, (MAX_SCALE - s) as nat);
    let ma = aligned_mantissa(a, s);
    let mb = aligned_mantissa(b, s);
    lemma_aligned_val(a, s);
    lemma_aligned_val(b, s);
    lemma_mul_is_distributive_add_other_way(p, ma, mb);
    assert(a.val() + b.val() == (ma + mb) * p);
    if ma + mb == 0 {
        // Then neither operand's aligned mantissa can have left the range:
        // one of them is stored at the joint scale, and the other is its
        // negation; nor can their sum, which is zero.
        if s == a.scale {
            lemma_pow0(10);
            assert(ma == a.mantissa * 1);
            lemma_mul_basics_2(a.mantissa as int);
            assert(in_mantissa_range(ma));
        } else {
            lemma_pow0(10);
            assert(mb == b.mantissa * 1);
            lemma_mul_basics_2(b.mantissa as int);
            assert(in_mantissa_range(mb));
        }
        assert(in_mantissa_range(ma) && in_mantissa_range(mb));
        assert(false);
    }
    assert((ma + mb) * p != 0) by (nonlinear_arith)
        requires
            p > 0,
            ma + mb != 0,
    ;
}

/// A non-overflowing sum at the joint scale is well-formed and denotes the
/// sum of the values.
pub proof fn lemma_add_dec_val(a: Dec, b: Dec)
    requires
        a.wf(),
        b.wf(),
        !add_overflows(a, b),
    ensures
        (Dec {
            mantissa: (aligned_mantissa(a, joint_scale(a, b)) + aligned_mantissa(
                b,
                joint_scale(a, b),
            )) as i128,
            scale: joint_scale(a, b),
        }).wf(),
        (Dec {
            mantissa: (aligned_mantissa(a, joint_scale(a, b)) + aligned_mantissa(
                b,
                joint_scale(a, b),
            )) as i128,
            scale: joint_scale(a, b),
        }).val() == a.val() + b.val(),
{
    let c = Dec {
        mantissa: (aligned_mantissa(a, joint_scale(a, b)) + aligned_mantissa(
            b,
            joint_scale(a, b),
        )) as i128,
        scale: joint_scale(a, b),
    };
    lemma_aligned_sum_val(a, b, c);
}

/// The value of a sum formed at the joint scale is the sum of the values.
proof fn lemma_aligned_sum_val(a: Dec, b: Dec, c: Dec)
    requires
        a.wf(),
        b.wf(),
        c.scale == joint_scale(a, b),
        c.mantissa == aligned_mantissa(a, c.scale) + aligned_mantissa(b, c.scale),
    ensures
        c.val() == a.val() + b.val(),
{
    let s = c.scale;
    let rest = pow(10, (MAX_SCALE - s) as nat);
    lemma_mul_is_distributive_add_other_way(
        rest,
        aligned_mantissa(a, s),
        aligned_mantissa(b, s),
    );
    lemma_aligned_val(a, s);
    lemma_aligned_val(b, s);
}

/// Re-expressing a mantissa at a larger scale keeps the denoted value.
proof fn lemma_aligned_val(d: Dec, s: u32)
    requires
        d.wf(),
        d.scale <= s <= MAX_SCALE,
    ensures
        aligned_mantissa(d, s) * pow(10, (MAX_SCALE - s) as nat) == d.val(),
{
    lemma_pow_adds(10, (s - d.scale) as nat, (MAX_SCALE - s) as nat);
    lemma_mul_is_associative(
        d.mantissa as int,
        pow(10, (s - d.scale) as nat),
        pow(10, (MAX_SCALE - s) as nat),
    );
}

/// Twenty-eight decimal digits stay below the mantissa limit.
pub proof fn lemma_pow10_28_lt_limit()
    ensures
        pow(10, 28) == 10000000000000000000000000000,
        pow(10, 28) < MANTISSA_LIMIT,
{
    reveal_with_fuel(pow, 29);
}

/// What `rust_decimal` parses a piece of decimal text to: the mantissa and
/// scale of the parsed number, or `None` where the text is not a decimal
/// numeral.
pub uninterp spec fn spec_parse_decimal(s: Seq<char>) -> Option<(i128, u32)>;

/// What `rust_decimal` prints a decimal as.
pub uninterp spec fn spec_decimal_string(mantissa: i128, scale: u32) -> Seq<char>;

/// Relies on `rust_decimal::Decimal::from_str` to parse decimal text
/// exactly (never through binary floating point), and on its guarantee
/// that a `Decimal`'s mantissa is 96-bit and its scale at most 28.
#[verifier::external_body]
pub(crate) fn parse_decimal_raw(s: &str) -> (r: Option<(i128, u32)>)
    ensures
        r == spec_parse_decimal(s@),
        match r {
            Some(p) => in_mantissa_range(p.0 as int) && p.1 <= MAX_SCALE,
            None => true,
        },
{
    match s.parse::<rust_decimal::Decimal>() {
        Ok(d) => Some((d.mantissa(), d.scale())),
        Err(_) => None,
    }
}

/// Parse decimal text to a well-formed [`Dec`], or `None` where the text is
/// not a decimal numeral.
pub fn parse_decimal(s: &str) -> (r: Option<Dec>)
    ensures
        match spec_parse_decimal(s@) {
            Some(p) => r == Some(Dec { mantissa: p.0, scale: p.1 }) && r.unwrap().wf(),
            None => r is None,
        },
{
    match parse_decimal_raw(s) {
        Some(p) => Some(Dec { mantissa: p.0, scale: p.1 }),
        None => None,
    }
}

/// Relies on `rust_decimal::Decimal::to_string` for rendering
/// (`Decimal::from_i128_with_scale` only converts the argument, and accepts
/// every well-formed mantissa/scale pair).
#[verifier::external_body]
pub(crate) fn decimal_string_raw(mantissa: i128, scale: u32) -> (r: String)
    requires
        in_mantissa_range(mantissa as int),
        scale <= MAX_SCALE,
    ensures
        r@ == spec_decimal_string(mantissa, scale),
{
    rust_decimal::Decimal::from_i128_with_scale(mantissa, scale).to_string()
}

/// Render a decimal as text, as `rust_decimal` prints it.
pub fn decimal_to_string(d: &Dec) -> (r: String)
    requires
        d.wf(),
    ensures
        r@ == spec_decimal_string(d.mantissa, d.scale),
{
    decimal_string_raw(d.mantissa, d.scale)
}

} // verus!
