//! Fixed-point decimal numbers, computed by `rust_decimal`.
use crate::text_fmt::digits;
use rust_decimal::prelude::ToPrimitive;
use rust_decimal::Decimal;
use rust_decimal::RoundingStrategy;
use std::str::FromStr;
use vstd::prelude::*;

verus! {

/// A decimal number `(-1)^negative * magnitude / 10^scale`, the parts that a
/// `rust_decimal::Decimal` is made of.
#[derive(Debug, Clone, Copy, PartialEq, Eq, Structural)]
pub struct Dec {
    pub negative: bool,
    pub magnitude: u128,
    pub scale: u32,
}

/// Largest magnitude a decimal holds (96 bits).
pub open spec fn max_magnitude() -> u128 {
    0xFFFF_FFFF_FFFF_FFFF_FFFF_FFFFu128
}

impl Dec {
    /// The parts fit a `rust_decimal::Decimal`: scale at most 28, a 96-bit magnitude.
    pub open spec fn wf(&self) -> bool {
        self.scale <= 28 && self.magnitude <= max_magnitude()
    }

    /// Executable `wf`.
    pub fn is_wf(&self) -> (b: bool)
        ensures
            b == self.wf(),
    {
        self.scale <= 28 && self.magnitude <= 0xFFFF_FFFF_FFFF_FFFF_FFFF_FFFFu128
    }
}

/// `n` zeros.
pub open spec fn zeros(n: nat) -> Seq<char> {
    Seq::new(n, |i: int| '0')
}

/// The text `rust_decimal` displays for a decimal: the sign, the digits of the
/// magnitude left-padded with zeros to cover the scale, and a point before the
/// last `scale` digits (with `0` for an empty whole part).
pub open spec fn dec_display(d: Dec) -> Seq<char> {
    let ds = if d.magnitude == 0 {
        Seq::<char>::empty()
    } else {
        digits(d.magnitude as nat)
    };
    let p = if ds.len() < d.scale {
        zeros((d.scale - ds.len()) as nat) + ds
    } else {
        ds
    };
    let whole = p.take(p.len() - d.scale);
    let frac = p.skip(p.len() - d.scale);
    let body = if d.scale == 0 {
        if p.len() == 0 {
            seq!['0']
        } else {
            p
        }
    } else {
        (if whole.len() == 0 {
            seq!['0']
        } else {
            whole
        }) + seq!['.'] + frac
    };
    (if d.negative {
        seq!['-']
    } else {
        Seq::<char>::empty()
    }) + body
}

/// What `<rust_decimal::Decimal as FromStr>::from_str` gives for a text, in parts.
pub uninterp spec fn decimal_parse(s: Seq<char>) -> Option<Dec>;

/// Calls `Decimal::from_str` and splits the result into its parts.
/// Claims: the result is `decimal_parse` of the text, and a parsed decimal has
/// scale at most 28 and a 96-bit magnitude.
#[verifier::external_body]
pub(crate) fn parse_decimal(s: &str) -> (r: Option<Dec>)
    ensures
        r == decimal_parse(s@),
        r matches Some(d) ==> d.wf(),
{
    match Decimal::from_str(s) {
        Ok(d) => Some(Dec { negative: d.is_sign_negative(), magnitude: d.mantissa().unsigned_abs(), scale: d.scale() }),
        Err(_) => None,
    }
}

/// Calls `<Decimal as Display>::fmt` (through `to_string`) on the decimal made of the parts.
/// Claims: the text is `dec_display` of the parts.
#[verifier::external_body]
pub(crate) fn decimal_text(d: Dec) -> (s: String)
    requires
        d.wf(),
    ensures
        s@ == dec_display(d),
{
    let mut v = Decimal::from_i128_with_scale(d.magnitude as i128, d.scale);
    v.set_sign_negative(d.negative);
    v.to_string()
}

/// `10^n`.
pub open spec fn pow10(n: nat) -> int
    decreases n,
{
    if n == 0 {
        1
    } else {
        10 * pow10((n - 1) as nat)
    }
}

/// The signed magnitude: the value times `10^scale`.
pub open spec fn signed(d: Dec) -> int {
    if d.negative {
        -(d.magnitude as int)
    } else {
        d.magnitude as int
    }
}

/// `a` is smaller than `b` as a number.
pub open spec fn dec_lt(a: Dec, b: Dec) -> bool {
    signed(a) * pow10(b.scale as nat) < signed(b) * pow10(a.scale as nat)
}

/// `a` and `b` are the same number (`1.0` and `1.00`, `0` and `-0` are).
pub open spec fn dec_same_value(a: Dec, b: Dec) -> bool {
    signed(a) * pow10(b.scale as nat) == signed(b) * pow10(a.scale as nat)
}

/// The number is zero.
pub open spec fn dec_zero(d: Dec) -> bool {
    d.magnitude == 0
}

/// Is the number zero (`Decimal::is_zero`).
pub fn dec_is_zero(d: Dec) -> (b: bool)
    ensures
        b == dec_zero(d),
{
    d.magnitude == 0
}

/// The negation (`Neg`): the sign flips, the digits stay.
pub fn dec_neg(d: Dec) -> (r: Dec)
    ensures
        r == (Dec { negative: !d.negative, ..d }),
{
    Dec { negative: !d.negative, magnitude: d.magnitude, scale: d.scale }
}

/// The absolute value (`Decimal::abs`): the sign is cleared.
pub fn dec_abs(d: Dec) -> (r: Dec)
    ensures
        r == (Dec { negative: false, ..d }),
{
    Dec { negative: false, magnitude: d.magnitude, scale: d.scale }
}

/// The decimal of an integer (`From<i64>`): scale 0.
pub fn dec_from_i64(n: i64) -> (r: Dec)
    ensures
        r.wf(),
        r.scale == 0,
        signed(r) == n,
        r.negative == (n < 0),
{
    if n < 0 {
        let m: i128 = -(n as i128);
        Dec { negative: true, magnitude: m as u128, scale: 0 }
    } else {
        Dec { negative: false, magnitude: n as u128, scale: 0 }
    }
}

/// The digits and scale left once trailing zeros of the fraction are dropped.
pub open spec fn strip_zeros(m: nat, s: nat) -> (nat, nat)
    decreases s,
{
    if s > 0 && m % 10 == 0 {
        strip_zeros(m / 10, (s - 1) as nat)
    } else {
        (m, s)
    }
}

/// `Decimal::normalize`: trailing zeros of the fraction are dropped, and a
/// zero becomes a positive zero of scale 0.
pub open spec fn normalized(d: Dec) -> Dec {
    let (m, s) = strip_zeros(d.magnitude as nat, d.scale as nat);
    Dec { negative: d.negative && m != 0, magnitude: m as u128, scale: s as u32 }
}

proof fn lemma_strip_bounds(m: nat, s: nat)
    ensures
        strip_zeros(m, s).0 <= m,
        strip_zeros(m, s).1 <= s,
        m == 0 ==> strip_zeros(m, s) == (0nat, 0nat),
    decreases s,
{
    if s > 0 && m % 10 == 0 {
        lemma_strip_bounds(m / 10, (s - 1) as nat);
    }
}

/// `Decimal::normalize`: drops the trailing zeros of the fraction.
pub fn dec_normalize(d: Dec) -> (r: Dec)
    requires
        d.wf(),
    ensures
        r == normalized(d),
        r.wf(),
{
    let mut m = d.magnitude;
    let mut s = d.scale;
    while s > 0 && m % 10 == 0
        invariant
            strip_zeros(m as nat, s as nat) == strip_zeros(d.magnitude as nat, d.scale as nat),
            m <= d.magnitude,
            s <= d.scale,
        decreases s,
    {
        m = m / 10;
        s = s - 1;
    }
    proof {
        lemma_strip_bounds(d.magnitude as nat, d.scale as nat);
    }
    Dec { negative: d.negative && m != 0, magnitude: m, scale: s }
}

/// `a < b` on the decimals made of the parts (`PartialOrd for Decimal`).
/// Claims: it compares the numbers the parts stand for.
#[verifier::external_body]
pub(crate) fn decimal_less(a: Dec, b: Dec) -> (r: bool)
    requires
        a.wf(),
        b.wf(),
    ensures
        r == dec_lt(a, b),
{
    let mut x = Decimal::from_i128_with_scale(a.magnitude as i128, a.scale);
    x.set_sign_negative(a.negative);
    let mut y = Decimal::from_i128_with_scale(b.magnitude as i128, b.scale);
    y.set_sign_negative(b.negative);
    x < y
}

/// `a == b` on the decimals made of the parts (`PartialEq for Decimal`).
/// Claims: it holds exactly when the parts stand for the same number.
#[verifier::external_body]
pub(crate) fn decimal_equal(a: Dec, b: Dec) -> (r: bool)
    requires
        a.wf(),
        b.wf(),
    ensures
        r == dec_same_value(a, b),
{
    let mut x = Decimal::from_i128_with_scale(a.magnitude as i128, a.scale);
    x.set_sign_negative(a.negative);
    let mut y = Decimal::from_i128_with_scale(b.magnitude as i128, b.scale);
    y.set_sign_negative(b.negative);
    x == y
}

/// What `Decimal::checked_add` gives, in parts (`None` on overflow).
pub uninterp spec fn decimal_add(a: Dec, b: Dec) -> Option<Dec>;

/// What `Decimal::checked_sub` gives, in parts (`None` on overflow).
pub uninterp spec fn decimal_sub(a: Dec, b: Dec) -> Option<Dec>;

/// What `Decimal::checked_mul` gives, in parts (`None` on overflow).
pub uninterp spec fn decimal_mul(a: Dec, b: Dec) -> Option<Dec>;

/// What `Decimal::checked_div` gives, in parts (`None` on overflow or a zero divisor).
pub uninterp spec fn decimal_div(a: Dec, b: Dec) -> Option<Dec>;

/// Calls `Decimal::checked_add`. Claims: the result is `decimal_add` of the
/// operands, and a sum has well-formed parts.
#[verifier::external_body]
pub(crate) fn dec_checked_add(a: Dec, b: Dec) -> (r: Option<Dec>)
    requires
        a.wf(),
        b.wf(),
    ensures
        r == decimal_add(a, b),
        r matches Some(d) ==> d.wf(),
{
    let mut x = Decimal::from_i128_with_scale(a.magnitude as i128, a.scale);
    x.set_sign_negative(a.negative);
    let mut y = Decimal::from_i128_with_scale(b.magnitude as i128, b.scale);
    y.set_sign_negative(b.negative);
    x.checked_add(y).map(|d| Dec { negative: d.is_sign_negative(), magnitude: d.mantissa().unsigned_abs(), scale: d.scale() })
}

/// Calls `Decimal::checked_sub`. Claims: the result is `decimal_sub` of the
/// operands, and a difference has well-formed parts.
#[verifier::external_body]
pub(crate) fn dec_checked_sub(a: Dec, b: Dec) -> (r: Option<Dec>)
    requires
        a.wf(),
        b.wf(),
    ensures
        r == decimal_sub(a, b),
        r matches Some(d) ==> d.wf(),
{
    let mut x = Decimal::from_i128_with_scale(a.magnitude as i128, a.scale);
    x.set_sign_negative(a.negative);
    let mut y = Decimal::from_i128_with_scale(b.magnitude as i128, b.scale);
    y.set_sign_negative(b.negative);
    x.checked_sub(y).map(|d| Dec { negative: d.is_sign_negative(), magnitude: d.mantissa().unsigned_abs(), scale: d.scale() })
}

/// Calls `Decimal::checked_mul`. Claims: the result is `decimal_mul` of the
/// operands, and a product has well-formed parts.
#[verifier::external_body]
pub(crate) fn dec_checked_mul(a: Dec, b: Dec) -> (r: Option<Dec>)
    requires
        a.wf(),
        b.wf(),
    ensures
        r == decimal_mul(a, b),
        r matches Some(d) ==> d.wf(),
{
    let mut x = Decimal::from_i128_with_scale(a.magnitude as i128, a.scale);
    x.set_sign_negative(a.negative);
    let mut y = Decimal::from_i128_with_scale(b.magnitude as i128, b.scale);
    y.set_sign_negative(b.negative);
    x.checked_mul(y).map(|d| Dec { negative: d.is_sign_negative(), magnitude: d.mantissa().unsigned_abs(), scale: d.scale() })
}

/// Calls `Decimal::checked_div`. Claims: the result is `decimal_div` of the
/// operands, `None` for a zero divisor, and a quotient has well-formed parts.
#[verifier::external_body]
pub(crate) fn dec_checked_div(a: Dec, b: Dec) -> (r: Option<Dec>)
    requires
        a.wf(),
        b.wf(),
    ensures
        r == decimal_div(a, b),
        dec_zero(b) ==> r is None,
        r matches Some(d) ==> d.wf(),
{
    let mut x = Decimal::from_i128_with_scale(a.magnitude as i128, a.scale);
    x.set_sign_negative(a.negative);
    let mut y = Decimal::from_i128_with_scale(b.magnitude as i128, b.scale);
    y.set_sign_negative(b.negative);
    x.checked_div(y).map(|d| Dec { negative: d.is_sign_negative(), magnitude: d.mantissa().unsigned_abs(), scale: d.scale() })
}

/// An integer as an `i64`, when it fits.
pub open spec fn fit_i64(q: int) -> Option<i64> {
    if i64::MIN <= q <= i64::MAX {
        Some(q as i64)
    } else {
        None
    }
}

/// The largest integer not above the number.
pub open spec fn dec_floor(d: Dec) -> int {
    signed(d) / pow10(d.scale as nat)
}

/// The nearest integer, halves away from zero.
pub open spec fn dec_round_half_away(d: Dec) -> int {
    let p = pow10(d.scale as nat);
    let r = (2 * (d.magnitude as int) + p) / (2 * p);
    if d.negative {
        -r
    } else {
        r
    }
}

/// Calls `Decimal::floor` and then `ToPrimitive::to_i64`.
/// Claims: the floor of the number, when it fits an `i64`.
#[verifier::external_body]
pub(crate) fn dec_floor_i64(d: Dec) -> (r: Option<i64>)
    requires
        d.wf(),
    ensures
        r == fit_i64(dec_floor(d)),
{
    let mut x = Decimal::from_i128_with_scale(d.magnitude as i128, d.scale);
    x.set_sign_negative(d.negative);
    x.floor().to_i64()
}

/// Calls `Decimal::round_dp_with_strategy` (0 places, `MidpointAwayFromZero`)
/// and then `ToPrimitive::to_i64`.
/// Claims: the nearest integer, halves away from zero, when it fits an `i64`.
#[verifier::external_body]
pub(crate) fn dec_round_i64(d: Dec) -> (r: Option<i64>)
    requires
        d.wf(),
    ensures
        r == fit_i64(dec_round_half_away(d)),
{
    let mut x = Decimal::from_i128_with_scale(d.magnitude as i128, d.scale);
    x.set_sign_negative(d.negative);
    x.round_dp_with_strategy(0, RoundingStrategy::MidpointAwayFromZero).to_i64()
}

proof fn lemma_strip_done(m: nat, s: nat)
    ensures
        !(strip_zeros(m, s).1 > 0 && strip_zeros(m, s).0 % 10 == 0),
    decreases s,
{
    if s > 0 && m % 10 == 0 {
        lemma_strip_done(m / 10, (s - 1) as nat);
    }
}

/// Normalizing twice is normalizing once.
pub proof fn law_normalize_idempotent(d: Dec)
    ensures
        normalized(normalized(d)) == normalized(d),
{
    let n = normalized(d);
    lemma_strip_done(d.magnitude as nat, d.scale as nat);
    lemma_strip_bounds(d.magnitude as nat, d.scale as nat);
    assert(strip_zeros(n.magnitude as nat, n.scale as nat) == (n.magnitude as nat, n.scale as nat));
}

} // verus!
