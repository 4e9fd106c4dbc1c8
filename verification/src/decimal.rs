//! Fixed-precision decimal numbers: a signed 96-bit mantissa and a scale of at
//! most 28 decimal places.
//!
//! The arithmetic itself is done by the `rust_decimal` crate. The functions of
//! this module that call it are marked `external_body`: Verus believes their
//! contracts and does not read their bodies. Where the result of an operation
//! depends on how that crate rounds, the contract only gives the result a name
//! (`decimal_sum`, `decimal_cosine`, ...); comparison, rounding to a number of
//! places and the textual form are stated in full.
//!
//! Each of these functions first builds the crate's decimal from a mantissa
//! and a scale with `from_i128_with_scale`, which panics on a mantissa of more
//! than 96 bits or a scale above 28. The functions require a representable
//! number, and every `Decimal` is one by its type invariant. The result is
//! taken apart again with `mantissa` and `scale`.

use vstd::prelude::*;

verus! {

/// Largest magnitude of a mantissa: `2^96 - 1`.
pub const MAX_MANTISSA: i128 = 0xFFFF_FFFF_FFFF_FFFF_FFFF_FFFF;

/// Largest number of decimal places.
pub const MAX_SCALE: u32 = 28;

/// Whether `mantissa / 10^scale` is a decimal number that this crate can hold.
pub open spec fn representable(mantissa: i128, scale: u32) -> bool {
    -MAX_MANTISSA <= mantissa <= MAX_MANTISSA && scale <= MAX_SCALE
}

/// `10^n`.
pub open spec fn pow10(n: nat) -> int
    decreases n,
{
    if n == 0 {
        1
    } else {
        10 * pow10((n - 1) as nat)
    }
}

/// The magnitude of an integer.
pub open spec fn magnitude(n: int) -> nat {
    if n < 0 {
        (-n) as nat
    } else {
        n as nat
    }
}

/// `n / unit` rounded to the nearest integer, a tie going to the even one.
pub open spec fn round_half_even(n: nat, unit: int) -> int {
    let quotient = n as int / unit;
    let rest = n as int % unit;
    if 2 * rest > unit || (2 * rest == unit && quotient % 2 == 1) {
        quotient + 1
    } else {
        quotient
    }
}

/// The character of a decimal digit.
pub open spec fn digit(d: int) -> char {
    (d + 48) as char
}

/// The decimal digits of `n`, without leading zeros; `0` for zero.
pub open spec fn digits(n: nat) -> Seq<char>
    decreases n,
{
    if n < 10 {
        seq![digit(n as int)]
    } else {
        digits(n / 10).push(digit(n as int % 10))
    }
}

/// The lowest `width` decimal digits of `n`, with leading zeros.
pub open spec fn padded_digits(n: nat, width: nat) -> Seq<char>
    decreases width,
{
    if width == 0 {
        Seq::empty()
    } else {
        padded_digits(n / 10, (width - 1) as nat).push(digit(n as int % 10))
    }
}

/// The text of `mantissa / 10^scale`: a minus sign where it is negative, the
/// integer part, and, where `scale` is positive, a point and exactly `scale`
/// digits.
pub open spec fn decimal_text(mantissa: int, scale: nat) -> Seq<char> {
    let unit = pow10(scale);
    let size = magnitude(mantissa) as int;
    let sign = if mantissa < 0 {
        seq!['-']
    } else {
        Seq::empty()
    };
    let whole = digits((size / unit) as nat);
    let fraction = if scale == 0 {
        Seq::empty()
    } else {
        seq!['.'] + padded_digits((size % unit) as nat, scale)
    };
    sign + whole + fraction
}

/// The number `mantissa / 10^scale`.
///
/// Two decimals of one value and different scales (`1.0` and `1.00`) are
/// different decimals: they have different texts.
#[derive(Clone, Copy, Debug, PartialEq, Eq)]
pub struct Decimal {
    mantissa: i128,
    scale: u32,
}

/// What `rust_decimal` gives for `a + b`, each number written as its mantissa
/// and its scale; `None` where it reports an overflow.
pub uninterp spec fn decimal_sum(m1: i128, s1: u32, m2: i128, s2: u32) -> Option<(i128, u32)>;

/// What `rust_decimal` gives for `a - b`; `None` where it reports an overflow.
pub uninterp spec fn decimal_difference(m1: i128, s1: u32, m2: i128, s2: u32) -> Option<
    (i128, u32),
>;

/// What `rust_decimal` gives for `a * b`; `None` where it reports an overflow.
pub uninterp spec fn decimal_product(m1: i128, s1: u32, m2: i128, s2: u32) -> Option<(i128, u32)>;

/// What `rust_decimal` gives for `a / b`; `None` where `b` is zero or it
/// reports an overflow.
pub uninterp spec fn decimal_quotient(m1: i128, s1: u32, m2: i128, s2: u32) -> Option<(i128, u32)>;

/// What `rust_decimal` gives for the cosine of an angle in radians.
pub uninterp spec fn decimal_cosine(m: i128, s: u32) -> Option<(i128, u32)>;

/// What `rust_decimal` gives for the sine of an angle in radians.
pub uninterp spec fn decimal_sine(m: i128, s: u32) -> Option<(i128, u32)>;

/// What `rust_decimal` reads from a text; `None` where it takes the text for
/// no number.
pub uninterp spec fn decimal_parsed(text: Seq<char>) -> Option<(i128, u32)>;

impl Decimal {
    #[verifier::type_invariant]
    spec fn valid(self) -> bool {
        representable(self.mantissa, self.scale)
    }

    /// The integer of which the value is a fraction.
    pub closed spec fn mantissa_spec(&self) -> i128 {
        self.mantissa
    }

    /// The number of decimal places.
    pub closed spec fn scale_spec(&self) -> u32 {
        self.scale
    }

    /// The decimal with this mantissa and this scale.
    pub closed spec fn of(mantissa: i128, scale: u32) -> Decimal {
        Decimal { mantissa, scale }
    }

    /// The decimal that a named result stands for.
    pub open spec fn of_parts(parts: Option<(i128, u32)>) -> Option<Decimal> {
        match parts {
            Some((mantissa, scale)) => Some(Decimal::of(mantissa, scale)),
            None => None,
        }
    }

    /// `0`.
    pub open spec fn zero_spec() -> Decimal {
        Decimal::of(0, 0)
    }

    /// `1`.
    pub open spec fn one_spec() -> Decimal {
        Decimal::of(1, 0)
    }

    /// `2`.
    pub open spec fn two_spec() -> Decimal {
        Decimal::of(2, 0)
    }

    /// `0.5`.
    pub open spec fn half_spec() -> Decimal {
        Decimal::of(5, 1)
    }

    /// `180`.
    pub open spec fn straight_angle_spec() -> Decimal {
        Decimal::of(180, 0)
    }

    /// π to 28 places: `3.1415926535897932384626433833`.
    pub open spec fn pi_spec() -> Decimal {
        Decimal::of(31415926535897932384626433833, 28)
    }

    /// π/2 to 28 places: `1.5707963267948966192313216916`.
    pub open spec fn half_pi_spec() -> Decimal {
        Decimal::of(15707963267948966192313216916, 28)
    }

    /// The sum as `rust_decimal` computes it.
    pub open spec fn plus(self, other: Decimal) -> Option<Decimal> {
        Decimal::of_parts(
            decimal_sum(self.mantissa(), self.scale(), other.mantissa(), other.scale()),
        )
    }

    /// The difference as `rust_decimal` computes it.
    pub open spec fn minus(self, other: Decimal) -> Option<Decimal> {
        Decimal::of_parts(
            decimal_difference(self.mantissa(), self.scale(), other.mantissa(), other.scale()),
        )
    }

    /// The product as `rust_decimal` computes it.
    pub open spec fn times(self, other: Decimal) -> Option<Decimal> {
        Decimal::of_parts(
            decimal_product(self.mantissa(), self.scale(), other.mantissa(), other.scale()),
        )
    }

    /// The quotient as `rust_decimal` computes it.
    pub open spec fn over(self, other: Decimal) -> Option<Decimal> {
        Decimal::of_parts(
            decimal_quotient(self.mantissa(), self.scale(), other.mantissa(), other.scale()),
        )
    }

    /// The cosine as `rust_decimal` computes it.
    pub open spec fn cosine(self) -> Option<Decimal> {
        Decimal::of_parts(decimal_cosine(self.mantissa(), self.scale()))
    }

    /// The sine as `rust_decimal` computes it.
    pub open spec fn sine(self) -> Option<Decimal> {
        Decimal::of_parts(decimal_sine(self.mantissa(), self.scale()))
    }

    /// The number that `rust_decimal` reads from a text.
    pub open spec fn parsed(text: Seq<char>) -> Option<Decimal> {
        Decimal::of_parts(decimal_parsed(text))
    }

    /// An angle given in degrees, in radians: `self / 180 * π`.
    pub open spec fn radians(self) -> Option<Decimal> {
        match self.over(Decimal::straight_angle()) {
            Some(turns) => turns.times(Decimal::pi()),
            None => None,
        }
    }

    /// The same magnitude with the other sign.
    pub open spec fn negated(self) -> Decimal {
        Decimal::of((-self.mantissa()) as i128, self.scale())
    }

    /// Whether the value of `self` is below the value of `other`.
    pub open spec fn below(self, other: Decimal) -> bool {
        self.mantissa() * pow10(other.scale() as nat) < other.mantissa() * pow10(
            self.scale() as nat,
        )
    }

    /// The value rounded to `places` decimal places, a tie going to the even
    /// neighbour; `self` where it has no more places than that.
    pub open spec fn rounded(self, places: u32) -> Decimal {
        if self.scale() <= places {
            self
        } else {
            let unit = pow10((self.scale() - places) as nat);
            let size = round_half_even(magnitude(self.mantissa() as int), unit);
            Decimal::of(
                (if self.mantissa() < 0 {
                    -size
                } else {
                    size
                }) as i128,
                places,
            )
        }
    }

    /// The text of the number.
    pub open spec fn text(self) -> Seq<char> {
        decimal_text(self.mantissa() as int, self.scale() as nat)
    }

    /// Whether the value lies in the closed interval from 0 to 1.
    pub open spec fn in_unit_interval(self) -> bool {
        0 <= self.mantissa() <= pow10(self.scale() as nat)
    }

    /// A decimal is known by its mantissa and its scale.
    pub broadcast proof fn lemma_of_parts(mantissa: i128, scale: u32)
        ensures
            (#[trigger] Decimal::of(mantissa, scale)).mantissa() == mantissa,
            Decimal::of(mantissa, scale).scale() == scale,
    {
    }

    /// Two decimals with one mantissa and one scale are the same decimal.
    pub proof fn lemma_same(a: Decimal, b: Decimal)
        requires
            a.mantissa() == b.mantissa(),
            a.scale() == b.scale(),
        ensures
            a == b,
    {
    }

    /// The decimal `mantissa / 10^scale`, or `None` where it cannot be held.
    pub fn new(mantissa: i128, scale: u32) -> (r: Option<Decimal>)
        ensures
            r is Some <==> representable(mantissa, scale),
            r is Some ==> r == Some(Decimal::of(mantissa, scale)),
    {
        if -MAX_MANTISSA <= mantissa && mantissa <= MAX_MANTISSA && scale <= MAX_SCALE {
            Some(Decimal { mantissa, scale })
        } else {
            None
        }
    }

    /// The integer of which the value is a fraction.
    #[verifier::when_used_as_spec(mantissa_spec)]
    pub fn mantissa(&self) -> (m: i128)
        ensures
            m == self.mantissa_spec(),
            -MAX_MANTISSA <= m <= MAX_MANTISSA,
    {
        proof {
            use_type_invariant(self);
        }
        self.mantissa
    }

    /// The number of decimal places.
    #[verifier::when_used_as_spec(scale_spec)]
    pub fn scale(&self) -> (s: u32)
        ensures
            s == self.scale_spec(),
            s <= MAX_SCALE,
    {
        proof {
            use_type_invariant(self);
        }
        self.scale
    }

    /// `0`.
    #[verifier::when_used_as_spec(zero_spec)]
    pub fn zero() -> (d: Decimal)
        ensures
            d == Decimal::zero_spec(),
    {
        Decimal { mantissa: 0, scale: 0 }
    }

    /// `1`.
    #[verifier::when_used_as_spec(one_spec)]
    pub fn one() -> (d: Decimal)
        ensures
            d == Decimal::one_spec(),
    {
        Decimal { mantissa: 1, scale: 0 }
    }

    /// `2`.
    #[verifier::when_used_as_spec(two_spec)]
    pub fn two() -> (d: Decimal)
        ensures
            d == Decimal::two_spec(),
    {
        Decimal { mantissa: 2, scale: 0 }
    }

    /// `0.5`.
    #[verifier::when_used_as_spec(half_spec)]
    pub fn half() -> (d: Decimal)
        ensures
            d == Decimal::half_spec(),
    {
        Decimal { mantissa: 5, scale: 1 }
    }

    /// `180`, the degrees of a straight angle.
    #[verifier::when_used_as_spec(straight_angle_spec)]
    pub fn straight_angle() -> (d: Decimal)
        ensures
            d == Decimal::straight_angle_spec(),
    {
        Decimal { mantissa: 180, scale: 0 }
    }

    /// π to 28 places.
    #[verifier::when_used_as_spec(pi_spec)]
    pub fn pi() -> (d: Decimal)
        ensures
            d == Decimal::pi_spec(),
    {
        Decimal { mantissa: 31415926535897932384626433833, scale: 28 }
    }

    /// π/2 to 28 places.
    #[verifier::when_used_as_spec(half_pi_spec)]
    pub fn half_pi() -> (d: Decimal)
        ensures
            d == Decimal::half_pi_spec(),
    {
        Decimal { mantissa: 15707963267948966192313216916, scale: 28 }
    }

    /// Whether the value is zero.
    pub fn is_zero(&self) -> (b: bool)
        ensures
            b == (self.mantissa() == 0),
    {
        self.mantissa == 0
    }

    /// The same magnitude with the other sign.
    pub fn neg(self) -> (d: Decimal)
        ensures
            d == self.negated(),
    {
        proof {
            use_type_invariant(self);
        }
        Decimal { mantissa: -self.mantissa, scale: self.scale }
    }

    /// `self + other`, or `None` on overflow.
    pub fn checked_add(self, other: Decimal) -> (r: Option<Decimal>)
        ensures
            r == self.plus(other),
    {
        proof {
            use_type_invariant(self);
            use_type_invariant(other);
        }
        let r = add_outside(self, other);
        proof {
            Decimal::lemma_results_agree(
                r,
                decimal_sum(self.mantissa(), self.scale(), other.mantissa(), other.scale()),
            );
        }
        r
    }

    /// `self - other`, or `None` on overflow.
    pub fn checked_sub(self, other: Decimal) -> (r: Option<Decimal>)
        ensures
            r == self.minus(other),
    {
        proof {
            use_type_invariant(self);
            use_type_invariant(other);
        }
        let r = sub_outside(self, other);
        proof {
            Decimal::lemma_results_agree(
                r,
                decimal_difference(self.mantissa(), self.scale(), other.mantissa(), other.scale()),
            );
        }
        r
    }

    /// `self * other`, or `None` on overflow.
    pub fn checked_mul(self, other: Decimal) -> (r: Option<Decimal>)
        ensures
            r == self.times(other),
    {
        proof {
            use_type_invariant(self);
            use_type_invariant(other);
        }
        let r = mul_outside(self, other);
        proof {
            Decimal::lemma_results_agree(
                r,
                decimal_product(self.mantissa(), self.scale(), other.mantissa(), other.scale()),
            );
        }
        r
    }

    /// `self / other`, or `None` where `other` is zero or on overflow.
    pub fn checked_div(self, other: Decimal) -> (r: Option<Decimal>)
        ensures
            r == self.over(other),
    {
        proof {
            use_type_invariant(self);
            use_type_invariant(other);
        }
        let r = div_outside(self, other);
        proof {
            Decimal::lemma_results_agree(
                r,
                decimal_quotient(self.mantissa(), self.scale(), other.mantissa(), other.scale()),
            );
        }
        r
    }

    /// The cosine of an angle in radians, or `None` on overflow.
    pub fn checked_cos(self) -> (r: Option<Decimal>)
        ensures
            r == self.cosine(),
    {
        proof {
            use_type_invariant(self);
        }
        let r = cos_outside(self);
        proof {
            Decimal::lemma_results_agree(r, decimal_cosine(self.mantissa(), self.scale()));
        }
        r
    }

    /// The sine of an angle in radians, or `None` on overflow.
    pub fn checked_sin(self) -> (r: Option<Decimal>)
        ensures
            r == self.sine(),
    {
        proof {
            use_type_invariant(self);
        }
        let r = sin_outside(self);
        proof {
            Decimal::lemma_results_agree(r, decimal_sine(self.mantissa(), self.scale()));
        }
        r
    }

    /// Reads a number from a text such as `-12.5`; `None` where the text is
    /// no number or the number cannot be held.
    pub fn parse(text: &str) -> (r: Option<Decimal>)
        ensures
            r == Decimal::parsed(text@),
    {
        let r = parse_outside(text);
        proof {
            Decimal::lemma_results_agree(r, decimal_parsed(text@));
        }
        r
    }

    /// An angle given in degrees, in radians; `None` on overflow.
    pub fn to_radians(self) -> (r: Option<Decimal>)
        ensures
            r == self.radians(),
    {
        match self.checked_div(Decimal::straight_angle()) {
            Some(turns) => turns.checked_mul(Decimal::pi()),
            None => None,
        }
    }

    /// Whether the value of `self` is below the value of `other`.
    pub fn lt(self, other: Decimal) -> (b: bool)
        ensures
            b == self.below(other),
    {
        proof {
            use_type_invariant(self);
            use_type_invariant(other);
        }
        lt_outside(self, other)
    }

    /// The smaller of two values; `self` where they are equal.
    pub fn min(self, other: Decimal) -> (d: Decimal)
        ensures
            d == if other.below(self) {
                other
            } else {
                self
            },
    {
        if other.lt(self) {
            other
        } else {
            self
        }
    }

    /// The value rounded to `places` decimal places.
    pub fn round_dp(self, places: u32) -> (d: Decimal)
        ensures
            d == self.rounded(places),
    {
        proof {
            use_type_invariant(self);
        }
        let d = round_outside(self, places);
        proof {
            Decimal::lemma_same(d, self.rounded(places));
        }
        d
    }

    /// The text of the number.
    pub fn to_text(&self) -> (s: String)
        ensures
            s@ == self.text(),
    {
        proof {
            use_type_invariant(self);
        }
        text_outside(*self)
    }

    /// Whether the value lies in the closed interval from 0 to 1.
    pub fn is_in_unit_interval(&self) -> (b: bool)
        ensures
            b == self.in_unit_interval(),
    {
        proof {
            use_type_invariant(self);
        }
        self.mantissa >= 0 && self.mantissa <= power_of_ten(self.scale)
    }

    proof fn lemma_results_agree(r: Option<Decimal>, parts: Option<(i128, u32)>)
        requires
            parts == match r {
                Some(d) => Some((d.mantissa(), d.scale())),
                None => None,
            },
        ensures
            r == Decimal::of_parts(parts),
    {
    }
}

/// `10^n` for a scale.
fn power_of_ten(n: u32) -> (p: i128)
    requires
        n <= MAX_SCALE,
    ensures
        p == pow10(n as nat),
{
    let mut p: i128 = 1;
    let mut i: u32 = 0;
    proof {
        lemma_pow10_of_max_scale();
    }
    while i < n
        invariant
            i <= n <= MAX_SCALE,
            p > 0,
            p == pow10(i as nat),
            p * pow10((28 - i) as nat) == 10000000000000000000000000000,
        decreases n - i,
    {
        proof {
            assert(pow10((28 - i) as nat) == 10 * pow10((28 - i - 1) as nat));
            assert(p * (10 * pow10((28 - i - 1) as nat)) == (p * 10) * pow10((28 - i - 1) as nat))
                by (nonlinear_arith);
            lemma_pow10_positive((28 - i - 1) as nat);
            assert(p * 10 <= (p * 10) * pow10((28 - i - 1) as nat)) by (nonlinear_arith)
                requires
                    p > 0,
                    pow10((28 - i - 1) as nat) >= 1,
            ;
        }
        p = p * 10;
        i = i + 1;
    }
    p
}

/// `10^28` written out.
pub proof fn lemma_pow10_of_max_scale()
    ensures
        pow10(28) == 10000000000000000000000000000,
{
    reveal_with_fuel(pow10, 29);
}

/// A power of ten is positive.
pub proof fn lemma_pow10_positive(n: nat)
    ensures
        pow10(n) >= 1,
    decreases n,
{
    if n > 0 {
        lemma_pow10_positive((n - 1) as nat);
    }
}

/// A rounded decimal has no more places than were asked for, or than it had.
pub proof fn lemma_rounded_scale(d: Decimal, places: u32)
    ensures
        d.rounded(places).scale() <= places,
        d.rounded(places).scale() <= d.scale(),
{
    broadcast use Decimal::lemma_of_parts;

}

/// The order by value is transitive: from `a <= b` and `b <= c` follows
/// `a <= c`, where `x <= y` is written `!y.below(x)`.
pub proof fn lemma_order_transitive(a: Decimal, b: Decimal, c: Decimal)
    requires
        !b.below(a),
        !c.below(b),
    ensures
        !c.below(a),
{
    let am = a.mantissa() as int;
    let bm = b.mantissa() as int;
    let cm = c.mantissa() as int;
    let pa = pow10(a.scale() as nat);
    let pb = pow10(b.scale() as nat);
    let pc = pow10(c.scale() as nat);
    lemma_pow10_positive(a.scale() as nat);
    lemma_pow10_positive(b.scale() as nat);
    lemma_pow10_positive(c.scale() as nat);
    assert((am * pb) * pc <= (bm * pa) * pc) by (nonlinear_arith)
        requires
            am * pb <= bm * pa,
            pc >= 1,
    ;
    assert((bm * pc) * pa <= (cm * pb) * pa) by (nonlinear_arith)
        requires
            bm * pc <= cm * pb,
            pa >= 1,
    ;
    assert((am * pc) * pb <= (cm * pa) * pb) by (nonlinear_arith)
        requires
            (am * pb) * pc <= (bm * pa) * pc,
            (bm * pc) * pa <= (cm * pb) * pa,
    ;
    assert(am * pc <= cm * pa) by (nonlinear_arith)
        requires
            (am * pc) * pb <= (cm * pa) * pb,
            pb >= 1,
    ;
}

/// Calls `rust_decimal::Decimal::checked_add`. The contract names the result:
/// it is the crate's sum of the two numbers, `None` where the crate reports an
/// overflow.
#[verifier::external_body]
fn add_outside(a: Decimal, b: Decimal) -> (r: Option<Decimal>)
    requires
        representable(a.mantissa(), a.scale()),
        representable(b.mantissa(), b.scale()),
    ensures
        decimal_sum(a.mantissa(), a.scale(), b.mantissa(), b.scale()) == match r {
            Some(d) => Some((d.mantissa(), d.scale())),
            None => None,
        },
{
    let x = rust_decimal::Decimal::from_i128_with_scale(a.mantissa, a.scale);
    let y = rust_decimal::Decimal::from_i128_with_scale(b.mantissa, b.scale);
    match x.checked_add(y) {
        Some(d) => Some(Decimal { mantissa: d.mantissa(), scale: d.scale() }),
        None => None,
    }
}

/// Calls `rust_decimal::Decimal::checked_sub`. The contract names the result:
/// it is the crate's difference of the two numbers, `None` where the crate
/// reports an overflow.
#[verifier::external_body]
fn sub_outside(a: Decimal, b: Decimal) -> (r: Option<Decimal>)
    requires
        representable(a.mantissa(), a.scale()),
        representable(b.mantissa(), b.scale()),
    ensures
        decimal_difference(a.mantissa(), a.scale(), b.mantissa(), b.scale()) == match r {
            Some(d) => Some((d.mantissa(), d.scale())),
            None => None,
        },
{
    let x = rust_decimal::Decimal::from_i128_with_scale(a.mantissa, a.scale);
    let y = rust_decimal::Decimal::from_i128_with_scale(b.mantissa, b.scale);
    match x.checked_sub(y) {
        Some(d) => Some(Decimal { mantissa: d.mantissa(), scale: d.scale() }),
        None => None,
    }
}

/// Calls `rust_decimal::Decimal::checked_mul`. The contract names the result:
/// it is the crate's product of the two numbers, `None` where the crate
/// reports an overflow.
#[verifier::external_body]
fn mul_outside(a: Decimal, b: Decimal) -> (r: Option<Decimal>)
    requires
        representable(a.mantissa(), a.scale()),
        representable(b.mantissa(), b.scale()),
    ensures
        decimal_product(a.mantissa(), a.scale(), b.mantissa(), b.scale()) == match r {
            Some(d) => Some((d.mantissa(), d.scale())),
            None => None,
        },
{
    let x = rust_decimal::Decimal::from_i128_with_scale(a.mantissa, a.scale);
    let y = rust_decimal::Decimal::from_i128_with_scale(b.mantissa, b.scale);
    match x.checked_mul(y) {
        Some(d) => Some(Decimal { mantissa: d.mantissa(), scale: d.scale() }),
        None => None,
    }
}

/// Calls `rust_decimal::Decimal::checked_div`. The contract names the result:
/// it is the crate's quotient of the two numbers, `None` where the divisor is
/// zero or the crate reports an overflow.
#[verifier::external_body]
fn div_outside(a: Decimal, b: Decimal) -> (r: Option<Decimal>)
    requires
        representable(a.mantissa(), a.scale()),
        representable(b.mantissa(), b.scale()),
    ensures
        decimal_quotient(a.mantissa(), a.scale(), b.mantissa(), b.scale()) == match r {
            Some(d) => Some((d.mantissa(), d.scale())),
            None => None,
        },
{
    let x = rust_decimal::Decimal::from_i128_with_scale(a.mantissa, a.scale);
    let y = rust_decimal::Decimal::from_i128_with_scale(b.mantissa, b.scale);
    match x.checked_div(y) {
        Some(d) => Some(Decimal { mantissa: d.mantissa(), scale: d.scale() }),
        None => None,
    }
}

/// Calls `rust_decimal::MathematicalOps::checked_cos`. The contract names the
/// result: it is the crate's cosine of the angle, `None` where the crate
/// reports an overflow.
#[verifier::external_body]
fn cos_outside(a: Decimal) -> (r: Option<Decimal>)
    requires
        representable(a.mantissa(), a.scale()),
    ensures
        decimal_cosine(a.mantissa(), a.scale()) == match r {
            Some(d) => Some((d.mantissa(), d.scale())),
            None => None,
        },
{
    let x = rust_decimal::Decimal::from_i128_with_scale(a.mantissa, a.scale);
    match rust_decimal::MathematicalOps::checked_cos(&x) {
        Some(d) => Some(Decimal { mantissa: d.mantissa(), scale: d.scale() }),
        None => None,
    }
}

/// Calls `rust_decimal::MathematicalOps::checked_sin`. The contract names the
/// result: it is the crate's sine of the angle, `None` where the crate reports
/// an overflow.
#[verifier::external_body]
fn sin_outside(a: Decimal) -> (r: Option<Decimal>)
    requires
        representable(a.mantissa(), a.scale()),
    ensures
        decimal_sine(a.mantissa(), a.scale()) == match r {
            Some(d) => Some((d.mantissa(), d.scale())),
            None => None,
        },
{
    let x = rust_decimal::Decimal::from_i128_with_scale(a.mantissa, a.scale);
    match rust_decimal::MathematicalOps::checked_sin(&x) {
        Some(d) => Some(Decimal { mantissa: d.mantissa(), scale: d.scale() }),
        None => None,
    }
}

/// Calls `str::parse` for `rust_decimal::Decimal`, which is its `from_str`.
/// The contract names the result: it is the number that the crate reads from
/// the text, `None` where the crate returns an error.
#[verifier::external_body]
fn parse_outside(text: &str) -> (r: Option<Decimal>)
    ensures
        decimal_parsed(text@) == match r {
            Some(d) => Some((d.mantissa(), d.scale())),
            None => None,
        },
{
    match text.parse::<rust_decimal::Decimal>() {
        Ok(d) => Some(Decimal { mantissa: d.mantissa(), scale: d.scale() }),
        Err(_) => None,
    }
}

/// Calls `<` of `rust_decimal::Decimal`, which orders decimals by value: the
/// contract says that the result is the comparison of the two fractions,
/// brought to a common denominator.
#[verifier::external_body]
fn lt_outside(a: Decimal, b: Decimal) -> (r: bool)
    requires
        representable(a.mantissa(), a.scale()),
        representable(b.mantissa(), b.scale()),
    ensures
        r == a.below(b),
{
    let x = rust_decimal::Decimal::from_i128_with_scale(a.mantissa, a.scale);
    let y = rust_decimal::Decimal::from_i128_with_scale(b.mantissa, b.scale);
    x < y
}

/// Calls `rust_decimal::Decimal::round_dp`, which rounds half to even: the
/// contract says that a number with no more than `places` places comes back
/// unchanged, and that any other comes back with `places` places and the
/// mantissa divided by the power of ten and rounded to the nearest integer, a
/// tie going to the even one, the sign kept.
#[verifier::external_body]
fn round_outside(a: Decimal, places: u32) -> (r: Decimal)
    requires
        representable(a.mantissa(), a.scale()),
    ensures
        r.mantissa() == a.rounded(places).mantissa(),
        r.scale() == a.rounded(places).scale(),
{
    let x = rust_decimal::Decimal::from_i128_with_scale(a.mantissa, a.scale).round_dp(places);
    Decimal { mantissa: x.mantissa(), scale: x.scale() }
}

/// Calls `to_string` of `rust_decimal::Decimal`: the contract says that the
/// text is a minus sign for a negative number, the digits of the integer
/// part (`0` where there is none), and, for a positive scale, a point and
/// as many digits as the scale says.
#[verifier::external_body]
fn text_outside(a: Decimal) -> (r: String)
    requires
        representable(a.mantissa(), a.scale()),
    ensures
        r@ == a.text(),
{
    rust_decimal::Decimal::from_i128_with_scale(a.mantissa, a.scale).to_string()
}

} // verus!
