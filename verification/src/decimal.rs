//! Decimal amounts.
//!
//! A [`Decimal`] is an integer of at most 96 bits over a power of ten. Its view
//! is its value in units of 10^-28, the finest step a decimal can have, so that
//! sums and comparisons of decimals are sums and comparisons of integers.
//!
//! The arithmetic itself is `rust_decimal`'s. Each operation has a name for
//! what it returns; beside the names stand the few facts about rounding that
//! the rest of the library relies on.

use crate::text::{digit, digits_of};
use vstd::arithmetic::power::pow;
use vstd::prelude::*;

verus! {

/// The largest scale of a decimal.
pub const MAX_SCALE: u32 = 28;

/// The largest magnitude of a decimal's mantissa, 2^96 - 1.
pub const MAX_MANTISSA: i128 = 0xFFFF_FFFF_FFFF_FFFF_FFFF_FFFF;

/// A decimal number: `mantissa / 10^scale`. Zero too has a sign, which shows
/// where it is printed and nowhere else.
#[derive(Clone, Copy, Debug)]
pub struct Decimal {
    negative: bool,
    magnitude: u128,
    scale: u32,
}

/// One, in the units of a decimal's view.
pub open spec fn unit() -> int {
    pow(10, 28)
}

/// Whether some decimal has exactly the value `x`.
pub open spec fn representable(x: int) -> bool {
    exists|d: Decimal| #[trigger] d.valid() && d@ == x
}

impl View for Decimal {
    type V = int;

    closed spec fn view(&self) -> int {
        self.spec_mantissa() * pow(10, (MAX_SCALE - self.scale) as nat)
    }
}

impl Decimal {
    #[verifier::type_invariant]
    pub closed spec fn valid(self) -> bool {
        &&& self.scale <= MAX_SCALE
        &&& 0 <= self.magnitude <= MAX_MANTISSA
    }

    pub closed spec fn spec_mantissa(self) -> int {
        if self.negative {
            -(self.magnitude as int)
        } else {
            self.magnitude as int
        }
    }

    /// Whether the decimal has a minus sign, as zero can have one too.
    pub closed spec fn spec_is_negated(self) -> bool {
        self.negative
    }

    pub closed spec fn spec_scale(self) -> int {
        self.scale as int
    }

    /// The decimal `mantissa / 10^scale`, zero without a minus sign.
    pub closed spec fn of(mantissa: int, scale: int) -> Decimal {
        Decimal {
            negative: mantissa < 0,
            magnitude: (if mantissa < 0 {
                -mantissa
            } else {
                mantissa
            }) as u128,
            scale: scale as u32,
        }
    }

    /// Zero with a minus sign.
    pub closed spec fn negated_zero(scale: int) -> Decimal {
        Decimal { negative: true, magnitude: 0, scale: scale as u32 }
    }

    /// The integer `n` as a decimal.
    pub open spec fn whole(n: int) -> Decimal {
        Decimal::of(n, 0)
    }

    /// The decimal with the given mantissa and scale, where there is one.
    pub fn from_parts(mantissa: i128, scale: u32) -> (d: Option<Decimal>)
        ensures
            d is Some <==> scale <= MAX_SCALE && -MAX_MANTISSA <= mantissa <= MAX_MANTISSA,
            d matches Some(v) ==> v == Decimal::of(mantissa as int, scale as int) && v@ == mantissa
                * pow(10, (MAX_SCALE - scale) as nat),
    {
        if scale <= MAX_SCALE && -MAX_MANTISSA <= mantissa && mantissa <= MAX_MANTISSA {
            if mantissa < 0 {
                Some(Decimal { negative: true, magnitude: (-mantissa) as u128, scale })
            } else {
                Some(Decimal { negative: false, magnitude: mantissa as u128, scale })
            }
        } else {
            None
        }
    }

    /// Zero with a minus sign, with the given scale, where there is one.
    pub fn minus_zero(scale: u32) -> (d: Option<Decimal>)
        ensures
            d is Some <==> scale <= MAX_SCALE,
            d matches Some(v) ==> v == Decimal::negated_zero(scale as int) && v@ == 0
                && v.spec_is_negated(),
    {
        if scale <= MAX_SCALE {
            Some(Decimal { negative: true, magnitude: 0, scale })
        } else {
            None
        }
    }

    /// The integer `n`.
    pub fn from_integer(n: i64) -> (d: Decimal)
        ensures
            d == Decimal::whole(n as int),
            d@ == n * unit(),
    {
        if n < 0 {
            Decimal { negative: true, magnitude: (-(n as i128)) as u128, scale: 0 }
        } else {
            Decimal { negative: false, magnitude: n as u128, scale: 0 }
        }
    }
}

/// What `rust_decimal::Decimal::checked_add` returns.
pub uninterp spec fn decimal_sum(a: Decimal, b: Decimal) -> Option<Decimal>;

/// What `rust_decimal::Decimal::checked_sub` returns.
pub uninterp spec fn decimal_difference(a: Decimal, b: Decimal) -> Option<Decimal>;

/// What `rust_decimal::Decimal::checked_mul` returns.
pub uninterp spec fn decimal_product(a: Decimal, b: Decimal) -> Option<Decimal>;

/// What `rust_decimal::Decimal::checked_div` returns.
pub uninterp spec fn decimal_quotient(a: Decimal, b: Decimal) -> Option<Decimal>;

/// A decimal's mantissa without its sign.
pub open spec fn size_of_mantissa(d: Decimal) -> nat {
    if d.spec_mantissa() < 0 {
        (-d.spec_mantissa()) as nat
    } else {
        d.spec_mantissa() as nat
    }
}

/// The digit at a place behind the point.
pub open spec fn digit_behind_point(d: Decimal, place: int) -> char {
    if place < d.spec_scale() {
        digit(
            ((size_of_mantissa(d) / pow(10, (d.spec_scale() - 1 - place) as nat) as nat) % 10)
                as nat,
        )
    } else {
        '0'
    }
}

/// The sign of a decimal and the digits before its point.
pub open spec fn whole_text(d: Decimal) -> Seq<char> {
    let digits = digits_of(size_of_mantissa(d) / pow(10, d.spec_scale() as nat) as nat);
    if d.spec_is_negated() {
        "-"@ + digits
    } else {
        digits
    }
}

/// A decimal in digits: as many behind the point as its scale says, and no point
/// where there are none.
pub open spec fn decimal_text(d: Decimal) -> Seq<char> {
    if d.spec_scale() == 0 {
        whole_text(d)
    } else {
        whole_text(d) + "."@ + Seq::new(
            d.spec_scale() as nat,
            |place: int| digit_behind_point(d, place),
        )
    }
}

/// A decimal in digits, two of them behind the point, the others left out.
pub open spec fn decimal_text_two_places(d: Decimal) -> Seq<char> {
    whole_text(d) + "."@ + seq![digit_behind_point(d, 0), digit_behind_point(d, 1)]
}

/// The decimal that `rust_decimal` reads in a text, where it reads one.
pub uninterp spec fn decimal_read(text: Seq<char>) -> Option<Decimal>;

/// `rust_decimal::Decimal::checked_add`.
///
/// Claimed: what comes back is a function of the two decimals; where a decimal
/// holds the exact sum, it is that sum; and where neither is negative and one of
/// them is positive, so is the sum.
#[verifier::external_body]
pub(crate) fn add_decimals(a: Decimal, b: Decimal) -> (r: Option<Decimal>)
    ensures
        r == decimal_sum(a, b),
        representable(a@ + b@) ==> r is Some && r->0@ == a@ + b@,
        r is Some && a@ >= 0 && b@ >= 0 && a@ + b@ > 0 ==> r->0@ > 0,
{
    let mut left = rust_decimal::Decimal::from_i128_with_scale(a.magnitude as i128, a.scale);
    left.set_sign_negative(a.negative);
    let mut right = rust_decimal::Decimal::from_i128_with_scale(b.magnitude as i128, b.scale);
    right.set_sign_negative(b.negative);
    match left.checked_add(right) {
        Some(d) => Some(
            Decimal {
                negative: d.is_sign_negative(),
                magnitude: d.mantissa().unsigned_abs(),
                scale: d.scale(),
            },
        ),
        None => None,
    }
}

/// `rust_decimal::Decimal::checked_sub`.
///
/// Claimed: what comes back is a function of the two decimals, and where a
/// decimal holds the exact difference, it is that difference.
#[verifier::external_body]
pub(crate) fn subtract_decimals(a: Decimal, b: Decimal) -> (r: Option<Decimal>)
    ensures
        r == decimal_difference(a, b),
        representable(a@ - b@) ==> r is Some && r->0@ == a@ - b@,
{
    let mut left = rust_decimal::Decimal::from_i128_with_scale(a.magnitude as i128, a.scale);
    left.set_sign_negative(a.negative);
    let mut right = rust_decimal::Decimal::from_i128_with_scale(b.magnitude as i128, b.scale);
    right.set_sign_negative(b.negative);
    match left.checked_sub(right) {
        Some(d) => Some(
            Decimal {
                negative: d.is_sign_negative(),
                magnitude: d.mantissa().unsigned_abs(),
                scale: d.scale(),
            },
        ),
        None => None,
    }
}

/// `rust_decimal::Decimal::checked_mul`.
///
/// Claimed: what comes back is a function of the two decimals; where a decimal
/// holds the exact product, it is that product; rounding carries no product
/// past zero; and an amount that is not negative, times a factor between zero
/// and one, is never more than the amount.
#[verifier::external_body]
pub(crate) fn multiply_decimals(a: Decimal, b: Decimal) -> (r: Option<Decimal>)
    ensures
        r == decimal_product(a, b),
        forall|x: int| #[trigger]
            representable(x) && x * unit() == a@ * b@ ==> r is Some && r->0@ == x,
        r is Some && a@ * b@ >= 0 ==> r->0@ >= 0,
        r is Some && a@ * b@ <= 0 ==> r->0@ <= 0,
        a@ >= 0 && 0 <= b@ <= unit() ==> r is Some && r->0@ <= a@,
{
    let mut left = rust_decimal::Decimal::from_i128_with_scale(a.magnitude as i128, a.scale);
    left.set_sign_negative(a.negative);
    let mut right = rust_decimal::Decimal::from_i128_with_scale(b.magnitude as i128, b.scale);
    right.set_sign_negative(b.negative);
    match left.checked_mul(right) {
        Some(d) => Some(
            Decimal {
                negative: d.is_sign_negative(),
                magnitude: d.mantissa().unsigned_abs(),
                scale: d.scale(),
            },
        ),
        None => None,
    }
}

/// `rust_decimal::Decimal::checked_div`.
///
/// Claimed: what comes back is a function of the two decimals; there is no
/// quotient by zero; where a decimal holds the exact quotient, it is that
/// quotient; rounding carries no quotient past zero; and a part of a positive
/// total is a fraction between zero and one of it.
#[verifier::external_body]
pub(crate) fn divide_decimals(a: Decimal, b: Decimal) -> (r: Option<Decimal>)
    ensures
        r == decimal_quotient(a, b),
        b@ == 0 ==> r is None,
        forall|x: int| #[trigger]
            representable(x) && b@ != 0 && x * b@ == a@ * unit() ==> r is Some && r->0@ == x,
        r is Some && a@ * b@ >= 0 ==> r->0@ >= 0,
        r is Some && a@ * b@ <= 0 ==> r->0@ <= 0,
        0 <= a@ <= b@ && 0 < b@ ==> r is Some && r->0@ <= unit(),
{
    let mut left = rust_decimal::Decimal::from_i128_with_scale(a.magnitude as i128, a.scale);
    left.set_sign_negative(a.negative);
    let mut right = rust_decimal::Decimal::from_i128_with_scale(b.magnitude as i128, b.scale);
    right.set_sign_negative(b.negative);
    match left.checked_div(right) {
        Some(d) => Some(
            Decimal {
                negative: d.is_sign_negative(),
                magnitude: d.mantissa().unsigned_abs(),
                scale: d.scale(),
            },
        ),
        None => None,
    }
}

/// `rust_decimal::Decimal`'s `<`.
///
/// Claimed: decimals are ordered by their values, whatever their scales.
#[verifier::external_body]
fn decimal_is_below(a: Decimal, b: Decimal) -> (r: bool)
    ensures
        r == (a@ < b@),
{
    let mut left = rust_decimal::Decimal::from_i128_with_scale(a.magnitude as i128, a.scale);
    left.set_sign_negative(a.negative);
    let mut right = rust_decimal::Decimal::from_i128_with_scale(b.magnitude as i128, b.scale);
    right.set_sign_negative(b.negative);
    left < right
}

/// The largest integer that is not above a decimal; zero keeps its sign.
pub open spec fn floor_of(d: Decimal) -> Decimal {
    if d@ == 0 && d.spec_is_negated() {
        Decimal::negated_zero(0)
    } else {
        Decimal::whole(d@ / unit())
    }
}

/// `rust_decimal::Decimal::floor`.
///
/// Claimed: the largest integer that is not above the decimal, with scale zero;
/// zero keeps its sign.
#[verifier::external_body]
pub(crate) fn floor_decimal(d: Decimal) -> (r: Decimal)
    ensures
        r == floor_of(d),
        r@ == (d@ / unit()) * unit(),
{
    let mut given = rust_decimal::Decimal::from_i128_with_scale(d.magnitude as i128, d.scale);
    given.set_sign_negative(d.negative);
    let floored = given.floor();
    Decimal {
        negative: floored.is_sign_negative(),
        magnitude: floored.mantissa().unsigned_abs(),
        scale: floored.scale(),
    }
}

/// `rust_decimal::Decimal`'s `Display`.
///
/// Claimed: the text is the decimal in digits, with as many behind the point as
/// its scale says.
#[verifier::external_body]
pub(crate) fn print_decimal(d: Decimal) -> (r: String)
    ensures
        r@ == decimal_text(d),
{
    let mut given = rust_decimal::Decimal::from_i128_with_scale(d.magnitude as i128, d.scale);
    given.set_sign_negative(d.negative);
    format!("{}", given)
}

/// `rust_decimal::Decimal`'s `Display` with a precision of two.
///
/// Claimed: the text is the decimal in digits, two of them behind the point; any
/// further ones are left out, nothing is rounded.
#[verifier::external_body]
pub(crate) fn print_decimal_two_places(d: Decimal) -> (r: String)
    ensures
        r@ == decimal_text_two_places(d),
{
    let mut given = rust_decimal::Decimal::from_i128_with_scale(d.magnitude as i128, d.scale);
    given.set_sign_negative(d.negative);
    format!("{:.2}", given)
}

/// `rust_decimal::Decimal`'s `FromStr`.
///
/// Claimed: whether a decimal is read, and which, is a function of the text.
#[verifier::external_body]
pub(crate) fn read_decimal(text: &str) -> (r: Option<Decimal>)
    ensures
        r == decimal_read(text@),
{
    match text.parse::<rust_decimal::Decimal>() {
        Ok(d) => Some(
            Decimal {
                negative: d.is_sign_negative(),
                magnitude: d.mantissa().unsigned_abs(),
                scale: d.scale(),
            },
        ),
        Err(_) => None,
    }
}

/// The smaller of two decimals, the first where they have the same value.
pub open spec fn lesser(a: Decimal, b: Decimal) -> Decimal {
    if a@ > b@ {
        b
    } else {
        a
    }
}

/// The larger of two decimals, the first where they have the same value.
pub open spec fn greater(a: Decimal, b: Decimal) -> Decimal {
    if a@ < b@ {
        b
    } else {
        a
    }
}

/// A decimal without its sign.
pub open spec fn magnitude(d: Decimal) -> Decimal {
    Decimal::of(size_of_mantissa(d) as int, d.spec_scale())
}

/// A decimal without its sign is not negative.
pub proof fn lemma_magnitude_not_negative(d: Decimal)
    ensures
        magnitude(d)@ >= 0,
{
    let size = magnitude(d);
    let power = pow(10, (MAX_SCALE - size.scale) as nat);
    vstd::arithmetic::power::lemma_pow_positive(10, (MAX_SCALE - size.scale) as nat);
    let mantissa = size.spec_mantissa();
    assert(mantissa * power >= 0) by (nonlinear_arith)
        requires
            mantissa >= 0,
            power > 0,
    ;
}

/// The sum of decimals, added one by one to zero; `None` once a sum does not
/// fit a decimal.
pub open spec fn total(amounts: Seq<Decimal>) -> Option<Decimal>
    decreases amounts.len(),
{
    if amounts.len() == 0 {
        Some(Decimal::whole(0))
    } else {
        match total(amounts.drop_last()) {
            Some(sum) => decimal_sum(sum, amounts.last()),
            None => None,
        }
    }
}

impl Decimal {
    /// Zero.
    pub fn zero() -> (d: Decimal)
        ensures
            d == Decimal::whole(0),
            d@ == 0,
    {
        proof {
            lemma_whole_value(0);
        }
        Decimal { negative: false, magnitude: 0, scale: 0 }
    }

    /// One.
    pub fn one() -> (d: Decimal)
        ensures
            d == Decimal::whole(1),
            d@ == unit(),
    {
        proof {
            lemma_whole_value(1);
        }
        Decimal { negative: false, magnitude: 1, scale: 0 }
    }

    /// The integer that, over a power of ten, is this decimal.
    pub fn mantissa(&self) -> (m: i128)
        ensures
            m == self.spec_mantissa(),
            -MAX_MANTISSA <= m <= MAX_MANTISSA,
    {
        proof {
            use_type_invariant(self);
        }
        if self.negative {
            -(self.magnitude as i128)
        } else {
            self.magnitude as i128
        }
    }

    /// Whether this decimal has a minus sign, as zero can have one too.
    pub fn is_negated(&self) -> (r: bool)
        ensures
            r == self.spec_is_negated(),
    {
        self.negative
    }

    /// The number of digits after the point.
    pub fn scale(&self) -> (s: u32)
        ensures
            s == self.spec_scale(),
            s <= MAX_SCALE,
    {
        proof {
            use_type_invariant(self);
        }
        self.scale
    }

    /// Whether this decimal is smaller than another.
    pub fn is_below(&self, other: &Decimal) -> (r: bool)
        ensures
            r == (self@ < other@),
    {
        decimal_is_below(*self, *other)
    }

    /// Whether this decimal is more than zero.
    pub fn is_positive(&self) -> (r: bool)
        ensures
            r == (self@ > 0),
    {
        Decimal::zero().is_below(self)
    }

    /// Whether this decimal is less than zero.
    pub fn is_negative(&self) -> (r: bool)
        ensures
            r == (self@ < 0),
    {
        self.is_below(&Decimal::zero())
    }

    /// Whether this decimal is zero.
    pub fn is_zero(&self) -> (r: bool)
        ensures
            r == (self@ == 0),
    {
        !self.is_positive() && !self.is_negative()
    }

    /// This decimal without its sign.
    pub fn abs(self) -> (r: Decimal)
        ensures
            r == magnitude(self),
            r@ == (if self@ < 0 {
                -self@
            } else {
                self@
            }),
    {
        proof {
            use_type_invariant(&self);
            let power = pow(10, (MAX_SCALE - self.scale) as nat);
            let size = self.magnitude as int;
            vstd::arithmetic::power::lemma_pow_positive(10, (MAX_SCALE - self.scale) as nat);
            assert((-size) * power == -(size * power)) by (nonlinear_arith);
            assert(size * power >= 0) by (nonlinear_arith)
                requires
                    size >= 0,
                    power > 0,
            ;
            assert(size_of_mantissa(self) == size);
        }
        Decimal { negative: false, magnitude: self.magnitude, scale: self.scale }
    }

    /// The smaller of two decimals, the first where they have the same value.
    pub fn min(self, other: Decimal) -> (r: Decimal)
        ensures
            r == lesser(self, other),
    {
        if other.is_below(&self) {
            other
        } else {
            self
        }
    }

    /// The larger of two decimals, the first where they have the same value.
    pub fn max(self, other: Decimal) -> (r: Decimal)
        ensures
            r == greater(self, other),
    {
        if self.is_below(&other) {
            other
        } else {
            self
        }
    }
}

/// Two decimals are equal when they have the same value, whatever their scales.
impl PartialEq for Decimal {
    fn eq(&self, other: &Decimal) -> (r: bool) {
        !self.is_below(other) && !other.is_below(self)
    }
}

impl vstd::std_specs::cmp::PartialEqSpecImpl for Decimal {
    open spec fn obeys_eq_spec() -> bool {
        true
    }

    open spec fn eq_spec(&self, other: &Decimal) -> bool {
        self@ == other@
    }
}

/// One is more than zero.
pub proof fn lemma_unit_positive()
    ensures
        unit() > 0,
{
    vstd::arithmetic::power::lemma_pow_positive(10, 28);
}

/// An integer over a power of ten is a decimal, within the bounds of both.
pub proof fn lemma_representable(mantissa: int, scale: nat)
    requires
        scale <= MAX_SCALE,
        -MAX_MANTISSA <= mantissa <= MAX_MANTISSA,
    ensures
        representable(mantissa * pow(10, (MAX_SCALE - scale) as nat)),
{
    assert(Decimal::of(mantissa, scale as int).valid());
}

/// Every decimal has a value that a decimal has.
pub proof fn lemma_valid_is_representable(d: Decimal)
    requires
        d.valid(),
    ensures
        representable(d@),
{
}

/// What is a decimal's value is one with the other sign too.
pub proof fn lemma_representable_negated(x: int)
    requires
        representable(x),
    ensures
        representable(-x),
{
    let d = choose|d: Decimal| #[trigger] d.valid() && d@ == x;
    let power = pow(10, (MAX_SCALE - d.scale) as nat);
    let negated = Decimal { negative: !d.negative, magnitude: d.magnitude, scale: d.scale };
    let size = d.magnitude as int;
    assert((-size) * power == -(size * power)) by (nonlinear_arith);
    assert(negated.valid() && negated@ == -x);
}

/// The value of an integer as a decimal.
pub proof fn lemma_whole_value(n: int)
    requires
        -MAX_MANTISSA <= n <= MAX_MANTISSA,
    ensures
        Decimal::whole(n)@ == n * unit(),
        Decimal::whole(n).valid(),
{
}

/// The sum of decimals, with nothing rounded.
pub open spec fn exact_total(amounts: Seq<Decimal>) -> int
    decreases amounts.len(),
{
    if amounts.len() == 0 {
        0
    } else {
        exact_total(amounts.drop_last()) + amounts.last()@
    }
}

/// Whether nothing has to be rounded as decimals are added one by one.
pub open spec fn is_exact_total(amounts: Seq<Decimal>) -> bool {
    forall|n: int|
        0 <= n <= amounts.len() ==> representable(exact_total(#[trigger] amounts.take(n)))
}

/// Where nothing is rounded with one decimal more, nothing is without it.
pub proof fn lemma_exact_total_step(amounts: Seq<Decimal>, amount: Decimal)
    ensures
        exact_total(amounts.push(amount)) == exact_total(amounts) + amount@,
        is_exact_total(amounts.push(amount)) ==> is_exact_total(amounts) && representable(
            exact_total(amounts) + amount@,
        ),
{
    let more = amounts.push(amount);
    assert(more.drop_last() =~= amounts);
    if is_exact_total(more) {
        assert(more.take(more.len() as int) =~= more);
        assert forall|n: int| 0 <= n <= amounts.len() implies representable(
            exact_total(#[trigger] amounts.take(n)),
        ) by {
            assert(more.take(n) =~= amounts.take(n));
        }
    }
}

/// The exact sum of two lists of decimals, one behind the other.
pub proof fn lemma_exact_total_of_two(a: Seq<Decimal>, b: Seq<Decimal>)
    ensures
        exact_total(a + b) == exact_total(a) + exact_total(b),
    decreases b.len(),
{
    if b.len() == 0 {
        assert(a + b =~= a);
    } else {
        assert((a + b).drop_last() =~= a + b.drop_last());
        lemma_exact_total_of_two(a, b.drop_last());
    }
}

/// A total is zero, with every amount added to it in turn.
pub proof fn law_total_takes_every_amount(amounts: Seq<Decimal>, amount: Decimal)
    ensures
        total(Seq::empty()) == Some(Decimal::whole(0)),
        total(amounts) is Some ==> total(amounts.push(amount)) == decimal_sum(
            total(amounts)->0,
            amount,
        ),
        total(amounts) is None ==> total(amounts.push(amount)) is None,
{
    assert(amounts.push(amount).drop_last() =~= amounts);
}

/// Adds decimals one by one to zero.
pub fn sum_decimals(amounts: &[Decimal]) -> (r: Option<Decimal>)
    ensures
        r == total(amounts@),
        is_exact_total(amounts@) ==> r is Some && r->0@ == exact_total(amounts@),
        r is Some && (forall|i: int| 0 <= i < amounts@.len() ==> (#[trigger] amounts@[i])@ >= 0)
            ==> r->0@ >= 0 && (r->0@ == 0 ==> forall|i: int|
            0 <= i < amounts@.len() ==> (#[trigger] amounts@[i])@ == 0),
{
    proof {
        lemma_whole_value(0);
        lemma_valid_is_representable(Decimal::whole(0));
    }
    let mut sum: Decimal = Decimal::zero();
    for i in 0..amounts.len()
        invariant
            total(amounts@.take(i as int)) == Some(sum),
            is_exact_total(amounts@) ==> sum@ == exact_total(amounts@.take(i as int)),
            representable(0),
            (forall|j: int| 0 <= j < amounts@.len() ==> (#[trigger] amounts@[j])@ >= 0) ==> sum@
                >= 0 && (sum@ == 0 ==> forall|j: int|
                0 <= j < i ==> (#[trigger] amounts@[j])@ == 0),
    {
        assert(amounts@.take(i + 1).drop_last() =~= amounts@.take(i as int));
        assert(is_exact_total(amounts@) ==> representable(exact_total(amounts@.take(i + 1))));
        match add_decimals(sum, amounts[i]) {
            Some(next) => {
                sum = next;
            },
            None => {
                proof {
                    lemma_total_stays_none(amounts@, i + 1);
                }
                return None;
            },
        }
    }
    assert(amounts@.take(amounts@.len() as int) =~= amounts@);
    Some(sum)
}

/// A sum that has left the decimals stays out of them.
pub proof fn lemma_total_stays_none(amounts: Seq<Decimal>, n: int)
    requires
        0 <= n <= amounts.len(),
        total(amounts.take(n)) is None,
    ensures
        total(amounts) is None,
    decreases amounts.len() - n,
{
    if n < amounts.len() {
        assert(amounts.take(n + 1).drop_last() =~= amounts.take(n));
        lemma_total_stays_none(amounts, n + 1);
    } else {
        assert(amounts.take(n) =~= amounts);
    }
}

} // verus!
