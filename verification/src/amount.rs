//! Signed integers of any size, held as decimal digits.
//!
//! Token amounts are 128-bit, but sums of deltas and running balances are not
//! bounded by any machine width. `Amount` keeps every such number exactly.

use crate::text::{chars_of, digit_char, nat_text, string_from_chars};
use std::str::FromStr;
use vstd::arithmetic::div_mod::lemma_fundamental_div_mod_converse;
use vstd::prelude::*;

verus! {

/// Ten to the power `n`.
pub open spec fn pow10(n: nat) -> nat
    decreases n,
{
    if n == 0 {
        1
    } else {
        10 * pow10((n - 1) as nat)
    }
}

/// The number written by `s`, least significant digit first.
pub open spec fn digits_value(s: Seq<u8>) -> nat
    decreases s.len(),
{
    if s.len() == 0 {
        0
    } else {
        digits_value(s.drop_last()) + (s.last() as nat) * pow10((s.len() - 1) as nat)
    }
}

/// Every element is a decimal digit.
pub open spec fn all_digits(s: Seq<u8>) -> bool {
    forall|i: int| 0 <= i < s.len() ==> #[trigger] s[i] < 10
}

/// Digits without a zero in the most significant place.
pub open spec fn canonical(s: Seq<u8>) -> bool {
    all_digits(s) && (s.len() > 0 ==> s.last() != 0)
}

/// The digit of `s` at place `i`, zero beyond its length.
pub open spec fn digit_at(s: Seq<u8>, i: int) -> nat {
    if 0 <= i < s.len() {
        s[i] as nat
    } else {
        0
    }
}

/// The number written by the lowest `i` digits of `s`.
pub open spec fn low_value(s: Seq<u8>, i: nat) -> nat {
    if i <= s.len() {
        digits_value(s.take(i as int))
    } else {
        digits_value(s)
    }
}

pub proof fn lemma_pow10_positive(n: nat)
    ensures
        pow10(n) > 0,
    decreases n,
{
    if n > 0 {
        lemma_pow10_positive((n - 1) as nat);
    }
}

proof fn lemma_scale(x: int, y: int, p: int)
    ensures
        (x + y) * p == x * p + y * p,
        (x - y) * p == x * p - y * p,
{
    assert((x + y) * p == x * p + y * p) by (nonlinear_arith);
    assert((x - y) * p == x * p - y * p) by (nonlinear_arith);
}

proof fn lemma_scale_le(x: int, y: int, p: int)
    requires
        x <= y,
        0 <= p,
    ensures
        x * p <= y * p,
{
    assert(x * p <= y * p) by (nonlinear_arith)
        requires
            x <= y,
            0 <= p,
    ;
}

pub proof fn lemma_value_push(s: Seq<u8>, d: u8)
    ensures
        digits_value(s.push(d)) == digits_value(s) + (d as nat) * pow10(s.len()),
{
    assert(s.push(d).drop_last() =~= s);
}

pub proof fn lemma_low_value_step(s: Seq<u8>, i: nat)
    ensures
        low_value(s, i + 1) == low_value(s, i) + digit_at(s, i as int) * pow10(i),
        low_value(s, 0) == 0,
        i >= s.len() ==> low_value(s, i) == digits_value(s),
{
    assert(s.take(0).len() == 0);
    if i < s.len() {
        let t = s.take(i as int + 1);
        assert(t.drop_last() =~= s.take(i as int));
        assert(t.last() == s[i as int]);
    } else if i == s.len() {
        assert(s.take(i as int) =~= s);
    }
}

/// Digits of length `n` write a number below ten to the `n`.
pub proof fn lemma_value_below(s: Seq<u8>)
    requires
        all_digits(s),
    ensures
        digits_value(s) < pow10(s.len()),
    decreases s.len(),
{
    if s.len() > 0 {
        let t = s.drop_last();
        assert(all_digits(t)) by {
            assert forall|i: int| 0 <= i < t.len() implies #[trigger] t[i] < 10 by {
                assert(t[i] == s[i]);
            }
        }
        lemma_value_below(t);
        let p = pow10(t.len()) as int;
        lemma_pow10_positive(t.len());
        assert(s[s.len() - 1] < 10);
        lemma_scale_le(s.last() as int, 9, p);
    }
}

/// A number written without leading zero is at least ten to the length less one.
pub proof fn lemma_value_at_least(s: Seq<u8>)
    requires
        s.len() > 0,
        s.last() != 0,
    ensures
        digits_value(s) >= pow10((s.len() - 1) as nat),
{
    let p = pow10((s.len() - 1) as nat) as int;
    lemma_pow10_positive((s.len() - 1) as nat);
    lemma_scale_le(1, s.last() as int, p);
}

/// Digits whose number reaches ten to the length less one have no leading zero.
pub proof fn lemma_leading_digit(s: Seq<u8>)
    requires
        all_digits(s),
        s.len() > 0,
        digits_value(s) >= pow10((s.len() - 1) as nat),
    ensures
        s.last() != 0,
{
    let t = s.drop_last();
    assert(all_digits(t)) by {
        assert forall|i: int| 0 <= i < t.len() implies #[trigger] t[i] < 10 by {
            assert(t[i] == s[i]);
        }
    }
    lemma_value_below(t);
    if s.last() == 0 {
        assert((0nat) * pow10((s.len() - 1) as nat) == 0);
    }
}

pub proof fn lemma_pow10_monotonic(a: nat, b: nat)
    requires
        a <= b,
    ensures
        pow10(a) <= pow10(b),
    decreases b,
{
    lemma_pow10_positive(a);
    if a < b {
        lemma_pow10_monotonic(a, (b - 1) as nat);
    }
}


/// Adds two magnitudes digit by digit.
fn magnitude_sum(a: &Vec<u8>, b: &Vec<u8>) -> (out: Vec<u8>)
    requires
        canonical(a@),
        canonical(b@),
    ensures
        canonical(out@),
        digits_value(out@) == digits_value(a@) + digits_value(b@),
{
    let n = if a.len() >= b.len() { a.len() } else { b.len() };
    let mut out: Vec<u8> = Vec::new();
    let mut carry: u8 = 0;
    let mut i: usize = 0;
    proof {
        lemma_low_value_step(a@, 0);
        lemma_low_value_step(b@, 0);
    }
    while i < n
        invariant
            i <= n,
            n == if a.len() >= b.len() { a.len() } else { b.len() },
            carry <= 1,
            out.len() == i,
            all_digits(a@),
            all_digits(b@),
            all_digits(out@),
            digits_value(out@) + carry * pow10(i as nat) == low_value(a@, i as nat) + low_value(
                b@,
                i as nat,
            ),
        decreases n - i,
    {
        let da: u8 = if i < a.len() { a[i] } else { 0 };
        let db: u8 = if i < b.len() { b[i] } else { 0 };
        let sum: u8 = da + db + carry;
        let d: u8 = if sum >= 10 { sum - 10 } else { sum };
        let next: u8 = if sum >= 10 { 1 } else { 0 };
        proof {
            let p = pow10(i as nat) as int;
            lemma_value_push(out@, d);
            lemma_low_value_step(a@, i as nat);
            lemma_low_value_step(b@, i as nat);
            lemma_scale(d as int, 10 * next, p);
            lemma_scale(da as int + db as int, carry as int, p);
            lemma_scale(da as int, db as int, p);
            assert(next * pow10((i + 1) as nat) == (10 * next) * p) by (nonlinear_arith)
                requires
                    pow10((i + 1) as nat) == 10 * p,
            ;
        }
        out.push(d);
        carry = next;
        i = i + 1;
    }
    proof {
        lemma_low_value_step(a@, n as nat);
        lemma_low_value_step(b@, n as nat);
    }
    if carry > 0 {
        proof {
            lemma_value_push(out@, carry);
        }
        out.push(carry);
    } else if n > 0 {
        proof {
            if a.len() >= b.len() {
                lemma_value_at_least(a@);
            } else {
                lemma_value_at_least(b@);
            }
            lemma_leading_digit(out@);
        }
    }
    out
}

/// Subtracts `b` from `a` digit by digit over the longer length. The second
/// result tells that `b` is the larger: the digits then write the difference
/// plus ten to the length.
fn magnitude_difference(a: &Vec<u8>, b: &Vec<u8>) -> (out: (Vec<u8>, bool))
    requires
        all_digits(a@),
        all_digits(b@),
    ensures
        all_digits(out.0@),
        out.1 == (digits_value(a@) < digits_value(b@)),
        !out.1 ==> digits_value(out.0@) == digits_value(a@) - digits_value(b@),
{
    let n = if a.len() >= b.len() { a.len() } else { b.len() };
    let mut out: Vec<u8> = Vec::new();
    let mut borrow: u8 = 0;
    let mut i: usize = 0;
    proof {
        lemma_low_value_step(a@, 0);
        lemma_low_value_step(b@, 0);
    }
    while i < n
        invariant
            i <= n,
            n == if a.len() >= b.len() { a.len() } else { b.len() },
            borrow <= 1,
            out.len() == i,
            all_digits(a@),
            all_digits(b@),
            all_digits(out@),
            digits_value(out@) + low_value(b@, i as nat) == low_value(a@, i as nat) + borrow
                * pow10(i as nat),
        decreases n - i,
    {
        let da: u8 = if i < a.len() { a[i] } else { 0 };
        let db: u8 = if i < b.len() { b[i] } else { 0 };
        let take: u8 = db + borrow;
        let d: u8 = if da >= take { da - take } else { da + 10 - take };
        let next: u8 = if da >= take { 0 } else { 1 };
        proof {
            let p = pow10(i as nat) as int;
            lemma_value_push(out@, d);
            lemma_low_value_step(a@, i as nat);
            lemma_low_value_step(b@, i as nat);
            lemma_scale(d as int, db as int, p);
            lemma_scale(da as int + 10 * next, borrow as int, p);
            lemma_scale(da as int, 10 * next, p);
            assert(next * pow10((i + 1) as nat) == (10 * next) * p) by (nonlinear_arith)
                requires
                    pow10((i + 1) as nat) == 10 * p,
            ;
        }
        out.push(d);
        borrow = next;
        i = i + 1;
    }
    proof {
        lemma_low_value_step(a@, n as nat);
        lemma_low_value_step(b@, n as nat);
        lemma_value_below(out@);
    }
    (out, borrow == 1)
}

/// Removes zeros from the most significant end.
fn strip_leading_zeros(digits: Vec<u8>) -> (out: Vec<u8>)
    requires
        all_digits(digits@),
    ensures
        canonical(out@),
        digits_value(out@) == digits_value(digits@),
{
    let mut out = digits;
    while out.len() > 0 && out[out.len() - 1] == 0
        invariant
            all_digits(out@),
            digits_value(out@) == digits_value(digits@),
        decreases out.len(),
    {
        proof {
            let t = out@.drop_last();
            assert forall|i: int| 0 <= i < t.len() implies #[trigger] t[i] < 10 by {
                assert(t[i] == out@[i]);
            }
            assert((0nat) * pow10((out.len() - 1) as nat) == 0);
        }
        out.pop();
    }
    out
}

/// The decimal digits of `n`, least significant first.
fn digits_of(n: u128) -> (out: Vec<u8>)
    ensures
        canonical(out@),
        digits_value(out@) == n,
{
    let mut out: Vec<u8> = Vec::new();
    let mut rest: u128 = n;
    proof {
        assert(pow10(0) == 1);
        assert(rest * 1 == rest);
        assert(out@.len() == 0);
    }
    while rest > 0
        invariant
            all_digits(out@),
            digits_value(out@) + rest * pow10(out.len() as nat) == n,
            rest == 0 && out.len() > 0 ==> out@.last() != 0,
        decreases rest,
    {
        let d: u8 = (rest % 10) as u8;
        let next: u128 = rest / 10;
        proof {
            let p = pow10(out.len() as nat) as int;
            lemma_value_push(out@, d);
            lemma_scale(d as int, 10 * next, p);
            assert(next * pow10((out.len() + 1) as nat) == (10 * next) * p) by (nonlinear_arith)
                requires
                    pow10((out.len() + 1) as nat) == 10 * p,
            ;
        }
        out.push(d);
        rest = next;
    }
    out
}


/// The number is its lowest digit plus ten times the number of the rest.
pub proof fn lemma_value_first(s: Seq<u8>)
    requires
        s.len() > 0,
    ensures
        digits_value(s) == s[0] + 10 * digits_value(s.drop_first()),
    decreases s.len(),
{
    if s.len() == 1 {
        assert(s.drop_last() =~= Seq::<u8>::empty());
        assert(s.drop_first() =~= Seq::<u8>::empty());
        assert(pow10(0) == 1);
        assert(digits_value(s.drop_last()) == 0);
        assert(digits_value(s.drop_first()) == 0);
        assert((s.last() as nat) * 1 == s[0]);
    } else {
        let front = s.drop_last();
        let rest = s.drop_first();
        lemma_value_first(front);
        let mid = front.drop_first();
        assert(mid =~= rest.drop_last());
        assert(front[0] == s[0]);
        assert(rest.last() == s.last());
        let p = pow10((s.len() - 2) as nat) as int;
        let last = s.last() as int;
        assert(pow10((s.len() - 1) as nat) == 10 * p);
        assert(last * (10 * p) == 10 * (last * p)) by (nonlinear_arith);
        assert(digits_value(s) == digits_value(front) + last * (10 * p));
        assert(digits_value(front) == s[0] + 10 * digits_value(mid));
        assert(rest.len() - 1 == s.len() - 2);
        assert(digits_value(rest) == digits_value(mid) + last * p);
    }
}

/// The digits as they are written: most significant first.
pub open spec fn written(s: Seq<u8>) -> Seq<char> {
    Seq::new(s.len(), |i: int| digit_char(s[s.len() - 1 - i] as nat))
}

/// Digits without leading zero are written as their number is.
pub proof fn lemma_written(s: Seq<u8>)
    requires
        canonical(s),
        s.len() > 0,
    ensures
        written(s) == nat_text(digits_value(s)),
    decreases s.len(),
{
    lemma_value_first(s);
    let rest = s.drop_first();
    assert(s[0] < 10);
    if s.len() == 1 {
        assert(rest =~= Seq::<u8>::empty());
        assert(written(s) =~= nat_text(digits_value(s)));
    } else {
        assert(all_digits(rest)) by {
            assert forall|i: int| 0 <= i < rest.len() implies #[trigger] rest[i] < 10 by {
                assert(rest[i] == s[i + 1]);
            }
        }
        assert(rest.last() == s.last());
        lemma_written(rest);
        lemma_value_at_least(rest);
        lemma_pow10_positive((rest.len() - 1) as nat);
        let v = digits_value(s);
        let r = digits_value(rest);
        assert(v / 10 == r && v % 10 == s[0]) by (nonlinear_arith)
            requires
                v == s[0] + 10 * r,
                0 <= s[0] < 10,
        ;
        assert(written(s) =~= written(rest).push(digit_char(s[0] as nat)));
    }
}

/// How a whole number is written: a minus sign ahead of a negative one,
/// then the decimal digits without leading zero.
pub open spec fn int_text(v: int) -> Seq<char> {
    if v < 0 {
        seq!['-'] + nat_text((-v) as nat)
    } else {
        nat_text(v as nat)
    }
}

/// A signed integer of any size.
#[derive(Debug, PartialEq, Eq)]
pub struct Amount {
    negative: bool,
    digits: Vec<u8>,
}

impl View for Amount {
    type V = int;

    closed spec fn view(&self) -> int {
        if self.negative {
            -(digits_value(self.digits@) as int)
        } else {
            digits_value(self.digits@) as int
        }
    }
}

impl Clone for Amount {
    fn clone(&self) -> (out: Self)
        ensures
            out@ == self@,
    {
        proof {
            use_type_invariant(self);
        }
        let digits = self.digits.clone();
        assert(digits@ =~= self.digits@);
        Amount { negative: self.negative, digits }
    }
}

impl Amount {
    /// Zero is written with no digit and no sign, every other number without
    /// leading zero: equal numbers are held alike.
    #[verifier::type_invariant]
    spec fn well_formed(&self) -> bool {
        canonical(self.digits@) && (self.negative ==> self.digits@.len() > 0)
    }

    /// The number zero.
    pub fn zero() -> (out: Amount)
        ensures
            out@ == 0,
    {
        Amount { negative: false, digits: Vec::new() }
    }

    /// The amount `n`.
    pub fn from_u128(n: u128) -> (out: Amount)
        ensures
            out@ == n,
    {
        Amount { negative: false, digits: digits_of(n) }
    }

    /// Whether the amount is zero.
    pub fn is_zero(&self) -> (b: bool)
        ensures
            b == (self@ == 0),
    {
        proof {
            use_type_invariant(self);
            if self.digits@.len() > 0 {
                lemma_value_at_least(self.digits@);
                lemma_pow10_positive((self.digits@.len() - 1) as nat);
            }
        }
        self.digits.len() == 0
    }

    /// Whether the amount is below zero.
    pub fn is_negative(&self) -> (b: bool)
        ensures
            b == (self@ < 0),
    {
        proof {
            use_type_invariant(self);
            if self.digits@.len() > 0 {
                lemma_value_at_least(self.digits@);
                lemma_pow10_positive((self.digits@.len() - 1) as nat);
            }
        }
        self.negative
    }

    /// The amount with its sign turned.
    pub fn negated(&self) -> (out: Amount)
        ensures
            out@ == -self@,
    {
        proof {
            use_type_invariant(self);
        }
        let digits = self.digits.clone();
        assert(digits@ =~= self.digits@);
        let negative = !self.negative && digits.len() > 0;
        Amount { negative, digits }
    }

    /// The sum of two amounts.
    pub fn plus(&self, other: &Amount) -> (out: Amount)
        ensures
            out@ == self@ + other@,
    {
        proof {
            use_type_invariant(self);
            use_type_invariant(other);
        }
        if self.negative == other.negative {
            let digits = magnitude_sum(&self.digits, &other.digits);
            let negative = self.negative && digits.len() > 0;
            Amount { negative, digits }
        } else {
            let (raw, smaller) = magnitude_difference(&self.digits, &other.digits);
            if smaller {
                let (back, _) = magnitude_difference(&other.digits, &self.digits);
                let digits = strip_leading_zeros(back);
                let negative = other.negative && digits.len() > 0;
                Amount { negative, digits }
            } else {
                let digits = strip_leading_zeros(raw);
                let negative = self.negative && digits.len() > 0;
                Amount { negative, digits }
            }
        }
    }

    /// The difference of two amounts.
    pub fn minus(&self, other: &Amount) -> (out: Amount)
        ensures
            out@ == self@ - other@,
    {
        let turned = other.negated();
        self.plus(&turned)
    }

    /// Writes the amount in decimal digits.
    pub fn to_text(&self) -> (out: String)
        ensures
            out@ == int_text(self@),
    {
        proof {
            use_type_invariant(self);
        }
        let mut chars: Vec<char> = Vec::new();
        if self.digits.len() == 0 {
            chars.push('0');
            assert(chars@ =~= nat_text(0));
            return string_from_chars(&chars);
        }
        if self.negative {
            chars.push('-');
        }
        let ghost sign = chars@;
        let ghost goal = written(self.digits@);
        let n = self.digits.len();
        let mut i: usize = 0;
        assert(chars@ =~= sign + goal.take(0));
        while i < n
            invariant
                i <= n,
                n == self.digits.len(),
                all_digits(self.digits@),
                goal == written(self.digits@),
                chars@ == sign + goal.take(i as int),
            decreases n - i,
        {
            let d: u8 = self.digits[n - 1 - i];
            assert(self.digits@[n - 1 - i] < 10);
            let c: char = (d + 48u8) as char;
            assert(c == digit_char(d as nat));
            chars.push(c);
            assert(chars@ =~= sign + goal.take(i + 1));
            i = i + 1;
        }
        proof {
            assert(goal.take(i as int) =~= goal);
            lemma_written(self.digits@);
            lemma_value_at_least(self.digits@);
            lemma_pow10_positive((self.digits@.len() - 1) as nat);
        }
        string_from_chars(&chars)
    }

    /// Whether two amounts are the same number.
    pub fn same(&self, other: &Amount) -> (b: bool)
        ensures
            b == (self@ == other@),
    {
        self.minus(other).is_zero()
    }
}


/// A decimal number in parts: a sign, the digits of a whole number, least
/// significant first, and the number of those digits that stand behind the
/// decimal point.
#[derive(Debug, Clone, PartialEq, Eq)]
pub struct DecimalParts {
    pub negative: bool,
    pub digits: Vec<u8>,
    pub scale: i64,
}

pub struct DecimalPartsView {
    pub negative: bool,
    pub digits: Seq<u8>,
    pub scale: i64,
}

impl DeepView for DecimalParts {
    type V = DecimalPartsView;

    open spec fn deep_view(&self) -> DecimalPartsView {
        DecimalPartsView { negative: self.negative, digits: self.digits@, scale: self.scale }
    }
}

/// The parts of the decimal number that a text writes, if it writes one.
pub uninterp spec fn decimal_parsed(text: Seq<char>) -> Option<DecimalPartsView>;

/// Whether the text holds the letter that opens an exponent.
pub open spec fn has_exponent(text: Seq<char>) -> bool {
    text.contains('e') || text.contains('E')
}

/// `BigDecimal::from_str` of the crate `bigdecimal`, taken apart by
/// `BigDecimal::into_bigint_and_exponent` and `BigInt::to_radix_le`: reads a
/// decimal number. The contract names the parts and says that there are
/// none exactly when the text is no number. With an exponent in the text
/// the call computes the scale by a subtraction that can pass 64 bits;
/// `requires` leaves such texts out.
#[verifier::external_body]
fn parse_decimal_parts(text: &str) -> (out: Option<DecimalParts>)
    requires
        !has_exponent(text@),
    ensures
        out.deep_view() == decimal_parsed(text@),
{
    match bigdecimal::BigDecimal::from_str(text) {
        Ok(number) => {
            let (unscaled, scale) = number.into_bigint_and_exponent();
            let (sign, digits) = unscaled.to_radix_le(10);
            let negative = match sign {
                bigdecimal::num_bigint::Sign::Minus => true,
                bigdecimal::num_bigint::Sign::NoSign => false,
                bigdecimal::num_bigint::Sign::Plus => false,
            };
            Some(DecimalParts { negative, digits, scale })
        },
        Err(_) => None,
    }
}

/// The whole number that the parts stand for; nothing where they stand for
/// a fraction, where a digit is none, or where the scale is below zero.
pub open spec fn whole_value(parts: DecimalPartsView) -> Option<int> {
    if !all_digits(parts.digits) || parts.scale < 0 {
        None
    } else {
        let unscaled = digits_value(parts.digits);
        let unit = pow10(parts.scale as nat);
        if unscaled % unit == 0 {
            if parts.negative {
                Some(-((unscaled / unit) as int))
            } else {
                Some((unscaled / unit) as int)
            }
        } else {
            None
        }
    }
}

/// The whole number that a text writes. A text with an exponent counts as
/// writing none.
pub open spec fn parsed_amount(text: Seq<char>) -> Option<int> {
    if has_exponent(text) {
        None
    } else {
        match decimal_parsed(text) {
            Some(parts) => whole_value(parts),
            None => None,
        }
    }
}

pub proof fn lemma_pow10_sum(a: nat, b: nat)
    ensures
        pow10(a + b) == pow10(a) * pow10(b),
    decreases b,
{
    if b == 0 {
        assert(pow10(0) == 1);
        assert(pow10(a) * 1 == pow10(a));
    } else {
        lemma_pow10_sum(a, (b - 1) as nat);
        let x = pow10(a) as int;
        let y = pow10((b - 1) as nat) as int;
        assert(pow10(b) == 10 * y);
        assert(pow10(a + b) == 10 * pow10((a + b - 1) as nat));
        assert(10 * (x * y) == x * (10 * y)) by (nonlinear_arith);
    }
}

/// A number is its lowest `k` digits plus ten to the `k` times the rest.
pub proof fn lemma_value_split(s: Seq<u8>, k: int)
    requires
        0 <= k <= s.len(),
    ensures
        digits_value(s) == digits_value(s.take(k)) + pow10(k as nat) * digits_value(s.skip(k)),
    decreases s.len(),
{
    if k == s.len() {
        assert(s.take(k) =~= s);
        assert(s.skip(k) =~= Seq::<u8>::empty());
        assert(pow10(k as nat) * 0 == 0);
    } else {
        let front = s.drop_last();
        lemma_value_split(front, k);
        assert(front.take(k) =~= s.take(k));
        assert(s.skip(k).drop_last() =~= front.skip(k));
        assert(s.skip(k).last() == s.last());
        let rest = (s.len() - 1 - k) as nat;
        lemma_pow10_sum(k as nat, rest);
        let pk = pow10(k as nat) as int;
        let pr = pow10(rest) as int;
        let high = digits_value(front.skip(k)) as int;
        let last = s.last() as int;
        assert(pk * (high + last * pr) == pk * high + last * (pk * pr)) by (nonlinear_arith);
    }
}

/// Digits write zero exactly when every one of them is zero.
pub proof fn lemma_zero_value(s: Seq<u8>)
    ensures
        digits_value(s) == 0 <==> forall|i: int| 0 <= i < s.len() ==> #[trigger] s[i] == 0,
    decreases s.len(),
{
    if s.len() > 0 {
        let front = s.drop_last();
        lemma_zero_value(front);
        lemma_pow10_positive((s.len() - 1) as nat);
        let p = pow10((s.len() - 1) as nat) as int;
        let last = s.last() as int;
        if last == 0 {
            assert(last * p == 0);
        } else {
            lemma_scale_le(1, last, p);
        }
        if digits_value(s) == 0 {
            assert forall|i: int| 0 <= i < s.len() implies #[trigger] s[i] == 0 by {
                if i < s.len() - 1 {
                    assert(front[i] == s[i]);
                }
            }
        } else if forall|i: int| 0 <= i < s.len() ==> #[trigger] s[i] == 0 {
            assert forall|i: int| 0 <= i < front.len() implies #[trigger] front[i] == 0 by {
                assert(front[i] == s[i]);
            }
            assert(s[s.len() - 1] == 0);
        }
    }
}

/// Whether every element is a decimal digit.
fn only_digits(digits: &Vec<u8>) -> (b: bool)
    ensures
        b == all_digits(digits@),
{
    let mut i: usize = 0;
    while i < digits.len()
        invariant
            i <= digits.len(),
            forall|j: int| 0 <= j < i ==> #[trigger] digits@[j] < 10,
        decreases digits.len() - i,
    {
        if digits[i] >= 10 {
            return false;
        }
        i = i + 1;
    }
    true
}

impl Amount {
    /// The whole number that the parts of a decimal number stand for.
    pub fn from_parts(parts: &DecimalParts) -> (out: Option<Amount>)
        ensures
            amount_value(out) == whole_value(parts.deep_view()),
    {
        if !only_digits(&parts.digits) || parts.scale < 0 {
            return None;
        }
        let n = parts.digits.len();
        let ghost all = parts.digits@;
        let low: usize = if (parts.scale as u64) < (n as u64) {
            parts.scale as usize
        } else {
            n
        };
        let mut i: usize = 0;
        while i < low
            invariant
                i <= low <= n,
                n == parts.digits.len(),
                all == parts.digits@,
                all_digits(all),
                parts.scale >= 0,
                low == parts.scale || (low == n && n <= parts.scale),
                forall|j: int| 0 <= j < i ==> #[trigger] all[j] == 0,
            decreases low - i,
        {
            if parts.digits[i] != 0 {
                proof {
                    lemma_value_split(all, low as int);
                    lemma_zero_value(all.take(low as int));
                    assert(all.take(low as int)[i as int] == all[i as int]);
                    lemma_fraction(all, low as int, parts.scale as nat);
                }
                return None;
            }
            i = i + 1;
        }
        let mut rest: Vec<u8> = Vec::new();
        let mut j: usize = low;
        assert(rest@ =~= all.subrange(low as int, low as int));
        while j < n
            invariant
                low <= j <= n,
                n == parts.digits.len(),
                all == parts.digits@,
                rest@ == all.subrange(low as int, j as int),
            decreases n - j,
        {
            rest.push(parts.digits[j]);
            assert(rest@ =~= all.subrange(low as int, j + 1));
            j = j + 1;
        }
        proof {
            assert(rest@ =~= all.skip(low as int));
            assert forall|k: int| 0 <= k < rest@.len() implies #[trigger] rest@[k] < 10 by {
                assert(rest@[k] == all[low + k]);
            }
            assert forall|k: int| 0 <= k < all.take(low as int).len() implies #[trigger] all.take(
                low as int,
            )[k] == 0 by {
                assert(all.take(low as int)[k] == all[k]);
            }
            lemma_zero_value(all.take(low as int));
            lemma_whole(all, low as int, parts.scale as nat);
        }
        let digits = strip_leading_zeros(rest);
        let negative = parts.negative && digits.len() > 0;
        Some(Amount { negative, digits })
    }

    /// Reads a whole number written in decimal digits, with or without a
    /// sign and a decimal point.
    pub fn parse_decimal(text: &str) -> (out: Option<Amount>)
        ensures
            amount_value(out) == parsed_amount(text@),
    {
        let chars = chars_of(text);
        let mut i: usize = 0;
        while i < chars.len()
            invariant
                i <= chars.len(),
                chars@ == text@,
                forall|j: int| 0 <= j < i ==> chars@[j] != 'e' && chars@[j] != 'E',
            decreases chars.len() - i,
        {
            if chars[i] == 'e' || chars[i] == 'E' {
                return None;
            }
            i = i + 1;
        }
        match parse_decimal_parts(text) {
            Some(parts) => Amount::from_parts(&parts),
            None => None,
        }
    }
}

/// The number that an optional amount stands for.
pub open spec fn amount_value(amount: Option<Amount>) -> Option<int> {
    match amount {
        Some(a) => Some(a@),
        None => None,
    }
}

/// Where one of the lowest `low` digits is not zero and `low` is the scale
/// or the number of digits, whichever is less, the parts stand for a
/// fraction.
proof fn lemma_fraction(all: Seq<u8>, low: int, scale: nat)
    requires
        all_digits(all),
        0 <= low <= all.len(),
        low == scale || (low == all.len() && all.len() <= scale),
        digits_value(all.take(low)) != 0,
    ensures
        digits_value(all) % pow10(scale) != 0,
{
    lemma_value_split(all, low);
    let lowv = digits_value(all.take(low)) as int;
    let high = digits_value(all.skip(low)) as int;
    assert(all_digits(all.take(low))) by {
        assert forall|i: int| 0 <= i < all.take(low).len() implies #[trigger] all.take(low)[i]
            < 10 by {
            assert(all.take(low)[i] == all[i]);
        }
    }
    lemma_value_below(all.take(low));
    lemma_pow10_monotonic(low as nat, scale);
    lemma_pow10_positive(scale);
    if low == scale {
        let p = pow10(scale) as int;
        assert(digits_value(all) == high * p + lowv) by (nonlinear_arith)
            requires
                digits_value(all) == lowv + p * high,
        ;
        lemma_fundamental_div_mod_converse(digits_value(all) as int, p, high, lowv);
    } else {
        assert(all.skip(low) =~= Seq::<u8>::empty());
        assert(pow10(low as nat) * 0 == 0);
        let p = pow10(scale) as int;
        assert(digits_value(all) == 0 * p + lowv);
        lemma_fundamental_div_mod_converse(digits_value(all) as int, p, 0, lowv);
    }
}

/// Where the lowest `low` digits are all zero, the parts stand for the
/// number that the other digits write.
proof fn lemma_whole(all: Seq<u8>, low: int, scale: nat)
    requires
        all_digits(all),
        0 <= low <= all.len(),
        low == scale || (low == all.len() && all.len() <= scale),
        digits_value(all.take(low)) == 0,
    ensures
        digits_value(all) % pow10(scale) == 0,
        digits_value(all) / pow10(scale) == digits_value(all.skip(low)),
{
    lemma_value_split(all, low);
    lemma_pow10_positive(scale);
    let high = digits_value(all.skip(low)) as int;
    let p = pow10(scale) as int;
    if low == scale {
        assert(digits_value(all) == high * p + 0) by (nonlinear_arith)
            requires
                digits_value(all) == 0 + p * high,
        ;
        lemma_fundamental_div_mod_converse(digits_value(all) as int, p, high, 0);
    } else {
        assert(all.skip(low) =~= Seq::<u8>::empty());
        assert(pow10(low as nat) * 0 == 0);
        assert(digits_value(all) == 0 * p + 0);
        lemma_fundamental_div_mod_converse(digits_value(all) as int, p, 0, 0);
    }
}

} // verus!
