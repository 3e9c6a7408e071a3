//! Amounts of tokens as decimal text: writing an amount of smallest units in
//! whole tokens, and reading such a numeral back.

use vstd::prelude::*;
use vstd::string::StrSliceExecFns;

use crate::primitives::{
    be_value, lemma_be_value_bound, lemma_be_value_concat, lemma_single_byte_value, pow256, U256,
};

verus! {

/// The character of a decimal digit.
pub open spec fn digit_char(d: nat) -> char {
    (0x30 + d) as u8 as char
}

/// The decimal numeral of a number, without leading zeros.
pub open spec fn decimal_digits(n: nat) -> Seq<char>
    decreases n,
{
    if n < 10 {
        seq![digit_char(n)]
    } else {
        decimal_digits(n / 10).push(digit_char(n % 10))
    }
}

/// The smallest units in one whole token: `10^18`.
pub open spec fn units_per_token() -> nat {
    1_000_000_000_000_000_000
}

/// An amount of smallest units written in whole tokens: the numeral of the
/// whole part, a point, and the remainder in exactly 18 digits.
pub open spec fn ether_text(amount: nat) -> Seq<char> {
    let fraction = decimal_digits(amount % units_per_token());
    decimal_digits(amount / units_per_token()) + seq!['.'] + Seq::new(
        (18 - fraction.len()) as nat,
        |i: int| '0',
    ) + fraction
}

/// `10^n`.
pub open spec fn pow10(n: nat) -> nat
    decreases n,
{
    if n == 0 {
        1
    } else {
        10 * pow10((n - 1) as nat)
    }
}

/// A number below `10^n` has at most `n` digits, and every number has one.
pub proof fn lemma_decimal_digits_len(value: nat, n: nat)
    requires
        n >= 1,
        value < pow10(n),
    ensures
        1 <= decimal_digits(value).len() <= n,
    decreases n,
{
    if value >= 10 {
        assert(pow10(1) == 10) by {
            reveal_with_fuel(pow10, 2);
        }
        assert(n >= 2);
        lemma_decimal_digits_len(value / 10, (n - 1) as nat);
    }
}

/// The text of an amount is the numeral of the whole tokens, a point, and
/// exactly 18 digits.
pub proof fn ether_text_shape(amount: nat)
    ensures
        ({
            let whole = decimal_digits(amount / units_per_token());
            &&& ether_text(amount).len() == whole.len() + 19
            &&& ether_text(amount).subrange(0, whole.len() as int) == whole
            &&& ether_text(amount)[whole.len() as int] == '.'
        }),
{
    assert(pow10(18) == units_per_token()) by {
        reveal_with_fuel(pow10, 19);
    }
    lemma_decimal_digits_len(amount % units_per_token(), 18);
    let whole = decimal_digits(amount / units_per_token());
    assert(ether_text(amount).subrange(0, whole.len() as int) =~= whole);
}

/// Whether a character is a decimal digit.
pub open spec fn is_digit(c: char) -> bool {
    '0' <= c <= '9'
}

/// The number that a decimal digit stands for.
pub open spec fn digit_of(c: char) -> nat {
    (c as nat - 0x30) as nat
}

/// Whether a text holds decimal digits only.
pub open spec fn all_digits(text: Seq<char>) -> bool {
    forall|i: int| 0 <= i < text.len() ==> is_digit(#[trigger] text[i])
}

/// The number that a string of decimal digits denotes; the empty string
/// denotes zero.
pub open spec fn digits_value(digits: Seq<char>) -> nat
    decreases digits.len(),
{
    if digits.len() == 0 {
        0
    } else {
        digits_value(digits.drop_last()) * 10 + digit_of(digits.last())
    }
}

/// Whether a text is a numeral of whole tokens whose whole part has `point`
/// digits: at least one digit, then nothing more, or a point and at most 18
/// digits.
pub open spec fn numeral_at(text: Seq<char>, point: int) -> bool {
    &&& 1 <= point <= text.len()
    &&& all_digits(text.subrange(0, point))
    &&& point < text.len() ==> {
        &&& text[point] == '.'
        &&& all_digits(text.subrange(point + 1, text.len() as int))
        &&& text.len() - point - 1 <= 18
    }
}

/// The digits behind the point of a numeral; none where it has no point.
pub open spec fn fraction_of(text: Seq<char>, point: int) -> Seq<char> {
    if point < text.len() {
        text.subrange(point + 1, text.len() as int)
    } else {
        Seq::empty()
    }
}

/// The amount of smallest units that a numeral of whole tokens denotes.
pub open spec fn numeral_value(text: Seq<char>, point: int) -> nat {
    let fraction = fraction_of(text, point);
    digits_value(text.subrange(0, point)) * pow10(18) + digits_value(fraction) * pow10(
        (18 - fraction.len()) as nat,
    )
}

/// The amount that a stored decimal numeral stands for: `None` for a text
/// that is no numeral of whole tokens with at most 18 decimal places, or
/// whose amount does not fit in 256 bits.
pub open spec fn amount_of_text(text: Seq<char>) -> Option<nat> {
    if exists|point: int| numeral_at(text, point) {
        let point = choose|point: int| numeral_at(text, point);
        if numeral_value(text, point) < pow256(32) {
            Some(numeral_value(text, point))
        } else {
            None
        }
    } else {
        None
    }
}

/// The error of the unit conversions of `alloy::primitives::utils`, carried
/// through unread.
#[verifier::external_type_specification]
#[verifier::external_body]
pub struct ExUnitsError(alloy::primitives::utils::UnitsError);

/// Calls `alloy::primitives::utils::format_units` with the unit "ether".
/// Trusted: that unit is known, so the call succeeds, and the text is
/// `ether_text` of the amount.
#[verifier::external_body]
fn format_ether(amount: &U256) -> (r: Result<String, alloy::primitives::utils::UnitsError>)
    ensures
        r is Ok,
        r.unwrap()@ == ether_text(amount@),
{
    alloy::primitives::utils::format_units(
        alloy::primitives::U256::from_be_bytes(amount.bytes),
        "ether",
    )
}

/// Ten times a 256-bit integer, plus a digit; `None` where that does not
/// fit in 256 bits.
fn times_ten_plus(value: &U256, digit: u8) -> (r: Option<U256>)
    requires
        digit <= 9,
    ensures
        match r {
            Some(next) => next@ == value@ * 10 + digit,
            None => value@ * 10 + digit >= pow256(32),
        },
{
    let mut bytes = value.bytes;
    let mut carry: u16 = digit as u16;
    let mut i: usize = 32;
    proof {
        assert(bytes@.subrange(32, 32) =~= Seq::<u8>::empty());
        assert(value.bytes@.subrange(32, 32) =~= Seq::<u8>::empty());
        assert(be_value(Seq::<u8>::empty()) == 0);
        assert(carry * pow256((32 - i) as nat) == carry) by (nonlinear_arith)
            requires
                pow256((32 - i) as nat) == 1,
        ;
    }
    while i > 0
        invariant
            i <= 32,
            carry <= 9,
            digit <= 9,
            forall|j: int| 0 <= j < i ==> bytes@[j] == value.bytes@[j],
            be_value(bytes@.subrange(i as int, 32)) + carry * pow256((32 - i) as nat) == be_value(
                value.bytes@.subrange(i as int, 32),
            ) * 10 + digit,
        decreases i,
    {
        let ghost before = bytes@;
        i -= 1;
        let scaled: u16 = bytes[i] as u16 * 10 + carry;
        let low: u8 = (scaled % 256) as u8;
        bytes[i] = low;
        proof {
            let old_byte = value.bytes@[i as int];
            let new_tail = before.subrange(i + 1, 32);
            let old_tail = value.bytes@.subrange(i + 1, 32);
            assert(bytes@.subrange(i as int, 32) =~= seq![low] + new_tail);
            assert(value.bytes@.subrange(i as int, 32) =~= seq![old_byte] + old_tail);
            lemma_be_value_concat(seq![low], new_tail);
            lemma_be_value_concat(seq![old_byte], old_tail);
            lemma_single_byte_value(low);
            lemma_single_byte_value(old_byte);
            let p = pow256((31 - i) as nat) as int;
            assert(pow256((32 - i) as nat) == 256 * p);
            let high = (scaled / 256) as int;
            assert(scaled as int == high * 256 + low as int);
            assert(scaled as int == old_byte as int * 10 + carry as int);
            assert(low as int * p + high * (256 * p) == (old_byte as int * 10 + carry as int) * p)
                by (nonlinear_arith)
                requires
                    high * 256 + low as int == old_byte as int * 10 + carry as int,
            ;
            assert((old_byte as int * p + be_value(old_tail)) * 10 == old_byte as int * 10 * p
                + be_value(old_tail) * 10) by (nonlinear_arith);
            assert((old_byte as int * 10 + carry as int) * p == old_byte as int * 10 * p
                + carry as int * p) by (nonlinear_arith);
        }
        carry = scaled / 256;
    }
    proof {
        assert(bytes@.subrange(0, 32) =~= bytes@);
        assert(value.bytes@.subrange(0, 32) =~= value.bytes@);
    }
    if carry != 0 {
        proof {
            assert(carry * pow256(32) >= pow256(32)) by (nonlinear_arith)
                requires
                    carry >= 1,
                    pow256(32) >= 0,
            ;
        }
        None
    } else {
        proof {
            assert(carry * pow256(32) == 0) by (nonlinear_arith)
                requires
                    carry == 0,
            ;
        }
        Some(U256 { bytes })
    }
}

/// `10^n` is at least one.
pub proof fn lemma_pow10_positive(n: nat)
    ensures
        pow10(n) >= 1,
    decreases n,
{
    if n > 0 {
        lemma_pow10_positive((n - 1) as nat);
    }
}

/// `10^(a+b) = 10^a * 10^b`.
pub proof fn lemma_pow10_sum(a: nat, b: nat)
    ensures
        pow10(a + b) == pow10(a) * pow10(b),
    decreases b,
{
    if b == 0 {
        assert(pow10(a) * 1 == pow10(a));
    } else {
        lemma_pow10_sum(a, (b - 1) as nat);
        let x = pow10(a) as int;
        let y = pow10((b - 1) as nat) as int;
        assert(pow10(a + b) == 10 * pow10((a + b - 1) as nat));
        assert(10 * (x * y) == x * (10 * y)) by (nonlinear_arith);
    }
}

/// A number followed by more digits: the number shifted by their count,
/// plus their value.
pub open spec fn shifted(value: nat, digits: Seq<char>) -> nat {
    value * pow10(digits.len()) + digits_value(digits)
}

/// One more digit multiplies by ten and adds the digit.
pub proof fn lemma_shifted_push(value: nat, digits: Seq<char>, c: char)
    ensures
        shifted(value, digits.push(c)) == shifted(value, digits) * 10 + digit_of(c),
{
    let longer = digits.push(c);
    assert(longer.drop_last() =~= digits);
    assert(longer.last() == c);
    let v = value as int;
    let p = pow10(digits.len()) as int;
    let d = digits_value(digits) as int;
    assert(pow10(longer.len()) == 10 * p);
    assert(v * (10 * p) + (d * 10 + digit_of(c)) == (v * p + d) * 10 + digit_of(c))
        by (nonlinear_arith);
}

/// Digits can be taken in two runs.
pub proof fn lemma_shifted_concat(value: nat, a: Seq<char>, b: Seq<char>)
    ensures
        shifted(value, a + b) == shifted(shifted(value, a), b),
        shifted(value, a + b) >= shifted(value, a),
    decreases b.len(),
{
    if b.len() == 0 {
        assert(a + b =~= a);
        assert(shifted(value, a) * 1 == shifted(value, a));
    } else {
        let b0 = b.drop_last();
        assert(a + b =~= (a + b0).push(b.last()));
        assert(b =~= b0.push(b.last()));
        lemma_shifted_concat(value, a, b0);
        lemma_shifted_push(value, a + b0, b.last());
        lemma_shifted_push(shifted(value, a), b0, b.last());
    }
}

/// Where a text is a numeral, its whole part ends at the first character
/// that is no digit. So a text is a numeral in at most one way.
pub proof fn lemma_numeral_point(text: Seq<char>, first_other: int, point: int)
    requires
        0 <= first_other <= text.len(),
        all_digits(text.subrange(0, first_other)),
        first_other < text.len() ==> !is_digit(text[first_other]),
        numeral_at(text, point),
    ensures
        point == first_other,
{
    if point < first_other {
        assert(is_digit(text.subrange(0, first_other)[point]));
    } else if point > first_other {
        assert(is_digit(text.subrange(0, point)[first_other]));
    }
}

/// A text with a character that is neither a digit nor a point is no
/// numeral.
pub proof fn lemma_other_char_no_numeral(text: Seq<char>, i: int)
    requires
        0 <= i < text.len(),
        !is_digit(text[i]),
        text[i] != '.',
    ensures
        forall|point: int| !numeral_at(text, point),
{
    assert forall|point: int| !numeral_at(text, point) by {
        if numeral_at(text, point) {
            if i < point {
                assert(is_digit(text.subrange(0, point)[i]));
            } else if i > point {
                assert(is_digit(text.subrange(point + 1, text.len() as int)[i - point - 1]));
            }
        }
    }
}

/// The value of a numeral, digit by digit: the digits of both parts in one
/// run, then a zero for each decimal place that the numeral leaves out.
pub proof fn lemma_numeral_value(text: Seq<char>, point: int)
    requires
        numeral_at(text, point),
    ensures
        ({
            let fraction = fraction_of(text, point);
            numeral_value(text, point) == shifted(
                shifted(0, text.subrange(0, point)),
                fraction,
            ) * pow10((18 - fraction.len()) as nat)
        }),
{
    let whole = text.subrange(0, point);
    let fraction = fraction_of(text, point);
    let w = digits_value(whole) as int;
    let f = digits_value(fraction) as int;
    let a = pow10(fraction.len()) as int;
    let b = pow10((18 - fraction.len()) as nat) as int;
    lemma_pow10_sum(fraction.len(), (18 - fraction.len()) as nat);
    assert(0 * pow10(whole.len()) == 0);
    assert((w * a + f) * b == w * (a * b) + f * b) by (nonlinear_arith);
}

/// The numeral of a number holds digits only and denotes the number.
pub proof fn lemma_decimal_digits_value(value: nat)
    ensures
        all_digits(decimal_digits(value)),
        digits_value(decimal_digits(value)) == value,
    decreases value,
{
    if value < 10 {
        let digits = seq![digit_char(value)];
        assert(digits.drop_last() =~= Seq::<char>::empty());
        assert(digits.last() == digit_char(value));
        assert(digits_value(Seq::<char>::empty()) == 0);
    } else {
        lemma_decimal_digits_value(value / 10);
        let shorter = decimal_digits(value / 10);
        let digits = shorter.push(digit_char(value % 10));
        assert(digits.drop_last() =~= shorter);
        assert(digits.last() == digit_char(value % 10));
        assert forall|i: int| 0 <= i < digits.len() implies is_digit(#[trigger] digits[i]) by {
            if i < shorter.len() {
                assert(is_digit(shorter[i]));
            }
        }
    }
}

/// A run of zeros holds digits only and denotes zero.
pub proof fn lemma_zeros_value(count: nat)
    ensures
        all_digits(Seq::new(count, |i: int| '0')),
        digits_value(Seq::new(count, |i: int| '0')) == 0,
    decreases count,
{
    if count > 0 {
        lemma_zeros_value((count - 1) as nat);
        assert(Seq::new(count, |i: int| '0').drop_last() =~= Seq::new(
            (count - 1) as nat,
            |i: int| '0',
        ));
    }
}

/// An amount below `2^256` that is written in whole tokens is read back as
/// it was.
pub proof fn ether_text_round_trip(amount: nat)
    requires
        amount < pow256(32),
    ensures
        amount_of_text(ether_text(amount)) == Some(amount),
{
    let whole = decimal_digits(amount / units_per_token());
    let remainder = decimal_digits(amount % units_per_token());
    let zeros = Seq::new((18 - remainder.len()) as nat, |i: int| '0');
    let text = ether_text(amount);
    let point = whole.len() as int;
    assert(pow10(18) == units_per_token()) by {
        reveal_with_fuel(pow10, 19);
    }
    lemma_decimal_digits_len(amount % units_per_token(), 18);
    lemma_decimal_digits_value(amount / units_per_token());
    lemma_decimal_digits_value(amount % units_per_token());
    lemma_zeros_value((18 - remainder.len()) as nat);
    assert(text.subrange(0, point) =~= whole);
    assert(text[point] == '.');
    assert(text.subrange(point + 1, text.len() as int) =~= zeros + remainder);
    assert forall|i: int| 0 <= i < (zeros + remainder).len() implies is_digit(
        #[trigger] (zeros + remainder)[i],
    ) by {
        if i < zeros.len() {
            assert(is_digit(zeros[i]));
        } else {
            assert(is_digit(remainder[i - zeros.len()]));
        }
    }
    assert(numeral_at(text, point));
    lemma_numeral_point(text, point, choose|p: int| numeral_at(text, p));
    lemma_shifted_concat(0, zeros, remainder);
    assert(0 * pow10(zeros.len()) == 0);
    assert(0 * pow10((zeros + remainder).len()) == 0);
    assert(0 * pow10(remainder.len()) == 0);
    assert(digits_value(zeros + remainder) == digits_value(remainder));
    assert(pow10(0) == 1);
    assert(digits_value(remainder) * pow10(0) == digits_value(remainder)) by (nonlinear_arith)
        requires
            pow10(0) == 1,
    ;
    assert(fraction_of(text, point) == zeros + remainder);
    assert(numeral_value(text, point) == amount) by {
        let u = units_per_token() as int;
        assert((amount as int / u) * u + amount as int % u == amount) by (nonlinear_arith)
            requires
                u > 0,
        ;
    }
}

/// The end of the run of digits that starts at `from`.
fn digits_end(text: &str, from: usize, len: usize) -> (end: usize)
    requires
        text.is_ascii(),
        len == text@.len(),
        from <= len,
    ensures
        from <= end <= len,
        all_digits(text@.subrange(from as int, end as int)),
        end < len ==> !is_digit(text@[end as int]),
{
    let mut end: usize = from;
    while end < len
        invariant
            text.is_ascii(),
            len == text@.len(),
            from <= end <= len,
            all_digits(text@.subrange(from as int, end as int)),
        decreases len - end,
    {
        let byte = text.get_ascii(end);
        if byte < 0x30 || byte > 0x39 {
            return end;
        }
        end += 1;
    }
    end
}

/// Takes the digits of `text` from `from` to `to` into a number.
fn take_digits(value: U256, text: &str, from: usize, to: usize) -> (r: Option<U256>)
    requires
        text.is_ascii(),
        from <= to <= text@.len(),
        all_digits(text@.subrange(from as int, to as int)),
    ensures
        match r {
            Some(next) => next@ == shifted(value@, text@.subrange(from as int, to as int)),
            None => shifted(value@, text@.subrange(from as int, to as int)) >= pow256(32),
        },
{
    let mut current = value;
    let mut i: usize = from;
    proof {
        assert(text@.subrange(from as int, from as int) =~= Seq::<char>::empty());
        assert(value@ * pow10(0) == value@) by (nonlinear_arith)
            requires
                pow10(0) == 1,
        ;
    }
    while i < to
        invariant
            text.is_ascii(),
            from <= i <= to <= text@.len(),
            all_digits(text@.subrange(from as int, to as int)),
            current@ == shifted(value@, text@.subrange(from as int, i as int)),
        decreases to - i,
    {
        let byte = text.get_ascii(i);
        proof {
            let taken = text@.subrange(from as int, i as int);
            let c = text@[i as int];
            assert(is_digit(text@.subrange(from as int, to as int)[i - from]));
            assert(text@.subrange(from as int, i + 1) =~= taken.push(c));
            lemma_shifted_push(value@, taken, c);
            assert(text@.subrange(from as int, to as int) =~= text@.subrange(from as int, i + 1)
                + text@.subrange(i + 1, to as int));
            lemma_shifted_concat(
                value@,
                text@.subrange(from as int, i + 1),
                text@.subrange(i + 1, to as int),
            );
        }
        match times_ten_plus(&current, byte - 0x30) {
            Some(next) => {
                current = next;
            },
            None => {
                return None;
            },
        }
        i += 1;
    }
    Some(current)
}

/// Multiplies by ten, `count` times.
fn times_power_of_ten(value: U256, count: usize) -> (r: Option<U256>)
    ensures
        match r {
            Some(next) => next@ == value@ * pow10(count as nat),
            None => value@ * pow10(count as nat) >= pow256(32),
        },
{
    let mut current = value;
    let mut i: usize = 0;
    proof {
        assert(value@ * pow10(0) == value@) by (nonlinear_arith)
            requires
                pow10(0) == 1,
        ;
    }
    while i < count
        invariant
            i <= count,
            current@ == value@ * pow10(i as nat),
        decreases count - i,
    {
        proof {
            let v = value@ as int;
            let p = pow10(i as nat) as int;
            let q = pow10((count - i - 1) as nat) as int;
            assert(pow10((i + 1) as nat) == 10 * p);
            assert(v * (10 * p) == (v * p) * 10) by (nonlinear_arith);
            lemma_pow10_sum((i + 1) as nat, (count - i - 1) as nat);
            lemma_pow10_positive((count - i - 1) as nat);
            assert(v * ((10 * p) * q) >= v * (10 * p)) by (nonlinear_arith)
                requires
                    v >= 0,
                    p >= 0,
                    q >= 1,
            ;
        }
        match times_ten_plus(&current, 0) {
            Some(next) => {
                current = next;
            },
            None => {
                return None;
            },
        }
        i += 1;
    }
    Some(current)
}

impl U256 {
    /// Reads a decimal numeral of whole tokens as an amount of smallest
    /// units: digits, then at most a point and up to 18 more digits.
    pub fn from_ether_text(text: &str) -> (r: Option<U256>)
        ensures
            match r {
                Some(amount) => amount_of_text(text@) == Some(amount@),
                None => amount_of_text(text@) is None,
            },
    {
        if !text.is_ascii() {
            proof {
                let i = choose|i: int|
                    0 <= i < text@.len() && !('\0' <= #[trigger] text@[i] <= '\u{7f}');
                lemma_other_char_no_numeral(text@, i);
            }
            return None;
        }
        let len = text.unicode_len();
        let point = digits_end(text, 0, len);
        proof {
            assert forall|p: int| numeral_at(text@, p) implies p == point by {
                lemma_numeral_point(text@, point as int, p);
            }
        }
        if point == 0 {
            return None;
        }
        if point < len {
            if text.get_ascii(point) != 0x2e {
                return None;
            }
            let end = digits_end(text, point + 1, len);
            if end != len {
                proof {
                    if numeral_at(text@, point as int) {
                        assert(is_digit(
                            text@.subrange(point + 1, text@.len() as int)[end - point - 1],
                        ));
                    }
                }
                return None;
            }
            if len - point - 1 > 18 {
                return None;
            }
        }
        assert(numeral_at(text@, point as int));
        let ghost fraction = fraction_of(text@, point as int);
        proof {
            lemma_numeral_value(text@, point as int);
            lemma_pow10_positive((18 - fraction.len()) as nat);
        }
        let whole = match take_digits(U256::zero(), text, 0, point) {
            Some(whole) => whole,
            None => {
                proof {
                    let w = shifted(0, text@.subrange(0, point as int)) as int;
                    lemma_shifted_concat(w as nat, Seq::empty(), fraction);
                    assert(Seq::<char>::empty() + fraction =~= fraction);
                    assert(shifted(w as nat, Seq::empty()) == w) by {
                        assert(w * pow10(0) == w) by (nonlinear_arith)
                            requires
                                pow10(0) == 1,
                        ;
                    }
                    let s = shifted(w as nat, fraction) as int;
                    let k = pow10((18 - fraction.len()) as nat) as int;
                    assert(s * k >= s) by (nonlinear_arith)
                        requires
                            s >= 0,
                            k >= 1,
                    ;
                }
                return None;
            },
        };
        let digits = if point < len {
            match take_digits(whole, text, point + 1, len) {
                Some(digits) => digits,
                None => {
                    proof {
                        let s = shifted(whole@, fraction) as int;
                        let k = pow10((18 - fraction.len()) as nat) as int;
                        assert(s * k >= s) by (nonlinear_arith)
                            requires
                                s >= 0,
                                k >= 1,
                        ;
                    }
                    return None;
                },
            }
        } else {
            proof {
                assert(whole@ * pow10(0) == whole@) by (nonlinear_arith)
                    requires
                        pow10(0) == 1,
                ;
            }
            whole
        };
        let places: usize = if point < len {
            18 - (len - point - 1)
        } else {
            18
        };
        let amount = times_power_of_ten(digits, places);
        proof {
            let chosen = choose|p: int| numeral_at(text@, p);
            assert(chosen == point);
            assert(digits@ == shifted(shifted(0, text@.subrange(0, point as int)), fraction));
            assert(places == 18 - fraction.len());
            if amount is Some {
                lemma_be_value_bound(amount.unwrap().bytes@);
            }
        }
        amount
    }

    /// Writes an amount of smallest units in whole tokens, with 18 decimal
    /// places.
    pub fn to_ether_text(&self) -> (text: String)
        ensures
            text@ == ether_text(self@),
    {
        match format_ether(self) {
            Ok(text) => text,
            Err(_) => String::new(),
        }
    }
}

} // verus!
