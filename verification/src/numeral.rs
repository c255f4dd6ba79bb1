//! Numbers as settings spell them. The grammar is that of JavaScript's
//! `Number`: decimal numbers with an optional fraction and exponent, the word
//! `Infinity`, and whole numbers in hexadecimal, octal or binary behind a
//! prefix. Which double a decimal number is nearest to is asked of the caller.

use crate::number::Double;
use crate::text;
use vstd::prelude::*;

verus! {

/// What a text says as a number: none, an infinity, or a decimal number, given
/// in digits that a reader of doubles understands.
#[derive(Debug, PartialEq)]
pub enum Numeral {
    NotANumber,
    Infinite { negative: bool },
    Decimal(String),
}

#[verifier::ext_equal]
pub enum NumeralView {
    NotANumber,
    Infinite { negative: bool },
    Decimal(Seq<char>),
}

impl View for Numeral {
    type V = NumeralView;

    open spec fn view(&self) -> NumeralView {
        match self {
            Numeral::NotANumber => NumeralView::NotANumber,
            Numeral::Infinite { negative } => NumeralView::Infinite { negative: *negative },
            Numeral::Decimal(digits) => NumeralView::Decimal(digits@),
        }
    }
}

pub open spec fn has_sign(s: Seq<char>) -> bool {
    s.len() > 0 && (s[0] == '+' || s[0] == '-')
}

/// The text behind a sign, if there is one.
pub open spec fn unsigned(s: Seq<char>) -> Seq<char> {
    if has_sign(s) {
        s.skip(1)
    } else {
        s
    }
}

/// Digits with at most one point among them, and at least one digit.
pub open spec fn is_mantissa(s: Seq<char>) -> bool {
    match text::split_once(s, '.') {
        None => s.len() > 0 && text::all_digits(s),
        Some((whole, fraction)) => {
            &&& whole.len() + fraction.len() > 0
            &&& text::all_digits(whole)
            &&& text::all_digits(fraction)
        },
    }
}

/// At least one digit, behind a sign if there is one.
pub open spec fn is_exponent(s: Seq<char>) -> bool {
    unsigned(s).len() > 0 && text::all_digits(unsigned(s))
}

/// What stands around the letter that an exponent begins with.
pub open spec fn exponent_split(s: Seq<char>) -> Option<(Seq<char>, Seq<char>)> {
    match text::split_once(s, 'e') {
        Some(parts) => Some(parts),
        None => text::split_once(s, 'E'),
    }
}

/// A decimal number.
pub open spec fn is_decimal(s: Seq<char>) -> bool {
    match exponent_split(unsigned(s)) {
        None => is_mantissa(unsigned(s)),
        Some((mantissa, exponent)) => is_mantissa(mantissa) && is_exponent(exponent),
    }
}

/// The value of a digit, letters following the ten digits; too large for any
/// radix where it is none.
pub open spec fn digit_value(c: char) -> nat {
    if '0' <= c && c <= '9' {
        (c as u32 - 0x30) as nat
    } else if 'a' <= c && c <= 'f' {
        (c as u32 - 0x61 + 10) as nat
    } else if 'A' <= c && c <= 'F' {
        (c as u32 - 0x41 + 10) as nat
    } else {
        16
    }
}

/// The radix that a prefix announces.
pub open spec fn announced_radix(s: Seq<char>) -> Option<nat> {
    if s.len() >= 2 && s[0] == '0' {
        if s[1] == 'x' || s[1] == 'X' {
            Some(16)
        } else if s[1] == 'o' || s[1] == 'O' {
            Some(8)
        } else if s[1] == 'b' || s[1] == 'B' {
            Some(2)
        } else {
            None
        }
    } else {
        None
    }
}

pub open spec fn all_digits_of(s: Seq<char>, radix: nat) -> bool {
    forall|i: int| 0 <= i < s.len() ==> digit_value(#[trigger] s[i]) < radix
}

/// The number that digits denote in a radix.
pub open spec fn radix_value(digits: Seq<char>, radix: nat) -> nat
    decreases digits.len(),
{
    if digits.len() == 0 {
        0
    } else {
        radix_value(digits.drop_last(), radix) * radix + digit_value(digits.last())
    }
}

/// What a text says as a number.
pub open spec fn numeral_of(s: Seq<char>) -> NumeralView {
    if is_decimal(s) {
        NumeralView::Decimal(s)
    } else if unsigned(s) == "Infinity"@ {
        NumeralView::Infinite { negative: s[0] == '-' }
    } else {
        match announced_radix(s) {
            Some(radix) => if s.len() > 2 && all_digits_of(s.skip(2), radix) {
                NumeralView::Decimal(text::decimal(radix_value(s.skip(2), radix)))
            } else {
                NumeralView::NotANumber
            },
            None => NumeralView::NotANumber,
        }
    }
}

// Decimal numbers.
fn only_digits(s: &str) -> (r: bool)
    ensures
        r == text::all_digits(s@),
{
    let chars = text::chars_of(s);
    let mut i: usize = 0;
    while i < chars.len()
        invariant
            chars@ == s@,
            i <= chars.len(),
            forall|k: int| 0 <= k < i ==> text::is_digit(#[trigger] s@[k]),
        decreases chars.len() - i,
    {
        let c = chars[i];
        assert(s@[i as int] == c);
        if c < '0' || c > '9' {
            return false;
        }
        i = i + 1;
    }
    true
}

fn behind_sign(s: &str) -> (r: &str)
    ensures
        r@ == unsigned(s@),
{
    let len: usize = s.unicode_len();
    if len > 0 {
        let first = s.get_char(0);
        if first == '+' || first == '-' {
            let r = s.substring_char(1, len);
            assert(r@ =~= s@.skip(1));
            return r;
        }
    }
    s
}

fn mantissa(s: &str) -> (r: bool)
    ensures
        r == is_mantissa(s@),
{
    match text::split_at_first(s, '.') {
        None => s.unicode_len() > 0 && only_digits(s),
        Some((whole, fraction)) => (whole.unicode_len() > 0 || fraction.unicode_len() > 0)
            && only_digits(whole) && only_digits(fraction),
    }
}

fn exponent(s: &str) -> (r: bool)
    ensures
        r == is_exponent(s@),
{
    let size = behind_sign(s);
    size.unicode_len() > 0 && only_digits(size)
}

fn decimal(s: &str) -> (r: bool)
    ensures
        r == is_decimal(s@),
{
    let size = behind_sign(s);
    let parts = match text::split_at_first(size, 'e') {
        Some(parts) => Some(parts),
        None => text::split_at_first(size, 'E'),
    };
    match parts {
        None => mantissa(size),
        Some((before, after)) => mantissa(before) && exponent(after),
    }
}

// Whole numbers in another radix.
/// The number that decimal digits denote, the lowest first.
spec fn low_first(digits: Seq<u8>) -> nat
    decreases digits.len(),
{
    if digits.len() == 0 {
        0
    } else {
        digits[0] as nat + 10 * low_first(digits.skip(1))
    }
}

spec fn ten_to(n: nat) -> nat
    decreases n,
{
    if n == 0 {
        1
    } else {
        10 * ten_to((n - 1) as nat)
    }
}

/// Decimal digits, the lowest first, without a leading zero.
spec fn canonical(digits: Seq<u8>) -> bool {
    &&& digits.len() > 0
    &&& forall|i: int| 0 <= i < digits.len() ==> #[trigger] digits[i] < 10
    &&& digits.len() > 1 ==> digits.last() > 0
}

/// The digits as text, the highest first.
spec fn as_text(digits: Seq<u8>) -> Seq<char> {
    Seq::new(digits.len(), |i: int| text::digit_char(digits[digits.len() - 1 - i] as nat))
}

proof fn lemma_push_digit(digits: Seq<u8>, d: u8)
    ensures
        low_first(digits.push(d)) == low_first(digits) + d * ten_to(digits.len()),
    decreases digits.len(),
{
    let whole = digits.push(d);
    if digits.len() == 0 {
        assert(whole.skip(1) =~= Seq::empty());
        assert(low_first(whole.skip(1)) == 0);
        assert(d * ten_to(0) == d) by (nonlinear_arith)
            requires
                ten_to(0) == 1,
        ;
    } else {
        assert(whole.skip(1) =~= digits.skip(1).push(d));
        lemma_push_digit(digits.skip(1), d);
        let t = ten_to((digits.len() - 1) as nat);
        assert(10 * (d * t) == d * (10 * t)) by (nonlinear_arith);
    }
}

proof fn lemma_canonical_is_decimal(digits: Seq<u8>)
    requires
        canonical(digits),
    ensures
        text::decimal(low_first(digits)) == as_text(digits),
        digits.len() > 1 ==> low_first(digits) > 0,
    decreases digits.len(),
{
    let rest = digits.skip(1);
    if digits.len() == 1 {
        assert(low_first(rest) == 0);
        assert(as_text(digits) =~= seq![text::digit_char(digits[0] as nat)]);
    } else {
        assert(rest.last() == digits.last());
        lemma_canonical_is_decimal(rest);
        assert(low_first(rest) > 0) by {
            if rest.len() == 1 {
                assert(low_first(rest.skip(1)) == 0);
                assert(rest[0] == digits.last());
            }
        }
        let n = low_first(digits);
        assert(n == digits[0] as nat + 10 * low_first(rest));
        assert(n / 10 == low_first(rest) && n % 10 == digits[0] as nat);
        assert(as_text(digits) =~= as_text(rest).push(text::digit_char(digits[0] as nat)));
    }
}

/// A number in decimal digits, times a radix and plus a digit.
fn times_plus(digits: &Vec<u8>, radix: u32, digit: u32) -> (r: Vec<u8>)
    requires
        canonical(digits@),
        2 <= radix <= 16,
        digit < radix,
    ensures
        canonical(r@),
        low_first(r@) == low_first(digits@) * radix + digit,
{
    let mut r: Vec<u8> = Vec::new();
    let mut carry: u32 = digit;
    let mut i: usize = 0;
    assert(digits@.take(0) =~= Seq::empty());
    assert(carry * ten_to(0) == digit && low_first(digits@.take(0)) * radix == 0) by (nonlinear_arith)
        requires
            ten_to(0) == 1,
            carry == digit,
            low_first(digits@.take(0)) == 0,
    ;
    while i < digits.len()
        invariant
            canonical(digits@),
            2 <= radix <= 16,
            digit < radix,
            i <= digits.len(),
            r.len() == i,
            carry < 16,
            forall|k: int| 0 <= k < r.len() ==> #[trigger] r@[k] < 10,
            low_first(r@) + carry * ten_to(i as nat) == low_first(digits@.take(i as int)) * radix
                + digit,
            i == digits.len() && digits.len() > 1 && carry == 0 ==> r@.last() > 0,
        decreases digits.len() - i,
    {
        let d: u32 = digits[i] as u32;
        assert(d * radix <= 9 * 16) by (nonlinear_arith)
            requires
                d < 10,
                radix <= 16,
        ;
        let total: u32 = d * radix + carry;
        let low: u8 = (total % 10) as u8;
        let ghost before = r@;
        let ghost t = ten_to(i as nat);
        proof {
            lemma_push_digit(before, low);
            lemma_push_digit(digits@.take(i as int), digits@[i as int]);
            assert(digits@.take(i + 1) =~= digits@.take(i as int).push(digits@[i as int]));
            let (high, low_n, d_n, radix_n, carry_n) = (
                (total / 10) as int,
                low as int,
                d as int,
                radix as int,
                carry as int,
            );
            let lead = low_first(digits@.take(i as int)) as int;
            let done = low_first(before) as int;
            assert(ten_to((i + 1) as nat) == 10 * t);
            assert((done + low_n * t) + high * (10 * t) == (lead + d_n * t) * radix_n + digit)
                by (nonlinear_arith)
                requires
                    done + carry_n * t == lead * radix_n + digit,
                    low_n + 10 * high == d_n * radix_n + carry_n,
            ;
            if d > 0 {
                assert(d * radix > 0) by (nonlinear_arith)
                    requires
                        d > 0,
                        radix > 0,
                ;
            }
        }
        r.push(low);
        carry = total / 10;
        i = i + 1;
    }
    assert(digits@.take(i as int) =~= digits@);
    while carry > 0
        invariant
            carry < 16,
            r.len() > 0,
            forall|k: int| 0 <= k < r.len() ==> #[trigger] r@[k] < 10,
            low_first(r@) + carry * ten_to(r@.len()) == low_first(digits@) * radix + digit,
            carry == 0 && r.len() > 1 ==> r@.last() > 0,
        decreases carry,
    {
        let low: u8 = (carry % 10) as u8;
        let ghost before = r@;
        proof {
            lemma_push_digit(before, low);
            let t = ten_to(before.len());
            let (high, low_n, carry_n) = ((carry / 10) as int, low as int, carry as int);
            assert(ten_to(before.len() + 1) == 10 * t);
            assert(low_n * t + high * (10 * t) == carry_n * t) by (nonlinear_arith)
                requires
                    low_n + 10 * high == carry_n,
            ;
        }
        r.push(low);
        carry = carry / 10;
    }
    r
}

fn digit_of(c: char) -> (r: u32)
    ensures
        r == digit_value(c),
        r <= 16,
{
    if '0' <= c && c <= '9' {
        c as u32 - 0x30
    } else if 'a' <= c && c <= 'f' {
        c as u32 - 0x61 + 10
    } else if 'A' <= c && c <= 'F' {
        c as u32 - 0x41 + 10
    } else {
        16
    }
}

fn digit_text(digits: &Vec<u8>) -> (r: String)
    requires
        canonical(digits@),
    ensures
        r@ == as_text(digits@),
{
    let mut r = String::new();
    let mut i: usize = digits.len();
    assert(r@ =~= as_text(digits@).take(0));
    while i > 0
        invariant
            canonical(digits@),
            i <= digits.len(),
            r@ == as_text(digits@).take(digits.len() - i),
        decreases i,
    {
        let d: u8 = digits[i - 1];
        let ghost all = as_text(digits@);
        let ghost done = digits.len() - i;
        r.append(&text::decimal_text(d as u64));
        assert(all[done] == text::digit_char(d as nat));
        assert(r@ =~= all.take(done + 1));
        i = i - 1;
    }
    assert(as_text(digits@).take(digits.len() as int) =~= as_text(digits@));
    r
}

/// The whole number behind a prefix, in decimal; none where it has no digits
/// or others than its radix.
fn in_decimal(chars: &Vec<char>, radix: u32) -> (r: Option<String>)
    requires
        2 <= radix <= 16,
        chars.len() >= 2,
    ensures
        r.deep_view() == if chars.len() > 2 && all_digits_of(chars@.skip(2), radix as nat) {
            Some(text::decimal(radix_value(chars@.skip(2), radix as nat)))
        } else {
            None
        },
{
    let ghost behind = chars@.skip(2);
    if chars.len() == 2 {
        return None;
    }
    let mut value: Vec<u8> = Vec::new();
    value.push(0);
    assert(value@.skip(1) =~= Seq::empty());
    assert(low_first(value@.skip(1)) == 0);
    let mut i: usize = 2;
    assert(behind.take(0) =~= Seq::empty());
    while i < chars.len()
        invariant
            2 <= radix <= 16,
            2 <= i <= chars.len(),
            behind == chars@.skip(2),
            canonical(value@),
            low_first(value@) == radix_value(behind.take(i - 2), radix as nat),
            forall|k: int| 0 <= k < i - 2 ==> digit_value(#[trigger] behind[k]) < radix,
        decreases chars.len() - i,
    {
        let d: u32 = digit_of(chars[i]);
        assert(behind[i - 2] == chars@[i as int]);
        if d >= radix {
            return None;
        }
        value = times_plus(&value, radix, d);
        assert(behind.take(i - 1).drop_last() =~= behind.take(i - 2));
        assert(behind.take(i - 1).last() == chars@[i as int]);
        i = i + 1;
    }
    assert(behind.take(i - 2) =~= behind);
    proof {
        lemma_canonical_is_decimal(value@);
    }
    Some(digit_text(&value))
}

/// What a text says as a number.
pub fn read(s: &str) -> (r: Numeral)
    ensures
        r@ == numeral_of(s@),
{
    if decimal(s) {
        return Numeral::Decimal(s.to_owned());
    }
    if text::same_text(behind_sign(s), "Infinity") {
        proof {
            reveal_strlit("Infinity");
            assert("Infinity"@.len() == 8);
        }
        return Numeral::Infinite { negative: s.get_char(0) == '-' };
    }
    let chars = text::chars_of(s);
    if chars.len() < 2 || chars[0] != '0' {
        return Numeral::NotANumber;
    }
    let radix: u32 = match chars[1] {
        'x' | 'X' => 16,
        'o' | 'O' => 8,
        'b' | 'B' => 2,
        _ => {
            return Numeral::NotANumber;
        },
    };
    match in_decimal(&chars, radix) {
        Some(digits) => Numeral::Decimal(digits),
        None => Numeral::NotANumber,
    }
}

/// A reader of decimal numbers may have said this double of a text; of a text
/// that is no number there is none, and infinities need no reader.
pub open spec fn may_mean<N: Fn(&str) -> Option<Double>>(
    s: Seq<char>,
    reader: N,
    meaning: Option<Double>,
) -> bool {
    match numeral_of(s) {
        NumeralView::NotANumber => meaning is None,
        NumeralView::Infinite { negative } => meaning == Some(Double::infinite(negative)),
        NumeralView::Decimal(digits) => exists|t: &str|
            t@ == digits && #[trigger] reader.ensures((t,), meaning),
    }
}

/// The double that a text means. `reader` gives the double nearest to a decimal
/// number, and is asked of nothing else.
pub fn meaning<N: Fn(&str) -> Option<Double>>(s: &str, reader: &N) -> (r: Option<Double>)
    requires
        forall|t: &str| reader.requires((t,)),
    ensures
        may_mean(s@, *reader, r),
{
    match read(s) {
        Numeral::NotANumber => None,
        Numeral::Infinite { negative } => Some(Double::infinity(negative)),
        Numeral::Decimal(digits) => {
            let asked = digits.as_str();
            let r = reader(asked);
            assert(asked@ == digits@ && reader.ensures((asked,), r));
            r
        },
    }
}

// Laws.
proof fn lemma_digits_are_plain(s: Seq<char>)
    requires
        text::all_digits(s),
    ensures
        !s.contains('.') && !s.contains('e') && !s.contains('E'),
        !has_sign(s),
        unsigned(s) == s,
{
    assert forall|i: int| 0 <= i < s.len() implies s[i] != '.' && s[i] != 'e' && s[i] != 'E' by {
        assert(text::is_digit(s[i]));
    }
    if s.len() > 0 {
        assert(text::is_digit(s[0]));
    }
}

/// Digits with at most one point among them and at least one digit are a
/// number, behind a sign or without one, with or without an exponent, and are
/// handed on as they stand.
pub proof fn law_decimal_numbers_stand_as_they_are(
    s: &str,
    sign: Seq<char>,
    whole: Seq<char>,
    point: Seq<char>,
    fraction: Seq<char>,
    exponent: Seq<char>,
    r: Numeral,
)
    requires
        call_ensures(read, (s,), r),
        sign.len() == 0 || sign == seq!['+'] || sign == seq!['-'],
        text::all_digits(whole),
        text::all_digits(fraction),
        whole.len() + fraction.len() > 0,
        point == seq!['.'] || (point.len() == 0 && fraction.len() == 0),
        exponent.len() == 0 || (exponent.len() > 1 && (exponent[0] == 'e' || exponent[0] == 'E')
            && (text::all_digits(exponent.skip(1)) || (exponent.len() > 2 && (exponent[1] == '+'
            || exponent[1] == '-') && text::all_digits(exponent.skip(2))))),
        s@ == sign + (whole + point + fraction + exponent),
    ensures
        r@ == NumeralView::Decimal(s@),
{
    let mantissa = whole + point + fraction;
    let body = mantissa + exponent;
    lemma_digits_are_plain(whole);
    lemma_digits_are_plain(fraction);
    assert(body =~= whole + point + fraction + exponent);
    assert(!has_sign(body)) by {
        if whole.len() > 0 {
            assert(body[0] == whole[0]);
            assert(text::is_digit(whole[0]));
        } else {
            assert(body[0] == '.');
        }
    }
    if sign.len() == 0 {
        assert(s@ =~= body);
    } else {
        assert(s@.skip(1) =~= body);
        assert(has_sign(s@));
    }
    assert(unsigned(s@) == body);
    assert forall|i: int| 0 <= i < mantissa.len() implies mantissa[i] != 'e' && mantissa[i]
        != 'E' by {
        if i < whole.len() {
            assert(mantissa[i] == whole[i]);
            assert(text::is_digit(whole[i]));
        } else if i >= whole.len() + point.len() {
            assert(mantissa[i] == fraction[i - whole.len() - point.len()]);
            assert(text::is_digit(fraction[i - whole.len() - point.len()]));
        }
    }
    assert(is_mantissa(mantissa)) by {
        if point.len() == 0 {
            assert(mantissa =~= whole);
            text::lemma_split_once_around(whole, '.', Seq::empty());
        } else {
            text::lemma_split_once_around(whole, '.', fraction);
        }
    }
    if exponent.len() == 0 {
        assert(body =~= mantissa);
        text::lemma_split_once_around(mantissa, 'e', Seq::empty());
        text::lemma_split_once_around(mantissa, 'E', Seq::empty());
    } else {
        let after = exponent.skip(1);
        assert(body =~= mantissa + seq![exponent[0]] + after);
        assert(is_exponent(after)) by {
            if text::all_digits(after) {
                lemma_digits_are_plain(after);
            } else {
                assert(after[0] == exponent[1]);
                assert(after.skip(1) =~= exponent.skip(2));
            }
        }
        text::lemma_split_once_around(mantissa, exponent[0], after);
        if exponent[0] == 'E' {
            assert(!body.contains('e')) by {
                assert forall|i: int| 0 <= i < body.len() implies body[i] != 'e' by {
                    if i < mantissa.len() {
                        assert(body[i] == mantissa[i]);
                    } else if i > mantissa.len() {
                        let k = i - mantissa.len();
                        assert(body[i] == exponent[k]);
                        if text::all_digits(after) {
                            assert(text::is_digit(after[k - 1]));
                        } else if k >= 2 {
                            assert(text::is_digit(exponent.skip(2)[k - 2]));
                        }
                    }
                }
            }
        }
    }
}

/// Behind `0x`, `0o` and `0b`, in either case, digits of that radix are the
/// whole number that they denote, and anything else there is none. The word
/// `Infinity` is one, of its sign; no text at all is no number.
pub proof fn law_prefixed_numbers(s: &str, letter: char, digits: Seq<char>, radix: nat, r: Numeral)
    requires
        call_ensures(read, (s,), r),
        s@ == seq!['0', letter] + digits,
        radix == 16 && (letter == 'x' || letter == 'X') || radix == 8 && (letter == 'o' || letter
            == 'O') || radix == 2 && (letter == 'b' || letter == 'B'),
    ensures
        r@ == (if digits.len() > 0 && forall|i: int|
            0 <= i < digits.len() ==> digit_value(#[trigger] digits[i]) < radix {
            NumeralView::Decimal(text::decimal(radix_value(digits, radix)))
        } else {
            NumeralView::NotANumber
        }),
{
    assert(s@.skip(2) =~= digits);
    assert(s@[1] == letter && s@[0] == '0');
    assert(unsigned(s@) == s@);
    text::law_split_once_is_at_the_first(s@, 'e');
    text::law_split_once_is_at_the_first(s@, 'E');
    let parts = exponent_split(s@);
    reveal_strlit("Infinity");
    assert("Infinity"@[0] == 'I');
    match parts {
        None => {
            lemma_letter_is_no_mantissa(s@, letter);
        },
        Some((mantissa, _)) => {
            if mantissa.len() >= 2 {
                assert(mantissa[1] == s@[1]);
                lemma_letter_is_no_mantissa(mantissa, letter);
            } else {
                assert(s@[mantissa.len() as int] == 'e' || s@[mantissa.len() as int] == 'E');
                if mantissa.len() == 1 {
                    assert(s@[1] == letter);
                }
                assert(false);
            }
        },
    }
}

proof fn lemma_letter_is_no_mantissa(s: Seq<char>, letter: char)
    requires
        s.len() >= 2,
        s[1] == letter,
        s[0] == '0',
        letter != '.',
        !text::is_digit(letter),
    ensures
        !is_mantissa(s),
{
    text::law_split_once_is_at_the_first(s, '.');
    match text::split_once(s, '.') {
        None => {},
        Some((whole, fraction)) => {
            if whole.len() >= 2 {
                assert(whole[1] == s[1]);
            } else if whole.len() == 1 {
                assert(s[1] == '.');
            } else {
                assert(s[0] == '.');
            }
        },
    }
}

/// Digits denote what they do in their radix: each one more makes the number
/// that many times larger and adds itself; letters go on where the ten digits
/// end.
pub proof fn law_digits_denote_numbers(digits: Seq<char>, c: char, radix: nat)
    ensures
        radix_value(Seq::empty(), radix) == 0,
        radix_value(digits.push(c), radix) == radix * radix_value(digits, radix) + digit_value(c),
        text::is_digit(c) ==> text::decimal(digit_value(c)) == seq![c],
        digit_value('a') == 10 && digit_value('A') == 10,
        digit_value('f') == 15 && digit_value('F') == 15,
        'a' <= c <= 'f' ==> digit_value(c) - 10 == c as u32 - 'a' as u32,
        'A' <= c <= 'F' ==> digit_value(c) - 10 == c as u32 - 'A' as u32,
{
    assert(digits.push(c).drop_last() =~= digits);
    assert(radix * radix_value(digits, radix) == radix_value(digits, radix) * radix)
        by (nonlinear_arith);
    if text::is_digit(c) {
        assert(text::decimal(digit_value(c)) =~= seq![c]);
    }
}

/// The word `Infinity` is one, of its sign; no text is no number.
pub proof fn law_infinity_and_nothing(
    plain: &str,
    negative: &str,
    empty: &str,
    p: Numeral,
    n: Numeral,
    e: Numeral,
)
    requires
        call_ensures(read, (plain,), p),
        call_ensures(read, (negative,), n),
        call_ensures(read, (empty,), e),
        plain@ == "Infinity"@,
        negative@ == seq!['-'] + "Infinity"@,
        empty@.len() == 0,
    ensures
        p@ == (NumeralView::Infinite { negative: false }),
        n@ == (NumeralView::Infinite { negative: true }),
        e@ is NotANumber,
{
    reveal_strlit("Infinity");
    let word = "Infinity"@;
    assert(word[0] == 'I' && word.len() == 8);
    assert(negative@.skip(1) =~= word);
    assert(!word.contains('e') && !word.contains('E') && !word.contains('.'));
    text::lemma_split_once_around(word, 'e', Seq::empty());
    text::lemma_split_once_around(word, 'E', Seq::empty());
    text::lemma_split_once_around(word, '.', Seq::empty());
    assert(!text::is_digit(word[0]));
    assert(empty@ =~= Seq::empty());
    assert(!empty@.contains('e') && !empty@.contains('E') && !empty@.contains('.'));
    text::lemma_split_once_around(empty@, 'e', Seq::empty());
    text::lemma_split_once_around(empty@, 'E', Seq::empty());
    text::lemma_split_once_around(empty@, '.', Seq::empty());
}

/// A reader is asked of a number exactly as it stands, what it says is what the
/// number means, and what is no number means nothing.
pub proof fn law_meaning_is_what_the_reader_says<N: Fn(&str) -> Option<Double>>(
    s: &str,
    reader: &N,
    numeral: Numeral,
    r: Option<Double>,
)
    requires
        call_ensures(meaning::<N>, (s, reader), r),
        call_ensures(read, (s,), numeral),
    ensures
        numeral@ is NotANumber ==> r is None,
        numeral@ matches NumeralView::Infinite { negative } ==> r matches Some(d) && !d.finite()
            && !d.nan() && d.sign_bit() == negative,
        numeral@ matches NumeralView::Decimal(digits) ==> exists|t: &str|
            t@ == digits && #[trigger] reader.ensures((t,), r),
{
}

/// Nothing else is a number: a text with any other character than those of
/// decimal numbers is none, unless a prefix announces a radix or it is the word
/// `Infinity`; and neither is one without a digit.
pub proof fn law_other_texts_are_no_numbers(s: &str, i: int, r: Numeral)
    requires
        call_ensures(read, (s,), r),
        unsigned(s@) != "Infinity"@,
        s@.len() < 2 || s@[0] != '0' || text::is_digit(s@[1]) || s@[1] == '.' || s@[1] == 'e'
            || s@[1] == 'E',
    ensures
        0 <= i < s@.len() && !text::is_digit(s@[i]) && s@[i] != '.' && s@[i] != 'e' && s@[i] != 'E'
            && s@[i] != '+' && s@[i] != '-' ==> r@ is NotANumber,
        (forall|k: int| 0 <= k < s@.len() ==> !text::is_digit(#[trigger] s@[k])) ==> r@
            is NotANumber,
        r@ matches NumeralView::Decimal(digits) ==> digits == s@,
{
    let body = unsigned(s@);
    if is_decimal(s@) {
        text::law_split_once_is_at_the_first(body, 'e');
        text::law_split_once_is_at_the_first(body, 'E');
        let (mantissa, rest) = match exponent_split(body) {
            None => (body, Seq::empty()),
            Some((m, e)) => (m, e),
        };
        text::law_split_once_is_at_the_first(mantissa, '.');
        lemma_mantissa_chars(mantissa);
        let k = lemma_mantissa_has_digit(mantissa);
        let shift = if has_sign(s@) {
            1int
        } else {
            0int
        };
        assert(body[k] == mantissa[k]);
        assert(s@[k + shift] == body[k]);
        if 0 <= i < s@.len() && i >= shift {
            let j = i - shift;
            assert(s@[i] == body[j]);
            if j < mantissa.len() {
                assert(body[j] == mantissa[j]);
            } else if j > mantissa.len() {
                let size = unsigned(rest);
                let m = j - mantissa.len() - 1;
                assert(body[j] == rest[m]);
                if has_sign(rest) {
                    if m > 0 {
                        assert(size[m - 1] == rest[m]);
                        assert(text::is_digit(size[m - 1]));
                    }
                } else {
                    assert(text::is_digit(size[m]));
                }
            }
        }
    }
}

proof fn lemma_mantissa_chars(s: Seq<char>)
    requires
        is_mantissa(s),
    ensures
        forall|i: int| 0 <= i < s.len() ==> text::is_digit(#[trigger] s[i]) || s[i] == '.',
{
    text::law_split_once_is_at_the_first(s, '.');
    match text::split_once(s, '.') {
        None => {},
        Some((whole, fraction)) => {
            assert forall|i: int| 0 <= i < s.len() implies text::is_digit(#[trigger] s[i]) || s[i]
                == '.' by {
                if i < whole.len() {
                    assert(s[i] == whole[i]);
                } else if i > whole.len() {
                    assert(s[i] == fraction[i - whole.len() - 1]);
                }
            }
        },
    }
}

proof fn lemma_mantissa_has_digit(s: Seq<char>) -> (k: int)
    requires
        is_mantissa(s),
    ensures
        0 <= k < s.len(),
        text::is_digit(s[k]),
{
    text::law_split_once_is_at_the_first(s, '.');
    match text::split_once(s, '.') {
        None => 0,
        Some((whole, fraction)) => {
            if whole.len() > 0 {
                assert(s[0] == whole[0]);
                0
            } else {
                assert(s[1] == fraction[0]);
                1
            }
        },
    }
}

} // verus!
