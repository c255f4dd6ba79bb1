//! Text as the rest of the library reads it: sequences of Unicode scalar
//! values, with the handful of operations that configuration, headers and
//! logs need.

use vstd::prelude::*;

verus! {

/// The characters with the Unicode `White_Space` property.
pub open spec fn is_white_space(c: char) -> bool {
    let u = c as u32;
    ||| 0x9 <= u <= 0xD
    ||| u == 0x20
    ||| u == 0x85
    ||| u == 0xA0
    ||| u == 0x1680
    ||| 0x2000 <= u <= 0x200A
    ||| u == 0x2028
    ||| u == 0x2029
    ||| u == 0x202F
    ||| u == 0x205F
    ||| u == 0x3000
}

/// `s` without leading and trailing white space.
pub open spec fn trimmed(s: Seq<char>) -> Seq<char>
    decreases s.len(),
{
    if s.len() > 0 && is_white_space(s.first()) {
        trimmed(s.skip(1))
    } else if s.len() > 0 && is_white_space(s.last()) {
        trimmed(s.drop_last())
    } else {
        s
    }
}

/// The pieces of `s` between the occurrences of `c`; always at least one.
pub open spec fn split_at_each(s: Seq<char>, c: char) -> Seq<Seq<char>>
    decreases s.len(),
{
    if s.len() == 0 {
        seq![s]
    } else if s.last() == c {
        split_at_each(s.drop_last(), c).push(Seq::empty())
    } else {
        let before = split_at_each(s.drop_last(), c);
        before.drop_last().push(before.last().push(s.last()))
    }
}

/// `c` is at position `i` of `s` and at none before.
pub open spec fn first_at(s: Seq<char>, c: char, i: int) -> bool {
    &&& 0 <= i < s.len()
    &&& s[i] == c
    &&& !s.take(i).contains(c)
}

/// What stands before and after the first `c` in `s`.
pub open spec fn split_once(s: Seq<char>, c: char) -> Option<(Seq<char>, Seq<char>)> {
    if s.contains(c) {
        let i = choose|i: int| first_at(s, c, i);
        Some((s.take(i), s.skip(i + 1)))
    } else {
        None
    }
}

/// An ASCII capital letter as its small one; any other character unchanged.
pub open spec fn ascii_lower(c: char) -> char {
    if 'A' <= c && c <= 'Z' {
        ((c as u32) + 32) as char
    } else {
        c
    }
}

pub open spec fn ascii_lower_all(s: Seq<char>) -> Seq<char> {
    s.map_values(|c: char| ascii_lower(c))
}

pub open spec fn is_digit(c: char) -> bool {
    '0' <= c && c <= '9'
}

pub open spec fn digit_char(d: nat) -> char {
    (0x30 + d) as char
}

/// `n` in decimal, without leading zeros.
pub open spec fn decimal(n: nat) -> Seq<char>
    decreases n,
{
    if n < 10 {
        seq![digit_char(n)]
    } else {
        decimal(n / 10).push(digit_char(n % 10))
    }
}

/// `n` in decimal, with a minus sign where it is negative.
pub open spec fn signed_decimal(n: int) -> Seq<char> {
    if n < 0 {
        "-"@ + decimal((-n) as nat)
    } else {
        decimal(n as nat)
    }
}

/// The number that a sequence of decimal digits denotes.
pub open spec fn decimal_value(digits: Seq<char>) -> nat
    decreases digits.len(),
{
    if digits.len() == 0 {
        0
    } else {
        decimal_value(digits.drop_last()) * 10 + ((digits.last() as u32) - 0x30) as nat
    }
}

pub open spec fn all_digits(s: Seq<char>) -> bool {
    forall|i: int| 0 <= i < s.len() ==> is_digit(#[trigger] s[i])
}

/// Reads an unsigned decimal number of at most `max`: one or more digits,
/// which a single plus sign may precede.
pub open spec fn read_unsigned(s: Seq<char>, max: nat) -> Option<nat> {
    let digits = if s.len() > 0 && s[0] == '+' { s.skip(1) } else { s };
    if digits.len() > 0 && all_digits(digits) && decimal_value(digits) <= max {
        Some(decimal_value(digits))
    } else {
        None
    }
}

/// `needle` occurs in `hay` as a contiguous run.
pub open spec fn occurs_in<T>(hay: Seq<T>, needle: Seq<T>) -> bool {
    exists|i: int| 0 <= i <= hay.len() - needle.len() && #[trigger] hay.subrange(
        i,
        i + needle.len(),
    ) == needle
}

/// Where `needle` first occurs in `hay`.
pub open spec fn find(hay: Seq<char>, needle: Seq<char>) -> Option<nat>
    decreases hay.len(),
{
    if needle.is_prefix_of(hay) {
        Some(0)
    } else if hay.len() == 0 {
        None
    } else {
        match find(hay.skip(1), needle) {
            Some(i) => Some(i + 1),
            None => None,
        }
    }
}

/// The text is a decimal number above `limit`, however large.
pub open spec fn number_above(s: Seq<char>, limit: nat) -> bool {
    let digits = if s.len() > 0 && s[0] == '+' { s.skip(1) } else { s };
    digits.len() > 0 && all_digits(digits) && decimal_value(digits) > limit
}

/// A position of the first `c` exists wherever `c` occurs, and is unique.
pub proof fn lemma_first_at(s: Seq<char>, c: char, i: int)
    requires
        first_at(s, c, i),
    ensures
        split_once(s, c) == Some((s.take(i), s.skip(i + 1))),
{
    assert(s.contains(c));
    let j = choose|j: int| first_at(s, c, j);
    assert(first_at(s, c, j));
    if j < i {
        assert(s.take(i)[j] == c);
    } else if i < j {
        assert(s.take(j)[i] == c);
    }
}

/// Splitting goes by the separators on both sides of one of them.
pub proof fn lemma_split_around(a: Seq<char>, c: char, b: Seq<char>)
    ensures
        split_at_each(a + seq![c] + b, c) == split_at_each(a, c) + split_at_each(b, c),
        split_at_each(b, c).len() > 0,
    decreases b.len(),
{
    let whole = a + seq![c] + b;
    if b.len() == 0 {
        assert(b =~= Seq::empty());
        assert(whole.drop_last() =~= a);
        assert(whole.last() == c);
        assert(split_at_each(whole, c) =~= split_at_each(a, c) + split_at_each(b, c));
    } else {
        lemma_split_around(a, c, b.drop_last());
        assert(whole.drop_last() =~= a + seq![c] + b.drop_last());
        assert(whole.last() == b.last());
        assert(split_at_each(whole, c) =~= split_at_each(a, c) + split_at_each(b, c));
    }
}

/// There is always a first piece.
pub proof fn lemma_split_nonempty(s: Seq<char>, c: char)
    ensures
        split_at_each(s, c).len() > 0,
    decreases s.len(),
{
    if s.len() > 0 {
        lemma_split_nonempty(s.drop_last(), c);
    }
}

/// A text without the separator is one piece.
pub proof fn lemma_split_one(s: Seq<char>, c: char)
    requires
        !s.contains(c),
    ensures
        split_at_each(s, c) == seq![s],
    decreases s.len(),
{
    if s.len() > 0 {
        assert(s.last() == s[s.len() - 1]);
        assert forall|x: char| s.drop_last().contains(x) implies s.contains(x) by {
            let i = choose|i: int| 0 <= i < s.drop_last().len() && s.drop_last()[i] == x;
            assert(s[i] == x);
        }
        lemma_split_one(s.drop_last(), c);
        assert(s.drop_last().push(s.last()) =~= s);
        assert(split_at_each(s, c) =~= seq![s]);
    } else {
        assert(s =~= Seq::empty());
    }
}

/// A text that neither begins nor ends with white space is not trimmed, also
/// behind one space.
pub proof fn lemma_trimmed_bare(s: Seq<char>)
    requires
        s.len() > 0,
        !is_white_space(s.first()),
        !is_white_space(s.last()),
    ensures
        trimmed(s) == s,
        trimmed(seq![' '] + s) == s,
{
    let spaced = seq![' '] + s;
    assert(spaced.skip(1) =~= s);
    assert(is_white_space(spaced.first()));
}

/// Nothing is left of white space alone.
pub proof fn lemma_blank_trims_to_nothing(s: Seq<char>)
    requires
        forall|i: int| 0 <= i < s.len() ==> is_white_space(#[trigger] s[i]),
    ensures
        trimmed(s).len() == 0,
    decreases s.len(),
{
    if s.len() > 0 {
        assert(is_white_space(s[0]));
        assert forall|i: int| 0 <= i < s.skip(1).len() implies is_white_space(
            #[trigger] s.skip(1)[i],
        ) by {
            assert(s.skip(1)[i] == s[i + 1]);
        }
        lemma_blank_trims_to_nothing(s.skip(1));
    }
}

/// Whether two texts are the same.
pub fn same_text(a: &str, b: &str) -> (r: bool)
    ensures
        r == (a@ == b@),
{
    a.to_owned() == b.to_owned()
}

pub fn chars_of(s: &str) -> (r: Vec<char>)
    ensures
        r@ == s@,
{
    let mut out: Vec<char> = Vec::new();
    for c in it: s.chars()
        invariant
            out@ == it.seq().take(it.index() as int),
            it.seq() == s@,
    {
        out.push(c);
    }
    out
}

pub fn white_space(c: char) -> (r: bool)
    ensures
        r == is_white_space(c),
{
    let u: u32 = c as u32;
    (0x9 <= u && u <= 0xD) || u == 0x20 || u == 0x85 || u == 0xA0 || u == 0x1680 || (0x2000 <= u
        && u <= 0x200A) || u == 0x2028 || u == 0x2029 || u == 0x202F || u == 0x205F || u == 0x3000
}

/// The text without leading and trailing white space.
pub fn trim(s: &str) -> (r: &str)
    ensures
        r@ == trimmed(s@),
{
    let chars = chars_of(s);
    let mut start: usize = 0;
    let mut end: usize = chars.len();
    assert(s@.subrange(0, end as int) =~= s@);
    while start < end && white_space(chars[start])
        invariant
            chars@ == s@,
            start <= end == chars.len(),
            trimmed(s@) == trimmed(s@.subrange(start as int, end as int)),
        decreases end - start,
    {
        assert(s@.subrange(start as int, end as int).skip(1) == s@.subrange(
            start + 1,
            end as int,
        ));
        start = start + 1;
    }
    while start < end && white_space(chars[end - 1])
        invariant
            chars@ == s@,
            start <= end <= chars.len(),
            start < end ==> !is_white_space(chars[start as int]),
            trimmed(s@) == trimmed(s@.subrange(start as int, end as int)),
        decreases end - start,
    {
        assert(s@.subrange(start as int, end as int).drop_last() == s@.subrange(
            start as int,
            end - 1,
        ));
        end = end - 1;
    }
    s.substring_char(start, end)
}

/// The pieces of the text between the occurrences of `c`.
pub fn split(s: &str, c: char) -> (r: Vec<String>)
    ensures
        r.deep_view() == split_at_each(s@, c),
{
    let chars = chars_of(s);
    let mut out: Vec<String> = Vec::new();
    let mut start: usize = 0;
    let mut i: usize = 0;
    assert(s@.take(0) =~= Seq::empty());
    while i < chars.len()
        invariant
            chars@ == s@,
            start <= i <= chars.len(),
            split_at_each(s@.take(i as int), c) == out.deep_view().push(
                s@.subrange(start as int, i as int),
            ),
        decreases chars.len() - i,
    {
        let ghost before = out.deep_view();
        assert(s@.take(i + 1).drop_last() == s@.take(i as int));
        if chars[i] == c {
            out.push(s.substring_char(start, i).to_owned());
            assert(out.deep_view() =~= before.push(s@.subrange(start as int, i as int)));
            start = i + 1;
            assert(s@.subrange(start as int, i + 1) =~= Seq::empty());
        } else {
            assert(before.push(s@.subrange(start as int, i as int)).drop_last() =~= before);
            assert(s@.subrange(start as int, i + 1) =~= s@.subrange(start as int, i as int).push(
                s@[i as int],
            ));
        }
        i = i + 1;
    }
    assert(s@.take(i as int) =~= s@);
    let ghost before = out.deep_view();
    out.push(s.substring_char(start, i).to_owned());
    assert(out.deep_view() =~= before.push(s@.subrange(start as int, i as int)));
    out
}

/// What stands before and after the first `c` of the text.
pub fn split_at_first<'a>(s: &'a str, c: char) -> (r: Option<(&'a str, &'a str)>)
    ensures
        r.deep_view() == split_once(s@, c),
{
    let chars = chars_of(s);
    let mut i: usize = 0;
    while i < chars.len()
        invariant
            chars@ == s@,
            i <= chars.len(),
            !s@.take(i as int).contains(c),
        decreases chars.len() - i,
    {
        if chars[i] == c {
            assert(first_at(s@, c, i as int));
            proof {
                lemma_first_at(s@, c, i as int);
            }
            let before = s.substring_char(0, i);
            let after = s.substring_char(i + 1, chars.len());
            assert(before@ =~= s@.take(i as int));
            assert(after@ =~= s@.skip(i + 1));
            return Some((before, after));
        }
        assert(s@.take(i + 1) =~= s@.take(i as int).push(s@[i as int]));
        i = i + 1;
    }
    assert(s@.take(i as int) =~= s@);
    None
}

/// Whether the text begins with `prefix`.
pub fn starts_with(s: &str, prefix: &str) -> (r: bool)
    ensures
        r == prefix@.is_prefix_of(s@),
{
    let n: usize = prefix.unicode_len();
    if s.unicode_len() < n {
        return false;
    }
    same_text(s.substring_char(0, n), prefix)
}

pub fn to_ascii_lower(c: char) -> (r: char)
    ensures
        r == ascii_lower(c),
{
    if 'A' <= c && c <= 'Z' {
        let u: u8 = c as u8;
        (u + 32) as char
    } else {
        c
    }
}

/// Whether two texts agree but for the case of ASCII letters.
pub fn eq_ignore_ascii_case(a: &str, b: &str) -> (r: bool)
    ensures
        r == (ascii_lower_all(a@) == ascii_lower_all(b@)),
{
    let x = chars_of(a);
    let y = chars_of(b);
    if x.len() != y.len() {
        assert(ascii_lower_all(a@).len() != ascii_lower_all(b@).len());
        return false;
    }
    let mut i: usize = 0;
    while i < x.len()
        invariant
            x@ == a@,
            y@ == b@,
            x.len() == y.len(),
            i <= x.len(),
            forall|j: int| 0 <= j < i ==> ascii_lower(#[trigger] a@[j]) == ascii_lower(b@[j]),
        decreases x.len() - i,
    {
        if to_ascii_lower(x[i]) != to_ascii_lower(y[i]) {
            assert(ascii_lower_all(a@)[i as int] != ascii_lower_all(b@)[i as int]);
            return false;
        }
        i = i + 1;
    }
    assert(ascii_lower_all(a@) =~= ascii_lower_all(b@));
    true
}

fn digit_text(d: u64) -> (r: &'static str)
    requires
        d < 10,
    ensures
        r@ == seq![digit_char(d as nat)],
{
    proof {
        reveal_strlit("0");
        reveal_strlit("1");
        reveal_strlit("2");
        reveal_strlit("3");
        reveal_strlit("4");
        reveal_strlit("5");
        reveal_strlit("6");
        reveal_strlit("7");
        reveal_strlit("8");
        reveal_strlit("9");
    }
    let r = match d {
        0 => "0",
        1 => "1",
        2 => "2",
        3 => "3",
        4 => "4",
        5 => "5",
        6 => "6",
        7 => "7",
        8 => "8",
        _ => "9",
    };
    assert(r@ =~= seq![digit_char(d as nat)]);
    r
}

/// The number in decimal.
pub fn decimal_text(n: u64) -> (r: String)
    ensures
        r@ == decimal(n as nat),
    decreases n,
{
    if n < 10 {
        digit_text(n).to_owned()
    } else {
        let r = decimal_text(n / 10).concat(digit_text(n % 10));
        assert(r@ =~= decimal(n as nat));
        r
    }
}

/// The number in decimal, with its sign.
pub fn signed_text(n: i64) -> (r: String)
    ensures
        r@ == signed_decimal(n as int),
{
    if n < 0 {
        let size: i128 = -(n as i128);
        "-".to_owned().concat(&decimal_text(size as u64))
    } else {
        decimal_text(n as u64)
    }
}

/// Reads an unsigned decimal number of at most `max`.
pub fn parse_unsigned(s: &str, max: u64) -> (r: Option<u64>)
    ensures
        (match r {
            Some(n) => Some(n as nat),
            None => None,
        }) == read_unsigned(s@, max as nat),
{
    let chars = chars_of(s);
    let start: usize = if chars.len() > 0 && chars[0] == '+' {
        1
    } else {
        0
    };
    let ghost digits = if s@.len() > 0 && s@[0] == '+' {
        s@.skip(1)
    } else {
        s@
    };
    assert(digits =~= s@.subrange(start as int, s@.len() as int));
    if start == chars.len() {
        return None;
    }
    let mut value: u64 = 0;
    let mut over: bool = false;
    let mut i: usize = start;
    assert(digits.take(0) =~= Seq::empty());
    while i < chars.len()
        invariant
            chars@ == s@,
            digits == (if s@.len() > 0 && s@[0] == '+' { s@.skip(1) } else { s@ }),
            digits == s@.subrange(start as int, s@.len() as int),
            start <= i <= chars.len(),
            forall|j: int| 0 <= j < i - start ==> is_digit(#[trigger] digits[j]),
            over ==> decimal_value(digits.take(i - start)) > max,
            !over ==> decimal_value(digits.take(i - start)) == value && value <= max,
        decreases chars.len() - i,
    {
        let c = chars[i];
        assert(digits[i - start] == c);
        if !('0' <= c && c <= '9') {
            assert(!is_digit(digits[i - start]));
            return None;
        }
        let d: u64 = c as u64 - 0x30;
        assert(digits.take(i + 1 - start).drop_last() =~= digits.take(i - start));
        assert(digits.take(i + 1 - start).last() == c);
        if !over {
            if value > (u64::MAX - d) / 10 || value * 10 + d > max {
                over = true;
            } else {
                value = value * 10 + d;
            }
        }
        i = i + 1;
    }
    assert(digits.take(i - start) =~= digits);
    if over {
        None
    } else {
        Some(value)
    }
}

/// Whether the text is a decimal number above `limit`, however large.
pub fn exceeds(s: &str, limit: u64) -> (r: bool)
    ensures
        r == number_above(s@, limit as nat),
{
    if parse_unsigned(s, limit).is_some() {
        return false;
    }
    let chars = chars_of(s);
    let start: usize = if chars.len() > 0 && chars[0] == '+' {
        1
    } else {
        0
    };
    let ghost digits = if s@.len() > 0 && s@[0] == '+' {
        s@.skip(1)
    } else {
        s@
    };
    assert(digits =~= s@.subrange(start as int, s@.len() as int));
    if start == chars.len() {
        return false;
    }
    let mut i: usize = start;
    while i < chars.len()
        invariant
            chars@ == s@,
            digits == (if s@.len() > 0 && s@[0] == '+' { s@.skip(1) } else { s@ }),
            digits == s@.subrange(start as int, s@.len() as int),
            start <= i <= chars.len(),
            forall|j: int| 0 <= j < i - start ==> is_digit(#[trigger] digits[j]),
        decreases chars.len() - i,
    {
        let c = chars[i];
        assert(digits[i - start] == c);
        if !('0' <= c && c <= '9') {
            assert(!is_digit(digits[i - start]));
            return false;
        }
        i = i + 1;
    }
    assert(all_digits(digits));
    true
}

/// Where `needle` first occurs in the text, in characters.
pub fn find_text(hay: &str, needle: &str) -> (r: Option<usize>)
    ensures
        (match r {
            Some(i) => Some(i as nat),
            None => None,
        }) == find(hay@, needle@),
{
    let len: usize = hay.unicode_len();
    let n: usize = needle.unicode_len();
    let mut i: usize = 0;
    assert(hay@.skip(0) =~= hay@);
    while i < len && n <= len - i
        invariant
            len == hay@.len(),
            n == needle@.len(),
            i <= len,
            find(hay@, needle@) == (match find(hay@.skip(i as int), needle@) {
                Some(k) => Some(k + i as nat),
                None => None,
            }),
        decreases len - i,
    {
        let ghost rest = hay@.skip(i as int);
        let part = hay.substring_char(i, i + n);
        assert(part@ =~= rest.take(n as int));
        if same_text(part, needle) {
            assert(needle@.is_prefix_of(rest));
            return Some(i);
        }
        assert(!needle@.is_prefix_of(rest)) by {
            if needle@.is_prefix_of(rest) {
                assert(needle@ =~= rest.take(n as int));
            }
        }
        assert(rest.skip(1) =~= hay@.skip(i + 1));
        i = i + 1;
    }
    let ghost rest = hay@.skip(i as int);
    if n == 0 && i == len {
        assert(needle@.is_prefix_of(rest));
        return Some(i);
    }
    proof {
        lemma_too_short(rest, needle@);
    }
    None
}

/// Nothing is found in what is shorter.
proof fn lemma_too_short(hay: Seq<char>, needle: Seq<char>)
    requires
        hay.len() < needle.len(),
    ensures
        find(hay, needle) is None,
    decreases hay.len(),
{
    if hay.len() > 0 {
        lemma_too_short(hay.skip(1), needle);
    }
}

/// Whether `needle` occurs in `hay`.
pub fn bytes_contain(hay: &[u8], needle: &[u8]) -> (r: bool)
    ensures
        r == occurs_in(hay@, needle@),
{
    let n: usize = needle.len();
    let mut i: usize = 0;
    while i < hay.len() && n <= hay.len() - i
        invariant
            n == needle.len(),
            i <= hay.len(),
            forall|k: int|
                0 <= k < i && k + n <= hay.len() ==> #[trigger] hay@.subrange(k, k + n)
                    != needle@,
        decreases hay.len() - i,
    {
        let mut j: usize = 0;
        while j < n && hay[i + j] == needle[j]
            invariant
                n == needle.len(),
                i + n <= hay.len(),
                j <= n,
                forall|k: int| 0 <= k < j ==> hay@[i + k] == #[trigger] needle@[k],
            decreases n - j,
        {
            j = j + 1;
        }
        if j == n {
            assert(hay@.subrange(i as int, i + n) =~= needle@);
            return true;
        }
        assert(hay@.subrange(i as int, i + n)[j as int] != needle@[j as int]);
        i = i + 1;
    }
    if i == hay.len() && n == 0 {
        assert(hay@.subrange(i as int, i + needle@.len()) =~= needle@);
        return true;
    }
    assert forall|k: int| 0 <= k <= hay@.len() - n implies #[trigger] hay@.subrange(k, k + n)
        != needle@ by {}
    false
}

// Laws.
/// White space is what Unicode calls so.
pub proof fn law_white_space(c: char)
    ensures
        is_white_space(c) <==> {
            ||| c == '\t' || c == '\n' || c == '\u{B}' || c == '\u{C}' || c == '\r' || c == ' '
            ||| c == '\u{85}' || c == '\u{A0}' || c == '\u{1680}'
            ||| '\u{2000}' <= c && c <= '\u{200A}'
            ||| c == '\u{2028}' || c == '\u{2029}' || c == '\u{202F}' || c == '\u{205F}'
            ||| c == '\u{3000}'
        },
{
}

/// The positions that trimming leaves: what is cut off is white space, and
/// what is left neither begins nor ends with any.
proof fn lemma_trim_bounds(s: Seq<char>) -> (r: (int, int))
    ensures
        0 <= r.0 <= r.1 <= s.len(),
        trimmed(s) == s.subrange(r.0, r.1),
        forall|i: int| 0 <= i < r.0 || r.1 <= i < s.len() ==> is_white_space(#[trigger] s[i]),
        r.0 < r.1 ==> !is_white_space(s[r.0]) && !is_white_space(s[r.1 - 1]),
    decreases s.len(),
{
    if s.len() > 0 && is_white_space(s.first()) {
        let (a, b) = lemma_trim_bounds(s.skip(1));
        assert(s.skip(1).subrange(a, b) =~= s.subrange(a + 1, b + 1));
        assert forall|i: int| 0 <= i < a + 1 || b + 1 <= i < s.len() implies is_white_space(
            #[trigger] s[i],
        ) by {
            if i > 0 {
                assert(s.skip(1)[i - 1] == s[i]);
            }
        }
        (a + 1, b + 1)
    } else if s.len() > 0 && is_white_space(s.last()) {
        let (a, b) = lemma_trim_bounds(s.drop_last());
        assert(s.drop_last().subrange(a, b) =~= s.subrange(a, b));
        assert forall|i: int| 0 <= i < a || b <= i < s.len() implies is_white_space(
            #[trigger] s[i],
        ) by {
            if i < s.len() - 1 {
                assert(s.drop_last()[i] == s[i]);
            }
        }
        (a, b)
    } else {
        assert(s.subrange(0, s.len() as int) =~= s);
        (0, s.len() as int)
    }
}

/// Trimming cuts white space off both ends, all of it and nothing else.
pub proof fn law_trimming_cuts_white_space(s: Seq<char>)
    ensures
        exists|from: int, to: int|
            {
                &&& 0 <= from <= to <= s.len()
                &&& #[trigger] s.subrange(from, to) == trimmed(s)
                &&& forall|i: int|
                    0 <= i < from || to <= i < s.len() ==> is_white_space(#[trigger] s[i])
            },
        trimmed(s).len() > 0 ==> !is_white_space(trimmed(s).first()) && !is_white_space(
            trimmed(s).last(),
        ),
        trimmed(trimmed(s)) == trimmed(s),
{
    let (a, b) = lemma_trim_bounds(s);
    assert(s.subrange(a, b) == trimmed(s));
}

/// Pieces with a character between each two of them.
pub open spec fn joined(pieces: Seq<Seq<char>>, c: char) -> Seq<char>
    decreases pieces.len(),
{
    if pieces.len() == 0 {
        Seq::empty()
    } else if pieces.len() == 1 {
        pieces[0]
    } else {
        joined(pieces.drop_last(), c) + seq![c] + pieces.last()
    }
}

/// The pieces of a text hold no separator, and make the text again when they
/// are put together with one between each two.
pub proof fn law_split_is_undone_by_joining(s: Seq<char>, c: char)
    ensures
        split_at_each(s, c).len() > 0,
        joined(split_at_each(s, c), c) == s,
        forall|i: int|
            0 <= i < split_at_each(s, c).len() ==> !(#[trigger] split_at_each(s, c)[i]).contains(c),
    decreases s.len(),
{
    let pieces = split_at_each(s, c);
    if s.len() == 0 {
        assert(joined(pieces, c) =~= s);
    } else {
        let before = split_at_each(s.drop_last(), c);
        law_split_is_undone_by_joining(s.drop_last(), c);
        assert(s =~= s.drop_last().push(s.last()));
        if s.last() == c {
            assert(pieces.drop_last() =~= before);
            assert(joined(pieces, c) =~= s);
            assert forall|i: int| 0 <= i < pieces.len() implies !(#[trigger] pieces[i]).contains(
                c,
            ) by {
                if i < before.len() {
                    assert(pieces[i] == before[i]);
                }
            }
        } else {
            assert(pieces.drop_last() =~= before.drop_last());
            assert(pieces.last() == before.last().push(s.last()));
            assert(joined(pieces, c) =~= s);
            assert forall|i: int| 0 <= i < pieces.len() implies !(#[trigger] pieces[i]).contains(
                c,
            ) by {
                if i < before.len() - 1 {
                    assert(pieces[i] == before[i]);
                } else {
                    assert(!before[before.len() - 1].contains(c));
                    if pieces[i].contains(c) {
                        let k = choose|k: int| 0 <= k < pieces[i].len() && pieces[i][k] == c;
                        assert(before.last()[k] == c);
                    }
                }
            }
        }
    }
}

proof fn lemma_first_exists(s: Seq<char>, c: char) -> (i: int)
    requires
        s.contains(c),
    ensures
        first_at(s, c, i),
    decreases s.len(),
{
    let rest = s.drop_last();
    if rest.contains(c) {
        let i = lemma_first_exists(rest, c);
        assert(rest.take(i) =~= s.take(i));
        i
    } else {
        let k = choose|k: int| 0 <= k < s.len() && s[k] == c;
        if k < rest.len() {
            assert(rest[k] == c);
        }
        assert(s.take(s.len() - 1) =~= rest);
        s.len() - 1
    }
}

/// A text is split at the first occurrence of a character, where there is one:
/// the parts make it again, and the first does not hold the character.
pub proof fn law_split_once_is_at_the_first(s: Seq<char>, c: char)
    ensures
        match split_once(s, c) {
            None => !s.contains(c),
            Some((before, after)) => s == before + seq![c] + after && !before.contains(c),
        },
{
    if s.contains(c) {
        let i = lemma_first_exists(s, c);
        lemma_first_at(s, c, i);
        assert(s =~= s.take(i) + seq![c] + s.skip(i + 1));
    }
}

/// A text is split where its first part does not hold the character, and not at
/// all where it holds none.
pub proof fn lemma_split_once_around(before: Seq<char>, c: char, after: Seq<char>)
    requires
        !before.contains(c),
    ensures
        split_once(before + seq![c] + after, c) == Some((before, after)),
        split_once(before, c) is None,
{
    let s = before + seq![c] + after;
    let n = before.len() as int;
    assert(s.take(n) =~= before);
    assert(first_at(s, c, n));
    lemma_first_at(s, c, n);
    assert(s.skip(n + 1) =~= after);
}

/// A capital letter of ASCII becomes the small one at the same place of the
/// alphabet, and nothing else changes.
pub proof fn law_ascii_lower(s: Seq<char>, i: int)
    requires
        0 <= i < s.len(),
    ensures
        ascii_lower_all(s).len() == s.len(),
        'A' <= s[i] <= 'Z' ==> ascii_lower_all(s)[i] as u32 - 'a' as u32 == s[i] as u32
            - 'A' as u32,
        !('A' <= s[i] <= 'Z') ==> ascii_lower_all(s)[i] == s[i],
        ascii_lower_all(ascii_lower_all(s)) == ascii_lower_all(s),
{
    assert(ascii_lower_all(ascii_lower_all(s)) =~= ascii_lower_all(s));
}

/// A number in decimal is digits without a leading zero, which denote it.
pub proof fn law_decimal_denotes_the_number(n: nat)
    ensures
        decimal(n).len() > 0,
        all_digits(decimal(n)),
        decimal_value(decimal(n)) == n,
        n > 0 ==> decimal(n)[0] != '0',
        n < 10 ==> decimal(n).len() == 1,
        signed_decimal(n as int) == decimal(n),
        n > 0 ==> signed_decimal(-(n as int)) == seq!['-'] + decimal(n),
    decreases n,
{
    reveal_strlit("-");
    assert("-"@ =~= seq!['-']);
    if n >= 10 {
        law_decimal_denotes_the_number(n / 10);
        assert(decimal(n).drop_last() =~= decimal(n / 10));
    } else {
        assert(decimal(n).drop_last() =~= Seq::empty());
        assert(decimal_value(Seq::<char>::empty()) == 0);
    }
}

/// A number is read from its decimal digits, with or without a plus sign, where
/// it is not too large; anything else is no number.
pub proof fn law_numbers_are_read(n: nat, max: nat, s: Seq<char>)
    ensures
        read_unsigned(decimal(n), max) == (if n <= max {
            Some(n)
        } else {
            None
        }),
        read_unsigned(seq!['+'] + decimal(n), max) == read_unsigned(decimal(n), max),
        number_above(decimal(n), max) <==> n > max,
        number_above(seq!['+'] + decimal(n), max) <==> n > max,
        read_unsigned(s, max) matches Some(m) ==> m <= max && s.len() > 0,
        (exists|i: int| 0 < i < s.len() && !is_digit(#[trigger] s[i])) ==> read_unsigned(s, max)
            is None && !number_above(s, max),
        s.len() == 0 ==> read_unsigned(s, max) is None && !number_above(s, max),
{
    law_decimal_denotes_the_number(n);
    assert(is_digit(decimal(n)[0]));
    assert((seq!['+'] + decimal(n)).skip(1) =~= decimal(n));
    if exists|i: int| 0 < i < s.len() && !is_digit(#[trigger] s[i]) {
        let i = choose|i: int| 0 < i < s.len() && !is_digit(#[trigger] s[i]);
        if s[0] == '+' {
            assert(!is_digit(s.skip(1)[i - 1]));
        }
    }
}

/// What is found is there, and nowhere before; what is not found is nowhere.
pub proof fn law_find_is_the_first_occurrence(hay: Seq<char>, needle: Seq<char>)
    ensures
        match find(hay, needle) {
            Some(at) => {
                &&& at <= hay.len()
                &&& needle.is_prefix_of(hay.skip(at as int))
                &&& forall|k: int|
                    0 <= k < at ==> !needle.is_prefix_of(#[trigger] hay.skip(k))
            },
            None => forall|k: int|
                0 <= k <= hay.len() ==> !needle.is_prefix_of(#[trigger] hay.skip(k)),
        },
    decreases hay.len(),
{
    assert(hay.skip(0) =~= hay);
    if needle.is_prefix_of(hay) {
    } else if hay.len() == 0 {
        assert forall|k: int| 0 <= k <= hay.len() implies !needle.is_prefix_of(
            #[trigger] hay.skip(k),
        ) by {
            assert(hay.skip(k) =~= hay);
        }
    } else {
        let rest = hay.skip(1);
        law_find_is_the_first_occurrence(rest, needle);
        assert forall|k: int| 1 <= k <= hay.len() implies #[trigger] hay.skip(k) == rest.skip(
            k - 1,
        ) by {
            assert(hay.skip(k) =~= rest.skip(k - 1));
        }
        match find(rest, needle) {
            Some(at) => {
                assert(hay.skip(at as int + 1) == rest.skip(at as int));
                assert forall|k: int| 0 <= k < at + 1 implies !needle.is_prefix_of(
                    #[trigger] hay.skip(k),
                ) by {
                    if k > 0 {
                        assert(hay.skip(k) == rest.skip(k - 1));
                    }
                }
            },
            None => {
                assert forall|k: int| 0 <= k <= hay.len() implies !needle.is_prefix_of(
                    #[trigger] hay.skip(k),
                ) by {
                    if k > 0 {
                        assert(hay.skip(k) == rest.skip(k - 1));
                    }
                }
            },
        }
    }
}

/// A part of a text occurs in it.
pub proof fn lemma_part_occurs(before: Seq<char>, part: Seq<char>, after: Seq<char>)
    ensures
        occurs_in(before + part + after, part),
{
    let whole = before + part + after;
    let n = before.len() as int;
    assert(whole.subrange(n, n + part.len()) =~= part);
}

} // verus!
