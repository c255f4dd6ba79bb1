//! JSON documents. Parsing and printing are `serde_json`'s; what a document
//! holds is `JsonView`, and the rest of the library reads and builds documents
//! through the operations below.

use crate::text;
use vstd::prelude::*;

verus! {

/// `serde_json`'s document type, carried through and read by the operations
/// of this module.
#[verifier::external_type_specification]
#[verifier::external_body]
pub struct ExValue(serde_json::Value);

/// What a JSON document holds. Numbers that are no integers of 64 bits are
/// kept in the text that they print as; an object has its members in order.
#[verifier::ext_equal]
pub enum JsonView {
    Null,
    Bool(bool),
    Unsigned(u64),
    Negative(i64),
    Float(Seq<char>),
    Text(Seq<char>),
    List(Seq<JsonView>),
    Object(Seq<(Seq<char>, JsonView)>),
}

/// What a `serde_json::Value` holds.
pub uninterp spec fn json_content(value: serde_json::Value) -> JsonView;

/// What `serde_json::from_slice` makes of a text: the document, or the words
/// of its error.
pub uninterp spec fn parsed_json(text: Seq<u8>) -> Result<JsonView, Seq<char>>;

/// The text that `serde_json::to_string` prints for a document.
pub uninterp spec fn compact_json(content: JsonView) -> Seq<char>;

/// The text that `serde_json::to_string_pretty` prints for a document.
pub uninterp spec fn pretty_json(content: JsonView) -> Seq<char>;

/// The words in which `serde_json::from_value` refuses a document where an
/// optional string is wanted.
pub uninterp spec fn not_optional_text(content: JsonView) -> Seq<char>;

/// The member of that name, in a list of members.
pub open spec fn lookup(members: Seq<(Seq<char>, JsonView)>, key: Seq<char>) -> Option<JsonView>
    decreases members.len(),
{
    if members.len() == 0 {
        None
    } else if members.last().0 == key {
        Some(members.last().1)
    } else {
        lookup(members.drop_last(), key)
    }
}

/// No name occurs twice.
pub open spec fn distinct_keys(members: Seq<(Seq<char>, JsonView)>) -> bool {
    forall|i: int, j: int|
        0 <= i < j < members.len() ==> (#[trigger] members[i]).0 != (#[trigger] members[j]).0
}

/// Members, and one more where there is a value for it: an absent one is left
/// out, never written as `null`.
pub open spec fn with_member(
    members: Seq<(Seq<char>, JsonView)>,
    key: Seq<char>,
    value: Option<JsonView>,
) -> Seq<(Seq<char>, JsonView)> {
    match value {
        Some(v) => members.push((key, v)),
        None => members,
    }
}

/// Whether the name occurs among the members.
pub open spec fn has_key(members: Seq<(Seq<char>, JsonView)>, key: Seq<char>) -> bool {
    exists|i: int| 0 <= i < members.len() && (#[trigger] members[i]).0 == key
}

/// Where no name occurs twice, each member is found under its name.
pub proof fn lemma_lookup_at(members: Seq<(Seq<char>, JsonView)>, i: int)
    requires
        distinct_keys(members),
        0 <= i < members.len(),
    ensures
        lookup(members, members[i].0) == Some(members[i].1),
    decreases members.len(),
{
    if i < members.len() - 1 {
        assert(members[i].0 != members.last().0);
        assert(members.drop_last()[i] == members[i]);
        lemma_lookup_at(members.drop_last(), i);
    }
}

/// Nothing is found under a name that does not occur.
pub proof fn lemma_lookup_absent(members: Seq<(Seq<char>, JsonView)>, key: Seq<char>)
    requires
        !has_key(members, key),
    ensures
        lookup(members, key) is None,
    decreases members.len(),
{
    if members.len() > 0 {
        assert(members[members.len() - 1].0 != key);
        assert forall|i: int| 0 <= i < members.len() - 1 implies (
        #[trigger] members.drop_last()[i]).0 != key by {
            assert(members.drop_last()[i] == members[i]);
        }
        lemma_lookup_absent(members.drop_last(), key);
    }
}

/// What is below a name in a document: nothing, where it is no object.
pub open spec fn member_of(content: JsonView, key: Seq<char>) -> Option<JsonView> {
    match content {
        JsonView::Object(members) => lookup(members, key),
        _ => None,
    }
}

pub open spec fn text_in(content: JsonView) -> Option<Seq<char>> {
    match content {
        JsonView::Text(s) => Some(s),
        _ => None,
    }
}

pub open spec fn bool_in(content: JsonView) -> Option<bool> {
    match content {
        JsonView::Bool(b) => Some(b),
        _ => None,
    }
}

pub open spec fn u64_in(content: JsonView) -> Option<u64> {
    match content {
        JsonView::Unsigned(n) => Some(n),
        _ => None,
    }
}

pub open spec fn i64_in(content: JsonView) -> Option<i64> {
    match content {
        JsonView::Unsigned(n) => if n <= i64::MAX {
            Some(n as i64)
        } else {
            None
        },
        JsonView::Negative(n) => Some(n),
        _ => None,
    }
}

/// The whole number that the text of a fraction says: digits, which a minus
/// sign may precede, before a point and a single zero.
pub open spec fn whole_text(words: Seq<char>) -> Option<i64> {
    let len = words.len();
    if len > 2 && words.skip(len - 2) == ".0"@ {
        let digits = words.take(len - 2);
        let negative = digits[0] == '-';
        match text::read_unsigned(
            if negative {
                digits.skip(1)
            } else {
                digits
            },
            i64::MAX as nat,
        ) {
            Some(n) => Some(
                if negative {
                    (-n) as i64
                } else {
                    n as i64
                },
            ),
            None => None,
        }
    } else {
        None
    }
}

/// The whole number that a document is, however it is written.
pub open spec fn whole_in(content: JsonView) -> Option<i64> {
    match content {
        JsonView::Float(words) => whole_text(words),
        _ => i64_in(content),
    }
}

/// The text of a number.
pub open spec fn number_in(content: JsonView) -> Option<Seq<char>> {
    match content {
        JsonView::Unsigned(n) => Some(text::decimal(n as nat)),
        JsonView::Negative(n) => Some("-"@ + text::decimal((-n) as nat)),
        JsonView::Float(words) => Some(words),
        _ => None,
    }
}

/// The name by which `serde_json` knows an object that stands for a piece of
/// unparsed text, if it comes first: such an object is not read as one.
pub open spec fn raw_token() -> Seq<char> {
    "$serde_json::private::RawValue"@
}

/// A document without fractional numbers, with canonical integers, unique
/// names, no object that stands for unparsed text, and at most `depth` levels
/// of nesting.
pub open spec fn plain(content: JsonView, depth: nat) -> bool
    decreases depth,
{
    match content {
        JsonView::Float(_) => false,
        JsonView::Negative(n) => n < 0,
        JsonView::List(items) => depth > 0 && forall|i: int|
            0 <= i < items.len() ==> plain(#[trigger] items[i], (depth - 1) as nat),
        JsonView::Object(members) => {
            &&& depth > 0
            &&& distinct_keys(members)
            &&& members.len() > 0 ==> members[0].0 != raw_token()
            &&& forall|i: int|
                0 <= i < members.len() ==> plain((#[trigger] members[i]).1, (depth - 1) as nat)
        },
        _ => true,
    }
}

/// How many levels `serde_json` reads into each other.
pub open spec fn depth_limit() -> nat {
    127
}

/// The members that a list of named documents makes.
pub open spec fn members_of(fields: Seq<(String, serde_json::Value)>) -> Seq<
    (Seq<char>, JsonView),
> {
    fields.map_values(|f: (String, serde_json::Value)| (f.0@, json_content(f.1)))
}

/// `serde_json::Value::is_object`: whether the document is an object.
pub assume_specification[ serde_json::Value::is_object ](value: &serde_json::Value) -> (r: bool)
    ensures
        r == (json_content(*value) is Object),
;

/// `serde_json::Value::is_null`: whether the document is `null`.
pub assume_specification[ serde_json::Value::is_null ](value: &serde_json::Value) -> (r: bool)
    ensures
        r == (json_content(*value) is Null),
;

/// `serde_json::Value::is_f64`: whether the document is a number that is kept
/// as a fraction, not as a 64-bit integer.
pub assume_specification[ serde_json::Value::is_f64 ](value: &serde_json::Value) -> (r: bool)
    ensures
        r == (json_content(*value) is Float),
;

/// `serde_json::Value::as_str`: the text of a string, nothing of another
/// document.
pub assume_specification[ serde_json::Value::as_str ](value: &serde_json::Value) -> (r: Option<
    &str,
>)
    ensures
        r.deep_view() == text_in(json_content(*value)),
;

/// `serde_json::Value::as_bool`: the truth value of a boolean, nothing of
/// another document.
pub assume_specification[ serde_json::Value::as_bool ](value: &serde_json::Value) -> (r: Option<
    bool,
>)
    ensures
        r == bool_in(json_content(*value)),
;

/// `serde_json::Value::as_u64`: the number of an integer that is not
/// negative, nothing of another document.
pub assume_specification[ serde_json::Value::as_u64 ](value: &serde_json::Value) -> (r: Option<u64>)
    ensures
        r == u64_in(json_content(*value)),
;

/// `serde_json::Value::as_i64`: the number of an integer within 64 signed
/// bits, nothing of another document.
pub assume_specification[ serde_json::Value::as_i64 ](value: &serde_json::Value) -> (r: Option<i64>)
    ensures
        r == i64_in(json_content(*value)),
;

/// `serde_json::Value::get` with a name: the member of an object, nothing
/// where there is none or the document is no object.
#[verifier::external_body]
pub(crate) fn member<'a>(value: &'a serde_json::Value, key: &str) -> (r: Option<
    &'a serde_json::Value,
>)
    ensures
        (match r {
            Some(v) => Some(json_content(*v)),
            None => None,
        }) == member_of(json_content(*value), key@),
{
    value.get(key)
}

/// `serde_json::Value::as_number` and `serde_json::Number`'s `Display`: the
/// text that a number prints as, nothing of another document.
#[verifier::external_body]
pub(crate) fn number_text(value: &serde_json::Value) -> (r: Option<String>)
    ensures
        r.deep_view() == number_in(json_content(*value)),
{
    value.as_number().map(|n| n.to_string())
}

/// `serde_json::from_slice`: the document that the bytes spell, or the words
/// of the error. The result depends on the bytes alone.
#[verifier::external_body]
pub(crate) fn parse(text: &[u8]) -> (r: Result<serde_json::Value, String>)
    ensures
        match r {
            Ok(value) => parsed_json(text@) == Ok::<JsonView, Seq<char>>(json_content(value)),
            Err(words) => parsed_json(text@) == Err::<JsonView, Seq<char>>(words@),
        },
{
    serde_json::from_slice::<serde_json::Value>(text).map_err(|e| e.to_string())
}

/// `serde_json::from_value` for an optional string: `null` is none, a string
/// is its text, and anything else is refused in words that depend on the
/// document alone.
#[verifier::external_body]
pub(crate) fn optional_text(value: &serde_json::Value) -> (r: Result<Option<String>, String>)
    ensures
        match json_content(*value) {
            JsonView::Null => r matches Ok(None),
            JsonView::Text(s) => r matches Ok(Some(t)) && t@ == s,
            other => r matches Err(words) && words@ == not_optional_text(other),
        },
{
    serde_json::from_value::<Option<String>>(value.clone()).map_err(|e| e.to_string())
}

/// `serde_json::Value::String`: the string document of a text.
#[verifier::external_body]
pub(crate) fn text_value(text: &str) -> (r: serde_json::Value)
    ensures
        json_content(r) == JsonView::Text(text@),
{
    serde_json::Value::String(text.to_owned())
}

/// `serde_json::Value::Bool`: the document of a truth value.
#[verifier::external_body]
pub(crate) fn bool_value(flag: bool) -> (r: serde_json::Value)
    ensures
        json_content(r) == JsonView::Bool(flag),
{
    serde_json::Value::Bool(flag)
}

/// `From<u64>` of `serde_json::Value`: the document of an integer that is not
/// negative.
#[verifier::external_body]
pub(crate) fn unsigned_value(n: u64) -> (r: serde_json::Value)
    ensures
        json_content(r) == JsonView::Unsigned(n),
{
    serde_json::Value::from(n)
}

/// `From<i64>` of `serde_json::Value`: the document of an integer, which is
/// kept as unsigned where it is not negative.
#[verifier::external_body]
pub(crate) fn signed_value(n: i64) -> (r: serde_json::Value)
    ensures
        json_content(r) == if n < 0 {
            JsonView::Negative(n)
        } else {
            JsonView::Unsigned(n as u64)
        },
{
    serde_json::Value::from(n)
}

/// `serde_json::Value::Array`: the document of a list.
#[verifier::external_body]
pub(crate) fn list_value(items: Vec<serde_json::Value>) -> (r: serde_json::Value)
    ensures
        json_content(r) == JsonView::List(
            items@.map_values(|v: serde_json::Value| json_content(v)),
        ),
{
    serde_json::Value::Array(items)
}

/// `serde_json::Map` collected from members, as a document: they keep their
/// order, where no name occurs twice.
#[verifier::external_body]
pub(crate) fn object_value(fields: Vec<(String, serde_json::Value)>) -> (r: serde_json::Value)
    requires
        distinct_keys(members_of(fields@)),
    ensures
        json_content(r) == JsonView::Object(members_of(fields@)),
{
    serde_json::Value::Object(fields.into_iter().collect())
}

/// `serde_json::to_string` on a document, which never fails there: the text
/// depends on what the document holds.
#[verifier::external_body]
pub(crate) fn to_compact(value: &serde_json::Value) -> (r: Result<String, String>)
    ensures
        match r {
            Ok(printed) => printed@ == compact_json(json_content(*value)),
            Err(_) => false,
        },
{
    serde_json::to_string(value).map_err(|e| e.to_string())
}

/// `serde_json::to_string_pretty` on a document, which never fails there: the
/// text depends on what the document holds, and `serde_json::from_slice` reads
/// the same document back from it, where it holds no fractional number and no
/// object that stands for unparsed text, and is not nested beyond what is read.
#[verifier::external_body]
pub(crate) fn to_pretty(value: &serde_json::Value) -> (r: Result<String, String>)
    ensures
        match r {
            Ok(printed) => {
                &&& printed@ == pretty_json(json_content(*value))
                &&& plain(json_content(*value), depth_limit()) ==> parsed_json(
                    vstd::utf8::encode_utf8(printed@),
                ) == Ok::<JsonView, Seq<char>>(json_content(*value))
            },
            Err(_) => false,
        },
{
    serde_json::to_string_pretty(value).map_err(|e| e.to_string())
}

/// Adds a member to the list that an object is made of.
pub(crate) fn push_member(
    fields: &mut Vec<(String, serde_json::Value)>,
    key: &str,
    value: serde_json::Value,
)
    ensures
        members_of(final(fields)@) == members_of(old(fields)@).push((key@, json_content(value))),
{
    let name = key.to_owned();
    fields.push((name, value));
    assert(members_of(fields@) =~= members_of(old(fields)@).push((key@, json_content(value))));
}


/// What validation messages call a kind of document; a missing one is
/// undefined.
pub open spec fn kind_name(content: Option<JsonView>) -> Seq<char> {
    match content {
        None => "undefined"@,
        Some(JsonView::Null) => "null"@,
        Some(JsonView::Bool(_)) => "boolean"@,
        Some(JsonView::Unsigned(_)) => "number"@,
        Some(JsonView::Negative(_)) => "number"@,
        Some(JsonView::Float(_)) => "number"@,
        Some(JsonView::Text(_)) => "string"@,
        Some(JsonView::List(_)) => "array"@,
        Some(JsonView::Object(_)) => "object"@,
    }
}

/// What a validation message says of a document of the wrong kind.
pub open spec fn wrong_type(expected: Seq<char>, got: Option<JsonView>) -> Seq<char> {
    "Invalid input: expected "@ + expected + ", received "@ + kind_name(got)
}

/// What validation messages call a document's kind.
pub fn zod_type(value: &serde_json::Value) -> (r: &'static str)
    ensures
        r@ == kind_name(Some(json_content(*value))),
{
    if value.is_null() {
        "null"
    } else if value.as_bool().is_some() {
        "boolean"
    } else if value.is_f64() || value.as_u64().is_some() || value.as_i64().is_some() {
        "number"
    } else if value.as_str().is_some() {
        "string"
    } else if value.is_object() {
        "object"
    } else {
        "array"
    }
}

fn read_whole(words: &str) -> (r: Option<i64>)
    ensures
        r == whole_text(words@),
{
    let len: usize = words.unicode_len();
    if len <= 2 {
        return None;
    }
    let end = words.substring_char(len - 2, len);
    assert(end@ =~= words@.skip(len - 2));
    if !text::same_text(end, ".0") {
        return None;
    }
    let digits = words.substring_char(0, len - 2);
    assert(digits@ =~= words@.take(len - 2));
    if digits.get_char(0) == '-' {
        let size = digits.substring_char(1, len - 2);
        assert(size@ =~= digits@.skip(1));
        match text::parse_unsigned(size, i64::MAX as u64) {
            Some(n) => Some(-(n as i64)),
            None => None,
        }
    } else {
        match text::parse_unsigned(digits, i64::MAX as u64) {
            Some(n) => Some(n as i64),
            None => None,
        }
    }
}

/// The whole number that a document is, however it is written.
pub(crate) fn whole_number(value: &serde_json::Value) -> (r: Option<i64>)
    ensures
        r == whole_in(json_content(*value)),
{
    if value.is_f64() {
        match number_text(value) {
            Some(words) => read_whole(&words),
            None => None,
        }
    } else {
        value.as_i64()
    }
}

/// What a validation message says of a document of the wrong kind.
pub(crate) fn wrong_type_message(expected: &str, got: Option<&serde_json::Value>) -> (r: String)
    ensures
        r@ == wrong_type(
            expected@,
            match got {
                Some(v) => Some(json_content(*v)),
                None => None,
            },
        ),
{
    let name = match got {
        Some(v) => zod_type(v),
        None => "undefined",
    };
    "Invalid input: expected ".to_owned().concat(expected).concat(", received ").concat(name)
}

// Laws.
/// A whole number is read however it is written, in digits or with a decimal
/// point and a zero; nothing else is one.
pub proof fn law_whole_numbers_are_read(n: i64, content: JsonView)
    ensures
        n >= 0 ==> whole_in(JsonView::Unsigned(n as u64)) == Some(n),
        n < 0 ==> whole_in(JsonView::Negative(n)) == Some(n),
        n > i64::MIN ==> whole_in(JsonView::Float(text::signed_decimal(n as int) + ".0"@)) == Some(
            n,
        ),
        whole_in(content) is Some ==> content is Unsigned || content is Negative || content is Float,
        content matches JsonView::Float(words) ==> whole_in(content) is Some ==> words.len() > 2
            && words[words.len() - 1] == '0' && words[words.len() - 2] == '.',
        content matches JsonView::Unsigned(m) ==> m > i64::MAX ==> whole_in(content) is None,
{
    reveal_strlit(".0");
    if content is Float && whole_in(content) is Some {
        let words = content->Float_0;
        assert(words.skip(words.len() - 2)[0] == '.' && words.skip(words.len() - 2)[1] == '0');
    }
    if n > i64::MIN {
        let size = (if n < 0 {
            -n
        } else {
            n as int
        }) as nat;
        text::law_decimal_denotes_the_number(size);
        text::law_numbers_are_read(size, i64::MAX as nat, Seq::empty());
        let words = text::signed_decimal(n as int) + ".0"@;
        assert(text::is_digit(text::decimal(size)[0]));
        assert(words.skip(words.len() - 2) =~= ".0"@);
        assert(words.take(words.len() - 2) =~= text::signed_decimal(n as int));
        if n < 0 {
            assert(text::signed_decimal(n as int).skip(1) =~= text::decimal(size));
        }
    }
}

/// What is below a name is the member of that name, wherever it stands; nothing
/// is below a name that does not occur, or in what is no object.
pub proof fn law_members_are_found_by_name(
    members: Seq<(Seq<char>, JsonView)>,
    content: JsonView,
    key: Seq<char>,
    i: int,
)
    requires
        distinct_keys(members),
        0 <= i < members.len(),
    ensures
        member_of(JsonView::Object(members), members[i].0) == Some(members[i].1),
        !has_key(members, key) ==> member_of(JsonView::Object(members), key) is None,
        !(content is Object) ==> member_of(content, key) is None,
{
    lemma_lookup_at(members, i);
    if !has_key(members, key) {
        lemma_lookup_absent(members, key);
    }
}

/// What a document is called goes by its kind, and all numbers are called so.
pub proof fn law_kinds_have_names(value: &serde_json::Value, r: &'static str)
    requires
        call_ensures(zod_type, (value,), r),
    ensures
        match json_content(*value) {
            JsonView::Null => r@ == "null"@,
            JsonView::Bool(_) => r@ == "boolean"@,
            JsonView::Text(_) => r@ == "string"@,
            JsonView::List(_) => r@ == "array"@,
            JsonView::Object(_) => r@ == "object"@,
            _ => r@ == "number"@,
        },
        r@ == kind_name(Some(json_content(*value))),
        kind_name(None) == "undefined"@,
{
}

} // verus!
