//! Zoned timestamps. On the wire a timestamp is RFC 9557: date, time, offset,
//! and the time zone in brackets, without which clients refuse to read it.
//! Clock, time zone rules and text format are `jiff`'s.

use crate::call;
use vstd::prelude::*;

verus! {

/// `jiff`'s zoned timestamp, carried along with the text that it prints as.
#[verifier::external_type_specification]
#[verifier::external_body]
pub struct ExZoned(jiff::Zoned);

/// A point in time in a time zone, with its wire form and the nanoseconds that
/// it lies after the start of 1970 in UTC.
#[derive(Debug, PartialEq)]
pub struct ZonedTime {
    zoned: jiff::Zoned,
    wire: String,
    instant: i128,
}

/// The points in time that there are timestamps for, about ten thousand years
/// either way, in nanoseconds.
pub open spec fn in_range(instant: int) -> bool {
    -377_705_023_201_000_000_000 <= instant <= 253_402_207_200_999_999_999
}

/// The text ends in an annotation in brackets.
pub open spec fn bracketed(s: Seq<char>) -> bool {
    &&& s.len() > 0
    &&& s.last() == ']'
    &&& s.contains('[')
}

pub struct ZonedView {
    pub zoned: jiff::Zoned,
    pub wire: Seq<char>,
    pub instant: i128,
}

impl View for ZonedTime {
    type V = ZonedView;

    closed spec fn view(&self) -> ZonedView {
        ZonedView { zoned: self.zoned, wire: self.wire@, instant: self.instant }
    }
}

impl ZonedView {
    /// The wire form names its time zone, and the point in time is in range.
    pub open spec fn valid(self) -> bool {
        bracketed(self.wire) && in_range(self.instant as int)
    }
}

impl ZonedTime {
    #[verifier::type_invariant]
    spec fn valid(self) -> bool {
        self@.valid()
    }
}

/// `jiff::Zoned::now`: the current time in the host's time zone. It rests on
/// the clock and the machine, so nothing is said of it.
#[verifier::external_body]
fn clock() -> (r: jiff::Zoned) {
    jiff::Zoned::now()
}

/// `jiff::Zoned`'s `FromStr`: the timestamp that a text denotes, or the words
/// of the error. It rests on the machine's time zone rules, so nothing is said
/// of it.
#[verifier::external_body]
fn read(s: &str) -> (r: Result<jiff::Zoned, String>) {
    s.parse::<jiff::Zoned>().map_err(|e| e.to_string())
}

/// `jiff::Zoned`'s `Display`: RFC 9557, which always closes with the time zone
/// (or the offset that stands for it) in brackets.
#[verifier::external_body]
fn print(z: &jiff::Zoned) -> (r: String)
    ensures
        bracketed(r@),
{
    z.to_string()
}

/// `jiff::Zoned::timestamp` and `jiff::Timestamp::as_nanosecond`: the point in
/// time, which is in range.
#[verifier::external_body]
fn instant_of(z: &jiff::Zoned) -> (r: i128)
    ensures
        in_range(r as int),
{
    z.timestamp().as_nanosecond()
}

/// `jiff::Timestamp::checked_add`: the point in time so many nanoseconds later,
/// or none beyond the range of timestamps.
#[verifier::external_body]
fn moved(instant: i128, nanoseconds: i64) -> (r: Option<i128>)
    requires
        in_range(instant as int),
    ensures
        match r {
            Some(later) => later == instant + nanoseconds && in_range(later as int),
            None => !in_range(instant + nanoseconds),
        },
{
    let from = jiff::Timestamp::from_nanosecond(instant).ok()?;
    let later = from.checked_add(jiff::SignedDuration::from_nanos(nanoseconds)).ok()?;
    Some(later.as_nanosecond())
}

/// `jiff::Timestamp::to_zoned`: a point in time, in the time zone of another
/// timestamp. How it prints rests on the machine's time zone rules, so nothing
/// is said of it.
#[verifier::external_body]
fn placed(instant: i128, like: &jiff::Zoned) -> (r: jiff::Zoned)
    requires
        in_range(instant as int),
{
    jiff::Timestamp::from_nanosecond(instant).unwrap().to_zoned(like.time_zone().clone())
}

/// What reading a timestamp gave, by its views.
pub open spec fn reading_view(reading: Result<ZonedTime, String>) -> Result<ZonedView, Seq<char>> {
    match reading {
        Ok(at) => Ok(at@),
        Err(words) => Err(words@),
    }
}

/// The wire form is what the timestamp prints as.
spec fn printed(v: ZonedView) -> bool {
    exists|text: String| text@ == v.wire && #[trigger] call_ensures(print, (&v.zoned,), text)
}

/// Wire form and point in time are those of the timestamp.
spec fn stamps(v: ZonedView) -> bool {
    printed(v) && call_ensures(instant_of, (&v.zoned,), v.instant)
}

/// Reading this text may come to this: the timestamp that was read, with its
/// own wire form and point in time, or the words of the error.
pub closed spec fn may_read(text: Seq<char>, outcome: Result<ZonedView, Seq<char>>) -> bool {
    exists|t: &str, reading: Result<jiff::Zoned, String>|
        t@ == text && #[trigger] call_ensures(read, (t,), reading) && match (reading, outcome) {
            (Ok(zoned), Ok(v)) => v.zoned == zoned && stamps(v),
            (Err(words), Err(said)) => words@ == said,
            _ => false,
        }
}

/// A timestamp may stand for a point in time, in the time zone of another one.
pub closed spec fn may_show(v: ZonedView, instant: int, like: ZonedView) -> bool {
    &&& v.instant == instant
    &&& printed(v)
    &&& call_ensures(placed, (v.instant, &like.zoned), v.zoned)
}

/// A timestamp that the clock may have given.
pub closed spec fn may_be_now(v: ZonedView) -> bool {
    stamps(v) && call_ensures(clock, (), v.zoned)
}

fn stamped(zoned: jiff::Zoned) -> (r: ZonedTime)
    ensures
        r@.zoned == zoned,
        r@.valid(),
        stamps(r@),
{
    let wire = call::ask_of(print, &zoned);
    assert(call_ensures(print, (&zoned,), wire));
    let instant: i128 = call::ask_of(instant_of, &zoned);
    ZonedTime { zoned, wire, instant }
}

/// Now, in the host's time zone.
pub fn now_zoned() -> (r: ZonedTime)
    ensures
        may_be_now(r@),
        r@.valid(),
{
    stamped(call::ask(clock))
}

/// The wire form, which always names the time zone.
pub fn to_wire(z: &ZonedTime) -> (r: String)
    ensures
        r@ == z@.wire,
        bracketed(r@),
{
    proof {
        use_type_invariant(z);
    }
    z.wire.clone()
}

/// Reads a wire form, or says in words why it is none.
pub fn parse_wire(s: &str) -> (r: Result<ZonedTime, String>)
    ensures
        may_read(s@, reading_view(r)),
        r matches Ok(z) ==> z@.valid(),
{
    let reading = call::ask_of(read, s);
    let ghost said = reading;
    let r = match reading {
        Ok(zoned) => Ok(stamped(zoned)),
        Err(words) => Err(words),
    };
    assert(call_ensures(read, (s,), said));
    r
}

/// The time so many nanoseconds later in the same time zone, for scheduling;
/// none beyond the range of timestamps.
pub fn plus_seconds(z: &ZonedTime, nanoseconds: i64) -> (r: Option<ZonedTime>)
    ensures
        r is Some <==> in_range(z@.instant + nanoseconds),
        r matches Some(later) ==> later@.valid() && may_show(
            later@,
            z@.instant + nanoseconds,
            z@,
        ) && later@.instant == z@.instant + nanoseconds,
{
    proof {
        use_type_invariant(z);
    }
    match moved(z.instant, nanoseconds) {
        Some(instant) => {
            let zoned = call::ask_of_both(placed, instant, &z.zoned);
            let wire = call::ask_of(print, &zoned);
            let later = ZonedTime { zoned, wire, instant };
            assert(later@.zoned == zoned && later@.wire == wire@);
            assert(call_ensures(print, (&later@.zoned,), wire));
            Some(later)
        },
        None => None,
    }
}

// Laws.
/// So many nanoseconds later is that much later, in the time zone of before,
/// as long as there is a timestamp for it; the wire form always names a time
/// zone.
pub proof fn law_later_is_later_by_as_much(
    z: &ZonedTime,
    nanoseconds: i64,
    r: Option<ZonedTime>,
    wire: String,
)
    requires
        call_ensures(plus_seconds, (z, nanoseconds), r),
        call_ensures(to_wire, (z,), wire),
    ensures
        r is Some <==> in_range(z@.instant + nanoseconds),
        r matches Some(later) ==> later@.instant - z@.instant == nanoseconds,
        wire@ == z@.wire,
        wire@.len() > 0 && wire@.last() == ']',
{
}

} // verus!
