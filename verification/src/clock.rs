//! Instants and RFC 3339 timestamps, computed by chrono.
//!
//! An instant is a pair: the seconds since 1970-01-01T00:00:00Z, and the
//! nanoseconds within the second, from 10^9 on inside a leap second.

use chrono::{DateTime, FixedOffset, Local, TimeZone, Utc};
use vstd::prelude::*;

verus! {

/// The earliest second that a timestamp can hold, -262143-01-01T00:00:00Z.
pub const FIRST_SECOND: i64 = -8_334_601_228_800;

/// The latest second that a timestamp can hold, 262142-12-31T23:59:59Z.
pub const LAST_SECOND: i64 = 8_210_266_876_799;

/// Whether the pair is an instant: within the calendar's range, and inside a leap
/// second only at the end of a minute.
pub open spec fn valid_instant(i: (i64, u32)) -> bool {
    &&& FIRST_SECOND <= i.0 <= LAST_SECOND
    &&& i.1 < 2_000_000_000
    &&& i.1 >= 1_000_000_000 ==> i.0 as int % 60 == 59
}

/// The instant that an RFC 3339 text stands for, if it is one.
pub uninterp spec fn rfc3339_instant(text: Seq<char>) -> Option<(i64, u32)>;

/// The RFC 3339 text of an instant, with an offset from UTC in seconds.
pub uninterp spec fn rfc3339_text(instant: (i64, u32), offset: i32) -> Seq<char>;

/// The text of an instant, with an offset from UTC in seconds, in a pattern.
pub uninterp spec fn patterned_text(instant: (i64, u32), offset: i32, pattern: Seq<char>) -> Seq<
    char,
>;

/// Whether a time zone can be so many seconds off UTC: less than a day.
pub open spec fn valid_offset(offset: i32) -> bool {
    -86_400 < offset < 86_400
}

/// Whether the text of an instant with an offset holds both exactly: the offset
/// is a number of minutes, the year at that offset is one of 0 to 9999, and the
/// instant is inside no leap second.
pub open spec fn writes_exactly(instant: (i64, u32), offset: i32) -> bool {
    &&& offset as int % 60 == 0
    &&& -62_167_219_200 <= instant.0 + offset <= 253_402_300_799
    &&& instant.1 < 1_000_000_000
}

/// The second to add to or take from the difference of two instants where a leap
/// second, which the seconds do not count, lies between their times of day.
pub open spec fn leap_adjustment(a: (i64, u32), b: (i64, u32)) -> int {
    let time_a = a.0 as int % 86_400;
    let time_b = b.0 as int % 86_400;
    if time_a > time_b && b.1 >= 1_000_000_000 {
        1
    } else if time_a < time_b && a.1 >= 1_000_000_000 {
        -1
    } else {
        0
    }
}

/// The whole seconds from `b` to `a`, a fraction being dropped toward zero.
pub open spec fn whole_seconds(a: (i64, u32), b: (i64, u32)) -> int {
    let nanos = (a.0 - b.0 + leap_adjustment(a, b)) * 1_000_000_000 + a.1 - b.1;
    if nanos < 0 {
        -((-nanos) / 1_000_000_000)
    } else {
        nanos / 1_000_000_000
    }
}

/// chrono's `DateTime::<Utc>::from_str`, taken apart by `timestamp` and
/// `timestamp_subsec_nanos`: which instant a text stands for is a function of the
/// text, and it is within chrono's range.
#[verifier::external_body]
pub(crate) fn parse_instant(text: &str) -> (r: Option<(i64, u32)>)
    ensures
        r == rfc3339_instant(text@),
        r matches Some(i) ==> valid_instant(i),
{
    text.parse::<DateTime<Utc>>().ok().map(|t| (t.timestamp(), t.timestamp_subsec_nanos()))
}

/// chrono's `DateTime::signed_duration_since`, in whole seconds by
/// `TimeDelta::num_seconds`. The pairs become chrono's instants by
/// `DateTime::from_timestamp`, which accepts every valid one.
#[verifier::external_body]
fn seconds_between(a: (i64, u32), b: (i64, u32)) -> (seconds: i64)
    requires
        valid_instant(a),
        valid_instant(b),
    ensures
        seconds == whole_seconds(a, b),
{
    let later: DateTime<Utc> = DateTime::from_timestamp(a.0, a.1).unwrap();
    let earlier: DateTime<Utc> = DateTime::from_timestamp(b.0, b.1).unwrap();
    later.signed_duration_since(earlier).num_seconds()
}

/// chrono's `Utc.timestamp_millis_opt`: the instant that many milliseconds after
/// 1970, if it is within chrono's range.
#[verifier::external_body]
fn instant_of_millis(ms: i64) -> (r: Option<(i64, u32)>)
    ensures
        r is Some <==> FIRST_SECOND * 1000 <= ms <= LAST_SECOND * 1000 + 999,
        r matches Some(i) ==> i.0 == ms as int / 1000 && i.1 == ms as int % 1000 * 1_000_000,
{
    Utc.timestamp_millis_opt(ms).single().map(|t| (t.timestamp(), t.timestamp_subsec_nanos()))
}

/// chrono's `DateTime::to_rfc3339`, at an offset that `FixedOffset::east_opt`
/// accepts: the text is a function of the instant and the offset, and where it
/// holds both exactly, reading it gives the instant back.
#[verifier::external_body]
fn instant_to_rfc3339(instant: (i64, u32), offset: i32) -> (text: String)
    requires
        valid_instant(instant),
        valid_offset(offset),
    ensures
        text@ == rfc3339_text(instant, offset),
        writes_exactly(instant, offset) ==> rfc3339_instant(text@) == Some(instant),
{
    let t: DateTime<Utc> = DateTime::from_timestamp(instant.0, instant.1).unwrap();
    t.with_timezone(&FixedOffset::east_opt(offset).unwrap()).to_rfc3339()
}

/// chrono's `DateTime::format`, written out by `to_string`, at an offset that
/// `FixedOffset::east_opt` accepts: the text is a function of the instant, the
/// offset and the pattern. Only one pattern is used, as writing fails where
/// chrono does not know a part of it.
#[verifier::external_body]
fn instant_to_pattern(instant: (i64, u32), offset: i32, pattern: &str) -> (text: String)
    requires
        valid_instant(instant),
        valid_offset(offset),
        pattern@ == "%Y-%m-%d %H:%M:%S"@,
    ensures
        text@ == patterned_text(instant, offset, pattern@),
{
    let t: DateTime<Utc> = DateTime::from_timestamp(instant.0, instant.1).unwrap();
    t.with_timezone(&FixedOffset::east_opt(offset).unwrap()).format(pattern).to_string()
}

/// chrono's `Utc::now`: the machine's clock, at some instant.
#[verifier::external_body]
fn utc_now() -> (now: (i64, u32))
    ensures
        valid_instant(now),
{
    let t = Utc::now();
    (t.timestamp(), t.timestamp_subsec_nanos())
}

/// chrono's `Local::now`, taken apart: the machine's clock, at some instant, and
/// the offset of the machine's time zone.
#[verifier::external_body]
fn local_clock() -> (r: ((i64, u32), i32))
    ensures
        valid_instant(r.0),
        valid_offset(r.1),
{
    let t = Local::now();
    ((t.timestamp(), t.timestamp_subsec_nanos()), t.offset().local_minus_utc())
}

/// Whether a text is the timestamp of an instant in a time zone. Where the zone is
/// a number of minutes off UTC, as zones are, it reads back as that instant.
pub open spec fn is_stamp_of(text: Seq<char>, instant: (i64, u32), offset: i32) -> bool {
    &&& valid_instant(instant)
    &&& valid_offset(offset)
    &&& text == rfc3339_text(instant, offset)
    &&& writes_exactly(instant, offset) ==> rfc3339_instant(text) == Some(instant)
}

/// Whether a text is the timestamp of some instant in some time zone.
pub open spec fn is_stamp(text: Seq<char>) -> bool {
    exists|instant: (i64, u32), offset: i32| #[trigger] is_stamp_of(text, instant, offset)
}

/// Whether a text is a timestamp, and `plain` the date and the time of day at the
/// same instant and in the same time zone.
pub open spec fn are_stamps(text: Seq<char>, plain: Seq<char>) -> bool {
    exists|instant: (i64, u32), offset: i32| #[trigger]
        is_stamp_of(text, instant, offset) && plain == patterned_text(
            instant,
            offset,
            "%Y-%m-%d %H:%M:%S"@,
        )
}

/// The local time as an RFC 3339 timestamp.
pub(crate) fn local_now() -> (text: String)
    ensures
        is_stamp(text@),
{
    let (instant, offset) = local_clock();
    let text = instant_to_rfc3339(instant, offset);
    assert(is_stamp_of(text@, instant, offset));
    text
}

/// The local time as an RFC 3339 timestamp, and as date and time of day, as in
/// "2026-06-18 04:00:00".
pub(crate) fn local_stamps() -> (r: (String, String))
    ensures
        are_stamps(r.0@, r.1@),
{
    let (instant, offset) = local_clock();
    let text = instant_to_rfc3339(instant, offset);
    let plain = instant_to_pattern(instant, offset, "%Y-%m-%d %H:%M:%S");
    assert(is_stamp_of(text@, instant, offset));
    (text, plain)
}

/// The whole seconds from the timestamp `b` to the timestamp `a`, where both are
/// RFC 3339 texts.
pub open spec fn reset_delta(a: Seq<char>, b: Seq<char>) -> Option<int> {
    match (rfc3339_instant(a), rfc3339_instant(b)) {
        (Some(x), Some(y)) => Some(whole_seconds(x, y)),
        _ => None,
    }
}

/// Signed seconds between two instants (`a - b`), where both are known.
pub fn delta_seconds(a: Option<(i64, u32)>, b: Option<(i64, u32)>) -> (r: Option<i64>)
    requires
        a matches Some(x) ==> valid_instant(x),
        b matches Some(y) ==> valid_instant(y),
    ensures
        r is Some <==> a is Some && b is Some,
        r matches Some(seconds) ==> seconds == whole_seconds(a->0, b->0),
{
    match (a, b) {
        (Some(x), Some(y)) => Some(seconds_between(x, y)),
        _ => None,
    }
}

/// Signed seconds between two RFC 3339 timestamps (`a - b`). `None` if either
/// fails to parse.
pub fn reset_delta_seconds(a: &str, b: &str) -> (r: Option<i64>)
    ensures
        r is Some <==> reset_delta(a@, b@) is Some,
        r matches Some(seconds) ==> reset_delta(a@, b@) == Some(seconds as int),
        r is Some <==> rfc3339_instant(a@) is Some && rfc3339_instant(b@) is Some,
        r matches Some(seconds) ==> seconds == whole_seconds(
            rfc3339_instant(a@)->0,
            rfc3339_instant(b@)->0,
        ),
{
    delta_seconds(parse_instant(a), parse_instant(b))
}

/// Seconds from `now` until an RFC 3339 reset timestamp, negative if it is past.
pub fn seconds_until_from(resets_at: &str, now: (i64, u32)) -> (r: Option<i64>)
    requires
        valid_instant(now),
    ensures
        r is Some <==> rfc3339_instant(resets_at@) is Some,
        r matches Some(seconds) ==> seconds == whole_seconds(
            rfc3339_instant(resets_at@)->0,
            now,
        ),
{
    delta_seconds(parse_instant(resets_at), Some(now))
}

/// Seconds until an RFC 3339 reset timestamp, negative if it is already past.
/// `None` if it fails to parse.
pub fn seconds_until(resets_at: &str) -> (r: Option<i64>)
    ensures
        r is Some <==> rfc3339_instant(resets_at@) is Some,
        r matches Some(seconds) ==> exists|now: (i64, u32)|
            valid_instant(now) && seconds == #[trigger] whole_seconds(
                rfc3339_instant(resets_at@)->0,
                now,
            ),
{
    seconds_until_from(resets_at, utc_now())
}

/// The RFC 3339 text of a moment given in milliseconds since 1970, if it is
/// within the calendar's range.
pub open spec fn iso_of_millis(ms: int) -> Option<Seq<char>> {
    if FIRST_SECOND * 1000 <= ms <= LAST_SECOND * 1000 + 999 {
        Some(rfc3339_text(millis_instant(ms), 0))
    } else {
        None
    }
}

/// Epoch milliseconds to an RFC 3339 text. `None` if the moment is out of range.
/// A text of the years 0 to 9999 reads back as the same moment.
pub fn epoch_ms_to_iso(ms: i64) -> (r: Option<String>)
    ensures
        r is Some <==> iso_of_millis(ms as int) is Some,
        r matches Some(text) ==> iso_of_millis(ms as int) == Some(text@),
        -62_167_219_200_000 <= ms <= 253_402_300_799_999 ==> r is Some && rfc3339_instant(r->0@)
            == Some(millis_instant(ms as int)),
        r matches Some(text) ==> exists|i: (i64, u32)|
            is_moment(i, ms as int) && text@ == #[trigger] rfc3339_text(i, 0),
        -62_167_219_200_000 <= ms <= 253_402_300_799_999 ==> r is Some && rfc3339_instant(
            r->0@,
        ) is Some && is_moment(rfc3339_instant(r->0@)->0, ms as int),
        r is Some <==> -8_334_601_228_800_000 <= ms <= 8_210_266_876_799_999,
{
    proof {
        if FIRST_SECOND * 1000 <= ms <= LAST_SECOND * 1000 + 999 {
            law_instant_of_millis(ms as int);
        }
    }
    match instant_of_millis(ms) {
        Some(i) => Some(instant_to_rfc3339(i, 0)),
        None => None,
    }
}

/// Signed seconds count both ways alike, and a timestamp is no time away from
/// itself.
pub proof fn law_delta_is_signed(a: Seq<char>, b: Seq<char>)
    ensures
        reset_delta(a, b) is Some <==> reset_delta(b, a) is Some,
        reset_delta(a, b) matches Some(seconds) ==> reset_delta(b, a) == Some(-seconds),
        rfc3339_instant(a) is Some ==> reset_delta(a, a) == Some(0int),
{
}

/// The instant of a moment given in milliseconds since 1970.
pub open spec fn millis_instant(ms: int) -> (i64, u32) {
    ((ms / 1000) as i64, (ms % 1000 * 1_000_000) as u32)
}

/// Whether an instant is the moment so many milliseconds after 1970, in no leap
/// second.
pub open spec fn is_moment(i: (i64, u32), ms: int) -> bool {
    &&& i.0 * 1_000_000_000 + i.1 == ms * 1_000_000
    &&& i.1 < 1_000_000_000
}

/// The instant of a moment given in milliseconds is that many milliseconds after
/// 1970, to the nanosecond, and there is no other.
pub proof fn law_instant_of_millis(ms: int)
    requires
        FIRST_SECOND * 1000 <= ms <= LAST_SECOND * 1000 + 999,
    ensures
        is_moment(millis_instant(ms), ms),
        forall|i: (i64, u32)| #[trigger] is_moment(i, ms) ==> i == millis_instant(ms),
{
}

/// Two timestamps that stand for moments given in milliseconds are as far apart
/// as the moments, in whole seconds.
pub proof fn law_delta_of_millis(a: Seq<char>, b: Seq<char>, ms_a: i64, ms_b: i64)
    requires
        rfc3339_instant(a) == Some(millis_instant(ms_a as int)),
        rfc3339_instant(b) == Some(millis_instant(ms_b as int)),
    ensures
        reset_delta(a, b) == Some(
            if ms_a < ms_b {
                -((ms_b - ms_a) / 1000)
            } else {
                (ms_a - ms_b) / 1000
            },
        ),
{
    let x = millis_instant(ms_a as int);
    let y = millis_instant(ms_b as int);
    let ta = ms_a as int;
    let tb = ms_b as int;
    assert(x.0 == ta / 1000 && x.1 == ta % 1000 * 1_000_000);
    assert(y.0 == tb / 1000 && y.1 == tb % 1000 * 1_000_000);
    assert(leap_adjustment(x, y) == 0);
    let nanos = (x.0 - y.0) * 1_000_000_000 + x.1 - y.1;
    assert(nanos == (ta - tb) * 1_000_000);
    assert(whole_seconds(x, y) == if nanos < 0 {
        -((-nanos) / 1_000_000_000)
    } else {
        nanos / 1_000_000_000
    });
}

} // verus!
