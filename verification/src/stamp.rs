//! Points in time without a time zone, read and written by `chrono`.

use vstd::prelude::*;

verus! {

/// A point in time: whole seconds since 1970-01-01 00:00:00, and the
/// nanoseconds since the last whole second, which in a leap second go beyond
/// 999,999,999.
#[derive(Clone, Copy, Debug, PartialEq, Eq, Structural)]
pub struct Timestamp {
    pub seconds: i64,
    pub nanos: u32,
}

/// What `chrono::NaiveDateTime::parse_from_str` makes of `text` under
/// `pattern`: the seconds and nanoseconds of the date and time read, or `None`
/// where it reports an error.
pub uninterp spec fn datetime_reading(text: Seq<char>, pattern: Seq<char>) -> Option<(i64, u32)>;

/// What `chrono` writes for the point in time `(seconds, nanos)` under
/// `pattern`, or `None` where `chrono` has no such point in time or cannot
/// write it with that pattern.
pub uninterp spec fn datetime_text(seconds: i64, nanos: u32, pattern: Seq<char>) -> Option<Seq<char>>;

/// The timestamp with the given seconds and nanoseconds.
pub open spec fn stamp_of(parts: Option<(i64, u32)>) -> Option<Timestamp> {
    match parts {
        Some((seconds, nanos)) => Some(Timestamp { seconds, nanos }),
        None => None,
    }
}

/// The seconds and nanoseconds of a timestamp.
pub open spec fn parts_of(stamp: Option<Timestamp>) -> Option<(i64, u32)> {
    match stamp {
        Some(t) => Some((t.seconds, t.nanos)),
        None => None,
    }
}

/// `chrono::NaiveDateTime::parse_from_str`. The date and time it reads comes
/// back as the seconds and nanoseconds that `and_utc().timestamp()` and
/// `and_utc().timestamp_subsec_nanos()` give for it; an error comes back as
/// `None`. The contract only names that result.
#[verifier::external_body]
pub(crate) fn read_datetime(text: &str, pattern: &str) -> (r: Option<Timestamp>)
    ensures
        r == stamp_of(datetime_reading(text@, pattern@)),
{
    match chrono::NaiveDateTime::parse_from_str(text, pattern) {
        Ok(moment) => Some(
            Timestamp {
                seconds: moment.and_utc().timestamp(),
                nanos: moment.and_utc().timestamp_subsec_nanos(),
            },
        ),
        Err(_) => None,
    }
}

/// `chrono::DateTime::from_timestamp`, then `NaiveDateTime::format` written
/// out with `DelayedFormat::write_to`. `None` stands for a timestamp that
/// `chrono` does not accept and for a pattern that it cannot write. The
/// contract only names that result.
#[verifier::external_body]
pub(crate) fn write_datetime(stamp: Timestamp, pattern: &str) -> (r: Option<String>)
    ensures
        r is Some <==> datetime_text(stamp.seconds, stamp.nanos, pattern@) is Some,
        r is Some ==> r->0@ == datetime_text(stamp.seconds, stamp.nanos, pattern@)->0,
{
    let moment = chrono::DateTime::from_timestamp(stamp.seconds, stamp.nanos)?;
    let mut text = String::new();
    match moment.naive_utc().format(pattern).write_to(&mut text) {
        Ok(()) => Some(text),
        Err(_) => None,
    }
}

} // verus!
