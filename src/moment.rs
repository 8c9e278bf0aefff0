//! Points in time, held as seconds since the Unix epoch and nanoseconds within
//! the second, and the calls into chrono that read the clock, shift a point in
//! time and write one out.
use chrono::{DateTime, TimeDelta, Utc};
use vstd::prelude::*;

verus! {

/// The earliest Unix timestamp that chrono can represent (January 1 of year -262143, UTC).
pub const MIN_TIMESTAMP: i64 = -8334601228800;

/// The latest Unix timestamp that chrono can represent (December 31 of year 262142, 23:59:59 UTC).
pub const MAX_TIMESTAMP: i64 = 8210266876799;

pub const NANOS_PER_SECOND: u32 = 1_000_000_000;

/// A point in time in UTC: whole seconds since 1970-01-01T00:00:00 and the
/// nanoseconds past that second.
#[derive(Clone, Copy, Debug, PartialEq, Eq, Structural)]
pub struct Moment {
    pub secs: i64,
    pub nanos: u32,
}

/// A timestamp that chrono accepts.
pub open spec fn timestamp_in_range(secs: int) -> bool {
    MIN_TIMESTAMP <= secs <= MAX_TIMESTAMP
}

/// The text that chrono writes for a timestamp with the pattern
/// `%a, %-d %b %Y %H:%M:%S %z`, such as `Tue, 1 Jul 2003 10:52:37 +0000`.
pub uninterp spec fn calendar_text(secs: int) -> Seq<char>;

impl Moment {
    /// Within chrono's range, and no leap second.
    pub open spec fn wf(self) -> bool {
        &&& timestamp_in_range(self.secs as int)
        &&& self.nanos < NANOS_PER_SECOND
    }

    /// `self` is at or before `other`.
    pub open spec fn spec_le(self, other: Moment) -> bool {
        self.secs < other.secs || (self.secs == other.secs && self.nanos <= other.nanos)
    }

    /// The moment `delta` seconds later (earlier, where `delta` is negative).
    pub open spec fn plus_seconds(self, delta: int) -> Moment
        recommends
            timestamp_in_range(self.secs + delta),
    {
        Moment { secs: (self.secs + delta) as i64, nanos: self.nanos }
    }

    /// The whole second given by a Unix timestamp.
    pub fn from_timestamp(secs: i64) -> (r: Moment)
        ensures
            r == (Moment { secs, nanos: 0 }),
    {
        Moment { secs, nanos: 0 }
    }

    /// `self` is at or before `other`.
    pub fn le(&self, other: &Moment) -> (r: bool)
        ensures
            r == self.spec_le(*other),
    {
        self.secs < other.secs || (self.secs == other.secs && self.nanos <= other.nanos)
    }
}

/// Relies on chrono's `Utc::now` (read back with `timestamp` and
/// `timestamp_subsec_nanos`): it builds the current time with
/// `DateTime::from_timestamp` from the system time since the epoch, so the
/// result is in chrono's range and its nanoseconds, from
/// `Duration::subsec_nanos`, are below one second. It panics on a clock set
/// before 1970.
#[verifier::external_body]
pub fn utc_now() -> (r: Moment)
    ensures
        r.wf(),
{
    let t = Utc::now();
    Moment { secs: t.timestamp(), nanos: t.timestamp_subsec_nanos() }
}

/// Relies on chrono's `DateTime::from_timestamp`, which is `None` exactly outside
/// `MIN_TIMESTAMP..=MAX_TIMESTAMP` for a whole second.
#[verifier::external_body]
pub fn timestamp_is_valid(secs: i64) -> (r: bool)
    ensures
        r == timestamp_in_range(secs as int),
{
    DateTime::from_timestamp(secs, 0).is_some()
}

/// Relies on chrono's `TimeDelta::try_seconds` and `DateTime::checked_add_signed`
/// (with `DateTime::from_timestamp` to build the start, which succeeds for a
/// well-formed moment): outside a leap second, adding whole seconds keeps the
/// nanoseconds and fails exactly where the result leaves chrono's range, or
/// where the delta is beyond `i64::MAX / 1000` seconds, far past that range.
#[verifier::external_body]
pub fn shift_seconds(at: Moment, delta: i64) -> (r: Option<Moment>)
    requires
        at.wf(),
    ensures
        r is Some <==> timestamp_in_range(at.secs + delta),
        r is Some ==> r->0 == at.plus_seconds(delta as int),
{
    let start = DateTime::from_timestamp(at.secs, at.nanos)?;
    let t = start.checked_add_signed(TimeDelta::try_seconds(delta)?)?;
    Some(Moment { secs: t.timestamp(), nanos: t.timestamp_subsec_nanos() })
}

/// Relies on chrono's `DateTime::format` (on the value that
/// `DateTime::from_timestamp` builds, which exists in this range): a
/// `DateTime<Utc>` gives every item of this pattern its value, so the text is
/// written without error for every year (with a sign outside 0 to 9999), in
/// chrono's fixed English names, and depends on the timestamp alone.
#[verifier::external_body]
pub fn render_calendar(secs: i64) -> (r: String)
    requires
        timestamp_in_range(secs as int),
    ensures
        r@ == calendar_text(secs as int),
{
    DateTime::from_timestamp(secs, 0)
        .expect("timestamp within chrono's range")
        .format("%a, %-d %b %Y %H:%M:%S %z")
        .to_string()
}

} // verus!
