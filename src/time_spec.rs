//! Relative time specifications such as `"5 minutes"`, resolved against a
//! given moment.
use crate::moment::{shift_seconds, timestamp_in_range, utc_now, Moment};
use crate::text::{
    i64_value, lowercase_of, parse_i64, prefix_equals, split_tokens, string_views, to_lowercase,
    tokens,
};
use vstd::prelude::*;
use vstd::string::*;

verus! {

/// Why a time specification was refused.
#[derive(Clone, Copy, Debug, PartialEq, Eq, Structural)]
pub enum TimeSpecError {
    /// Not exactly two white-space separated tokens.
    FormatError,
    /// The amount is not a decimal `i64`.
    NumberError,
    /// The unit is none of second, minute and hour.
    UnsupportedUnitError,
    /// The resulting point in time lies outside the representable range.
    OutOfRangeError,
}

impl TimeSpecError {
    /// A human-readable description of the error.
    pub fn message(&self) -> (r: &'static str)
        ensures
            *self == TimeSpecError::FormatError ==> r@
                == "Invalid time format. Use 'amount unit', e.g., '1 minute'"@,
            *self == TimeSpecError::NumberError ==> r@ == "Invalid number"@,
            *self == TimeSpecError::UnsupportedUnitError ==> r@
                == "Unsupported unit. Use seconds, minutes, or hours."@,
            *self == TimeSpecError::OutOfRangeError ==> r@ == "The resulting time is out of range"@,
    {
        match self {
            TimeSpecError::FormatError => "Invalid time format. Use 'amount unit', e.g., '1 minute'",
            TimeSpecError::NumberError => "Invalid number",
            TimeSpecError::UnsupportedUnitError => "Unsupported unit. Use seconds, minutes, or hours.",
            TimeSpecError::OutOfRangeError => "The resulting time is out of range",
        }
    }
}

/// A unit word with one trailing `s` taken off.
pub open spec fn singular(u: Seq<char>) -> Seq<char> {
    if u.len() > 0 && u.last() == 's' {
        u.drop_last()
    } else {
        u
    }
}

/// How many seconds a singular unit word stands for.
pub open spec fn base_unit_seconds(w: Seq<char>) -> Option<i64> {
    if w == "second"@ {
        Some(1)
    } else if w == "minute"@ {
        Some(60)
    } else if w == "hour"@ {
        Some(3600)
    } else {
        None
    }
}

/// How many seconds a (lowercase) unit word stands for.
pub open spec fn unit_seconds(u: Seq<char>) -> Option<i64> {
    base_unit_seconds(singular(u))
}

/// What `parse_time_at` gives for the text `s` at the moment `now`.
pub open spec fn time_spec_result(s: Seq<char>, now: Moment) -> Result<Moment, TimeSpecError> {
    let toks = tokens(s);
    if toks.len() != 2 {
        Err(TimeSpecError::FormatError)
    } else {
        match i64_value(toks[0]) {
            None => Err(TimeSpecError::NumberError),
            Some(n) => match unit_seconds(lowercase_of(toks[1])) {
                None => Err(TimeSpecError::UnsupportedUnitError),
                Some(k) => if timestamp_in_range(now.secs + n * k) {
                    Ok(now.plus_seconds(n * k))
                } else {
                    Err(TimeSpecError::OutOfRangeError)
                },
            },
        }
    }
}

/// The number of seconds in a lowercase unit word: `second`, `minute` or
/// `hour`, each with or without one trailing `s`.
pub fn unit_length(unit: &str) -> (r: Option<i64>)
    ensures
        r == unit_seconds(unit@),
{
    let n = unit.unicode_len();
    let end: usize = if n > 0 && unit.get_char(n - 1) == 's' { n - 1 } else { n };
    assert(singular(unit@) == unit@.subrange(0, end as int));
    if prefix_equals(unit, end, "second") {
        Some(1)
    } else if prefix_equals(unit, end, "minute") {
        Some(60)
    } else if prefix_equals(unit, end, "hour") {
        Some(3600)
    } else {
        None
    }
}

/// Resolves `"<amount> <unit>"` to the point in time `amount` units after `now`
/// (before it, for a negative amount). The unit is read without regard to case
/// and with one trailing `s` dropped.
pub fn parse_time_at(time_str: &str, now: Moment) -> (r: Result<Moment, TimeSpecError>)
    requires
        now.wf(),
    ensures
        r == time_spec_result(time_str@, now),
{
    let toks = split_tokens(time_str);
    assert(string_views(toks@).len() == toks@.len());
    if toks.len() != 2 {
        return Err(TimeSpecError::FormatError);
    }
    assert(string_views(toks@)[0] == toks@[0]@);
    assert(string_views(toks@)[1] == toks@[1]@);
    let amount = match parse_i64(toks[0].as_str()) {
        Some(a) => a,
        None => return Err(TimeSpecError::NumberError),
    };
    let lowered = to_lowercase(toks[1].as_str());
    let k = match unit_length(lowered.as_str()) {
        Some(k) => k,
        None => return Err(TimeSpecError::UnsupportedUnitError),
    };
    let delta = match amount.checked_mul(k) {
        Some(d) => d,
        None => return Err(TimeSpecError::OutOfRangeError),
    };
    match shift_seconds(now, delta) {
        Some(m) => Ok(m),
        None => Err(TimeSpecError::OutOfRangeError),
    }
}

/// Resolves `"<amount> <unit>"` against the current time, read once.
pub fn parse_time(time_str: &str) -> (r: Result<Moment, TimeSpecError>)
    ensures
        exists|now: Moment| now.wf() && r == time_spec_result(time_str@, now),
{
    let now = utc_now();
    parse_time_at(time_str, now)
}

/// A specification of an integer amount and the unit `second`, `minute` or
/// `hour`, in any case and with or without a plural `s`, resolves to `now`
/// moved by that many units, wherever the result is representable.
pub proof fn law_valid_spec_resolves(s: Seq<char>, now: Moment, n: i64, w: Seq<char>, k: i64)
    requires
        tokens(s).len() == 2,
        i64_value(tokens(s)[0]) == Some(n),
        base_unit_seconds(w) == Some(k),
        lowercase_of(tokens(s)[1]) == w || lowercase_of(tokens(s)[1]) == w + "s"@,
        timestamp_in_range(now.secs + n * k),
    ensures
        time_spec_result(s, now) == Ok::<Moment, TimeSpecError>(now.plus_seconds(n * k)),
{
    reveal_strlit("second");
    reveal_strlit("minute");
    reveal_strlit("hour");
    reveal_strlit("s");
    assert(w.len() > 0 && w.last() != 's');
    assert((w + "s"@).drop_last() =~= w);
    assert(singular(w) == w);
    assert(singular(w + "s"@) == w);
}

/// A specification that is not exactly two white-space separated tokens is
/// refused with `FormatError`.
pub proof fn law_token_count(s: Seq<char>, now: Moment)
    requires
        tokens(s).len() != 2,
    ensures
        time_spec_result(s, now) == Err::<Moment, TimeSpecError>(TimeSpecError::FormatError),
{
}

/// A specification with a valid amount and a unit that, lowercased and with
/// one trailing `s` dropped, is none of `second`, `minute` and `hour`, is
/// refused with `UnsupportedUnitError`.
pub proof fn law_unknown_unit(s: Seq<char>, now: Moment)
    requires
        tokens(s).len() == 2,
        i64_value(tokens(s)[0]) is Some,
        base_unit_seconds(singular(lowercase_of(tokens(s)[1]))) is None,
    ensures
        time_spec_result(s, now) == Err::<Moment, TimeSpecError>(
            TimeSpecError::UnsupportedUnitError,
        ),
{
}

} // verus!
