//! Parsing of human-written durations such as `10m`, `2h`, `1d`.

use crate::errors::{BBError, BBResult, InvalidReason};
use crate::text::{all_digits, digits_val, parse_digits, trim, trim_spec};
use vstd::prelude::*;

verus! {

/// The number of seconds one unit letter stands for, if it is a valid unit.
pub open spec fn unit_seconds(c: char) -> Option<int> {
    if c == 's' {
        Some(1)
    } else if c == 'm' {
        Some(60)
    } else if c == 'h' {
        Some(3600)
    } else if c == 'd' {
        Some(86400)
    } else if c == 'w' {
        Some(604800)
    } else {
        None
    }
}

/// What parsing a duration yields: the trimmed input must be a nonempty run
/// of ASCII digits followed by one unit letter (`s`, `m`, `h`, `d`, `w`);
/// the result is the total in seconds. A number that does not fit, or whose
/// total in seconds does not fit a 64-bit integer, is rejected as a bad
/// number.
pub open spec fn parse_duration_spec(s: Seq<char>) -> BBResult<i64> {
    let t = trim_spec(s);
    if t.len() == 0 {
        Err(BBError::InvalidInput(InvalidReason::DurationEmpty))
    } else {
        let num = t.take(t.len() - 1);
        let unit = t.last();
        if !(num.len() > 0 && all_digits(num) && digits_val(num) <= i64::MAX) {
            Err(BBError::InvalidInput(InvalidReason::DurationBadNumber))
        } else {
            match unit_seconds(unit) {
                None => Err(BBError::InvalidInput(InvalidReason::DurationBadUnit)),
                Some(mult) => {
                    if digits_val(num) * mult > i64::MAX {
                        Err(BBError::InvalidInput(InvalidReason::DurationBadNumber))
                    } else {
                        Ok((digits_val(num) * mult) as i64)
                    }
                },
            }
        }
    }
}

/// Parses a duration string into a number of seconds.
pub fn parse_duration(s: &str) -> (r: BBResult<i64>)
    ensures
        r == parse_duration_spec(s@),
{
    let t = trim(s);
    let tlen = t.unicode_len();
    if tlen == 0 {
        return Err(BBError::InvalidInput(InvalidReason::DurationEmpty));
    }
    let num_part = t.substring_char(0, tlen - 1);
    let unit = t.get_char(tlen - 1);
    proof {
        assert(num_part@ =~= trim_spec(s@).take(trim_spec(s@).len() - 1));
        assert(unit == trim_spec(s@).last());
    }
    let num: i64 = match parse_digits(num_part) {
        Some(v) => v,
        None => {
            return Err(BBError::InvalidInput(InvalidReason::DurationBadNumber));
        },
    };
    let mult: i64 = match unit {
        's' => 1,
        'm' => 60,
        'h' => 3600,
        'd' => 86400,
        'w' => 604800,
        _ => {
            return Err(BBError::InvalidInput(InvalidReason::DurationBadUnit));
        },
    };
    let total: i128 = (num as i128) * (mult as i128);
    if total > i64::MAX as i128 {
        Err(BBError::InvalidInput(InvalidReason::DurationBadNumber))
    } else {
        Ok(total as i64)
    }
}

/// Validates a duration string, as [`parse_duration`] does.
pub fn validate_duration(s: &str) -> (r: BBResult<i64>)
    ensures
        r == parse_duration_spec(s@),
{
    parse_duration(s)
}

} // verus!
