//! The calendar-aware time parser. Wikibase writes instants as
//! `[+-]YYYY[-MM[-DD]][THH:MM:SS...]Z`, with years far outside what common
//! calendar libraries accept, so the proleptic Gregorian calendar is carried
//! here directly, extended to arbitrary years in astronomical numbering
//! (year 0 exists; the leading sign is the era).

use vstd::prelude::*;

use crate::entity::EntityError;
use crate::strutil::{
    chars_of, lemma_split_len, lemma_vecvec_char_deep_view, parse_uint, spec_parse_uint,
    spec_split, split_char, subvec_chars, uint_body,
};

verus! {

/// A UTC instant in the proleptic Gregorian calendar.
#[derive(Debug, Copy, Clone, PartialEq, Eq, Hash, PartialOrd, Ord, Structural)]
pub struct UtcDateTime {
    /// The astronomical year: 0 is 1 BCE, negative years are earlier.
    pub year: i64,
    /// The month, 1 to 12.
    pub month: u8,
    /// The day of the month, 1 to the month's length.
    pub day: u8,
    /// The hour, 0 to 23.
    pub hour: u8,
    /// The minute, 0 to 59.
    pub minute: u8,
    /// The second, 0 to 59.
    pub second: u8,
}

impl DeepView for UtcDateTime {
    type V = UtcDateTime;

    open spec fn deep_view(&self) -> UtcDateTime {
        *self
    }
}

/// A leap year: divisible by four, except century years not divisible by
/// four hundred.
pub open spec fn is_leap_year(y: int) -> bool {
    (y % 4 == 0 && y % 100 != 0) || y % 400 == 0
}

/// How many days the month has in the proleptic Gregorian calendar.
pub open spec fn days_in_month(y: int, m: int) -> int {
    if m == 2 {
        if is_leap_year(y) {
            29
        } else {
            28
        }
    } else if m == 4 || m == 6 || m == 9 || m == 11 {
        30
    } else {
        31
    }
}

/// Does the year, month and day name exactly one date of the calendar?
pub open spec fn valid_ymd(y: int, m: int, d: int) -> bool {
    1 <= m <= 12 && 1 <= d <= days_in_month(y, m)
}

impl UtcDateTime {
    /// The instant lies on the calendar and the clock.
    pub open spec fn wf(&self) -> bool {
        valid_ymd(self.year as int, self.month as int, self.day as int) && self.hour < 24
            && self.minute < 60 && self.second < 60
    }
}

/// The year denoted by a magnitude and an era flag.
pub open spec fn spec_year(ymag: u64, bce: bool) -> int {
    if bce {
        -(ymag as int)
    } else {
        ymag as int
    }
}

/// A number and its negation are divisible by the same divisors.
proof fn lemma_neg_divisibility(m: int, d: int)
    requires
        d > 0,
    ensures
        (m % d == 0) <==> ((-m) % d == 0),
{
    if m % d == 0 {
        vstd::arithmetic::div_mod::lemma_fundamental_div_mod(m, d);
        vstd::arithmetic::mul::lemma_mul_is_commutative(d, m / d);
        vstd::arithmetic::mul::lemma_mul_unary_negation(m / d, d);
        assert(-m == (-(m / d)) * d);
        vstd::arithmetic::div_mod::lemma_mod_multiples_basic(-(m / d), d);
    }
    if (-m) % d == 0 {
        vstd::arithmetic::div_mod::lemma_fundamental_div_mod(-m, d);
        vstd::arithmetic::mul::lemma_mul_is_commutative(d, (-m) / d);
        vstd::arithmetic::mul::lemma_mul_unary_negation((-m) / d, d);
        assert(m == (-((-m) / d)) * d);
        vstd::arithmetic::div_mod::lemma_mod_multiples_basic(-((-m) / d), d);
    }
}

/// Is the year of the given magnitude and era a leap year?
#[verifier::rlimit(60)]
fn is_leap_exec(ymag: u64, bce: bool) -> (r: bool)
    ensures
        r == is_leap_year(spec_year(ymag, bce)),
{
    let r = ymag % 4 == 0 && (ymag % 100 != 0 || ymag % 400 == 0);
    proof {
        if bce {
            lemma_neg_divisibility(ymag as int, 4);
            lemma_neg_divisibility(ymag as int, 100);
            lemma_neg_divisibility(ymag as int, 400);
        }
    }
    r
}

/// The length of the month of the given year.
fn days_in_month_exec(ymag: u64, bce: bool, m: u32) -> (r: u32)
    requires
        1 <= m <= 12,
    ensures
        r as int == days_in_month(spec_year(ymag, bce), m as int),
{
    if m == 2 {
        if is_leap_exec(ymag, bce) {
            29
        } else {
            28
        }
    } else if m == 4 || m == 6 || m == 9 || m == 11 {
        30
    } else {
        31
    }
}

// ---------------------------------------------------------------------------
// The parse, in specification form
// ---------------------------------------------------------------------------

/// How a month or day segment reads: `0`, or anything that is not a plain
/// unsigned number, counts as "unspecified".
pub open spec fn spec_opt_field(p: Seq<char>) -> Option<int> {
    match spec_parse_uint(p, u32::MAX as nat) {
        Some(v) => if v == 0 {
            None
        } else {
            Some(v as int)
        },
        None => None,
    }
}

/// What the time-of-day segments after `T` yield: hour and minute are
/// required; the second is read from the first two characters of the third
/// segment. Without a `T` segment the time is midnight.
pub open spec fn spec_time_of_day(time_parts: Seq<Seq<char>>) -> Result<
    (int, int, int),
    EntityError,
> {
    if time_parts.len() != 2 {
        Ok((0, 0, 0))
    } else {
        let colon = spec_split(time_parts[1], ':');
        match spec_parse_uint(colon[0], u32::MAX as nat) {
            None => Err(EntityError::FloatParse),
            Some(h) => if colon.len() < 2 {
                Err(EntityError::MissingMinute)
            } else {
                match spec_parse_uint(colon[1], u32::MAX as nat) {
                    None => Err(EntityError::FloatParse),
                    Some(mi) => if colon.len() < 3 {
                        Err(EntityError::MissingSecond)
                    } else if colon[2].len() < 2 {
                        Err(EntityError::FloatParse)
                    } else {
                        match spec_parse_uint(colon[2].take(2), u32::MAX as nat) {
                            None => Err(EntityError::FloatParse),
                            Some(sec) => Ok((h as int, mi as int, sec as int)),
                        }
                    },
                }
            },
        }
    }
}

/// What parsing a Wikibase time string yields. The sign is the era; the
/// year's digits are read to an `i64`'s width; month and day default to 1
/// where unspecified; the date must lie on the proleptic Gregorian calendar
/// and the time of day on the clock.
pub open spec fn spec_parse_wb_time(s: Seq<char>) -> Result<UtcDateTime, EntityError> {
    if s.len() == 0 {
        Err(EntityError::TimeEmpty)
    } else {
        let is_ce = s[0] == '+';
        let rest = s.drop_first();
        let time_parts = spec_split(rest, 'T');
        let dash_parts = spec_split(time_parts[0], '-');
        match spec_parse_uint(dash_parts[0], i64::MAX as nat) {
            None => Err(EntityError::NoDateYear),
            Some(ymag) => {
                let year = spec_year(ymag as u64, !is_ce);
                let month = if dash_parts.len() >= 2 {
                    match spec_opt_field(dash_parts[1]) {
                        Some(m) => m,
                        None => 1,
                    }
                } else {
                    1
                };
                let day = if dash_parts.len() >= 3 {
                    match spec_opt_field(dash_parts[2]) {
                        Some(d) => d,
                        None => 1,
                    }
                } else {
                    1
                };
                if !valid_ymd(year, month, day) {
                    Err(EntityError::NoDateMatched)
                } else {
                    match spec_time_of_day(time_parts) {
                        Err(e) => Err(e),
                        Ok((h, mi, sec)) => if !(h < 24 && mi < 60 && sec < 60) {
                            Err(EntityError::InvalidTimeOfDay)
                        } else {
                            Ok(
                                UtcDateTime {
                                    year: year as i64,
                                    month: month as u8,
                                    day: day as u8,
                                    hour: h as u8,
                                    minute: mi as u8,
                                    second: sec as u8,
                                },
                            )
                        },
                    }
                }
            },
        }
    }
}

// ---------------------------------------------------------------------------
// The parse, executable
// ---------------------------------------------------------------------------

/// Read a month or day segment; `0` and unreadable segments are
/// "unspecified".
fn opt_field(p: &Vec<char>) -> (r: Option<u32>)
    ensures
        match r {
            Some(v) => spec_opt_field(p@) == Some(v as int) && v >= 1,
            None => spec_opt_field(p@) is None,
        },
{
    proof {
        assert(p@.subrange(0, p@.len() as int) =~= p@);
    }
    match parse_uint(p.as_slice(), 0, p.len(), u32::MAX as u64) {
        Some(v) => if v == 0 {
            None
        } else {
            Some(v as u32)
        },
        None => None,
    }
}

/// Parse a Wikibase time string to the UTC instant it denotes.
#[verifier::rlimit(80)]
pub fn parse_wb_time(time: &str) -> (r: Result<UtcDateTime, EntityError>)
    ensures
        r == spec_parse_wb_time(time@),
        r matches Ok(t) ==> t.wf(),
{
    let cs = chars_of(time);
    if cs.len() == 0 {
        return Err(EntityError::TimeEmpty);
    }
    let is_ce = cs[0] == '+';
    let rest = subvec_chars(cs.as_slice(), 1, cs.len());
    proof {
        assert(rest@ =~= time@.drop_first());
    }
    let time_parts = split_char(rest.as_slice(), 'T');
    let ghost stp = spec_split(time@.drop_first(), 'T');
    proof {
        lemma_split_len(rest@, 'T');
        lemma_vecvec_char_deep_view(time_parts, 0);
        assert(time_parts@[0]@ == stp[0]);
    }
    let dash_parts = split_char(time_parts[0].as_slice(), '-');
    let ghost sdp = spec_split(stp[0], '-');
    proof {
        lemma_split_len(time_parts@[0]@, '-');
        lemma_vecvec_char_deep_view(dash_parts, 0);
        assert(dash_parts@[0]@ == sdp[0]);
        assert(dash_parts@[0]@.subrange(0, dash_parts@[0]@.len() as int) =~= sdp[0]);
    }
    let p0 = &dash_parts[0];
    let ymag = match parse_uint(p0.as_slice(), 0, p0.len(), i64::MAX as u64) {
        Some(v) => v,
        None => {
            return Err(EntityError::NoDateYear);
        },
    };
    let month: u32 = if dash_parts.len() >= 2 {
        proof {
            lemma_vecvec_char_deep_view(dash_parts, 1);
            assert(dash_parts@[1]@ == sdp[1]);
        }
        match opt_field(&dash_parts[1]) {
            Some(m) => m,
            None => 1,
        }
    } else {
        1
    };
    let day: u32 = if dash_parts.len() >= 3 {
        proof {
            lemma_vecvec_char_deep_view(dash_parts, 2);
            assert(dash_parts@[2]@ == sdp[2]);
        }
        match opt_field(&dash_parts[2]) {
            Some(d) => d,
            None => 1,
        }
    } else {
        1
    };
    let ghost year = spec_year(ymag, !is_ce);
    if !(1 <= month && month <= 12) {
        return Err(EntityError::NoDateMatched);
    }
    let dim = days_in_month_exec(ymag, !is_ce, month);
    if !(1 <= day && day <= dim) {
        return Err(EntityError::NoDateMatched);
    }
    // Time of day.
    let (hour, minute, second): (u32, u32, u32) = if time_parts.len() == 2 {
        proof {
            lemma_vecvec_char_deep_view(time_parts, 1);
            assert(time_parts@[1]@ == stp[1]);
        }
        let colon_parts = split_char(time_parts[1].as_slice(), ':');
        let ghost scp = spec_split(stp[1], ':');
        proof {
            lemma_split_len(time_parts@[1]@, ':');
            lemma_vecvec_char_deep_view(colon_parts, 0);
            assert(colon_parts@[0]@ == scp[0]);
            assert(colon_parts@[0]@.subrange(0, colon_parts@[0]@.len() as int) =~= scp[0]);
        }
        let c0 = &colon_parts[0];
        let h = match parse_uint(c0.as_slice(), 0, c0.len(), u32::MAX as u64) {
            Some(v) => v as u32,
            None => {
                return Err(EntityError::FloatParse);
            },
        };
        if colon_parts.len() < 2 {
            return Err(EntityError::MissingMinute);
        }
        proof {
            lemma_vecvec_char_deep_view(colon_parts, 1);
            assert(colon_parts@[1]@ == scp[1]);
            assert(colon_parts@[1]@.subrange(0, colon_parts@[1]@.len() as int) =~= scp[1]);
        }
        let c1 = &colon_parts[1];
        let mi = match parse_uint(c1.as_slice(), 0, c1.len(), u32::MAX as u64) {
            Some(v) => v as u32,
            None => {
                return Err(EntityError::FloatParse);
            },
        };
        if colon_parts.len() < 3 {
            return Err(EntityError::MissingSecond);
        }
        proof {
            lemma_vecvec_char_deep_view(colon_parts, 2);
            assert(colon_parts@[2]@ == scp[2]);
        }
        let c2 = &colon_parts[2];
        if c2.len() < 2 {
            return Err(EntityError::FloatParse);
        }
        proof {
            assert(colon_parts@[2]@.subrange(0, 2) =~= scp[2].take(2));
        }
        let sec = match parse_uint(c2.as_slice(), 0, 2, u32::MAX as u64) {
            Some(v) => v as u32,
            None => {
                return Err(EntityError::FloatParse);
            },
        };
        (h, mi, sec)
    } else {
        (0, 0, 0)
    };
    if !(hour < 24 && minute < 60 && second < 60) {
        return Err(EntityError::InvalidTimeOfDay);
    }
    let year_num: i64 = if is_ce {
        ymag as i64
    } else {
        0i64 - (ymag as i64)
    };
    Ok(
        UtcDateTime {
            year: year_num,
            month: month as u8,
            day: day as u8,
            hour: hour as u8,
            minute: minute as u8,
            second: second as u8,
        },
    )
}

} // verus!
