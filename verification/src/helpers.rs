//! Clock and shuffle wrappers around outside crates, the calendar-date
//! comparison used to judge a snapshot's age, and the retry policy that
//! every external call is wrapped in.

use vstd::prelude::*;
use vstd::string::StrSliceExecFns;
use crate::types::DateType;
use crate::types::{Instrument, Position};

verus! {

/// How failures of one external call are retried: forever for the
/// cycle-critical refresh steps, a bounded number of times for
/// per-item operations.
#[derive(Clone, Copy, Debug, PartialEq, Eq, Structural)]
pub struct RetryPolicy {
    /// Total attempts allowed; `None` retries without bound.
    pub max_attempts: Option<u32>,
    /// Seconds to sleep between attempts.
    pub backoff_seconds: u64,
}

impl RetryPolicy {
    /// Retry forever with a fixed backoff (the cycle-critical refresh
    /// steps).
    pub fn unbounded(backoff_seconds: u64) -> (r: RetryPolicy)
        ensures
            r == (RetryPolicy { max_attempts: None, backoff_seconds }),
    {
        RetryPolicy { max_attempts: None, backoff_seconds }
    }

    /// At most `attempts` tries in all, with a fixed backoff between
    /// them (per-item operations such as one order's placement).
    pub fn bounded(attempts: u32, backoff_seconds: u64) -> (r: RetryPolicy)
        ensures
            r == (RetryPolicy { max_attempts: Some(attempts), backoff_seconds }),
    {
        RetryPolicy { max_attempts: Some(attempts), backoff_seconds }
    }

    /// Whether another attempt is allowed after `attempts_made` tries.
    pub fn should_retry(&self, attempts_made: u32) -> (r: bool)
        ensures
            r == match self.max_attempts {
                None => true,
                Some(m) => attempts_made < m,
            },
    {
        match self.max_attempts {
            None => true,
            Some(m) => attempts_made < m,
        }
    }
}

/// Relies on rand's `SliceRandom::shuffle` with the thread-local
/// generator: an in-place permutation of the elements.  The order is
/// random, so only the multiset of instruments is stated.
#[verifier::external_body]
pub fn shuffle_instruments(instruments: Vec<Instrument>) -> (r: Vec<Instrument>)
    ensures
        r@.to_multiset() == instruments@.to_multiset(),
{
    let mut instruments = instruments;
    let mut rng = rand::thread_rng();
    rand::seq::SliceRandom::shuffle(instruments.as_mut_slice(), &mut rng);
    instruments
}

/// Relies on rand's `SliceRandom::shuffle` with the thread-local
/// generator: an in-place permutation of the elements.  The order is
/// random, so only the multiset of positions is stated.
#[verifier::external_body]
pub fn shuffle_positions(positions: Vec<Position>) -> (r: Vec<Position>)
    ensures
        r@.to_multiset() == positions@.to_multiset(),
{
    let mut positions = positions;
    let mut rng = rand::thread_rng();
    rand::seq::SliceRandom::shuffle(positions.as_mut_slice(), &mut rng);
    positions
}

/// Relies on chrono's `Utc::now`: seconds since the epoch.  The clock
/// decides the value, so nothing is stated of it.
#[verifier::external_body]
pub fn get_time() -> u64 {
    chrono::Utc::now().timestamp() as u64
}

/// Relies on chrono's `Local::now` and `format`: the local time
/// rendered with the given format string.  The clock decides the
/// value, so nothing is stated of it; only the fixed, well-formed
/// format strings below are admitted, on which formatting cannot fail.
#[verifier::external_body]
fn format_local_now(fmt: &str) -> String
    requires
        fmt@ == "%d"@ || fmt@ == "%Y"@ || fmt@ == "%d-%m-%Y"@ || fmt@ == "%B-%Y"@ || fmt@ == "%B"@
            || fmt@ == "%d-%m %H:%M:%S"@ || fmt@ == "%H:%M"@,
{
    chrono::Local::now().format(fmt).to_string()
}

/// The local time as `day-month hours:minutes:seconds`.
pub fn get_current_time() -> String {
    format_local_now("%d-%m %H:%M:%S")
}

/// The local time of day as `hours:minutes`.
pub fn get_current_hours() -> String {
    format_local_now("%H:%M")
}

/// The requested piece of today's local date.
pub fn get_current_date(datetype: DateType) -> String {
    match datetype {
        DateType::D => format_local_now("%d"),
        DateType::Y => format_local_now("%Y"),
        DateType::DMY => format_local_now("%d-%m-%Y"),
        DateType::MY => format_local_now("%B-%Y"),
        DateType::M => format_local_now("%B"),
    }
}

/// Whether `c` is a decimal digit.
pub open spec fn is_digit_char(c: char) -> bool {
    48 <= (c as u32) <= 57
}

/// The value of a digit character.
pub open spec fn digit_val(c: char) -> int {
    (c as u32) - 48
}

/// Whether `y` is a leap year of the Gregorian calendar.
pub open spec fn is_leap_year(y: int) -> bool {
    y % 4 == 0 && (y % 100 != 0 || y % 400 == 0)
}

/// Days in month `m` of year `y`.
pub open spec fn days_in_month(y: int, m: int) -> int {
    if m == 2 {
        if is_leap_year(y) {
            29
        } else {
            28
        }
    } else if m == 4 || m == 6 || m == 9 || m == 11 {
        30
    } else {
        31
    }
}

/// The day of a `day-month-year` date string, two digits.
pub open spec fn dmy_day(s: Seq<char>) -> int {
    10 * digit_val(s[0]) + digit_val(s[1])
}

/// The month of a `day-month-year` date string, two digits.
pub open spec fn dmy_month(s: Seq<char>) -> int {
    10 * digit_val(s[3]) + digit_val(s[4])
}

/// The year of a `day-month-year` date string, four digits.
pub open spec fn dmy_year(s: Seq<char>) -> int {
    1000 * digit_val(s[6]) + 100 * digit_val(s[7]) + 10 * digit_val(s[8]) + digit_val(s[9])
}

/// A well-formed `day-month-year` date string: two digits, a dash, two
/// digits, a dash, four digits, naming a real calendar date.
pub open spec fn valid_dmy(s: Seq<char>) -> bool {
    &&& s.len() == 10
    &&& is_digit_char(s[0])
    &&& is_digit_char(s[1])
    &&& s[2] == '-'
    &&& is_digit_char(s[3])
    &&& is_digit_char(s[4])
    &&& s[5] == '-'
    &&& is_digit_char(s[6])
    &&& is_digit_char(s[7])
    &&& is_digit_char(s[8])
    &&& is_digit_char(s[9])
    &&& 1 <= dmy_month(s) <= 12
    &&& 1 <= dmy_day(s) <= days_in_month(dmy_year(s), dmy_month(s))
}

/// A date collapsed to one number that orders dates chronologically.
pub open spec fn dmy_rank(s: Seq<char>) -> int {
    dmy_year(s) * 10_000 + dmy_month(s) * 100 + dmy_day(s)
}

/// Reads the two-digit number at positions `at` and `at + 1`.
fn read_two_digits(s: &str, at: usize) -> (r: u32)
    requires
        at < usize::MAX,
        at + 1 < s@.len(),
        is_digit_char(s@[at as int]),
        is_digit_char(s@[at + 1]),
    ensures
        r == 10 * digit_val(s@[at as int]) + digit_val(s@[at + 1]),
{
    let hi: char = s.get_char(at);
    let lo: char = s.get_char(at + 1);
    10 * (hi as u32 - 48) + (lo as u32 - 48)
}

/// Whether the first date lies strictly before the second, both written
/// `day-month-year`.
pub fn is_first_date_before(first_date_str: &str, second_date_str: &str) -> (r: bool)
    requires
        valid_dmy(first_date_str@),
        valid_dmy(second_date_str@),
    ensures
        r == (dmy_rank(first_date_str@) < dmy_rank(second_date_str@)),
{
    let rank_first: u32 = dmy_rank_exec(first_date_str);
    let rank_second: u32 = dmy_rank_exec(second_date_str);
    rank_first < rank_second
}

/// Computes [`dmy_rank`] of a well-formed date string.
fn dmy_rank_exec(s: &str) -> (r: u32)
    requires
        valid_dmy(s@),
    ensures
        r == dmy_rank(s@),
{
    let day: u32 = read_two_digits(s, 0);
    let month: u32 = read_two_digits(s, 3);
    let year_hi: u32 = read_two_digits(s, 6);
    let year_lo: u32 = read_two_digits(s, 8);
    let year: u32 = 100 * year_hi + year_lo;
    year * 10_000 + month * 100 + day
}

} // verus!
