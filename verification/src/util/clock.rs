//! The monotonic clock that audio and video share, rules for rounding a quotient, and the
//! calendar time that file names carry.

use chrono::{Datelike, Timelike};
use vstd::prelude::*;

use crate::util::text;

verus! {

/// Nanoseconds in one second.
pub const NANOS_PER_SEC: u64 = 1_000_000_000;

/// A reading of the process-wide monotonic clock, in nanoseconds since its origin.
#[derive(Debug, Clone, Copy, PartialEq, Eq, Structural)]
pub struct Moment {
    pub nanos: u64,
}

impl Moment {
    /// Nanoseconds from `earlier` to this moment, zero where `earlier` is the later one.
    pub open spec fn since(self, earlier: Moment) -> nat {
        if self.nanos >= earlier.nanos {
            (self.nanos - earlier.nanos) as nat
        } else {
            0
        }
    }

    /// Nanoseconds from `earlier` to this moment, zero where `earlier` is the later one.
    pub fn saturating_duration_since(&self, earlier: Moment) -> (nanos: u64)
        ensures
            nanos == self.since(earlier),
    {
        if self.nanos >= earlier.nanos {
            self.nanos - earlier.nanos
        } else {
            0
        }
    }
}

/// `n`, or one where it is zero.
pub open spec fn at_least_one(n: nat) -> nat {
    if n == 0 {
        1
    } else {
        n
    }
}

/// The integer nearest to `num / den`; of two equally near ones the larger.
pub open spec fn nearest(num: nat, den: nat) -> nat {
    (2 * num + den) / (2 * den)
}

/// The integer nearest to `num / den`; of two equally near ones the even one.
pub open spec fn nearest_even(num: nat, den: nat) -> nat {
    let whole = num / den;
    let rest = num % den;
    if 2 * rest < den {
        whole
    } else if 2 * rest > den {
        whole + 1
    } else {
        whole + whole % 2
    }
}

/// A rounded quotient is off by at most one half.
pub proof fn lemma_nearest_is_near(num: nat, den: nat)
    requires
        den > 0,
    ensures
        2 * num - den <= 2 * den * nearest(num, den) <= 2 * num + den,
{
    let q = nearest(num, den);
    assert(2 * den * q <= 2 * num + den && 2 * num + den < 2 * den * q + 2 * den)
        by (nonlinear_arith)
        requires
            q == (2 * num + den) / (2 * den),
            den > 0,
    ;
}

/// Rounds `num / den` to the nearest integer, halves upwards.
pub fn round_nearest(num: u128, den: u128) -> (q: u128)
    requires
        den > 0,
        2 * num + den <= u128::MAX,
        2 * den <= u128::MAX,
    ensures
        q == nearest(num as nat, den as nat),
{
    (2 * num + den) / (2 * den)
}

/// Rounds `num / den` to the nearest integer, halves to the even neighbour.
pub fn round_nearest_even(num: u128, den: u128) -> (q: u128)
    requires
        den > 0,
        2 * den <= u128::MAX,
        num < u128::MAX,
    ensures
        q == nearest_even(num as nat, den as nat),
{
    let whole: u128 = num / den;
    let rest: u128 = num % den;
    assert(whole <= num) by (nonlinear_arith)
        requires
            whole == num / den,
            den > 0,
    ;
    if 2 * rest < den {
        whole
    } else if 2 * rest > den {
        whole + 1
    } else {
        whole + whole % 2
    }
}

/// A local date and time of day, to the second.
#[derive(Debug, Clone, Copy, PartialEq, Eq, Structural)]
pub struct CivilTime {
    pub year: i32,
    pub month: u32,
    pub day: u32,
    pub hour: u32,
    pub minute: u32,
    pub second: u32,
}

/// Whether `year` has a 29 February in the proleptic Gregorian calendar.
pub open spec fn is_leap_year(year: int) -> bool {
    year % 4 == 0 && (year % 100 != 0 || year % 400 == 0)
}

/// The number of days in a month of a year.
pub open spec fn days_in_month(year: int, month: int) -> int {
    if month == 2 {
        if is_leap_year(year) {
            29
        } else {
            28
        }
    } else if month == 4 || month == 6 || month == 9 || month == 11 {
        30
    } else {
        31
    }
}

impl CivilTime {
    /// The fields denote a second of a day that the calendar has.
    pub open spec fn valid(self) -> bool {
        &&& 1 <= self.month <= 12
        &&& 1 <= self.day <= days_in_month(self.year as int, self.month as int)
        &&& self.hour < 24
        &&& self.minute < 60
        &&& self.second < 60
    }
}

/// A year with at least four digits; outside of 0 to 9999 it carries its sign.
pub open spec fn year_text(year: int) -> Seq<char> {
    if year < 0 {
        seq!['-'] + text::zero_padded((-year) as nat, 4)
    } else if year > 9999 {
        seq!['+'] + text::zero_padded(year as nat, 4)
    } else {
        text::zero_padded(year as nat, 4)
    }
}

/// The text that stands for a second in file names: date, underscore, time of day.
pub open spec fn stamp_text(t: CivilTime) -> Seq<char> {
    year_text(t.year as int) + text::zero_padded(t.month as nat, 2) + text::zero_padded(t.day as nat, 2) + seq![
        '_',
    ] + text::zero_padded(t.hour as nat, 2) + text::zero_padded(t.minute as nat, 2) + text::zero_padded(
        t.second as nat,
        2,
    )
}

/// Calls `chrono::Local::now` and formats what it read with `chrono::DateTime::format`. The
/// machine's clock and time zone decide which second is read; every one of them is a second
/// that the calendar has. Under the format of year, month, day, underscore, hour, minute and
/// second, chrono pads each number with zeros and gives a year outside of 0 to 9999 its sign.
#[verifier::external_body]
pub(crate) fn format_local_now(format: &str) -> (read: (CivilTime, String))
    requires
        format@ == "%Y%m%d_%H%M%S"@,
    ensures
        read.0.valid(),
        read.1@ == stamp_text(read.0),
{
    let now = chrono::Local::now();
    let time = CivilTime {
        year: now.year(),
        month: now.month(),
        day: now.day(),
        hour: now.hour(),
        minute: now.minute(),
        second: now.second(),
    };
    (time, now.format(format).to_string())
}

/// `text` is the stamp of some second that the calendar has.
pub open spec fn is_stamp(text: Seq<char>) -> bool {
    exists|t: CivilTime| #[trigger] t.valid() && text == stamp_text(t)
}

/// The stamp of the current second, local time.
pub fn local_stamp() -> (text: String)
    ensures
        is_stamp(text@),
{
    let read = format_local_now("%Y%m%d_%H%M%S");
    read.1
}

/// The time between two moments is what must be added to the earlier one to get the later one;
/// to an earlier moment there is none.
pub proof fn lemma_since_adds_back(later: Moment, earlier: Moment)
    ensures
        later.nanos >= earlier.nanos ==> earlier.nanos + later.since(earlier) == later.nanos,
        later.nanos <= earlier.nanos ==> later.since(earlier) == 0,
{
}

/// Nothing but zero is raised, and that to one.
pub proof fn lemma_at_least_one(n: nat)
    ensures
        at_least_one(n) >= 1,
        n >= 1 ==> at_least_one(n) == n,
        at_least_one(0) == 1,
{
}

/// Rounding goes to the nearest integer, and from the middle between two upwards: the quotient
/// lies less than one half above the result and at most one half below it.
pub proof fn lemma_nearest_rounds_halves_up(num: nat, den: nat)
    requires
        den > 0,
    ensures
        2 * den * nearest(num, den) <= 2 * num + den,
        2 * num + den < 2 * den * (nearest(num, den) + 1),
{
    let q = nearest(num, den);
    assert(2 * den * q <= 2 * num + den && 2 * num + den < 2 * den * (q + 1)) by (nonlinear_arith)
        requires
            q == (2 * num + den) / (2 * den),
            den > 0,
    ;
}

/// Rounding goes to the nearest integer, and from the middle between two to the even one.
pub proof fn lemma_nearest_even_rounds_halves_to_even(num: nat, den: nat)
    requires
        den > 0,
    ensures
        ({
            let q = nearest_even(num, den);
            &&& 2 * num - den <= 2 * (den * q) <= 2 * num + den
            &&& 2 * (den * q) == 2 * num - den || 2 * (den * q) == 2 * num + den ==> q % 2 == 0
        }),
{
    let whole = num / den;
    let rest = num % den;
    let q = nearest_even(num, den);
    assert(num == den * whole + rest && 0 <= rest < den) by (nonlinear_arith)
        requires
            den > 0,
            whole == num / den,
            rest == num % den,
    ;
    assert(den * (whole + 1) == den * whole + den) by (nonlinear_arith);
    if 2 * rest == den {
        assert(q == whole || q == whole + 1);
    }
}

/// A stamp of the years 0 to 9999 tells its second: date and time of day can be read off it, in
/// the order year, month, day, hour, minute, second, with an underscore between date and time.
pub proof fn lemma_stamp_tells_the_second(t: CivilTime)
    requires
        t.valid(),
        0 <= t.year <= 9999,
    ensures
        ({
            let stamp = stamp_text(t);
            &&& stamp.len() == 15
            &&& stamp[8] == '_'
            &&& text::digits_value(stamp.subrange(0, 4)) == t.year
            &&& text::digits_value(stamp.subrange(4, 6)) == t.month
            &&& text::digits_value(stamp.subrange(6, 8)) == t.day
            &&& text::digits_value(stamp.subrange(9, 11)) == t.hour
            &&& text::digits_value(stamp.subrange(11, 13)) == t.minute
            &&& text::digits_value(stamp.subrange(13, 15)) == t.second
        }),
{
    let stamp = stamp_text(t);
    text::lemma_zero_padded_reads_back(t.year as nat, 4);
    text::lemma_zero_padded_reads_back(t.month as nat, 2);
    text::lemma_zero_padded_reads_back(t.day as nat, 2);
    text::lemma_zero_padded_reads_back(t.hour as nat, 2);
    text::lemma_zero_padded_reads_back(t.minute as nat, 2);
    text::lemma_zero_padded_reads_back(t.second as nat, 2);
    text::lemma_zero_padded_width(t.year as nat, 4);
    text::lemma_zero_padded_width(t.month as nat, 2);
    text::lemma_zero_padded_width(t.day as nat, 2);
    text::lemma_zero_padded_width(t.hour as nat, 2);
    text::lemma_zero_padded_width(t.minute as nat, 2);
    text::lemma_zero_padded_width(t.second as nat, 2);
    assert(stamp.subrange(0, 4) =~= text::zero_padded(t.year as nat, 4));
    assert(stamp.subrange(4, 6) =~= text::zero_padded(t.month as nat, 2));
    assert(stamp.subrange(6, 8) =~= text::zero_padded(t.day as nat, 2));
    assert(stamp.subrange(9, 11) =~= text::zero_padded(t.hour as nat, 2));
    assert(stamp.subrange(11, 13) =~= text::zero_padded(t.minute as nat, 2));
    assert(stamp.subrange(13, 15) =~= text::zero_padded(t.second as nat, 2));
}

} // verus!
