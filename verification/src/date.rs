//! Calendar dates as plain year / month / day values, with the day
//! arithmetic behind the rolling week window and the one authoritative
//! date-key formatting used by both the record store and the persisted
//! state.

use vstd::prelude::*;
use crate::text;

verus! {

/// A calendar date in the proleptic Gregorian calendar.
#[derive(Clone, Copy, Debug, PartialEq, Eq, Structural)]
pub struct Date {
    pub year: i32,
    /// 1 through 12.
    pub month: u8,
    /// 1 through the length of the month.
    pub day: u8,
}

pub open spec fn spec_is_leap_year(y: int) -> bool {
    (y % 4 == 0 && y % 100 != 0) || y % 400 == 0
}

pub open spec fn spec_days_in_month(y: int, m: int) -> int {
    if m == 2 {
        if spec_is_leap_year(y) {
            29
        } else {
            28
        }
    } else if m == 4 || m == 6 || m == 9 || m == 11 {
        30
    } else {
        31
    }
}

/// The day after `d`.
pub open spec fn spec_next_day(d: Date) -> Date {
    if d.day < spec_days_in_month(d.year as int, d.month as int) {
        Date { year: d.year, month: d.month, day: (d.day + 1) as u8 }
    } else if d.month < 12 {
        Date { year: d.year, month: (d.month + 1) as u8, day: 1 }
    } else {
        Date { year: (d.year + 1) as i32, month: 1, day: 1 }
    }
}

/// The day before `d`.
pub open spec fn spec_prev_day(d: Date) -> Date {
    if d.day > 1 {
        Date { year: d.year, month: d.month, day: (d.day - 1) as u8 }
    } else if d.month > 1 {
        Date {
            year: d.year,
            month: (d.month - 1) as u8,
            day: spec_days_in_month(d.year as int, d.month - 1) as u8,
        }
    } else {
        Date { year: (d.year - 1) as i32, month: 12, day: 31 }
    }
}

/// `d` moved `n` days forward.
pub open spec fn spec_add_days(d: Date, n: nat) -> Date
    decreases n,
{
    if n == 0 {
        d
    } else {
        spec_next_day(spec_add_days(d, (n - 1) as nat))
    }
}

/// `d` moved `n` days back.
pub open spec fn spec_sub_days(d: Date, n: nat) -> Date
    decreases n,
{
    if n == 0 {
        d
    } else {
        spec_sub_days(spec_prev_day(d), (n - 1) as nat)
    }
}

impl Date {
    /// A well-formed calendar date: the month exists and the day falls
    /// inside it.
    pub open spec fn valid(self) -> bool {
        &&& 1 <= self.month <= 12
        &&& 1 <= self.day <= spec_days_in_month(self.year as int, self.month as int)
    }

    /// Whether the successor day exists without the year overflowing.
    pub open spec fn has_next(self) -> bool {
        !(self.year == i32::MAX && self.month == 12 && self.day == 31)
    }

    /// Whether the predecessor day exists without the year overflowing.
    pub open spec fn has_prev(self) -> bool {
        !(self.year == i32::MIN && self.month == 1 && self.day == 1)
    }
}

/// The length of the month, in days.
pub fn days_in_month(y: i32, m: u8) -> (r: u8)
    requires
        1 <= m <= 12,
    ensures
        r as int == spec_days_in_month(y as int, m as int),
{
    if m == 2 {
        if is_leap_year(y) {
            29
        } else {
            28
        }
    } else if m == 4 || m == 6 || m == 9 || m == 11 {
        30
    } else {
        31
    }
}

/// Whether `y` is a leap year.
pub fn is_leap_year(y: i32) -> (r: bool)
    ensures
        r == spec_is_leap_year(y as int),
{
    proof {
        lemma_rem_divides(y as int, 4);
        lemma_rem_divides(y as int, 100);
        lemma_rem_divides(y as int, 400);
    }
    (y % 4 == 0 && y % 100 != 0) || y % 400 == 0
}

proof fn lemma_rem_divides(a: int, b: int)
    requires
        b > 0,
    ensures
        a % b == 0 <==> (a / b) * b == a,
{
    assert((a / b) * b + a % b == a) by (nonlinear_arith)
        requires
            b != 0,
    ;
}

impl Date {
    /// Whether this is a well-formed calendar date.
    pub fn is_valid(&self) -> (r: bool)
        ensures
            r == self.valid(),
    {
        if self.month < 1 || self.month > 12 {
            return false;
        }
        1 <= self.day && self.day <= days_in_month(self.year, self.month)
    }

    /// The day after this one.
    pub fn next_day(self) -> (r: Date)
        requires
            self.valid(),
            self.has_next(),
        ensures
            r == spec_next_day(self),
            r.valid(),
    {
        let dim = days_in_month(self.year, self.month);
        if self.day < dim {
            Date { year: self.year, month: self.month, day: self.day + 1 }
        } else if self.month < 12 {
            Date { year: self.year, month: self.month + 1, day: 1 }
        } else {
            Date { year: self.year + 1, month: 1, day: 1 }
        }
    }

    /// The day before this one.
    pub fn prev_day(self) -> (r: Date)
        requires
            self.valid(),
            self.has_prev(),
        ensures
            r == spec_prev_day(self),
            r.valid(),
    {
        if self.day > 1 {
            Date { year: self.year, month: self.month, day: self.day - 1 }
        } else if self.month > 1 {
            let dim = days_in_month(self.year, self.month - 1);
            Date { year: self.year, month: self.month - 1, day: dim }
        } else {
            Date { year: self.year - 1, month: 12, day: 31 }
        }
    }
}

/// Taking the next day and then the previous one gives the original
/// date back.
pub proof fn lemma_prev_of_next(d: Date)
    requires
        d.valid(),
        d.has_next(),
    ensures
        spec_next_day(d).valid(),
        spec_next_day(d).has_prev(),
        spec_prev_day(spec_next_day(d)) == d,
{
}

/// Taking the previous day and then the next one gives the original
/// date back.
pub proof fn lemma_next_of_prev(d: Date)
    requires
        d.valid(),
        d.has_prev(),
    ensures
        spec_prev_day(d).valid(),
        spec_prev_day(d).has_next(),
        spec_next_day(spec_prev_day(d)) == d,
{
}

/// Within a four-week horizon, days added to a valid date stay valid,
/// and a year rollover can only land in early January.
pub proof fn lemma_add_days_props(d: Date, n: nat)
    requires
        d.valid(),
        d.year < i32::MAX,
        n <= 28,
    ensures
        spec_add_days(d, n).valid(),
        spec_add_days(d, n).has_next(),
        spec_add_days(d, n).year == d.year || (spec_add_days(d, n).year == d.year + 1
            && spec_add_days(d, n).month == 1 && spec_add_days(d, n).day <= n),
    decreases n,
{
    if n > 0 {
        lemma_add_days_props(d, (n - 1) as nat);
    }
}

/// Within a four-week horizon, days removed from a valid date stay
/// valid, and a year rollover can only land in late December.
pub proof fn lemma_sub_days_props(d: Date, n: nat)
    requires
        d.valid(),
        d.year > i32::MIN,
        n <= 28,
    ensures
        spec_sub_days(d, n).valid(),
        spec_sub_days(d, n).has_prev(),
        spec_sub_days(d, n).year == d.year || (spec_sub_days(d, n).year == d.year - 1
            && spec_sub_days(d, n).month == 12 && spec_sub_days(d, n).day > 31 - n),
    decreases n,
{
    if n > 0 {
        lemma_sub_days_props(d, (n - 1) as nat);
        let s = spec_sub_days(d, (n - 1) as nat);
        lemma_next_of_prev(s);
        lemma_sub_one_commutes(d, (n - 1) as nat);
        assert(spec_sub_days(d, n) == spec_prev_day(s));
    }
}

/// Taking a day off before or after taking `n` days off comes to the
/// same.
pub proof fn lemma_sub_one_commutes(d: Date, n: nat)
    ensures
        spec_sub_days(spec_prev_day(d), n) == spec_prev_day(spec_sub_days(d, n)),
    decreases n,
{
    if n > 0 {
        lemma_sub_one_commutes(spec_prev_day(d), (n - 1) as nat);
        lemma_sub_one_commutes(d, (n - 1) as nat);
    }
}

/// Moving a window forward and then back by the same number of days,
/// or back and then forward, restores the start date exactly.
pub proof fn lemma_add_sub_days(d: Date, n: nat)
    requires
        d.valid(),
        i32::MIN < d.year < i32::MAX,
        n <= 28,
    ensures
        spec_sub_days(spec_add_days(d, n), n) == d,
        spec_add_days(spec_sub_days(d, n), n) == d,
    decreases n,
{
    if n > 0 {
        lemma_add_days_props(d, (n - 1) as nat);
        let a = spec_add_days(d, (n - 1) as nat);
        lemma_prev_of_next(a);
        lemma_add_sub_days(d, (n - 1) as nat);
        assert(spec_sub_days(spec_add_days(d, n), n) == spec_sub_days(
            spec_prev_day(spec_next_day(a)),
            (n - 1) as nat,
        ));

        lemma_sub_days_props(d, (n - 1) as nat);
        let s = spec_sub_days(d, (n - 1) as nat);
        lemma_next_of_prev(s);
        lemma_sub_one_commutes(d, (n - 1) as nat);
        assert(spec_sub_days(d, n) == spec_prev_day(s));
        lemma_add_one_commutes(spec_prev_day(s), (n - 1) as nat);
        assert(spec_add_days(spec_prev_day(s), n) == spec_next_day(
            spec_add_days(spec_prev_day(s), (n - 1) as nat),
        ));
        assert(spec_add_days(s, (n - 1) as nat) == spec_next_day(
            spec_add_days(spec_prev_day(s), (n - 1) as nat),
        ));
    }
}

/// Adding a day before or after adding `n` days comes to the same.
proof fn lemma_add_one_commutes(d: Date, n: nat)
    ensures
        spec_add_days(spec_next_day(d), n) == spec_next_day(spec_add_days(d, n)),
    decreases n,
{
    if n > 0 {
        lemma_add_one_commutes(d, (n - 1) as nat);
    }
}

/// The canonical key for a date: the year padded to at least four
/// digits (with a leading minus sign for years before zero), then the
/// two-digit month and day, separated by hyphens.
pub open spec fn spec_date_key(d: Date) -> Seq<char> {
    spec_year_part(d.year as int) + seq!['-'] + spec_pad2(d.month as nat) + seq!['-'] + spec_pad2(
        d.day as nat,
    )
}

pub open spec fn spec_year_part(y: int) -> Seq<char> {
    if y < 0 {
        seq!['-'] + spec_pad_zeros(text::spec_dec((-y) as nat), 4)
    } else {
        spec_pad_zeros(text::spec_dec(y as nat), 4)
    }
}

pub open spec fn spec_pad2(n: nat) -> Seq<char> {
    spec_pad_zeros(text::spec_dec(n), 2)
}

/// `s` left-padded with zeros to at least `w` characters.
pub open spec fn spec_pad_zeros(s: Seq<char>, w: nat) -> Seq<char> {
    if s.len() >= w {
        s
    } else {
        Seq::new((w - s.len()) as nat, |i: int| '0') + s
    }
}

/// Appends the two-digit form of `n` to `out`.
pub(crate) fn push_pad2(out: &mut Vec<char>, n: u8)
    requires
        n < 100,
    ensures
        final(out)@ == old(out)@ + spec_pad2(n as nat),
{
    proof {
        text::lemma_dec_props(n as nat);
    }
    if n < 10 {
        out.push('0');
        proof {
            assert(Seq::new(1, |i: int| '0') =~= seq!['0']);
        }
    } else {
        proof {
            assert(text::spec_dec(n as nat).len() == 2) by {
                text::lemma_dec_props((n as nat) / 10);
                assert(text::spec_dec(n as nat) == text::spec_dec((n as nat) / 10).push(
                    text::spec_digit_char(((n as nat) % 10) as int),
                ));
            }
        }
    }
    text::push_dec(out, n as u64);
    proof {
        assert(out@ =~= old(out)@ + spec_pad2(n as nat));
    }
}

/// Appends the year part of the key to `out`.
pub(crate) fn push_year(out: &mut Vec<char>, y: i32)
    ensures
        final(out)@ == old(out)@ + spec_year_part(y as int),
{
    let a: u64 = if y >= 0 {
        y as u64
    } else {
        proof {
            assert(-(y as i64) == -(y as int)) by {
                assert(y as i64 == y as int);
            }
        }
        (-(y as i64)) as u64
    };
    assert(a as int == if y < 0 {
        -(y as int)
    } else {
        y as int
    });
    if y < 0 {
        out.push('-');
    }
    proof {
        text::lemma_dec_props(a as nat);
    }
    if a < 1000 {
        out.push('0');
    }
    if a < 100 {
        out.push('0');
    }
    if a < 10 {
        out.push('0');
    }
    proof {
        let s = text::spec_dec(a as nat);
        if a < 10 {
            assert(s.len() == 1);
        } else if a < 100 {
            dec_len_two(a as nat);
        } else if a < 1000 {
            dec_len_three(a as nat);
        } else {
            dec_len_at_least_four(a as nat);
        }
    }
    text::push_dec(out, a);
    proof {
        let s = text::spec_dec(a as nat);
        if s.len() >= 4 {
            assert(out@ =~= old(out)@ + spec_year_part(y as int));
        } else {
            assert(Seq::new((4 - s.len()) as nat, |i: int| '0') =~= if s.len() == 1 {
                seq!['0', '0', '0']
            } else if s.len() == 2 {
                seq!['0', '0']
            } else {
                seq!['0']
            });
            assert(out@ =~= old(out)@ + spec_year_part(y as int));
        }
    }
}

proof fn dec_len_two(n: nat)
    requires
        10 <= n < 100,
    ensures
        text::spec_dec(n).len() == 2,
{
    text::lemma_dec_props(n / 10);
    assert(text::spec_dec(n) == text::spec_dec(n / 10).push(
        text::spec_digit_char((n % 10) as int),
    ));
}

proof fn dec_len_three(n: nat)
    requires
        100 <= n < 1000,
    ensures
        text::spec_dec(n).len() == 3,
{
    dec_len_two(n / 10);
    assert(text::spec_dec(n) == text::spec_dec(n / 10).push(
        text::spec_digit_char((n % 10) as int),
    ));
}

proof fn dec_len_at_least_four(n: nat)
    requires
        1000 <= n,
    ensures
        text::spec_dec(n).len() >= 4,
    decreases n,
{
    if n < 10000 {
        dec_len_three(n / 10);
        assert(text::spec_dec(n) == text::spec_dec(n / 10).push(
            text::spec_digit_char((n % 10) as int),
        ));
    } else {
        dec_len_at_least_four(n / 10);
        assert(text::spec_dec(n) == text::spec_dec(n / 10).push(
            text::spec_digit_char((n % 10) as int),
        ));
    }
}

/// Appends the canonical key of `d` to `out`.
pub(crate) fn push_date_key(out: &mut Vec<char>, d: Date)
    requires
        d.valid(),
    ensures
        final(out)@ == old(out)@ + spec_date_key(d),
{
    push_year(out, d.year);
    out.push('-');
    push_pad2(out, d.month);
    out.push('-');
    push_pad2(out, d.day);
    proof {
        assert(out@ =~= old(out)@ + spec_date_key(d));
    }
}

impl Date {
    /// The authoritative date-key string for this date, used by both
    /// the write and the lookup path of the record store.
    pub fn key(&self) -> (r: String)
        requires
            self.valid(),
        ensures
            r@ == spec_date_key(*self),
    {
        let mut out: Vec<char> = Vec::new();
        push_date_key(&mut out, *self);
        text::chars_to_string(&out)
    }
}

} // verus!
