//! The tracker: the ordered habits and the rolling week window, with
//! the date range, header labels and value matrix that rendering reads.

use vstd::prelude::*;
use crate::date::{
    Date, spec_add_days, spec_sub_days, lemma_add_days_props, lemma_sub_days_props,
};
use crate::habit::Habit;
use crate::text;

verus! {

/// The ordered habits and the start of the displayed 7-day window.
#[derive(Clone, Debug, PartialEq, Eq)]
pub struct HabitTracker {
    /// First day of the displayed week window.
    pub start_date: Date,
    /// Row order is significant: it gives the indices that the edit and
    /// delete commands and cursor navigation use.
    pub habits: Vec<Habit>,
}

/// The seven dates of the window starting at `start`.
pub open spec fn spec_week_dates(start: Date) -> Seq<Date> {
    Seq::new(7, |j: int| spec_add_days(start, j as nat))
}

/// The header label of a day of the month: its number, centered in
/// three characters.
pub open spec fn spec_header_label(day: nat) -> Seq<char> {
    if day < 10 {
        seq![' ', text::spec_digit_char(day as int), ' ']
    } else {
        seq![
            text::spec_digit_char((day / 10) as int),
            text::spec_digit_char((day % 10) as int),
            ' ',
        ]
    }
}

impl HabitTracker {
    /// Well-formedness: the window start is a real date with room to
    /// navigate in both directions, and every habit is well-formed.
    pub open spec fn wf(self) -> bool {
        &&& self.start_date.valid()
        &&& i32::MIN < self.start_date.year < i32::MAX
        &&& forall|i: int| 0 <= i < self.habits@.len() ==> (#[trigger] self.habits@[i]).wf()
    }

    /// Shifts the window one week forward.
    pub fn next_week(&mut self)
        requires
            old(self).wf(),
            old(self).start_date.year < i32::MAX - 1,
        ensures
            final(self).wf(),
            final(self).habits == old(self).habits,
            final(self).start_date == spec_add_days(old(self).start_date, 7),
    {
        let ghost start = self.start_date;
        let mut d = self.start_date;
        let mut i: usize = 0;
        while i < 7
            invariant
                i <= 7,
                start.valid(),
                start.year < i32::MAX - 1,
                d == spec_add_days(start, i as nat),
                d.valid(),
                d.has_next(),
            decreases 7 - i,
        {
            d = d.next_day();
            i += 1;
            proof {
                lemma_add_days_props(start, i as nat);
            }
        }
        self.start_date = d;
        proof {
            lemma_add_days_props(start, 7);
        }
    }

    /// Shifts the window one week back.
    pub fn previous_week(&mut self)
        requires
            old(self).wf(),
            old(self).start_date.year > i32::MIN + 1,
        ensures
            final(self).wf(),
            final(self).habits == old(self).habits,
            final(self).start_date == spec_sub_days(old(self).start_date, 7),
    {
        let ghost start = self.start_date;
        let mut d = self.start_date;
        let mut i: usize = 0;
        while i < 7
            invariant
                i <= 7,
                start.valid(),
                start.year > i32::MIN + 1,
                d == spec_sub_days(start, i as nat),
                d.valid(),
                d.has_prev(),
            decreases 7 - i,
        {
            proof {
                crate::date::lemma_sub_one_commutes(start, i as nat);
            }
            d = d.prev_day();
            i += 1;
            proof {
                lemma_sub_days_props(start, i as nat);
            }
        }
        self.start_date = d;
        proof {
            lemma_sub_days_props(start, 7);
        }
    }

    /// The seven consecutive dates of the window, starting at
    /// `start_date`.
    pub fn get_date_range(&self) -> (r: Vec<Date>)
        requires
            self.start_date.valid(),
            self.start_date.year < i32::MAX,
        ensures
            r@ == spec_week_dates(self.start_date),
            r@.len() == 7,
            r@[0] == self.start_date,
            forall|j: int| 0 <= j < 7 ==> (#[trigger] r@[j]) == spec_add_days(
                self.start_date,
                j as nat,
            ),
            forall|j: int|
                0 <= j < 6 ==> #[trigger] r@[j + 1] == crate::date::spec_next_day(r@[j]),
            forall|j: int| 0 <= j < 7 ==> (#[trigger] r@[j]).valid(),
    {
        let mut r: Vec<Date> = Vec::new();
        let mut d = self.start_date;
        let mut i: usize = 0;
        while i < 7
            invariant
                i <= 7,
                self.start_date.valid(),
                self.start_date.year < i32::MAX,
                r@.len() == i,
                d == spec_add_days(self.start_date, i as nat),
                d.valid(),
                d.has_next(),
                forall|j: int| 0 <= j < i ==> (#[trigger] r@[j]) == spec_add_days(
                    self.start_date,
                    j as nat,
                ),
            decreases 7 - i,
        {
            r.push(d);
            d = d.next_day();
            i += 1;
            proof {
                lemma_add_days_props(self.start_date, i as nat);
            }
        }
        proof {
            assert(r@ =~= spec_week_dates(self.start_date));
            assert forall|j: int| 0 <= j < 7 implies (#[trigger] r@[j]).valid() by {
                lemma_add_days_props(self.start_date, j as nat);
            }
        }
        r
    }

    /// The seven header labels of the window: each date's day of the
    /// month, centered in a three-character cell.
    pub fn get_header_labels(&self) -> (r: Vec<String>)
        requires
            self.start_date.valid(),
            self.start_date.year < i32::MAX,
        ensures
            r@.len() == 7,
            forall|j: int| 0 <= j < 7 ==> (#[trigger] r@[j])@ == spec_header_label(
                spec_week_dates(self.start_date)[j].day as nat,
            ),
    {
        let dates = self.get_date_range();
        let mut r: Vec<String> = Vec::new();
        let mut i: usize = 0;
        while i < 7
            invariant
                i <= 7,
                dates@.len() == 7,
                forall|j: int| 0 <= j < 7 ==> (#[trigger] dates@[j]).valid(),
                dates@ == spec_week_dates(self.start_date),
                r@.len() == i,
                forall|j: int| 0 <= j < i ==> (#[trigger] r@[j])@ == spec_header_label(
                    dates@[j].day as nat,
                ),
            decreases 7 - i,
        {
            let day = dates[i].day;
            let mut cs: Vec<char> = Vec::new();
            if day < 10 {
                cs.push(' ');
                cs.push(text::digit_char(day as u64));
                cs.push(' ');
            } else {
                cs.push(text::digit_char((day / 10) as u64));
                cs.push(text::digit_char((day % 10) as u64));
                cs.push(' ');
            }
            proof {
                assert(cs@ =~= spec_header_label(dates@[i as int].day as nat));
            }
            let s = text::chars_to_string(&cs);
            r.push(s);
            i += 1;
        }
        r
    }

    /// The dense value matrix of the window: one row per habit, one
    /// column per date, holding the recorded value when one exists.
    pub fn values_v2(&self) -> (r: Vec<Vec<Option<String>>>)
        requires
            self.wf(),
        ensures
            r@.len() == self.habits@.len(),
            forall|i: int| 0 <= i < r@.len() ==> (#[trigger] r@[i])@.len() == 7,
            forall|i: int, j: int|
                0 <= i < r@.len() && 0 <= j < 7 ==> ((#[trigger] r@[i]@[j]) is Some
                    <==> self.habits@[i].rec_map().contains_key(
                    spec_week_dates(self.start_date)[j],
                )),
            forall|i: int, j: int|
                0 <= i < r@.len() && 0 <= j < 7 && (#[trigger] r@[i]@[j]) is Some ==> r@[i]@[j]->0@
                    == self.habits@[i].rec_map()[spec_week_dates(self.start_date)[j]],
    {
        let dates = self.get_date_range();
        let mut r: Vec<Vec<Option<String>>> = Vec::new();
        let mut i: usize = 0;
        while i < self.habits.len()
            invariant
                i <= self.habits@.len(),
                self.wf(),
                dates@ == spec_week_dates(self.start_date),
                dates@.len() == 7,
                r@.len() == i,
                forall|a: int| 0 <= a < i ==> (#[trigger] r@[a])@.len() == 7,
                forall|a: int, j: int|
                    0 <= a < i && 0 <= j < 7 ==> ((#[trigger] r@[a]@[j]) is Some
                        <==> self.habits@[a].rec_map().contains_key(dates@[j])),
                forall|a: int, j: int|
                    0 <= a < i && 0 <= j < 7 && (#[trigger] r@[a]@[j]) is Some ==> r@[a]@[j]->0@
                        == self.habits@[a].rec_map()[dates@[j]],
            decreases self.habits@.len() - i,
        {
            let row = self.habit_row(i, &dates);
            r.push(row);
            i += 1;
        }
        r
    }

    /// One row of the value matrix.
    fn habit_row(&self, i: usize, dates: &Vec<Date>) -> (row: Vec<Option<String>>)
        requires
            self.wf(),
            i < self.habits@.len(),
            dates@.len() == 7,
        ensures
            row@.len() == 7,
            forall|j: int|
                0 <= j < 7 ==> ((#[trigger] row@[j]) is Some <==> self.habits@[
                    i as int
                ].rec_map().contains_key(dates@[j])),
            forall|j: int|
                0 <= j < 7 && (#[trigger] row@[j]) is Some ==> row@[j]->0@ == self.habits@[
                    i as int
                ].rec_map()[dates@[j]],
    {
        let habit = &self.habits[i];
        proof {
            assert(self.habits@[i as int].wf());
            crate::habit::lemma_records_map(habit.records@);
        }
        let mut row: Vec<Option<String>> = Vec::new();
        let mut j: usize = 0;
        while j < 7
            invariant
                j <= 7,
                habit == self.habits@[i as int],
                habit.wf(),
                i < self.habits@.len(),
                dates@.len() == 7,
                forall|d: Date| #[trigger]
                    habit.rec_map().contains_key(d) <==> crate::habit::spec_has_date(
                        habit.records@,
                        d,
                    ),
                forall|k: int|
                    0 <= k < habit.records@.len() ==> habit.rec_map()[(
                    #[trigger] habit.records@[k]).date] == habit.records@[k].value@,
                row@.len() == j,
                forall|a: int|
                    0 <= a < j ==> ((#[trigger] row@[a]) is Some <==> habit.rec_map().contains_key(
                        dates@[a],
                    )),
                forall|a: int|
                    0 <= a < j && (#[trigger] row@[a]) is Some ==> row@[a]->0@
                        == habit.rec_map()[dates@[a]],
            decreases 7 - j,
        {
            let cell = lookup_value(habit, dates[j]);
            proof {
                if cell is Some {
                    let k = choose|k: int|
                        0 <= k < habit.records@.len() && (#[trigger] habit.records@[k]).date
                            == dates@[j as int] && cell->0@ == habit.records@[k].value@;
                    assert(habit.rec_map()[habit.records@[k].date] == habit.records@[k].value@);
                }
            }
            row.push(cell);
            j += 1;
        }
        row
    }

    /// The presence matrix of the window: one row per habit, one
    /// column per date, true where a record exists.
    pub fn values(&self) -> (r: Vec<Vec<bool>>)
        requires
            self.wf(),
        ensures
            r@.len() == self.habits@.len(),
            forall|i: int| 0 <= i < r@.len() ==> (#[trigger] r@[i])@.len() == 7,
            forall|i: int, j: int|
                0 <= i < r@.len() && 0 <= j < 7 ==> ((#[trigger] r@[i]@[j])
                    == self.habits@[i].rec_map().contains_key(spec_week_dates(self.start_date)[j])),
    {
        let m = self.values_v2();
        let mut r: Vec<Vec<bool>> = Vec::new();
        let mut i: usize = 0;
        while i < m.len()
            invariant
                i <= m@.len(),
                m@.len() == self.habits@.len(),
                forall|a: int| 0 <= a < m@.len() ==> (#[trigger] m@[a])@.len() == 7,
                forall|a: int, j: int|
                    0 <= a < m@.len() && 0 <= j < 7 ==> ((#[trigger] m@[a]@[j]) is Some
                        <==> self.habits@[a].rec_map().contains_key(
                        spec_week_dates(self.start_date)[j],
                    )),
                r@.len() == i,
                forall|a: int| 0 <= a < i ==> (#[trigger] r@[a])@.len() == 7,
                forall|a: int, j: int|
                    0 <= a < i && 0 <= j < 7 ==> ((#[trigger] r@[a]@[j]) == self.habits@[
                        a
                    ].rec_map().contains_key(spec_week_dates(self.start_date)[j])),
            decreases m@.len() - i,
        {
            let mrow = &m[i];
            let mut row: Vec<bool> = Vec::new();
            let mut j: usize = 0;
            while j < mrow.len()
                invariant
                    j <= mrow@.len(),
                    mrow == m@[i as int],
                    i < m@.len(),
                    m@.len() == self.habits@.len(),
                    forall|a: int| 0 <= a < m@.len() ==> (#[trigger] m@[a])@.len() == 7,
                    forall|a: int, b: int|
                        0 <= a < m@.len() && 0 <= b < 7 ==> ((#[trigger] m@[a]@[b]) is Some
                            <==> self.habits@[a].rec_map().contains_key(
                            spec_week_dates(self.start_date)[b],
                        )),
                    row@.len() == j,
                    forall|b: int|
                        0 <= b < j ==> ((#[trigger] row@[b]) == self.habits@[
                            i as int
                        ].rec_map().contains_key(spec_week_dates(self.start_date)[b])),
                decreases mrow@.len() - j,
            {
                row.push(mrow[j].is_some());
                j += 1;
            }
            r.push(row);
            i += 1;
        }
        r
    }

    /// The habit names, in row order.
    pub fn labels(&self) -> (r: Vec<String>)
        ensures
            r@.len() == self.habits@.len(),
            forall|i: int| 0 <= i < r@.len() ==> (#[trigger] r@[i])@ == self.habits@[i].label@,
    {
        let mut r: Vec<String> = Vec::new();
        let mut i: usize = 0;
        while i < self.habits.len()
            invariant
                i <= self.habits@.len(),
                r@.len() == i,
                forall|a: int| 0 <= a < i ==> (#[trigger] r@[a])@ == self.habits@[a].label@,
            decreases self.habits@.len() - i,
        {
            r.push(self.habits[i].label.clone());
            i += 1;
        }
        r
    }

    /// A fresh tracker: no habits, the window anchored on the Monday of
    /// the current ISO week.
    pub fn default() -> (r: HabitTracker)
        ensures
            r.wf(),
            r.habits@.len() == 0,
    {
        HabitTracker { start_date: current_week_monday(), habits: Vec::new() }
    }
}

/// Shifting the window one week forward and then one week back, or
/// back and then forward, restores the start date exactly.
pub proof fn lemma_week_navigation_round_trip(start: Date)
    requires
        start.valid(),
        i32::MIN < start.year < i32::MAX,
    ensures
        spec_sub_days(spec_add_days(start, 7), 7) == start,
        spec_add_days(spec_sub_days(start, 7), 7) == start,
{
    crate::date::lemma_add_sub_days(start, 7);
}

/// The recorded value of `habit` on `date`, if any.
fn lookup_value(habit: &Habit, date: Date) -> (r: Option<String>)
    ensures
        r is Some <==> crate::habit::spec_has_date(habit.records@, date),
        r is Some ==> exists|k: int|
            0 <= k < habit.records@.len() && (#[trigger] habit.records@[k]).date == date
                && r->0@ == habit.records@[k].value@,
{
    let mut k: usize = 0;
    while k < habit.records.len()
        invariant
            k <= habit.records@.len(),
            forall|a: int| 0 <= a < k ==> (#[trigger] habit.records@[a]).date != date,
        decreases habit.records@.len() - k,
    {
        if habit.records[k].date == date {
            return Some(habit.records[k].value.clone());
        }
        k += 1;
    }
    None
}

/// Relies on `chrono`: `Utc::now` reads the clock, `Datelike::iso_week`
/// gives that instant's ISO week, and `NaiveDate::from_isoywd_opt` with
/// `Weekday::Mon` is that week's Monday, handed out as plain year,
/// month and day. The result depends on the clock, so only what holds
/// of every reading is stated: a real calendar date within chrono's
/// documented year range.
#[verifier::external_body]
fn current_week_monday() -> (r: Date)
    ensures
        r.valid(),
        -262146 < r.year < 262144,
{
    let now = chrono::Utc::now();
    let iso = chrono::Datelike::iso_week(&now);
    let mon = match chrono::NaiveDate::from_isoywd_opt(iso.year(), iso.week(), chrono::Weekday::Mon)
        {
        Some(d) => d,
        None => chrono::DateTime::date_naive(&now),
    };
    Date {
        year: chrono::Datelike::year(&mon),
        month: chrono::Datelike::month(&mon) as u8,
        day: chrono::Datelike::day(&mon) as u8,
    }
}

} // verus!
