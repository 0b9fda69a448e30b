//! One tracked habit: a label, a type fixed at creation, and a sparse
//! per-date record of values, with the per-type marking state machine.

use vstd::prelude::*;
use vstd::pervasive::VecAdditionalExecFns;
use crate::date::Date;
use crate::text;

verus! {

/// How marking a habit on a date behaves.
#[derive(Clone, Copy, Debug, PartialEq, Eq, Structural)]
pub enum HabitType {
    /// Presence of a record alone means "done"; marking toggles it.
    BIT,
    /// The record holds a non-negative count; marking increments it.
    COUNT,
    /// The record holds a single caller-supplied character.
    ALPHA,
}

/// One date-to-value record of a habit.
#[derive(Clone, Debug, PartialEq, Eq)]
pub struct Record {
    pub date: Date,
    pub value: String,
}

/// One tracked habit.
#[derive(Clone, Debug, PartialEq, Eq)]
pub struct Habit {
    /// Display name; mutable through the edit command.
    pub label: String,
    /// Fixed at creation; no habit ever changes type.
    pub habit_type: HabitType,
    /// Sparse per-date records; absence of a date means "not recorded".
    pub records: Vec<Record>,
}

/// The mapping that a record list holds: each date to its value.
pub open spec fn spec_records_map(rs: Seq<Record>) -> Map<Date, Seq<char>>
    decreases rs.len(),
{
    if rs.len() == 0 {
        Map::empty()
    } else {
        spec_records_map(rs.drop_last()).insert(rs.last().date, rs.last().value@)
    }
}

/// Whether some record of `rs` carries the date `d`.
pub open spec fn spec_has_date(rs: Seq<Record>, d: Date) -> bool {
    exists|i: int| 0 <= i < rs.len() && rs[i].date == d
}

/// No two records of `rs` carry the same date.
pub open spec fn spec_unique_dates(rs: Seq<Record>) -> bool {
    forall|i: int, j: int| 0 <= i < j < rs.len() ==> rs[i].date != rs[j].date
}

/// What a stored value may be, by habit type: the sentinel for a
/// Boolean habit, canonical decimal digits of a 64-bit count for a
/// Counter habit, exactly one character for a Character habit.
pub open spec fn spec_value_ok(t: HabitType, v: Seq<char>) -> bool {
    match t {
        HabitType::BIT => v == "true"@,
        HabitType::COUNT => exists|n: u64| v == text::spec_dec(n as nat),
        HabitType::ALPHA => v.len() == 1,
    }
}

impl Habit {
    /// Well-formedness: record dates are unique and valid, and every
    /// stored value fits the habit type.
    pub open spec fn wf(self) -> bool {
        &&& spec_unique_dates(self.records@)
        &&& forall|i: int|
            0 <= i < self.records@.len() ==> (#[trigger] self.records@[i]).date.valid()
        &&& forall|i: int|
            0 <= i < self.records@.len() ==> spec_value_ok(
                self.habit_type,
                (#[trigger] self.records@[i]).value@,
            )
    }

    /// The date-to-value mapping this habit holds.
    pub open spec fn rec_map(self) -> Map<Date, Seq<char>> {
        spec_records_map(self.records@)
    }
}

/// The record mapping contains exactly the recorded dates, each with
/// the value of its (unique) record.
pub proof fn lemma_records_map(rs: Seq<Record>)
    requires
        spec_unique_dates(rs),
    ensures
        forall|d: Date| #[trigger] spec_records_map(rs).contains_key(d) <==> spec_has_date(rs, d),
        forall|i: int|
            0 <= i < rs.len() ==> spec_records_map(rs)[(#[trigger] rs[i]).date] == rs[i].value@,
    decreases rs.len(),
{
    if rs.len() > 0 {
        let head = rs.drop_last();
        lemma_records_map(head);
        assert forall|d: Date| #[trigger] spec_records_map(rs).contains_key(d) implies spec_has_date(
            rs,
            d,
        ) by {
            if d == rs.last().date {
                assert(rs[rs.len() - 1].date == d);
            } else {
                assert(spec_records_map(rs) == spec_records_map(head).insert(
                    rs.last().date,
                    rs.last().value@,
                ));
                assert(spec_records_map(head).contains_key(d));
                assert(spec_has_date(head, d));
                let i = choose|i: int| 0 <= i < head.len() && head[i].date == d;
                assert(head[i] == rs[i]);
                assert(rs[i].date == d);
            }
        }
        assert forall|d: Date| spec_has_date(rs, d) implies #[trigger] spec_records_map(
            rs,
        ).contains_key(d) by {
            let i = choose|i: int| 0 <= i < rs.len() && rs[i].date == d;
            if i < rs.len() - 1 {
                assert(head[i].date == d);
            }
        }
        assert forall|i: int| 0 <= i < rs.len() implies spec_records_map(rs)[(#[trigger] rs[i]).date]
            == rs[i].value@ by {
            if i < rs.len() - 1 {
                assert(head[i] == rs[i]);
                assert(rs[i].date != rs.last().date);
            }
        }
    }
}

/// Appending a record inserts its date into the mapping.
pub proof fn lemma_records_map_push(rs: Seq<Record>, r: Record)
    ensures
        spec_records_map(rs.push(r)) == spec_records_map(rs).insert(r.date, r.value@),
{
    assert(rs.push(r).drop_last() =~= rs);
    assert(rs.push(r).last() == r);
}

/// Overwriting the record that carries `d` updates the mapping at `d`.
pub proof fn lemma_records_map_update(rs: Seq<Record>, i: int, r: Record)
    requires
        spec_unique_dates(rs),
        0 <= i < rs.len(),
        rs[i].date == r.date,
    ensures
        spec_records_map(rs.update(i, r)) == spec_records_map(rs).insert(r.date, r.value@),
    decreases rs.len(),
{
    let rs2 = rs.update(i, r);
    if i == rs.len() - 1 {
        assert(rs2.drop_last() =~= rs.drop_last());
        assert(rs2.last() == r);
        assert(spec_records_map(rs2) == spec_records_map(rs.drop_last()).insert(r.date, r.value@));
        assert(spec_records_map(rs).insert(r.date, r.value@) == spec_records_map(
            rs.drop_last(),
        ).insert(rs.last().date, rs.last().value@).insert(r.date, r.value@));
        assert(spec_records_map(rs.drop_last()).insert(rs.last().date, rs.last().value@).insert(
            r.date,
            r.value@,
        ) =~= spec_records_map(rs.drop_last()).insert(r.date, r.value@));
    } else {
        let head = rs.drop_last();
        assert(spec_unique_dates(head));
        lemma_records_map_update(head, i, r);
        assert(rs2.drop_last() =~= head.update(i, r));
        assert(rs2.last() == rs.last());
        assert(rs.last().date != r.date);
        assert(spec_records_map(rs2) == spec_records_map(head).insert(r.date, r.value@).insert(
            rs.last().date,
            rs.last().value@,
        ));
        assert(spec_records_map(head).insert(r.date, r.value@).insert(
            rs.last().date,
            rs.last().value@,
        ) =~= spec_records_map(head).insert(rs.last().date, rs.last().value@).insert(
            r.date,
            r.value@,
        ));
    }
}

/// Removing the record that carries `d` removes `d` from the mapping.
pub proof fn lemma_records_map_remove(rs: Seq<Record>, i: int)
    requires
        spec_unique_dates(rs),
        0 <= i < rs.len(),
    ensures
        spec_records_map(rs.remove(i)) == spec_records_map(rs).remove(rs[i].date),
    decreases rs.len(),
{
    let d = rs[i].date;
    let rs2 = rs.remove(i);
    lemma_records_map(rs);
    if i == rs.len() - 1 {
        assert(rs2 =~= rs.drop_last());
        lemma_records_map(rs2);
        assert(!spec_has_date(rs2, d));
        assert(!spec_records_map(rs2).contains_key(d));
        assert(spec_records_map(rs) == spec_records_map(rs2).insert(d, rs.last().value@));
        assert(spec_records_map(rs2).insert(d, rs.last().value@).remove(d) =~= spec_records_map(
            rs2,
        ));
    } else {
        let head = rs.drop_last();
        assert(spec_unique_dates(head));
        lemma_records_map_remove(head, i);
        assert(rs2.drop_last() =~= head.remove(i));
        assert(rs2.last() == rs.last());
        assert(spec_records_map(rs2) == spec_records_map(head).remove(d).insert(
            rs.last().date,
            rs.last().value@,
        ));
        assert(rs.last().date != d);
        assert(spec_records_map(head).remove(d).insert(rs.last().date, rs.last().value@)
            =~= spec_records_map(head).insert(rs.last().date, rs.last().value@).remove(d));
    }
}

/// Saturating increment of a count.
pub open spec fn spec_inc_sat(n: nat) -> nat {
    if n >= u64::MAX {
        u64::MAX as nat
    } else {
        n + 1
    }
}

/// What one mark does to a habit's date-to-value mapping: toggle the
/// sentinel record for a Boolean habit, start at zero or increment for
/// a Counter habit, store the supplied character for a Character habit.
pub open spec fn spec_mark(
    t: HabitType,
    m: Map<Date, Seq<char>>,
    d: Date,
    val: Option<char>,
) -> Map<Date, Seq<char>> {
    match t {
        HabitType::BIT => if m.contains_key(d) {
            m.remove(d)
        } else {
            m.insert(d, "true"@)
        },
        HabitType::COUNT => if m.contains_key(d) {
            m.insert(d, text::spec_dec(spec_inc_sat(text::spec_dec_value(m[d]))))
        } else {
            m.insert(d, text::spec_dec(0))
        },
        HabitType::ALPHA => m.insert(d, seq![val->0]),
    }
}

impl Habit {
    /// The index of the record carrying `date`, if one exists.
    fn find_record(&self, date: Date) -> (r: Option<usize>)
        ensures
            match r {
                Some(i) => i < self.records@.len() && self.records@[i as int].date == date,
                None => !spec_has_date(self.records@, date),
            },
    {
        let mut i: usize = 0;
        while i < self.records.len()
            invariant
                i <= self.records@.len(),
                forall|j: int| 0 <= j < i ==> (#[trigger] self.records@[j]).date != date,
            decreases self.records@.len() - i,
        {
            if self.records[i].date == date {
                return Some(i);
            }
            i += 1;
        }
        None
    }

    /// Marks this habit for `date`. A Boolean habit toggles: a present
    /// record is removed, an absent one is created. A Counter habit
    /// stores `"0"` on its first mark and increments (saturating) on
    /// every further one. A Character habit stores the supplied
    /// character, overwriting any prior value.
    pub fn check_task(&mut self, date: Date, val: Option<char>)
        requires
            old(self).wf(),
            date.valid(),
            old(self).habit_type == HabitType::ALPHA ==> val is Some,
        ensures
            final(self).wf(),
            final(self).label == old(self).label,
            final(self).habit_type == old(self).habit_type,
            final(self).rec_map() == spec_mark(
                old(self).habit_type,
                old(self).rec_map(),
                date,
                val,
            ),
    {
        proof {
            lemma_records_map(self.records@);
        }
        let found = self.find_record(date);
        match self.habit_type {
            HabitType::BIT => {
                match found {
                    Some(i) => {
                        let ghost rs = self.records@;
                        self.records.remove(i);
                        proof {
                            lemma_records_map_remove(rs, i as int);
                            lemma_remove_keeps_wf(rs, i as int, old(self).habit_type);
                            assert(rs[i as int].date == date);
                        }
                    },
                    None => {
                        let value = new_true_string();
                        let ghost rs = self.records@;
                        self.records.push(Record { date, value });
                        proof {
                            lemma_records_map_push(rs, self.records@.last());
                            lemma_push_keeps_wf(
                                rs,
                                self.records@.last(),
                                old(self).habit_type,
                            );
                        }
                    },
                }
            },
            HabitType::COUNT => {
                match found {
                    Some(i) => {
                        proof {
                            assert(spec_value_ok(
                                self.habit_type,
                                self.records@[i as int].value@,
                            ));
                        }
                        let cur = text::str_to_chars(self.records[i].value.as_str());
                        let ghost stored = self.records@[i as int].value@;
                        proof {
                            let n0 = choose|n: u64| stored == text::spec_dec(n as nat);
                            text::lemma_dec_props(n0 as nat);
                            assert(text::spec_all_digits(cur@.subrange(0, cur@.len() as int))) by {
                                assert(cur@.subrange(0, cur@.len() as int) =~= stored);
                            }
                        }
                        let n = text::parse_dec_saturating(&cur, 0, cur.len());
                        proof {
                            assert(cur@.subrange(0, cur@.len() as int) =~= stored);
                            let n0 = choose|n: u64| stored == text::spec_dec(n as nat);
                            text::lemma_dec_props(n0 as nat);
                            assert(n == n0);
                        }
                        let next = if n == u64::MAX {
                            u64::MAX
                        } else {
                            n + 1
                        };
                        let mut digits: Vec<char> = Vec::new();
                        text::push_dec(&mut digits, next);
                        let value = text::chars_to_string(&digits);
                        let ghost rs = self.records@;
                        use_set(&mut self.records, i, Record { date, value });
                        proof {
                            let r = Record { date, value };
                            lemma_records_map_update(rs, i as int, self.records@[i as int]);
                            lemma_update_keeps_wf(
                                rs,
                                i as int,
                                self.records@[i as int],
                                old(self).habit_type,
                            );
                            assert(text::spec_dec_value(old(self).rec_map()[date]) == n as nat);
                        }
                    },
                    None => {
                        let mut digits: Vec<char> = Vec::new();
                        text::push_dec(&mut digits, 0);
                        let value = text::chars_to_string(&digits);
                        let ghost rs = self.records@;
                        self.records.push(Record { date, value });
                        proof {
                            lemma_records_map_push(rs, self.records@.last());
                            lemma_push_keeps_wf(
                                rs,
                                self.records@.last(),
                                old(self).habit_type,
                            );
                            assert(spec_value_ok(HabitType::COUNT, text::spec_dec(0))) by {
                                assert(text::spec_dec(0) == text::spec_dec(0u64 as nat));
                            }
                        }
                    },
                }
            },
            HabitType::ALPHA => {
                let c = val.unwrap();
                let mut value = String::new();
                text::push_char(&mut value, c);
                proof {
                    assert(value@ =~= seq![c]);
                }
                match found {
                    Some(i) => {
                        let ghost rs = self.records@;
                        use_set(&mut self.records, i, Record { date, value });
                        proof {
                            lemma_records_map_update(rs, i as int, self.records@[i as int]);
                            lemma_update_keeps_wf(
                                rs,
                                i as int,
                                self.records@[i as int],
                                old(self).habit_type,
                            );
                        }
                    },
                    None => {
                        let ghost rs = self.records@;
                        self.records.push(Record { date, value });
                        proof {
                            lemma_records_map_push(rs, self.records@.last());
                            lemma_push_keeps_wf(
                                rs,
                                self.records@.last(),
                                old(self).habit_type,
                            );
                        }
                    },
                }
            },
        }
    }
}

/// Sets index `i` of a record vector.
fn use_set(v: &mut Vec<Record>, i: usize, r: Record)
    requires
        i < old(v)@.len(),
    ensures
        final(v)@ == old(v)@.update(i as int, r),
{
    v.set(i, r);
}

/// The Boolean sentinel value.
fn new_true_string() -> (r: String)
    ensures
        r@ == "true"@,
{
    let mut s = String::new();
    text::push_char(&mut s, 't');
    text::push_char(&mut s, 'r');
    text::push_char(&mut s, 'u');
    text::push_char(&mut s, 'e');
    proof {
        reveal_strlit("true");
        assert(s@ =~= "true"@);
    }
    s
}

proof fn lemma_remove_keeps_wf(rs: Seq<Record>, i: int, t: HabitType)
    requires
        0 <= i < rs.len(),
        spec_unique_dates(rs),
        forall|j: int| 0 <= j < rs.len() ==> (#[trigger] rs[j]).date.valid(),
        forall|j: int| 0 <= j < rs.len() ==> spec_value_ok(t, (#[trigger] rs[j]).value@),
    ensures
        spec_unique_dates(rs.remove(i)),
        forall|j: int| 0 <= j < rs.remove(i).len() ==> (#[trigger] rs.remove(i)[j]).date.valid(),
        forall|j: int|
            0 <= j < rs.remove(i).len() ==> spec_value_ok(t, (#[trigger] rs.remove(i)[j]).value@),
{
    assert forall|j: int| 0 <= j < rs.remove(i).len() implies (#[trigger] rs.remove(i)[j])
        == (if j < i {
        rs[j]
    } else {
        rs[j + 1]
    }) by {}
}

proof fn lemma_push_keeps_wf(rs: Seq<Record>, r: Record, t: HabitType)
    requires
        spec_unique_dates(rs),
        !spec_has_date(rs, r.date),
        r.date.valid(),
        spec_value_ok(t, r.value@),
        forall|j: int| 0 <= j < rs.len() ==> (#[trigger] rs[j]).date.valid(),
        forall|j: int| 0 <= j < rs.len() ==> spec_value_ok(t, (#[trigger] rs[j]).value@),
    ensures
        spec_unique_dates(rs.push(r)),
        forall|j: int| 0 <= j < rs.push(r).len() ==> (#[trigger] rs.push(r)[j]).date.valid(),
        forall|j: int| 0 <= j < rs.push(r).len() ==> spec_value_ok(t, (#[trigger] rs.push(r)[j]).value@),
{
    assert forall|j: int| 0 <= j < rs.push(r).len() implies (#[trigger] rs.push(r)[j]) == (if j
        < rs.len() {
        rs[j]
    } else {
        r
    }) by {}
}

proof fn lemma_update_keeps_wf(rs: Seq<Record>, i: int, r: Record, t: HabitType)
    requires
        spec_unique_dates(rs),
        0 <= i < rs.len(),
        rs[i].date == r.date,
        r.date.valid(),
        spec_value_ok(t, r.value@),
        forall|j: int| 0 <= j < rs.len() ==> (#[trigger] rs[j]).date.valid(),
        forall|j: int| 0 <= j < rs.len() ==> spec_value_ok(t, (#[trigger] rs[j]).value@),
    ensures
        spec_unique_dates(rs.update(i, r)),
        forall|j: int| 0 <= j < rs.update(i, r).len() ==> (#[trigger] rs.update(i, r)[j]).date.valid(),
        forall|j: int|
            0 <= j < rs.update(i, r).len() ==> spec_value_ok(t, (#[trigger] rs.update(i, r)[j]).value@),
{
    assert forall|j: int| 0 <= j < rs.update(i, r).len() implies (#[trigger] rs.update(i, r)[j])
        == (if j == i {
        r
    } else {
        rs[j]
    }) by {}
}

/// Marking a Boolean habit twice on the same date restores the records
/// to their original mapping: the toggle is its own inverse over two
/// applications.
pub proof fn lemma_bit_toggle_twice(
    m: Map<Date, Seq<char>>,
    d: Date,
    v1: Option<char>,
    v2: Option<char>,
)
    requires
        m.contains_key(d) ==> m[d] == "true"@,
    ensures
        spec_mark(HabitType::BIT, spec_mark(HabitType::BIT, m, d, v1), d, v2) == m,
{
    if m.contains_key(d) {
        assert(m.remove(d).insert(d, "true"@) =~= m);
    } else {
        assert(m.insert(d, "true"@).remove(d) =~= m);
    }
}

/// The first mark of a Counter habit on a date stores `"0"`, and a
/// second mark on the same date stores `"1"`.
pub proof fn lemma_count_first_marks(
    m: Map<Date, Seq<char>>,
    d: Date,
    v1: Option<char>,
    v2: Option<char>,
)
    requires
        !m.contains_key(d),
    ensures
        spec_mark(HabitType::COUNT, m, d, v1)[d] == seq!['0'],
        spec_mark(HabitType::COUNT, spec_mark(HabitType::COUNT, m, d, v1), d, v2)[d] == seq!['1'],
{
    let m1 = spec_mark(HabitType::COUNT, m, d, v1);
    text::lemma_dec_props(0);
    text::lemma_dec_props(1);
    assert(text::spec_dec(0) =~= seq!['0']);
    assert(text::spec_dec(1) =~= seq!['1']);
    assert(m1[d] == text::spec_dec(0));
    assert(spec_inc_sat(text::spec_dec_value(m1[d])) == 1);
}

} // verus!
