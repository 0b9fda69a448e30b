//! The persisted-state text format: a tracker written as one JSON-shaped
//! text with the week start, and each habit's label, type and records,
//! and read back from it. The writer and the reader share one spec-level
//! grammar, so what `serialize_tracker` emits is exactly what
//! `parse_tracker` describes.

use vstd::prelude::*;
use crate::date::{Date, spec_date_key, push_date_key};
use crate::habit::{Habit, HabitType, Record};
use crate::text;
use crate::tracker::HabitTracker;

verus! {

/// The mathematical model of one habit.
pub struct HabitModel {
    pub label: Seq<char>,
    pub habit_type: HabitType,
    pub records: Seq<(Date, Seq<char>)>,
}

/// The mathematical model of a tracker.
pub struct TrackerModel {
    pub start: Date,
    pub habits: Seq<HabitModel>,
}

/// The model a habit holds.
pub open spec fn model_of_habit(h: Habit) -> HabitModel {
    HabitModel {
        label: h.label@,
        habit_type: h.habit_type,
        records: h.records@.map_values(|r: Record| (r.date, r.value@)),
    }
}

/// The model a tracker holds.
pub open spec fn model_of(t: HabitTracker) -> TrackerModel {
    TrackerModel {
        start: t.start_date,
        habits: t.habits@.map_values(|h: Habit| model_of_habit(h)),
    }
}

/// One character as written inside a quoted string: quotes and
/// backslashes carry a backslash before them.
pub open spec fn spec_escape_char(c: char) -> Seq<char> {
    if c == '"' || c == '\\' {
        seq!['\\', c]
    } else {
        seq![c]
    }
}

/// A text as written inside a quoted string.
pub open spec fn spec_escape(s: Seq<char>) -> Seq<char>
    decreases s.len(),
{
    if s.len() == 0 {
        Seq::empty()
    } else {
        spec_escape_char(s.first()) + spec_escape(s.drop_first())
    }
}

/// The written name of a habit type.
pub open spec fn spec_type_name(t: HabitType) -> Seq<char> {
    match t {
        HabitType::BIT => "BIT"@,
        HabitType::COUNT => "COUNT"@,
        HabitType::ALPHA => "ALPHA"@,
    }
}

/// One written record: the quoted date key and the quoted value.
pub open spec fn spec_ser_pair(p: (Date, Seq<char>)) -> Seq<char> {
    seq!['"'] + spec_date_key(p.0) + seq!['"', ':', '"'] + spec_escape(p.1) + seq!['"']
}

/// The written records, separated by commas.
pub open spec fn spec_ser_records(rs: Seq<(Date, Seq<char>)>) -> Seq<char>
    decreases rs.len(),
{
    if rs.len() == 0 {
        Seq::empty()
    } else if rs.len() == 1 {
        spec_ser_pair(rs[0])
    } else {
        spec_ser_pair(rs[0]) + seq![','] + spec_ser_records(rs.drop_first())
    }
}

/// One written habit.
pub open spec fn spec_ser_habit(h: HabitModel) -> Seq<char> {
    "{\"label\":\""@ + spec_escape(h.label) + "\",\"habit_type\":\""@ + spec_type_name(
        h.habit_type,
    ) + "\",\"records\":{"@ + spec_ser_records(h.records) + "}}"@
}

/// The written habits, separated by commas.
pub open spec fn spec_ser_habits(hs: Seq<HabitModel>) -> Seq<char>
    decreases hs.len(),
{
    if hs.len() == 0 {
        Seq::empty()
    } else if hs.len() == 1 {
        spec_ser_habit(hs[0])
    } else {
        spec_ser_habit(hs[0]) + seq![','] + spec_ser_habits(hs.drop_first())
    }
}

/// The whole written tracker: the week start as a midnight timestamp
/// and the habit list.
pub open spec fn spec_serialize(m: TrackerModel) -> Seq<char> {
    "{\"week_start\":\""@ + spec_date_key(m.start) + "T00:00:00Z\",\"habits\":["@
        + spec_ser_habits(m.habits) + "]}"@
}

/// Escaping one more character appends its written form.
proof fn lemma_escape_push(s: Seq<char>, c: char)
    ensures
        spec_escape(s.push(c)) == spec_escape(s) + spec_escape_char(c),
    decreases s.len(),
{
    if s.len() == 0 {
        assert(s.push(c).drop_first() =~= Seq::<char>::empty());
        assert(s.push(c).first() == c);
        assert(spec_escape(s.push(c)) == spec_escape_char(c) + spec_escape(
            Seq::<char>::empty(),
        ));
        assert(spec_escape(Seq::<char>::empty()) == Seq::<char>::empty());
        assert(spec_escape_char(c) + Seq::<char>::empty() =~= spec_escape_char(c));
        assert(spec_escape(s) + spec_escape_char(c) =~= spec_escape_char(c));
    } else {
        lemma_escape_push(s.drop_first(), c);
        assert(s.push(c).drop_first() =~= s.drop_first().push(c));
        assert(s.push(c).first() == s.first());
        assert(spec_escape(s.push(c)) == spec_escape_char(s.first()) + (spec_escape(s.drop_first())
            + spec_escape_char(c)));
        assert(spec_escape_char(s.first()) + (spec_escape(s.drop_first()) + spec_escape_char(c))
            =~= (spec_escape_char(s.first()) + spec_escape(s.drop_first())) + spec_escape_char(c));
    }
}

/// Writing one more record appends a comma (after a first record) and
/// its written form.
proof fn lemma_ser_records_push(rs: Seq<(Date, Seq<char>)>, p: (Date, Seq<char>))
    ensures
        rs.len() == 0 ==> spec_ser_records(rs.push(p)) == spec_ser_pair(p),
        rs.len() > 0 ==> spec_ser_records(rs.push(p)) == spec_ser_records(rs) + seq![',']
            + spec_ser_pair(p),
    decreases rs.len(),
{
    let e = rs.push(p);
    if rs.len() == 0 {
        assert(e[0] == p);
        assert(spec_ser_records(e) == spec_ser_pair(p));
    } else {
        lemma_ser_records_push(rs.drop_first(), p);
        assert(e.drop_first() =~= rs.drop_first().push(p));
        assert(e[0] == rs[0]);
        if rs.len() == 1 {
            assert(spec_ser_records(e) == spec_ser_pair(rs[0]) + seq![','] + spec_ser_records(
                rs.drop_first().push(p),
            ));
            assert(spec_ser_records(rs.drop_first().push(p)) == spec_ser_pair(p));
            assert(spec_ser_records(rs) == spec_ser_pair(rs[0]));
        } else {
            assert(spec_ser_records(e) == spec_ser_pair(rs[0]) + seq![','] + spec_ser_records(
                e.drop_first(),
            ));
            assert(spec_ser_records(e.drop_first()) == spec_ser_records(rs.drop_first()) + seq![',']
                + spec_ser_pair(p));
            assert(spec_ser_pair(rs[0]) + seq![','] + (spec_ser_records(rs.drop_first())
                + seq![','] + spec_ser_pair(p)) =~= (spec_ser_pair(rs[0]) + seq![',']
                + spec_ser_records(rs.drop_first())) + seq![','] + spec_ser_pair(p));
        }
    }
}

/// Writing one more habit appends a comma (after a first habit) and
/// its written form.
proof fn lemma_ser_habits_push(hs: Seq<HabitModel>, h: HabitModel)
    ensures
        hs.len() == 0 ==> spec_ser_habits(hs.push(h)) == spec_ser_habit(h),
        hs.len() > 0 ==> spec_ser_habits(hs.push(h)) == spec_ser_habits(hs) + seq![',']
            + spec_ser_habit(h),
    decreases hs.len(),
{
    let e = hs.push(h);
    if hs.len() == 0 {
        assert(e[0] == h);
        assert(spec_ser_habits(e) == spec_ser_habit(h));
    } else {
        lemma_ser_habits_push(hs.drop_first(), h);
        assert(e.drop_first() =~= hs.drop_first().push(h));
        assert(e[0] == hs[0]);
        if hs.len() == 1 {
            assert(spec_ser_habits(e) == spec_ser_habit(hs[0]) + seq![','] + spec_ser_habits(
                hs.drop_first().push(h),
            ));
            assert(spec_ser_habits(hs.drop_first().push(h)) == spec_ser_habit(h));
            assert(spec_ser_habits(hs) == spec_ser_habit(hs[0]));
        } else {
            assert(spec_ser_habits(e) == spec_ser_habit(hs[0]) + seq![','] + spec_ser_habits(
                e.drop_first(),
            ));
            assert(spec_ser_habits(e.drop_first()) == spec_ser_habits(hs.drop_first()) + seq![',']
                + spec_ser_habit(h));
            assert(spec_ser_habit(hs[0]) + seq![','] + (spec_ser_habits(hs.drop_first())
                + seq![','] + spec_ser_habit(h)) =~= (spec_ser_habit(hs[0]) + seq![',']
                + spec_ser_habits(hs.drop_first())) + seq![','] + spec_ser_habit(h));
        }
    }
}

/// Appends the characters of `s` to `out`.
fn push_str_chars(out: &mut Vec<char>, s: &str)
    ensures
        final(out)@ == old(out)@ + s@,
{
    let cs = text::str_to_chars(s);
    let mut i: usize = 0;
    while i < cs.len()
        invariant
            i <= cs@.len(),
            cs@ == s@,
            out@ == old(out)@ + s@.subrange(0, i as int),
        decreases cs@.len() - i,
    {
        out.push(cs[i]);
        proof {
            assert(old(out)@ + s@.subrange(0, i as int) + seq![s@[i as int]] =~= old(out)@
                + s@.subrange(0, i + 1 as int));
        }
        i += 1;
    }
    proof {
        assert(s@.subrange(0, s@.len() as int) =~= s@);
    }
}

/// Appends the escaped form of `s` to `out`.
fn push_escaped(out: &mut Vec<char>, s: &str)
    ensures
        final(out)@ == old(out)@ + spec_escape(s@),
{
    let cs = text::str_to_chars(s);
    let mut i: usize = 0;
    proof {
        assert(cs@.subrange(0, 0) =~= Seq::<char>::empty());
    }
    while i < cs.len()
        invariant
            i <= cs@.len(),
            cs@ == s@,
            out@ == old(out)@ + spec_escape(s@.subrange(0, i as int)),
        decreases cs@.len() - i,
    {
        let c = cs[i];
        if c == '"' || c == '\\' {
            out.push('\\');
            out.push(c);
        } else {
            out.push(c);
        }
        proof {
            lemma_escape_push(s@.subrange(0, i as int), s@[i as int]);
            assert(s@.subrange(0, i as int).push(s@[i as int]) =~= s@.subrange(0, i + 1 as int));
            assert(out@ =~= old(out)@ + spec_escape(s@.subrange(0, i + 1 as int)));
        }
        i += 1;
    }
    proof {
        assert(s@.subrange(0, s@.len() as int) =~= s@);
    }
}

/// Appends the written name of a habit type to `out`.
fn push_type_name(out: &mut Vec<char>, t: HabitType)
    ensures
        final(out)@ == old(out)@ + spec_type_name(t),
{
    match t {
        HabitType::BIT => push_str_chars(out, "BIT"),
        HabitType::COUNT => push_str_chars(out, "COUNT"),
        HabitType::ALPHA => push_str_chars(out, "ALPHA"),
    }
}

/// Appends one written record to `out`.
fn push_pair(out: &mut Vec<char>, r: &Record)
    requires
        r.date.valid(),
    ensures
        final(out)@ == old(out)@ + spec_ser_pair((r.date, r.value@)),
{
    out.push('"');
    push_date_key(out, r.date);
    out.push('"');
    out.push(':');
    out.push('"');
    push_escaped(out, r.value.as_str());
    out.push('"');
    proof {
        assert(out@ =~= old(out)@ + spec_ser_pair((r.date, r.value@)));
    }
}

/// Appends one written habit to `out`.
fn push_habit(out: &mut Vec<char>, h: &Habit)
    requires
        h.wf(),
    ensures
        final(out)@ == old(out)@ + spec_ser_habit(model_of_habit(*h)),
{
    let ghost m = model_of_habit(*h);
    push_str_chars(out, "{\"label\":\"");
    push_escaped(out, h.label.as_str());
    push_str_chars(out, "\",\"habit_type\":\"");
    push_type_name(out, h.habit_type);
    push_str_chars(out, "\",\"records\":{");
    let ghost base = out@;
    let mut i: usize = 0;
    while i < h.records.len()
        invariant
            i <= h.records@.len(),
            h.wf(),
            m == model_of_habit(*h),
            out@ == base + spec_ser_records(m.records.subrange(0, i as int)),
        decreases h.records@.len() - i,
    {
        if i > 0 {
            out.push(',');
        }
        proof {
            assert((#[trigger] h.records@[i as int]).date.valid());
        }
        push_pair(out, &h.records[i]);
        proof {
            let pre = m.records.subrange(0, i as int);
            lemma_ser_records_push(pre, m.records[i as int]);
            assert(pre.push(m.records[i as int]) =~= m.records.subrange(0, i + 1 as int));
            assert(m.records[i as int] == (h.records@[i as int].date, h.records@[i as int].value@));
            if i > 0 {
                assert(out@ =~= base + spec_ser_records(m.records.subrange(0, i + 1 as int)));
            } else {
                assert(out@ =~= base + spec_ser_records(m.records.subrange(0, i + 1 as int)));
            }
        }
        i += 1;
    }
    push_str_chars(out, "}}");
    proof {
        assert(m.records.subrange(0, m.records.len() as int) =~= m.records);
        assert(out@ =~= old(out)@ + spec_ser_habit(m));
    }
}

/// The whole tracker as one written text.
pub fn serialize_tracker(t: &HabitTracker) -> (r: String)
    requires
        t.wf(),
    ensures
        r@ == spec_serialize(model_of(*t)),
{
    let ghost m = model_of(*t);
    let mut out: Vec<char> = Vec::new();
    push_str_chars(&mut out, "{\"week_start\":\"");
    push_date_key(&mut out, t.start_date);
    push_str_chars(&mut out, "T00:00:00Z\",\"habits\":[");
    let ghost base = out@;
    let mut i: usize = 0;
    while i < t.habits.len()
        invariant
            i <= t.habits@.len(),
            t.wf(),
            m == model_of(*t),
            out@ == base + spec_ser_habits(m.habits.subrange(0, i as int)),
        decreases t.habits@.len() - i,
    {
        if i > 0 {
            out.push(',');
        }
        proof {
            assert((#[trigger] t.habits@[i as int]).wf());
        }
        push_habit(&mut out, &t.habits[i]);
        proof {
            let pre = m.habits.subrange(0, i as int);
            lemma_ser_habits_push(pre, m.habits[i as int]);
            assert(pre.push(m.habits[i as int]) =~= m.habits.subrange(0, i + 1 as int));
            assert(m.habits[i as int] == model_of_habit(t.habits@[i as int]));
            assert(out@ =~= base + spec_ser_habits(m.habits.subrange(0, i + 1 as int)));
        }
        i += 1;
    }
    push_str_chars(&mut out, "]}");
    proof {
        assert(m.habits.subrange(0, m.habits.len() as int) =~= m.habits);
        assert(out@ =~= spec_serialize(m));
    }
    text::chars_to_string(&out)
}

/// Whether position `i` of `s` holds the character `c`.
pub open spec fn at(s: Seq<char>, i: int, c: char) -> bool {
    0 <= i < s.len() && s[i] == c
}

/// The characters a digit run consists of.
pub open spec fn digit_pred() -> spec_fn(char) -> bool {
    |c: char| text::spec_is_digit(c)
}

/// The position after the literal `lit` read at `i`, when it is there.
pub open spec fn spec_expect(s: Seq<char>, i: int, lit: Seq<char>) -> Option<int> {
    if 0 <= i && i + lit.len() <= s.len() && s.subrange(i, i + lit.len()) == lit {
        Some(i + lit.len())
    } else {
        None
    }
}

/// The body of a quoted string read from `i` (the opening quote
/// already consumed): characters until the next bare quote, a
/// backslash taking the following character verbatim. The position
/// returned is the one after the closing quote.
pub open spec fn spec_parse_string(s: Seq<char>, i: int) -> Option<(Seq<char>, int)>
    decreases s.len() - i,
{
    if i < 0 || i >= s.len() {
        None
    } else if s[i] == '"' {
        Some((Seq::empty(), i + 1))
    } else if s[i] == '\\' {
        if i + 1 < s.len() {
            match spec_parse_string(s, i + 2) {
                None => None,
                Some(bj) => Some((seq![s[i + 1]] + bj.0, bj.1)),
            }
        } else {
            None
        }
    } else {
        match spec_parse_string(s, i + 1) {
            None => None,
            Some(bj) => Some((seq![s[i]] + bj.0, bj.1)),
        }
    }
}

/// A parsed string ends after its opening position and inside the
/// input.
proof fn lemma_parse_string_pos(s: Seq<char>, i: int)
    ensures
        spec_parse_string(s, i) is Some ==> i < (spec_parse_string(s, i)->0).1 <= s.len(),
    decreases s.len() - i,
{
    if 0 <= i < s.len() {
        if s[i] == '"' {
        } else if s[i] == '\\' {
            if i + 1 < s.len() {
                lemma_parse_string_pos(s, i + 2);
            }
        } else {
            lemma_parse_string_pos(s, i + 1);
        }
    }
}

/// The value of the two digit characters at `k`.
pub open spec fn spec_two_digits(s: Seq<char>, k: int) -> int {
    10 * text::spec_digit_val(s[k]) + text::spec_digit_val(s[k + 1])
}

/// Whether position `k` of `s` holds a digit.
pub open spec fn dig_at(s: Seq<char>, k: int) -> bool {
    0 <= k < s.len() && text::spec_is_digit(s[k])
}

/// A date key read at `i`: an optional minus sign, a year digit run,
/// then two-digit month and day separated by hyphens; only values
/// that form a real calendar date in the 32-bit year range.
pub open spec fn spec_parse_date(s: Seq<char>, i: int) -> Option<(Date, int)> {
    if i < 0 || i > s.len() {
        None
    } else {
        let neg = at(s, i, '-');
        let i0 = if neg {
            i + 1
        } else {
            i
        };
        let j = crate::token::spec_scan(s, i0, digit_pred());
        if i0 >= s.len() || j <= i0 {
            None
        } else {
            let yv = text::spec_dec_value(s.subrange(i0, j));
            if (!neg && yv > i32::MAX as int) || (neg && yv > 2147483648) {
                None
            } else {
                let y = if neg {
                    (-(yv as int)) as i32
                } else {
                    yv as i32
                };
                if at(s, j, '-') && dig_at(s, j + 1) && dig_at(s, j + 2) && at(s, j + 3, '-')
                    && dig_at(s, j + 4) && dig_at(s, j + 5) {
                    let m = spec_two_digits(s, j + 1);
                    let d = spec_two_digits(s, j + 4);
                    if 1 <= m <= 12 && 1 <= d <= crate::date::spec_days_in_month(y as int, m) {
                        Some((Date { year: y, month: m as u8, day: d as u8 }, j + 6))
                    } else {
                        None
                    }
                } else {
                    None
                }
            }
        }
    }
}

/// A parsed date key ends after its opening position and inside the
/// input, on a well-formed date.
proof fn lemma_parse_date_pos(s: Seq<char>, i: int)
    ensures
        spec_parse_date(s, i) is Some ==> i < (spec_parse_date(s, i)->0).1 <= s.len(),
        spec_parse_date(s, i) is Some ==> ((spec_parse_date(s, i)->0).0).valid(),
{
    if spec_parse_date(s, i) is Some {
        let neg = at(s, i, '-');
        let i0 = if neg {
            i + 1
        } else {
            i
        };
        crate::token::lemma_scan_bounds(s, i0, digit_pred());
    }
}

/// The habit type name read at `i`.
pub open spec fn spec_parse_type(s: Seq<char>, i: int) -> Option<(HabitType, int)> {
    if spec_expect(s, i, "BIT"@) is Some {
        Some((HabitType::BIT, spec_expect(s, i, "BIT"@)->0))
    } else if spec_expect(s, i, "COUNT"@) is Some {
        Some((HabitType::COUNT, spec_expect(s, i, "COUNT"@)->0))
    } else if spec_expect(s, i, "ALPHA"@) is Some {
        Some((HabitType::ALPHA, spec_expect(s, i, "ALPHA"@)->0))
    } else {
        None
    }
}

/// One record read at `i`: a quoted date key, a colon, and a quoted
/// value.
pub open spec fn spec_parse_pair(s: Seq<char>, i: int) -> Option<((Date, Seq<char>), int)> {
    if !at(s, i, '"') {
        None
    } else {
        match spec_parse_date(s, i + 1) {
            None => None,
            Some(dj) => {
                if at(s, dj.1, '"') && at(s, dj.1 + 1, ':') && at(s, dj.1 + 2, '"') {
                    match spec_parse_string(s, dj.1 + 3) {
                        None => None,
                        Some(vk) => Some(((dj.0, vk.0), vk.1)),
                    }
                } else {
                    None
                }
            },
        }
    }
}

/// A parsed record ends after its opening position and inside the
/// input, on a well-formed date.
proof fn lemma_parse_pair_pos(s: Seq<char>, i: int)
    ensures
        spec_parse_pair(s, i) is Some ==> i < (spec_parse_pair(s, i)->0).1 <= s.len(),
        spec_parse_pair(s, i) is Some ==> (((spec_parse_pair(s, i)->0).0).0).valid(),
{
    if spec_parse_pair(s, i) is Some {
        lemma_parse_date_pos(s, i + 1);
        let dj = spec_parse_date(s, i + 1)->0;
        lemma_parse_string_pos(s, dj.1 + 3);
    }
}

/// One or more records read at `i`, separated by commas and closed by
/// a brace; the position returned is the one after the brace.
pub open spec fn spec_parse_pairs(s: Seq<char>, i: int) -> Option<(Seq<(Date, Seq<char>)>, int)>
    decreases s.len() - i,
    via spec_parse_pairs_decreases
{
    if i < 0 || i > s.len() {
        None
    } else {
        match spec_parse_pair(s, i) {
            None => None,
            Some(pj) => {
                if at(s, pj.1, ',') {
                    match spec_parse_pairs(s, pj.1 + 1) {
                        None => None,
                        Some(pk) => Some((seq![pj.0] + pk.0, pk.1)),
                    }
                } else if at(s, pj.1, '}') {
                    Some((seq![pj.0], pj.1 + 1))
                } else {
                    None
                }
            },
        }
    }
}

#[via_fn]
proof fn spec_parse_pairs_decreases(s: Seq<char>, i: int) {
    lemma_parse_pair_pos(s, i);
}

/// The inside of the records object read at `i` (the opening brace
/// already consumed): empty, or records; the closing brace is
/// consumed.
pub open spec fn spec_parse_records_body(s: Seq<char>, i: int) -> Option<
    (Seq<(Date, Seq<char>)>, int),
> {
    if at(s, i, '}') {
        Some((Seq::empty(), i + 1))
    } else {
        spec_parse_pairs(s, i)
    }
}

/// What a stored value may be, as the reader checks it: the Boolean
/// sentinel, canonical digits of a 64-bit count, or one character.
pub open spec fn spec_count_ok(v: Seq<char>) -> bool {
    &&& v.len() > 0
    &&& text::spec_all_digits(v)
    &&& (v.len() == 1 || v[0] != '0')
    &&& text::spec_dec_value(v) <= u64::MAX as nat
}

pub open spec fn spec_model_value_ok(t: HabitType, v: Seq<char>) -> bool {
    match t {
        HabitType::BIT => v == "true"@,
        HabitType::COUNT => spec_count_ok(v),
        HabitType::ALPHA => v.len() == 1,
    }
}

/// What the reader accepts as a record list: unique well-formed dates
/// and values that fit the habit type.
pub open spec fn spec_pairs_ok(t: HabitType, rs: Seq<(Date, Seq<char>)>) -> bool {
    &&& forall|a: int, b: int| 0 <= a < b < rs.len() ==> (#[trigger] rs[a]).0 != (#[trigger] rs[b]).0
    &&& forall|a: int| 0 <= a < rs.len() ==> (#[trigger] rs[a]).0.valid()
    &&& forall|a: int| 0 <= a < rs.len() ==> spec_model_value_ok(t, (#[trigger] rs[a]).1)
}

/// One habit object read at `i`: label, habit type and records, in
/// that order, with the record list acceptable for the type.
pub open spec fn spec_parse_habit(s: Seq<char>, i: int) -> Option<(HabitModel, int)> {
    match spec_expect(s, i, "{\"label\":\""@) {
        None => None,
        Some(i1) => match spec_parse_string(s, i1) {
            None => None,
            Some(lab) => match spec_expect(s, lab.1, ",\"habit_type\":\""@) {
                None => None,
                Some(i3) => match spec_parse_type(s, i3) {
                    None => None,
                    Some(ty) => match spec_expect(s, ty.1, "\",\"records\":{"@) {
                        None => None,
                        Some(i5) => match spec_parse_records_body(s, i5) {
                            None => None,
                            Some(rs) => {
                                if at(s, rs.1, '}') && spec_pairs_ok(ty.0, rs.0) {
                                    Some(
                                        (
                                            HabitModel {
                                                label: lab.0,
                                                habit_type: ty.0,
                                                records: rs.0,
                                            },
                                            rs.1 + 1,
                                        ),
                                    )
                                } else {
                                    None
                                }
                            },
                        },
                    },
                },
            },
        },
    }
}

/// A parsed habit ends after its opening position and inside the
/// input.
proof fn lemma_parse_habit_pos(s: Seq<char>, i: int)
    ensures
        spec_parse_habit(s, i) is Some ==> i < (spec_parse_habit(s, i)->0).1 <= s.len(),
{
    if spec_parse_habit(s, i) is Some {
        let i1 = spec_expect(s, i, "{\"label\":\""@)->0;
        lemma_parse_string_pos(s, i1);
        let lab = spec_parse_string(s, i1)->0;
        let i3 = spec_expect(s, lab.1, ",\"habit_type\":\""@)->0;
        let ty = spec_parse_type(s, i3)->0;
        let i5 = spec_expect(s, ty.1, "\",\"records\":{"@)->0;
        if !at(s, i5, '}') {
            lemma_parse_pairs_pos(s, i5);
        }
    }
}

/// Parsed records end after their opening position and inside the
/// input.
proof fn lemma_parse_pairs_pos(s: Seq<char>, i: int)
    ensures
        spec_parse_pairs(s, i) is Some ==> i < (spec_parse_pairs(s, i)->0).1 <= s.len(),
    decreases s.len() - i,
{
    if 0 <= i <= s.len() && spec_parse_pairs(s, i) is Some {
        lemma_parse_pair_pos(s, i);
        let pj = spec_parse_pair(s, i)->0;
        if at(s, pj.1, ',') {
            lemma_parse_pairs_pos(s, pj.1 + 1);
        }
    }
}

/// One or more habit objects read at `i`, separated by commas and
/// closed by a bracket; the position returned is the one after the
/// bracket.
pub open spec fn spec_parse_habits(s: Seq<char>, i: int) -> Option<(Seq<HabitModel>, int)>
    decreases s.len() - i,
    via spec_parse_habits_decreases
{
    if i < 0 || i > s.len() {
        None
    } else {
        match spec_parse_habit(s, i) {
            None => None,
            Some(hj) => {
                if at(s, hj.1, ',') {
                    match spec_parse_habits(s, hj.1 + 1) {
                        None => None,
                        Some(hk) => Some((seq![hj.0] + hk.0, hk.1)),
                    }
                } else if at(s, hj.1, ']') {
                    Some((seq![hj.0], hj.1 + 1))
                } else {
                    None
                }
            },
        }
    }
}

#[via_fn]
proof fn spec_parse_habits_decreases(s: Seq<char>, i: int) {
    lemma_parse_habit_pos(s, i);
}

/// The inside of the habit list read at `i` (the opening bracket
/// already consumed): empty, or habits; the closing bracket is
/// consumed.
pub open spec fn spec_parse_habits_body(s: Seq<char>, i: int) -> Option<(Seq<HabitModel>, int)> {
    if at(s, i, ']') {
        Some((Seq::empty(), i + 1))
    } else {
        spec_parse_habits(s, i)
    }
}

/// The whole written tracker: the week start timestamp and the habit
/// list, consuming the whole text, with the week start inside the
/// navigable year range.
pub open spec fn spec_parse(s: Seq<char>) -> Option<TrackerModel> {
    match spec_expect(s, 0, "{\"week_start\":\""@) {
        None => None,
        Some(i1) => match spec_parse_date(s, i1) {
            None => None,
            Some(dj) => match spec_expect(s, dj.1, "T00:00:00Z\",\"habits\":["@) {
                None => None,
                Some(i3) => match spec_parse_habits_body(s, i3) {
                    None => None,
                    Some(hs) => {
                        if at(s, hs.1, '}') && hs.1 + 1 == s.len() && i32::MIN < dj.0.year
                            < i32::MAX {
                            Some(TrackerModel { start: dj.0, habits: hs.0 })
                        } else {
                            None
                        }
                    },
                },
            },
        },
    }
}

/// Whether position `i` holds `c`.
fn at_char(v: &Vec<char>, i: usize, c: char) -> (r: bool)
    ensures
        r == at(v@, i as int, c),
        r ==> i < v@.len() <= usize::MAX,
{
    i < v.len() && v[i] == c
}

/// Whether position `i` holds a digit.
fn dig_at_exec(v: &Vec<char>, i: usize) -> (r: bool)
    ensures
        r == dig_at(v@, i as int),
        r ==> i < v@.len() <= usize::MAX,
{
    i < v.len() && text::is_digit(v[i])
}

fn scan_digits(v: &Vec<char>, i: usize) -> (j: usize)
    requires
        i <= v@.len(),
    ensures
        j as int == crate::token::spec_scan(v@, i as int, digit_pred()),
        i <= j <= v@.len(),
    decreases v@.len() - i,
{
    proof {
        crate::token::lemma_scan_bounds(v@, i as int, digit_pred());
    }
    if i < v.len() && text::is_digit(v[i]) {
        scan_digits(v, i + 1)
    } else {
        i
    }
}

fn expect_lit(v: &Vec<char>, i: usize, lit: &str) -> (r: Option<usize>)
    requires
        i <= v@.len(),
    ensures
        r is Some <==> spec_expect(v@, i as int, lit@) is Some,
        r is Some ==> r->0 as int == spec_expect(v@, i as int, lit@)->0 && i <= r->0 <= v@.len(),
{
    let n = v.len();
    let cs = text::str_to_chars(lit);
    if cs.len() > n - i {
        return None;
    }
    let mut k: usize = 0;
    while k < cs.len()
        invariant
            n == v@.len(),
            i + cs@.len() <= n,
            k <= cs@.len(),
            cs@ == lit@,
            forall|a: int| 0 <= a < k ==> v@[i + a] == cs@[a],
        decreases cs@.len() - k,
    {
        if v[i + k] != cs[k] {
            proof {
                assert(v@.subrange(i as int, i + lit@.len())[k as int] != lit@[k as int]);
            }
            return None;
        }
        k += 1;
    }
    proof {
        assert(v@.subrange(i as int, i + lit@.len()) =~= lit@);
    }
    Some(i + cs.len())
}

fn parse_string_at(v: &Vec<char>, i: usize) -> (r: Option<(Vec<char>, usize)>)
    requires
        i <= v@.len(),
    ensures
        r is Some <==> spec_parse_string(v@, i as int) is Some,
        r is Some ==> (r->0).0@ == (spec_parse_string(v@, i as int)->0).0 && (r->0).1 as int == (
        spec_parse_string(v@, i as int)->0).1 && i < (r->0).1 <= v@.len(),
    decreases v@.len() - i,
{
    proof {
        lemma_parse_string_pos(v@, i as int);
    }
    if i >= v.len() {
        return None;
    }
    let c = v[i];
    if c == '"' {
        Some((Vec::new(), i + 1))
    } else if c == '\\' {
        if i + 1 < v.len() {
            match parse_string_at(v, i + 2) {
                None => None,
                Some((mut b, j)) => {
                    b.insert(0, v[i + 1]);
                    proof {
                        assert(b@ =~= seq![v@[i + 1]] + (spec_parse_string(v@, i + 2)->0).0);
                    }
                    Some((b, j))
                },
            }
        } else {
            None
        }
    } else {
        match parse_string_at(v, i + 1) {
            None => None,
            Some((mut b, j)) => {
                b.insert(0, c);
                proof {
                    assert(b@ =~= seq![v@[i as int]] + (spec_parse_string(v@, i + 1)->0).0);
                }
                Some((b, j))
            },
        }
    }
}

fn parse_date_at(v: &Vec<char>, i: usize) -> (r: Option<(Date, usize)>)
    requires
        i <= v@.len(),
    ensures
        r is Some <==> spec_parse_date(v@, i as int) is Some,
        r is Some ==> (r->0).0 == (spec_parse_date(v@, i as int)->0).0 && (r->0).1 as int == (
        spec_parse_date(v@, i as int)->0).1 && i < (r->0).1 <= v@.len(),
{
    proof {
        lemma_parse_date_pos(v@, i as int);
    }
    let n = v.len();
    let neg = at_char(v, i, '-');
    let i0 = if neg {
        i + 1
    } else {
        i
    };
    if i0 >= v.len() {
        return None;
    }
    let j = scan_digits(v, i0);
    if j <= i0 {
        return None;
    }
    proof {
        crate::token::lemma_scan_run(v@, i0 as int, digit_pred());
        assert(text::spec_all_digits(v@.subrange(i0 as int, j as int))) by {
            assert(forall|a: int|
                0 <= a < j - i0 ==> digit_pred()(#[trigger] v@.subrange(i0 as int, j as int)[a]));
        }
    }
    let yv = text::parse_dec_saturating(v, i0, j);
    if neg {
        if yv > 2147483648 {
            return None;
        }
    } else {
        if yv > 2147483647 {
            return None;
        }
    }
    let y: i32 = if neg {
        (-(yv as i64)) as i32
    } else {
        yv as i32
    };
    if !(at_char(v, j, '-') && dig_at_exec(v, j + 1) && dig_at_exec(v, j + 2) && at_char(
        v,
        j + 3,
        '-',
    ) && dig_at_exec(v, j + 4) && dig_at_exec(v, j + 5)) {
        return None;
    }
    let m: u8 = (10 * (v[j + 1] as u32 - 48) + (v[j + 2] as u32 - 48)) as u8;
    let d: u8 = (10 * (v[j + 4] as u32 - 48) + (v[j + 5] as u32 - 48)) as u8;
    if !(1 <= m && m <= 12) {
        return None;
    }
    let dim = crate::date::days_in_month(y, m);
    if !(1 <= d && d <= dim) {
        return None;
    }
    Some((Date { year: y, month: m, day: d }, j + 6))
}

fn parse_type_at(v: &Vec<char>, i: usize) -> (r: Option<(HabitType, usize)>)
    requires
        i <= v@.len(),
    ensures
        r is Some <==> spec_parse_type(v@, i as int) is Some,
        r is Some ==> (r->0).0 == (spec_parse_type(v@, i as int)->0).0 && (r->0).1 as int == (
        spec_parse_type(v@, i as int)->0).1 && i <= (r->0).1 <= v@.len(),
{
    match expect_lit(v, i, "BIT") {
        Some(j) => Some((HabitType::BIT, j)),
        None => match expect_lit(v, i, "COUNT") {
            Some(j) => Some((HabitType::COUNT, j)),
            None => match expect_lit(v, i, "ALPHA") {
                Some(j) => Some((HabitType::ALPHA, j)),
                None => None,
            },
        },
    }
}

fn parse_pair_at(v: &Vec<char>, i: usize) -> (r: Option<(Record, usize)>)
    requires
        i <= v@.len(),
    ensures
        r is Some <==> spec_parse_pair(v@, i as int) is Some,
        r is Some ==> ((r->0).0.date, (r->0).0.value@) == (spec_parse_pair(v@, i as int)->0).0 && (
        r->0).1 as int == (spec_parse_pair(v@, i as int)->0).1 && i < (r->0).1 <= v@.len(),
{
    let n = v.len();
    if !at_char(v, i, '"') {
        return None;
    }
    match parse_date_at(v, i + 1) {
        None => None,
        Some((date, j)) => {
            if at_char(v, j, '"') && at_char(v, j + 1, ':') && at_char(v, j + 2, '"') {
                match parse_string_at(v, j + 3) {
                    None => None,
                    Some((b, k)) => {
                        let value = text::chars_to_string(&b);
                        Some((Record { date, value }, k))
                    },
                }
            } else {
                None
            }
        },
    }
}

/// The records' model, as the spec grammar sees a record vector.
pub open spec fn pairs_model(rs: Seq<Record>) -> Seq<(Date, Seq<char>)> {
    rs.map_values(|r: Record| (r.date, r.value@))
}

fn parse_pairs_at(v: &Vec<char>, i: usize) -> (r: Option<(Vec<Record>, usize)>)
    requires
        i <= v@.len(),
    ensures
        r is Some <==> spec_parse_pairs(v@, i as int) is Some,
        r is Some ==> pairs_model((r->0).0@) == (spec_parse_pairs(v@, i as int)->0).0 && (
        r->0).1 as int == (spec_parse_pairs(v@, i as int)->0).1 && i < (r->0).1 <= v@.len(),
    decreases v@.len() - i,
{
    proof {
        lemma_parse_pairs_pos(v@, i as int);
    }
    let n = v.len();
    match parse_pair_at(v, i) {
        None => None,
        Some((p, j)) => {
            if at_char(v, j, ',') {
                match parse_pairs_at(v, j + 1) {
                    None => None,
                    Some((mut ps, k)) => {
                        ps.insert(0, p);
                        proof {
                            assert(pairs_model(ps@) =~= seq![
                                (spec_parse_pair(v@, i as int)->0).0,
                            ] + (spec_parse_pairs(v@, j + 1)->0).0);
                        }
                        Some((ps, k))
                    },
                }
            } else if at_char(v, j, '}') {
                let mut ps: Vec<Record> = Vec::new();
                ps.push(p);
                proof {
                    assert(pairs_model(ps@) =~= seq![(spec_parse_pair(v@, i as int)->0).0]);
                }
                Some((ps, j + 1))
            } else {
                None
            }
        },
    }
}

fn parse_records_body_at(v: &Vec<char>, i: usize) -> (r: Option<(Vec<Record>, usize)>)
    requires
        i <= v@.len(),
    ensures
        r is Some <==> spec_parse_records_body(v@, i as int) is Some,
        r is Some ==> pairs_model((r->0).0@) == (spec_parse_records_body(v@, i as int)->0).0 && (
        r->0).1 as int == (spec_parse_records_body(v@, i as int)->0).1 && i < (r->0).1 <= v@.len(),
{
    let n = v.len();
    if at_char(v, i, '}') {
        let ps: Vec<Record> = Vec::new();
        proof {
            assert(pairs_model(ps@) =~= Seq::<(Date, Seq<char>)>::empty());
        }
        Some((ps, i + 1))
    } else {
        parse_pairs_at(v, i)
    }
}

/// Whether the record vector passes the reader's checks for this
/// habit type.
fn records_ok(t: HabitType, rs: &Vec<Record>) -> (r: bool)
    ensures
        r == spec_pairs_ok(t, pairs_model(rs@)),
{
    let ghost m = pairs_model(rs@);
    let mut a: usize = 0;
    while a < rs.len()
        invariant
            a <= rs@.len(),
            m == pairs_model(rs@),
            forall|x: int, y: int|
                0 <= x < y < rs@.len() && x < a ==> (#[trigger] m[x]).0 != (#[trigger] m[y]).0,
            forall|x: int| 0 <= x < a ==> (#[trigger] m[x]).0.valid(),
            forall|x: int| 0 <= x < a ==> spec_model_value_ok(t, (#[trigger] m[x]).1),
        decreases rs@.len() - a,
    {
        if !rs[a].date.is_valid() {
            proof {
                assert(!(m[a as int]).0.valid());
            }
            return false;
        }
        let mut b: usize = a + 1;
        while b < rs.len()
            invariant
                a < rs@.len(),
                a < b,
                b <= rs@.len() + 1,
                m == pairs_model(rs@),
                forall|y: int| a < y < b && y < rs@.len() ==> (#[trigger] m[y]).0 != m[a as int].0,
            decreases rs@.len() - b,
        {
            if rs[b].date == rs[a].date {
                proof {
                    assert((m[a as int]).0 == (m[b as int]).0);
                }
                return false;
            }
            b += 1;
        }
        let ok = match t {
            HabitType::BIT => text::string_eq_str(&rs[a].value, "true"),
            HabitType::COUNT => count_value_ok(&rs[a].value),
            HabitType::ALPHA => {
                let cs = text::str_to_chars(rs[a].value.as_str());
                cs.len() == 1
            },
        };
        if !ok {
            proof {
                assert(!spec_model_value_ok(t, (m[a as int]).1));
            }
            return false;
        }
        a += 1;
    }
    true
}

/// Whether the value is canonical digits of a 64-bit count.
fn count_value_ok(value: &String) -> (r: bool)
    ensures
        r == spec_count_ok(value@),
{
    let cs = text::str_to_chars(value.as_str());
    if cs.len() == 0 {
        return false;
    }
    let mut i: usize = 0;
    while i < cs.len()
        invariant
            i <= cs@.len(),
            cs@ == value@,
            forall|j: int| 0 <= j < i ==> text::spec_is_digit(#[trigger] cs@[j]),
        decreases cs@.len() - i,
    {
        if !text::is_digit(cs[i]) {
            return false;
        }
        i += 1;
    }
    if cs.len() > 1 && cs[0] == '0' {
        return false;
    }
    proof {
        assert(cs@.subrange(0, cs@.len() as int) =~= cs@);
    }
    match text::parse_dec_checked(&cs, 0, cs.len()) {
        Some(_) => true,
        None => false,
    }
}

/// Records that pass the reader's checks make a well-formed habit.
proof fn lemma_checked_records_wf(h: Habit)
    requires
        spec_pairs_ok(h.habit_type, pairs_model(h.records@)),
    ensures
        h.wf(),
{
    let m = pairs_model(h.records@);
    assert forall|i: int, j: int|
        0 <= i < j < h.records@.len() implies h.records@[i].date != h.records@[j].date by {
        assert(m[i].0 == h.records@[i].date);
        assert(m[j].0 == h.records@[j].date);
    }
    assert forall|i: int|
        0 <= i < h.records@.len() implies (#[trigger] h.records@[i]).date.valid() by {
        assert(m[i].0 == h.records@[i].date);
    }
    assert forall|i: int|
        0 <= i < h.records@.len() implies crate::habit::spec_value_ok(
        h.habit_type,
        (#[trigger] h.records@[i]).value@,
    ) by {
        assert(m[i].1 == h.records@[i].value@);
        assert(spec_model_value_ok(h.habit_type, m[i].1));
        if h.habit_type == HabitType::COUNT {
            lemma_count_ok_value(m[i].1);
        }
    }
}

/// A value the reader accepts for a Counter habit is the written form
/// of some 64-bit count.
proof fn lemma_count_ok_value(v: Seq<char>)
    requires
        spec_count_ok(v),
    ensures
        crate::habit::spec_value_ok(HabitType::COUNT, v),
{
    text::lemma_canonical_dec(v);
    let n = text::spec_dec_value(v);
    assert(v == text::spec_dec((n as u64) as nat));
}

fn parse_habit_at(v: &Vec<char>, i: usize) -> (r: Option<(Habit, usize)>)
    requires
        i <= v@.len(),
    ensures
        r is Some <==> spec_parse_habit(v@, i as int) is Some,
        r is Some ==> model_of_habit((r->0).0) == (spec_parse_habit(v@, i as int)->0).0 && (
        r->0).0.wf() && (r->0).1 as int == (spec_parse_habit(v@, i as int)->0).1 && i < (r->0).1
            <= v@.len(),
{
    let n = v.len();
    match expect_lit(v, i, "{\"label\":\"") {
        None => None,
        Some(i1) => match parse_string_at(v, i1) {
            None => None,
            Some((lab, i2)) => match expect_lit(v, i2, ",\"habit_type\":\"") {
                None => None,
                Some(i3) => match parse_type_at(v, i3) {
                    None => None,
                    Some((t, i4)) => match expect_lit(v, i4, "\",\"records\":{") {
                        None => None,
                        Some(i5) => match parse_records_body_at(v, i5) {
                            None => None,
                            Some((rs, i6)) => {
                                if at_char(v, i6, '}') && records_ok(t, &rs) {
                                    let label = text::chars_to_string(&lab);
                                    let habit = Habit { label, habit_type: t, records: rs };
                                    proof {
                                        lemma_checked_records_wf(habit);
                                    }
                                    Some((habit, i6 + 1))
                                } else {
                                    None
                                }
                            },
                        },
                    },
                },
            },
        },
    }
}

/// The habits' model, as the spec grammar sees a habit vector.
pub open spec fn habits_model(hs: Seq<Habit>) -> Seq<HabitModel> {
    hs.map_values(|h: Habit| model_of_habit(h))
}

fn parse_habits_at(v: &Vec<char>, i: usize) -> (r: Option<(Vec<Habit>, usize)>)
    requires
        i <= v@.len(),
    ensures
        r is Some <==> spec_parse_habits(v@, i as int) is Some,
        r is Some ==> habits_model((r->0).0@) == (spec_parse_habits(v@, i as int)->0).0 && (
        r->0).1 as int == (spec_parse_habits(v@, i as int)->0).1 && i < (r->0).1 <= v@.len()
            && (forall|a: int| 0 <= a < (r->0).0@.len() ==> (#[trigger] (r->0).0@[a]).wf()),
    decreases v@.len() - i,
{
    proof {
        lemma_parse_habit_pos(v@, i as int);
    }
    let n = v.len();
    match parse_habit_at(v, i) {
        None => None,
        Some((h, j)) => {
            if at_char(v, j, ',') {
                match parse_habits_at(v, j + 1) {
                    None => None,
                    Some((mut hs, k)) => {
                        hs.insert(0, h);
                        proof {
                            assert(habits_model(hs@) =~= seq![
                                (spec_parse_habit(v@, i as int)->0).0,
                            ] + (spec_parse_habits(v@, j + 1)->0).0);
                        }
                        Some((hs, k))
                    },
                }
            } else if at_char(v, j, ']') {
                let mut hs: Vec<Habit> = Vec::new();
                hs.push(h);
                proof {
                    assert(habits_model(hs@) =~= seq![(spec_parse_habit(v@, i as int)->0).0]);
                }
                Some((hs, j + 1))
            } else {
                None
            }
        },
    }
}

/// A scan over a run of matching characters stops exactly where the
/// run ends.
proof fn lemma_scan_exact(s: Seq<char>, i: int, f: spec_fn(char) -> bool, k: int)
    requires
        0 <= i,
        0 <= k,
        i + k <= s.len(),
        forall|j: int| i <= j < i + k ==> f(#[trigger] s[j]),
        i + k == s.len() || !f(s[i + k]),
    ensures
        crate::token::spec_scan(s, i, f) == i + k,
    decreases k,
{
    if k > 0 {
        lemma_scan_exact(s, i + 1, f, k - 1);
    }
}

/// Zeros in front of a digit string change nothing about its value.
proof fn lemma_dec_value_zeros(z: nat, t: Seq<char>)
    ensures
        text::spec_dec_value(Seq::new(z, |i: int| '0') + t) == text::spec_dec_value(t),
    decreases t.len(), z,
{
    let zs = Seq::new(z, |i: int| '0');
    if t.len() == 0 {
        assert(zs + t =~= zs);
        if z == 0 {
            assert(zs =~= Seq::<char>::empty());
        } else {
            lemma_dec_value_zeros((z - 1) as nat, t);
            let zs1 = Seq::new((z - 1) as nat, |i: int| '0');
            assert(zs.drop_last() =~= zs1 + t);
            assert(zs.last() == '0');
            assert(text::spec_digit_val('0') == 0);
        }
    } else {
        lemma_dec_value_zeros(z, t.drop_last());
        assert((zs + t).drop_last() =~= zs + t.drop_last());
        assert((zs + t).last() == t.last());
    }
}

/// The value of a zero-padded digit string is the value it pads.
proof fn lemma_pad_value(n: nat, w: nat)
    ensures
        text::spec_dec_value(crate::date::spec_pad_zeros(text::spec_dec(n), w)) == n,
        text::spec_all_digits(crate::date::spec_pad_zeros(text::spec_dec(n), w)),
        crate::date::spec_pad_zeros(text::spec_dec(n), w).len() >= w,
        crate::date::spec_pad_zeros(text::spec_dec(n), w).len() >= 1,
{
    text::lemma_dec_props(n);
    let d = text::spec_dec(n);
    let p = crate::date::spec_pad_zeros(d, w);
    if d.len() < w {
        let zs = Seq::new((w - d.len()) as nat, |i: int| '0');
        lemma_dec_value_zeros((w - d.len()) as nat, d);
        assert(p == zs + d);
        assert forall|j: int| 0 <= j < p.len() implies text::spec_is_digit(#[trigger] p[j]) by {
            if j < zs.len() {
                assert(p[j] == '0');
            } else {
                assert(p[j] == d[j - zs.len()]);
            }
        }
    }
}

/// A two-digit field holds exactly the number it writes.
proof fn lemma_pad2_props(m: nat)
    requires
        m < 100,
    ensures
        crate::date::spec_pad2(m).len() == 2,
        text::spec_is_digit(crate::date::spec_pad2(m)[0]),
        text::spec_is_digit(crate::date::spec_pad2(m)[1]),
        10 * text::spec_digit_val(crate::date::spec_pad2(m)[0]) + text::spec_digit_val(
            crate::date::spec_pad2(m)[1],
        ) == m,
{
    text::lemma_dec_props(m);
    let p = crate::date::spec_pad2(m);
    if m < 10 {
        text::lemma_digit_char_val(m as int);
        let zs = Seq::new(1, |i: int| '0');
        assert(p == zs + text::spec_dec(m));
        assert(p[0] == '0');
        assert(p[1] == text::spec_dec(m)[0]);
        assert(text::spec_dec(m)[0] == text::spec_digit_char(m as int));
    } else {
        text::lemma_dec_props(m / 10);
        text::lemma_digit_char_val((m / 10) as int);
        text::lemma_digit_char_val((m % 10) as int);
        vstd::arithmetic::div_mod::lemma_fundamental_div_mod(m as int, 10);
        assert(text::spec_dec(m) == text::spec_dec(m / 10).push(
            text::spec_digit_char((m % 10) as int),
        ));
        assert(text::spec_dec(m / 10) =~= seq![text::spec_digit_char((m / 10) as int)]);
        assert(text::spec_dec(m).len() == 2);
        assert(p == text::spec_dec(m));
        assert(p[0] == text::spec_digit_char((m / 10) as int));
        assert(p[1] == text::spec_digit_char((m % 10) as int));
    }
}

/// Reading a literal that stands at `i` moves past it.
proof fn lemma_expect_of(s: Seq<char>, i: int, lit: Seq<char>)
    requires
        0 <= i,
        i + lit.len() <= s.len(),
        s.subrange(i, i + lit.len()) == lit,
    ensures
        spec_expect(s, i, lit) == Some(i + lit.len()),
{
}

/// Reading a string whose escaped form stands at `i`, closed by a
/// quote, recovers the body and stops after the quote.
proof fn lemma_parse_string_of(s: Seq<char>, i: int, body: Seq<char>)
    requires
        0 <= i,
        i + spec_escape(body).len() + 1 <= s.len(),
        s.subrange(i, i + spec_escape(body).len()) == spec_escape(body),
        s[i + spec_escape(body).len()] == '"',
    ensures
        spec_parse_string(s, i) == Some((body, i + spec_escape(body).len() + 1)),
    decreases body.len(),
{
    let e = spec_escape(body);
    if body.len() == 0 {
        assert(e =~= Seq::<char>::empty());
        assert(s[i] == '"');
    } else {
        let c = body.first();
        let rest = body.drop_first();
        let e1 = spec_escape_char(c);
        let e2 = spec_escape(rest);
        assert(e == e1 + e2);
        if c == '"' || c == '\\' {
            assert(e1 =~= seq!['\\', c]);
            assert(s[i] == e[0]);
            assert(e[0] == '\\');
            assert(s[i + 1] == e[1]);
            assert(e[1] == c);
            assert(s.subrange(i + 2, i + 2 + e2.len()) =~= e2) by {
                assert(forall|j: int|
                    0 <= j < e2.len() ==> s.subrange(i + 2, i + 2 + e2.len())[j] == s[i + 2 + j]
                        && e[2 + j] == e2[j]);
                assert(forall|j: int| 0 <= j < e.len() ==> s[i + j] == e[j]);
            }
            assert(s[i + 2 + e2.len()] == '"') by {
                assert(e.len() == 2 + e2.len());
            }
            lemma_parse_string_of(s, i + 2, rest);
            assert(seq![s[i + 1]] + rest =~= body);
        } else {
            assert(e1 =~= seq![c]);
            assert(s[i] == e[0]);
            assert(e[0] == c);
            assert(s.subrange(i + 1, i + 1 + e2.len()) =~= e2) by {
                assert(forall|j: int|
                    0 <= j < e2.len() ==> s.subrange(i + 1, i + 1 + e2.len())[j] == s[i + 1 + j]
                        && e[1 + j] == e2[j]);
                assert(forall|j: int| 0 <= j < e.len() ==> s[i + j] == e[j]);
            }
            assert(s[i + 1 + e2.len()] == '"') by {
                assert(e.len() == 1 + e2.len());
            }
            lemma_parse_string_of(s, i + 1, rest);
            assert(seq![s[i]] + rest =~= body);
        }
    }
}

/// A slice of a matched region matches the same slice of the pattern.
proof fn lemma_sub_of_match(s: Seq<char>, i: int, w: Seq<char>, a: int, b: int)
    requires
        0 <= i,
        i + w.len() <= s.len(),
        s.subrange(i, i + w.len()) == w,
        0 <= a <= b <= w.len(),
    ensures
        s.subrange(i + a, i + b) == w.subrange(a, b),
{
    assert(s.subrange(i + a, i + b) =~= w.subrange(a, b)) by {
        assert forall|x: int| 0 <= x < b - a implies #[trigger] s.subrange(i + a, i + b)[x]
            == w.subrange(a, b)[x] by {
            assert(s.subrange(i, i + w.len())[a + x] == w[a + x]);
        }
    }
}

/// The character of a matched region at offset `a` is the pattern's.
proof fn lemma_char_of_match(s: Seq<char>, i: int, w: Seq<char>, a: int)
    requires
        0 <= i,
        i + w.len() <= s.len(),
        s.subrange(i, i + w.len()) == w,
        0 <= a < w.len(),
    ensures
        s[i + a] == w[a],
{
    assert(s.subrange(i, i + w.len())[a] == w[a]);
}

/// Reading a date key that stands at `i` recovers the date and stops
/// after it.
proof fn lemma_parse_date_of(s: Seq<char>, i: int, d: Date)
    requires
        0 <= i,
        d.valid(),
        i + spec_date_key(d).len() <= s.len(),
        s.subrange(i, i + spec_date_key(d).len()) == spec_date_key(d),
    ensures
        spec_parse_date(s, i) == Some((d, i + spec_date_key(d).len())),
{
    let k = spec_date_key(d);
    let yp = crate::date::spec_year_part(d.year as int);
    let pm = crate::date::spec_pad2(d.month as nat);
    let pd = crate::date::spec_pad2(d.day as nat);
    lemma_pad2_props(d.month as nat);
    lemma_pad2_props(d.day as nat);
    let a: nat = if d.year < 0 {
        (-(d.year as int)) as nat
    } else {
        d.year as nat
    };
    let p = crate::date::spec_pad_zeros(text::spec_dec(a), 4);
    lemma_pad_value(a, 4);
    let neg = d.year < 0;
    let i0 = if neg {
        i + 1
    } else {
        i
    };
    let ypl = yp.len() as int;
    assert(k == yp + seq!['-'] + pm + seq!['-'] + pd);
    assert(k.len() == ypl + 6);
    assert(k.subrange(ypl - p.len(), ypl) =~= p);
    assert(k.subrange(ypl, ypl + 1) =~= seq!['-']);
    assert(k.subrange(ypl + 1, ypl + 3) =~= pm);
    assert(k.subrange(ypl + 3, ypl + 4) =~= seq!['-']);
    assert(k.subrange(ypl + 4, ypl + 6) =~= pd);
    if neg {
        assert(yp == seq!['-'] + p);
        assert(k.subrange(0, 1) =~= seq!['-']);
        lemma_char_of_match(s, i, k, 0);
        assert(k[0] == '-');
        assert(at(s, i, '-'));
    } else {
        assert(yp == p);
        lemma_char_of_match(s, i, k, 0);
        assert(k[0] == k.subrange(0, p.len() as int)[0]);
        assert(k.subrange(0, p.len() as int) =~= p);
        assert(text::spec_is_digit(p[0]));
        assert(s[i] != '-');
        assert(!at(s, i, '-'));
    }
    assert(i0 - i == ypl - p.len());
    lemma_sub_of_match(s, i, k, ypl - p.len(), ypl);
    assert(s.subrange(i0, i0 + p.len()) == p);
    assert forall|j: int| i0 <= j < i0 + p.len() implies digit_pred()(#[trigger] s[j]) by {
        assert(s.subrange(i0, i0 + p.len())[j - i0] == s[j]);
        assert(text::spec_is_digit(p[j - i0]));
    }
    lemma_char_of_match(s, i, k, ypl);
    assert(k[ypl] == k.subrange(ypl, ypl + 1)[0]);
    assert(s[i0 + p.len()] == '-');
    assert(!digit_pred()(s[i0 + p.len()]));
    lemma_scan_exact(s, i0, digit_pred(), p.len() as int);
    let j = i0 + p.len();
    assert(crate::token::spec_scan(s, i0, digit_pred()) == j);
    assert(text::spec_dec_value(s.subrange(i0, j)) == a);
    assert(a <= 2147483648);
    if !neg {
        assert(a <= i32::MAX as int);
    }
    lemma_char_of_match(s, i, k, ypl + 1);
    lemma_char_of_match(s, i, k, ypl + 2);
    lemma_char_of_match(s, i, k, ypl + 3);
    lemma_char_of_match(s, i, k, ypl + 4);
    lemma_char_of_match(s, i, k, ypl + 5);
    assert(k[ypl + 1] == k.subrange(ypl + 1, ypl + 3)[0]);
    assert(k[ypl + 2] == k.subrange(ypl + 1, ypl + 3)[1]);
    assert(k[ypl + 3] == k.subrange(ypl + 3, ypl + 4)[0]);
    assert(k[ypl + 4] == k.subrange(ypl + 4, ypl + 6)[0]);
    assert(k[ypl + 5] == k.subrange(ypl + 4, ypl + 6)[1]);
    assert(s[j] == '-');
    assert(s[j + 1] == pm[0] && s[j + 2] == pm[1]);
    assert(s[j + 3] == '-');
    assert(s[j + 4] == pd[0] && s[j + 5] == pd[1]);
    assert(spec_two_digits(s, j + 1) == d.month as int);
    assert(spec_two_digits(s, j + 4) == d.day as int);
    assert(j + 6 == i + k.len());
    let r = spec_parse_date(s, i);
    assert(r is Some);
    assert((r->0).0 == d);
    assert((r->0).1 == i + k.len());
}

/// Reading a type name that stands at `i` recovers the type and stops
/// after it.
proof fn lemma_parse_type_of(s: Seq<char>, i: int, t: HabitType)
    requires
        0 <= i,
        i + spec_type_name(t).len() <= s.len(),
        s.subrange(i, i + spec_type_name(t).len()) == spec_type_name(t),
    ensures
        spec_parse_type(s, i) == Some((t, i + spec_type_name(t).len())),
{
    reveal_strlit("BIT");
    reveal_strlit("COUNT");
    reveal_strlit("ALPHA");
    let nm = spec_type_name(t);
    lemma_char_of_match(s, i, nm, 0);
    match t {
        HabitType::BIT => {
            lemma_expect_of(s, i, "BIT"@);
        },
        HabitType::COUNT => {
            assert(s[i] == 'C');
            assert(spec_expect(s, i, "BIT"@) is None) by {
                if i + 3 <= s.len() {
                    assert(s.subrange(i, i + 3)[0] == s[i]);
                }
            }
            lemma_expect_of(s, i, "COUNT"@);
        },
        HabitType::ALPHA => {
            assert(s[i] == 'A');
            assert(spec_expect(s, i, "BIT"@) is None) by {
                if i + 3 <= s.len() {
                    assert(s.subrange(i, i + 3)[0] == s[i]);
                }
            }
            assert(spec_expect(s, i, "COUNT"@) is None) by {
                if i + 5 <= s.len() {
                    assert(s.subrange(i, i + 5)[0] == s[i]);
                }
            }
            lemma_expect_of(s, i, "ALPHA"@);
        },
    }
}

/// Reading a record that stands at `i` recovers it and stops after it.
proof fn lemma_parse_pair_of(s: Seq<char>, i: int, p: (Date, Seq<char>))
    requires
        0 <= i,
        p.0.valid(),
        i + spec_ser_pair(p).len() <= s.len(),
        s.subrange(i, i + spec_ser_pair(p).len()) == spec_ser_pair(p),
    ensures
        spec_parse_pair(s, i) == Some((p, i + spec_ser_pair(p).len())),
{
    let w = spec_ser_pair(p);
    let k = spec_date_key(p.0);
    let e = spec_escape(p.1);
    let kl = k.len() as int;
    let el = e.len() as int;
    assert(w == seq!['"'] + k + seq!['"', ':', '"'] + e + seq!['"']);
    assert(w.len() == kl + el + 5);
    assert(w.subrange(0, 1) =~= seq!['"']);
    assert(w.subrange(1, 1 + kl) =~= k);
    assert(w.subrange(1 + kl, 4 + kl) =~= seq!['"', ':', '"']);
    assert(w.subrange(4 + kl, 4 + kl + el) =~= e);
    assert(w.subrange(4 + kl + el, 5 + kl + el) =~= seq!['"']);
    lemma_char_of_match(s, i, w, 0);
    assert(w[0] == w.subrange(0, 1)[0]);
    assert(s[i] == '"');
    lemma_sub_of_match(s, i, w, 1, 1 + kl);
    lemma_parse_date_of(s, i + 1, p.0);
    let j = i + 1 + kl;
    lemma_char_of_match(s, i, w, 1 + kl);
    lemma_char_of_match(s, i, w, 2 + kl);
    lemma_char_of_match(s, i, w, 3 + kl);
    assert(w[1 + kl] == w.subrange(1 + kl, 4 + kl)[0]);
    assert(w[2 + kl] == w.subrange(1 + kl, 4 + kl)[1]);
    assert(w[3 + kl] == w.subrange(1 + kl, 4 + kl)[2]);
    assert(s[j] == '"' && s[j + 1] == ':' && s[j + 2] == '"');
    lemma_sub_of_match(s, i, w, 4 + kl, 4 + kl + el);
    lemma_char_of_match(s, i, w, 4 + kl + el);
    assert(w[4 + kl + el] == w.subrange(4 + kl + el, 5 + kl + el)[0]);
    assert(s[j + 3 + el] == '"');
    lemma_parse_string_of(s, j + 3, p.1);
    assert(i + w.len() == j + 3 + el + 1);
}

/// Reading records that stand at `i`, closed by a brace, recovers
/// them in order and stops after the brace.
proof fn lemma_parse_pairs_of(s: Seq<char>, i: int, rs: Seq<(Date, Seq<char>)>)
    requires
        0 <= i,
        rs.len() > 0,
        forall|a: int| 0 <= a < rs.len() ==> (#[trigger] rs[a]).0.valid(),
        i + spec_ser_records(rs).len() + 1 <= s.len(),
        s.subrange(i, i + spec_ser_records(rs).len()) == spec_ser_records(rs),
        s[i + spec_ser_records(rs).len()] == '}',
    ensures
        spec_parse_pairs(s, i) == Some((rs, i + spec_ser_records(rs).len() + 1)),
    decreases rs.len(),
{
    let w = spec_ser_records(rs);
    if rs.len() == 1 {
        assert(w == spec_ser_pair(rs[0]));
        lemma_parse_pair_of(s, i, rs[0]);
        let j = i + w.len();
        assert(s[j] == '}');
        assert(seq![rs[0]] =~= rs);
    } else {
        let rest = rs.drop_first();
        let w0 = spec_ser_pair(rs[0]);
        let wr = spec_ser_records(rest);
        let w0l = w0.len() as int;
        assert(w == w0 + seq![','] + wr);
        assert(w.subrange(0, w0l) =~= w0);
        assert(w.subrange(w0l, w0l + 1) =~= seq![',']);
        assert(w.subrange(w0l + 1, w.len() as int) =~= wr);
        lemma_sub_of_match(s, i, w, 0, w0l);
        lemma_parse_pair_of(s, i, rs[0]);
        let j = i + w0l;
        lemma_char_of_match(s, i, w, w0l);
        assert(w[w0l] == w.subrange(w0l, w0l + 1)[0]);
        assert(s[j] == ',');
        lemma_sub_of_match(s, i, w, w0l + 1, w.len() as int);
        assert(forall|a: int| 0 <= a < rest.len() ==> (#[trigger] rest[a]) == rs[a + 1]);
        lemma_parse_pairs_of(s, j + 1, rest);
        assert(seq![rs[0]] + rest =~= rs);
    }
}

/// Reading a habit that stands at `i`, with records its type accepts,
/// recovers it and stops after it.
proof fn lemma_parse_habit_of(s: Seq<char>, i: int, h: HabitModel)
    requires
        0 <= i,
        spec_pairs_ok(h.habit_type, h.records),
        i + spec_ser_habit(h).len() <= s.len(),
        s.subrange(i, i + spec_ser_habit(h).len()) == spec_ser_habit(h),
    ensures
        spec_parse_habit(s, i) == Some((h, i + spec_ser_habit(h).len())),
{
    reveal_strlit("{\"label\":\"");
    reveal_strlit(",\"habit_type\":\"");
    reveal_strlit("\",\"habit_type\":\"");
    reveal_strlit("\",\"records\":{");
    reveal_strlit("}}");
    let w = spec_ser_habit(h);
    let l1 = "{\"label\":\""@;
    let e = spec_escape(h.label);
    let l2 = "\",\"habit_type\":\""@;
    let l2p = ",\"habit_type\":\""@;
    let nm = spec_type_name(h.habit_type);
    let l3 = "\",\"records\":{"@;
    let rr = spec_ser_records(h.records);
    let o1 = l1.len() as int;
    let o2 = o1 + e.len() as int;
    let o3 = o2 + l2.len() as int;
    let o4 = o3 + nm.len() as int;
    let o5 = o4 + l3.len() as int;
    let o6 = o5 + rr.len() as int;
    assert(w == l1 + e + l2 + nm + l3 + rr + "}}"@);
    assert(w.len() == o6 + 2);
    assert(w.subrange(0, o1) =~= l1);
    assert(w.subrange(o1, o2) =~= e);
    assert(w.subrange(o2, o3) =~= l2);
    assert(w.subrange(o3, o4) =~= nm);
    assert(w.subrange(o4, o5) =~= l3);
    assert(w.subrange(o5, o6) =~= rr);
    assert(w.subrange(o6, o6 + 2) =~= "}}"@);
    lemma_sub_of_match(s, i, w, 0, o1);
    lemma_expect_of(s, i, l1);
    let i1 = i + o1;
    lemma_sub_of_match(s, i, w, o1, o2);
    lemma_char_of_match(s, i, w, o2);
    assert(w[o2] == w.subrange(o2, o3)[0]);
    assert(l2[0] == '"');
    assert(s[i1 + e.len()] == '"');
    lemma_parse_string_of(s, i1, h.label);
    let i2 = i1 + e.len() + 1;
    assert(l2.drop_first() =~= l2p);
    lemma_sub_of_match(s, i, w, o2 + 1, o3);
    assert(w.subrange(o2 + 1, o3) =~= l2.drop_first()) by {
        assert(forall|x: int|
            0 <= x < l2.len() - 1 ==> #[trigger] w.subrange(o2 + 1, o3)[x] == w.subrange(o2, o3)[x
                + 1]);
    }
    lemma_expect_of(s, i2, l2p);
    let i3 = i2 + l2p.len() as int;
    assert(i3 == i + o3);
    lemma_sub_of_match(s, i, w, o3, o4);
    lemma_parse_type_of(s, i3, h.habit_type);
    let i4 = i + o4;
    lemma_sub_of_match(s, i, w, o4, o5);
    lemma_expect_of(s, i4, l3);
    let i5 = i + o5;
    lemma_char_of_match(s, i, w, o6);
    lemma_char_of_match(s, i, w, o6 + 1);
    assert(w[o6] == w.subrange(o6, o6 + 2)[0]);
    assert(w[o6 + 1] == w.subrange(o6, o6 + 2)[1]);
    assert(s[i + o6] == '}' && s[i + o6 + 1] == '}');
    if h.records.len() == 0 {
        assert(rr =~= Seq::<char>::empty());
        assert(i5 == i + o6);
        assert(at(s, i5, '}'));
        assert(spec_parse_records_body(s, i5) == Some((Seq::<(Date, Seq<char>)>::empty(), i5 + 1)));
        assert(h.records =~= Seq::<(Date, Seq<char>)>::empty());
    } else {
        lemma_sub_of_match(s, i, w, o5, o6);
        assert(rr == spec_ser_records(h.records));
        let p0 = spec_ser_pair(h.records[0]);
        assert(rr[0] == '"') by {
            if h.records.len() == 1 {
                assert(rr == p0);
            } else {
                assert(rr == p0 + seq![','] + spec_ser_records(h.records.drop_first()));
            }
            assert(p0 == seq!['"'] + spec_date_key(h.records[0].0) + seq!['"', ':', '"']
                + spec_escape(h.records[0].1) + seq!['"']);
            assert(p0[0] == '"');
        }
        lemma_char_of_match(s, i, w, o5);
        assert(w[o5] == w.subrange(o5, o6)[0]);
        assert(s[i5] == '"');
        assert(!at(s, i5, '}'));
        lemma_parse_pairs_of(s, i5, h.records);
    }
    let r = spec_parse_habit(s, i);
    assert(r is Some);
    assert((r->0).0 == h);
    assert((r->0).1 == i + w.len());
}

/// Reading habits that stand at `i`, closed by a bracket, recovers
/// them in order and stops after the bracket.
proof fn lemma_parse_habits_of(s: Seq<char>, i: int, hs: Seq<HabitModel>)
    requires
        0 <= i,
        hs.len() > 0,
        forall|a: int|
            0 <= a < hs.len() ==> spec_pairs_ok(
                (#[trigger] hs[a]).habit_type,
                hs[a].records,
            ),
        i + spec_ser_habits(hs).len() + 1 <= s.len(),
        s.subrange(i, i + spec_ser_habits(hs).len()) == spec_ser_habits(hs),
        s[i + spec_ser_habits(hs).len()] == ']',
    ensures
        spec_parse_habits(s, i) == Some((hs, i + spec_ser_habits(hs).len() + 1)),
    decreases hs.len(),
{
    let w = spec_ser_habits(hs);
    if hs.len() == 1 {
        assert(w == spec_ser_habit(hs[0]));
        lemma_parse_habit_of(s, i, hs[0]);
        let j = i + w.len();
        assert(s[j] == ']');
        assert(seq![hs[0]] =~= hs);
    } else {
        let rest = hs.drop_first();
        let w0 = spec_ser_habit(hs[0]);
        let wr = spec_ser_habits(rest);
        let w0l = w0.len() as int;
        assert(w == w0 + seq![','] + wr);
        assert(w.subrange(0, w0l) =~= w0);
        assert(w.subrange(w0l, w0l + 1) =~= seq![',']);
        assert(w.subrange(w0l + 1, w.len() as int) =~= wr);
        lemma_sub_of_match(s, i, w, 0, w0l);
        lemma_parse_habit_of(s, i, hs[0]);
        let j = i + w0l;
        lemma_char_of_match(s, i, w, w0l);
        assert(w[w0l] == w.subrange(w0l, w0l + 1)[0]);
        assert(s[j] == ',');
        lemma_sub_of_match(s, i, w, w0l + 1, w.len() as int);
        assert(forall|a: int| 0 <= a < rest.len() ==> (#[trigger] rest[a]) == hs[a + 1]);
        lemma_parse_habits_of(s, j + 1, rest);
        assert(seq![hs[0]] + rest =~= hs);
    }
}

/// A well-formed tracker's model passes every check the reader makes.
proof fn lemma_wf_model_checks(t: HabitTracker)
    requires
        t.wf(),
    ensures
        forall|a: int|
            0 <= a < model_of(t).habits.len() ==> spec_pairs_ok(
                (#[trigger] model_of(t).habits[a]).habit_type,
                model_of(t).habits[a].records,
            ),
{
    let m = model_of(t);
    assert forall|a: int|
        0 <= a < m.habits.len() implies spec_pairs_ok(
        (#[trigger] m.habits[a]).habit_type,
        m.habits[a].records,
    ) by {
        let h = t.habits@[a];
        assert(h.wf());
        let rs = m.habits[a].records;
        assert(rs == pairs_model(h.records@));
        assert forall|x: int, y: int|
            0 <= x < y < rs.len() implies (#[trigger] rs[x]).0 != (#[trigger] rs[y]).0 by {
            assert(rs[x].0 == h.records@[x].date && rs[y].0 == h.records@[y].date);
        }
        assert forall|x: int| 0 <= x < rs.len() implies (#[trigger] rs[x]).0.valid() by {
            assert(rs[x].0 == h.records@[x].date);
            assert(h.records@[x].date.valid());
        }
        assert forall|x: int|
            0 <= x < rs.len() implies spec_model_value_ok(
            m.habits[a].habit_type,
            (#[trigger] rs[x]).1,
        ) by {
            assert(rs[x].1 == h.records@[x].value@);
            assert(crate::habit::spec_value_ok(h.habit_type, h.records@[x].value@));
            match h.habit_type {
                HabitType::BIT => {},
                HabitType::COUNT => {
                    let n = choose|n: u64| h.records@[x].value@ == text::spec_dec(n as nat);
                    text::lemma_dec_props(n as nat);
                    assert(spec_count_ok(h.records@[x].value@));
                },
                HabitType::ALPHA => {},
            }
        }
    }
}

/// The written form of a well-formed tracker reads back as exactly
/// the tracker it came from: saving and loading round-trips.
#[verifier::rlimit(100)]
pub proof fn lemma_write_read_round_trip(t: HabitTracker)
    requires
        t.wf(),
    ensures
        spec_parse(spec_serialize(model_of(t))) == Some(model_of(t)),
{
    reveal_strlit("{\"week_start\":\"");
    reveal_strlit("T00:00:00Z\",\"habits\":[");
    reveal_strlit("]}");
    reveal_strlit("{\"label\":\"");
    let m = model_of(t);
    lemma_wf_model_checks(t);
    let s = spec_serialize(m);
    let l0 = "{\"week_start\":\""@;
    let k = spec_date_key(m.start);
    let lt = "T00:00:00Z\",\"habits\":["@;
    let hh = spec_ser_habits(m.habits);
    let o1 = l0.len() as int;
    let o2 = o1 + k.len() as int;
    let o3 = o2 + lt.len() as int;
    let o4 = o3 + hh.len() as int;
    assert(s == l0 + k + lt + hh + "]}"@);
    assert(s.len() == o4 + 2);
    assert(s.subrange(0, s.len() as int) =~= s);
    assert(s.subrange(0, o1) =~= l0);
    assert(s.subrange(o1, o2) =~= k);
    assert(s.subrange(o2, o3) =~= lt);
    assert(s.subrange(o3, o4) =~= hh);
    assert(s.subrange(o4, o4 + 2) =~= "]}"@);
    lemma_expect_of(s, 0, l0);
    lemma_parse_date_of(s, o1, m.start);
    lemma_expect_of(s, o2, lt);
    assert(s[o4] == ']' && s[o4 + 1] == '}') by {
        assert(s.subrange(o4, o4 + 2)[0] == s[o4]);
        assert(s.subrange(o4, o4 + 2)[1] == s[o4 + 1]);
    }
    if m.habits.len() == 0 {
        assert(hh =~= Seq::<char>::empty());
        assert(o3 == o4);
        assert(at(s, o3, ']'));
        assert(m.habits =~= Seq::<HabitModel>::empty());
    } else {
        let h0 = spec_ser_habit(m.habits[0]);
        assert(hh[0] == '{') by {
            if m.habits.len() == 1 {
                assert(hh == h0);
            } else {
                assert(hh == h0 + seq![','] + spec_ser_habits(m.habits.drop_first()));
            }
            assert(h0 == "{\"label\":\""@ + spec_escape(m.habits[0].label)
                + "\",\"habit_type\":\""@ + spec_type_name(m.habits[0].habit_type)
                + "\",\"records\":{"@ + spec_ser_records(m.habits[0].records) + "}}"@);
            assert(h0[0] == "{\"label\":\""@[0]);
        }
        assert(s[o3] == hh[0]) by {
            assert(s.subrange(o3, o4)[0] == s[o3]);
        }
        assert(!at(s, o3, ']'));
        lemma_parse_habits_of(s, o3, m.habits);
    }
    assert(at(s, o4 + 1, '}'));
    assert(o4 + 2 == s.len());
    assert(i32::MIN < m.start.year < i32::MAX);
    let r = spec_parse(s);
    assert(r is Some);
    assert(r->0 == m);
}

/// Reads a tracker back from its written text. The text must be
/// exactly one written tracker; anything else yields nothing.
pub fn parse_tracker(s: &str) -> (r: Option<HabitTracker>)
    ensures
        r is Some <==> spec_parse(s@) is Some,
        r is Some ==> (r->0).wf() && model_of(r->0) == spec_parse(s@)->0,
{
    let v = text::str_to_chars(s);
    let i1 = match expect_lit(&v, 0, "{\"week_start\":\"") {
        None => {
            return None;
        },
        Some(i1) => i1,
    };
    let (start, i2) = match parse_date_at(&v, i1) {
        None => {
            return None;
        },
        Some(dj) => dj,
    };
    let i3 = match expect_lit(&v, i2, "T00:00:00Z\",\"habits\":[") {
        None => {
            return None;
        },
        Some(i3) => i3,
    };
    let (habits, i4) = if at_char(&v, i3, ']') {
        (Vec::new(), i3 + 1)
    } else {
        match parse_habits_at(&v, i3) {
            None => {
                return None;
            },
            Some(hs) => hs,
        }
    };
    if at_char(&v, i4, '}') && i4 + 1 == v.len() && i32::MIN < start.year && start.year < i32::MAX {
        let t = HabitTracker { start_date: start, habits };
        proof {
            lemma_parse_date_pos(v@, i1 as int);
            assert(habits_model(t.habits@) =~= (spec_parse_habits_body(v@, i3 as int)->0).0);
            assert(model_of(t) == spec_parse(s@)->0);
        }
        Some(t)
    } else {
        None
    }
}

} // verus!


