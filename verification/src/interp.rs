//! The command interpreter: consumes tokens and mutates the tracker.
//! Verbs are keyed by the first token's text; argument counting is
//! token-position aware, whitespace tokens occupying the positions
//! between argument tokens.

use vstd::prelude::*;
use crate::habit::{Habit, HabitType, spec_unique_dates};
use crate::text;
use crate::token::{Token, TokenModel, TokenType, spec_models};
use crate::tracker::HabitTracker;

verus! {

/// The outcome of one interpreted command.
#[derive(Clone, Debug, PartialEq, Eq)]
pub enum CommandResult {
    Added,
    Edited,
    Deleted,
    /// A user-facing corrective hint; the command changed nothing.
    Error(String),
}

/// Whether a token can stand as a command argument.
pub open spec fn spec_is_arg(t: TokenModel) -> bool {
    t.kind == TokenType::Word || t.kind == TokenType::QuotedString
}

/// Whether `s` is a written non-negative integer.
pub open spec fn spec_numeric(s: Seq<char>) -> bool {
    s.len() > 0 && text::spec_all_digits(s)
}

/// The shape of a valid add command: the verb, then a name argument,
/// then an optional type-hint argument, each preceded by whitespace.
pub open spec fn spec_add_shape(ts: Seq<TokenModel>) -> bool {
    &&& (ts.len() == 3 || ts.len() == 5)
    &&& ts[1].kind == TokenType::Whitespace
    &&& spec_is_arg(ts[2])
    &&& (ts.len() == 5 ==> ts[3].kind == TokenType::Whitespace && spec_is_arg(ts[4]))
}

/// The habit type an add command asks for: Counter when the trailing
/// hint is numeric, Character when it is present and non-numeric,
/// Boolean when it is absent.
pub open spec fn spec_add_type(ts: Seq<TokenModel>) -> HabitType {
    if ts.len() == 3 {
        HabitType::BIT
    } else if spec_numeric(ts[4].text) {
        HabitType::COUNT
    } else {
        HabitType::ALPHA
    }
}

/// The shape of a valid edit command: the verb, an index argument and
/// a name argument.
pub open spec fn spec_edit_shape(ts: Seq<TokenModel>) -> bool {
    &&& ts.len() == 5
    &&& ts[1].kind == TokenType::Whitespace
    &&& spec_is_arg(ts[2])
    &&& ts[3].kind == TokenType::Whitespace
    &&& spec_is_arg(ts[4])
}

/// The shape of a valid delete command: the verb and an index argument.
pub open spec fn spec_delete_shape(ts: Seq<TokenModel>) -> bool {
    &&& ts.len() == 3
    &&& ts[1].kind == TokenType::Whitespace
    &&& spec_is_arg(ts[2])
}

/// One habit appended, everything else untouched.
pub open spec fn spec_added(
    old_h: Seq<Habit>,
    new_h: Seq<Habit>,
    label: Seq<char>,
    t: HabitType,
) -> bool {
    &&& new_h.len() == old_h.len() + 1
    &&& forall|i: int| 0 <= i < old_h.len() ==> new_h[i] == old_h[i]
    &&& new_h.last().label@ == label
    &&& new_h.last().habit_type == t
    &&& new_h.last().records@.len() == 0
}

/// One habit relabeled in place, everything else untouched.
pub open spec fn spec_edited(old_h: Seq<Habit>, new_h: Seq<Habit>, idx: int, label: Seq<char>) -> bool {
    &&& new_h.len() == old_h.len()
    &&& forall|i: int| 0 <= i < old_h.len() && i != idx ==> new_h[i] == old_h[i]
    &&& new_h[idx].label@ == label
    &&& new_h[idx].habit_type == old_h[idx].habit_type
    &&& new_h[idx].records == old_h[idx].records
}

/// What interpreting `ts` against a tracker with habits `old_h` does:
/// which habits come out, and which result is reported.
pub open spec fn spec_interpreted(
    ts: Seq<TokenModel>,
    old_h: Seq<Habit>,
    new_h: Seq<Habit>,
    r: CommandResult,
) -> bool {
    if ts.len() == 0 {
        r is Error && new_h == old_h
    } else if ts[0].text == "add"@ {
        if spec_add_shape(ts) {
            r == CommandResult::Added && spec_added(old_h, new_h, ts[2].text, spec_add_type(ts))
        } else {
            r is Error && new_h == old_h
        }
    } else if ts[0].text == "edit"@ {
        if spec_edit_shape(ts) {
            if spec_numeric(ts[2].text) {
                if text::spec_dec_value(ts[2].text) < old_h.len() {
                    r == CommandResult::Edited && spec_edited(
                        old_h,
                        new_h,
                        text::spec_dec_value(ts[2].text) as int,
                        ts[4].text,
                    )
                } else {
                    r == CommandResult::Edited && new_h == old_h
                }
            } else {
                r is Error && new_h == old_h
            }
        } else {
            r is Error && new_h == old_h
        }
    } else if ts[0].text == "delete"@ {
        if spec_delete_shape(ts) {
            if spec_numeric(ts[2].text) {
                if text::spec_dec_value(ts[2].text) < old_h.len() {
                    r == CommandResult::Deleted && new_h == old_h.remove(
                        text::spec_dec_value(ts[2].text) as int,
                    )
                } else {
                    r == CommandResult::Deleted && new_h == old_h
                }
            } else {
                r is Error && new_h == old_h
            }
        } else {
            r is Error && new_h == old_h
        }
    } else {
        r is Error && new_h == old_h
    }
}

/// Whether the token's text is a written non-negative integer, and its
/// value clamped into `u64` range.
fn parse_numeric(t: &Token) -> (r: Option<u64>)
    ensures
        r is Some <==> spec_numeric(t.text@),
        r is Some ==> r->0 as int == if text::spec_dec_value(t.text@) <= u64::MAX as int {
            text::spec_dec_value(t.text@) as int
        } else {
            u64::MAX as int
        },
{
    let cs = text::str_to_chars(t.text.as_str());
    if cs.len() == 0 {
        return None;
    }
    let mut i: usize = 0;
    while i < cs.len()
        invariant
            i <= cs@.len(),
            cs@ == t.text@,
            forall|j: int| 0 <= j < i ==> text::spec_is_digit(#[trigger] cs@[j]),
        decreases cs@.len() - i,
    {
        if !text::is_digit(cs[i]) {
            return None;
        }
        i += 1;
    }
    proof {
        assert(cs@.subrange(0, cs@.len() as int) =~= cs@);
    }
    Some(text::parse_dec_saturating(&cs, 0, cs.len()))
}

/// Relabels the habit at `idx`, leaving its type and records as they
/// were.
fn set_label(habits: &mut Vec<Habit>, idx: usize, label: String)
    requires
        idx < old(habits)@.len(),
    ensures
        spec_edited(old(habits)@, final(habits)@, idx as int, label@),
{
    let h = habits.remove(idx);
    let relabeled = Habit { label, habit_type: h.habit_type, records: h.records };
    habits.insert(idx, relabeled);
    proof {
        assert(forall|i: int|
            0 <= i < old(habits)@.len() && i != idx ==> habits@[i] == old(habits)@[i]);
    }
}

/// A corrective hint shown when a command is malformed.
fn usage_error(hint: &str) -> (r: CommandResult)
    ensures
        r is Error,
{
    CommandResult::Error(hint.to_owned())
}

/// Interprets one tokenized command against the tracker: `add NAME
/// [TYPEHINT]` appends a habit, `edit INDEX NAME` relabels a row,
/// `delete INDEX` removes a row. An out-of-range index is accepted and
/// changes nothing; any other malformed command reports an error and
/// changes nothing. The week window is never touched.
pub fn interpret(tokens: &Vec<Token>, tracker: &mut HabitTracker) -> (r: CommandResult)
    requires
        old(tracker).wf(),
    ensures
        final(tracker).wf(),
        final(tracker).start_date == old(tracker).start_date,
        spec_interpreted(spec_models(tokens@), old(tracker).habits@, final(tracker).habits@, r),
{
    if tokens.len() == 0 {
        return usage_error("Error! only add, edit & delete are supported");
    }
    let verb = &tokens[0].text;
    if text::string_eq_str(verb, "add") {
        if !(tokens.len() == 3 || tokens.len() == 5) {
            return usage_error("Error! please use format `add 'habit name'`");
        }
        if !is_whitespace(&tokens[1]) || !is_arg(&tokens[2]) {
            return usage_error("Error! please use format `add 'habit name'`");
        }
        if tokens.len() == 5 && (!is_whitespace(&tokens[3]) || !is_arg(&tokens[4])) {
            return usage_error("Error! please use format `add 'habit name'`");
        }
        let habit_type = if tokens.len() == 3 {
            HabitType::BIT
        } else {
            match parse_numeric(&tokens[4]) {
                Some(_) => HabitType::COUNT,
                None => HabitType::ALPHA,
            }
        };
        let label = tokens[2].text.clone();
        let added = Habit { label, habit_type, records: Vec::new() };
        let ghost old_habits = tracker.habits@;
        tracker.habits.push(added);
        proof {
            assert(spec_unique_dates(tracker.habits@.last().records@));
            assert(tracker.habits@.last().wf());
            assert(forall|i: int|
                0 <= i < old_habits.len() ==> tracker.habits@[i] == old_habits[i]);
        }
        CommandResult::Added
    } else if text::string_eq_str(verb, "edit") {
        if tokens.len() != 5 {
            return usage_error("Error! please use format `edit 1 'habit name'`");
        }
        if !is_whitespace(&tokens[1]) || !is_arg(&tokens[2]) || !is_whitespace(&tokens[3])
            || !is_arg(&tokens[4]) {
            return usage_error("Error! please use format `edit 1 'habit name'`");
        }
        match parse_numeric(&tokens[2]) {
            None => usage_error("Error! please use format `edit 1 'habit name'`"),
            Some(n) => {
                if n < tracker.habits.len() as u64 {
                    let idx = n as usize;
                    set_label(&mut tracker.habits, idx, tokens[4].text.clone());
                }
                CommandResult::Edited
            },
        }
    } else if text::string_eq_str(verb, "delete") {
        if tokens.len() != 3 {
            return usage_error("Error! please use format `delete 1`");
        }
        if !is_whitespace(&tokens[1]) || !is_arg(&tokens[2]) {
            return usage_error("Error! please use format `delete 1`");
        }
        match parse_numeric(&tokens[2]) {
            None => usage_error("Error! please use format `delete 1`"),
            Some(n) => {
                if n < tracker.habits.len() as u64 {
                    let idx = n as usize;
                    let ghost old_habits = tracker.habits@;
                    tracker.habits.remove(idx);
                    proof {
                        assert forall|i: int|
                            0 <= i < tracker.habits@.len() implies (#[trigger] tracker.habits@[i]).wf() by {
                            if i < idx {
                                assert(tracker.habits@[i] == old_habits[i]);
                            } else {
                                assert(tracker.habits@[i] == old_habits[i + 1]);
                            }
                        }
                    }
                }
                CommandResult::Deleted
            },
        }
    } else {
        usage_error("Error! only add, edit & delete are supported")
    }
}

/// Whether the token is a whitespace token.
fn is_whitespace(t: &Token) -> (r: bool)
    ensures
        r == (t.token_type == TokenType::Whitespace),
{
    match t.token_type {
        TokenType::Whitespace => true,
        _ => false,
    }
}

/// Whether the token can stand as a command argument.
fn is_arg(t: &Token) -> (r: bool)
    ensures
        r == spec_is_arg(TokenModel { text: t.text@, kind: t.token_type }),
{
    match t.token_type {
        TokenType::Word => true,
        TokenType::QuotedString => true,
        TokenType::Whitespace => false,
    }
}

} // verus!
