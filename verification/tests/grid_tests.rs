use rabit::{
    parse_tracker, serialize_tracker, tokenize, App, CommandResult, Date, Habit, HabitTracker,
    HabitType, Key, Token, TokenType, TokenizeError,
};

fn date(year: i32, month: u8, day: u8) -> Date {
    Date { year, month, day }
}

fn tracker(start: Date, habits: Vec<Habit>) -> HabitTracker {
    HabitTracker { start_date: start, habits }
}

fn habit(label: &str, t: HabitType) -> Habit {
    Habit { label: label.to_string(), habit_type: t, records: vec![] }
}

fn run(tracker: &mut HabitTracker, line: &str) -> CommandResult {
    let tokens = tokenize(line).unwrap();
    rabit::interpret(&tokens, tracker)
}

#[test]
fn date_range_is_seven_consecutive_days() {
    let t = tracker(date(2023, 1, 2), vec![]);
    let range = t.get_date_range();
    assert_eq!(range.len(), 7);
    assert_eq!(range[0], date(2023, 1, 2));
    for i in 0..6 {
        assert_eq!(range[i + 1], range[i].next_day());
    }
    assert_eq!(range[6], date(2023, 1, 8));
}

#[test]
fn date_range_crosses_month_and_year() {
    let t = tracker(date(2023, 12, 28), vec![]);
    let range = t.get_date_range();
    assert_eq!(range[3], date(2023, 12, 31));
    assert_eq!(range[4], date(2024, 1, 1));
    assert_eq!(range[6], date(2024, 1, 3));
}

#[test]
fn advance_then_retreat_restores_week_start() {
    let mut t = tracker(date(2024, 2, 26), vec![]);
    t.next_week();
    assert_eq!(t.start_date, date(2024, 3, 4));
    t.previous_week();
    assert_eq!(t.start_date, date(2024, 2, 26));
}

#[test]
fn retreat_then_advance_restores_week_start() {
    let mut t = tracker(date(2023, 1, 2), vec![]);
    t.previous_week();
    assert_eq!(t.start_date, date(2022, 12, 26));
    t.next_week();
    assert_eq!(t.start_date, date(2023, 1, 2));
}

#[test]
fn leap_year_days() {
    assert_eq!(date(2024, 2, 28).next_day(), date(2024, 2, 29));
    assert_eq!(date(2023, 2, 28).next_day(), date(2023, 3, 1));
    assert_eq!(date(1900, 2, 28).next_day(), date(1900, 3, 1));
    assert_eq!(date(2000, 2, 28).next_day(), date(2000, 2, 29));
}

#[test]
fn boolean_mark_twice_unmarks() {
    let mut h = habit("read", HabitType::BIT);
    let d = date(2023, 1, 2);
    h.check_task(d, None);
    assert_eq!(h.records.len(), 1);
    assert_eq!(h.records[0].value, "true");
    h.check_task(d, None);
    assert_eq!(h.records.len(), 0);
}

#[test]
fn boolean_toggle_keeps_other_dates() {
    let mut h = habit("read", HabitType::BIT);
    h.check_task(date(2023, 1, 2), None);
    h.check_task(date(2023, 1, 3), None);
    h.check_task(date(2023, 1, 2), None);
    assert_eq!(h.records.len(), 1);
    assert_eq!(h.records[0].date, date(2023, 1, 3));
}

#[test]
fn counter_first_mark_is_zero_then_one() {
    let mut h = habit("pushups", HabitType::COUNT);
    let d = date(2023, 1, 2);
    h.check_task(d, None);
    assert_eq!(h.records[0].value, "0");
    h.check_task(d, None);
    assert_eq!(h.records[0].value, "1");
    h.check_task(d, None);
    assert_eq!(h.records[0].value, "2");
}

#[test]
fn character_mark_stores_and_overwrites() {
    let mut h = habit("mood", HabitType::ALPHA);
    let d = date(2023, 1, 2);
    h.check_task(d, Some('a'));
    assert_eq!(h.records[0].value, "a");
    h.check_task(d, Some('b'));
    assert_eq!(h.records.len(), 1);
    assert_eq!(h.records[0].value, "b");
}

#[test]
fn edit_with_index_equal_to_len_is_noop() {
    let mut t = tracker(date(2023, 1, 2), vec![habit("water", HabitType::BIT)]);
    let before = t.clone();
    let r = run(&mut t, "edit 1 'juice'");
    assert_eq!(r, CommandResult::Edited);
    assert_eq!(t, before);
}

#[test]
fn edit_in_range_relabels() {
    let mut t = tracker(date(2023, 1, 2), vec![habit("water", HabitType::BIT)]);
    let r = run(&mut t, "edit 0 'juice'");
    assert_eq!(r, CommandResult::Edited);
    assert_eq!(t.habits[0].label, "juice");
    assert_eq!(t.habits[0].habit_type, HabitType::BIT);
}

#[test]
fn delete_removes_row_and_shifts() {
    let mut t = tracker(
        date(2023, 1, 2),
        vec![habit("a", HabitType::BIT), habit("b", HabitType::COUNT)],
    );
    let r = run(&mut t, "delete 0");
    assert_eq!(r, CommandResult::Deleted);
    assert_eq!(t.habits.len(), 1);
    assert_eq!(t.habits[0].label, "b");
}

#[test]
fn delete_out_of_range_is_noop() {
    let mut t = tracker(date(2023, 1, 2), vec![habit("a", HabitType::BIT)]);
    let r = run(&mut t, "delete 5");
    assert_eq!(r, CommandResult::Deleted);
    assert_eq!(t.habits.len(), 1);
}

#[test]
fn unparseable_index_is_error() {
    let mut t = tracker(date(2023, 1, 2), vec![habit("a", HabitType::BIT)]);
    let before = t.clone();
    assert!(matches!(run(&mut t, "edit abc name"), CommandResult::Error(_)));
    assert!(matches!(run(&mut t, "delete x"), CommandResult::Error(_)));
    assert_eq!(t, before);
}

#[test]
fn unknown_verb_is_error() {
    let mut t = tracker(date(2023, 1, 2), vec![]);
    assert!(matches!(run(&mut t, "frobnicate 1"), CommandResult::Error(_)));
    assert!(t.habits.is_empty());
}

#[test]
fn add_without_name_is_error() {
    let mut t = tracker(date(2023, 1, 2), vec![]);
    assert!(matches!(run(&mut t, "add"), CommandResult::Error(_)));
    assert!(t.habits.is_empty());
}

#[test]
fn add_type_hints() {
    let mut t = tracker(date(2023, 1, 2), vec![]);
    assert_eq!(run(&mut t, "add run"), CommandResult::Added);
    assert_eq!(run(&mut t, "add pushups 10"), CommandResult::Added);
    assert_eq!(run(&mut t, "add mood x"), CommandResult::Added);
    assert_eq!(t.habits[0].habit_type, HabitType::BIT);
    assert_eq!(t.habits[1].habit_type, HabitType::COUNT);
    assert_eq!(t.habits[2].habit_type, HabitType::ALPHA);
}

#[test]
fn tokenize_add_quoted_counter() {
    let tokens = tokenize("add 'Drink Water' 8").unwrap();
    let expect = [
        ("add", TokenType::Word),
        (" ", TokenType::Whitespace),
        ("Drink Water", TokenType::QuotedString),
        (" ", TokenType::Whitespace),
        ("8", TokenType::Word),
    ];
    assert_eq!(tokens.len(), expect.len());
    for (tok, (text, kind)) in tokens.iter().zip(expect.iter()) {
        assert_eq!(&tok.text, text);
        assert_eq!(&tok.token_type, kind);
    }
    let mut t = tracker(date(2023, 1, 2), vec![]);
    assert_eq!(rabit::interpret(&tokens, &mut t), CommandResult::Added);
    assert_eq!(t.habits[0].label, "Drink Water");
    assert_eq!(t.habits[0].habit_type, HabitType::COUNT);
}

#[test]
fn tokenize_keeps_whitespace_runs_as_one_token() {
    let tokens = tokenize("a   b").unwrap();
    assert_eq!(tokens.len(), 3);
    assert_eq!(tokens[1].text, "   ");
    assert_eq!(tokens[1].token_type, TokenType::Whitespace);
    let tokens = tokenize("a \t b").unwrap();
    assert_eq!(tokens.len(), 3);
    assert_eq!(tokens[1].text, " \t ");
}

#[test]
fn tokenize_unterminated_quote_is_error() {
    assert_eq!(tokenize("add 'oops"), Err(TokenizeError::UnterminatedQuote));
    assert_eq!(tokenize("\"half"), Err(TokenizeError::UnterminatedQuote));
}

#[test]
fn tokenize_empty_quotes_and_mixed() {
    let tokens = tokenize("x ''").unwrap();
    assert_eq!(tokens.len(), 3);
    assert_eq!(tokens[2].text, "");
    assert_eq!(tokens[2].token_type, TokenType::QuotedString);
    let tokens = tokenize("\"don't\"").unwrap();
    assert_eq!(tokens.len(), 1);
    assert_eq!(tokens[0].text, "don't");
}

#[test]
fn cursor_right_at_edge_advances_week() {
    let mut app = App::new(tracker(date(2023, 1, 2), vec![habit("a", HabitType::BIT)]));
    app.state.select((0, 6));
    app.move_cursor_right();
    assert_eq!(app.state.selected(), Some((0, 0)));
    assert_eq!(app.tracker.start_date, date(2023, 1, 9));
}

#[test]
fn cursor_left_at_edge_retreats_week() {
    let mut app = App::new(tracker(date(2023, 1, 9), vec![habit("a", HabitType::BIT)]));
    app.state.select((0, 0));
    app.move_cursor_left();
    assert_eq!(app.state.selected(), Some((0, 6)));
    assert_eq!(app.tracker.start_date, date(2023, 1, 2));
}

#[test]
fn cursor_vertical_wraps_and_first_move_selects_origin() {
    let mut app = App::new(tracker(
        date(2023, 1, 2),
        vec![habit("a", HabitType::BIT), habit("b", HabitType::BIT)],
    ));
    app.move_cursor_down();
    assert_eq!(app.state.selected(), Some((0, 0)));
    app.move_cursor_down();
    assert_eq!(app.state.selected(), Some((1, 0)));
    app.move_cursor_down();
    assert_eq!(app.state.selected(), Some((0, 0)));
    app.move_cursor_up();
    assert_eq!(app.state.selected(), Some((1, 0)));
}

#[test]
fn cursor_vertical_noop_with_single_habit() {
    let mut app = App::new(tracker(date(2023, 1, 2), vec![habit("a", HabitType::BIT)]));
    app.move_cursor_down();
    assert_eq!(app.state.selected(), None);
}

#[test]
fn header_labels_are_centered_day_numbers() {
    let t = tracker(date(2023, 1, 2), vec![]);
    let labels = t.get_header_labels();
    assert_eq!(labels, vec![" 2 ", " 3 ", " 4 ", " 5 ", " 6 ", " 7 ", " 8 "]);
    let t = tracker(date(2023, 1, 25), vec![]);
    let labels = t.get_header_labels();
    assert_eq!(labels, vec!["25 ", "26 ", "27 ", "28 ", "29 ", "30 ", "31 "]);
}

#[test]
fn value_matrix_reflects_records() {
    let mut h = habit("read", HabitType::BIT);
    h.check_task(date(2023, 1, 2), None);
    let t = tracker(date(2023, 1, 2), vec![h, habit("idle", HabitType::BIT)]);
    let m = t.values_v2();
    assert_eq!(m.len(), 2);
    assert_eq!(m[0].len(), 7);
    assert_eq!(m[0][0], Some("true".to_string()));
    assert_eq!(m[0][1], None);
    assert_eq!(m[1][0], None);
    let b = t.values();
    assert!(b[0][0]);
    assert!(!b[0][1]);
    assert!(!b[1][0]);
}

#[test]
fn labels_in_row_order() {
    let t = tracker(
        date(2023, 1, 2),
        vec![habit("a", HabitType::BIT), habit("b", HabitType::COUNT)],
    );
    assert_eq!(t.labels(), vec!["a", "b"]);
}

#[test]
fn serialized_tracker_round_trips() {
    let mut bit = habit("read", HabitType::BIT);
    bit.check_task(date(2023, 1, 2), None);
    let mut count = habit("pushups", HabitType::COUNT);
    count.check_task(date(2023, 1, 3), None);
    count.check_task(date(2023, 1, 3), None);
    let mut alpha = habit("mood", HabitType::ALPHA);
    alpha.check_task(date(2023, 1, 4), Some('g'));
    let t = tracker(date(2023, 1, 2), vec![bit, count, alpha]);
    let text = serialize_tracker(&t);
    let back = parse_tracker(&text).unwrap();
    assert_eq!(back, t);
}

#[test]
fn round_trip_keeps_awkward_labels_and_values() {
    let mut h = habit("a \"b\" \\ c", HabitType::ALPHA);
    h.check_task(date(-1, 12, 31), Some('"'));
    h.check_task(date(2023, 7, 1), Some('\\'));
    let t = tracker(date(2023, 1, 2), vec![h]);
    let text = serialize_tracker(&t);
    let back = parse_tracker(&text).unwrap();
    assert_eq!(back, t);
}

#[test]
fn serialized_form_is_the_documented_shape() {
    let mut h = habit("read", HabitType::BIT);
    h.check_task(date(2023, 1, 2), None);
    let t = tracker(date(2023, 1, 2), vec![h]);
    assert_eq!(
        serialize_tracker(&t),
        "{\"week_start\":\"2023-01-02T00:00:00Z\",\"habits\":[{\"label\":\"read\",\
         \"habit_type\":\"BIT\",\"records\":{\"2023-01-02\":\"true\"}}]}"
    );
}

#[test]
fn empty_tracker_round_trips() {
    let t = tracker(date(2023, 1, 2), vec![]);
    let text = serialize_tracker(&t);
    assert_eq!(text, "{\"week_start\":\"2023-01-02T00:00:00Z\",\"habits\":[]}");
    assert_eq!(parse_tracker(&text).unwrap(), t);
}

#[test]
fn parse_rejects_malformed_text() {
    assert_eq!(parse_tracker(""), None);
    assert_eq!(parse_tracker("nonsense"), None);
    assert_eq!(parse_tracker("{\"week_start\":\"2023-13-02T00:00:00Z\",\"habits\":[]}"), None);
    assert_eq!(parse_tracker("{\"week_start\":\"2023-01-02T00:00:00Z\",\"habits\":[]} "), None);
    assert_eq!(
        parse_tracker(
            "{\"week_start\":\"2023-01-02T00:00:00Z\",\"habits\":[{\"label\":\"x\",\
             \"habit_type\":\"COUNT\",\"records\":{\"2023-01-02\":\"007\"}}]}"
        ),
        None
    );
}

#[test]
fn date_keys_are_canonical() {
    assert_eq!(date(2023, 1, 2).key(), "2023-01-02");
    assert_eq!(date(-1, 12, 31).key(), "-0001-12-31");
    assert_eq!(date(33333, 1, 1).key(), "33333-01-01");
    assert_eq!(date(5, 10, 31).key(), "0005-10-31");
}

#[test]
fn default_tracker_is_empty() {
    let t = HabitTracker::default();
    assert!(t.habits.is_empty());
}

#[test]
fn command_mode_round_trip_through_keys() {
    let mut app = App::new(tracker(date(2023, 1, 2), vec![]));
    assert!(!app.handle_key(Key::Char(':')));
    for c in "add run".chars() {
        assert!(!app.handle_key(Key::Char(c)));
    }
    assert!(!app.handle_key(Key::Enter));
    assert_eq!(app.tracker.habits.len(), 1);
    assert_eq!(app.tracker.habits[0].label, "run");
}

#[test]
fn escape_cancels_command_entry() {
    let mut app = App::new(tracker(date(2023, 1, 2), vec![]));
    app.handle_key(Key::Char(':'));
    app.handle_key(Key::Char('a'));
    app.handle_key(Key::Char('b'));
    app.handle_key(Key::Backspace);
    assert_eq!(app.input, "a");
    app.handle_key(Key::Esc);
    assert_eq!(app.input, "");
    assert_eq!(app.tracker.habits.len(), 0);
    assert_eq!(app.mode, rabit::AppMode::NORMAL);
}

#[test]
fn character_habit_goes_through_value_entry() {
    let mut app = App::new(tracker(date(2023, 1, 2), vec![habit("mood", HabitType::ALPHA)]));
    app.state.select((0, 2));
    assert!(!app.handle_key(Key::Char(' ')));
    assert_eq!(app.mode, rabit::AppMode::HABIT);
    assert_eq!(app.tracker.habits[0].records.len(), 0);
    assert!(!app.handle_key(Key::Char('g')));
    assert_eq!(app.mode, rabit::AppMode::NORMAL);
    assert_eq!(app.tracker.habits[0].records.len(), 1);
    assert_eq!(app.tracker.habits[0].records[0].date, date(2023, 1, 4));
    assert_eq!(app.tracker.habits[0].records[0].value, "g");
}

#[test]
fn marking_through_space_key_toggles() {
    let mut app = App::new(tracker(date(2023, 1, 2), vec![habit("read", HabitType::BIT)]));
    app.state.select((0, 0));
    app.handle_key(Key::Char(' '));
    assert_eq!(app.tracker.habits[0].records.len(), 1);
    app.handle_key(Key::Char(' '));
    assert_eq!(app.tracker.habits[0].records.len(), 0);
}

#[test]
fn deleting_selected_last_row_clamps_selection() {
    let mut t = tracker(
        date(2023, 1, 2),
        vec![habit("a", HabitType::BIT), habit("b", HabitType::BIT)],
    );
    let mut app = App::new(t.clone());
    app.state.select((1, 3));
    app.handle_key(Key::Char(':'));
    for c in "delete 1".chars() {
        app.handle_key(Key::Char(c));
    }
    app.handle_key(Key::Enter);
    assert_eq!(app.tracker.habits.len(), 1);
    assert_eq!(app.state.selected(), Some((0, 3)));
    t.habits.remove(1);
    assert_eq!(app.tracker, t);
}

#[test]
fn quit_key_reports_quit() {
    let mut app = App::new(tracker(date(2023, 1, 2), vec![]));
    assert!(app.handle_key(Key::Char('q')));
    assert!(!app.handle_key(Key::Other));
}

#[test]
fn tokens_can_be_built_by_hand() {
    let tokens = vec![
        Token { text: "add".to_string(), token_type: TokenType::Word },
        Token { text: " ".to_string(), token_type: TokenType::Whitespace },
        Token { text: "tea".to_string(), token_type: TokenType::QuotedString },
    ];
    let mut t = tracker(date(2023, 1, 2), vec![]);
    assert_eq!(rabit::interpret(&tokens, &mut t), CommandResult::Added);
    assert_eq!(t.habits[0].label, "tea");
}
