use noteorg::interaction::{
    react, refresh, show_search_results_realtime, Effect, SessionCommand, SessionEvent,
};
use noteorg::render::{
    render_results, render_search_input, render_search_ui, render_separator, show_outcome,
    show_placeholder, Line,
};
use noteorg::search::SearchError;
use noteorg::session::{apply_action, handle_keyboard_event, KeyCode, KeyEvent, SearchAction, SearchState};
use noteorg::snapshot::{FileData, FileStat, FsNode, IoFailure, Timestamp};

fn segs(parts: &[&str]) -> Vec<String> {
    parts.iter().map(|p| p.to_string()).collect()
}

fn file(name: &str, content: &str) -> FsNode {
    FsNode::File {
        name: name.to_string(),
        data: FileData {
            stat: Ok(FileStat {
                modified: Ok(Timestamp { seconds: 1_700_000_000, nanos: 0 }),
                created: Ok(Timestamp { seconds: 1_600_000_000, nanos: 0 }),
            }),
            content: Ok(content.to_string()),
            front_matter: None,
        },
    }
}

fn corpus() -> FsNode {
    FsNode::Dir {
        name: "notes".to_string(),
        entries: vec![
            file("apple.md", "red fruit"),
            file("banana.md", "yellow fruit"),
            file("cherry.md", "red stone fruit"),
        ],
    }
}

fn key(code: KeyCode) -> KeyEvent {
    KeyEvent { code, control: false }
}

fn press(code: KeyCode) -> SessionEvent {
    SessionEvent::Key(key(code))
}

fn typed(text: &str) -> Vec<SessionEvent> {
    text.chars().map(|c| press(KeyCode::Char(c))).collect()
}

fn plain(row: u16, text: &str) -> Line {
    Line { row, text: text.to_string(), highlighted: false }
}

fn state_with(input: &str, results: &[&[&str]], selected: usize) -> SearchState {
    let mut s = SearchState::new();
    s.input = input.to_string();
    s.current_results = results.iter().map(|p| segs(p)).collect();
    s.selected_index = selected;
    s
}

fn rule() -> String {
    "─".repeat(50)
}

#[test]
fn new_state_is_empty_and_owes_a_drawing() {
    let s = SearchState::new();
    assert_eq!(s.input, "");
    assert_eq!(s.last_input, "__FORCE_DRAW__");
    assert_eq!(s.selected_index, 0);
    assert_eq!(s.last_selected, usize::MAX);
    assert!(s.current_results.is_empty());
    assert!(s.needs_redraw);
    assert!(s.has_changes());
}

#[test]
fn mark_rendered_settles_the_state() {
    let mut s = state_with("ab", &[&["n", "a.md"], &["n", "b.md"]], 1);
    assert!(s.has_changes());
    s.mark_rendered();
    assert!(!s.has_changes());
    assert_eq!(s.last_input, "ab");
    assert_eq!(s.last_selected, 1);
    assert!(!s.needs_redraw);
    s.selected_index = 0;
    assert!(s.has_changes());
    s.mark_rendered();
    s.input.push('c');
    assert!(s.has_changes());
    s.mark_rendered();
    s.needs_redraw = true;
    assert!(s.has_changes());
}

#[test]
fn keys_are_turned_into_actions() {
    let s = state_with("q", &[&["n", "a.md"], &["n", "b.md"]], 1);
    let ctrl_c = KeyEvent { code: KeyCode::Char('c'), control: true };
    assert_eq!(handle_keyboard_event(ctrl_c, &s), SearchAction::Exit);
    assert_eq!(handle_keyboard_event(key(KeyCode::Char('c')), &s), SearchAction::AddChar('c'));
    let ctrl_x = KeyEvent { code: KeyCode::Char('x'), control: true };
    assert_eq!(handle_keyboard_event(ctrl_x, &s), SearchAction::AddChar('x'));
    assert_eq!(handle_keyboard_event(key(KeyCode::Up), &s), SearchAction::MoveUp);
    assert_eq!(handle_keyboard_event(key(KeyCode::Down), &s), SearchAction::MoveDown);
    assert_eq!(handle_keyboard_event(key(KeyCode::Backspace), &s), SearchAction::DeleteChar);
    assert_eq!(handle_keyboard_event(key(KeyCode::Esc), &s), SearchAction::ClearAndExit);
    assert_eq!(handle_keyboard_event(key(KeyCode::Other), &s), SearchAction::Continue);
    assert_eq!(
        handle_keyboard_event(key(KeyCode::Enter), &s),
        SearchAction::OpenEditor(segs(&["n", "b.md"]))
    );
}

#[test]
fn enter_without_a_valid_selection_does_nothing() {
    let empty = state_with("q", &[], 0);
    assert_eq!(handle_keyboard_event(key(KeyCode::Enter), &empty), SearchAction::Continue);
    let beyond = state_with("q", &[&["n", "a.md"]], 3);
    assert_eq!(handle_keyboard_event(key(KeyCode::Enter), &beyond), SearchAction::Continue);
}

#[test]
fn selection_moves_within_the_results_and_does_not_wrap() {
    let mut s = state_with("q", &[&["a"], &["b"], &["c"]], 0);
    assert_eq!(apply_action(SearchAction::MoveUp, &mut s), None);
    assert_eq!(s.selected_index, 0);
    apply_action(SearchAction::MoveDown, &mut s);
    assert_eq!(s.selected_index, 1);
    apply_action(SearchAction::MoveDown, &mut s);
    assert_eq!(s.selected_index, 2);
    apply_action(SearchAction::MoveDown, &mut s);
    assert_eq!(s.selected_index, 2);
    apply_action(SearchAction::MoveUp, &mut s);
    assert_eq!(s.selected_index, 1);
    let mut empty = state_with("q", &[], 0);
    apply_action(SearchAction::MoveDown, &mut empty);
    assert_eq!(empty.selected_index, 0);
}

#[test]
fn characters_are_added_and_deleted_at_the_end() {
    let mut s = SearchState::new();
    apply_action(SearchAction::AddChar('a'), &mut s);
    apply_action(SearchAction::AddChar('ß'), &mut s);
    assert_eq!(s.input, "aß");
    apply_action(SearchAction::DeleteChar, &mut s);
    assert_eq!(s.input, "a");
    apply_action(SearchAction::DeleteChar, &mut s);
    apply_action(SearchAction::DeleteChar, &mut s);
    assert_eq!(s.input, "");
}

#[test]
fn other_actions_leave_the_state_alone() {
    let mut s = state_with("q", &[&["a"]], 0);
    let before = s.clone();
    assert_eq!(apply_action(SearchAction::OpenEditor(segs(&["a"])), &mut s), Some(segs(&["a"])));
    assert_eq!(apply_action(SearchAction::Continue, &mut s), None);
    assert_eq!(apply_action(SearchAction::Exit, &mut s), None);
    assert_eq!(apply_action(SearchAction::ClearAndExit, &mut s), None);
    assert_eq!(s, before);
}

#[test]
fn input_line_and_rule() {
    assert_eq!(render_search_input("abc"), plain(0, "Search: abc"));
    assert_eq!(render_search_input(""), plain(0, "Search: "));
    let line = render_separator();
    assert_eq!(line, plain(1, &rule()));
    assert_eq!(line.text.chars().count(), 50);
}

#[test]
fn empty_query_shows_the_prompt_and_drops_the_results() {
    let mut s = state_with("", &[&["a"], &["b"]], 1);
    assert_eq!(show_placeholder(&mut s), vec![plain(2, "Start typing to search...")]);
    assert!(s.current_results.is_empty());
    assert_eq!(s.selected_index, 0);
    let mut t = state_with("", &[&["a"], &["b"]], 1);
    assert_eq!(
        render_results(&mut t, &segs(&["notes"]), &corpus()),
        vec![plain(2, "Start typing to search...")]
    );
    assert!(t.current_results.is_empty());
}

#[test]
fn new_results_replace_the_old_and_reset_the_selection() {
    let mut s = state_with("fruit", &[&["old"], &["older"]], 1);
    s.last_input = "frui".to_string();
    let shown = show_outcome(&mut s, Ok(vec![segs(&["n", "apple.md"]), segs(&["n", "cherry.md"])]));
    assert_eq!(s.current_results, vec![segs(&["n", "apple.md"]), segs(&["n", "cherry.md"])]);
    assert_eq!(s.selected_index, 0);
    assert_eq!(
        shown,
        vec![
            plain(2, "Found 2 matches (↑↓ to select, Enter to edit):"),
            Line { row: 3, text: "▶ 1. apple.md".to_string(), highlighted: true },
            plain(4, "  2. cherry.md"),
        ]
    );
}

#[test]
fn results_stay_when_the_query_has_not_changed() {
    let mut s = state_with("fruit", &[&["n", "a.md"], &["n", "b.md"]], 1);
    s.last_input = "fruit".to_string();
    let shown = show_outcome(&mut s, Ok(vec![segs(&["n", "z.md"])]));
    assert_eq!(s.current_results, vec![segs(&["n", "a.md"]), segs(&["n", "b.md"])]);
    assert_eq!(s.selected_index, 1);
    assert_eq!(
        shown,
        vec![
            plain(2, "Found 2 matches (↑↓ to select, Enter to edit):"),
            plain(3, "  1. a.md"),
            Line { row: 4, text: "▶ 2. b.md".to_string(), highlighted: true },
        ]
    );
}

#[test]
fn no_results_are_said_so() {
    let mut s = state_with("zzz", &[&["old"]], 0);
    assert_eq!(show_outcome(&mut s, Ok(vec![])), vec![plain(2, "No matches")]);
    assert!(s.current_results.is_empty());
}

#[test]
fn invalid_pattern_clears_the_results_and_keeps_the_selection() {
    let mut s = state_with("(", &[&["a"], &["b"], &["c"]], 2);
    assert_eq!(
        show_outcome(&mut s, Err(SearchError::InvalidPattern("unclosed group".to_string()))),
        vec![plain(2, "Invalid regex pattern")]
    );
    assert!(s.current_results.is_empty());
    assert_eq!(s.selected_index, 2);
    let mut t = state_with("(", &[&["a"]], 0);
    assert_eq!(
        render_results(&mut t, &segs(&["notes"]), &corpus()),
        vec![plain(2, "Invalid regex pattern")]
    );
}

#[test]
fn unreadable_root_shows_no_results() {
    let mut s = state_with("a", &[&["a"], &["b"]], 1);
    assert_eq!(
        show_outcome(&mut s, Err(SearchError::Traversal(IoFailure::PermissionDenied))),
        vec![plain(2, "No matches")]
    );
    assert!(s.current_results.is_empty());
    let root = FsNode::DeniedDir { name: "notes".to_string(), failure: IoFailure::NotFound };
    let mut t = state_with("a", &[], 0);
    assert_eq!(render_results(&mut t, &segs(&["notes"]), &root), vec![plain(2, "No matches")]);
}

#[test]
fn at_most_ten_results_are_listed() {
    let many: Vec<Vec<String>> = (1..=12).map(|i| segs(&["n", &format!("f{}.md", i)])).collect();
    let mut s = state_with("f", &[], 0);
    let shown = show_outcome(&mut s, Ok(many));
    assert_eq!(shown.len(), 11);
    assert_eq!(shown[0], plain(2, "Found 12 matches (↑↓ to select, Enter to edit):"));
    assert_eq!(shown[10], plain(12, "  10. f10.md"));
    assert_eq!(s.current_results.len(), 12);
}

#[test]
fn a_result_without_segments_is_listed_as_unknown() {
    let mut s = state_with("f", &[], 0);
    let shown = show_outcome(&mut s, Ok(vec![segs(&[])]));
    assert_eq!(shown[1], Line { row: 3, text: "▶ 1. unknown".to_string(), highlighted: true });
}

#[test]
fn whole_screen_for_a_query() {
    let mut s = SearchState::new();
    s.input = "yellow".to_string();
    let shown = render_search_ui(&mut s, &segs(&["notes"]), &corpus());
    assert_eq!(
        shown,
        vec![
            plain(0, "Search: yellow"),
            plain(1, &rule()),
            plain(2, "Found 1 matches (↑↓ to select, Enter to edit):"),
            Line { row: 3, text: "▶ 1. banana.md".to_string(), highlighted: true },
        ]
    );
    assert_eq!(s.current_results, vec![segs(&["notes", "banana.md"])]);
}

#[test]
fn refresh_draws_only_when_something_changed() {
    let mut s = SearchState::new();
    let first = refresh(&mut s, &segs(&["notes"]), &corpus());
    assert_eq!(
        first,
        Some(vec![plain(0, "Search: "), plain(1, &rule()), plain(2, "Start typing to search...")])
    );
    assert_eq!(refresh(&mut s, &segs(&["notes"]), &corpus()), None);
    assert!(!s.has_changes());
}

#[test]
fn react_carries_out_what_the_key_asks() {
    let mut s = state_with("q", &[&["n", "a.md"], &["n", "b.md"]], 0);
    s.mark_rendered();
    assert_eq!(react(key(KeyCode::Down), &mut s), SessionCommand::Continue);
    assert_eq!(s.selected_index, 1);
    assert_eq!(react(key(KeyCode::Enter), &mut s), SessionCommand::OpenEditor(segs(&["n", "b.md"])));
    assert!(s.needs_redraw);
    assert_eq!(react(key(KeyCode::Esc), &mut s), SessionCommand::Exit);
    assert_eq!(react(KeyEvent { code: KeyCode::Char('c'), control: true }, &mut s), SessionCommand::Exit);
    assert_eq!(s.input, "q");
    assert_eq!(react(key(KeyCode::Char('x')), &mut s), SessionCommand::Continue);
    assert_eq!(s.input, "qx");
}

#[test]
fn session_starts_with_the_prompt() {
    let log = show_search_results_realtime(&segs(&["notes"]), &corpus(), &vec![]);
    assert!(!log.exited);
    assert!(log.state.current_results.is_empty());
    assert_eq!(log.state.input, "");
    assert_eq!(
        log.effects,
        vec![Effect::Draw(vec![
            plain(0, "Search: "),
            plain(1, &rule()),
            plain(2, "Start typing to search..."),
        ])]
    );
}

#[test]
fn session_types_selects_and_opens_the_only_match() {
    let mut events = typed("yellow");
    let after_typing =
        show_search_results_realtime(&segs(&["notes"]), &corpus(), &events);
    assert_eq!(after_typing.state.current_results, vec![segs(&["notes", "banana.md"])]);
    assert_eq!(after_typing.state.selected_index, 0);

    events.push(press(KeyCode::Down));
    let after_down = show_search_results_realtime(&segs(&["notes"]), &corpus(), &events);
    assert_eq!(after_down.state.selected_index, 0);
    assert_eq!(after_down.state.current_results.len(), 1);
    assert_eq!(after_down.effects, after_typing.effects);

    events.push(press(KeyCode::Enter));
    let after_enter = show_search_results_realtime(&segs(&["notes"]), &corpus(), &events);
    let edits: Vec<&Effect> =
        after_enter.effects.iter().filter(|e| matches!(e, Effect::Edit(_))).collect();
    assert_eq!(edits, vec![&Effect::Edit(segs(&["notes", "banana.md"]))]);
    assert!(!after_enter.exited);
    assert_eq!(after_enter.state.input, "yellow");
    assert_eq!(after_enter.state.current_results, vec![segs(&["notes", "banana.md"])]);
    assert_eq!(after_enter.state.selected_index, 0);
    assert!(matches!(after_enter.effects.last(), Some(Effect::Draw(_))));
}

#[test]
fn session_draws_once_per_change() {
    let events = vec![
        SessionEvent::Idle,
        press(KeyCode::Char('l')),
        SessionEvent::Idle,
        SessionEvent::Idle,
        press(KeyCode::Other),
        press(KeyCode::Down),
        press(KeyCode::Down),
    ];
    let log = show_search_results_realtime(&segs(&["notes"]), &corpus(), &events);
    assert_eq!(log.effects.len(), 3);
    assert_eq!(log.state.selected_index, 1);
    assert_eq!(
        log.effects[2],
        Effect::Draw(vec![
            plain(0, "Search: l"),
            plain(1, &rule()),
            plain(2, "Found 2 matches (↑↓ to select, Enter to edit):"),
            plain(3, "  1. apple.md"),
            Line { row: 4, text: "▶ 2. banana.md".to_string(), highlighted: true },
        ])
    );
}

#[test]
fn session_ends_on_escape_and_ignores_what_follows() {
    let mut events = typed("re");
    events.push(press(KeyCode::Esc));
    events.extend(typed("d"));
    events.push(press(KeyCode::Enter));
    let log = show_search_results_realtime(&segs(&["notes"]), &corpus(), &events);
    assert!(log.exited);
    assert_eq!(log.state.input, "re");
    assert!(log.effects.iter().all(|e| matches!(e, Effect::Draw(_))));
    assert_eq!(log.effects.len(), 3);
}

#[test]
fn session_ends_on_control_c() {
    let events = vec![SessionEvent::Key(KeyEvent { code: KeyCode::Char('c'), control: true })];
    let log = show_search_results_realtime(&segs(&["notes"]), &corpus(), &events);
    assert!(log.exited);
    assert_eq!(log.state.input, "");
    assert_eq!(log.effects.len(), 1);
}

#[test]
fn session_survives_an_invalid_pattern() {
    let mut events = typed("(");
    events.push(press(KeyCode::Backspace));
    events.extend(typed("stone"));
    let log = show_search_results_realtime(&segs(&["notes"]), &corpus(), &events);
    assert!(!log.exited);
    assert_eq!(log.state.current_results, vec![segs(&["notes", "cherry.md"])]);
    assert_eq!(
        log.effects[1],
        Effect::Draw(vec![plain(0, "Search: ("), plain(1, &rule()), plain(2, "Invalid regex pattern")])
    );
}

#[test]
fn session_after_deleting_the_query_shows_the_prompt_again() {
    let mut events = typed("a");
    events.push(press(KeyCode::Backspace));
    let log = show_search_results_realtime(&segs(&["notes"]), &corpus(), &events);
    assert!(log.state.current_results.is_empty());
    assert_eq!(
        log.effects.last(),
        Some(&Effect::Draw(vec![
            plain(0, "Search: "),
            plain(1, &rule()),
            plain(2, "Start typing to search..."),
        ]))
    );
}
