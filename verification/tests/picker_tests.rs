use workspacer::picker::{filter_items, picker_session, BrowserState, Key, StepOutcome};

fn labels(items: &[&str]) -> Vec<String> {
    items.iter().map(|s| s.to_string()).collect()
}

#[test]
fn filter_is_case_insensitive_prefix() {
    let items = labels(&["alpha", "beta", "alphabet"]);
    let filtered = filter_items(&items, "alph");
    assert_eq!(filtered, labels(&["alpha", "alphabet"]));

    let upper = filter_items(&items, "ALPH");
    assert_eq!(upper, labels(&["alpha", "alphabet"]));

    let mixed = filter_items(&labels(&["Alpha", "ALPHABET", "beta"]), "aLp");
    assert_eq!(mixed, labels(&["Alpha", "ALPHABET"]));
}

#[test]
fn filter_folds_case_beyond_ascii() {
    // LATIN CAPITAL LETTER E WITH ACUTE lowercases to its small form
    let items = labels(&["\u{c9}cole", "beta"]);
    assert_eq!(filter_items(&items, "\u{e9}c"), labels(&["\u{c9}cole"]));
}

#[test]
fn filter_preserves_order_and_handles_edges() {
    let items = labels(&["bb", "ab", "ba", "a"]);
    assert_eq!(filter_items(&items, ""), items);
    assert_eq!(filter_items(&items, "b"), labels(&["bb", "ba"]));
    assert_eq!(filter_items(&items, "zzz"), Vec::<String>::new());
    assert_eq!(filter_items(&Vec::new(), "a"), Vec::<String>::new());
}

#[test]
fn clamp_pulls_selection_and_offset_into_the_window() {
    let mut s = BrowserState::new();
    s.selected = 9;
    s.offset = 7;
    s.clamp(4, 3);
    assert_eq!(s.selected, 3);
    assert_eq!(s.offset, 3);

    // a selection far below the window pushes the offset forward
    s.selected = 5;
    s.offset = 0;
    s.clamp(10, 3);
    assert_eq!(s.selected, 5);
    assert_eq!(s.offset, 3);

    s.selected = 5;
    s.offset = 5;
    s.clamp(0, 3);
    assert_eq!(s.selected, 0);
    assert_eq!(s.offset, 0);
}

#[test]
fn up_and_down_move_selection_and_scroll() {
    let mut s = BrowserState::new();
    // 5 filtered items in a window of height 2
    assert_eq!(s.handle_key(Key::Down, 5, 2), StepOutcome::Running);
    assert_eq!((s.selected, s.offset), (1, 0));
    s.handle_key(Key::Down, 5, 2);
    assert_eq!((s.selected, s.offset), (2, 1));
    s.handle_key(Key::Up, 5, 2);
    assert_eq!((s.selected, s.offset), (1, 1));
    s.handle_key(Key::Up, 5, 2);
    assert_eq!((s.selected, s.offset), (0, 0));
    // at the top, another Up is a no-op
    s.handle_key(Key::Up, 5, 2);
    assert_eq!((s.selected, s.offset), (0, 0));
}

#[test]
fn down_stops_at_the_last_filtered_item() {
    let mut s = BrowserState::new();
    s.handle_key(Key::Down, 1, 3);
    assert_eq!((s.selected, s.offset), (0, 0));
}

#[test]
fn typing_appends_and_resets_position() {
    let mut s = BrowserState::new();
    s.handle_key(Key::Down, 5, 2);
    s.handle_key(Key::Down, 5, 2);
    assert_eq!((s.selected, s.offset), (2, 1));
    s.handle_key(Key::Char('a'), 5, 2);
    assert_eq!((s.selected, s.offset), (0, 0));
    assert_eq!(s.filter, "a");
    s.handle_key(Key::Char('B'), 5, 2);
    assert_eq!(s.filter, "aB");
}

#[test]
fn backspace_removes_last_character_and_is_a_noop_when_empty() {
    let mut s = BrowserState::new();
    s.handle_key(Key::Char('a'), 3, 2);
    s.handle_key(Key::Char('b'), 3, 2);
    s.handle_key(Key::Backspace, 3, 2);
    assert_eq!(s.filter, "a");
    assert_eq!((s.selected, s.offset), (0, 0));
    s.handle_key(Key::Backspace, 3, 2);
    s.handle_key(Key::Backspace, 3, 2);
    assert_eq!(s.filter, "");
}

#[test]
fn session_filters_then_selects_by_arrow_and_enter() {
    let items = labels(&["alpha", "beta", "alphabet"]);
    let keys = vec![
        Key::Char('a'),
        Key::Char('l'),
        Key::Char('p'),
        Key::Char('h'),
        Key::Down,
        Key::Accept,
    ];
    assert_eq!(picker_session(&items, &keys, 10), Some("alphabet".to_string()));
}

#[test]
fn session_cancel_returns_no_selection() {
    let items = labels(&["alpha", "beta"]);
    let keys = vec![Key::Down, Key::Cancel, Key::Accept];
    assert_eq!(picker_session(&items, &keys, 10), None);
}

#[test]
fn session_accept_on_empty_filtered_set_returns_nothing() {
    let items = labels(&["alpha", "beta"]);
    let keys = vec![Key::Char('z'), Key::Accept];
    assert_eq!(picker_session(&items, &keys, 10), None);
}

#[test]
fn session_without_accept_returns_nothing() {
    let items = labels(&["alpha"]);
    let keys = vec![Key::Down, Key::Up];
    assert_eq!(picker_session(&items, &keys, 10), None);
}
