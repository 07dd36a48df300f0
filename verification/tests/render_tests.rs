use workspacer::picker::{filter_items, BrowserState};
use workspacer::render::{diff_frames, render_step, status_update, visible_lines, ScreenOp, StatusOp};

fn lines(ls: &[&str]) -> Vec<String> {
    ls.iter().map(|l| l.to_string()).collect()
}

#[test]
fn diff_writes_only_changed_rows() {
    let old = lines(&["a", "b", "c"]);
    let new = lines(&["a", "x", "c"]);
    assert_eq!(diff_frames(&old, &new), vec![ScreenOp::Write { row: 1, text: "x".to_string() }]);
}

#[test]
fn diff_clears_rows_only_the_old_frame_has() {
    let old = lines(&["a", "b", "c"]);
    let new = lines(&["a"]);
    assert_eq!(
        diff_frames(&old, &new),
        vec![ScreenOp::Clear { row: 1 }, ScreenOp::Clear { row: 2 }]
    );
}

#[test]
fn diff_writes_rows_only_the_new_frame_has() {
    let old = lines(&["a"]);
    let new = lines(&["a", "b"]);
    assert_eq!(diff_frames(&old, &new), vec![ScreenOp::Write { row: 1, text: "b".to_string() }]);
}

#[test]
fn diff_of_a_frame_against_itself_is_empty() {
    let frame = lines(&["a", "b", "c"]);
    assert_eq!(diff_frames(&frame, &frame), Vec::<ScreenOp>::new());
}

#[test]
fn rendering_twice_without_a_state_change_writes_nothing_the_second_time() {
    let items = lines(&["alpha", "beta", "alphabet"]);
    let mut state = BrowserState::new();
    let filtered = filter_items(&items, "");
    let first = render_step(&mut state, &filtered, 5);
    assert!(!first.is_empty());
    let second = render_step(&mut state, &filtered, 5);
    assert_eq!(second, Vec::<ScreenOp>::new());
}

#[test]
fn visible_lines_mark_the_selected_row_inside_the_window() {
    let filtered = lines(&["aa", "bb", "cc", "dd"]);
    assert_eq!(visible_lines(&filtered, 1, 2, 2), lines(&["  bb", "> cc"]));
    // a window taller than the remainder stops at the end
    assert_eq!(visible_lines(&filtered, 3, 3, 5), lines(&["> dd"]));
    // a zero-height window shows no items
    assert_eq!(visible_lines(&filtered, 0, 0, 0), Vec::<String>::new());
    // an offset past the end shows no items
    assert_eq!(visible_lines(&filtered, 9, 9, 2), Vec::<String>::new());
}

#[test]
fn status_appends_newly_typed_characters() {
    assert_eq!(
        status_update("al", "alph"),
        StatusOp::Append { text: "ph".to_string() }
    );
    assert_eq!(status_update("", "a"), StatusOp::Append { text: "a".to_string() });
}

#[test]
fn status_erases_exactly_the_removed_characters() {
    assert_eq!(status_update("alph", "al"), StatusOp::Erase { count: 2 });
}

#[test]
fn status_rewrites_on_any_other_change_and_appends_nothing_when_equal() {
    assert_eq!(
        status_update("abc", "abd"),
        StatusOp::Rewrite { text: "abd".to_string() }
    );
    assert_eq!(status_update("abc", "abc"), StatusOp::Append { text: String::new() });
}
