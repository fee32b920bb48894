use fastoj::chartype::{scan_word_left, scan_word_right};
use fastoj::command::{Command, InputEvent, KeyCode, KeyModifiers};
use fastoj::editor::{CommandEffect, Editor, ScrollOffset};
use ropey::Rope;

fn editor_with(text: &str) -> Editor {
    let mut ed = Editor::from_rope(Rope::from_str(text), 80, 24);
    ed.rebuild_height_cache();
    ed
}

fn key(code: KeyCode) -> InputEvent {
    InputEvent {
        code,
        modifiers: KeyModifiers::none(),
    }
}

#[test]
fn word_right_then_left_returns() {
    let rope = Rope::from_str("foo bar");
    let right = scan_word_right(&rope, 0);
    assert_eq!(right, 3);
    let back = scan_word_left(&rope, right);
    assert_eq!(back, 0);

    // and from the start of the second token
    let right2 = scan_word_right(&rope, 4);
    assert_eq!(right2, 7);
    assert_eq!(scan_word_left(&rope, right2), 4);
}

#[test]
fn word_right_over_whitespace_lands_after_token() {
    let rope = Rope::from_str("foo bar");
    // starting on the space: consume the space and then the whole token
    assert_eq!(scan_word_right(&rope, 3), 7);
}

#[test]
fn newline_insert_splits_line_and_dirties_below() {
    let mut ed = editor_with("abcdef\nsecond\nthird\n");
    ed.cursor = 3;
    let effect = ed.handle_key_event(key(KeyCode::Enter), None);
    assert_eq!(effect, CommandEffect::TextChanged(0, 1, 2));
    assert_eq!(ed.text().to_string(), "abc\ndef\nsecond\nthird\n");
    // the height of the document grew, so every line from the edit
    // point on is dirty
    for line in 0..5 {
        assert!(ed.dirty_lines.is_marked(line));
    }
    // and the cache matches a fresh rebuild
    let incremental = ed.cumulative_visual_heights.clone();
    ed.rebuild_height_cache();
    assert_eq!(incremental, ed.cumulative_visual_heights);
}

#[test]
fn typing_replaces_selection() {
    let mut ed = editor_with("hello world");
    ed.selection_anchor = Some(0);
    ed.cursor = 5;
    let effect = ed.handle_key_event(key(KeyCode::Char('X')), None);
    assert_eq!(effect, CommandEffect::TextChanged(0, 1, 1));
    assert_eq!(ed.text().to_string(), "X world");
    assert_eq!(ed.cursor, 1);
    assert_eq!(ed.selection_anchor, None);
}

#[test]
fn update_matches_rebuild_after_many_edits() {
    let mut ed = editor_with("one line that is long enough to wrap around the terminal width\nshort\n");
    let keys = [
        KeyCode::Char('a'),
        KeyCode::Enter,
        KeyCode::Char('b'),
        KeyCode::Backspace,
        KeyCode::Enter,
        KeyCode::Delete,
        KeyCode::Char('c'),
    ];
    for k in keys {
        ed.handle_key_event(key(k), None);
        let incremental = ed.cumulative_visual_heights.clone();
        ed.rebuild_height_cache();
        assert_eq!(incremental, ed.cumulative_visual_heights);
    }
}

#[test]
fn scroll_keeps_cursor_visible() {
    let mut text = String::new();
    for i in 0..100 {
        text.push_str(&format!("line {}\n", i));
    }
    let mut ed = editor_with(&text);
    ed.cursor = 0;
    ed.scroll_to_cursor();
    assert_eq!(
        ed.scroll_offset,
        ScrollOffset {
            logical_line: 0,
            visual_offset_in_line: 0
        }
    );

    // jump far down: the window must contain the cursor's row
    ed.handle_key_event(key(KeyCode::PageDown), None);
    ed.scroll_to_cursor();
    let top = ed.scroll_offset.logical_line;
    // 23 content rows (24 minus the status bar); cursor is on line 100
    assert!(top <= 100 && 100 < top + 23);
}

#[test]
fn short_document_scrolls_to_top() {
    let mut ed = editor_with("a\nb\nc\n");
    ed.handle_key_event(key(KeyCode::PageDown), None);
    ed.scroll_to_cursor();
    assert_eq!(ed.scroll_offset.logical_line, 0);
    assert_eq!(ed.scroll_offset.visual_offset_in_line, 0);

    // even a stale window top above the cursor returns to the very top
    ed.scroll_offset = ScrollOffset {
        logical_line: 3,
        visual_offset_in_line: 0,
    };
    ed.cursor = 2;
    ed.scroll_to_cursor();
    assert_eq!(ed.scroll_offset.logical_line, 0);
    assert_eq!(ed.scroll_offset.visual_offset_in_line, 0);
}

#[test]
fn wide_characters_wrap_double_width() {
    // four ideographs, two columns each: they wrap at the content width
    let ed = editor_with("好好好好");
    // content width is 80 - 8 = 72 columns, so one row
    assert_eq!(ed.cumulative_visual_heights, vec![0, 1]);

    let mut narrow = Editor::from_rope(Rope::from_str("好好好好"), 12, 24);
    narrow.rebuild_height_cache();
    // content width is 12 - 8 = 4 columns: two ideographs per row
    assert_eq!(narrow.cumulative_visual_heights, vec![0, 2]);
}

#[test]
fn cursor_vertical_moves_remember_column() {
    let mut ed = editor_with("abcdef\nab\nabcdef\n");
    ed.cursor = 4; // column 4 of the first line
    ed.handle_key_event(key(KeyCode::Down), None);
    assert_eq!(ed.cursor, 9); // clamped to the end of "ab"
    ed.handle_key_event(key(KeyCode::Down), None);
    assert_eq!(ed.cursor, 14); // back out to column 4
}

#[test]
fn delete_word_right_removes_token() {
    let mut ed = editor_with("foo bar");
    ed.cursor = 0;
    let effect = ed.execute_command(Command::DeleteWordRight, None);
    assert_eq!(effect, CommandEffect::TextChanged(0, 1, 1));
    assert_eq!(ed.text().to_string(), " bar");
}

#[test]
fn paste_reports_exact_line_counts() {
    let mut ed = editor_with("start end");
    ed.cursor = 5;
    let pasted = String::from("one\ntwo\n");
    let effect = ed.execute_command(Command::TextPaste, Some(&pasted));
    // two newlines pasted: one line replaced by three
    assert_eq!(effect, CommandEffect::TextChanged(0, 1, 3));
    assert_eq!(ed.text().to_string(), "startone\ntwo\n end");
    assert_eq!(ed.cursor, 13);
}

#[test]
fn select_line_spans_whole_line() {
    let mut ed = editor_with("first\nsecond\nthird\n");
    ed.cursor = 8; // inside "second"
    let effect = ed.execute_command(Command::SelectLine, None);
    assert_eq!(effect, CommandEffect::SelectionFixed);
    assert_eq!(ed.selection_anchor, Some(6));
    assert_eq!(ed.cursor, 13);
}

#[test]
fn unresolved_key_is_no_effect() {
    let mut ed = editor_with("abc");
    let ev = InputEvent {
        code: KeyCode::F(5),
        modifiers: KeyModifiers::none(),
    };
    assert_eq!(ed.handle_key_event(ev, None), CommandEffect::NoEffect);
    assert_eq!(ed.text().to_string(), "abc");
}

#[test]
fn exit_key_sets_quit_flag() {
    let mut ed = editor_with("abc");
    let effect = ed.handle_key_event(key(KeyCode::Esc), None);
    assert_eq!(effect, CommandEffect::NoEffect);
    assert!(ed.should_quit);
}

#[test]
fn home_and_end_travel_the_line() {
    let mut ed = editor_with("alpha\nbeta gamma\n");
    ed.cursor = 9;
    ed.execute_command(Command::CursorHome, None);
    assert_eq!(ed.cursor, 6);
    ed.execute_command(Command::CursorEnd, None);
    assert_eq!(ed.cursor, 16);
}

#[test]
fn mouse_click_places_cursor() {
    let mut ed = editor_with("hello\nworld\n");
    ed.cursor = 0;
    // column 9 is two text columns past the 7-column gutter, row 1
    ed.on_mouse_down(9, 1);
    assert_eq!(ed.cursor, 8); // the 'r' of "world"
    assert_eq!(ed.selection_anchor, None);
    assert_eq!(ed.tmp_x, None);

    // a click in the gutter goes to the line start
    ed.on_mouse_down(2, 0);
    assert_eq!(ed.cursor, 0);

    // a click on the status bar moves nothing
    ed.cursor = 3;
    ed.on_mouse_down(9, 23);
    assert_eq!(ed.cursor, 3);
}

#[test]
fn mouse_drag_selects_and_dirties() {
    let mut ed = editor_with("hello\nworld\n");
    ed.cursor = 1;
    ed.dirty_lines.clear();
    ed.on_mouse_drag(10, 1);
    assert_eq!(ed.selection_anchor, Some(1));
    assert_eq!(ed.cursor, 9);
    // both crossed lines need repainting
    assert!(ed.dirty_lines.is_marked(0));
    assert!(ed.dirty_lines.is_marked(1));
    // dragging again keeps the anchor
    ed.on_mouse_drag(8, 0);
    assert_eq!(ed.selection_anchor, Some(1));
    assert_eq!(ed.cursor, 1);
    // releasing on the anchor clears the selection
    ed.on_mouse_up();
    assert_eq!(ed.selection_anchor, None);
}

#[test]
fn shift_navigation_extends_selection() {
    let mut ed = editor_with("abcdef");
    ed.cursor = 2;
    let ev = InputEvent {
        code: KeyCode::Right,
        modifiers: KeyModifiers::shift(),
    };
    ed.handle_key_event(ev, None);
    assert_eq!(ed.selection_anchor, Some(2));
    assert_eq!(ed.cursor, 3);
    // plain navigation clears it again
    ed.handle_key_event(key(KeyCode::Right), None);
    assert_eq!(ed.selection_anchor, None);
}
