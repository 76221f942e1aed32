use summer_lsp::document::{apply_change, char_index};
use summer_lsp::lsp::{Position, Range};

fn range(sl: u32, sc: u32, el: u32, ec: u32) -> Option<Range> {
    Some(Range { start: Position { line: sl, character: sc }, end: Position { line: el, character: ec } })
}

#[test]
fn test_apply_change_replaces_a_range() {
    let mut text = "[web]\nport = 80\n".to_string();
    apply_change(&mut text, range(1, 7, 1, 9), "8080");
    assert_eq!(text, "[web]\nport = 8080\n");
}

#[test]
fn test_apply_change_without_range_replaces_everything() {
    let mut text = "old".to_string();
    apply_change(&mut text, None, "new text");
    assert_eq!(text, "new text");
}

#[test]
fn test_apply_change_inserts_at_a_position() {
    let mut text = "ab\ncd".to_string();
    apply_change(&mut text, range(1, 1, 1, 1), "X");
    assert_eq!(text, "ab\ncXd");
}

#[test]
fn test_apply_change_end_before_start_inserts() {
    let mut text = "abcd".to_string();
    apply_change(&mut text, range(0, 3, 0, 1), "-");
    assert_eq!(text, "abc-d");
}

#[test]
fn test_char_index_counts_utf16_units_and_clamps() {
    let text: Vec<char> = "a😀b\nxy".chars().collect();
    // The emoji takes two UTF-16 code units.
    assert_eq!(char_index(&text, Position { line: 0, character: 3 }), 2);
    // Past the end of a line: before its line break.
    assert_eq!(char_index(&text, Position { line: 0, character: 40 }), 3);
    assert_eq!(char_index(&text, Position { line: 1, character: 1 }), 5);
    // A line past the last: the end of the text.
    assert_eq!(char_index(&text, Position { line: 7, character: 0 }), 6);
}
