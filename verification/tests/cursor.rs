use lapce_core::cursor::CodepointCursor;
use lapce_core::rope::Text;

#[test]
fn cursor_steps_forward_over_codepoints() {
    let rope = Text::new("a\u{e9}\u{4e16}\u{1f600}z");
    let mut cursor = CodepointCursor::new(&rope, 0);
    let expected = ['a', '\u{e9}', '\u{4e16}', '\u{1f600}', 'z'];
    for (i, c) in expected.iter().enumerate() {
        assert_eq!(cursor.position(), i);
        assert_eq!(cursor.peek_next_codepoint(), Some(*c));
        assert_eq!(cursor.next_codepoint(), Some(*c));
    }
    assert_eq!(cursor.position(), 5);
    assert_eq!(cursor.peek_next_codepoint(), None);
    assert_eq!(cursor.next_codepoint(), None);
    assert_eq!(cursor.position(), 5);
}

#[test]
fn cursor_steps_backward_over_codepoints() {
    let rope = Text::new("a\u{e9}\u{4e16}\u{1f600}z");
    let mut cursor = CodepointCursor::new(&rope, 5);
    let expected = ['z', '\u{1f600}', '\u{4e16}', '\u{e9}', 'a'];
    for (i, c) in expected.iter().enumerate() {
        assert_eq!(cursor.position(), 5 - i);
        assert_eq!(cursor.prev_codepoint(), Some(*c));
        assert_eq!(cursor.peek_next_codepoint(), Some(*c));
    }
    assert_eq!(cursor.position(), 0);
    assert_eq!(cursor.prev_codepoint(), None);
    assert_eq!(cursor.position(), 0);
}

#[test]
fn cursor_goes_on_after_running_into_an_end() {
    let rope = Text::new("ab");
    let mut cursor = CodepointCursor::new(&rope, 1);
    assert_eq!(cursor.next_codepoint(), Some('b'));
    assert_eq!(cursor.next_codepoint(), None);
    assert_eq!(cursor.next_codepoint(), None);
    assert_eq!(cursor.prev_codepoint(), Some('b'));
    assert_eq!(cursor.prev_codepoint(), Some('a'));
    assert_eq!(cursor.prev_codepoint(), None);
    assert_eq!(cursor.prev_codepoint(), None);
    assert_eq!(cursor.peek_next_codepoint(), Some('a'));
    assert_eq!(cursor.next_codepoint(), Some('a'));
}

#[test]
fn cursor_starts_at_the_offset_given_in_codepoints() {
    let rope = Text::new("\u{1f600}\u{1f600}\u{e9}x");
    for (offset, c) in ['\u{1f600}', '\u{1f600}', '\u{e9}', 'x'].iter().enumerate() {
        let cursor = CodepointCursor::new(&rope, offset);
        assert_eq!(cursor.position(), offset);
        assert_eq!(cursor.peek_next_codepoint(), Some(*c));
    }
    let cursor = CodepointCursor::new(&rope, 4);
    assert_eq!(cursor.peek_next_codepoint(), None);
}

#[test]
fn cursor_try_new_checks_the_offset() {
    let rope = Text::new("\u{1f600}\u{e9}x");
    for offset in 0..=3 {
        let cursor = CodepointCursor::try_new(&rope, offset).unwrap();
        assert_eq!(cursor.position(), offset);
    }
    assert!(CodepointCursor::try_new(&rope, 4).is_none());
    assert!(CodepointCursor::try_new(&rope, 7).is_none());
    let empty = Text::new("");
    assert!(CodepointCursor::try_new(&empty, 0).is_some());
    assert!(CodepointCursor::try_new(&empty, 1).is_none());
}

#[test]
fn cursor_goes_back_to_a_mark() {
    let rope = Text::new("a\u{e9}\u{4e16}\u{1f600}z");
    let mut cursor = CodepointCursor::new(&rope, 2);
    let mark = cursor.mark();
    assert_eq!(mark.index(), 2);
    assert_eq!(cursor.next_codepoint(), Some('\u{4e16}'));
    assert_eq!(cursor.next_codepoint(), Some('\u{1f600}'));
    let later = cursor.mark();
    assert_eq!(later.index(), 4);
    cursor.set(mark);
    assert_eq!(cursor.position(), 2);
    assert_eq!(cursor.peek_next_codepoint(), Some('\u{4e16}'));
    assert_eq!(cursor.prev_codepoint(), Some('\u{e9}'));
    cursor.set(later);
    assert_eq!(cursor.position(), 4);
    assert_eq!(cursor.next_codepoint(), Some('z'));
}

#[test]
fn cursor_walks_a_long_text_both_ways() {
    let text = "\u{4e16}\u{754c} ".repeat(700);
    let rope = Text::new(&text);
    let expected: Vec<char> = text.chars().collect();
    let mut cursor = CodepointCursor::new(&rope, 0);
    for c in expected.iter() {
        assert_eq!(cursor.next_codepoint(), Some(*c));
    }
    assert_eq!(cursor.next_codepoint(), None);
    assert_eq!(cursor.position(), 2100);
    for c in expected.iter().rev() {
        assert_eq!(cursor.prev_codepoint(), Some(*c));
    }
    assert_eq!(cursor.prev_codepoint(), None);
    assert_eq!(cursor.position(), 0);
}

#[test]
fn cursor_goes_back_to_a_mark_in_a_long_text() {
    let text = "\u{e9}a".repeat(1500);
    let rope = Text::new(&text);
    let mut cursor = CodepointCursor::new(&rope, 100);
    let near = cursor.mark();
    for _ in 0..2500 {
        cursor.next_codepoint();
    }
    let far = cursor.mark();
    assert_eq!(far.index(), 2600);
    cursor.set(near);
    assert_eq!(cursor.position(), 100);
    assert_eq!(cursor.next_codepoint(), Some('\u{e9}'));
    cursor.set(far);
    assert_eq!(cursor.position(), 2600);
    assert_eq!(cursor.next_codepoint(), Some('\u{e9}'));
    assert_eq!(cursor.next_codepoint(), Some('a'));
}
