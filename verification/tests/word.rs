use lapce_core::rope::Text;
use lapce_core::word::{ModalWordCursor, WordCursor};

#[test]
fn prev_boundary_should_be_none_at_position_zero() {
    let rope = Text::new("Hello world");
    let mut cursor = ModalWordCursor::new(&rope, 0);
    let boudary = cursor.prev_boundary();
    assert!(boudary.is_none())
}

#[test]
fn prev_boundary_should_be_zero_when_cursor_on_first_word() {
    let rope = Text::new("Hello world");
    let mut cursor = ModalWordCursor::new(&rope, 4);
    let boundary = cursor.prev_boundary();
    assert_eq!(boundary, Some(0));
}

#[test]
fn prev_boundary_should_be_at_word_start() {
    let rope = Text::new("Hello world");
    let mut cursor = ModalWordCursor::new(&rope, 9);
    let boundary = cursor.prev_boundary();
    assert_eq!(boundary, Some(6));
}

#[test]
fn should_get_next_word_boundary() {
    let rope = Text::new("Hello world");
    let mut cursor = ModalWordCursor::new(&rope, 0);
    let boundary = cursor.next_boundary();
    assert_eq!(boundary, Some(6));
}

#[test]
fn next_word_boundary_should_be_none_at_last_position() {
    let rope = Text::new("Hello world");
    let mut cursor = ModalWordCursor::new(&rope, 11);
    let boundary = cursor.next_boundary();
    assert_eq!(boundary, None);
}

#[test]
fn should_get_previous_code_boundary() {
    let text = "violet, are\n blue";
    let rope = Text::new(text);
    let mut cursor = ModalWordCursor::new(&rope, 11);
    let position = cursor.prev_code_boundary();
    assert_eq!(&text[position..], "are\n blue");
}

#[test]
fn should_get_next_code_boundary() {
    let text = "violet, are\n blue";
    let rope = Text::new(text);
    let mut cursor = ModalWordCursor::new(&rope, 11);
    let position = cursor.next_code_boundary();
    assert_eq!(&text[position..], "\n blue");
}

#[test]
fn get_next_non_blank_char_should_skip_whitespace() {
    let rope = Text::new("Hello world");
    let mut cursor = ModalWordCursor::new(&rope, 5);
    let char_position = cursor.next_non_blank_char();
    assert_eq!(char_position, 6);
}

#[test]
fn get_next_non_blank_char_should_return_current_position_on_non_blank_char() {
    let rope = Text::new("Hello world");
    let mut cursor = ModalWordCursor::new(&rope, 3);
    let char_position = cursor.next_non_blank_char();
    assert_eq!(char_position, 3);
}

#[test]
fn should_get_end_boundary() {
    let rope = Text::new("Hello world");
    let mut cursor = ModalWordCursor::new(&rope, 3);
    let end_boundary = cursor.end_boundary();
    assert_eq!(end_boundary, Some(5));
}

#[test]
fn select_word_should_return_word_boundaries() {
    let text = "violet are blue";
    let rope = Text::new(text);
    let mut cursor = ModalWordCursor::new(&rope, 9);
    let (start, end) = cursor.select_word();
    assert_eq!(&text[start..end], "are");
}

#[test]
fn should_get_deletion_boundary_backward() {
    let text = "violet are blue";
    let rope = Text::new(text);
    let mut cursor = ModalWordCursor::new(&rope, 9);
    let position = cursor.prev_deletion_boundary();
    let position = position;

    assert_eq!(position, Some(7));
    assert_eq!(&text[..position.unwrap()], "violet ");
}

#[test]
fn next_non_blank_char_skips_leading_blanks() {
    let rope = Text::new("    world");
    let mut cursor = ModalWordCursor::new(&rope, 0);
    assert_eq!(cursor.next_non_blank_char(), 4);
}

#[test]
fn next_non_blank_char_runs_to_the_end_of_blank_text() {
    let rope = Text::new("ab   ");
    let mut cursor = ModalWordCursor::new(&rope, 2);
    assert_eq!(cursor.next_non_blank_char(), 5);
    assert_eq!(cursor.next_non_blank_char(), 5);
}

#[test]
fn next_non_blank_char_stops_at_a_line_break() {
    let rope = Text::new("a \t\n b");
    let mut cursor = ModalWordCursor::new(&rope, 1);
    assert_eq!(cursor.next_non_blank_char(), 3);
    let rope = Text::new("a \r\n b");
    let mut cursor = ModalWordCursor::new(&rope, 1);
    assert_eq!(cursor.next_non_blank_char(), 2);
}

#[test]
fn next_boundary_from_each_offset() {
    let rope = Text::new("Hello world");
    let expected = [6, 6, 6, 6, 6, 6, 11, 11, 11, 11, 11];
    for (pos, to) in expected.iter().enumerate() {
        let mut cursor = ModalWordCursor::new(&rope, pos);
        assert_eq!(cursor.next_boundary(), Some(*to), "from {}", pos);
    }
}

#[test]
fn next_boundary_reaches_the_end_from_the_last_codepoint() {
    let rope = Text::new("Hello world");
    let mut cursor = ModalWordCursor::new(&rope, 10);
    assert_eq!(cursor.next_boundary(), Some(11));
    assert_eq!(cursor.next_boundary(), None);
}

#[test]
fn next_boundary_stops_between_word_and_punctuation() {
    let rope = Text::new("foo.bar");
    let mut cursor = ModalWordCursor::new(&rope, 0);
    assert_eq!(cursor.next_boundary(), Some(3));
    assert_eq!(cursor.next_boundary(), Some(4));
    assert_eq!(cursor.next_boundary(), Some(7));
    assert_eq!(cursor.next_boundary(), None);
}

#[test]
fn next_boundary_stops_at_an_empty_line() {
    let rope = Text::new("a\n\nb");
    let mut cursor = ModalWordCursor::new(&rope, 0);
    assert_eq!(cursor.next_boundary(), Some(2));
    assert_eq!(cursor.next_boundary(), Some(3));
}

#[test]
fn next_boundary_passes_over_a_run_of_blanks() {
    let rope = Text::new("a \t  b");
    let mut cursor = ModalWordCursor::new(&rope, 0);
    assert_eq!(cursor.next_boundary(), Some(5));
}

#[test]
fn prev_boundary_from_each_offset() {
    let rope = Text::new("Hello world");
    let expected = [0, 0, 0, 0, 0, 0, 6, 6, 6, 6, 6];
    for (i, to) in expected.iter().enumerate() {
        let mut cursor = ModalWordCursor::new(&rope, i + 1);
        assert_eq!(cursor.prev_boundary(), Some(*to), "from {}", i + 1);
    }
}

#[test]
fn prev_boundary_stops_between_word_and_punctuation() {
    let rope = Text::new("foo.bar");
    let mut cursor = ModalWordCursor::new(&rope, 7);
    assert_eq!(cursor.prev_boundary(), Some(4));
    assert_eq!(cursor.prev_boundary(), Some(3));
    assert_eq!(cursor.prev_boundary(), Some(0));
    assert_eq!(cursor.prev_boundary(), None);
}

#[test]
fn next_and_prev_boundary_are_not_inverses() {
    let rope = Text::new("Hello world");
    let mut cursor = ModalWordCursor::new(&rope, 2);
    assert_eq!(cursor.next_boundary(), Some(6));
    assert_eq!(cursor.prev_boundary(), Some(0));
    let mut cursor = ModalWordCursor::new(&rope, 9);
    assert_eq!(cursor.prev_boundary(), Some(6));
    assert_eq!(cursor.next_boundary(), Some(11));
}

#[test]
fn end_boundary_from_each_offset() {
    let rope = Text::new("Hello world");
    let expected = [
        Some(5),
        Some(5),
        Some(5),
        Some(5),
        Some(11),
        Some(11),
        Some(11),
        Some(11),
        Some(11),
        Some(11),
        None,
        None,
    ];
    for (pos, to) in expected.iter().enumerate() {
        let mut cursor = ModalWordCursor::new(&rope, pos);
        assert_eq!(cursor.end_boundary(), *to, "from {}", pos);
    }
}

#[test]
fn end_boundary_leaves_the_cursor_at_the_end_when_nothing_follows() {
    let rope = Text::new("Hello world");
    let mut cursor = ModalWordCursor::new(&rope, 10);
    assert_eq!(cursor.end_boundary(), None);
    assert_eq!(cursor.prev_boundary(), Some(6));
}

#[test]
fn end_boundary_stops_between_word_and_punctuation() {
    let rope = Text::new("foo.bar baz");
    let mut cursor = ModalWordCursor::new(&rope, 0);
    assert_eq!(cursor.end_boundary(), Some(3));
    assert_eq!(cursor.end_boundary(), Some(7));
    assert_eq!(cursor.end_boundary(), Some(11));
    assert_eq!(cursor.end_boundary(), None);
}

#[test]
fn code_boundaries_on_a_word() {
    let rope = Text::new("violet, are\n blue");
    for pos in 8..=11 {
        let mut cursor = ModalWordCursor::new(&rope, pos);
        assert_eq!(cursor.prev_code_boundary(), 8, "from {}", pos);
        let mut cursor = ModalWordCursor::new(&rope, pos);
        assert_eq!(cursor.next_code_boundary(), 11, "from {}", pos);
    }
}

#[test]
fn code_boundaries_stay_where_no_word_is() {
    let rope = Text::new("violet, are\n blue");
    let mut cursor = ModalWordCursor::new(&rope, 7);
    assert_eq!(cursor.prev_code_boundary(), 7);
    assert_eq!(cursor.next_code_boundary(), 7);
    let mut cursor = ModalWordCursor::new(&rope, 12);
    assert_eq!(cursor.next_code_boundary(), 12);
    assert_eq!(cursor.prev_code_boundary(), 12);
}

#[test]
fn code_boundaries_reach_the_ends_of_the_text() {
    let rope = Text::new("violet, are\n blue");
    let mut cursor = ModalWordCursor::new(&rope, 3);
    assert_eq!(cursor.prev_code_boundary(), 0);
    let mut cursor = ModalWordCursor::new(&rope, 14);
    assert_eq!(cursor.next_code_boundary(), 17);
}

#[test]
fn code_boundary_leaves_the_cursor_at_the_boundary() {
    let rope = Text::new("violet, are\n blue");
    let mut cursor = ModalWordCursor::new(&rope, 9);
    assert_eq!(cursor.next_code_boundary(), 11);
    assert_eq!(cursor.prev_code_boundary(), 8);
    assert_eq!(cursor.next_code_boundary(), 11);
}

#[test]
fn select_word_from_each_offset_of_a_word() {
    let rope = Text::new("violet are blue");
    for pos in 7..=10 {
        let mut cursor = ModalWordCursor::new(&rope, pos);
        assert_eq!(cursor.select_word(), (7, 10), "from {}", pos);
    }
    for pos in 0..=6 {
        let mut cursor = ModalWordCursor::new(&rope, pos);
        assert_eq!(cursor.select_word(), (0, 6), "from {}", pos);
    }
    for pos in 11..=15 {
        let mut cursor = ModalWordCursor::new(&rope, pos);
        assert_eq!(cursor.select_word(), (11, 15), "from {}", pos);
    }
}

#[test]
fn select_word_again_gives_the_same_word() {
    let rope = Text::new("let some_name2 = 1;");
    let mut cursor = ModalWordCursor::new(&rope, 8);
    assert_eq!(cursor.select_word(), (4, 14));
    assert_eq!(cursor.select_word(), (4, 14));
    for pos in 4..=14 {
        let mut cursor = ModalWordCursor::new(&rope, pos);
        assert_eq!(cursor.select_word(), (4, 14), "from {}", pos);
    }
}

#[test]
fn select_word_leaves_out_punctuation_and_blanks() {
    let rope = Text::new("(word), next");
    let mut cursor = ModalWordCursor::new(&rope, 3);
    assert_eq!(cursor.select_word(), (1, 5));
    let mut cursor = ModalWordCursor::new(&rope, 0);
    assert_eq!(cursor.select_word(), (0, 0));
    let mut cursor = ModalWordCursor::new(&rope, 7);
    assert_eq!(cursor.select_word(), (7, 7));
}

#[test]
fn deletion_boundary_is_none_at_the_start() {
    let rope = Text::new("violet are blue");
    let mut cursor = ModalWordCursor::new(&rope, 0);
    assert_eq!(cursor.prev_deletion_boundary(), None);
}

#[test]
fn deletion_boundary_is_zero_inside_the_first_word() {
    let rope = Text::new("violet are blue");
    for pos in 1..=6 {
        let mut cursor = ModalWordCursor::new(&rope, pos);
        assert_eq!(cursor.prev_deletion_boundary(), Some(0), "from {}", pos);
    }
}

#[test]
fn deletion_boundary_takes_one_blank_with_the_word() {
    let rope = Text::new("violet are blue");
    let mut cursor = ModalWordCursor::new(&rope, 7);
    assert_eq!(cursor.prev_deletion_boundary(), Some(0));
    let mut cursor = ModalWordCursor::new(&rope, 11);
    assert_eq!(cursor.prev_deletion_boundary(), Some(7));
}

#[test]
fn deletion_boundary_keeps_the_word_before_several_blanks() {
    let rope = Text::new("violet   are");
    let mut cursor = ModalWordCursor::new(&rope, 9);
    assert_eq!(cursor.prev_deletion_boundary(), Some(6));
    let mut cursor = ModalWordCursor::new(&rope, 8);
    assert_eq!(cursor.prev_deletion_boundary(), Some(6));
}

#[test]
fn deletion_boundary_keeps_the_word_before_a_line_break() {
    let rope = Text::new("violet\nare");
    let mut cursor = ModalWordCursor::new(&rope, 7);
    assert_eq!(cursor.prev_deletion_boundary(), Some(6));
    let rope = Text::new("violet\r\nare");
    let mut cursor = ModalWordCursor::new(&rope, 8);
    assert_eq!(cursor.prev_deletion_boundary(), Some(6));
    let rope = Text::new("violet;\n  ");
    let mut cursor = ModalWordCursor::new(&rope, 8);
    assert_eq!(cursor.prev_deletion_boundary(), Some(7));
}

#[test]
fn deletion_boundary_stops_at_the_start_of_a_blank_line() {
    let rope = Text::new("a\n  b");
    let mut cursor = ModalWordCursor::new(&rope, 4);
    assert_eq!(cursor.prev_deletion_boundary(), Some(2));
    let mut cursor = ModalWordCursor::new(&rope, 3);
    assert_eq!(cursor.prev_deletion_boundary(), Some(2));
}

#[test]
fn deletion_boundary_passes_between_punctuation_and_word() {
    let rope = Text::new("foo.bar");
    let mut cursor = ModalWordCursor::new(&rope, 7);
    assert_eq!(cursor.prev_deletion_boundary(), Some(0));
    assert_eq!(cursor.prev_deletion_boundary(), None);
    for pos in 1..=7 {
        let mut cursor = ModalWordCursor::new(&rope, pos);
        assert_eq!(cursor.prev_deletion_boundary(), Some(0), "from {}", pos);
    }
}

#[test]
fn deletion_boundary_stops_where_a_word_starts_after_a_blank() {
    let rope = Text::new("foo .bar");
    let mut cursor = ModalWordCursor::new(&rope, 8);
    assert_eq!(cursor.prev_deletion_boundary(), Some(4));
    assert_eq!(cursor.prev_deletion_boundary(), Some(0));
    let rope = Text::new("a\nfoo.bar");
    let mut cursor = ModalWordCursor::new(&rope, 9);
    assert_eq!(cursor.prev_deletion_boundary(), Some(2));
}

#[test]
fn deletion_boundary_keeps_the_punctuation_before_several_blanks() {
    let rope = Text::new("foo.bar;  ");
    let mut cursor = ModalWordCursor::new(&rope, 10);
    assert_eq!(cursor.prev_deletion_boundary(), Some(8));
    assert_eq!(cursor.prev_deletion_boundary(), Some(0));
}

#[test]
fn offsets_count_codepoints() {
    let rope = Text::new("h\u{e9}llo w\u{f6}rld");
    let mut cursor = ModalWordCursor::new(&rope, 0);
    assert_eq!(cursor.next_boundary(), Some(6));
    assert_eq!(cursor.next_boundary(), Some(11));
    assert_eq!(cursor.next_boundary(), None);
    let mut cursor = ModalWordCursor::new(&rope, 9);
    assert_eq!(cursor.prev_boundary(), Some(6));
    let mut cursor = ModalWordCursor::new(&rope, 8);
    assert_eq!(cursor.select_word(), (6, 11));
    let mut cursor = ModalWordCursor::new(&rope, 1);
    assert_eq!(cursor.end_boundary(), Some(5));
    let mut cursor = ModalWordCursor::new(&rope, 8);
    assert_eq!(cursor.prev_deletion_boundary(), Some(6));
}

#[test]
fn offsets_count_codepoints_of_every_width() {
    let rope = Text::new("a\u{1f600}\u{4f60}\u{e9} \u{4e16}\u{754c}!");
    let mut cursor = ModalWordCursor::new(&rope, 0);
    assert_eq!(cursor.next_boundary(), Some(5));
    assert_eq!(cursor.next_boundary(), Some(7));
    assert_eq!(cursor.next_boundary(), Some(8));
    assert_eq!(cursor.prev_boundary(), Some(7));
    assert_eq!(cursor.prev_boundary(), Some(5));
    assert_eq!(cursor.prev_boundary(), Some(0));
    let mut cursor = ModalWordCursor::new(&rope, 2);
    assert_eq!(cursor.select_word(), (0, 4));
}

#[test]
fn a_long_text_is_walked_across_the_leaves_of_the_rope() {
    let text = "word ".repeat(1000);
    let rope = Text::new(&text);
    let mut cursor = ModalWordCursor::new(&rope, 2500);
    assert_eq!(cursor.next_boundary(), Some(2505));
    let mut cursor = ModalWordCursor::new(&rope, 2500);
    assert_eq!(cursor.prev_boundary(), Some(2495));
    let mut cursor = ModalWordCursor::new(&rope, 0);
    let mut words = 0;
    while let Some(to) = cursor.next_boundary() {
        words += 1;
        assert_eq!(to, 5 * words);
    }
    assert_eq!(words, 1000);
    let mut back = 0;
    while let Some(to) = cursor.prev_boundary() {
        back += 1;
        assert_eq!(to, 5 * (1000 - back));
    }
    assert_eq!(back, 1000);
}

#[test]
fn a_long_text_of_wide_codepoints_is_walked_across_the_leaves() {
    let mut text = "\u{e9}".repeat(2000);
    text.push_str(" x");
    let rope = Text::new(&text);
    let mut cursor = ModalWordCursor::new(&rope, 0);
    assert_eq!(cursor.next_boundary(), Some(2001));
    assert_eq!(cursor.prev_boundary(), Some(0));
    let mut cursor = ModalWordCursor::new(&rope, 1200);
    assert_eq!(cursor.select_word(), (0, 2000));
    let mut cursor = ModalWordCursor::new(&rope, 2002);
    assert_eq!(cursor.prev_deletion_boundary(), Some(2001));
}

#[test]
fn an_empty_text_has_no_boundaries() {
    let rope = Text::new("");
    let mut cursor = ModalWordCursor::new(&rope, 0);
    assert_eq!(cursor.next_boundary(), None);
    assert_eq!(cursor.prev_boundary(), None);
    assert_eq!(cursor.end_boundary(), None);
    assert_eq!(cursor.prev_deletion_boundary(), None);
    assert_eq!(cursor.next_code_boundary(), 0);
    assert_eq!(cursor.prev_code_boundary(), 0);
    assert_eq!(cursor.next_non_blank_char(), 0);
    assert_eq!(cursor.select_word(), (0, 0));
}

#[test]
fn try_new_checks_the_offset() {
    let rope = Text::new("h\u{e9}llo");
    assert!(ModalWordCursor::try_new(&rope, 0).is_some());
    assert!(ModalWordCursor::try_new(&rope, 5).is_some());
    assert!(ModalWordCursor::try_new(&rope, 6).is_none());
    assert!(ModalWordCursor::try_new(&rope, usize::MAX).is_none());
    let mut cursor = ModalWordCursor::try_new(&rope, 5).unwrap();
    assert_eq!(cursor.prev_boundary(), Some(0));
}
