use styled_buffer::{Buffer, Style};

#[test]
fn test_put_and_insert() {
    let mut buffer = Buffer::new();

    buffer.put_char(1, 1, '*', Style::Keyword);
    buffer.put_string(2, 2, "void", Style::Keyword);
    buffer.insert_char(1, 1, '@', Style::Symbol);

    assert_eq!(buffer.pair_at(1, 1), ('@', Style::Symbol));
    assert_eq!(buffer.pair_at(1, 2), ('*', Style::Keyword));
    assert_eq!(buffer.pair_at(2, 3), ('o', Style::Keyword));
}

#[test]
fn test_delete() {
    let mut buffer = Buffer::new();

    buffer.put_char(2, 1, '*', Style::Symbol);
    buffer.put_char(2, 2, '-', Style::NoStyle);
    buffer.put_char(2, 3, '@', Style::Keyword);

    buffer.delete_char(2, 2);

    assert_eq!(buffer.pair_at(2, 1), ('*', Style::Symbol));
    assert_eq!(buffer.pair_at(2, 2), ('@', Style::Keyword));

    buffer.delete_line(1);

    assert_eq!(buffer.pair_at(1, 1), ('*', Style::Symbol));
    assert_eq!(buffer.pair_at(1, 2), ('@', Style::Keyword));
}

#[test]
fn new_buffer_is_empty() {
    let buffer = Buffer::new();
    assert_eq!(buffer.line_count(), 0);
    assert_eq!(buffer.line_len(0), 0);
}

#[test]
fn reading_an_empty_buffer_yields_blank_and_grows() {
    let mut buffer = Buffer::new();
    assert_eq!(buffer.pair_at(3, 5), (' ', Style::NoStyle));
    assert_eq!(buffer.line_count(), 4);
    assert_eq!(buffer.line_len(3), 6);
    assert_eq!(buffer.line_len(0), 0);
    assert_eq!(buffer.line_len(2), 0);
}

#[test]
fn reading_inside_the_buffer_does_not_grow_it() {
    let mut buffer = Buffer::new();
    buffer.put_char(1, 4, 'x', Style::Keyword);
    assert_eq!(buffer.pair_at(1, 2), (' ', Style::NoStyle));
    assert_eq!(buffer.line_count(), 2);
    assert_eq!(buffer.line_len(1), 5);
}

#[test]
fn put_char_then_read_returns_what_was_written() {
    let mut buffer = Buffer::new();
    buffer.put_string(0, 0, "abcdefgh", Style::NoStyle);
    buffer.put_char(0, 3, 'Z', Style::Symbol);
    assert_eq!(buffer.pair_at(0, 3), ('Z', Style::Symbol));
    assert_eq!(buffer.pair_at(0, 2), ('c', Style::NoStyle));
    assert_eq!(buffer.pair_at(0, 4), ('e', Style::NoStyle));
    buffer.put_char(4, 9, 'q', Style::Keyword);
    assert_eq!(buffer.pair_at(4, 9), ('q', Style::Keyword));
    assert_eq!(buffer.line_count(), 5);
    assert_eq!(buffer.line_len(4), 10);
}

#[test]
fn put_string_writes_a_contiguous_run() {
    let mut buffer = Buffer::new();
    buffer.put_string(2, 2, "void", Style::Keyword);
    assert_eq!(buffer.line_count(), 3);
    assert_eq!(buffer.line_len(2), 6);
    assert_eq!(buffer.pair_at(2, 1), (' ', Style::NoStyle));
    assert_eq!(buffer.pair_at(2, 2), ('v', Style::Keyword));
    assert_eq!(buffer.pair_at(2, 3), ('o', Style::Keyword));
    assert_eq!(buffer.pair_at(2, 4), ('i', Style::Keyword));
    assert_eq!(buffer.pair_at(2, 5), ('d', Style::Keyword));
    assert_eq!(buffer.line_len(2), 6);
}

#[test]
fn put_string_over_existing_cells_keeps_the_rest() {
    let mut buffer = Buffer::new();
    buffer.put_string(0, 0, "abcdef", Style::NoStyle);
    buffer.put_string(0, 1, "XY", Style::Symbol);
    assert_eq!(buffer.line_len(0), 6);
    assert_eq!(buffer.pair_at(0, 0), ('a', Style::NoStyle));
    assert_eq!(buffer.pair_at(0, 1), ('X', Style::Symbol));
    assert_eq!(buffer.pair_at(0, 2), ('Y', Style::Symbol));
    assert_eq!(buffer.pair_at(0, 3), ('d', Style::NoStyle));
}

#[test]
fn put_string_counts_characters_not_bytes() {
    let mut buffer = Buffer::new();
    buffer.put_string(0, 1, "h\u{e9}\u{3bb}", Style::Keyword);
    assert_eq!(buffer.line_len(0), 4);
    assert_eq!(buffer.pair_at(0, 2), ('\u{e9}', Style::Keyword));
    assert_eq!(buffer.pair_at(0, 3), ('\u{3bb}', Style::Keyword));
}

#[test]
fn put_empty_string_changes_nothing() {
    let mut buffer = Buffer::new();
    buffer.put_string(3, 3, "", Style::Keyword);
    assert_eq!(buffer.line_count(), 0);
    buffer.put_char(0, 0, 'a', Style::NoStyle);
    buffer.put_string(0, 5, "", Style::Symbol);
    assert_eq!(buffer.line_len(0), 1);
}

#[test]
fn insert_char_shifts_right() {
    let mut buffer = Buffer::new();
    buffer.put_char(1, 1, '*', Style::Keyword);
    buffer.put_char(1, 2, '+', Style::NoStyle);
    buffer.insert_char(1, 1, '@', Style::Symbol);
    assert_eq!(buffer.line_len(1), 4);
    assert_eq!(buffer.pair_at(1, 0), (' ', Style::NoStyle));
    assert_eq!(buffer.pair_at(1, 1), ('@', Style::Symbol));
    assert_eq!(buffer.pair_at(1, 2), ('*', Style::Keyword));
    assert_eq!(buffer.pair_at(1, 3), ('+', Style::NoStyle));
}

#[test]
fn insert_char_beyond_the_row_grows_it_first() {
    let mut buffer = Buffer::new();
    buffer.insert_char(0, 2, 'k', Style::Keyword);
    assert_eq!(buffer.line_count(), 1);
    assert_eq!(buffer.line_len(0), 4);
    assert_eq!(buffer.pair_at(0, 2), ('k', Style::Keyword));
    assert_eq!(buffer.pair_at(0, 3), (' ', Style::NoStyle));
}

#[test]
fn insert_char_leaves_other_rows_alone() {
    let mut buffer = Buffer::new();
    buffer.put_string(0, 0, "ab", Style::NoStyle);
    buffer.put_string(1, 0, "cd", Style::NoStyle);
    buffer.insert_char(0, 0, 'z', Style::Symbol);
    assert_eq!(buffer.line_len(1), 2);
    assert_eq!(buffer.pair_at(1, 0), ('c', Style::NoStyle));
    assert_eq!(buffer.pair_at(1, 1), ('d', Style::NoStyle));
}

#[test]
fn delete_char_shifts_left() {
    let mut buffer = Buffer::new();
    buffer.put_char(2, 1, '*', Style::Symbol);
    buffer.put_char(2, 2, '-', Style::NoStyle);
    buffer.put_char(2, 3, '@', Style::Keyword);
    buffer.delete_char(2, 2);
    assert_eq!(buffer.line_len(2), 3);
    assert_eq!(buffer.pair_at(2, 1), ('*', Style::Symbol));
    assert_eq!(buffer.pair_at(2, 2), ('@', Style::Keyword));
    assert_eq!(buffer.line_len(2), 3);
}

#[test]
fn delete_char_out_of_range_does_nothing() {
    let mut buffer = Buffer::new();
    buffer.delete_char(4, 4);
    assert_eq!(buffer.line_count(), 0);
    buffer.put_string(0, 0, "ab", Style::Keyword);
    buffer.delete_char(0, 2);
    buffer.delete_char(1, 0);
    assert_eq!(buffer.line_count(), 1);
    assert_eq!(buffer.line_len(0), 2);
    assert_eq!(buffer.pair_at(0, 1), ('b', Style::Keyword));
}

#[test]
fn delete_line_shifts_rows_up() {
    let mut buffer = Buffer::new();
    buffer.put_string(0, 0, "top", Style::NoStyle);
    buffer.put_string(1, 0, "mid", Style::Symbol);
    buffer.put_string(2, 0, "low", Style::Keyword);
    buffer.delete_line(1);
    assert_eq!(buffer.line_count(), 2);
    assert_eq!(buffer.pair_at(0, 0), ('t', Style::NoStyle));
    assert_eq!(buffer.pair_at(1, 0), ('l', Style::Keyword));
    assert_eq!(buffer.pair_at(1, 2), ('w', Style::Keyword));
}

#[test]
fn delete_line_out_of_range_does_nothing() {
    let mut buffer = Buffer::new();
    buffer.delete_line(0);
    assert_eq!(buffer.line_count(), 0);
    buffer.put_char(1, 0, 'x', Style::Symbol);
    buffer.delete_line(2);
    assert_eq!(buffer.line_count(), 2);
    assert_eq!(buffer.pair_at(1, 0), ('x', Style::Symbol));
}
