use shell_core::text_box::{CapacityExceeded, TextBox};

fn typed(text: &str) -> TextBox {
    let mut text_box = TextBox::new();
    for c in text.chars() {
        assert_eq!(text_box.insert_char(c), Ok(()));
    }
    text_box
}

fn whole(text_box: &TextBox) -> String {
    let (left, right) = text_box.parts();
    format!("{}{}", left, right)
}

#[test]
fn new_box_is_empty() {
    let text_box = TextBox::new();
    assert_eq!(text_box.parts(), ("", ""));
    assert_eq!(text_box.gap_start(), 0);
    assert_eq!(text_box.gap_end(), 1024);
    assert_eq!(text_box.gap_size(), 1024);
    assert_eq!(text_box.chars_left_from_cursor(), 0);
    assert_eq!(text_box.chars_right_from_cursor(), 0);
}

#[test]
fn with_capacity_sets_the_gap() {
    let text_box = TextBox::with_capacity(7);
    assert_eq!(text_box.gap_start(), 0);
    assert_eq!(text_box.gap_end(), 7);
}

#[test]
fn insert_char_advances_the_gap_by_the_width() {
    let mut text_box = TextBox::with_capacity(16);
    assert_eq!(text_box.insert_char('a'), Ok(()));
    assert_eq!(text_box.gap_start(), 1);
    assert_eq!(text_box.insert_char('é'), Ok(()));
    assert_eq!(text_box.gap_start(), 3);
    assert_eq!(text_box.insert_char('€'), Ok(()));
    assert_eq!(text_box.gap_start(), 6);
    assert_eq!(text_box.insert_char('😀'), Ok(()));
    assert_eq!(text_box.gap_start(), 10);
    assert_eq!(text_box.chars_left_from_cursor(), 4);
    assert_eq!(text_box.parts(), ("aé€😀", ""));
    assert_eq!(text_box.gap_end(), 16);
}

#[test]
fn insert_char_fails_when_the_gap_is_too_small() {
    let mut text_box = TextBox::with_capacity(4);
    assert_eq!(text_box.insert_char('a'), Ok(()));
    assert_eq!(text_box.insert_char('b'), Ok(()));
    assert_eq!(text_box.insert_char('€'), Err(CapacityExceeded));
    assert_eq!(text_box.parts(), ("ab", ""));
    assert_eq!(text_box.gap_start(), 2);
    assert_eq!(text_box.gap_end(), 4);
    assert_eq!(text_box.insert_char('é'), Ok(()));
    assert_eq!(text_box.gap_size(), 0);
    assert_eq!(text_box.insert_char('c'), Err(CapacityExceeded));
    assert_eq!(text_box.parts(), ("abé", ""));
}

#[test]
fn insert_str_appends_and_counts() {
    let mut text_box = TextBox::with_capacity(32);
    assert_eq!(text_box.insert_str("héllo"), Ok(()));
    assert_eq!(text_box.chars_left_from_cursor(), 5);
    assert_eq!(text_box.gap_start(), 6);
    assert_eq!(text_box.insert_str_with_cached_char_count(" wörld", 6), Ok(()));
    assert_eq!(text_box.chars_left_from_cursor(), 11);
    assert_eq!(text_box.parts(), ("héllo wörld", ""));
}

#[test]
fn insert_str_fails_when_the_gap_is_too_small() {
    let mut text_box = TextBox::with_capacity(5);
    assert_eq!(text_box.insert_str("héllo"), Err(CapacityExceeded));
    assert_eq!(text_box.parts(), ("", ""));
    assert_eq!(text_box.insert_str("hello"), Ok(()));
    assert_eq!(text_box.insert_str(""), Ok(()));
    assert_eq!(text_box.insert_str("!"), Err(CapacityExceeded));
    assert_eq!(text_box.parts(), ("hello", ""));
}

#[test]
fn remove_char_left_removes_a_whole_character() {
    let mut text_box = typed("a€");
    text_box.remove_char_left();
    assert_eq!(text_box.parts(), ("a", ""));
    assert_eq!(text_box.gap_start(), 1);
    text_box.remove_char_left();
    assert_eq!(text_box.parts(), ("", ""));
    text_box.remove_char_left();
    assert_eq!(text_box.parts(), ("", ""));
    assert_eq!(text_box.chars_left_from_cursor(), 0);
}

#[test]
fn insert_then_remove_restores_the_box() {
    let mut text_box = typed("ab");
    text_box.move_cursor_n_chars_left(1);
    let before = (text_box.gap_start(), text_box.gap_end());
    let parts_before = (text_box.parts().0.to_string(), text_box.parts().1.to_string());
    assert_eq!(text_box.insert_char('€'), Ok(()));
    assert_eq!(text_box.gap_start(), before.0 + 3);
    text_box.remove_char_left();
    assert_eq!((text_box.gap_start(), text_box.gap_end()), before);
    assert_eq!(text_box.parts(), (parts_before.0.as_str(), parts_before.1.as_str()));
    assert_eq!(text_box.chars_left_from_cursor(), 1);
    assert_eq!(text_box.chars_right_from_cursor(), 1);
}

#[test]
fn move_left_passes_whole_characters() {
    let mut text_box = typed("a€é😀");
    text_box.move_cursor_n_chars_left(2);
    assert_eq!(text_box.parts(), ("a€", "é😀"));
    assert_eq!(text_box.chars_left_from_cursor(), 2);
    assert_eq!(text_box.chars_right_from_cursor(), 2);
    assert_eq!(text_box.gap_start(), 4);
    assert_eq!(text_box.gap_end(), 1024 - 6);
    text_box.move_cursor_n_chars_left(1);
    assert_eq!(text_box.parts(), ("a", "€é😀"));
    text_box.move_cursor_n_chars_left(0);
    assert_eq!(text_box.parts(), ("a", "€é😀"));
}

#[test]
fn move_left_stops_at_the_start() {
    let mut text_box = typed("héllo");
    text_box.move_cursor_n_chars_left(99);
    assert_eq!(text_box.parts(), ("", "héllo"));
    assert_eq!(text_box.gap_start(), 0);
    assert_eq!(text_box.chars_right_from_cursor(), 5);
    text_box.move_cursor_n_chars_left(1);
    assert_eq!(text_box.parts(), ("", "héllo"));
}

#[test]
fn move_right_passes_whole_characters() {
    let mut text_box = typed("a€é😀");
    text_box.move_cursor_n_chars_left(4);
    text_box.move_cursor_n_chars_right(2);
    assert_eq!(text_box.parts(), ("a€", "é😀"));
    text_box.move_cursor_n_chars_right(1);
    assert_eq!(text_box.parts(), ("a€é", "😀"));
    text_box.move_cursor_n_chars_right(7);
    assert_eq!(text_box.parts(), ("a€é😀", ""));
    assert_eq!(text_box.gap_end(), 1024);
}

#[test]
fn moving_there_and_back_restores_the_box() {
    let mut text_box = typed("ab€dé");
    text_box.move_cursor_n_chars_left(2);
    let gap = (text_box.gap_start(), text_box.gap_end());
    for n in 0..=3 {
        text_box.move_cursor_n_chars_left(n);
        text_box.move_cursor_n_chars_right(n);
        assert_eq!(text_box.parts(), ("ab€", "dé"));
        assert_eq!((text_box.gap_start(), text_box.gap_end()), gap);
    }
    for n in 0..=2 {
        text_box.move_cursor_n_chars_right(n);
        text_box.move_cursor_n_chars_left(n);
        assert_eq!(text_box.parts(), ("ab€", "dé"));
        assert_eq!((text_box.gap_start(), text_box.gap_end()), gap);
    }
}

#[test]
fn move_works_when_the_gap_is_smaller_than_what_moves() {
    let mut text_box = TextBox::with_capacity(6);
    assert_eq!(text_box.insert_str("abcde"), Ok(()));
    text_box.move_cursor_n_chars_left(4);
    assert_eq!(text_box.parts(), ("a", "bcde"));
    text_box.move_cursor_n_chars_right(3);
    assert_eq!(text_box.parts(), ("abcd", "e"));
    text_box.move_cursor_n_chars_left(3);
    assert_eq!(text_box.parts(), ("a", "bcde"));
}

#[test]
fn move_cursor_to_end_joins_the_parts() {
    let mut text_box = typed("héllo");
    text_box.move_cursor_n_chars_left(3);
    text_box.move_cursor_to_end();
    assert_eq!(text_box.parts(), ("héllo", ""));
    assert_eq!(text_box.chars_left_from_cursor(), 5);
    assert_eq!(text_box.chars_right_from_cursor(), 0);
    text_box.move_cursor_to_end();
    assert_eq!(text_box.parts(), ("héllo", ""));
}

#[test]
fn clear_empties_the_box() {
    let mut text_box = typed("héllo");
    text_box.move_cursor_n_chars_left(2);
    text_box.clear();
    assert_eq!(text_box.parts(), ("", ""));
    assert_eq!(text_box.gap_start(), 0);
    assert_eq!(text_box.gap_end(), 1024);
    assert_eq!(text_box.chars_left_from_cursor(), 0);
    assert_eq!(text_box.chars_right_from_cursor(), 0);
    assert_eq!(text_box.insert_char('x'), Ok(()));
    assert_eq!(text_box.parts(), ("x", ""));
}

#[test]
fn gap_box_agrees_with_a_plain_buffer() {
    let mut text_box = TextBox::with_capacity(12);
    let mut plain: Vec<char> = Vec::new();
    let mut cursor: usize = 0;
    let steps: [(u8, char, usize); 16] = [
        (0, 'a', 0), (0, '€', 0), (0, 'b', 0), (2, ' ', 2), (0, 'é', 0), (3, ' ', 1),
        (1, ' ', 0), (0, '😀', 0), (0, 'z', 0), (0, 'y', 0), (2, ' ', 9), (3, ' ', 4),
        (1, ' ', 0), (2, ' ', 1), (1, ' ', 0), (3, ' ', 9),
    ];
    for (kind, c, n) in steps {
        match kind {
            0 => {
                let bytes: usize = plain.iter().map(|c| c.len_utf8()).sum();
                let fits = bytes + c.len_utf8() <= 12;
                assert_eq!(text_box.insert_char(c).is_ok(), fits);
                if fits {
                    plain.insert(cursor, c);
                    cursor += 1;
                }
            }
            1 => {
                text_box.remove_char_left();
                if cursor > 0 {
                    plain.remove(cursor - 1);
                    cursor -= 1;
                }
            }
            2 => {
                text_box.move_cursor_n_chars_left(n);
                cursor -= n.min(cursor);
            }
            _ => {
                text_box.move_cursor_n_chars_right(n);
                cursor = (cursor + n).min(plain.len());
            }
        }
        assert!(text_box.gap_start() <= text_box.gap_end());
        assert_eq!(whole(&text_box), plain.iter().collect::<String>());
        assert_eq!(text_box.chars_left_from_cursor(), cursor);
        assert_eq!(
            text_box.chars_left_from_cursor() + text_box.chars_right_from_cursor(),
            plain.len()
        );
    }
}

#[test]
fn range_translates_across_the_gap() {
    let mut text_box = typed("ab€dé");
    text_box.move_cursor_n_chars_left(2);
    assert_eq!(text_box.range(&(0..2)), Some(("ab", "")));
    assert_eq!(text_box.range(&(1..5)), Some(("b€", "")));
    assert_eq!(text_box.range(&(1..6)), Some(("b€", "d")));
    assert_eq!(text_box.range(&(5..8)), Some(("", "dé")));
    assert_eq!(text_box.range(&(6..8)), Some(("", "é")));
    assert_eq!(text_box.range(&(0..8)), Some(("ab€", "dé")));
    assert_eq!(text_box.range(&(3..3)), Some(("", "")));
    assert_eq!(text_box.range(&(8..8)), Some(("", "")));
}

#[test]
fn range_rejects_what_is_no_text() {
    let mut text_box = typed("ab€dé");
    text_box.move_cursor_n_chars_left(2);
    assert_eq!(text_box.range(&(0..9)), None);
    assert_eq!(text_box.range(&(4..2)), None);
    assert_eq!(text_box.range(&(0..3)), None);
    assert_eq!(text_box.range(&(3..5)), None);
    assert_eq!(text_box.range(&(5..7)), None);
    assert_eq!(text_box.range(&(9..9)), None);
}
