use prototype_widgets::text_edit::{
    apply_char, backspace, edit_text, insert_char, is_control, move_left, move_right, remove_char,
    text_len, utf8_width, BACKSPACE, DELETE, RETURN,
};

#[test]
fn move_right_visits_boundaries_and_stops_at_end() {
    let s = String::from("aé€😀");
    let mut i: usize = 0;
    let mut seen = vec![0usize];
    for _ in 0..10 {
        move_right(&s, &mut i);
        seen.push(i);
    }
    assert_eq!(&seen[..5], &[0, 1, 3, 6, 10]);
    for p in seen.iter() {
        assert!(s.is_char_boundary(*p));
    }
    assert_eq!(i, s.len());
    assert_eq!(i, 10);
}

#[test]
fn move_left_steps_back_one_character() {
    let s = String::from("aé€😀");
    let mut i: usize = 10;
    let mut seen = vec![];
    for _ in 0..5 {
        move_left(&s, &mut i);
        seen.push(i);
    }
    assert_eq!(seen, vec![6, 3, 1, 0, 0]);
}

#[test]
fn insert_then_backspace_restores() {
    let original = String::from("hé!");
    for (start, c) in [(0usize, 'x'), (1, '€'), (3, '😀'), (4, 'é')] {
        let mut s = original.clone();
        let mut i = start;
        insert_char(&mut s, &mut i, c);
        assert_eq!(i, start + c.len_utf8());
        assert_ne!(s, original);
        backspace(&mut s, &mut i);
        assert_eq!(s, original);
        assert_eq!(i, start);
    }
}

#[test]
fn insert_puts_character_at_cursor() {
    let mut s = String::from("ab");
    let mut i: usize = 1;
    insert_char(&mut s, &mut i, 'é');
    assert_eq!(s, "aéb");
    assert_eq!(i, 3);
}

#[test]
fn remove_char_deletes_forward_and_keeps_cursor() {
    let mut s = String::from("a€b");
    let mut i: usize = 1;
    remove_char(&mut s, &mut i);
    assert_eq!(s, "ab");
    assert_eq!(i, 1);
    let mut j: usize = 2;
    remove_char(&mut s, &mut j);
    assert_eq!(s, "ab");
    assert_eq!(j, 2);
}

#[test]
fn backspace_at_start_does_nothing() {
    let mut s = String::from("ab");
    let mut i: usize = 0;
    backspace(&mut s, &mut i);
    assert_eq!(s, "ab");
    assert_eq!(i, 0);
}

#[test]
fn backspace_removes_previous_character() {
    let mut s = String::from("a😀b");
    let mut i: usize = 5;
    backspace(&mut s, &mut i);
    assert_eq!(s, "ab");
    assert_eq!(i, 1);
}

#[test]
fn characters_edit_and_return_submits() {
    let mut s = String::from("ac");
    let mut i: usize = 1;
    assert_eq!(apply_char(&mut s, &mut i, 'b'), None);
    assert_eq!(s, "abc");
    assert_eq!(apply_char(&mut s, &mut i, RETURN), Some(String::from("abc")));
    assert_eq!(apply_char(&mut s, &mut i, DELETE), None);
    assert_eq!(s, "ab");
    assert_eq!(apply_char(&mut s, &mut i, BACKSPACE), None);
    assert_eq!(s, "a");
    assert_eq!(i, 1);
    assert_eq!(apply_char(&mut s, &mut i, '\u{1b}'), None);
    assert_eq!(s, "a");
}

#[test]
fn frame_of_keys_and_characters() {
    let mut s = String::from("xy");
    let mut i: usize = 2;
    let out = edit_text(&mut s, &mut i, true, false, &vec!['1', '\r', BACKSPACE, '2', '\r']);
    assert_eq!(s, "x2y");
    assert_eq!(i, 2);
    assert_eq!(out, vec![String::from("x1y"), String::from("x2y")]);
    let out = edit_text(&mut s, &mut i, false, true, &vec![]);
    assert!(out.is_empty());
    assert_eq!(i, 3);
}

#[test]
fn widths_and_control_characters() {
    assert_eq!(utf8_width('a'), 1);
    assert_eq!(utf8_width('é'), 2);
    assert_eq!(utf8_width('€'), 3);
    assert_eq!(utf8_width('😀'), 4);
    assert!(is_control('\u{7f}'));
    assert!(is_control('\u{9f}'));
    assert!(is_control('\r'));
    assert!(!is_control(' '));
    assert!(!is_control('é'));
    assert_eq!(text_len(&String::from("a€")), 4);
}
