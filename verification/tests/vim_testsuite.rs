use fallegji::vim::{EditAction, Editor, Key, Vim};

fn editor(text: &str, cursor: usize, mode: Vim) -> Editor {
    let mut e = Editor::new();
    e.input = text.chars().collect();
    e.cursor = cursor;
    e.mode = mode;
    e
}

fn text(e: &Editor) -> String {
    e.input.iter().collect()
}

fn press(e: &mut Editor, keys: &str) {
    for c in keys.chars() {
        assert!(e.accepts_key(Key::Char(c)));
        e.handle(Key::Char(c));
    }
}

#[test]
fn typing_in_insert_mode_and_escaping() {
    let mut e = Editor::new();
    press(&mut e, "i");
    assert!(e.mode == Vim::Insert);
    press(&mut e, "hello");
    assert_eq!(text(&e), "hello");
    assert_eq!(e.cursor, 5);
    e.handle(Key::Esc);
    assert!(e.mode == Vim::Normal);
    assert_eq!(e.cursor, 4);
}

#[test]
fn delete_word_removes_up_to_the_next_word() {
    let mut e = editor("foo bar", 0, Vim::Normal);
    press(&mut e, "dw");
    assert_eq!(text(&e), "bar");
    assert_eq!(e.cursor, 0);
    assert!(e.seq.is_empty());
}

#[test]
fn count_then_x_removes_that_many() {
    let mut e = editor("abcdef", 1, Vim::Normal);
    press(&mut e, "3x");
    assert_eq!(text(&e), "aef");
    assert_eq!(e.cursor, 1);
}

#[test]
fn x_at_the_end_steps_back() {
    let mut e = editor("abc", 1, Vim::Normal);
    press(&mut e, "5x");
    assert_eq!(text(&e), "a");
    assert_eq!(e.cursor, 0);
}

#[test]
fn capital_x_removes_before_the_cursor() {
    let mut e = editor("abcdef", 4, Vim::Normal);
    press(&mut e, "2X");
    assert_eq!(text(&e), "abef");
    assert_eq!(e.cursor, 2);
}

#[test]
fn enter_sends_the_count_of_times_at_most_ten() {
    let mut e = editor("hi", 0, Vim::Normal);
    press(&mut e, "2");
    match e.handle(Key::Enter) {
        EditAction::Send(t, n) => {
            assert_eq!(t, "hi");
            assert_eq!(n, 2);
        },
        _ => panic!("enter sends"),
    }
    assert!(e.input.is_empty());
    assert_eq!(e.cursor, 0);
    let mut e = editor("yo", 0, Vim::Normal);
    press(&mut e, "25");
    match e.handle(Key::Enter) {
        EditAction::Send(_, n) => assert_eq!(n, 10),
        _ => panic!("enter sends"),
    }
}

#[test]
fn alt_enter_adds_a_newline_in_insert_mode() {
    let mut e = editor("ab", 1, Vim::Insert);
    assert!(matches!(e.handle(Key::AltEnter), EditAction::Nothing));
    assert_eq!(text(&e), "a\nb");
    assert_eq!(e.cursor, 2);
}

#[test]
fn count_adds_up_every_run_of_digits() {
    let mut e = Editor::new();
    e.seq = vec!['1', 'd', '2'];
    assert_eq!(e.count(), 3);
    e.seq = vec!['1', '2', 'g'];
    assert_eq!(e.count(), 12);
    e.seq = vec![];
    assert_eq!(e.count(), 0);
    e.seq = "9999999".chars().collect();
    assert_eq!(e.count(), 999999);
}

#[test]
fn gg_goes_to_the_counted_position() {
    let mut e = editor("abcdefgh", 7, Vim::Normal);
    press(&mut e, "3gg");
    assert_eq!(e.cursor, 2);
}

#[test]
fn up_and_down_keep_the_column() {
    let mut e = editor("ab\ncde", 4, Vim::Normal);
    e.handle(Key::Up);
    assert_eq!(e.cursor, 1);
    assert_eq!(e.persis_y, 1);
    e.handle(Key::Down);
    assert_eq!(e.cursor, 4);
}

#[test]
fn delete_key_steps_back_at_the_end() {
    let mut e = editor("abc", 2, Vim::Normal);
    e.handle(Key::Delete);
    assert_eq!(text(&e), "ab");
    assert_eq!(e.cursor, 1);
}

#[test]
fn word_motions() {
    let mut e = editor("foo bar", 6, Vim::Normal);
    press(&mut e, "b");
    assert_eq!(e.cursor, 4);
    let mut e = editor("foo bar", 0, Vim::Normal);
    press(&mut e, "e");
    assert_eq!(e.cursor, 2);
    press(&mut e, "w");
    assert_eq!(e.cursor, 4);
    press(&mut e, "$");
    assert_eq!(e.cursor, 6);
    press(&mut e, "0");
    assert_eq!(e.cursor, 0);
}

#[test]
fn change_to_line_end_enters_insert_mode() {
    let mut e = editor("hello world", 5, Vim::Normal);
    press(&mut e, "C");
    assert_eq!(text(&e), "hello");
    assert!(e.mode == Vim::Insert);
}

#[test]
fn dd_and_cc_empty_the_line() {
    let mut e = editor("some text", 3, Vim::Normal);
    press(&mut e, "dd");
    assert!(e.input.is_empty());
    assert!(e.mode == Vim::Normal);
    let mut e = editor("some text", 3, Vim::Normal);
    press(&mut e, "cc");
    assert!(e.input.is_empty());
    assert!(e.mode == Vim::Insert);
}

#[test]
fn operators_that_would_leave_the_text_are_refused() {
    let mut e = editor("ab", 1, Vim::Normal);
    e.handle(Key::Right);
    assert_eq!(e.cursor, 2);
    press(&mut e, "d");
    assert!(!e.accepts_key(Key::Char('w')));
    assert!(e.accepts_key(Key::Char('h')));
    let e = editor("", 0, Vim::Normal);
    let mut e2 = e;
    e2.seq = vec!['d'];
    assert!(!e2.accepts_key(Key::Char('$')));
}

#[test]
fn typing_then_backspace_restores_the_line() {
    let mut e = editor("abc", 1, Vim::Insert);
    e.handle(Key::Char('z'));
    assert_eq!(text(&e), "azbc");
    e.handle(Key::Backspace);
    assert_eq!(text(&e), "abc");
    assert_eq!(e.cursor, 1);
}

#[test]
fn control_q_quits() {
    let mut e = Editor::new();
    assert!(matches!(e.handle(Key::Quit), EditAction::Quit));
}
