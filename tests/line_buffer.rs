use enigma_loader::line_buffer::{LineBuffer, MAX_LINE};

#[test]
fn next_pos() {
    let s = LineBuffer::init("ö̲g̈", 0);
    assert_eq!(7, s.len());
    let pos = s.next_pos(1);
    assert_eq!(Some(4), pos);

    let s = LineBuffer::init("ö̲g̈", 4);
    let pos = s.next_pos(1);
    assert_eq!(Some(7), pos);
}

#[test]
fn prev_pos() {
    let s = LineBuffer::init("ö̲g̈", 4);
    assert_eq!(7, s.len());
    let pos = s.prev_pos(1);
    assert_eq!(Some(0), pos);

    let s = LineBuffer::init("ö̲g̈", 7);
    let pos = s.prev_pos(1);
    assert_eq!(Some(4), pos);
}

#[test]
fn insert() {
    let mut s = LineBuffer::with_capacity(MAX_LINE);
    let push = s.insert('α', 1).unwrap();
    assert_eq!("α", s.as_str());
    assert_eq!(2, s.pos());
    assert_eq!(true, push);

    let push = s.insert('ß', 1).unwrap();
    assert_eq!("αß", s.as_str());
    assert_eq!(4, s.pos());
    assert_eq!(true, push);

    s.set_pos(0);
    let push = s.insert('γ', 1).unwrap();
    assert_eq!("γαß", s.as_str());
    assert_eq!(2, s.pos());
    assert_eq!(false, push);
}

#[test]
fn moves() {
    let mut s = LineBuffer::init("αß", 4);
    let ok = s.move_backward(1);
    assert_eq!("αß", s.as_str());
    assert_eq!(2, s.pos());
    assert_eq!(true, ok);

    let ok = s.move_forward(1);
    assert_eq!("αß", s.as_str());
    assert_eq!(4, s.pos());
    assert_eq!(true, ok);

    let ok = s.move_home();
    assert_eq!("αß", s.as_str());
    assert_eq!(0, s.pos());
    assert_eq!(true, ok);

    let ok = s.move_end();
    assert_eq!("αß", s.as_str());
    assert_eq!(4, s.pos());
    assert_eq!(true, ok);
}

#[test]
fn move_grapheme() {
    let mut s = LineBuffer::init("ag̈", 4);
    assert_eq!(4, s.len());
    let ok = s.move_backward(1);
    assert_eq!(true, ok);
    assert_eq!(1, s.pos());

    let ok = s.move_forward(1);
    assert_eq!(true, ok);
    assert_eq!(4, s.pos());
}

#[test]
fn delete() {
    let mut s = LineBuffer::init("αß", 2);
    let chars = s.delete(1);
    assert_eq!("α", s.as_str());
    assert_eq!(2, s.pos());
    assert_eq!(Some("ß".to_owned()), chars);

    let ok = s.backspace(1);
    assert_eq!("", s.as_str());
    assert_eq!(0, s.pos());
    assert_eq!(true, ok);
}

#[test]
fn insert_repeated_char() {
    let mut s = LineBuffer::init("ab", 1);
    assert_eq!(Some(false), s.insert('é', 3));
    assert_eq!("aéééb", s.as_str());
    assert_eq!(7, s.pos());
}

#[test]
fn insert_off_char_boundary_changes_nothing() {
    let mut s = LineBuffer::init("α", 0);
    s.set_pos(1);
    assert_eq!(None, s.insert('x', 1));
    assert_eq!("α", s.as_str());
    assert_eq!(None, s.next_pos(1));
    assert_eq!(None, s.prev_pos(1));
}

#[test]
fn next_pos_past_end_stops_at_end() {
    let s = LineBuffer::init("abc", 1);
    assert_eq!(Some(3), s.next_pos(10));
    assert_eq!(None, s.next_pos(0));
    let s = LineBuffer::init("abc", 3);
    assert_eq!(None, s.next_pos(1));
    assert_eq!(Some(0), s.prev_pos(10));
    assert_eq!(Some(1), s.prev_pos(2));
}

#[test]
fn kill_and_discard_line() {
    let mut s = LineBuffer::init("hello world", 5);
    assert!(s.kill_line());
    assert_eq!("hello", s.as_str());
    assert_eq!(5, s.pos());
    assert!(!s.kill_line());

    let mut s = LineBuffer::init("hello world", 6);
    assert!(s.discard_line());
    assert_eq!("world", s.as_str());
    assert_eq!(0, s.pos());
    assert!(!s.discard_line());
}

#[test]
fn replace_and_delete_range() {
    let mut s = LineBuffer::init("hello world", 0);
    s.replace(0..5, "goodbye");
    assert_eq!("goodbye world", s.as_str());
    assert_eq!(7, s.pos());
    s.delete_range(7..13);
    assert_eq!("goodbye", s.as_str());
    assert_eq!(7, s.pos());
}

#[test]
fn update_clear_and_empty() {
    let mut s = LineBuffer::with_capacity(MAX_LINE);
    assert!(s.is_empty());
    s.update("αβγ", 2);
    assert_eq!("αβγ", s.as_str());
    assert_eq!(2, s.pos());
    assert_eq!(6, s.len());
    s.clear();
    assert!(s.is_empty());
    assert_eq!(0, s.pos());
    s.update("xy", 1);
    assert_eq!("xy".to_owned(), s.into_string());
}

#[test]
fn cursor_boundary_query() {
    let mut s = LineBuffer::init("αβ", 2);
    assert!(s.cursor_on_boundary());
    s.set_pos(3);
    assert!(!s.cursor_on_boundary());
}

#[test]
fn update_keeps_at_most_capacity() {
    let mut s = LineBuffer::with_capacity(3);
    s.update("αβ", 4);
    assert_eq!("α", s.as_str());
    assert_eq!(2, s.pos());
    s.update("ab", 1);
    assert_eq!("ab", s.as_str());
    assert_eq!(1, s.pos());
}

#[test]
fn delete_at_end_or_zero_is_none() {
    let mut s = LineBuffer::init("ab", 2);
    assert_eq!(None, s.delete(1));
    s.set_pos(0);
    assert_eq!(None, s.delete(0));
    assert_eq!(Some("ab".to_owned()), s.delete(5));
    assert_eq!("", s.as_str());
}
