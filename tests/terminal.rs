use enigma_loader::line_buffer::{LineBuffer, MAX_LINE};
use enigma_loader::terminal::{delete_chars, insert_chars, move_rel, put_chars, read_i16};

#[test]
fn put_chars_echoes_and_breaks_lines() {
    let mut line = LineBuffer::with_capacity(MAX_LINE);
    let out = put_chars(&mut line, b"ab\ncd");
    assert_eq!(b"ab\r\ncd".to_vec(), out);
    assert_eq!("cd", line.as_str());
    assert_eq!(2, line.pos());
}

#[test]
fn insert_chars_types_at_cursor() {
    let mut line = LineBuffer::init("ad", 1);
    let out = insert_chars(&mut line, b"bc");
    assert!(out.is_empty());
    assert_eq!("abcd", line.as_str());
    assert_eq!(3, line.pos());
    let out = insert_chars(&mut line, b"\nz");
    assert_eq!(b"\r\n".to_vec(), out);
    assert_eq!("z", line.as_str());
}

#[test]
fn read_i16_is_big_endian_and_signed() {
    assert_eq!(258, read_i16(&[1, 2]));
    assert_eq!(-1, read_i16(&[0xff, 0xff]));
    assert_eq!(-32768, read_i16(&[0x80, 0]));
}

#[test]
fn delete_and_move_relative() {
    let mut line = LineBuffer::init("abcd", 2);
    delete_chars(&mut line, &[0, 1]);
    assert_eq!("abd", line.as_str());
    delete_chars(&mut line, &[0xff, 0xff]);
    assert_eq!("ad", line.as_str());
    assert_eq!(1, line.pos());
    assert_eq!(1, move_rel(&mut line, &[0, 1]));
    assert_eq!(2, line.pos());
    assert_eq!(-2, move_rel(&mut line, &[0xff, 0xfe]));
    assert_eq!(0, line.pos());
}
