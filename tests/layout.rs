use enigma_loader::layout::{calculate_position, width, Position, COLS};

fn at(col: usize, row: usize) -> Position {
    Position { col, row }
}

#[test]
fn plain_text_advances_columns() {
    assert_eq!(at(3, 0), calculate_position("abc", Position::default()));
    assert_eq!(at(5, 2), calculate_position("abc", at(2, 2)));
}

#[test]
fn tab_runs_to_next_stop() {
    assert_eq!(at(5, 0), calculate_position("\tx", Position::default()));
    assert_eq!(at(8, 0), calculate_position("ab\tcd\t", Position::default()));
}

#[test]
fn newline_starts_next_row() {
    assert_eq!(at(2, 1), calculate_position("a\nbc", Position::default()));
}

#[test]
fn escape_sequences_take_no_columns() {
    assert_eq!(at(2, 0), calculate_position("\x1b[31mhi", Position::default()));
}

#[test]
fn wide_characters_take_two_columns() {
    assert_eq!(at(4, 0), calculate_position("日本", Position::default()));
    assert_eq!(at(1, 0), calculate_position("g\u{308}", Position::default()));
}

#[test]
fn full_row_wraps() {
    let exact = "a".repeat(COLS);
    assert_eq!(at(0, 1), calculate_position(&exact, Position::default()));
    let over = "a".repeat(COLS + 1);
    assert_eq!(at(1, 1), calculate_position(&over, Position::default()));
}

#[test]
fn width_steps_escape_state() {
    let mut esc = 0u8;
    assert_eq!(1, width("a", &mut esc));
    assert_eq!(0, width("\x1b", &mut esc));
    assert_eq!(1, esc);
    assert_eq!(0, width("[", &mut esc));
    assert_eq!(2, esc);
    assert_eq!(0, width("4", &mut esc));
    assert_eq!(2, esc);
    assert_eq!(0, width("m", &mut esc));
    assert_eq!(0, esc);
    assert_eq!(2, width("日", &mut esc));
    assert_eq!(0, width("\n", &mut esc));
}
