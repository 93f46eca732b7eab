use cubus::lexer::{movevec_of_string, scan_moves};
use cubus::moves::{ident_of_move, Move};
use cubus::trail::Trail;

fn moves(list: &[(char, u8)]) -> Vec<Move> {
    list.iter().map(|&(a, v)| Move { axdir: a, axval: v, ident: ident_of_move(a, v) }).collect()
}

#[test]
fn a_move_is_a_designator_and_a_digit() {
    assert_eq!(movevec_of_string("X0", 2), moves(&[('X', 0)]));
    assert_eq!(movevec_of_string("x0y1Z2", 2), moves(&[('x', 0), ('y', 1), ('Z', 2)]));
    assert_eq!(movevec_of_string("z9", 9), moves(&[('z', 9)]));
    assert_eq!(movevec_of_string("", 2), moves(&[]));
}

#[test]
fn a_move_carries_its_identity() {
    let read = movevec_of_string("Y1", 2);
    assert_eq!(read[0].ident, 0x5901);
}

#[test]
fn a_digit_in_front_repeats_the_move() {
    assert_eq!(movevec_of_string("2X0", 2), moves(&[('X', 0), ('X', 0)]));
    assert_eq!(movevec_of_string("3X0", 2), moves(&[('X', 0), ('X', 0), ('X', 0)]));
    assert_eq!(movevec_of_string("4X0", 2), moves(&[]));
    assert_eq!(movevec_of_string("5X0y1", 2), moves(&[('X', 0), ('y', 1)]));
    assert_eq!(movevec_of_string("8X0", 2), moves(&[]));
    assert_eq!(movevec_of_string("9X0", 2), moves(&[('X', 0)]));
    assert_eq!(movevec_of_string("2X0X1", 2), moves(&[('X', 0), ('X', 0), ('X', 1)]));
}

#[test]
fn the_last_repeat_digit_counts() {
    assert_eq!(movevec_of_string("32X0", 2), moves(&[('X', 0), ('X', 0)]));
    assert_eq!(movevec_of_string("3 X0", 2), moves(&[('X', 0), ('X', 0), ('X', 0)]));
    assert_eq!(movevec_of_string("1X0", 2), moves(&[('X', 0)]));
    assert_eq!(movevec_of_string("0X0", 2), moves(&[('X', 0)]));
    assert_eq!(movevec_of_string("31X0", 2), moves(&[('X', 0), ('X', 0), ('X', 0)]));
}

#[test]
fn comments_and_other_characters_are_passed_over() {
    assert_eq!(movevec_of_string("X0 # y9\nZ1", 2), moves(&[('X', 0), ('Z', 1)]));
    assert_eq!(movevec_of_string("# X0", 2), moves(&[]));
    assert_eq!(movevec_of_string("#3\nX0", 2), moves(&[('X', 0)]));
    assert_eq!(movevec_of_string("x0\ny1\nZ2 2z0", 2), moves(&[('x', 0), ('y', 1), ('Z', 2), ('z', 0), ('z', 0)]));
    assert_eq!(movevec_of_string("a-b, X0; \u{2588}", 2), moves(&[('X', 0)]));
}

#[test]
fn a_designator_at_the_end_gives_no_move() {
    assert_eq!(movevec_of_string("X", 2), moves(&[]));
    assert_eq!(movevec_of_string("Y1 Z", 2), moves(&[('Y', 1)]));
}

#[test]
fn a_misplaced_character_is_reported() {
    assert_eq!(scan_moves("X5", 2), Err('5'));
    assert_eq!(scan_moves("X3", 2), Err('3'));
    assert_eq!(scan_moves("X#", 2), Err('#'));
    assert_eq!(scan_moves("XX0", 2), Err('X'));
    assert_eq!(scan_moves("X 0", 2), Err(' '));
    assert_eq!(scan_moves("X0 y\n1", 2), Err('\n'));
    assert_eq!(scan_moves("X0 Y: Z;", 9), Err(':'));
    assert_eq!(scan_moves("X1", 0), Err('1'));
}

#[test]
fn scan_moves_reads_what_movevec_of_string_reads() {
    assert_eq!(scan_moves("3X0 y2", 2), Ok(moves(&[('X', 0), ('X', 0), ('X', 0), ('y', 2)])));
    assert_eq!(scan_moves("X2", 2), Ok(moves(&[('X', 2)])));
    assert_eq!(scan_moves("X0", 0), Ok(moves(&[('X', 0)])));
}

#[test]
fn the_text_of_a_trail_reads_back() {
    let list = [('X', 0u8), ('y', 2), ('y', 2), ('Z', 1)];
    let mut trail = Trail::new();
    for &(a, v) in list.iter() {
        trail = trail.proceed(a, v, ident_of_move(a, v));
    }
    assert_eq!(movevec_of_string(&trail.as_string(), 2), moves(&list));
}
