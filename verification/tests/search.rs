use cubus::cube::Cube;
use cubus::moves::{ident_of_move, Move};
use cubus::search::find_moves;

fn mv(axdir: char, axval: u8) -> Move {
    Move { axdir, axval, ident: ident_of_move(axdir, axval) }
}

fn target(size: u8, moves: &[(char, u8)]) -> (Cube, Cube) {
    let src = Cube::new(size);
    let list: Vec<Move> = moves.iter().map(|&(a, v)| mv(a, v)).collect();
    let dst = src.copy_with_moves(&list);
    (src, dst)
}

fn strings(texts: &[&str]) -> Vec<String> {
    texts.iter().map(|t| t.to_string()).collect()
}

#[test]
fn single_move_on_size_three_is_found() {
    let (src, dst) = target(3, &[('X', 0)]);
    let (found, explored) = find_moves(1, &src, &dst);
    assert_eq!(found, strings(&["X0"]));
    assert_eq!(explored, 18);
}

#[test]
fn every_single_move_on_size_two_is_found_alone() {
    for axdir in ['X', 'x', 'Y', 'y', 'Z', 'z'] {
        for axval in 0..2u8 {
            let (src, dst) = target(2, &[(axdir, axval)]);
            let (found, explored) = find_moves(1, &src, &dst);
            assert_eq!(found, vec![format!("{}{}", axdir, axval)]);
            assert_eq!(explored, 12);
        }
    }
}

#[test]
fn matching_source_gives_the_empty_sequence() {
    for size in 1..=3u8 {
        let src = Cube::new(size);
        for max_len in 0..3usize {
            let (found, explored) = find_moves(max_len, &src, &src);
            assert_eq!(found, strings(&[""]));
            assert_eq!(explored, 0);
        }
    }
}

#[test]
fn nothing_is_found_within_no_moves() {
    let (src, dst) = target(2, &[('X', 0)]);
    let (found, explored) = find_moves(0, &src, &dst);
    assert!(found.is_empty());
    assert_eq!(explored, 0);
}

#[test]
fn sequences_of_two_moves_are_found() {
    let (src, dst) = target(2, &[('X', 0), ('Y', 1)]);
    assert_eq!(find_moves(2, &src, &dst), (strings(&["X0Y1"]), 126));
    let (src, dst) = target(3, &[('X', 0), ('y', 2)]);
    assert_eq!(find_moves(2, &src, &dst), (strings(&["X0y2"]), 315));
}

#[test]
fn sequences_of_three_moves_are_found() {
    let (src, dst) = target(2, &[('X', 0), ('Y', 1), ('Z', 0)]);
    assert_eq!(find_moves(3, &src, &dst), (strings(&["X0Y1Z0"]), 1206));
    let (src, dst) = target(3, &[('Z', 1), ('x', 2), ('Y', 0)]);
    assert_eq!(find_moves(3, &src, &dst), (strings(&["Z1x2Y0"]), 5175));
}

#[test]
fn a_half_turn_is_found_in_one_sense_only() {
    let (src, dst) = target(2, &[('X', 0), ('X', 0)]);
    assert_eq!(find_moves(2, &src, &dst), (strings(&["X0X0"]), 126));
    let (src, dst) = target(2, &[('x', 0), ('x', 0)]);
    assert_eq!(find_moves(2, &src, &dst), (strings(&["X0X0"]), 126));
    let (src, dst) = target(3, &[('y', 1), ('y', 1)]);
    assert_eq!(find_moves(2, &src, &dst), (strings(&["Y1Y1"]), 315));
}

#[test]
fn a_found_sequence_is_not_prolonged() {
    let (src, dst) = target(2, &[('X', 0)]);
    assert_eq!(find_moves(3, &src, &dst), (strings(&["X0"]), 1112));
    let (src, dst) = target(2, &[('X', 0), ('X', 0)]);
    assert_eq!(find_moves(3, &src, &dst), (strings(&["X0X0"]), 1197));
}

#[test]
fn shorter_sequences_come_first() {
    let (src, dst) = target(3, &[('Y', 1)]);
    let (found, explored) = find_moves(3, &src, &dst);
    assert_eq!(found, strings(&["Y1", "Y0Y1y0", "Y2Y1y2", "y0Y1Y0", "y2Y1Y2"]));
    assert_eq!(explored, 4897);
}

#[test]
fn a_turn_of_the_whole_cube_is_not_searched() {
    let (src, dst) = target(3, &[('X', 0), ('X', 1), ('X', 2)]);
    assert_eq!(find_moves(3, &src, &dst), (strings(&[]), 5175));
    let (src, dst) = target(2, &[('X', 0), ('X', 1)]);
    assert_eq!(find_moves(1, &src, &dst), (strings(&[]), 12));
    assert_eq!(find_moves(2, &src, &dst), (strings(&[]), 126));
    assert_eq!(find_moves(3, &src, &dst), (strings(&[]), 1206));
}

#[test]
fn a_cube_of_one_brick_has_no_move_to_search() {
    let (src, dst) = target(1, &[('X', 0)]);
    assert_eq!(find_moves(2, &src, &dst), (strings(&[]), 0));
}

#[test]
fn no_found_sequence_undoes_a_move_or_repeats_one_twice() {
    let (src, dst) = target(3, &[('Y', 1)]);
    let (found, _) = find_moves(3, &src, &dst);
    for text in found.iter() {
        let chars: Vec<char> = text.chars().collect();
        assert_eq!(chars.len() % 2, 0);
        for pair in chars.chunks(2).collect::<Vec<_>>().windows(2) {
            let flipped = ((pair[0][0] as u8) ^ 0x20) as char;
            assert!(!(pair[1][0] == flipped && pair[1][1] == pair[0][1]));
        }
        for triple in chars.chunks(2).collect::<Vec<_>>().windows(3) {
            assert!(!(triple[0] == triple[1] && triple[1] == triple[2]));
        }
    }
}

#[test]
fn every_found_sequence_reaches_the_destination() {
    let (src, dst) = target(3, &[('Y', 1)]);
    let (found, _) = find_moves(3, &src, &dst);
    for text in found.iter() {
        let chars: Vec<char> = text.chars().collect();
        let moves: Vec<Move> =
            chars.chunks(2).map(|p| mv(p[0], p[1] as u8 - b'0')).collect();
        assert!(moves.len() <= 3);
        assert!(src.copy_with_moves(&moves) == dst);
    }
}
