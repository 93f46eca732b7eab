use cubus::cube::{brickvec_eq, Cube};
use cubus::moves::{ident_of_move, Move};
use cubus::trail::Trail;

fn mv(axdir: char, axval: u8) -> Move {
    Move { axdir, axval, ident: ident_of_move(axdir, axval) }
}

fn trail_of(moves: &[(char, u8)]) -> Trail {
    let mut trail = Trail::new();
    for &(axdir, axval) in moves {
        trail = trail.proceed(axdir, axval, ident_of_move(axdir, axval));
    }
    trail
}

#[test]
fn new_trail_is_empty() {
    let trail = Trail::new();
    assert!(trail.steps.is_empty());
    assert_eq!(trail.as_string(), "");
}

#[test]
fn proceed_puts_the_new_move_in_front() {
    let first = Trail::new().proceed('X', 0, 7);
    assert_eq!(first.steps, vec![Move { axdir: 'X', axval: 0, ident: 7 }]);
    let second = first.proceed('y', 2, 9);
    assert_eq!(
        second.steps,
        vec![Move { axdir: 'y', axval: 2, ident: 9 }, Move { axdir: 'X', axval: 0, ident: 7 }]
    );
    assert_eq!(first.steps.len(), 1);
}

#[test]
fn as_string_gives_the_oldest_move_first() {
    assert_eq!(trail_of(&[('X', 0)]).as_string(), "X0");
    assert_eq!(trail_of(&[('X', 0), ('y', 2), ('Z', 1)]).as_string(), "X0y2Z1");
    assert_eq!(trail_of(&[('z', 9), ('z', 9)]).as_string(), "z9z9");
}

#[test]
fn as_string_writes_coordinates_in_decimal() {
    assert_eq!(trail_of(&[('X', 10)]).as_string(), "X10");
    assert_eq!(trail_of(&[('X', 12), ('y', 0)]).as_string(), "X12y0");
    assert_eq!(trail_of(&[('Z', 100)]).as_string(), "Z100");
    assert_eq!(trail_of(&[('Z', 255), ('x', 99)]).as_string(), "Z255x99");
}

#[test]
fn transform_makes_the_moves_oldest_first() {
    let cube = Cube::new(3);
    let moves = [('X', 0u8), ('y', 2), ('Z', 1)];
    let by_trail = trail_of(&moves).transform(&cube.bricks, 2);
    let list: Vec<Move> = moves.iter().map(|&(a, v)| mv(a, v)).collect();
    let by_cube = cube.copy_with_moves(&list);
    assert_eq!(by_trail.len(), 26);
    for (p, q) in by_trail.iter().zip(by_cube.bricks.iter()) {
        assert_eq!(p.curLoc, q.curLoc);
        assert_eq!(p.curHue.xn, q.curHue.xn);
        assert_eq!(p.curHue.yn, q.curHue.yn);
        assert_eq!(p.curHue.zn, q.curHue.zn);
    }
    assert!(brickvec_eq(&by_trail, &by_cube.bricks));
    let reversed: Vec<Move> = list.iter().rev().cloned().collect();
    assert!(!brickvec_eq(&by_trail, &cube.copy_with_moves(&reversed).bricks));
}

#[test]
fn transform_of_the_empty_trail_changes_nothing() {
    let cube = Cube::new(2);
    assert!(brickvec_eq(&Trail::new().transform(&cube.bricks, 1), &cube.bricks));
}
