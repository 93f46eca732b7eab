use cubus::brick::Brick;
use cubus::cube::{brickvec_eq, Cube};
use cubus::geometry::{Huename, Loc};
use cubus::moves::{brickvec_move, ident_of_move, invert_axis, Move};

fn mv(axdir: char, axval: u8) -> Move {
    Move { axdir, axval, ident: ident_of_move(axdir, axval) }
}

fn same_in_all_fields(a: &[Brick], b: &[Brick]) -> bool {
    a.len() == b.len()
        && a.iter().zip(b.iter()).all(|(p, q)| {
            p.curLoc == q.curLoc
                && p.curHue.xp == q.curHue.xp
                && p.curHue.xn == q.curHue.xn
                && p.curHue.yp == q.curHue.yp
                && p.curHue.yn == q.curHue.yn
                && p.curHue.zp == q.curHue.zp
                && p.curHue.zn == q.curHue.zn
        })
}

#[test]
fn invert_axis_swaps_the_sense() {
    assert_eq!(invert_axis('X'), 'x');
    assert_eq!(invert_axis('x'), 'X');
    assert_eq!(invert_axis('Y'), 'y');
    assert_eq!(invert_axis('y'), 'Y');
    assert_eq!(invert_axis('Z'), 'z');
    assert_eq!(invert_axis('z'), 'Z');
}

#[test]
fn invert_axis_flips_one_bit_of_other_characters() {
    assert_eq!(invert_axis('a'), 'A');
    assert_eq!(invert_axis('_'), '\u{7f}');
    assert_eq!(invert_axis('\u{141}'), 'a');
}

#[test]
fn ident_joins_designator_and_coordinate() {
    assert_eq!(ident_of_move('X', 0), 0x5800);
    assert_eq!(ident_of_move('x', 3), 0x7803);
    assert_eq!(ident_of_move('z', 9), 0x7A09);
    assert_eq!(ident_of_move('Y', 255), 0x59FF);
    assert_eq!(ident_of_move('\u{141}', 1), 0x4101);
}

#[test]
fn ident_tells_moves_apart() {
    let axes = ['X', 'x', 'Y', 'y', 'Z', 'z'];
    for a1 in axes {
        for v1 in 0..10u8 {
            for a2 in axes {
                for v2 in 0..10u8 {
                    assert_eq!(
                        ident_of_move(a1, v1) == ident_of_move(a2, v2),
                        a1 == a2 && v1 == v2
                    );
                }
            }
        }
    }
}

#[test]
fn new_cube_has_the_surface_bricks() {
    assert_eq!(Cube::new(1).bricks.len(), 1);
    assert_eq!(Cube::new(2).bricks.len(), 8);
    assert_eq!(Cube::new(3).bricks.len(), 26);
    assert_eq!(Cube::new(4).bricks.len(), 56);
    assert_eq!(Cube::new(10).bricks.len(), 488);
    assert_eq!(Cube::new(3).size, 3);
}

#[test]
fn new_cube_is_laid_out_by_z_then_y_then_x() {
    let cube = Cube::new(3);
    let locs: Vec<(u8, u8, u8)> =
        cube.bricks.iter().map(|b| (b.curLoc.x, b.curLoc.y, b.curLoc.z)).collect();
    assert_eq!(&locs[0..4], &[(0, 0, 0), (1, 0, 0), (2, 0, 0), (0, 1, 0)]);
    assert_eq!(&locs[9..14], &[(0, 0, 1), (1, 0, 1), (2, 0, 1), (0, 1, 1), (2, 1, 1)]);
    assert_eq!(locs[25], (2, 2, 2));
    assert!(!locs.contains(&(1, 1, 1)));
    for b in cube.bricks.iter() {
        assert_eq!(b.curHue.xp, Huename::RD);
        assert_eq!(b.curHue.xn, Huename::OR);
        assert_eq!(b.curHue.yp, Huename::WT);
        assert_eq!(b.curHue.yn, Huename::YL);
        assert_eq!(b.curHue.zp, Huename::GN);
        assert_eq!(b.curHue.zn, Huename::BL);
    }
}

#[test]
fn a_move_turns_its_layer_and_nothing_else() {
    let cube = Cube::new(3);
    let moved = brickvec_move(&cube.bricks, 'X', 0, 2);
    assert_eq!(moved.len(), cube.bricks.len());
    for (before, after) in cube.bricks.iter().zip(moved.iter()) {
        if before.curLoc.x == 0 {
            assert_eq!(
                after.curLoc,
                Loc { x: 0, y: 2 - before.curLoc.z, z: before.curLoc.y }
            );
            assert_eq!(after.curHue.yp, Huename::BL);
            assert_eq!(after.curHue.zp, Huename::WT);
        } else {
            assert!(same_in_all_fields(&[*before], &[*after]));
        }
    }
}

#[test]
fn each_axis_picks_its_own_coordinate() {
    let bricks = vec![Brick::new(0, 1, 2)];
    for (axdir, axval) in [('X', 0u8), ('x', 0), ('Y', 1), ('y', 1), ('Z', 2), ('z', 2)] {
        let hit = brickvec_move(&bricks, axdir, axval, 2);
        assert!(!same_in_all_fields(&hit, &bricks));
        let miss = brickvec_move(&bricks, axdir, (axval + 1) % 3, 2);
        assert!(same_in_all_fields(&miss, &bricks));
    }
}

#[test]
fn a_move_and_its_reverse_restore_the_cube() {
    for size in 1..=3u8 {
        let cube = Cube::new(size).copy_with_moves(&[mv('Z', 0), mv('y', size - 1)]);
        for axdir in ['X', 'x', 'Y', 'y', 'Z', 'z'] {
            for axval in 0..size {
                let back = cube.copy_with_moves(&[mv(axdir, axval), mv(invert_axis(axdir), axval)]);
                assert_eq!(back.size, size);
                assert!(same_in_all_fields(&back.bricks, &cube.bricks));
                assert!(back == cube);
            }
        }
    }
}

#[test]
fn four_equal_moves_restore_the_cube() {
    let cube = Cube::new(3);
    let m = mv('y', 1);
    let back = cube.copy_with_moves(&[m, m, m, m]);
    assert!(same_in_all_fields(&back.bricks, &cube.bricks));
    let three = cube.copy_with_moves(&[m, m, m]);
    let reverse = cube.copy_with_moves(&[mv('Y', 1)]);
    assert!(same_in_all_fields(&three.bricks, &reverse.bricks));
}

#[test]
fn copy_with_moves_makes_the_moves_in_order() {
    let cube = Cube::new(2);
    let xy = cube.copy_with_moves(&[mv('X', 0), mv('Y', 0)]);
    let yx = cube.copy_with_moves(&[mv('Y', 0), mv('X', 0)]);
    assert!(xy != yx);
    let step = brickvec_move(&brickvec_move(&cube.bricks, 'X', 0, 1), 'Y', 0, 1);
    assert!(same_in_all_fields(&xy.bricks, &step));
    let none = cube.copy_with_moves(&[]);
    assert!(same_in_all_fields(&none.bricks, &cube.bricks));
}

#[test]
fn a_move_of_a_layer_that_is_not_there_changes_nothing() {
    let cube = Cube::new(2);
    let same = cube.copy_with_moves(&[mv('X', 5)]);
    assert!(same_in_all_fields(&same.bricks, &cube.bricks));
}

#[test]
fn brickvec_eq_compares_what_is_visible() {
    let a = Cube::new(2).bricks;
    let mut b = a.clone();
    assert!(brickvec_eq(&a, &b));
    b[3].curHue.xn = Huename::GN;
    assert!(brickvec_eq(&a, &b));
    b[3].curHue.xp = Huename::GN;
    assert!(!brickvec_eq(&a, &b));
    let mut c = a.clone();
    c[7].curLoc.z = 0;
    assert!(!brickvec_eq(&a, &c));
    assert!(!brickvec_eq(&a, &a[..7]));
    assert!(brickvec_eq(&[], &[]));
}

#[test]
fn cube_equality_compares_size_and_bricks() {
    let a = Cube::new(2);
    assert!(a == Cube::new(2));
    assert!(a != Cube::new(3));
    let turned = a.copy_with_moves(&[mv('Z', 1)]);
    assert!(a != turned);
    let other_size = Cube { size: 3, bricks: a.bricks.clone() };
    assert!(a != other_size);
}
