use cubus::brick::{
    brick_rotated_x_neg, brick_rotated_x_pos, brick_rotated_y_neg, brick_rotated_y_pos,
    brick_rotated_z_neg, brick_rotated_z_pos, Brick,
};
use cubus::cube::Cube;
use cubus::geometry::{get_x, get_y, get_z, Hue, Huename, Loc};

fn same_in_all_fields(a: &Brick, b: &Brick) -> bool {
    a.curLoc == b.curLoc
        && a.curHue.xp == b.curHue.xp
        && a.curHue.xn == b.curHue.xn
        && a.curHue.yp == b.curHue.yp
        && a.curHue.yn == b.curHue.yn
        && a.curHue.zp == b.curHue.zp
        && a.curHue.zn == b.curHue.zn
}

fn faces(h: &Hue) -> [Huename; 6] {
    [h.xp, h.xn, h.yp, h.yn, h.zp, h.zn]
}

#[test]
fn getters_pick_their_component() {
    let loc = Loc { x: 1, y: 2, z: 3 };
    assert_eq!(get_x(&loc), 1);
    assert_eq!(get_y(&loc), 2);
    assert_eq!(get_z(&loc), 3);
}

#[test]
fn new_brick_has_the_ordered_colours() {
    let b = Brick::new(4, 5, 6);
    assert_eq!(b.curLoc, Loc { x: 4, y: 5, z: 6 });
    assert_eq!(
        faces(&b.curHue),
        [Huename::RD, Huename::OR, Huename::WT, Huename::YL, Huename::GN, Huename::BL]
    );
}

#[test]
fn hue_equality_looks_at_positive_faces_only() {
    let a = Brick::new(0, 0, 0).curHue;
    let mut b = a;
    b.xn = Huename::GN;
    b.yn = Huename::GN;
    b.zn = Huename::GN;
    assert!(a == b);
    let mut c = a;
    c.xp = Huename::BL;
    assert!(a != c);
    let mut d = a;
    d.yp = Huename::BL;
    assert!(a != d);
    let mut e = a;
    e.zp = Huename::RD;
    assert!(a != e);
}

#[test]
fn brick_equality_needs_the_same_position() {
    let a = Brick::new(0, 1, 2);
    let mut hidden = a;
    hidden.curHue.zn = Huename::RD;
    assert!(a == hidden);
    assert!(a != Brick::new(0, 1, 1));
    assert!(a != Brick::new(0, 2, 2));
    assert!(a != Brick::new(1, 1, 2));
}

#[test]
fn x_pos_turn_has_the_stated_formula() {
    let t = brick_rotated_x_pos(&Brick::new(0, 1, 2), 2);
    assert_eq!(t.curLoc, Loc { x: 0, y: 0, z: 1 });
    assert_eq!(
        faces(&t.curHue),
        [Huename::RD, Huename::OR, Huename::BL, Huename::GN, Huename::WT, Huename::YL]
    );
}

#[test]
fn x_neg_turn_has_the_stated_formula() {
    let t = brick_rotated_x_neg(&Brick::new(0, 1, 2), 2);
    assert_eq!(t.curLoc, Loc { x: 0, y: 2, z: 1 });
    assert_eq!(
        faces(&t.curHue),
        [Huename::RD, Huename::OR, Huename::GN, Huename::BL, Huename::YL, Huename::WT]
    );
}

#[test]
fn y_pos_turn_has_the_stated_formula() {
    let t = brick_rotated_y_pos(&Brick::new(0, 1, 2), 2);
    assert_eq!(t.curLoc, Loc { x: 2, y: 1, z: 2 });
    assert_eq!(
        faces(&t.curHue),
        [Huename::GN, Huename::BL, Huename::WT, Huename::YL, Huename::OR, Huename::RD]
    );
}

#[test]
fn y_neg_turn_has_the_stated_formula() {
    let t = brick_rotated_y_neg(&Brick::new(0, 1, 2), 2);
    assert_eq!(t.curLoc, Loc { x: 0, y: 1, z: 0 });
    assert_eq!(
        faces(&t.curHue),
        [Huename::BL, Huename::GN, Huename::WT, Huename::YL, Huename::RD, Huename::OR]
    );
}

#[test]
fn z_pos_turn_has_the_stated_formula() {
    let t = brick_rotated_z_pos(&Brick::new(0, 1, 2), 2);
    assert_eq!(t.curLoc, Loc { x: 1, y: 0, z: 2 });
    assert_eq!(
        faces(&t.curHue),
        [Huename::YL, Huename::WT, Huename::RD, Huename::OR, Huename::GN, Huename::BL]
    );
}

#[test]
fn z_neg_turn_has_the_stated_formula() {
    let t = brick_rotated_z_neg(&Brick::new(0, 1, 2), 2);
    assert_eq!(t.curLoc, Loc { x: 1, y: 2, z: 2 });
    assert_eq!(
        faces(&t.curHue),
        [Huename::WT, Huename::YL, Huename::OR, Huename::RD, Huename::GN, Huename::BL]
    );
}

#[test]
fn four_positive_turns_restore_every_field() {
    for size in 1..=4u8 {
        let axmax = size - 1;
        for b in Cube::new(size).bricks.iter() {
            let mut x = *b;
            let mut y = *b;
            let mut z = *b;
            for _ in 0..4 {
                x = brick_rotated_x_pos(&x, axmax);
                y = brick_rotated_y_pos(&y, axmax);
                z = brick_rotated_z_pos(&z, axmax);
            }
            assert!(same_in_all_fields(&x, b));
            assert!(same_in_all_fields(&y, b));
            assert!(same_in_all_fields(&z, b));
        }
    }
}

#[test]
fn four_negative_turns_restore_every_field() {
    let axmax = 2;
    for b in Cube::new(3).bricks.iter() {
        let mut x = *b;
        let mut y = *b;
        let mut z = *b;
        for _ in 0..4 {
            x = brick_rotated_x_neg(&x, axmax);
            y = brick_rotated_y_neg(&y, axmax);
            z = brick_rotated_z_neg(&z, axmax);
        }
        assert!(same_in_all_fields(&x, b));
        assert!(same_in_all_fields(&y, b));
        assert!(same_in_all_fields(&z, b));
    }
}

#[test]
fn a_turn_and_its_opposite_cancel() {
    let axmax = 2;
    for b in Cube::new(3).bricks.iter() {
        assert!(same_in_all_fields(&brick_rotated_x_neg(&brick_rotated_x_pos(b, axmax), axmax), b));
        assert!(same_in_all_fields(&brick_rotated_x_pos(&brick_rotated_x_neg(b, axmax), axmax), b));
        assert!(same_in_all_fields(&brick_rotated_y_neg(&brick_rotated_y_pos(b, axmax), axmax), b));
        assert!(same_in_all_fields(&brick_rotated_y_pos(&brick_rotated_y_neg(b, axmax), axmax), b));
        assert!(same_in_all_fields(&brick_rotated_z_neg(&brick_rotated_z_pos(b, axmax), axmax), b));
        assert!(same_in_all_fields(&brick_rotated_z_pos(&brick_rotated_z_neg(b, axmax), axmax), b));
    }
}

#[test]
fn a_turn_moves_a_brick_that_is_off_the_axis() {
    let b = Brick::new(0, 1, 2);
    assert!(!same_in_all_fields(&brick_rotated_x_pos(&b, 2), &b));
    assert!(!same_in_all_fields(&brick_rotated_y_neg(&b, 2), &b));
    assert!(!same_in_all_fields(&brick_rotated_z_pos(&b, 2), &b));
}
