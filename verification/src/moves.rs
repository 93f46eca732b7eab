//! Moves: quarter turns of one layer of the cube.
//!
//! A move names an axis together with a sense of rotation, and the
//! coordinate of the layer that turns. The six axis designators are the
//! letters `X`, `Y`, `Z` for the positive sense and `x`, `y`, `z` for the
//! negative sense.

use vstd::prelude::*;
use crate::brick::{
    opposite_turns_cancel,
    brick_rotated_x_neg,
    brick_rotated_x_pos,
    brick_rotated_y_neg,
    brick_rotated_y_pos,
    brick_rotated_z_neg,
    brick_rotated_z_pos,
    Brick,
};
use crate::geometry::{get_x, get_y, get_z, Coord, Loc};

verus! {

/// An axis designator: an axis and a sense of rotation.
pub type Axis = char;

/// `axdir` is one of the six axis designators.
pub open spec fn is_axis(axdir: Axis) -> bool {
    axdir == 'X' || axdir == 'x' || axdir == 'Y' || axdir == 'y' || axdir == 'Z' || axdir == 'z'
}

/// The designator of the same axis in the other sense. For a character
/// that is no axis designator, the character whose code is the low byte of
/// the given one with bit 5 flipped.
pub open spec fn inverted(axdir: Axis) -> Axis {
    if axdir == 'X' {
        'x'
    } else if axdir == 'x' {
        'X'
    } else if axdir == 'Y' {
        'y'
    } else if axdir == 'y' {
        'Y'
    } else if axdir == 'Z' {
        'z'
    } else if axdir == 'z' {
        'Z'
    } else {
        ((((axdir as u32) % 256) as u8) ^ 0x20) as char
    }
}

/// The same axis with the sense of rotation inverted.
pub fn invert_axis(axdir: Axis) -> (flipped: Axis)
    ensures
        flipped == inverted(axdir),
{
    let code: u32 = axdir as u32;
    let low: u8 = #[verifier::truncate]
    (axdir as u8);
    let bits: u8 = low ^ 0x20;
    proof {
        assert(low == code % 256) by (bit_vector)
            requires
                low == code as u8,
        ;
        assert(low == 88 ==> bits == 120) by (bit_vector)
            requires
                bits == low ^ 0x20,
        ;
        assert(low == 120 ==> bits == 88) by (bit_vector)
            requires
                bits == low ^ 0x20,
        ;
        assert(low == 89 ==> bits == 121) by (bit_vector)
            requires
                bits == low ^ 0x20,
        ;
        assert(low == 121 ==> bits == 89) by (bit_vector)
            requires
                bits == low ^ 0x20,
        ;
        assert(low == 90 ==> bits == 122) by (bit_vector)
            requires
                bits == low ^ 0x20,
        ;
        assert(low == 122 ==> bits == 90) by (bit_vector)
            requires
                bits == low ^ 0x20,
        ;
    }
    bits as char
}

/// The identity of the move `(axdir, axval)` as a number: the low byte of
/// the designator's code in the high byte, the coordinate in the low byte.
pub open spec fn ident_value(axdir: Axis, axval: Coord) -> int {
    ((axdir as int) % 256) * 256 + axval
}

/// The identity of a move as one integer, for fast equality tests.
pub fn ident_of_move(axdir: Axis, axval: Coord) -> (ident: u16)
    ensures
        ident == ident_value(axdir, axval),
{
    let code: u32 = axdir as u32;
    let high: u16 = #[verifier::truncate]
    (axdir as u16) & 0x00FF;
    let ident: u16 = (high << 8) | (axval as u16);
    proof {
        assert(high == code % 256) by (bit_vector)
            requires
                high == (code as u16) & 0x00FF,
        ;
        assert(ident == high * 256 + axval) by (bit_vector)
            requires
                ident == (high << 8) | (axval as u16),
                high < 256,
        ;
    }
    ident
}

/// Two moves with axis designators have the same identity exactly when
/// they have the same designator and the same coordinate.
pub proof fn ident_is_faithful(a1: Axis, v1: Coord, a2: Axis, v2: Coord)
    requires
        is_axis(a1),
        is_axis(a2),
    ensures
        ident_value(a1, v1) == ident_value(a2, v2) <==> a1 == a2 && v1 == v2,
{
}

/// A move: the rotation of the layer at `axval` along the axis of `axdir`
/// by a quarter turn in the sense of `axdir`. `ident` is the identity of
/// the pair.
#[derive(Clone, Copy, Debug, PartialEq, Eq, Structural)]
pub struct Move {
    pub axdir: Axis,
    pub axval: Coord,
    pub ident: u16,
}

impl Move {
    /// The move `(axdir, axval)` with its identity.
    pub open spec fn of(axdir: Axis, axval: Coord) -> Move {
        Move { axdir, axval, ident: ident_value(axdir, axval) as u16 }
    }

    /// The move names an axis.
    pub open spec fn has_axis(self) -> bool {
        is_axis(self.axdir)
    }

    /// The move names an axis, and its identity is that of its designator
    /// and coordinate.
    pub open spec fn wf(self) -> bool {
        is_axis(self.axdir) && self.ident == ident_value(self.axdir, self.axval)
    }

    /// The move that undoes this one: the same layer, the other sense.
    pub open spec fn reversed(self) -> Move {
        Move::of(inverted(self.axdir), self.axval)
    }
}

/// The coordinate of `loc` along the axis of `axdir`.
pub open spec fn coord_along(loc: Loc, axdir: Axis) -> Coord {
    if axdir == 'X' || axdir == 'x' {
        loc.x
    } else if axdir == 'Y' || axdir == 'y' {
        loc.y
    } else {
        loc.z
    }
}

/// The brick after a quarter turn about the axis and in the sense of
/// `axdir`.
pub open spec fn turned(b: Brick, axdir: Axis, axmax: Coord) -> Brick {
    if axdir == 'X' {
        b.rotated_x_pos(axmax)
    } else if axdir == 'x' {
        b.rotated_x_neg(axmax)
    } else if axdir == 'Y' {
        b.rotated_y_pos(axmax)
    } else if axdir == 'y' {
        b.rotated_y_neg(axmax)
    } else if axdir == 'Z' {
        b.rotated_z_pos(axmax)
    } else {
        b.rotated_z_neg(axmax)
    }
}

/// What the move `(axdir, axval)` makes of one brick: a brick in the layer
/// is turned, any other brick stays as it is.
pub open spec fn moved_brick(b: Brick, axdir: Axis, axval: Coord, axmax: Coord) -> Brick {
    if coord_along(b.curLoc, axdir) == axval {
        turned(b, axdir, axmax)
    } else {
        b
    }
}

/// What the move `(axdir, axval)` makes of a collection of bricks: each
/// brick is moved in its place.
pub open spec fn moved(bricks: Seq<Brick>, axdir: Axis, axval: Coord, axmax: Coord) -> Seq<Brick> {
    Seq::new(bricks.len(), |i: int| moved_brick(bricks[i], axdir, axval, axmax))
}

/// Every brick has its coordinates in `0..=axmax`.
pub open spec fn all_within(bricks: Seq<Brick>, axmax: Coord) -> bool {
    forall|i: int| 0 <= i < bricks.len() ==> (#[trigger] bricks[i]).curLoc.within(axmax)
}

/// Every move names an axis.
pub open spec fn all_have_axis(moves: Seq<Move>) -> bool {
    forall|i: int| 0 <= i < moves.len() ==> (#[trigger] moves[i]).has_axis()
}

/// What a sequence of moves, made in the order given, makes of a
/// collection of bricks.
pub open spec fn apply_moves(bricks: Seq<Brick>, moves: Seq<Move>, axmax: Coord) -> Seq<Brick>
    decreases moves.len(),
{
    if moves.len() == 0 {
        bricks
    } else {
        let last = moves.last();
        moved(apply_moves(bricks, moves.drop_last(), axmax), last.axdir, last.axval, axmax)
    }
}

/// Makes the move `(axdir, axval)` on the given bricks and returns the
/// bricks in the resulting state, each in the place it had.
pub fn brickvec_move(bricks: &[Brick], axdir: Axis, axval: Coord, axmax: Coord) -> (new_bricks:
    Vec<Brick>)
    requires
        is_axis(axdir),
        all_within(bricks@, axmax),
    ensures
        new_bricks@ == moved(bricks@, axdir, axval, axmax),
        all_within(new_bricks@, axmax),
{
    let mut new_bricks: Vec<Brick> = Vec::with_capacity(bricks.len());
    let mut ind: usize = 0;
    while ind < bricks.len()
        invariant
            is_axis(axdir),
            all_within(bricks@, axmax),
            ind <= bricks@.len(),
            new_bricks@.len() == ind,
            forall|i: int|
                0 <= i < ind ==> #[trigger] new_bricks@[i] == moved_brick(
                    bricks@[i],
                    axdir,
                    axval,
                    axmax,
                ),
        decreases bricks@.len() - ind,
    {
        let brick = &bricks[ind];
        assert(brick.curLoc.within(axmax));
        let along = match axdir {
            'X' | 'x' => get_x(&brick.curLoc),
            'Y' | 'y' => get_y(&brick.curLoc),
            _ => get_z(&brick.curLoc),
        };
        if along == axval {
            // Bricks in the layer are turned.
            let rotated = match axdir {
                'X' => brick_rotated_x_pos(brick, axmax),
                'x' => brick_rotated_x_neg(brick, axmax),
                'Y' => brick_rotated_y_pos(brick, axmax),
                'y' => brick_rotated_y_neg(brick, axmax),
                'Z' => brick_rotated_z_pos(brick, axmax),
                _ => brick_rotated_z_neg(brick, axmax),
            };
            new_bricks.push(rotated);
        } else {
            // The others are copied.
            new_bricks.push(brick.clone());
        }
        ind += 1;
    }
    proof {
        lemma_moved_within(bricks@, axdir, axval, axmax);
    }
    new_bricks
}

/// A move keeps every brick inside the cube.
pub proof fn lemma_moved_within(bricks: Seq<Brick>, axdir: Axis, axval: Coord, axmax: Coord)
    requires
        all_within(bricks, axmax),
    ensures
        all_within(moved(bricks, axdir, axval, axmax), axmax),
        moved(bricks, axdir, axval, axmax).len() == bricks.len(),
{
    let after = moved(bricks, axdir, axval, axmax);
    assert forall|i: int| 0 <= i < after.len() implies (#[trigger] after[i]).curLoc.within(
        axmax,
    ) by {
        assert(bricks[i].curLoc.within(axmax));
    }
}

/// A sequence of moves keeps every brick inside the cube, and keeps the
/// number of bricks.
pub proof fn lemma_apply_moves_within(bricks: Seq<Brick>, moves: Seq<Move>, axmax: Coord)
    requires
        all_within(bricks, axmax),
    ensures
        all_within(apply_moves(bricks, moves, axmax), axmax),
        apply_moves(bricks, moves, axmax).len() == bricks.len(),
    decreases moves.len(),
{
    if moves.len() > 0 {
        lemma_apply_moves_within(bricks, moves.drop_last(), axmax);
        let last = moves.last();
        lemma_moved_within(
            apply_moves(bricks, moves.drop_last(), axmax),
            last.axdir,
            last.axval,
            axmax,
        );
    }
}

/// A move of a layer followed by the move of the same layer in the other
/// sense leaves every brick as it was, in its position and in all six
/// colours.
pub proof fn move_then_reverse_restores(
    bricks: Seq<Brick>,
    axdir: Axis,
    axval: Coord,
    axmax: Coord,
)
    requires
        is_axis(axdir),
        all_within(bricks, axmax),
    ensures
        moved(moved(bricks, axdir, axval, axmax), inverted(axdir), axval, axmax) == bricks,
{
    let once = moved(bricks, axdir, axval, axmax);
    let twice = moved(once, inverted(axdir), axval, axmax);
    assert forall|i: int| 0 <= i < bricks.len() implies twice[i] == bricks[i] by {
        let b = bricks[i];
        assert(b.curLoc.within(axmax));
        opposite_turns_cancel(b, axmax);
    }
    assert(twice =~= bricks);
}

} // verus!
