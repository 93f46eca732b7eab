//! Bricks and their quarter turns.
//!
//! A quarter turn about an axis keeps the coordinate along that axis and
//! maps the other two by the usual rotation of the square `0..=axmax`. The
//! four faces around the axis take each other's colours in a cycle; the two
//! faces on the axis keep theirs.

use vstd::prelude::*;
use vstd::std_specs::cmp::PartialEqSpecImpl;
use crate::geometry::{Coord, Hue, Huename, Loc};

verus! {

/// The smallest movable piece of the cube: a position and the colours of
/// its six faces.
///
/// `==` on this type compares the position and the three faces that point
/// in a positive direction; see [`Brick::matches`]. In contracts, `==`
/// between two bricks still means that every field agrees.
#[derive(Clone, Copy, Debug, Eq)]
pub struct Brick {
    pub curLoc: Loc,
    pub curHue: Hue,
}

impl Brick {
    /// Same position, and the same colours on the faces toward `+x`, `+y`
    /// and `+z`. The other three faces are not looked at.
    pub open spec fn matches(self, other: Brick) -> bool {
        self.curLoc == other.curLoc && self.curHue.same_visible(other.curHue)
    }

    /// The brick at `loc` in the ordered state of the cube.
    pub open spec fn ordered_at(loc: Loc) -> Brick {
        Brick {
            curLoc: loc,
            curHue: Hue {
                xp: Huename::RD,
                xn: Huename::OR,
                yp: Huename::WT,
                yn: Huename::YL,
                zp: Huename::GN,
                zn: Huename::BL,
            },
        }
    }

    /// The brick after a quarter turn about the x axis, positive sense.
    pub open spec fn rotated_x_pos(self, axmax: Coord) -> Brick {
        Brick {
            curLoc: Loc { x: self.curLoc.x, y: (axmax - self.curLoc.z) as Coord, z: self.curLoc.y },
            curHue: Hue {
                xp: self.curHue.xp,
                xn: self.curHue.xn,
                yp: self.curHue.zn,
                yn: self.curHue.zp,
                zp: self.curHue.yp,
                zn: self.curHue.yn,
            },
        }
    }

    /// The brick after a quarter turn about the x axis, negative sense.
    pub open spec fn rotated_x_neg(self, axmax: Coord) -> Brick {
        Brick {
            curLoc: Loc { x: self.curLoc.x, y: self.curLoc.z, z: (axmax - self.curLoc.y) as Coord },
            curHue: Hue {
                xp: self.curHue.xp,
                xn: self.curHue.xn,
                yp: self.curHue.zp,
                yn: self.curHue.zn,
                zp: self.curHue.yn,
                zn: self.curHue.yp,
            },
        }
    }

    /// The brick after a quarter turn about the y axis, positive sense.
    pub open spec fn rotated_y_pos(self, axmax: Coord) -> Brick {
        Brick {
            curLoc: Loc { x: self.curLoc.z, y: self.curLoc.y, z: (axmax - self.curLoc.x) as Coord },
            curHue: Hue {
                xp: self.curHue.zp,
                xn: self.curHue.zn,
                yp: self.curHue.yp,
                yn: self.curHue.yn,
                zp: self.curHue.xn,
                zn: self.curHue.xp,
            },
        }
    }

    /// The brick after a quarter turn about the y axis, negative sense.
    pub open spec fn rotated_y_neg(self, axmax: Coord) -> Brick {
        Brick {
            curLoc: Loc { x: (axmax - self.curLoc.z) as Coord, y: self.curLoc.y, z: self.curLoc.x },
            curHue: Hue {
                xp: self.curHue.zn,
                xn: self.curHue.zp,
                yp: self.curHue.yp,
                yn: self.curHue.yn,
                zp: self.curHue.xp,
                zn: self.curHue.xn,
            },
        }
    }

    /// The brick after a quarter turn about the z axis, positive sense.
    pub open spec fn rotated_z_pos(self, axmax: Coord) -> Brick {
        Brick {
            curLoc: Loc { x: (axmax - self.curLoc.y) as Coord, y: self.curLoc.x, z: self.curLoc.z },
            curHue: Hue {
                xp: self.curHue.yn,
                xn: self.curHue.yp,
                yp: self.curHue.xp,
                yn: self.curHue.xn,
                zp: self.curHue.zp,
                zn: self.curHue.zn,
            },
        }
    }

    /// The brick after a quarter turn about the z axis, negative sense.
    pub open spec fn rotated_z_neg(self, axmax: Coord) -> Brick {
        Brick {
            curLoc: Loc { x: self.curLoc.y, y: (axmax - self.curLoc.x) as Coord, z: self.curLoc.z },
            curHue: Hue {
                xp: self.curHue.yp,
                xn: self.curHue.yn,
                yp: self.curHue.xn,
                yn: self.curHue.xp,
                zp: self.curHue.zp,
                zn: self.curHue.zn,
            },
        }
    }
}

impl PartialEq for Brick {
    fn eq(&self, other: &Brick) -> (r: bool) {
        self.curLoc == other.curLoc && self.curHue == other.curHue
    }
}

impl PartialEqSpecImpl for Brick {
    open spec fn obeys_eq_spec() -> bool {
        true
    }

    open spec fn eq_spec(&self, other: &Brick) -> bool {
        self.matches(*other)
    }
}

impl Brick {
    /// The brick at `(x, y, z)` in the ordered state of the cube.
    pub fn new(x: Coord, y: Coord, z: Coord) -> (brick: Brick)
        ensures
            brick == Brick::ordered_at(Loc { x, y, z }),
    {
        Brick {
            curLoc: Loc { x: x, y: y, z: z },
            curHue: Hue {
                xp: Huename::RD,
                xn: Huename::OR,
                yp: Huename::WT,
                yn: Huename::YL,
                zp: Huename::GN,
                zn: Huename::BL,
            },
        }
    }
}

/// Turns a brick by a quarter turn about the x axis, positive sense.
pub fn brick_rotated_x_pos(brick: &Brick, axmax: Coord) -> (turned: Brick)
    requires
        brick.curLoc.within(axmax),
    ensures
        turned == brick.rotated_x_pos(axmax),
        turned.curLoc.within(axmax),
{
    let src_loc = &brick.curLoc;
    let src_hue = &brick.curHue;
    Brick {
        curLoc: Loc { x: src_loc.x, y: axmax - src_loc.z, z: src_loc.y },
        curHue: Hue {
            xp: src_hue.xp,
            xn: src_hue.xn,
            yp: src_hue.zn,
            yn: src_hue.zp,
            zp: src_hue.yp,
            zn: src_hue.yn,
        },
    }
}

/// Turns a brick by a quarter turn about the x axis, negative sense.
pub fn brick_rotated_x_neg(brick: &Brick, axmax: Coord) -> (turned: Brick)
    requires
        brick.curLoc.within(axmax),
    ensures
        turned == brick.rotated_x_neg(axmax),
        turned.curLoc.within(axmax),
{
    let src_loc = &brick.curLoc;
    let src_hue = &brick.curHue;
    Brick {
        curLoc: Loc { x: src_loc.x, y: src_loc.z, z: axmax - src_loc.y },
        curHue: Hue {
            xp: src_hue.xp,
            xn: src_hue.xn,
            yp: src_hue.zp,
            yn: src_hue.zn,
            zp: src_hue.yn,
            zn: src_hue.yp,
        },
    }
}

/// Turns a brick by a quarter turn about the y axis, positive sense.
pub fn brick_rotated_y_pos(brick: &Brick, axmax: Coord) -> (turned: Brick)
    requires
        brick.curLoc.within(axmax),
    ensures
        turned == brick.rotated_y_pos(axmax),
        turned.curLoc.within(axmax),
{
    let src_loc = &brick.curLoc;
    let src_hue = &brick.curHue;
    Brick {
        curLoc: Loc { x: src_loc.z, y: src_loc.y, z: axmax - src_loc.x },
        curHue: Hue {
            xp: src_hue.zp,
            xn: src_hue.zn,
            yp: src_hue.yp,
            yn: src_hue.yn,
            zp: src_hue.xn,
            zn: src_hue.xp,
        },
    }
}

/// Turns a brick by a quarter turn about the y axis, negative sense.
pub fn brick_rotated_y_neg(brick: &Brick, axmax: Coord) -> (turned: Brick)
    requires
        brick.curLoc.within(axmax),
    ensures
        turned == brick.rotated_y_neg(axmax),
        turned.curLoc.within(axmax),
{
    let src_loc = &brick.curLoc;
    let src_hue = &brick.curHue;
    Brick {
        curLoc: Loc { x: axmax - src_loc.z, y: src_loc.y, z: src_loc.x },
        curHue: Hue {
            xp: src_hue.zn,
            xn: src_hue.zp,
            yp: src_hue.yp,
            yn: src_hue.yn,
            zp: src_hue.xp,
            zn: src_hue.xn,
        },
    }
}

/// Turns a brick by a quarter turn about the z axis, positive sense.
pub fn brick_rotated_z_pos(brick: &Brick, axmax: Coord) -> (turned: Brick)
    requires
        brick.curLoc.within(axmax),
    ensures
        turned == brick.rotated_z_pos(axmax),
        turned.curLoc.within(axmax),
{
    let src_loc = &brick.curLoc;
    let src_hue = &brick.curHue;
    Brick {
        curLoc: Loc { x: axmax - src_loc.y, y: src_loc.x, z: src_loc.z },
        curHue: Hue {
            xp: src_hue.yn,
            xn: src_hue.yp,
            yp: src_hue.xp,
            yn: src_hue.xn,
            zp: src_hue.zp,
            zn: src_hue.zn,
        },
    }
}

/// Turns a brick by a quarter turn about the z axis, negative sense.
pub fn brick_rotated_z_neg(brick: &Brick, axmax: Coord) -> (turned: Brick)
    requires
        brick.curLoc.within(axmax),
    ensures
        turned == brick.rotated_z_neg(axmax),
        turned.curLoc.within(axmax),
{
    let src_loc = &brick.curLoc;
    let src_hue = &brick.curHue;
    Brick {
        curLoc: Loc { x: src_loc.y, y: axmax - src_loc.x, z: src_loc.z },
        curHue: Hue {
            xp: src_hue.yp,
            xn: src_hue.yn,
            yp: src_hue.xn,
            yn: src_hue.xp,
            zp: src_hue.zp,
            zn: src_hue.zn,
        },
    }
}

/// Four quarter turns about one axis in one sense bring a brick back to
/// where it was, in its position and in all six colours.
pub proof fn four_turns_restore(b: Brick, axmax: Coord)
    requires
        b.curLoc.within(axmax),
    ensures
        b.rotated_x_pos(axmax).rotated_x_pos(axmax).rotated_x_pos(axmax).rotated_x_pos(axmax) == b,
        b.rotated_y_pos(axmax).rotated_y_pos(axmax).rotated_y_pos(axmax).rotated_y_pos(axmax) == b,
        b.rotated_z_pos(axmax).rotated_z_pos(axmax).rotated_z_pos(axmax).rotated_z_pos(axmax) == b,
        b.rotated_x_neg(axmax).rotated_x_neg(axmax).rotated_x_neg(axmax).rotated_x_neg(axmax) == b,
        b.rotated_y_neg(axmax).rotated_y_neg(axmax).rotated_y_neg(axmax).rotated_y_neg(axmax) == b,
        b.rotated_z_neg(axmax).rotated_z_neg(axmax).rotated_z_neg(axmax).rotated_z_neg(axmax) == b,
{
}

/// A quarter turn followed by the quarter turn about the same axis in the
/// other sense gives the brick back, in its position and in all six
/// colours, whichever of the two comes first.
pub proof fn opposite_turns_cancel(b: Brick, axmax: Coord)
    requires
        b.curLoc.within(axmax),
    ensures
        b.rotated_x_pos(axmax).rotated_x_neg(axmax) == b,
        b.rotated_x_neg(axmax).rotated_x_pos(axmax) == b,
        b.rotated_y_pos(axmax).rotated_y_neg(axmax) == b,
        b.rotated_y_neg(axmax).rotated_y_pos(axmax) == b,
        b.rotated_z_pos(axmax).rotated_z_neg(axmax) == b,
        b.rotated_z_neg(axmax).rotated_z_pos(axmax) == b,
{
}

/// Two quarter turns in one sense and two in the other end in the same
/// place: a half turn does not depend on the sense in which it was made.
pub proof fn half_turns_agree(b: Brick, axmax: Coord)
    requires
        b.curLoc.within(axmax),
    ensures
        b.rotated_x_pos(axmax).rotated_x_pos(axmax) == b.rotated_x_neg(axmax).rotated_x_neg(axmax),
        b.rotated_y_pos(axmax).rotated_y_pos(axmax) == b.rotated_y_neg(axmax).rotated_y_neg(axmax),
        b.rotated_z_pos(axmax).rotated_z_pos(axmax) == b.rotated_z_neg(axmax).rotated_z_neg(axmax),
{
}

} // verus!
