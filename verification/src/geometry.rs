//! Coordinates, positions and face colours.

use vstd::prelude::*;
use vstd::std_specs::cmp::PartialEqSpecImpl;

verus! {

/// A cube-local coordinate value. A cube of edge length `n` uses `0..n`.
pub type Coord = u8;

/// The position of a brick in the cube's own frame.
#[derive(Clone, Copy, Debug, PartialEq, Eq, Structural)]
pub struct Loc {
    pub x: Coord,
    pub y: Coord,
    pub z: Coord,
}

impl Loc {
    /// All three coordinates are at most `axmax`.
    pub open spec fn within(self, axmax: Coord) -> bool {
        self.x <= axmax && self.y <= axmax && self.z <= axmax
    }

    /// The position lies on the surface of the cube whose largest
    /// coordinate is `axmax`: one coordinate is `0` or `axmax`.
    pub open spec fn on_surface(self, axmax: Coord) -> bool {
        self.x == 0 || self.x == axmax || self.y == 0 || self.y == axmax || self.z == 0 || self.z
            == axmax
    }
}

/// The `x` component of a position.
pub fn get_x(loc: &Loc) -> (c: Coord)
    ensures
        c == loc.x,
{
    loc.x
}

/// The `y` component of a position.
pub fn get_y(loc: &Loc) -> (c: Coord)
    ensures
        c == loc.y,
{
    loc.y
}

/// The `z` component of a position.
pub fn get_z(loc: &Loc) -> (c: Coord)
    ensures
        c == loc.z,
{
    loc.z
}

/// The six face colours.
#[derive(Clone, Copy, Debug, PartialEq, Eq, Structural)]
pub enum Huename {
    RD,
    OR,
    WT,
    YL,
    GN,
    BL,
}

/// The colours of the six faces of a brick, one for each outward direction:
/// `xp` faces `+x`, `xn` faces `-x`, and so on.
///
/// `==` on this type looks at the three faces that point in a positive
/// direction only; see [`Hue::same_visible`]. In contracts, `==` between two
/// values still means that all six fields agree.
#[derive(Clone, Copy, Debug, Eq)]
pub struct Hue {
    pub xp: Huename,
    pub xn: Huename,
    pub yp: Huename,
    pub yn: Huename,
    pub zp: Huename,
    pub zn: Huename,
}

impl Hue {
    /// The two colourings agree on the faces toward `+x`, `+y` and `+z`.
    pub open spec fn same_visible(self, other: Hue) -> bool {
        self.xp == other.xp && self.yp == other.yp && self.zp == other.zp
    }
}

impl PartialEq for Hue {
    fn eq(&self, other: &Hue) -> (r: bool) {
        self.xp == other.xp && self.yp == other.yp && self.zp == other.zp
    }
}

impl PartialEqSpecImpl for Hue {
    open spec fn obeys_eq_spec() -> bool {
        true
    }

    open spec fn eq_spec(&self, other: &Hue) -> bool {
        self.same_visible(*other)
    }
}

} // verus!
