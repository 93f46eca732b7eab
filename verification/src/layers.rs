//! The record of the layers that were given a half turn.
//!
//! The search keeps one flag for each axis designator and coordinate. A
//! flag is raised when a layer has been turned twice in a row in one sense
//! at the depth that the search is at.

use vstd::prelude::*;
use crate::geometry::Coord;
use crate::moves::{is_axis, Axis};

verus! {

/// A vector of `size` values, each a clone of `value`.
pub fn vec_of_size<T: Clone>(size: usize, value: T) -> (vec: Vec<T>)
    ensures
        vec@.len() == size,
        forall|i: int| 0 <= i < size ==> cloned::<T>(value, #[trigger] vec@[i]),
{
    let mut vec: Vec<T> = Vec::new();
    vec.resize(size, value);
    vec
}

/// One flag for each axis designator and each coordinate of a cube.
pub struct Layers {
    pub xpos: Vec<bool>,
    pub xneg: Vec<bool>,
    pub ypos: Vec<bool>,
    pub yneg: Vec<bool>,
    pub zpos: Vec<bool>,
    pub zneg: Vec<bool>,
}

impl Layers {
    /// The flags of one axis designator, by coordinate.
    pub open spec fn flags(&self, axdir: Axis) -> Seq<bool> {
        if axdir == 'X' {
            self.xpos@
        } else if axdir == 'x' {
            self.xneg@
        } else if axdir == 'Y' {
            self.ypos@
        } else if axdir == 'y' {
            self.yneg@
        } else if axdir == 'Z' {
            self.zpos@
        } else {
            self.zneg@
        }
    }

    /// There are `size` flags for each axis designator.
    pub open spec fn has_size(&self, size: Coord) -> bool {
        forall|axdir: Axis| is_axis(axdir) ==> (#[trigger] self.flags(axdir)).len() == size
    }

    /// The flag of `(axdir, axval)` is there and is raised.
    pub open spec fn is_set(&self, axdir: Axis, axval: Coord) -> bool {
        axval < self.flags(axdir).len() && self.flags(axdir)[axval as int]
    }

    /// There are `size` flags for each axis designator, and none of them
    /// is raised.
    pub open spec fn is_blank(&self, size: Coord) -> bool {
        forall|axdir: Axis|
            is_axis(axdir) ==> #[trigger] self.flags(axdir) == Seq::new(
                size as nat,
                |i: int| false,
            )
    }

    /// The flags for a cube of edge length `size`, none of them raised.
    pub fn new(size: Coord) -> (layers: Layers)
        ensures
            layers.is_blank(size),
            layers.has_size(size),
    {
        let ghost blank = Seq::new(size as nat, |i: int| false);
        let size: usize = size as usize;
        let layers = Layers {
            xpos: vec_of_size(size, false),
            xneg: vec_of_size(size, false),
            ypos: vec_of_size(size, false),
            yneg: vec_of_size(size, false),
            zpos: vec_of_size(size, false),
            zneg: vec_of_size(size, false),
        };
        assert(layers.xpos@ =~= blank);
        assert(layers.xneg@ =~= blank);
        assert(layers.ypos@ =~= blank);
        assert(layers.yneg@ =~= blank);
        assert(layers.zpos@ =~= blank);
        assert(layers.zneg@ =~= blank);
        layers
    }

    /// Raises the flag of `(axdir, axval)`.
    pub fn set_flag(&mut self, axdir: Axis, axval: Coord)
        requires
            is_axis(axdir),
            axval < old(self).flags(axdir).len(),
        ensures
            final(self).flags(axdir) == old(self).flags(axdir).update(axval as int, true),
            forall|other: Axis|
                is_axis(other) && other != axdir ==> #[trigger] final(self).flags(other) == old(
                    self,
                ).flags(other),
    {
        let axflags = match axdir {
            'X' => &mut self.xpos,
            'x' => &mut self.xneg,
            'Y' => &mut self.ypos,
            'y' => &mut self.yneg,
            'Z' => &mut self.zpos,
            _ => &mut self.zneg,
        };
        axflags[axval as usize] = true;
    }

    /// Tells whether the flag of `(axdir, axval)` is raised.
    pub fn has_flag(&self, axdir: Axis, axval: Coord) -> (set: bool)
        requires
            is_axis(axdir),
            axval < self.flags(axdir).len(),
        ensures
            set == self.is_set(axdir, axval),
    {
        let axflags = match axdir {
            'X' => &self.xpos,
            'x' => &self.xneg,
            'Y' => &self.ypos,
            'y' => &self.yneg,
            'Z' => &self.zpos,
            _ => &self.zneg,
        };
        axflags[axval as usize]
    }
}

} // verus!
