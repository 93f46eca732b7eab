//! The cube: an edge length and the bricks on its surface.

use vstd::prelude::*;
use vstd::std_specs::cmp::PartialEqSpecImpl;
use crate::brick::Brick;
use crate::geometry::{Coord, Loc};
use crate::moves::{
    all_have_axis,
    all_within,
    apply_moves,
    brickvec_move,
    inverted,
    is_axis,
    lemma_apply_moves_within,
    move_then_reverse_restores,
    moved,
    moved_brick,
    Axis,
    Move,
};

verus! {

/// The place of a position in the order in which the bricks of a new cube
/// are laid out: by `z`, then by `y`, then by `x`.
pub open spec fn rank(loc: Loc) -> int {
    loc.z * 65536 + loc.y * 256 + loc.x
}

/// Some brick of the collection is at `loc`.
pub open spec fn has_brick_at(bricks: Seq<Brick>, loc: Loc) -> bool {
    exists|i: int| 0 <= i < bricks.len() && (#[trigger] bricks[i]).curLoc == loc
}

/// The bricks are those of a cube's surface: each one is on the surface of
/// the cube with largest coordinate `axmax`, no two are in the same place,
/// and every place on the surface has its brick.
pub open spec fn is_surface(bricks: Seq<Brick>, axmax: Coord) -> bool {
    &&& forall|i: int|
        0 <= i < bricks.len() ==> (#[trigger] bricks[i]).curLoc.within(axmax)
            && bricks[i].curLoc.on_surface(axmax)
    &&& forall|i: int, j: int|
        0 <= i < j < bricks.len() ==> (#[trigger] bricks[i]).curLoc != (#[trigger] bricks[j]).curLoc
    &&& forall|loc: Loc|
        loc.within(axmax) && loc.on_surface(axmax) ==> #[trigger] has_brick_at(bricks, loc)
}

/// The number of places on the surface of a cube of edge length `size`:
/// all places of the cube but those of the cube inside it, which is
/// shorter by two.
pub open spec fn surface_cells(size: Coord) -> int {
    if size < 2 {
        size * size * size
    } else {
        size * size * size - (size - 2) * (size - 2) * (size - 2)
    }
}

/// The coordinate is the least or the largest of a cube of edge length
/// `size`.
spec fn at_edge(c: int, size: int) -> bool {
    c == 0 || c == size - 1
}

/// The number of places on the surface in the row `(y, z)` with a
/// coordinate `x` below `upto`.
spec fn cells_in_row(size: int, z: int, y: int, upto: int) -> int {
    if at_edge(z, size) || at_edge(y, size) {
        upto
    } else {
        (if upto > 0 {
            1int
        } else {
            0int
        }) + (if upto == size {
            1int
        } else {
            0int
        })
    }
}

/// The number of places on the surface in the layer `z` with a coordinate
/// `y` below `upto`.
spec fn cells_in_layer(size: int, z: int, upto: int) -> int {
    if at_edge(z, size) {
        upto * size
    } else if upto == 0 {
        0
    } else if upto < size {
        size + 2 * (upto - 1)
    } else {
        4 * size - 4
    }
}

/// The number of places on the surface with a coordinate `z` below `upto`.
spec fn cells_in_layers(size: int, upto: int) -> int {
    if upto == 0 {
        0
    } else if upto < size {
        size * size + (upto - 1) * (4 * size - 4)
    } else if size == 1 {
        1
    } else {
        2 * (size * size) + (size - 2) * (4 * size - 4)
    }
}

/// The row `(y, z)` is counted: its places add up to what the layer has
/// below `y + 1`.
proof fn lemma_row_counted(size: int, z: int, y: int)
    requires
        1 <= size,
        0 <= z < size,
        0 <= y < size,
    ensures
        cells_in_layer(size, z, y) + cells_in_row(size, z, y, size) == cells_in_layer(
            size,
            z,
            y + 1,
        ),
{
    if at_edge(z, size) {
        assert((y + 1) * size == y * size + size) by (nonlinear_arith);
    }
}

/// The layer `z` is counted: its places add up to what the layers have
/// below `z + 1`.
proof fn lemma_layer_counted(size: int, z: int)
    requires
        1 <= size,
        0 <= z < size,
    ensures
        cells_in_layers(size, z) + cells_in_layer(size, z, size) == cells_in_layers(size, z + 1),
{
    if at_edge(z, size) {
        assert(1 * 1 == 1) by (nonlinear_arith);
        assert(size == 1 ==> size * size == 1) by (nonlinear_arith);
    } else {
        assert(z * (4 * size - 4) == (z - 1) * (4 * size - 4) + (4 * size - 4))
            by (nonlinear_arith);
    }
}

/// All layers counted give the number of places on the surface.
proof fn lemma_layers_counted(size: Coord)
    requires
        1 <= size,
    ensures
        cells_in_layers(size as int, size as int) == surface_cells(size),
{
    let n = size as int;
    if n >= 2 {
        assert(2 * (n * n) + (n - 2) * (4 * n - 4) == n * n * n - (n - 2) * (n - 2) * (n - 2))
            by (nonlinear_arith);
    } else {
        assert(n * n * n == 1) by (nonlinear_arith)
            requires
                n == 1,
        ;
    }
}

/// The bricks with a place below `bound` in the layout order of a new
/// cube: ordered bricks on the surface, laid out by rising rank, none of
/// them missing.
pub open spec fn is_ordered_below(bricks: Seq<Brick>, axmax: Coord, bound: int) -> bool {
    &&& forall|i: int|
        0 <= i < bricks.len() ==> {
            let b = #[trigger] bricks[i];
            &&& b == Brick::ordered_at(b.curLoc)
            &&& b.curLoc.within(axmax)
            &&& b.curLoc.on_surface(axmax)
            &&& rank(b.curLoc) < bound
        }
    &&& forall|i: int, j: int|
        0 <= i < j < bricks.len() ==> rank((#[trigger] bricks[i]).curLoc) < rank(
            (#[trigger] bricks[j]).curLoc,
        )
    &&& forall|loc: Loc|
        loc.within(axmax) && loc.on_surface(axmax) && rank(loc) < bound ==> #[trigger] has_brick_at(
            bricks,
            loc,
        )
}

/// The bricks of a cube of edge length `size` in its ordered state: one
/// ordered brick for every place on the surface, laid out by rising rank.
/// There is one such sequence for each size.
pub open spec fn is_ordered_state(bricks: Seq<Brick>, size: Coord) -> bool {
    is_ordered_below(bricks, (size - 1) as Coord, size * 65536)
}

/// The two collections have the same length, and bricks in the same place
/// match: see [`Brick::matches`].
pub open spec fn bricks_match(lhs: Seq<Brick>, rhs: Seq<Brick>) -> bool {
    &&& lhs.len() == rhs.len()
    &&& forall|i: int| 0 <= i < lhs.len() ==> (#[trigger] lhs[i]).matches(rhs[i])
}

/// Tells whether two collections of bricks show the same state: the same
/// number of bricks, and each brick with the position and the three
/// positive-facing colours of the brick in the same place of the other.
pub fn brickvec_eq(lhs: &[Brick], rhs: &[Brick]) -> (same: bool)
    ensures
        same == bricks_match(lhs@, rhs@),
{
    let len = lhs.len();
    if rhs.len() != len {
        return false;
    }
    let mut ind: usize = 0;
    while ind < len
        invariant
            len == lhs@.len(),
            len == rhs@.len(),
            ind <= len,
            forall|i: int| 0 <= i < ind ==> (#[trigger] lhs@[i]).matches(rhs@[i]),
        decreases len - ind,
    {
        if lhs[ind] != rhs[ind] {
            return false;
        }
        ind += 1;
    }
    true
}

/// A cube puzzle of a given edge length.
///
/// `==` on this type compares the edge lengths and, brick by brick, what
/// [`brickvec_eq`] compares.
#[derive(Clone, Debug, Eq)]
pub struct Cube {
    pub size: Coord,
    pub bricks: Vec<Brick>,
}

impl PartialEq for Cube {
    fn eq(&self, other: &Cube) -> (r: bool) {
        self.size == other.size && brickvec_eq(self.bricks.as_slice(), other.bricks.as_slice())
    }
}

impl PartialEqSpecImpl for Cube {
    open spec fn obeys_eq_spec() -> bool {
        true
    }

    open spec fn eq_spec(&self, other: &Cube) -> bool {
        self.size == other.size && bricks_match(self.bricks@, other.bricks@)
    }
}

impl Cube {
    /// The largest coordinate of the cube.
    pub open spec fn axmax(&self) -> Coord {
        (self.size - 1) as Coord
    }

    /// The edge length is between 1 and 10, and the bricks are those of
    /// the cube's surface, as many as the surface has places.
    pub open spec fn wf(&self) -> bool {
        &&& 1 <= self.size <= 10
        &&& self.bricks@.len() == surface_cells(self.size)
        &&& is_surface(self.bricks@, self.axmax())
    }

    /// A cube of the given edge length in its ordered state.
    pub fn new(size: Coord) -> (cube: Cube)
        requires
            0 < size < 11,
        ensures
            cube.size == size,
            cube.bricks@.len() == surface_cells(size),
            is_ordered_state(cube.bricks@, size),
            cube.wf(),
    {
        let axmax = size - 1;
        let mut bricks: Vec<Brick> = Vec::new();
        let mut z: Coord = 0;
        while z < size
            invariant
                0 < size < 11,
                axmax == size - 1,
                z <= size,
                is_ordered_below(bricks@, axmax, z * 65536),
                bricks@.len() == cells_in_layers(size as int, z as int),
            decreases size - z,
        {
            let mut y: Coord = 0;
            while y < size
                invariant
                    0 < size < 11,
                    axmax == size - 1,
                    z < size,
                    y <= size,
                    is_ordered_below(bricks@, axmax, z * 65536 + y * 256),
                    bricks@.len() == cells_in_layers(size as int, z as int) + cells_in_layer(
                        size as int,
                        z as int,
                        y as int,
                    ),
                decreases size - y,
            {
                let mut x: Coord = 0;
                while x < size
                    invariant
                        0 < size < 11,
                        axmax == size - 1,
                        z < size,
                        y < size,
                        x <= size,
                        is_ordered_below(bricks@, axmax, z * 65536 + y * 256 + x),
                        bricks@.len() == cells_in_layers(size as int, z as int) + cells_in_layer(
                            size as int,
                            z as int,
                            y as int,
                        ) + cells_in_row(size as int, z as int, y as int, x as int),
                    decreases size - x,
                {
                    // Only the bricks that take part in the surface are kept.
                    if x == 0 || x == axmax || y == 0 || y == axmax || z == 0 || z == axmax {
                        let brick = Brick::new(x, y, z);
                        proof {
                            lemma_ordered_push(bricks@, axmax, brick);
                        }
                        bricks.push(brick);
                    } else {
                        proof {
                            lemma_ordered_skip(bricks@, axmax, Loc { x, y, z });
                        }
                    }
                    x += 1;
                }
                proof {
                    lemma_ordered_widen(
                        bricks@,
                        axmax,
                        z * 65536 + y * 256 + size,
                        z * 65536 + (y + 1) * 256,
                    );
                    lemma_row_counted(size as int, z as int, y as int);
                }
                y += 1;
            }
            proof {
                lemma_ordered_widen(bricks@, axmax, z * 65536 + size * 256, (z + 1) * 65536);
                lemma_layer_counted(size as int, z as int);
            }
            z += 1;
        }
        proof {
            lemma_ordered_is_surface(bricks@, size);
            lemma_layers_counted(size);
        }
        Cube { size: size, bricks: bricks }
    }

    /// Makes the given moves on a copy of the cube, in the order given,
    /// and returns the copy in the resulting state.
    pub fn copy_with_moves(&self, moves: &[Move]) -> (cube: Cube)
        requires
            self.wf(),
            all_have_axis(moves@),
        ensures
            cube.size == self.size,
            cube.bricks@ == apply_moves(self.bricks@, moves@, self.axmax()),
            cube.bricks@.len() == self.bricks@.len(),
            cube.wf(),
    {
        let size = self.size;
        let axmax = size - 1;
        let mut bricks = self.bricks.clone();
        let mut ind: usize = 0;
        while ind < moves.len()
            invariant
                ind <= moves@.len(),
                all_have_axis(moves@),
                all_within(bricks@, axmax),
                bricks@ == apply_moves(self.bricks@, moves@.take(ind as int), axmax),
            decreases moves@.len() - ind,
        {
            let mov = &moves[ind];
            proof {
                let upto = moves@.take(ind as int + 1);
                assert(upto.drop_last() =~= moves@.take(ind as int));
            }
            bricks = brickvec_move(bricks.as_slice(), mov.axdir, mov.axval, axmax);
            ind += 1;
        }
        proof {
            assert(moves@.take(ind as int) =~= moves@);
            lemma_moves_keep_surface(self.bricks@, moves@, axmax);
            lemma_apply_moves_within(self.bricks@, moves@, axmax);
        }
        Cube { size: size, bricks: bricks }
    }
}

/// A move of a layer followed by the move of the same layer in the other
/// sense leaves a cube as it was: every brick is back in its position, with
/// all six colours as before.
pub proof fn move_then_reverse_restores_cube(cube: Cube, m: Move)
    requires
        cube.wf(),
        m.has_axis(),
    ensures
        apply_moves(cube.bricks@, seq![m, m.reversed()], cube.axmax()) == cube.bricks@,
{
    let axmax = cube.axmax();
    let both = seq![m, m.reversed()];
    let first = both.drop_last();
    assert(apply_moves(cube.bricks@, first.drop_last(), axmax) == cube.bricks@);
    assert(apply_moves(cube.bricks@, first, axmax) == moved(cube.bricks@, m.axdir, m.axval, axmax));
    move_then_reverse_restores(cube.bricks@, m.axdir, m.axval, axmax);
}

/// Adding the ordered brick at the next place of the layout order.
proof fn lemma_ordered_push(bricks: Seq<Brick>, axmax: Coord, brick: Brick)
    requires
        is_ordered_below(bricks, axmax, rank(brick.curLoc)),
        brick == Brick::ordered_at(brick.curLoc),
        brick.curLoc.within(axmax),
        brick.curLoc.on_surface(axmax),
    ensures
        is_ordered_below(bricks.push(brick), axmax, rank(brick.curLoc) + 1),
{
    let more = bricks.push(brick);
    let bound = rank(brick.curLoc) + 1;
    assert forall|loc: Loc|
        loc.within(axmax) && loc.on_surface(axmax) && rank(loc)
            < bound implies #[trigger] has_brick_at(more, loc) by {
        if rank(loc) < rank(brick.curLoc) {
            assert(has_brick_at(bricks, loc));
            let i = choose|i: int| 0 <= i < bricks.len() && (#[trigger] bricks[i]).curLoc == loc;
            assert(more[i].curLoc == loc);
        } else {
            assert(loc == brick.curLoc);
            assert(more[bricks.len() as int].curLoc == loc);
        }
    }
}

/// Passing over a place of the layout order that is not on the surface.
proof fn lemma_ordered_skip(bricks: Seq<Brick>, axmax: Coord, loc: Loc)
    requires
        is_ordered_below(bricks, axmax, rank(loc)),
        !loc.on_surface(axmax),
    ensures
        is_ordered_below(bricks, axmax, rank(loc) + 1),
{
    assert forall|other: Loc|
        other.within(axmax) && other.on_surface(axmax) && rank(other) < rank(loc)
            + 1 implies #[trigger] has_brick_at(bricks, other) by {
        assert(other != loc);
        assert(rank(other) != rank(loc));
    }
}

/// Raising the bound over ranks that no place inside the cube has.
proof fn lemma_ordered_widen(bricks: Seq<Brick>, axmax: Coord, from: int, to: int)
    requires
        is_ordered_below(bricks, axmax, from),
        from <= to,
        forall|loc: Loc| loc.within(axmax) && rank(loc) < to ==> rank(loc) < from,
    ensures
        is_ordered_below(bricks, axmax, to),
{
}

/// The bricks of the ordered state are those of the cube's surface.
proof fn lemma_ordered_is_surface(bricks: Seq<Brick>, size: Coord)
    requires
        1 <= size <= 10,
        is_ordered_state(bricks, size),
    ensures
        is_surface(bricks, (size - 1) as Coord),
{
    let axmax = (size - 1) as Coord;
    assert forall|loc: Loc|
        loc.within(axmax) && loc.on_surface(axmax) implies #[trigger] has_brick_at(bricks, loc) by {
        assert(rank(loc) < size * 65536);
    }
}

/// A move takes the bricks of a cube's surface to the bricks of a cube's
/// surface.
pub proof fn lemma_move_keeps_surface(bricks: Seq<Brick>, axdir: Axis, axval: Coord, axmax: Coord)
    requires
        is_axis(axdir),
        is_surface(bricks, axmax),
    ensures
        is_surface(moved(bricks, axdir, axval, axmax), axmax),
{
    let after = moved(bricks, axdir, axval, axmax);
    assert forall|i: int, j: int| 0 <= i < j < after.len() implies (#[trigger] after[i]).curLoc != (
    #[trigger] after[j]).curLoc by {
        assert(bricks[i].curLoc != bricks[j].curLoc);
        assert(bricks[i].curLoc.within(axmax));
        assert(bricks[j].curLoc.within(axmax));
    }
    assert forall|loc: Loc|
        loc.within(axmax) && loc.on_surface(axmax) implies #[trigger] has_brick_at(after, loc) by {
        let back = moved_brick(Brick::ordered_at(loc), inverted(axdir), axval, axmax).curLoc;
        assert(back.within(axmax) && back.on_surface(axmax));
        assert(has_brick_at(bricks, back));
        let i = choose|i: int| 0 <= i < bricks.len() && (#[trigger] bricks[i]).curLoc == back;
        assert(after[i].curLoc == loc);
    }
    assert forall|i: int| 0 <= i < after.len() implies (#[trigger] after[i]).curLoc.within(axmax)
        && after[i].curLoc.on_surface(axmax) by {
        assert(bricks[i].curLoc.within(axmax) && bricks[i].curLoc.on_surface(axmax));
    }
}

/// A sequence of moves takes the bricks of a cube's surface to the bricks
/// of a cube's surface.
pub proof fn lemma_moves_keep_surface(bricks: Seq<Brick>, moves: Seq<Move>, axmax: Coord)
    requires
        all_have_axis(moves),
        is_surface(bricks, axmax),
    ensures
        is_surface(apply_moves(bricks, moves, axmax), axmax),
    decreases moves.len(),
{
    if moves.len() > 0 {
        let init = moves.drop_last();
        assert(all_have_axis(init)) by {
            assert forall|i: int| 0 <= i < init.len() implies (#[trigger] init[i]).has_axis() by {
                assert(moves[i].has_axis());
            }
        }
        lemma_moves_keep_surface(bricks, init, axmax);
        let last = moves.last();
        assert(last.has_axis());
        lemma_move_keeps_surface(apply_moves(bricks, init, axmax), last.axdir, last.axval, axmax);
    }
}

} // verus!
