//! The search as a mathematical model.
//!
//! The search goes through move sequences by rising length, and through
//! the sequences of one length in the order in which they were made. A
//! sequence that reaches the destination is reported and not prolonged. Any
//! other sequence is prolonged by every move, the axis designators in the
//! order `X x Y y Z z` and for each the coordinates in rising order, except
//! for the moves that one of four rules leaves out:
//!
//! - a move that undoes the move before it;
//! - a move that would be the third equal move in a row;
//! - a move that repeats the move before it, making a half turn, when the
//!   half turn of the same layer in the other sense was already made by a
//!   sequence of the same length;
//! - a move that, with the moves just before it, turns every layer of the
//!   cube once about one axis in one sense, which turns the cube as a
//!   whole.
//!
//! A sequence of moves is written oldest move first throughout.

use vstd::prelude::*;
use crate::brick::Brick;
use crate::cube::bricks_match;
use crate::geometry::Coord;
use crate::moves::{apply_moves, inverted, is_axis, Axis, Move};
use crate::trail::moves_text;

verus! {

/// What a search is given: the bricks of the source cube, those of the
/// destination cube, and the edge length of both.
pub struct Puzzle {
    pub src: Seq<Brick>,
    pub dst: Seq<Brick>,
    pub size: Coord,
}

impl Puzzle {
    /// The largest coordinate of the cubes.
    pub open spec fn axmax(self) -> Coord {
        (self.size - 1) as Coord
    }

    /// The moves of `history`, made oldest first on the source, give bricks
    /// that match those of the destination.
    pub open spec fn reaches(self, history: Seq<Move>) -> bool {
        bricks_match(apply_moves(self.src, history, self.axmax()), self.dst)
    }
}

/// The axis designators in the order in which the search tries them.
pub open spec fn axis_at(a: int) -> Axis {
    if a == 0 {
        'X'
    } else if a == 1 {
        'x'
    } else if a == 2 {
        'Y'
    } else if a == 3 {
        'y'
    } else if a == 4 {
        'Z'
    } else {
        'z'
    }
}

/// The move made `back` moves before the end of `history`: `recent(h, 0)`
/// is the last move.
pub open spec fn recent(history: Seq<Move>, back: int) -> Move {
    history[history.len() - 1 - back]
}

/// The move turns the layer `axval` in the sense of `axdir`.
pub open spec fn turns(m: Move, axdir: Axis, axval: Coord) -> bool {
    m.axdir == axdir && m.axval == axval
}

/// The move `(axdir, axval)` would undo the last move of `history`: the
/// same layer, the other sense.
pub open spec fn undoes_last(history: Seq<Move>, axdir: Axis, axval: Coord) -> bool {
    history.len() > 0 && recent(history, 0).axval == axval && axdir == inverted(
        recent(history, 0).axdir,
    )
}

/// The move `(axdir, axval)` would repeat the last move of `history`: the
/// two make a half turn.
pub open spec fn repeats_last(history: Seq<Move>, axdir: Axis, axval: Coord) -> bool {
    history.len() > 0 && turns(recent(history, 0), axdir, axval)
}

/// The move `(axdir, axval)` would be the third equal move in a row.
pub open spec fn repeats_last_two(history: Seq<Move>, axdir: Axis, axval: Coord) -> bool {
    history.len() > 1 && turns(recent(history, 0), axdir, axval) && turns(
        recent(history, 1),
        axdir,
        axval,
    )
}

/// The move `(axdir, axval)`, with the last `size - 1` moves of `history`,
/// would turn every layer of the cube in the sense of `axdir`: the
/// history is that long, those moves all have the designator `axdir`, and
/// every coordinate below `size` is `axval` or the coordinate of one of
/// them.
pub open spec fn completes_rotation(
    history: Seq<Move>,
    axdir: Axis,
    axval: Coord,
    size: Coord,
) -> bool {
    &&& history.len() >= size - 1
    &&& forall|back: int| 0 <= back < size - 1 ==> (#[trigger] recent(history, back)).axdir == axdir
    &&& forall|v: int|
        0 <= v < size ==> v == axval || #[trigger] turned_recently(history, v, size - 1)
}

/// One of the last `count` moves of `history` has the coordinate `v`.
pub open spec fn turned_recently(history: Seq<Move>, v: int, count: int) -> bool {
    exists|back: int| 0 <= back < count && (#[trigger] recent(history, back)).axval == v
}

/// The state of the search while it goes through the sequences of one
/// length: the prolonged sequences made so far, and the half turns among
/// them, each as the designator and coordinate of its two equal moves.
pub struct Sweep {
    pub next: Seq<Seq<Move>>,
    pub halves: Set<(Axis, Coord)>,
}

impl Sweep {
    /// The state at the start of a length: nothing made yet.
    pub open spec fn start() -> Sweep {
        Sweep { next: Seq::empty(), halves: Set::empty() }
    }
}

/// The search prolongs `history` by the move `(axdir, axval)`: none of the
/// four rules leaves the move out.
pub open spec fn kept(
    history: Seq<Move>,
    axdir: Axis,
    axval: Coord,
    size: Coord,
    halves: Set<(Axis, Coord)>,
) -> bool {
    &&& !undoes_last(history, axdir, axval)
    &&& !repeats_last_two(history, axdir, axval)
    &&& !(repeats_last(history, axdir, axval) && halves.contains((inverted(axdir), axval)))
    &&& !completes_rotation(history, axdir, axval, size)
}

/// The state after the move `(axdir, axval)` was tried on `history`. A
/// move that is kept adds the prolonged sequence, and is noted if it makes
/// a half turn.
pub open spec fn try_move(
    sw: Sweep,
    history: Seq<Move>,
    axdir: Axis,
    axval: Coord,
    size: Coord,
) -> Sweep {
    if kept(history, axdir, axval, size, sw.halves) {
        Sweep {
            next: sw.next.push(history.push(Move::of(axdir, axval))),
            halves: if repeats_last(history, axdir, axval) {
                sw.halves.insert((axdir, axval))
            } else {
                sw.halves
            },
        }
    } else {
        sw
    }
}

/// The state after the moves of `axdir` with the coordinates below `upto`
/// were tried on `history`, in rising order.
pub open spec fn try_coords(
    sw: Sweep,
    history: Seq<Move>,
    axdir: Axis,
    upto: nat,
    size: Coord,
) -> Sweep
    decreases upto,
{
    if upto == 0 {
        sw
    } else {
        try_move(
            try_coords(sw, history, axdir, (upto - 1) as nat, size),
            history,
            axdir,
            (upto - 1) as Coord,
            size,
        )
    }
}

/// The state after all moves of the first `upto` axis designators were
/// tried on `history`.
pub open spec fn try_axes(sw: Sweep, history: Seq<Move>, upto: nat, size: Coord) -> Sweep
    decreases upto,
{
    if upto == 0 {
        sw
    } else {
        try_coords(
            try_axes(sw, history, (upto - 1) as nat, size),
            history,
            axis_at(upto - 1),
            size as nat,
            size,
        )
    }
}

/// The state after every move was tried on `history`.
pub open spec fn prolong(sw: Sweep, history: Seq<Move>, size: Coord) -> Sweep {
    try_axes(sw, history, 6, size)
}

/// The state after the first `upto` sequences of `level` were dealt with:
/// a sequence that reaches the destination is not prolonged, any other is.
pub open spec fn sweep(p: Puzzle, level: Seq<Seq<Move>>, upto: nat) -> Sweep
    decreases upto,
{
    if upto == 0 {
        Sweep::start()
    } else {
        let before = sweep(p, level, (upto - 1) as nat);
        let history = level[upto - 1];
        if p.reaches(history) {
            before
        } else {
            prolong(before, history, p.size)
        }
    }
}

/// The sequences of `depth` moves that the search comes to, in the order
/// in which it makes them.
pub open spec fn level(p: Puzzle, depth: nat) -> Seq<Seq<Move>>
    decreases depth,
{
    if depth == 0 {
        seq![Seq::empty()]
    } else {
        let shorter = level(p, (depth - 1) as nat);
        sweep(p, shorter, shorter.len()).next
    }
}

/// The texts of those among the first `upto` sequences of `level` that
/// reach the destination, in their order.
pub open spec fn hits(p: Puzzle, level: Seq<Seq<Move>>, upto: nat) -> Seq<Seq<char>>
    decreases upto,
{
    if upto == 0 {
        Seq::empty()
    } else {
        let before = hits(p, level, (upto - 1) as nat);
        let history = level[upto - 1];
        if p.reaches(history) {
            before.push(moves_text(history))
        } else {
            before
        }
    }
}

/// The texts of the sequences of at most `depth` moves that the search
/// comes to and that reach the destination: shorter ones first, those of
/// one length in the order in which the search makes them.
pub open spec fn found(p: Puzzle, depth: nat) -> Seq<Seq<char>>
    decreases depth,
{
    let here = hits(p, level(p, depth), level(p, depth).len());
    if depth == 0 {
        here
    } else {
        found(p, (depth - 1) as nat) + here
    }
}

/// The number of sequences of at least one and at most `depth` moves that
/// the search comes to: the number of moves that it makes.
pub open spec fn explored(p: Puzzle, depth: nat) -> nat
    decreases depth,
{
    if depth == 0 {
        0
    } else {
        explored(p, (depth - 1) as nat) + level(p, depth).len()
    }
}

/// Every move of the trail names an axis, has the identity of its
/// designator and coordinate, and turns a layer of a cube of edge length
/// `size`.
pub open spec fn fits(steps: Seq<Move>, size: Coord) -> bool {
    forall|i: int| 0 <= i < steps.len() ==> (#[trigger] steps[i]).wf() && steps[i].axval < size
}

/// No move of the sequence undoes the move before it.
pub open spec fn never_undoes(history: Seq<Move>) -> bool {
    forall|i: int|
        0 <= i < history.len() - 1 ==> !((#[trigger] history[i]).axval == history[i + 1].axval
            && history[i + 1].axdir == inverted(history[i].axdir))
}

/// No three moves in a row of the sequence are the same.
pub open spec fn never_thrice(history: Seq<Move>) -> bool {
    forall|i: int|
        0 <= i < history.len() - 2 ==> !((#[trigger] history[i]) == history[i + 1] && history[i]
            == history[i + 2])
}

/// What holds of every sequence that the search comes to: it has `depth`
/// moves, each a move of a cube of edge length `size` with its identity,
/// none undoes the move before it, and no three in a row are the same.
pub open spec fn well_made(history: Seq<Move>, depth: nat, size: Coord) -> bool {
    &&& history.len() == depth
    &&& fits(history, size)
    &&& never_undoes(history)
    &&& never_thrice(history)
}

/// Every sequence of the collection is well made.
pub open spec fn all_well_made(level: Seq<Seq<Move>>, depth: nat, size: Coord) -> bool {
    forall|j: int| 0 <= j < level.len() ==> well_made(#[trigger] level[j], depth, size)
}

/// Trying a move on a well made sequence adds no sequence that is not
/// well made.
proof fn lemma_try_move_well_made(
    sw: Sweep,
    history: Seq<Move>,
    axdir: Axis,
    axval: Coord,
    size: Coord,
    depth: nat,
)
    requires
        well_made(history, depth, size),
        all_well_made(sw.next, depth + 1, size),
        is_axis(axdir),
        axval < size,
    ensures
        all_well_made(try_move(sw, history, axdir, axval, size).next, depth + 1, size),
{
    let after = try_move(sw, history, axdir, axval, size);
    if kept(history, axdir, axval, size, sw.halves) {
        let longer = history.push(Move::of(axdir, axval));
        assert(well_made(longer, depth + 1, size)) by {
            assert forall|i: int| 0 <= i < longer.len() implies (#[trigger] longer[i]).wf()
                && longer[i].axval < size by {
                if i < history.len() {
                    assert(longer[i] == history[i]);
                }
            }
            assert forall|i: int| 0 <= i < longer.len() - 1 implies !((#[trigger] longer[i]).axval
                == longer[i + 1].axval && longer[i + 1].axdir == inverted(longer[i].axdir)) by {
                if i < history.len() - 1 {
                    assert(longer[i] == history[i]);
                    assert(longer[i + 1] == history[i + 1]);
                } else {
                    assert(longer[i] == recent(history, 0));
                }
            }
            assert forall|i: int| 0 <= i < longer.len() - 2 implies !((#[trigger] longer[i])
                == longer[i + 1] && longer[i] == longer[i + 2]) by {
                if i < history.len() - 2 {
                    assert(longer[i] == history[i]);
                    assert(longer[i + 1] == history[i + 1]);
                    assert(longer[i + 2] == history[i + 2]);
                } else {
                    assert(longer[i] == recent(history, 1));
                    assert(longer[i + 1] == recent(history, 0));
                }
            }
        }
        assert forall|j: int| 0 <= j < after.next.len() implies well_made(
            #[trigger] after.next[j],
            depth + 1,
            size,
        ) by {
            if j < sw.next.len() {
                assert(after.next[j] == sw.next[j]);
            }
        }
    }
}

/// Trying the moves of one axis designator adds no sequence that is not
/// well made.
proof fn lemma_try_coords_well_made(
    sw: Sweep,
    history: Seq<Move>,
    axdir: Axis,
    upto: nat,
    size: Coord,
    depth: nat,
)
    requires
        well_made(history, depth, size),
        all_well_made(sw.next, depth + 1, size),
        is_axis(axdir),
        upto <= size,
    ensures
        all_well_made(try_coords(sw, history, axdir, upto, size).next, depth + 1, size),
    decreases upto,
{
    if upto > 0 {
        lemma_try_coords_well_made(sw, history, axdir, (upto - 1) as nat, size, depth);
        lemma_try_move_well_made(
            try_coords(sw, history, axdir, (upto - 1) as nat, size),
            history,
            axdir,
            (upto - 1) as Coord,
            size,
            depth,
        );
    }
}

/// Trying the moves of some axis designators adds no sequence that is not
/// well made.
proof fn lemma_try_axes_well_made(
    sw: Sweep,
    history: Seq<Move>,
    upto: nat,
    size: Coord,
    depth: nat,
)
    requires
        well_made(history, depth, size),
        all_well_made(sw.next, depth + 1, size),
        upto <= 6,
    ensures
        all_well_made(try_axes(sw, history, upto, size).next, depth + 1, size),
    decreases upto,
{
    if upto > 0 {
        lemma_try_axes_well_made(sw, history, (upto - 1) as nat, size, depth);
        lemma_try_coords_well_made(
            try_axes(sw, history, (upto - 1) as nat, size),
            history,
            axis_at(upto - 1),
            size as nat,
            size,
            depth,
        );
    }
}

/// Going through well made sequences makes well made sequences.
proof fn lemma_sweep_well_made(p: Puzzle, level: Seq<Seq<Move>>, upto: nat, depth: nat)
    requires
        all_well_made(level, depth, p.size),
        upto <= level.len(),
    ensures
        all_well_made(sweep(p, level, upto).next, depth + 1, p.size),
    decreases upto,
{
    if upto > 0 {
        lemma_sweep_well_made(p, level, (upto - 1) as nat, depth);
        lemma_try_axes_well_made(
            sweep(p, level, (upto - 1) as nat),
            level[upto - 1],
            6,
            p.size,
            depth,
        );
    }
}

/// Every sequence of `depth` moves that the search comes to is well made:
/// see [`well_made`].
pub proof fn level_is_well_made(p: Puzzle, depth: nat)
    ensures
        all_well_made(level(p, depth), depth, p.size),
    decreases depth,
{
    if depth > 0 {
        level_is_well_made(p, (depth - 1) as nat);
        let shorter = level(p, (depth - 1) as nat);
        lemma_sweep_well_made(p, shorter, shorter.len(), (depth - 1) as nat);
    }
}

/// Trying more moves of one axis designator takes away no sequence made.
pub proof fn lemma_try_coords_grows(
    sw: Sweep,
    history: Seq<Move>,
    axdir: Axis,
    from: nat,
    to: nat,
    size: Coord,
)
    requires
        from <= to,
    ensures
        try_coords(sw, history, axdir, from, size).next.len() <= try_coords(
            sw,
            history,
            axdir,
            to,
            size,
        ).next.len(),
    decreases to,
{
    if from < to {
        lemma_try_coords_grows(sw, history, axdir, from, (to - 1) as nat, size);
    }
}

/// Trying the moves of more axis designators takes away no sequence
/// made.
pub proof fn lemma_try_axes_grows(sw: Sweep, history: Seq<Move>, from: nat, to: nat, size: Coord)
    requires
        from <= to,
    ensures
        try_axes(sw, history, from, size).next.len() <= try_axes(sw, history, to, size).next.len(),
    decreases to,
{
    if from < to {
        lemma_try_axes_grows(sw, history, from, (to - 1) as nat, size);
        lemma_try_coords_grows(
            try_axes(sw, history, (to - 1) as nat, size),
            history,
            axis_at(to - 1),
            0,
            size as nat,
            size,
        );
    }
}

/// Going further through a level takes away no sequence made.
pub proof fn lemma_sweep_grows(p: Puzzle, level: Seq<Seq<Move>>, from: nat, to: nat)
    requires
        from <= to,
    ensures
        sweep(p, level, from).next.len() <= sweep(p, level, to).next.len(),
    decreases to,
{
    if from < to {
        lemma_sweep_grows(p, level, from, (to - 1) as nat);
        lemma_try_axes_grows(sweep(p, level, (to - 1) as nat), level[to - 1], 0, 6, p.size);
    }
}

/// A search with a larger bound makes no fewer moves.
pub proof fn lemma_explored_grows(p: Puzzle, from: nat, to: nat)
    requires
        from <= to,
    ensures
        explored(p, from) <= explored(p, to),
    decreases to,
{
    if from < to {
        lemma_explored_grows(p, from, (to - 1) as nat);
    }
}

/// Once the search comes to no sequence of some length, it comes to none
/// that is longer, and finds and explores nothing more.
pub proof fn nothing_after_empty_level(p: Puzzle, depth: nat, bound: nat)
    requires
        depth < bound,
        level(p, depth + 1).len() == 0,
    ensures
        level(p, bound).len() == 0,
        found(p, bound) == found(p, depth),
        explored(p, bound) == explored(p, depth),
    decreases bound,
{
    if bound > depth + 1 {
        nothing_after_empty_level(p, depth, (bound - 1) as nat);
    }
}

} // verus!
