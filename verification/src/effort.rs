//! How many moves a search can make.
//!
//! A sequence is prolonged by at most one move for each axis designator and
//! coordinate, so the number of sequences of a given length is bounded by a
//! power of six times the edge length.

use vstd::prelude::*;
use vstd::arithmetic::mul::{lemma_mul_inequality, lemma_mul_is_commutative};
use crate::geometry::Coord;
use crate::moves::{Axis, Move};
use crate::model::{axis_at, explored, level, sweep, try_axes, try_coords, Puzzle, Sweep};

verus! {

/// The number of moves that there are on a cube of edge length `size`.
pub open spec fn fan_out(size: Coord) -> nat {
    6 * size as nat
}

/// A bound on the number of sequences of `depth` moves: `fan_out(size)` to
/// the power of `depth`.
pub open spec fn widest(size: Coord, depth: nat) -> nat
    decreases depth,
{
    if depth == 0 {
        1
    } else {
        fan_out(size) * widest(size, (depth - 1) as nat)
    }
}

/// A bound on the number of sequences of at least one and at most `depth`
/// moves.
pub open spec fn most_explored(size: Coord, depth: nat) -> nat
    decreases depth,
{
    if depth == 0 {
        0
    } else {
        most_explored(size, (depth - 1) as nat) + widest(size, depth)
    }
}

proof fn lemma_try_coords_adds(
    sw: Sweep,
    history: Seq<Move>,
    axdir: Axis,
    upto: nat,
    size: Coord,
)
    ensures
        try_coords(sw, history, axdir, upto, size).next.len() <= sw.next.len() + upto,
    decreases upto,
{
    if upto > 0 {
        lemma_try_coords_adds(sw, history, axdir, (upto - 1) as nat, size);
    }
}

proof fn lemma_try_axes_adds(sw: Sweep, history: Seq<Move>, upto: nat, size: Coord)
    ensures
        try_axes(sw, history, upto, size).next.len() <= sw.next.len() + upto * size,
    decreases upto,
{
    if upto > 0 {
        lemma_try_axes_adds(sw, history, (upto - 1) as nat, size);
        lemma_try_coords_adds(
            try_axes(sw, history, (upto - 1) as nat, size),
            history,
            axis_at(upto - 1),
            size as nat,
            size,
        );
        assert((upto - 1) * size + size == upto * size) by (nonlinear_arith);
    }
}

proof fn lemma_sweep_adds(p: Puzzle, level: Seq<Seq<Move>>, upto: nat)
    ensures
        sweep(p, level, upto).next.len() <= upto * fan_out(p.size),
    decreases upto,
{
    if upto > 0 {
        lemma_sweep_adds(p, level, (upto - 1) as nat);
        lemma_try_axes_adds(sweep(p, level, (upto - 1) as nat), level[upto - 1], 6, p.size);
        assert((upto - 1) * fan_out(p.size) + 6 * p.size == upto * fan_out(p.size))
            by (nonlinear_arith)
            requires
                fan_out(p.size) == 6 * p.size,
        ;
    } else {
        assert(0 * fan_out(p.size) == 0);
    }
}

/// The search comes to at most `widest(p.size, depth)` sequences of
/// `depth` moves.
pub proof fn level_is_bounded(p: Puzzle, depth: nat)
    ensures
        level(p, depth).len() <= widest(p.size, depth),
    decreases depth,
{
    if depth > 0 {
        let shorter = level(p, (depth - 1) as nat);
        level_is_bounded(p, (depth - 1) as nat);
        lemma_sweep_adds(p, shorter, shorter.len());
        lemma_mul_inequality(
            shorter.len() as int,
            widest(p.size, (depth - 1) as nat) as int,
            fan_out(p.size) as int,
        );
        lemma_mul_is_commutative(
            widest(p.size, (depth - 1) as nat) as int,
            fan_out(p.size) as int,
        );
    }
}

/// The search makes at most `most_explored(p.size, bound)` moves.
pub proof fn explored_is_bounded(p: Puzzle, bound: nat)
    ensures
        explored(p, bound) <= most_explored(p.size, bound),
    decreases bound,
{
    if bound > 0 {
        explored_is_bounded(p, (bound - 1) as nat);
        level_is_bounded(p, bound);
    }
}

proof fn lemma_widest_rises(size: Coord, depth: nat)
    requires
        size <= 10,
    ensures
        widest(size, depth) <= widest(10, depth),
    decreases depth,
{
    if depth > 0 {
        lemma_widest_rises(size, (depth - 1) as nat);
        let less = widest(size, (depth - 1) as nat) as int;
        let more = widest(10, (depth - 1) as nat) as int;
        lemma_mul_inequality(less, more, fan_out(size) as int);
        lemma_mul_is_commutative(less, fan_out(size) as int);
        lemma_mul_is_commutative(more, fan_out(size) as int);
        lemma_mul_inequality(fan_out(size) as int, 60, more);
    }
}

proof fn lemma_most_explored_rises(size: Coord, depth: nat, bound: nat)
    requires
        size <= 10,
        depth <= bound,
    ensures
        most_explored(size, depth) <= most_explored(10, bound),
    decreases bound,
{
    if depth < bound {
        lemma_most_explored_rises(size, depth, (bound - 1) as nat);
    } else if depth > 0 {
        lemma_most_explored_rises(size, (depth - 1) as nat, (bound - 1) as nat);
        lemma_widest_rises(size, depth);
    }
}

/// A search for sequences of at most ten moves on a cube of edge length
/// at most ten makes fewer than `2^64` moves, so that its count fits the
/// result of [`crate::search::find_moves`].
pub proof fn ten_moves_can_be_counted(p: Puzzle, bound: nat)
    requires
        p.size <= 10,
        bound <= 10,
    ensures
        explored(p, bound) <= 614_910_264_406_779_660,
        explored(p, bound) <= u64::MAX,
{
    explored_is_bounded(p, bound);
    lemma_most_explored_rises(p.size, bound, 10);
    assert(widest(10, 0) == 1);
    assert(widest(10, 1) == 60);
    assert(widest(10, 2) == 3_600);
    assert(widest(10, 3) == 216_000);
    assert(widest(10, 4) == 12_960_000);
    assert(widest(10, 5) == 777_600_000);
    assert(widest(10, 6) == 46_656_000_000);
    assert(widest(10, 7) == 2_799_360_000_000);
    assert(widest(10, 8) == 167_961_600_000_000);
    assert(widest(10, 9) == 10_077_696_000_000_000);
    assert(widest(10, 10) == 604_661_760_000_000_000);
    assert(most_explored(10, 0) == 0);
    assert(most_explored(10, 1) == 60);
    assert(most_explored(10, 2) == 3_660);
    assert(most_explored(10, 3) == 219_660);
    assert(most_explored(10, 4) == 13_179_660);
    assert(most_explored(10, 5) == 790_779_660);
    assert(most_explored(10, 6) == 47_446_779_660);
    assert(most_explored(10, 7) == 2_846_806_779_660);
    assert(most_explored(10, 8) == 170_808_406_779_660);
    assert(most_explored(10, 9) == 10_248_504_406_779_660);
    assert(most_explored(10, 10) == 614_910_264_406_779_660);
}

/// On the empty sequence every move of one axis designator is kept, on a
/// cube of edge length two or more.
proof fn lemma_first_coords_add(sw: Sweep, axdir: Axis, upto: nat, size: Coord)
    requires
        2 <= size,
    ensures
        try_coords(sw, Seq::empty(), axdir, upto, size).next.len() == sw.next.len() + upto,
    decreases upto,
{
    if upto > 0 {
        lemma_first_coords_add(sw, axdir, (upto - 1) as nat, size);
    }
}

/// On the empty sequence every move is kept, on a cube of edge length two
/// or more.
proof fn lemma_first_axes_add(sw: Sweep, upto: nat, size: Coord)
    requires
        2 <= size,
    ensures
        try_axes(sw, Seq::empty(), upto, size).next.len() == sw.next.len() + upto * size,
    decreases upto,
{
    if upto > 0 {
        lemma_first_axes_add(sw, (upto - 1) as nat, size);
        lemma_first_coords_add(
            try_axes(sw, Seq::empty(), (upto - 1) as nat, size),
            axis_at(upto - 1),
            size as nat,
            size,
        );
        assert((upto - 1) * size + size == upto * size) by (nonlinear_arith);
    } else {
        assert(0 * size == 0);
    }
}

/// A search for one move on a cube of edge length two or more, from a
/// source that does not match the destination, makes every move there is:
/// six times the edge length.
pub proof fn first_moves_are_all_made(p: Puzzle)
    requires
        2 <= p.size,
        !p.reaches(Seq::empty()),
    ensures
        level(p, 1).len() == fan_out(p.size),
        explored(p, 1) == fan_out(p.size),
{
    let first = level(p, 0);
    assert(first[0] == Seq::<Move>::empty());
    assert(sweep(p, first, 0) == Sweep::start());
    lemma_first_axes_add(Sweep::start(), 6, p.size);
    assert(sweep(p, first, 1) == try_axes(Sweep::start(), Seq::empty(), 6, p.size));
    assert(explored(p, 0) == 0);
}

} // verus!
