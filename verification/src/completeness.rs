//! What the search does not miss.
//!
//! Three of the four rules by which the search leaves moves out look at
//! the sequence alone. The fourth, on half turns, looks at what the search
//! made before. A sequence in which no move repeats the move before it
//! makes no half turn, so that only the three rules bear on it: the search
//! comes to every such sequence that they allow, and finds it if it
//! reaches the destination.

use vstd::prelude::*;
use crate::geometry::Coord;
use crate::model::{
    axis_at,
    completes_rotation,
    found,
    hits,
    kept,
    level,
    prolong,
    repeats_last,
    sweep,
    try_axes,
    try_coords,
    try_move,
    undoes_last,
    Puzzle,
    Sweep,
};
use crate::moves::{Axis, Move};
use crate::trail::moves_text;

verus! {

/// The move at the place `i` of the sequence is a move of a cube of edge
/// length `size`, with its identity, that the rules allow after the moves
/// before it, whatever half turns the search has made: it neither undoes
/// nor repeats the move before it, and it does not complete a turn of the
/// whole cube.
pub open spec fn plain_at(history: Seq<Move>, i: int, size: Coord) -> bool {
    let before = history.take(i);
    let m = history[i];
    &&& m.wf()
    &&& m.axval < size
    &&& !undoes_last(before, m.axdir, m.axval)
    &&& !repeats_last(before, m.axdir, m.axval)
    &&& !completes_rotation(before, m.axdir, m.axval, size)
}

/// Every move of the sequence is allowed after the moves before it: see
/// [`plain_at`].
pub open spec fn plain(history: Seq<Move>, size: Coord) -> bool {
    forall|i: int| 0 <= i < history.len() ==> #[trigger] plain_at(history, i, size)
}

/// The sequence does not reach the destination before its last move.
pub open spec fn arrives_last(p: Puzzle, history: Seq<Move>) -> bool {
    forall|i: int| 0 <= i < history.len() ==> !p.reaches(#[trigger] history.take(i))
}

proof fn lemma_try_coords_keeps(
    sw: Sweep,
    history: Seq<Move>,
    axdir: Axis,
    from: nat,
    to: nat,
    size: Coord,
    member: Seq<Move>,
)
    requires
        from <= to,
        try_coords(sw, history, axdir, from, size).next.contains(member),
    ensures
        try_coords(sw, history, axdir, to, size).next.contains(member),
    decreases to,
{
    if from < to {
        lemma_try_coords_keeps(sw, history, axdir, from, (to - 1) as nat, size, member);
        let before = try_coords(sw, history, axdir, (to - 1) as nat, size);
        let after = try_coords(sw, history, axdir, to, size);
        let i = choose|i: int| 0 <= i < before.next.len() && before.next[i] == member;
        assert(after.next[i] == member);
    }
}

proof fn lemma_try_axes_keeps(
    sw: Sweep,
    history: Seq<Move>,
    from: nat,
    to: nat,
    size: Coord,
    member: Seq<Move>,
)
    requires
        from <= to,
        try_axes(sw, history, from, size).next.contains(member),
    ensures
        try_axes(sw, history, to, size).next.contains(member),
    decreases to,
{
    if from < to {
        lemma_try_axes_keeps(sw, history, from, (to - 1) as nat, size, member);
        lemma_try_coords_keeps(
            try_axes(sw, history, (to - 1) as nat, size),
            history,
            axis_at(to - 1),
            0,
            size as nat,
            size,
            member,
        );
    }
}

proof fn lemma_sweep_keeps(
    p: Puzzle,
    level: Seq<Seq<Move>>,
    from: nat,
    to: nat,
    member: Seq<Move>,
)
    requires
        from <= to,
        sweep(p, level, from).next.contains(member),
    ensures
        sweep(p, level, to).next.contains(member),
    decreases to,
{
    if from < to {
        lemma_sweep_keeps(p, level, from, (to - 1) as nat, member);
        lemma_try_axes_keeps(
            sweep(p, level, (to - 1) as nat),
            level[to - 1],
            0,
            6,
            p.size,
            member,
        );
    }
}

/// Prolonging a sequence makes the sequence with one more move, for every
/// move that neither undoes nor repeats the last one and completes no turn
/// of the whole cube.
proof fn lemma_prolong_makes(sw: Sweep, history: Seq<Move>, m: Move, size: Coord)
    requires
        m.wf(),
        m.axval < size,
        !undoes_last(history, m.axdir, m.axval),
        !repeats_last(history, m.axdir, m.axval),
        !completes_rotation(history, m.axdir, m.axval, size),
    ensures
        prolong(sw, history, size).next.contains(history.push(m)),
{
    let a: nat = if m.axdir == 'X' {
        0
    } else if m.axdir == 'x' {
        1
    } else if m.axdir == 'Y' {
        2
    } else if m.axdir == 'y' {
        3
    } else if m.axdir == 'Z' {
        4
    } else {
        5
    };
    assert(axis_at(a as int) == m.axdir);
    let base = try_axes(sw, history, a, size);
    let before = try_coords(base, history, m.axdir, m.axval as nat, size);
    let after = try_coords(base, history, m.axdir, (m.axval + 1) as nat, size);
    assert(after == try_move(before, history, m.axdir, m.axval, size));
    assert(kept(history, m.axdir, m.axval, size, before.halves));
    assert(Move::of(m.axdir, m.axval) == m);
    assert(after.next[before.next.len() as int] == history.push(m));
    lemma_try_coords_keeps(
        base,
        history,
        m.axdir,
        (m.axval + 1) as nat,
        size as nat,
        size,
        history.push(m),
    );
    assert(try_axes(sw, history, a + 1, size) == try_coords(
        base,
        history,
        axis_at(a as int),
        size as nat,
        size,
    ));
    lemma_try_axes_keeps(sw, history, a + 1, 6, size, history.push(m));
}

/// The search comes to every sequence of moves that the three rules on
/// the sequence alone allow, that makes no half turn, and that does not
/// reach the destination before its last move.
pub proof fn plain_sequences_are_searched(p: Puzzle, history: Seq<Move>)
    requires
        plain(history, p.size),
        arrives_last(p, history),
    ensures
        level(p, history.len()).contains(history),
    decreases history.len(),
{
    if history.len() == 0 {
        assert(level(p, 0)[0] =~= history);
    } else {
        let n = (history.len() - 1) as nat;
        let shorter = history.drop_last();
        let m = history.last();
        assert(shorter =~= history.take(n as int));
        assert forall|i: int| 0 <= i < shorter.len() implies #[trigger] plain_at(
            shorter,
            i,
            p.size,
        ) by {
            assert(plain_at(history, i, p.size));
            assert(shorter.take(i) =~= history.take(i));
        }
        assert forall|i: int| 0 <= i < shorter.len() implies !p.reaches(
            #[trigger] shorter.take(i),
        ) by {
            assert(shorter.take(i) =~= history.take(i));
        }
        plain_sequences_are_searched(p, shorter);
        let lev = level(p, n);
        let j = choose|j: int| 0 <= j < lev.len() && lev[j] == shorter;
        assert(plain_at(history, n as int, p.size));
        assert(!p.reaches(history.take(n as int)));
        assert(shorter.push(m) =~= history);
        lemma_prolong_makes(sweep(p, lev, j as nat), shorter, m, p.size);
        assert(sweep(p, lev, (j + 1) as nat) == prolong(sweep(p, lev, j as nat), shorter, p.size));
        lemma_sweep_keeps(p, lev, (j + 1) as nat, lev.len(), history);
    }
}

proof fn lemma_hits_keep(
    p: Puzzle,
    level: Seq<Seq<Move>>,
    from: nat,
    to: nat,
    text: Seq<char>,
)
    requires
        from <= to,
        hits(p, level, from).contains(text),
    ensures
        hits(p, level, to).contains(text),
    decreases to,
{
    if from < to {
        lemma_hits_keep(p, level, from, (to - 1) as nat, text);
        let before = hits(p, level, (to - 1) as nat);
        let i = choose|i: int| 0 <= i < before.len() && before[i] == text;
        assert(hits(p, level, to)[i] == text);
    }
}

proof fn lemma_found_keeps(p: Puzzle, from: nat, to: nat, text: Seq<char>)
    requires
        from <= to,
        found(p, from).contains(text),
    ensures
        found(p, to).contains(text),
    decreases to,
{
    if from < to {
        lemma_found_keeps(p, from, (to - 1) as nat, text);
        let before = found(p, (to - 1) as nat);
        let i = choose|i: int| 0 <= i < before.len() && before[i] == text;
        assert(found(p, to)[i] == text);
    }
}

/// The search finds every sequence of at most `bound` moves that reaches
/// the destination with its last move and not before, that makes no half
/// turn, and that the three rules on the sequence alone allow.
pub proof fn plain_solutions_are_found(p: Puzzle, bound: nat, history: Seq<Move>)
    requires
        history.len() <= bound,
        plain(history, p.size),
        arrives_last(p, history),
        p.reaches(history),
    ensures
        found(p, bound).contains(moves_text(history)),
{
    let n = history.len();
    let lev = level(p, n);
    let text = moves_text(history);
    plain_sequences_are_searched(p, history);
    let j = choose|j: int| 0 <= j < lev.len() && lev[j] == history;
    let upto = hits(p, lev, (j + 1) as nat);
    assert(upto[upto.len() - 1] == text);
    lemma_hits_keep(p, lev, (j + 1) as nat, lev.len(), text);
    let here = hits(p, lev, lev.len());
    let i = choose|i: int| 0 <= i < here.len() && here[i] == text;
    if n == 0 {
        assert(found(p, n)[i] == text);
    } else {
        assert(found(p, n)[found(p, (n - 1) as nat).len() + i] == text);
    }
    lemma_found_keeps(p, n, bound, text);
}

/// A search for at least one move on a cube of edge length two or more
/// finds every single move that turns the source into bricks that match
/// the destination, where the source itself does not match it.
pub proof fn single_moves_are_found(p: Puzzle, bound: nat, m: Move)
    requires
        2 <= p.size,
        1 <= bound,
        m.wf(),
        m.axval < p.size,
        !p.reaches(Seq::empty()),
        p.reaches(seq![m]),
    ensures
        found(p, bound).contains(moves_text(seq![m])),
{
    let history = seq![m];
    assert forall|i: int| 0 <= i < history.len() implies #[trigger] plain_at(
        history,
        i,
        p.size,
    ) by {
        assert(history.take(0) =~= Seq::<Move>::empty());
    }
    assert forall|i: int| 0 <= i < history.len() implies !p.reaches(
        #[trigger] history.take(i),
    ) by {
        assert(history.take(0) =~= Seq::<Move>::empty());
    }
    plain_solutions_are_found(p, bound, history);
}

} // verus!
