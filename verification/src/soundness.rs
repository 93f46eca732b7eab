//! What holds of the sequences that the search finds.

use vstd::prelude::*;
use crate::moves::{inverted, Move};
use crate::model::{
    explored,
    found,
    hits,
    level,
    level_is_well_made,
    nothing_after_empty_level,
    sweep,
    well_made,
    Puzzle,
    Sweep,
};
use crate::text::digit;
use crate::trail::{moves_text, text_of_short_moves};

verus! {

/// The sequence `history` accounts for the text `text` among what a search
/// up to `bound` moves finds: the search comes to the sequence, which has
/// at most `bound` moves and reaches the destination, and `text` is its
/// text.
pub open spec fn found_by(p: Puzzle, bound: nat, text: Seq<char>, history: Seq<Move>) -> bool {
    &&& history.len() <= bound
    &&& level(p, history.len()).contains(history)
    &&& well_made(history, history.len(), p.size)
    &&& p.reaches(history)
    &&& text == moves_text(history)
}

proof fn lemma_hit_has_history(p: Puzzle, depth: nat, upto: nat, k: int) -> (history: Seq<Move>)
    requires
        upto <= level(p, depth).len(),
        0 <= k < hits(p, level(p, depth), upto).len(),
    ensures
        found_by(p, depth, hits(p, level(p, depth), upto)[k], history),
        history.len() == depth,
    decreases upto,
{
    let lev = level(p, depth);
    let before = hits(p, lev, (upto - 1) as nat);
    let last = lev[upto - 1];
    if k < before.len() {
        let history = lemma_hit_has_history(p, depth, (upto - 1) as nat, k);
        assert(hits(p, lev, upto)[k] == before[k]);
        history
    } else {
        level_is_well_made(p, depth);
        assert(well_made(last, depth, p.size));
        assert(lev.contains(last));
        last
    }
}

/// Every text that the search finds is the text of a sequence of moves
/// that the search came to: one of at most `bound` moves that turns the
/// source into bricks that match the destination. The sequence is well
/// made: no move of it undoes the move before, and no three moves in a row
/// are the same.
pub proof fn found_is_reached(p: Puzzle, bound: nat, k: int) -> (history: Seq<Move>)
    requires
        0 <= k < found(p, bound).len(),
    ensures
        found_by(p, bound, found(p, bound)[k], history),
    decreases bound,
{
    let here = hits(p, level(p, bound), level(p, bound).len());
    if bound == 0 {
        lemma_hit_has_history(p, bound, level(p, bound).len(), k)
    } else {
        let shorter = found(p, (bound - 1) as nat);
        if k < shorter.len() {
            found_is_reached(p, (bound - 1) as nat, k)
        } else {
            assert(found(p, bound)[k] == here[k - shorter.len()]);
            lemma_hit_has_history(p, bound, level(p, bound).len(), k - shorter.len())
        }
    }
}

/// In a text that the search finds, no move is followed by the move that
/// undoes it: for two moves in a row, either the coordinates differ or the
/// second designator is not the first one inverted.
pub proof fn found_never_undoes(p: Puzzle, bound: nat, k: int, i: int)
    requires
        p.size <= 10,
        0 <= k < found(p, bound).len(),
        0 <= i,
        2 * i + 3 < found(p, bound)[k].len(),
    ensures
        !(found(p, bound)[k][2 * i + 2] == inverted(found(p, bound)[k][2 * i]) && found(
            p,
            bound,
        )[k][2 * i + 3] == found(p, bound)[k][2 * i + 1]),
{
    let text = found(p, bound)[k];
    let history = found_is_reached(p, bound, k);
    assert forall|j: int| 0 <= j < history.len() implies (#[trigger] history[j]).axval < 10 by {
        assert(history[j].wf());
    }
    text_of_short_moves(history);
    assert(history[i].axdir == text[2 * i]);
    assert(history[i + 1].axdir == text[2 * (i + 1)]);
    assert(history[i].wf() && history[i + 1].wf());
    assert(digit(history[i].axval as int) == digit(history[i + 1].axval as int) ==> history[i].axval
        == history[i + 1].axval);
}

/// The texts that the search finds come by rising length of their
/// sequences: a text found earlier is the text of a sequence with no more
/// moves than that of a text found later.
pub proof fn found_by_rising_length(p: Puzzle, bound: nat, k1: int, k2: int) -> (histories: (
    Seq<Move>,
    Seq<Move>,
))
    requires
        0 <= k1 <= k2 < found(p, bound).len(),
    ensures
        found_by(p, bound, found(p, bound)[k1], histories.0),
        found_by(p, bound, found(p, bound)[k2], histories.1),
        histories.0.len() <= histories.1.len(),
    decreases bound,
{
    let here = hits(p, level(p, bound), level(p, bound).len());
    if bound == 0 {
        let h1 = lemma_hit_has_history(p, bound, level(p, bound).len(), k1);
        let h2 = lemma_hit_has_history(p, bound, level(p, bound).len(), k2);
        (h1, h2)
    } else {
        let shorter = found(p, (bound - 1) as nat);
        if k2 < shorter.len() {
            found_by_rising_length(p, (bound - 1) as nat, k1, k2)
        } else {
            assert(found(p, bound)[k2] == here[k2 - shorter.len()]);
            let h2 = lemma_hit_has_history(p, bound, level(p, bound).len(), k2 - shorter.len());
            if k1 < shorter.len() {
                let h1 = found_is_reached(p, (bound - 1) as nat, k1);
                (h1, h2)
            } else {
                assert(found(p, bound)[k1] == here[k1 - shorter.len()]);
                let h1 = lemma_hit_has_history(
                    p,
                    bound,
                    level(p, bound).len(),
                    k1 - shorter.len(),
                );
                (h1, h2)
            }
        }
    }
}

/// Where the source already matches the destination, the search finds the
/// empty sequence and nothing else, and makes no move.
pub proof fn matching_source_needs_no_move(p: Puzzle, bound: nat)
    requires
        p.reaches(Seq::empty()),
    ensures
        found(p, bound) == seq![Seq::<char>::empty()],
        explored(p, bound) == 0,
    decreases bound,
{
    let first = level(p, 0);
    assert(first[0] == Seq::<Move>::empty());
    assert(hits(p, first, 0) =~= Seq::<Seq<char>>::empty());
    assert(hits(p, first, 1) =~= seq![moves_text(Seq::<Move>::empty())]);
    assert(moves_text(Seq::<Move>::empty()) =~= Seq::<char>::empty());
    assert(found(p, 0) =~= seq![Seq::<char>::empty()]);
    assert(sweep(p, first, 0) == Sweep::start());
    assert(sweep(p, first, 1) == Sweep::start());
    assert(level(p, 1).len() == 0);
    if bound > 0 {
        nothing_after_empty_level(p, 0, bound);
    }
}

} // verus!
