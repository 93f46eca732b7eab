//! Trails: move sequences under exploration.

use vstd::prelude::*;
use crate::brick::Brick;
use crate::geometry::Coord;
use crate::moves::{all_have_axis, all_within, apply_moves, brickvec_move, Axis, Move};
use crate::text::{digit, digits, push_digits};

verus! {

/// The text of a move: its axis designator, then its coordinate.
pub open spec fn move_text(m: Move) -> Seq<char> {
    seq![m.axdir] + digits(m.axval as nat)
}

/// The text of a sequence of moves: the texts of the moves, one after the
/// other.
pub open spec fn moves_text(moves: Seq<Move>) -> Seq<char>
    decreases moves.len(),
{
    if moves.len() == 0 {
        Seq::empty()
    } else {
        moves_text(moves.drop_last()) + move_text(moves.last())
    }
}

/// A move sequence, kept with the most recent move first.
#[derive(Clone, Debug)]
pub struct Trail {
    pub steps: Vec<Move>,
}

impl Trail {
    /// The moves in the order in which they are made: the oldest first.
    pub open spec fn history(&self) -> Seq<Move> {
        self.steps@.reverse()
    }

    /// The trail without moves.
    pub fn new() -> (trail: Trail)
        ensures
            trail.steps@ == Seq::<Move>::empty(),
    {
        Trail { steps: Vec::new() }
    }

    /// The trail that goes on from this one with the given move: the new
    /// move stands in front, the moves of this trail follow.
    pub fn proceed(&self, axdir: Axis, axval: Coord, ident: u16) -> (sequel: Trail)
        ensures
            sequel.steps@ == seq![Move { axdir, axval, ident }] + self.steps@,
            sequel.history() == self.history().push(Move { axdir, axval, ident }),
    {
        let mut sequel: Vec<Move> = Vec::with_capacity(self.steps.len().saturating_add(1));
        sequel.push(Move { axdir: axdir, axval: axval, ident: ident });
        sequel.extend_from_slice(self.steps.as_slice());
        assert(sequel@ =~= seq![Move { axdir, axval, ident }] + self.steps@);
        assert(sequel@.reverse() =~= self.steps@.reverse().push(Move { axdir, axval, ident }));
        Trail { steps: sequel }
    }

    /// The bricks that the moves of this trail, made oldest first, make of
    /// the given bricks.
    pub fn transform(&self, bricks: &Vec<Brick>, axmax: Coord) -> (result: Vec<Brick>)
        requires
            all_within(bricks@, axmax),
            all_have_axis(self.steps@),
        ensures
            result@ == apply_moves(bricks@, self.history(), axmax),
            all_within(result@, axmax),
    {
        let ghost start = bricks@;
        let mut bricks = bricks.clone();
        assert(bricks@ =~= start);
        let ghost history = self.history();
        let mut left: usize = self.steps.len();
        assert(history.take(0) =~= Seq::<Move>::empty());
        while left > 0
            invariant
                left <= self.steps@.len(),
                history == self.steps@.reverse(),
                all_have_axis(self.steps@),
                all_within(bricks@, axmax),
                bricks@ == apply_moves(start, history.take(self.steps@.len() - left), axmax),
            decreases left,
        {
            left -= 1;
            let mov = &self.steps[left];
            assert(mov.has_axis());
            proof {
                let done = self.steps@.len() - left - 1;
                let upto = history.take(done + 1);
                assert(upto.drop_last() =~= history.take(done));
                assert(upto.last() == self.steps@[left as int]);
            }
            bricks = brickvec_move(bricks.as_slice(), mov.axdir, mov.axval, axmax);
        }
        assert(history.take(self.steps@.len() as int) =~= history);
        bricks
    }

    /// The text of the trail: for each move, oldest first, its axis
    /// designator and the decimal numeral of its coordinate.
    pub fn as_string(&self) -> (string: String)
        ensures
            string@ == moves_text(self.history()),
    {
        let mut string = String::new();
        let ghost history = self.history();
        let mut left: usize = self.steps.len();
        assert(history.take(0) =~= Seq::<Move>::empty());
        while left > 0
            invariant
                left <= self.steps@.len(),
                history == self.steps@.reverse(),
                string@ == moves_text(history.take(self.steps@.len() - left)),
            decreases left,
        {
            left -= 1;
            let mov = &self.steps[left];
            proof {
                let done = self.steps@.len() - left - 1;
                let upto = history.take(done + 1);
                assert(upto.drop_last() =~= history.take(done));
                assert(upto.last() == self.steps@[left as int]);
            }
            let ghost before = string@;
            string.push(mov.axdir);
            push_digits(&mut string, mov.axval as u32);
            assert(string@ =~= before + move_text(*mov));
        }
        assert(history.take(self.steps@.len() as int) =~= history);
        string
    }
}

/// The text of a sequence of moves whose coordinates are below ten takes
/// two characters for each move: the axis designator, then the digit of
/// the coordinate.
pub proof fn text_of_short_moves(moves: Seq<Move>)
    requires
        forall|i: int| 0 <= i < moves.len() ==> (#[trigger] moves[i]).axval < 10,
    ensures
        moves_text(moves).len() == 2 * moves.len(),
        forall|i: int|
            0 <= i < moves.len() ==> moves_text(moves)[2 * i] == (#[trigger] moves[i]).axdir
                && moves_text(moves)[2 * i + 1] == digit(moves[i].axval as int),
    decreases moves.len(),
{
    if moves.len() > 0 {
        let init = moves.drop_last();
        assert forall|i: int| 0 <= i < init.len() implies (#[trigger] init[i]).axval < 10 by {
            assert(init[i] == moves[i]);
        }
        text_of_short_moves(init);
        let last = moves.last();
        assert(move_text(last) =~= seq![last.axdir, digit(last.axval as int)]);
        assert forall|i: int| 0 <= i < moves.len() implies moves_text(moves)[2 * i] == (
        #[trigger] moves[i]).axdir && moves_text(moves)[2 * i + 1] == digit(
            moves[i].axval as int,
        ) by {
            if i < init.len() {
                assert(init[i] == moves[i]);
                assert(moves_text(moves)[2 * i] == moves_text(init)[2 * i]);
                assert(moves_text(moves)[2 * i + 1] == moves_text(init)[2 * i + 1]);
            } else {
                assert(moves_text(moves)[2 * i] == move_text(last)[0]);
                assert(moves_text(moves)[2 * i + 1] == move_text(last)[1]);
            }
        }
    }
}

} // verus!
