//! Reading moves from text.
//!
//! A move is written as an axis designator followed by the digit of a
//! coordinate. A digit from `2` to `9` before the designator repeats the
//! move that many times, taken modulo four, since four equal quarter turns
//! cancel. A `#` where a move may begin starts a comment that runs to the
//! end of the line. Any other character where a move may begin is passed
//! over.

use vstd::prelude::*;
use crate::geometry::Coord;
use crate::moves::{all_have_axis, ident_of_move, is_axis, Axis, Move};
use crate::text::digit;
use crate::trail::{move_text, moves_text};

verus! {

/// The state of the reader between two characters.
pub struct Lexer {
    /// The moves read so far.
    pub moves: Seq<Move>,
    /// How often the move that comes next is repeated.
    pub count: u8,
    /// The axis designator read last.
    pub axdir: Axis,
    /// A move may begin here; otherwise the digit of a coordinate is due.
    pub expects_axis: bool,
    /// The reader is inside a comment.
    pub in_comment: bool,
}

impl Lexer {
    /// The state before the first character.
    pub open spec fn start() -> Lexer {
        Lexer {
            moves: Seq::empty(),
            count: 1,
            axdir: '_',
            expects_axis: true,
            in_comment: false,
        }
    }
}

/// The character is a digit from `2` to `9`.
pub open spec fn is_repeat_digit(chr: char) -> bool {
    '2' as int <= chr as int <= '9' as int
}

/// The character is the digit of a coordinate of a cube whose largest
/// coordinate is `axmax`.
pub open spec fn is_coord_digit(chr: char, axmax: Coord) -> bool {
    '0' as int <= chr as int <= '0' as int + axmax
}

/// The number that a digit stands for.
pub open spec fn digit_value(chr: char) -> int {
    chr as int - '0' as int
}

/// `count` times the same move.
pub open spec fn repeated(m: Move, count: u8) -> Seq<Move> {
    Seq::new(count as nat, |i: int| m)
}

/// The state after one more character, or `None` where the digit of a
/// coordinate is due and the character is none for this cube.
pub open spec fn lex_step(st: Lexer, chr: char, axmax: Coord) -> Option<Lexer> {
    if st.in_comment {
        Some(Lexer { in_comment: chr != '\n', ..st })
    } else if st.expects_axis {
        if is_axis(chr) {
            Some(Lexer { axdir: chr, expects_axis: false, ..st })
        } else if is_repeat_digit(chr) {
            Some(Lexer { count: (digit_value(chr) % 4) as u8, ..st })
        } else if chr == '#' {
            Some(Lexer { in_comment: true, ..st })
        } else {
            Some(st)
        }
    } else if is_coord_digit(chr, axmax) {
        Some(
            Lexer {
                moves: st.moves + repeated(
                    Move::of(st.axdir, digit_value(chr) as Coord),
                    st.count,
                ),
                count: 1,
                expects_axis: true,
                ..st
            },
        )
    } else {
        None
    }
}

/// The state after the whole text, or `None` where some character stands
/// in place of the digit of a coordinate.
pub open spec fn lex(text: Seq<char>, axmax: Coord) -> Option<Lexer>
    decreases text.len(),
{
    if text.len() == 0 {
        Some(Lexer::start())
    } else {
        match lex(text.drop_last(), axmax) {
            Some(st) => lex_step(st, text.last(), axmax),
            None => None,
        }
    }
}

/// The first character of the text that stands in place of the digit of a
/// coordinate, if there is one.
pub open spec fn first_misplaced(text: Seq<char>, axmax: Coord) -> Option<char>
    decreases text.len(),
{
    if text.len() == 0 {
        None
    } else {
        match lex(text.drop_last(), axmax) {
            Some(st) => if lex_step(st, text.last(), axmax) is None {
                Some(text.last())
            } else {
                None
            },
            None => first_misplaced(text.drop_last(), axmax),
        }
    }
}

/// The moves that the text describes for a cube whose largest coordinate
/// is `axmax`, or the first character that stands in place of the digit of
/// a coordinate.
pub open spec fn moves_in(text: Seq<char>, axmax: Coord) -> Result<Seq<Move>, char> {
    match lex(text, axmax) {
        Some(st) => Ok(st.moves),
        None => Err(first_misplaced(text, axmax).unwrap()),
    }
}

/// Every move is a move of a cube whose largest coordinate is `axmax`,
/// with its identity.
pub open spec fn all_fit(moves: Seq<Move>, axmax: Coord) -> bool {
    forall|i: int| 0 <= i < moves.len() ==> (#[trigger] moves[i]).wf() && moves[i].axval <= axmax
}

/// What holds of the reader's state after any text: the moves read are
/// moves of the cube, and where a digit is due the designator read last
/// names an axis.
pub open spec fn is_sound(st: Lexer, axmax: Coord) -> bool {
    &&& all_fit(st.moves, axmax)
    &&& !st.expects_axis ==> is_axis(st.axdir)
}

/// The moves read from a text are moves of the cube, each with its
/// identity.
pub proof fn read_moves_fit(text: Seq<char>, axmax: Coord)
    requires
        axmax <= 9,
    ensures
        lex(text, axmax) matches Some(st) ==> is_sound(st, axmax),
        moves_in(text, axmax) matches Ok(moves) ==> all_fit(moves, axmax) && all_have_axis(moves),
    decreases text.len(),
{
    if text.len() > 0 {
        read_moves_fit(text.drop_last(), axmax);
        if let Some(before) = lex(text.drop_last(), axmax) {
            if let Some(st) = lex_step(before, text.last(), axmax) {
                assert forall|i: int| 0 <= i < st.moves.len() implies (#[trigger] st.moves[i]).wf()
                    && st.moves[i].axval <= axmax by {
                    if i < before.moves.len() {
                        assert(st.moves[i] == before.moves[i]);
                    }
                }
            }
        }
    }
    if let Some(st) = lex(text, axmax) {
        assert forall|i: int| 0 <= i < st.moves.len() implies (
        #[trigger] st.moves[i]).has_axis() by {
            assert(st.moves[i].wf());
        }
    }
}

/// Reads the moves that a text describes, or gives the first character
/// that stands where the digit of a coordinate is due and is none for this
/// cube.
pub fn scan_moves(string: &str, axmax: Coord) -> (result: Result<Vec<Move>, char>)
    requires
        axmax <= 9,
    ensures
        match result {
            Ok(moves) => moves_in(string@, axmax) == Ok::<Seq<Move>, char>(moves@) && all_fit(
                moves@,
                axmax,
            ) && all_have_axis(moves@),
            Err(chr) => moves_in(string@, axmax) == Err::<Seq<Move>, char>(chr),
        },
{
    proof {
        read_moves_fit(string@, axmax);
    }
    let max_chr: char = (48u8 + axmax) as char;

    let mut moves: Vec<Move> = Vec::new();

    let mut count: u8 = 1;
    let mut axdir: Axis = '_';
    let mut expects_axis = true;
    let mut is_in_comment = false;
    for chr in it: string.chars()
        invariant
            it.seq() == string@,
            axmax <= 9,
            max_chr as int == '0' as int + axmax,
            count < 10,
            lex(string@.take(it.index() as int), axmax) == Some(
                Lexer {
                    moves: moves@,
                    count: count,
                    axdir: axdir,
                    expects_axis: expects_axis,
                    in_comment: is_in_comment,
                },
            ),
    {
        let ghost upto = string@.take(it.index() + 1);
        let ghost before = Lexer {
            moves: moves@,
            count: count,
            axdir: axdir,
            expects_axis: expects_axis,
            in_comment: is_in_comment,
        };
        proof {
            assert(upto.drop_last() =~= string@.take(it.index() as int));
            assert(upto.last() == chr);
            assert(lex(upto, axmax) == lex_step(before, chr, axmax));
        }
        if is_in_comment {
            // Pass over what is left of the line.
            if chr == '\n' {
                is_in_comment = false;
            }
        } else if expects_axis {
            if chr == 'X' || chr == 'x' || chr == 'Y' || chr == 'y' || chr == 'Z' || chr == 'z' {
                // The axis of a move.
                axdir = chr;
                expects_axis = false;
            } else if '2' <= chr && chr <= '9' {
                // A digit in front of a move says how often it is made.
                count = (chr as u8 - 48u8) % 4u8;
            } else if chr == '#' {
                is_in_comment = true;
            }
        } else {
            // The digit of a coordinate is due.
            if '0' <= chr && chr <= max_chr {
                let axval: Coord = chr as u8 - 48u8;
                let ident = ident_of_move(axdir, axval);
                let new_move = Move { axdir: axdir, axval: axval, ident: ident };
                let ghost moves_before = moves@;
                let ghost count_before = count;
                while count != 0
                    invariant
                        count <= count_before,
                        moves@ == moves_before + repeated(
                            new_move,
                            (count_before - count) as u8,
                        ),
                    decreases count,
                {
                    moves.push(new_move.clone());
                    count -= 1;
                    assert(moves@ =~= moves_before + repeated(
                        new_move,
                        (count_before - count) as u8,
                    ));
                }
                expects_axis = true;
                count = 1;
            } else {
                proof {
                    lemma_stays_failed(string@, it.index() + 1, axmax);
                }
                return Err(chr);
            }
        }
    }
    assert(string@.take(string@.len() as int) =~= string@);
    Ok(moves)
}

/// Once a character is misplaced, the text has failed, whatever follows,
/// and that character stays the first one misplaced.
proof fn lemma_stays_failed(text: Seq<char>, upto: int, axmax: Coord)
    requires
        0 <= upto <= text.len(),
        lex(text.take(upto), axmax) is None,
    ensures
        lex(text, axmax) is None,
        first_misplaced(text, axmax) == first_misplaced(text.take(upto), axmax),
    decreases text.len() - upto,
{
    if upto < text.len() {
        assert(text.take(upto + 1).drop_last() =~= text.take(upto));
        lemma_stays_failed(text, upto + 1, axmax);
    } else {
        assert(text.take(upto) =~= text);
    }
}

/// Returns the moves that the text describes.
///
/// The text must hold no character in place of the digit of a coordinate:
/// where an axis designator was read, a digit from `0` to `axmax` comes
/// next, or the text ends.
pub fn movevec_of_string(string: &str, axmax: Coord) -> (moves: Vec<Move>)
    requires
        axmax <= 9,
        moves_in(string@, axmax) is Ok,
    ensures
        moves_in(string@, axmax) == Ok::<Seq<Move>, char>(moves@),
        all_fit(moves@, axmax),
        all_have_axis(moves@),
{
    scan_moves(string, axmax).unwrap()
}

/// The state in which the reader is after the text of the given moves.
pub open spec fn after_reading(moves: Seq<Move>) -> Lexer {
    Lexer {
        moves: moves,
        count: 1,
        axdir: if moves.len() == 0 {
            '_'
        } else {
            moves.last().axdir
        },
        expects_axis: true,
        in_comment: false,
    }
}

/// Reading the text of a sequence of moves gives the sequence back: for
/// moves of a cube whose largest coordinate is `axmax`, each with its
/// identity, the moves that their text describes are those moves.
pub proof fn text_reads_back(moves: Seq<Move>, axmax: Coord)
    requires
        axmax <= 9,
        all_fit(moves, axmax),
    ensures
        lex(moves_text(moves), axmax) == Some(after_reading(moves)),
        moves_in(moves_text(moves), axmax) == Ok::<Seq<Move>, char>(moves),
    decreases moves.len(),
{
    if moves.len() > 0 {
        let init = moves.drop_last();
        let last = moves.last();
        assert forall|i: int| 0 <= i < init.len() implies (#[trigger] init[i]).wf()
            && init[i].axval <= axmax by {
            assert(init[i] == moves[i]);
        }
        text_reads_back(init, axmax);
        assert(last.wf() && last.axval <= axmax);
        let text = moves_text(moves);
        let letter = last.axdir;
        let figure = digit(last.axval as int);
        assert(move_text(last) =~= seq![letter, figure]);
        assert(text =~= moves_text(init).push(letter).push(figure));
        assert(text.drop_last() =~= moves_text(init).push(letter));
        assert(text.drop_last().drop_last() =~= moves_text(init));
        let at_start = after_reading(init);
        let at_digit = Lexer { axdir: letter, expects_axis: false, ..at_start };
        assert(lex(text.drop_last(), axmax) == lex_step(at_start, letter, axmax));
        assert(lex_step(at_start, letter, axmax) == Some(at_digit));
        assert(lex(text, axmax) == lex_step(at_digit, figure, axmax));
        assert(is_coord_digit(figure, axmax));
        assert(digit_value(figure) == last.axval);
        assert(Move::of(letter, last.axval) == last);
        assert(at_digit.moves + repeated(last, 1) =~= moves);
        assert(lex_step(at_digit, figure, axmax) == Some(after_reading(moves)));
    } else {
        assert(moves =~= Seq::<Move>::empty());
    }
}

} // verus!
