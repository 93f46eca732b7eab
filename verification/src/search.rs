//! The search for the move sequences that turn one cube into another.
//!
//! [`find_moves`] goes through a queue of trails, breadth first, and is
//! proved to find and to count what the model of the search says: see
//! [`crate::model`].

use vstd::prelude::*;
use std::collections::VecDeque;
use crate::cube::{brickvec_eq, Cube};
use crate::geometry::Coord;
use crate::layers::{vec_of_size, Layers};
use crate::model::{
    axis_at,
    completes_rotation,
    explored,
    fits,
    found,
    hits,
    kept,
    lemma_explored_grows,
    lemma_sweep_grows,
    lemma_try_axes_grows,
    lemma_try_coords_grows,
    level,
    level_is_well_made,
    nothing_after_empty_level,
    prolong,
    recent,
    repeats_last,
    repeats_last_two,
    sweep,
    try_axes,
    try_coords,
    try_move,
    turned_recently,
    undoes_last,
    well_made,
    Puzzle,
    Sweep,
};
use crate::moves::{ident_is_faithful, ident_of_move, invert_axis, inverted, is_axis, Axis, Move};
use crate::trail::{moves_text, Trail};

verus! {

/// The half turns that the flags record: the pairs of an axis designator
/// and a coordinate whose flag is raised.
pub open spec fn halves_of(layers: Layers) -> Set<(Axis, Coord)> {
    Set::new(|pair: (Axis, Coord)| is_axis(pair.0) && layers.is_set(pair.0, pair.1))
}

/// The histories of the trails of a queue, in their order.
pub open spec fn histories(queue: Seq<Trail>) -> Seq<Seq<Move>> {
    Seq::new(queue.len(), |j: int| queue[j].history())
}

/// The texts of some strings, in their order.
pub open spec fn texts_of(strings: Seq<String>) -> Seq<Seq<char>> {
    Seq::new(strings.len(), |j: int| strings[j]@)
}

/// The search as it stands for two cubes of one size.
pub open spec fn puzzle_of(src: Cube, dst: Cube) -> Puzzle {
    Puzzle { src: src.bricks@, dst: dst.bricks@, size: src.size }
}

/// Tells whether the move `(axdir, axval)`, with the most recent
/// `cube_size - 1` moves of the trail, turns every layer of the cube in
/// the sense of `axdir`.
fn completes_cube_rotation(
    steps: &Vec<Move>,
    axdir: Axis,
    axval: Coord,
    cube_size: Coord,
) -> (whole: bool)
    requires
        1 <= cube_size,
        axval < cube_size,
        fits(steps@, cube_size),
    ensures
        whole == completes_rotation(steps@.reverse(), axdir, axval, cube_size),
{
    let axmax: usize = (cube_size - 1) as usize;
    if steps.len() < axmax {
        return false;
    }
    let ghost history = steps@.reverse();
    let mut ind: usize = 0;
    while ind < axmax
        invariant
            ind <= axmax <= steps@.len(),
            axmax == cube_size - 1,
            history == steps@.reverse(),
            forall|back: int| 0 <= back < ind ==> (#[trigger] recent(history, back)).axdir == axdir,
        decreases axmax - ind,
    {
        if steps[ind].axdir != axdir {
            assert(recent(history, ind as int).axdir != axdir);
            return false;
        }
        ind += 1;
    }
    let mut used_val: Vec<bool> = vec_of_size(cube_size as usize, false);
    used_val[axval as usize] = true;
    assert forall|v: int| 0 <= v < cube_size implies #[trigger] used_val@[v] == (v == axval
        || turned_recently(history, v, 0)) by {}
    let mut ind: usize = 0;
    while ind < axmax
        invariant
            ind <= axmax <= steps@.len(),
            axmax == cube_size - 1,
            history == steps@.reverse(),
            fits(steps@, cube_size),
            used_val@.len() == cube_size,
            forall|v: int|
                0 <= v < cube_size ==> #[trigger] used_val@[v] == (v == axval || turned_recently(
                    history,
                    v,
                    ind as int,
                )),
        decreases axmax - ind,
    {
        let ghost before = used_val@;
        let val = steps[ind].axval;
        assert(steps@[ind as int].wf());
        used_val[val as usize] = true;
        assert forall|v: int| 0 <= v < cube_size implies #[trigger] used_val@[v] == (v == axval
            || turned_recently(history, v, ind as int + 1)) by {
            assert(recent(history, ind as int).axval == val);
            if turned_recently(history, v, ind as int + 1) {
                let back = choose|back: int|
                    0 <= back < ind as int + 1 && (#[trigger] recent(history, back)).axval == v;
                if back < ind {
                    assert(turned_recently(history, v, ind as int));
                }
            }
            if turned_recently(history, v, ind as int) {
                let back = choose|back: int|
                    0 <= back < ind as int && (#[trigger] recent(history, back)).axval == v;
                assert(0 <= back < ind as int + 1);
            }
            assert(before[v] == (v == axval || turned_recently(history, v, ind as int)));
        }
        ind += 1;
    }
    let mut v: usize = 0;
    while v < cube_size as usize
        invariant
            v <= cube_size,
            history == steps@.reverse(),
            used_val@.len() == cube_size,
            forall|w: int|
                0 <= w < cube_size ==> #[trigger] used_val@[w] == (w == axval || turned_recently(
                    history,
                    w,
                    cube_size - 1,
                )),
            forall|w: int| 0 <= w < v ==> #[trigger] used_val@[w],
        decreases cube_size - v,
    {
        if !used_val[v] {
            assert(!(v as int == axval || turned_recently(history, v as int, cube_size - 1)));
            return false;
        }
        v += 1;
    }
    assert forall|w: int| 0 <= w < cube_size implies w == axval || #[trigger] turned_recently(
        history,
        w,
        cube_size - 1,
    ) by {
        assert(used_val@[w]);
    }
    true
}

/// The axis designator that the search tries in the place `a`.
fn axis_in_turn(a: usize) -> (axdir: Axis)
    requires
        a < 6,
    ensures
        axdir == axis_at(a as int),
        is_axis(axdir),
{
    let axes: [Axis; 6] = ['X', 'x', 'Y', 'y', 'Z', 'z'];
    axes[a]
}

/// Tries every move on a trail that did not reach the destination: adds
/// the trails that go on from it to the queue, raises the flags of the half
/// turns among them, and counts them.
fn prolong_trail(
    trail: &Trail,
    cube_size: Coord,
    dbl_movs: &mut Layers,
    trail_q: &mut VecDeque<Trail>,
    move_num: &mut u64,
    Ghost(rest): Ghost<Seq<Seq<Move>>>,
    Ghost(sw): Ghost<Sweep>,
)
    requires
        1 <= cube_size,
        fits(trail.steps@, cube_size),
        old(dbl_movs).has_size(cube_size),
        halves_of(*old(dbl_movs)) == sw.halves,
        histories(old(trail_q)@) == rest + sw.next,
        forall|j: int|
            0 <= j < old(trail_q)@.len() ==> fits((#[trigger] old(trail_q)@[j]).steps@, cube_size),
        *old(move_num) + prolong(sw, trail.history(), cube_size).next.len() - sw.next.len()
            <= u64::MAX,
    ensures
        final(dbl_movs).has_size(cube_size),
        halves_of(*final(dbl_movs)) == prolong(sw, trail.history(), cube_size).halves,
        histories(final(trail_q)@) == rest + prolong(sw, trail.history(), cube_size).next,
        forall|j: int|
            0 <= j < final(trail_q)@.len() ==> fits(
                (#[trigger] final(trail_q)@[j]).steps@,
                cube_size,
            ),
        *final(move_num) == *old(move_num) + prolong(sw, trail.history(), cube_size).next.len()
            - sw.next.len(),
{
    let steps = &trail.steps;
    let trail_len = steps.len();
    let ghost history = trail.history();
    let ghost goal = prolong(sw, history, cube_size);
    let ghost count0 = *move_num as int;

    let mut negdir: Axis = '_';
    let mut axval1: Coord = 0x0F;
    let mut ident1: u16 = 0x00;
    let mut ident2: u16 = 0x00;
    if trail_len > 0 {
        if trail_len > 1 {
            ident2 = steps[1].ident;
        }
        let move1 = &steps[0];
        negdir = invert_axis(move1.axdir);
        axval1 = move1.axval;
        ident1 = move1.ident;
    }
    let ghost mut cur = sw;
    let mut a: usize = 0;
    while a < 6
        invariant
            a <= 6,
            1 <= cube_size,
            steps == &trail.steps,
            trail_len == steps@.len(),
            history == trail.history(),
            goal == prolong(sw, history, cube_size),
            fits(steps@, cube_size),
            trail_len > 0 ==> negdir == inverted(steps@[0].axdir) && axval1 == steps@[0].axval
                && ident1 == steps@[0].ident,
            trail_len > 1 ==> ident2 == steps@[1].ident,
            cur == try_axes(sw, history, a as nat, cube_size),
            dbl_movs.has_size(cube_size),
            halves_of(*dbl_movs) == cur.halves,
            histories(trail_q@) == rest + cur.next,
            forall|j: int|
                0 <= j < trail_q@.len() ==> fits((#[trigger] trail_q@[j]).steps@, cube_size),
            *move_num == count0 + cur.next.len() - sw.next.len(),
            count0 + goal.next.len() - sw.next.len() <= u64::MAX,
        decreases 6 - a,
    {
        let axdir = axis_in_turn(a);
        let ghost base = cur;
        let mut axval: Coord = 0;
        while axval < cube_size
            invariant
                a < 6,
                axval <= cube_size,
                1 <= cube_size,
                is_axis(axdir),
                axdir == axis_at(a as int),
                steps == &trail.steps,
                trail_len == steps@.len(),
                history == trail.history(),
                goal == prolong(sw, history, cube_size),
                fits(steps@, cube_size),
                trail_len > 0 ==> negdir == inverted(steps@[0].axdir) && axval1 == steps@[0].axval
                    && ident1 == steps@[0].ident,
                trail_len > 1 ==> ident2 == steps@[1].ident,
                base == try_axes(sw, history, a as nat, cube_size),
                cur == try_coords(base, history, axdir, axval as nat, cube_size),
                dbl_movs.has_size(cube_size),
                halves_of(*dbl_movs) == cur.halves,
                histories(trail_q@) == rest + cur.next,
                forall|j: int|
                    0 <= j < trail_q@.len() ==> fits((#[trigger] trail_q@[j]).steps@, cube_size),
                *move_num == count0 + cur.next.len() - sw.next.len(),
                count0 + goal.next.len() - sw.next.len() <= u64::MAX,
            decreases cube_size - axval,
        {
            let ident = ident_of_move(axdir, axval);
            proof {
                if trail_len > 0 {
                    assert(steps@[0].wf());
                    assert(recent(history, 0) == steps@[0]);
                    ident_is_faithful(axdir, axval, steps@[0].axdir, steps@[0].axval);
                }
                if trail_len > 1 {
                    assert(steps@[1].wf());
                    assert(recent(history, 1) == steps@[1]);
                    ident_is_faithful(axdir, axval, steps@[1].axdir, steps@[1].axval);
                }
            }
            // A layer is not turned back right after it was turned.
            let undoes = trail_len > 0 && axval == axval1 && axdir == negdir;
            // A layer is not turned three times in one sense.
            let thrice = trail_len > 1 && ident == ident1 && ident == ident2;
            // Does the move repeat the most recent move of the trail?
            let is_dbl = trail_len > 0 && ident == ident1;
            assert(undoes == undoes_last(history, axdir, axval));
            assert(thrice == repeats_last_two(history, axdir, axval));
            assert(is_dbl == repeats_last(history, axdir, axval));
            // A half turn is not made if the same one in the other sense was.
            let keep = !undoes && !thrice && !(is_dbl && dbl_movs.has_flag(negdir, axval))
                && !completes_cube_rotation(steps, axdir, axval, cube_size);
            assert(keep == kept(history, axdir, axval, cube_size, cur.halves)) by {
                if is_dbl {
                    assert(negdir == inverted(axdir));
                    assert(halves_of(*dbl_movs).contains((negdir, axval)) == dbl_movs.is_set(
                        negdir,
                        axval,
                    ));
                }
            }
            let ghost after = try_move(cur, history, axdir, axval, cube_size);
            proof {
                lemma_try_coords_grows(
                    base,
                    history,
                    axdir,
                    (axval + 1) as nat,
                    cube_size as nat,
                    cube_size,
                );
                lemma_try_axes_grows(sw, history, (a + 1) as nat, 6, cube_size);
                assert(after == try_coords(base, history, axdir, (axval + 1) as nat, cube_size));
                assert(after.next.len() <= goal.next.len());
            }
            if keep {
                let ntrail = trail.proceed(axdir, axval, ident);
                assert(Move { axdir, axval, ident } == Move::of(axdir, axval));
                assert(fits(ntrail.steps@, cube_size)) by {
                    assert forall|i: int| 0 <= i < ntrail.steps@.len() implies (
                    #[trigger] ntrail.steps@[i]).wf() && ntrail.steps@[i].axval < cube_size by {
                        if i > 0 {
                            assert(ntrail.steps@[i] == steps@[i - 1]);
                        }
                    }
                }
                let ghost queue_before = trail_q@;
                trail_q.push_back(ntrail);
                assert(histories(trail_q@) =~= rest + after.next) by {
                    assert(histories(trail_q@) =~= histories(queue_before).push(ntrail.history()));
                }
                if is_dbl {
                    let ghost flags_before = *dbl_movs;
                    dbl_movs.set_flag(axdir, axval);
                    assert(dbl_movs.has_size(cube_size)) by {
                        assert forall|other: Axis| is_axis(other) implies (
                        #[trigger] dbl_movs.flags(other)).len() == cube_size by {
                            assert(flags_before.flags(other).len() == cube_size);
                        }
                    }
                    assert(halves_of(*dbl_movs) =~= after.halves) by {
                        assert forall|pair: (Axis, Coord)|
                            halves_of(*dbl_movs).contains(pair) == halves_of(flags_before).insert(
                                (axdir, axval),
                            ).contains(pair) by {
                            if is_axis(pair.0) {
                                assert(flags_before.flags(pair.0).len() == cube_size);
                                assert(dbl_movs.flags(pair.0).len() == cube_size);
                                if pair.0 != axdir {
                                    assert(dbl_movs.flags(pair.0) == flags_before.flags(pair.0));
                                }
                            }
                        }
                    }
                }
                *move_num += 1;
            }
            proof {
                cur = after;
            }
            axval += 1;
        }
        a += 1;
    }
}

/// Taking the first sequence from a queue that holds what is left of a
/// level and, behind it, what was made of the next.
proof fn lemma_front_leaves(level: Seq<Seq<Move>>, done: int, pending: Seq<Seq<Move>>)
    requires
        0 <= done < level.len(),
    ensures
        (level.skip(done) + pending)[0] == level[done],
        (level.skip(done) + pending).skip(1) == level.skip(done + 1) + pending,
{
    assert((level.skip(done) + pending).skip(1) =~= level.skip(done + 1) + pending);
}

/// Finds all move sequences, no longer than `max_len`, that turn the
/// source cube into the destination cube.
///
/// Returns the texts of the sequences found, shorter ones first, and the
/// number of moves that the search made on the way: one for each sequence
/// that it came to, the empty one left out.
///
/// The two cubes must have the same size, and the number of moves that the
/// search makes must fit the count; it does for up to ten moves: see
/// [`crate::effort::ten_moves_can_be_counted`].
pub fn find_moves(max_len: usize, src_cube: &Cube, dst_cube: &Cube) -> (result: (Vec<String>, u64))
    requires
        src_cube.wf(),
        dst_cube.wf(),
        src_cube.size == dst_cube.size,
        explored(puzzle_of(*src_cube, *dst_cube), max_len as nat) <= u64::MAX,
    ensures
        texts_of(result.0@) == found(puzzle_of(*src_cube, *dst_cube), max_len as nat),
        result.1 == explored(puzzle_of(*src_cube, *dst_cube), max_len as nat),
{
    let cube_size = src_cube.size;
    let axmax = cube_size - 1;
    let ghost p = puzzle_of(*src_cube, *dst_cube);
    let ghost bound = max_len as nat;

    let mut dbl_movs = Layers::new(cube_size);
    let mut last_len: usize = 0;

    let mut trail_q: VecDeque<Trail> = VecDeque::new();
    trail_q.push_back(Trail::new());

    let mut seq_strs: Vec<String> = Vec::new();
    let mut move_num: u64 = 0;

    let ghost mut depth: nat = 0;
    let ghost mut done: nat = 0;
    proof {
        assert(trail_q@[0].history() =~= Seq::<Move>::empty());
        assert(level(p, 0).skip(0) =~= level(p, 0));
        assert(histories(trail_q@) =~= level(p, 0));
        assert(histories(trail_q@) =~= level(p, 0).skip(0) + Seq::<Seq<Move>>::empty());
        assert(texts_of(seq_strs@) =~= Seq::<Seq<char>>::empty());
        assert(halves_of(dbl_movs) =~= Sweep::start().halves);
    }

    // Deal with the trails as they come.
    while trail_q.len() != 0
        invariant
            src_cube.wf(),
            src_cube.size == cube_size,
            axmax == cube_size - 1,
            p == puzzle_of(*src_cube, *dst_cube),
            bound == max_len,
            depth <= bound,
            done <= level(p, depth).len(),
            histories(trail_q@) == level(p, depth).skip(done as int) + (if depth < bound {
                sweep(p, level(p, depth), done).next
            } else {
                Seq::empty()
            }),
            forall|j: int|
                0 <= j < trail_q@.len() ==> fits((#[trigger] trail_q@[j]).steps@, cube_size),
            texts_of(seq_strs@) == (if depth == 0 {
                Seq::empty()
            } else {
                found(p, (depth - 1) as nat)
            }) + hits(p, level(p, depth), done),
            move_num == explored(p, depth) + (if depth < bound {
                sweep(p, level(p, depth), done).next.len()
            } else {
                0
            }),
            explored(p, bound) <= u64::MAX,
            dbl_movs.has_size(cube_size),
            last_len <= depth,
            depth < bound ==> (if last_len == depth {
                halves_of(dbl_movs) == sweep(p, level(p, depth), done).halves
            } else {
                sweep(p, level(p, depth), done) == Sweep::start()
            }),
        decreases bound - depth, level(p, depth).len() - done,
    {
        proof {
            if done == level(p, depth).len() {
                // The trails of this length are dealt with: the queue holds
                // those of the next.
                assert(level(p, depth).skip(done as int).len() == 0);
                assert(depth < bound);
                assert(histories(trail_q@) =~= level(p, depth + 1));
                assert(found(p, depth) == (if depth == 0 {
                    Seq::empty()
                } else {
                    found(p, (depth - 1) as nat)
                }) + hits(p, level(p, depth), done));
                depth = depth + 1;
                done = 0;
                assert(level(p, depth).skip(0) =~= level(p, depth));
                assert(histories(trail_q@) =~= level(p, depth).skip(0) + Seq::<
                    Seq<Move>,
                >::empty());
                assert(texts_of(seq_strs@) =~= found(p, (depth - 1) as nat) + hits(
                    p,
                    level(p, depth),
                    0,
                ));
            }
            level_is_well_made(p, depth);
            lemma_sweep_grows(p, level(p, depth), done + 1, level(p, depth).len());
            if depth < bound {
                lemma_explored_grows(p, depth + 1, bound);
            }
        }
        let ghost level_now = level(p, depth);
        let ghost pending = if depth < bound {
            sweep(p, level_now, done).next
        } else {
            Seq::empty()
        };
        let ghost queue_before = trail_q@;
        let trail = trail_q.pop_front().unwrap();
        let ghost history = trail.history();
        proof {
            lemma_front_leaves(level_now, done as int, pending);
            assert(histories(queue_before)[0] == history);
            assert(well_made(history, depth, cube_size));
            assert(histories(trail_q@) =~= histories(queue_before).skip(1));
            assert(src_cube.bricks@ == p.src);
        }
        let bricks = trail.transform(&src_cube.bricks, axmax);

        // Do the moves of the trail give the destination?
        if brickvec_eq(bricks.as_slice(), dst_cube.bricks.as_slice()) {
            // A trail that reaches the destination is kept and goes no further.
            assert(p.reaches(history));
            let text = trail.as_string();
            let ghost strs_before = seq_strs@;
            seq_strs.push(text);
            proof {
                assert(texts_of(seq_strs@) =~= texts_of(strs_before).push(moves_text(history)));
                done = done + 1;
            }
        } else {
            assert(!p.reaches(history));
            // Look at the ways in which the trail can go on.
            let trail_len = trail.steps.len();
            if trail_len < max_len {
                if trail_len > 0 {
                    if trail_len > last_len {
                        dbl_movs = Layers::new(cube_size);
                        last_len = trail_len;
                        proof {
                            assert(halves_of(dbl_movs) =~= Sweep::start().halves);
                        }
                    }
                }
                prolong_trail(
                    &trail,
                    cube_size,
                    &mut dbl_movs,
                    &mut trail_q,
                    &mut move_num,
                    Ghost(level_now.skip(done as int + 1)),
                    Ghost(sweep(p, level_now, done)),
                );
            }
            proof {
                done = done + 1;
            }
        }
    }
    proof {
        assert(done == level(p, depth).len());
        if depth < bound {
            nothing_after_empty_level(p, depth, bound);
        }
    }
    (seq_strs, move_num)
}

} // verus!
