//! The picture of a cube as text for a VT100 terminal.
//!
//! The functions of this module write nothing: each returns the text that
//! draws what it describes, made of control sequences and block characters.
//! The cube is shown from the front, the right and the top, so that only
//! the faces toward `+x`, `+y` and `+z` of the bricks with a largest
//! coordinate are drawn.

use vstd::prelude::*;
use vstd::string::StringExecFns;
use crate::brick::Brick;
use crate::cube::Cube;
use crate::geometry::{Coord, Huename};
use crate::moves::all_within;
use crate::text::{numeral, push_numeral};

verus! {

/// The block character of which the faces are drawn.
pub open spec fn block() -> char {
    '\u{2588}'
}

/// `width` block characters.
pub open spec fn blocks(width: nat) -> Seq<char> {
    Seq::new(width, |i: int| block())
}

/// The control sequence that sets the colour in which a face colour is
/// drawn.
pub open spec fn attrs_of(hue: Huename) -> Seq<char> {
    match hue {
        Huename::RD => "\x1B[2;31;41m"@,
        Huename::OR => "\x1B[2;36;46m"@,
        Huename::WT => "\x1B[1;37;47m"@,
        Huename::YL => "\x1B[2;33;43m"@,
        Huename::GN => "\x1B[2;32;42m"@,
        Huename::BL => "\x1B[2;34;44m"@,
    }
}

impl Huename {
    /// The VT100 control sequence that sets the colour in which this face
    /// colour is drawn. Orange is drawn in cyan.
    pub fn vt100_attrs(&self) -> (attrs: &'static str)
        ensures
            attrs@ == attrs_of(*self),
    {
        match *self {
            Huename::RD => "\x1B[2;31;41m",
            Huename::OR => "\x1B[2;36;46m",
            Huename::WT => "\x1B[1;37;47m",
            Huename::YL => "\x1B[2;33;43m",
            Huename::GN => "\x1B[2;32;42m",
            Huename::BL => "\x1B[2;34;44m",
        }
    }
}

/// The control sequence that saves the cursor position.
pub fn tty_save() -> (text: &'static str)
    ensures
        text@ == "\x1B7"@,
{
    "\x1B7"
}

/// The control sequence that restores the cursor position.
pub fn tty_load() -> (text: &'static str)
    ensures
        text@ == "\x1B8"@,
{
    "\x1B8"
}

/// The text that puts `text` at a place of the screen: the control
/// sequence that moves the cursor to `row` and `col`, then `text`.
pub open spec fn put_at(row: int, col: int, text: Seq<char>) -> Seq<char> {
    "\x1B["@ + numeral(row) + ";"@ + numeral(col) + "f"@ + text
}

/// The text that puts `text` on the terminal at the given position.
pub fn tty_put_at(row: i16, col: i16, text: &str) -> (out: String)
    ensures
        out@ == put_at(row as int, col as int, text@),
{
    let mut out = String::new();
    out.append("\x1B[");
    push_numeral(&mut out, row);
    out.append(";");
    push_numeral(&mut out, col);
    out.append("f");
    out.append(text);
    assert(out@ =~= put_at(row as int, col as int, text@));
    out
}

/// The text that draws `width` blocks in the colour set by `attrs` at a
/// place of the screen and leaves the cursor where it was.
#[verifier::opaque]
pub open spec fn put_blocks(row: int, col: int, attrs: Seq<char>, width: nat) -> Seq<char> {
    "\x1B7"@ + put_at(row, col, attrs + blocks(width)) + "\x1B8"@
}

/// Appends to `out` the text that draws `width` blocks at a place of the
/// screen.
fn push_blocks(out: &mut String, row: i16, col: i16, attrs: &str, width: u8)
    ensures
        final(out)@ == old(out)@ + put_blocks(row as int, col as int, attrs@, width as nat),
{
    reveal(put_blocks);
    let mut run = String::new();
    run.append(attrs);
    let mut made: u8 = 0;
    while made < width
        invariant
            made <= width,
            run@ == attrs@ + blocks(made as nat),
        decreases width - made,
    {
        run.push('\u{2588}');
        made += 1;
        assert(run@ =~= attrs@ + blocks(made as nat));
    }
    let placed = tty_put_at(row, col, run.as_str());
    out.append(tty_save());
    out.append(placed.as_str());
    out.append(tty_load());
    assert(out@ =~= old(out)@ + put_blocks(row as int, col as int, attrs@, width as nat));
}

/// The screen row of the upper edge of a brick's picture, for a picture of
/// the cube that starts at `row`.
pub open spec fn brick_row(brick: Brick, axmax: Coord, row: int) -> int {
    -4 * brick.curLoc.y + 2 * brick.curLoc.z + 4 * axmax + row + 1
}

/// The screen column of the left edge of a brick's picture, for a picture
/// of the cube that starts at `col`.
pub open spec fn brick_col(brick: Brick, axmax: Coord, col: int) -> int {
    9 * brick.curLoc.x - 3 * brick.curLoc.z + 3 * axmax + col + 1
}

/// The text that draws the face toward `+z` of a brick whose picture has
/// its corner at `(r, c)`: four rows of nine blocks.
pub open spec fn front_face(brick: Brick, r: int, c: int) -> Seq<char> {
    let attrs = attrs_of(brick.curHue.zp);
    put_blocks(r + 2, c, attrs, 9) + put_blocks(r + 3, c, attrs, 9) + put_blocks(
        r + 4,
        c,
        attrs,
        9,
    ) + put_blocks(r + 5, c, attrs, 9)
}

/// The text that draws the face toward `+y` of a brick: two rows of nine
/// blocks, slanted.
pub open spec fn top_face(brick: Brick, r: int, c: int) -> Seq<char> {
    let attrs = attrs_of(brick.curHue.yp);
    put_blocks(r, c + 2, attrs, 9) + put_blocks(r + 1, c + 1, attrs, 9)
}

/// The text that draws the face toward `+x` of a brick: six rows of one to
/// three blocks.
pub open spec fn side_face(brick: Brick, r: int, c: int) -> Seq<char> {
    let attrs = attrs_of(brick.curHue.xp);
    put_blocks(r, c + 11, attrs, 1) + put_blocks(r + 1, c + 10, attrs, 2) + put_blocks(
        r + 2,
        c + 9,
        attrs,
        3,
    ) + put_blocks(r + 3, c + 9, attrs, 3) + put_blocks(r + 4, c + 9, attrs, 2) + put_blocks(
        r + 5,
        c + 9,
        attrs,
        1,
    )
}

/// The text that draws a brick: of its faces toward `+z`, `+y` and `+x`,
/// in this order, those that lie on the surface of the cube.
pub open spec fn brick_picture(brick: Brick, axmax: Coord, row: int, col: int) -> Seq<char> {
    let r = brick_row(brick, axmax, row);
    let c = brick_col(brick, axmax, col);
    (if brick.curLoc.z == axmax {
        front_face(brick, r, c)
    } else {
        Seq::empty()
    }) + (if brick.curLoc.y == axmax {
        top_face(brick, r, c)
    } else {
        Seq::empty()
    }) + (if brick.curLoc.x == axmax {
        side_face(brick, r, c)
    } else {
        Seq::empty()
    })
}

/// Appends to `out` the text that draws the face toward `+z`.
fn push_front_face(out: &mut String, brick: &Brick, b_row: i16, b_col: i16)
    requires
        b_row <= i16::MAX - 5,
    ensures
        final(out)@ == old(out)@ + front_face(*brick, b_row as int, b_col as int),
{
    let attr = brick.curHue.zp.vt100_attrs();
    push_blocks(out, b_row + 2, b_col + 0, attr, 9);
    push_blocks(out, b_row + 3, b_col + 0, attr, 9);
    push_blocks(out, b_row + 4, b_col + 0, attr, 9);
    push_blocks(out, b_row + 5, b_col + 0, attr, 9);
    proof {
        let r = b_row as int;
        let c = b_col as int;
        lemma_joined(
            old(out)@,
            seq![
                put_blocks(r + 2, c, attr@, 9),
                put_blocks(r + 3, c, attr@, 9),
                put_blocks(r + 4, c, attr@, 9),
                put_blocks(r + 5, c, attr@, 9),
            ],
        );
    }
}

/// Appends to `out` the text that draws the face toward `+y`.
fn push_top_face(out: &mut String, brick: &Brick, b_row: i16, b_col: i16)
    requires
        b_row <= i16::MAX - 1,
        b_col <= i16::MAX - 2,
    ensures
        final(out)@ == old(out)@ + top_face(*brick, b_row as int, b_col as int),
{
    let attr = brick.curHue.yp.vt100_attrs();
    push_blocks(out, b_row + 0, b_col + 2, attr, 9);
    push_blocks(out, b_row + 1, b_col + 1, attr, 9);
    proof {
        let r = b_row as int;
        let c = b_col as int;
        lemma_joined(
            old(out)@,
            seq![put_blocks(r, c + 2, attr@, 9), put_blocks(r + 1, c + 1, attr@, 9)],
        );
    }
}

/// Appends to `out` the text that draws the face toward `+x`.
fn push_side_face(out: &mut String, brick: &Brick, b_row: i16, b_col: i16)
    requires
        b_row <= i16::MAX - 5,
        b_col <= i16::MAX - 11,
    ensures
        final(out)@ == old(out)@ + side_face(*brick, b_row as int, b_col as int),
{
    let attr = brick.curHue.xp.vt100_attrs();
    push_blocks(out, b_row + 0, b_col + 11, attr, 1);
    push_blocks(out, b_row + 1, b_col + 10, attr, 2);
    push_blocks(out, b_row + 2, b_col + 9, attr, 3);
    push_blocks(out, b_row + 3, b_col + 9, attr, 3);
    push_blocks(out, b_row + 4, b_col + 9, attr, 2);
    push_blocks(out, b_row + 5, b_col + 9, attr, 1);
    proof {
        let r = b_row as int;
        let c = b_col as int;
        lemma_joined(
            old(out)@,
            seq![
                put_blocks(r, c + 11, attr@, 1),
                put_blocks(r + 1, c + 10, attr@, 2),
                put_blocks(r + 2, c + 9, attr@, 3),
                put_blocks(r + 3, c + 9, attr@, 3),
                put_blocks(r + 4, c + 9, attr@, 2),
                put_blocks(r + 5, c + 9, attr@, 1),
            ],
        );
    }
}

/// Texts appended one after the other give the same as their
/// concatenation appended at once, for up to six texts.
proof fn lemma_joined(head: Seq<char>, parts: Seq<Seq<char>>)
    ensures
        parts.len() == 2 ==> head + parts[0] + parts[1] == head + (parts[0] + parts[1]),
        parts.len() == 4 ==> head + parts[0] + parts[1] + parts[2] + parts[3] == head + (parts[0]
            + parts[1] + parts[2] + parts[3]),
        parts.len() == 6 ==> head + parts[0] + parts[1] + parts[2] + parts[3] + parts[4] + parts[5]
            == head + (parts[0] + parts[1] + parts[2] + parts[3] + parts[4] + parts[5]),
{
    if parts.len() == 2 {
        assert(head + parts[0] + parts[1] =~= head + (parts[0] + parts[1]));
    }
    if parts.len() == 4 {
        assert(head + parts[0] + parts[1] + parts[2] + parts[3] =~= head + (parts[0] + parts[1]
            + parts[2] + parts[3]));
    }
    if parts.len() == 6 {
        assert(head + parts[0] + parts[1] + parts[2] + parts[3] + parts[4] + parts[5] =~= head + (
        parts[0] + parts[1] + parts[2] + parts[3] + parts[4] + parts[5]));
    }
}

/// The text that draws a single brick of a cube on the terminal, as a
/// character graphic.
pub fn draw_brick(brick: &Brick, axmax: Coord, row: i16, col: i16) -> (out: String)
    requires
        axmax <= 9,
        brick.curLoc.within(axmax),
        row <= i16::MAX - 60,
        col <= i16::MAX - 120,
    ensures
        out@ == brick_picture(*brick, axmax, row as int, col as int),
{
    let edge = axmax as i16;

    let brick_loc = &brick.curLoc;

    let pos_x = brick_loc.x as i16;
    let pos_y = brick_loc.y as i16;
    let pos_z = brick_loc.z as i16;

    let b_row = 2 * pos_z - 4 * pos_y + 4 * edge + row + 1;
    let b_col = 9 * pos_x - 3 * pos_z + 3 * edge + col + 1;

    let mut out = String::new();
    let ghost empty = out@;
    let ghost front = if pos_z == edge {
        front_face(*brick, b_row as int, b_col as int)
    } else {
        Seq::empty()
    };
    let ghost top = if pos_y == edge {
        top_face(*brick, b_row as int, b_col as int)
    } else {
        Seq::empty()
    };
    let ghost side = if pos_x == edge {
        side_face(*brick, b_row as int, b_col as int)
    } else {
        Seq::empty()
    };

    if pos_z == edge {
        push_front_face(&mut out, brick, b_row, b_col);
    }
    assert(out@ =~= empty + front);

    if pos_y == edge {
        push_top_face(&mut out, brick, b_row, b_col);
    }
    assert(out@ =~= empty + front + top);

    if pos_x == edge {
        push_side_face(&mut out, brick, b_row, b_col);
    }
    assert(out@ =~= front + top + side);
    out
}

/// A brick has a face that is drawn: one of its coordinates is the
/// largest.
pub open spec fn shows(brick: Brick, axmax: Coord) -> bool {
    brick.curLoc.x == axmax || brick.curLoc.y == axmax || brick.curLoc.z == axmax
}

/// The text that draws the bricks, one after the other, those without a
/// face that is drawn left out.
pub open spec fn bricks_picture(bricks: Seq<Brick>, axmax: Coord, row: int, col: int) -> Seq<char>
    decreases bricks.len(),
{
    if bricks.len() == 0 {
        Seq::empty()
    } else {
        bricks_picture(bricks.drop_last(), axmax, row, col) + (if shows(bricks.last(), axmax) {
            brick_picture(bricks.last(), axmax, row, col)
        } else {
            Seq::empty()
        })
    }
}

/// The text that draws a cube: the screen is cleared with the cursor put
/// below the picture, the cursor position is saved, the bricks are drawn,
/// and the cursor position is restored.
pub open spec fn cube_picture(bricks: Seq<Brick>, size: Coord, row: int, col: int) -> Seq<char> {
    put_at(6 * size + row + 2, 0, "\x1B[2J\x1B[0m"@) + "\x1B7"@ + bricks_picture(
        bricks,
        (size - 1) as Coord,
        row,
        col,
    ) + "\x1B8"@
}

/// The text that draws a cube on the terminal, as a character graphic
/// with its upper left corner at `row` and `col`.
pub fn draw_cube(cube: &Cube, row: i16, col: i16) -> (out: String)
    requires
        1 <= cube.size <= 10,
        all_within(cube.bricks@, cube.axmax()),
        row <= i16::MAX - 62,
        col <= i16::MAX - 120,
    ensures
        out@ == cube_picture(cube.bricks@, cube.size, row as int, col as int),
{
    let size = cube.size;
    let axmax = size - 1;
    // Each brick takes two rows for its top and four for its front.
    let box_h = 6 * size as i16;

    // Clear the screen and reset the attributes.
    let mut out = tty_put_at(box_h + row + 2, 0, "\x1B[2J\x1B[0m");

    out.append(tty_save());
    let ghost head = out@;
    let mut ind: usize = 0;
    while ind < cube.bricks.len()
        invariant
            ind <= cube.bricks@.len(),
            axmax == cube.axmax(),
            axmax <= 9,
            all_within(cube.bricks@, axmax),
            row <= i16::MAX - 62,
            col <= i16::MAX - 120,
            out@ == head + bricks_picture(
                cube.bricks@.take(ind as int),
                axmax,
                row as int,
                col as int,
            ),
        decreases cube.bricks@.len() - ind,
    {
        let brick = &cube.bricks[ind];
        proof {
            let upto = cube.bricks@.take(ind as int + 1);
            assert(upto.drop_last() =~= cube.bricks@.take(ind as int));
            assert(upto.last() == *brick);
            assert(brick.curLoc.within(axmax));
        }
        let ghost before = bricks_picture(
            cube.bricks@.take(ind as int),
            axmax,
            row as int,
            col as int,
        );
        let ghost added = if shows(*brick, axmax) {
            brick_picture(*brick, axmax, row as int, col as int)
        } else {
            Seq::empty()
        };
        if brick.curLoc.x == axmax || brick.curLoc.y == axmax || brick.curLoc.z == axmax {
            let picture = draw_brick(brick, axmax, row, col);
            out.append(picture.as_str());
        } else {
            assert(head + before + added =~= head + before);
        }
        proof {
            lemma_joined(head, seq![before, added]);
        }
        ind += 1;
    }
    assert(cube.bricks@.take(ind as int) =~= cube.bricks@);
    out.append(tty_load());
    assert(out@ =~= cube_picture(cube.bricks@, cube.size, row as int, col as int));
    out
}

} // verus!
