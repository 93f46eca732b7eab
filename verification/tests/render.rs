use cubus::brick::Brick;
use cubus::cube::Cube;
use cubus::geometry::Huename;
use cubus::render::{draw_brick, draw_cube, tty_load, tty_put_at, tty_save};

fn put(row: i32, col: i32, attr: &str, width: usize) -> String {
    format!("\x1B7\x1B[{};{}f{}{}\x1B8", row, col, attr, "\u{2588}".repeat(width))
}

#[test]
fn colours_have_their_control_sequences() {
    assert_eq!(Huename::RD.vt100_attrs(), "\x1B[2;31;41m");
    assert_eq!(Huename::OR.vt100_attrs(), "\x1B[2;36;46m");
    assert_eq!(Huename::WT.vt100_attrs(), "\x1B[1;37;47m");
    assert_eq!(Huename::YL.vt100_attrs(), "\x1B[2;33;43m");
    assert_eq!(Huename::GN.vt100_attrs(), "\x1B[2;32;42m");
    assert_eq!(Huename::BL.vt100_attrs(), "\x1B[2;34;44m");
}

#[test]
fn cursor_is_saved_and_restored() {
    assert_eq!(tty_save(), "\x1B7");
    assert_eq!(tty_load(), "\x1B8");
}

#[test]
fn put_at_moves_the_cursor_and_writes() {
    assert_eq!(tty_put_at(3, 4, "hi"), "\x1B[3;4fhi");
    assert_eq!(tty_put_at(0, 0, ""), "\x1B[0;0f");
    assert_eq!(tty_put_at(10, 205, "\u{2588}"), "\x1B[10;205f\u{2588}");
    assert_eq!(tty_put_at(-5, 32767, "x"), "\x1B[-5;32767fx");
    assert_eq!(tty_put_at(-32768, -1, "x"), "\x1B[-32768;-1fx");
    assert_eq!(tty_put_at(1000, 9, "x"), "\x1B[1000;9fx");
}

#[test]
fn a_corner_brick_shows_three_faces() {
    let mut brick = Brick::new(2, 2, 2);
    brick.curHue.xp = Huename::BL;
    brick.curHue.zn = Huename::RD;
    let green = "\x1B[2;32;42m";
    let white = "\x1B[1;37;47m";
    let blue = "\x1B[2;34;44m";
    let expected = [
        put(8, 21, green, 9),
        put(9, 21, green, 9),
        put(10, 21, green, 9),
        put(11, 21, green, 9),
        put(6, 23, white, 9),
        put(7, 22, white, 9),
        put(6, 32, blue, 1),
        put(7, 31, blue, 2),
        put(8, 30, blue, 3),
        put(9, 30, blue, 3),
        put(10, 30, blue, 2),
        put(11, 30, blue, 1),
    ]
    .concat();
    assert_eq!(draw_brick(&brick, 2, 1, 2), expected);
}

#[test]
fn a_brick_shows_the_faces_on_the_surface_only() {
    assert_eq!(draw_brick(&Brick::new(1, 0, 0), 2, 1, 2), "");
    let red = "\x1B[2;31;41m";
    let side = [
        put(12, 35, red, 1),
        put(13, 34, red, 2),
        put(14, 33, red, 3),
        put(15, 33, red, 3),
        put(16, 33, red, 2),
        put(17, 33, red, 1),
    ]
    .concat();
    assert_eq!(draw_brick(&Brick::new(2, 0, 1), 2, 1, 2), side);
    let white = "\x1B[1;37;47m";
    let top = [put(4, 8, white, 9), put(5, 7, white, 9)].concat();
    assert_eq!(draw_brick(&Brick::new(0, 2, 1), 2, 1, 2), top);
    let green = "\x1B[2;32;42m";
    let front =
        [put(12, 12, green, 9), put(13, 12, green, 9), put(14, 12, green, 9), put(15, 12, green, 9)]
            .concat();
    assert_eq!(draw_brick(&Brick::new(1, 1, 2), 2, 1, 2), front);
}

#[test]
fn a_cube_of_one_brick_is_drawn_whole() {
    let cube = Cube::new(1);
    let green = "\x1B[2;32;42m";
    let white = "\x1B[1;37;47m";
    let red = "\x1B[2;31;41m";
    let expected = [
        "\x1B[9;0f\x1B[2J\x1B[0m".to_string(),
        "\x1B7".to_string(),
        put(4, 3, green, 9),
        put(5, 3, green, 9),
        put(6, 3, green, 9),
        put(7, 3, green, 9),
        put(2, 5, white, 9),
        put(3, 4, white, 9),
        put(2, 14, red, 1),
        put(3, 13, red, 2),
        put(4, 12, red, 3),
        put(5, 12, red, 3),
        put(6, 12, red, 2),
        put(7, 12, red, 1),
        "\x1B8".to_string(),
    ]
    .concat();
    assert_eq!(draw_cube(&cube, 1, 2), expected);
}

#[test]
fn a_cube_is_drawn_brick_by_brick() {
    for size in 2..=3u8 {
        let cube = Cube::new(size);
        let axmax = size - 1;
        let mut expected = format!("\x1B[{};0f\x1B[2J\x1B[0m\x1B7", 6 * size as i32 + 3);
        let mut shown = 0;
        for brick in cube.bricks.iter() {
            if brick.curLoc.x == axmax || brick.curLoc.y == axmax || brick.curLoc.z == axmax {
                expected.push_str(&draw_brick(brick, axmax, 1, 2));
                shown += 1;
            }
        }
        expected.push_str("\x1B8");
        let drawn = draw_cube(&cube, 1, 2);
        assert_eq!(drawn, expected);
        assert_eq!(shown, (size as usize).pow(3) - (size as usize - 1).pow(3));
        assert_eq!(drawn.len(), if size == 2 { 1821 } else { 4115 });
    }
}
