//! The icon of the application: a blue tile with a white letter P.

use vstd::prelude::*;

verus! {

/// The width and the height of the icon, in pixels.
pub const SIDE: u32 = 32;

/// How far a coordinate lies outside the centres of the two corner circles that
/// it stands between.
pub open spec fn overhang(c: int) -> int {
    if c < 4 {
        4 - c
    } else if c > 27 {
        c - 27
    } else {
        0
    }
}

/// Whether a pixel lies on the tile, a square whose four corners are rounded
/// with a radius of 5.
pub open spec fn on_tile(x: int, y: int) -> bool {
    ||| 5 <= x < 27
    ||| 5 <= y < 27
    ||| overhang(x) * overhang(x) + overhang(y) * overhang(y) <= 25
}

/// Whether a pixel lies on the letter: its stem, or the top, the middle or the
/// right side of its bowl.
pub open spec fn on_letter(x: int, y: int) -> bool {
    ||| 7 <= x <= 11 && 6 <= y <= 26
    ||| 11 <= x <= 23 && 6 <= y <= 10
    ||| 11 <= x <= 23 && 16 <= y <= 20
    ||| 20 <= x <= 24 && 6 <= y <= 20
}

/// The red, green, blue and alpha parts of a pixel.
#[verifier::opaque]
pub open spec fn pixel(x: int, y: int) -> Seq<u8> {
    if !on_tile(x, y) {
        seq![0u8, 0u8, 0u8, 0u8]
    } else if on_letter(x, y) {
        seq![255u8, 255u8, 255u8, 255u8]
    } else {
        seq![0u8, 102u8, 204u8, 255u8]
    }
}

/// The parts of a pixel.
fn pixel_parts(x: u32, y: u32) -> (p: [u8; 4])
    requires
        x < SIDE,
        y < SIDE,
    ensures
        p@ == pixel(x as int, y as int),
{
    reveal(pixel);
    let dx: u32 = if x < 4 {
        4 - x
    } else if x > 27 {
        x - 27
    } else {
        0
    };
    let dy: u32 = if y < 4 {
        4 - y
    } else if y > 27 {
        y - 27
    } else {
        0
    };
    assert(dx * dx <= 16 && dy * dy <= 16) by (nonlinear_arith)
        requires
            dx <= 4,
            dy <= 4,
    ;
    let tile: bool = (5 <= x && x < 27) || (5 <= y && y < 27) || dx * dx + dy * dy <= 25;
    let letter: bool = (7 <= x && x <= 11 && 6 <= y && y <= 26) || (11 <= x && x <= 23 && 6 <= y
        && y <= 10) || (11 <= x && x <= 23 && 16 <= y && y <= 20) || (20 <= x && x <= 24 && 6 <= y
        && y <= 20);
    let p: [u8; 4] = if !tile {
        [0, 0, 0, 0]
    } else if letter {
        [255, 255, 255, 255]
    } else {
        [0, 102, 204, 255]
    };
    assert(p@ =~= pixel(x as int, y as int));
    p
}

/// The pixels of the icon, row by row, four bytes for each.
pub fn make_icon() -> (px: Vec<u8>)
    ensures
        px@.len() == 32 * 32 * 4,
        forall|i: int|
            0 <= i < 32 * 32 * 4 ==> #[trigger] px@[i] == pixel(i / 4 % 32, i / 128)[i % 4],
{
    let mut px: Vec<u8> = Vec::new();
    for y in 0..SIDE
        invariant
            px@.len() == y * 128,
            forall|i: int|
                0 <= i < y * 128 ==> #[trigger] px@[i] == pixel(i / 4 % 32, i / 128)[i % 4],
    {
        for x in 0..SIDE
            invariant
                y < SIDE,
                px@.len() == y * 128 + x * 4,
                forall|i: int|
                    0 <= i < y * 128 + x * 4 ==> #[trigger] px@[i] == pixel(i / 4 % 32, i / 128)[i
                        % 4],
        {
            let p = pixel_parts(x, y);
            px.push(p[0]);
            px.push(p[1]);
            px.push(p[2]);
            px.push(p[3]);
        }
    }
    px
}

/// The tile is the same seen from the left and from the right, from above and
/// from below, and its four corner pixels lie off it.
pub proof fn law_corners_are_rounded(x: int, y: int)
    requires
        0 <= x < SIDE,
        0 <= y < SIDE,
    ensures
        on_tile(31 - x, y) == on_tile(x, y),
        on_tile(x, 31 - y) == on_tile(x, y),
        pixel(0, 0)[3] == 0,
        pixel(31, 0)[3] == 0,
        pixel(0, 31)[3] == 0,
        pixel(31, 31)[3] == 0,
{
    reveal(pixel);
}

} // verus!
