//! The 64x32 monochrome display: blanking and XOR-drawing sprites with
//! collision detection. Pixels that fall off the right or bottom edge are
//! dropped, never wrapped around.
use vstd::prelude::*;

verus! {

/// Columns of the display.
pub const SCREEN_WIDTH: usize = 64;

/// Rows of the display.
pub const SCREEN_HEIGHT: usize = 32;

/// The pixel rows held by a vector of row vectors.
pub open spec fn rows_of(screen: Seq<Vec<u8>>) -> Seq<Seq<u8>> {
    Seq::new(screen.len(), |r: int| screen[r]@)
}

/// A display of the right shape whose pixels are each 0 or 1.
pub open spec fn screen_wf(rows: Seq<Seq<u8>>) -> bool {
    &&& rows.len() == SCREEN_HEIGHT
    &&& forall|r: int| 0 <= r < SCREEN_HEIGHT ==> #[trigger] rows[r].len() == SCREEN_WIDTH
    &&& forall|r: int, c: int|
        0 <= r < SCREEN_HEIGHT && 0 <= c < SCREEN_WIDTH ==> (#[trigger] rows[r][c] == 0 || rows[r][c]
            == 1)
}

/// The display with every pixel off.
pub open spec fn blank_screen() -> Seq<Seq<u8>> {
    Seq::new(SCREEN_HEIGHT as nat, |r: int| Seq::new(SCREEN_WIDTH as nat, |c: int| 0u8))
}

/// Whether `byte`, drawn with its leftmost bit at column `x`, has a set bit
/// over column `col` (the most significant bit is the leftmost pixel).
pub open spec fn sprite_covers(byte: u8, x: int, col: int) -> bool {
    x <= col < x + 8 && (byte >> ((7 - (col - x)) as u8)) & 1u8 == 1u8
}

/// A pixel toggled.
pub open spec fn flip(pixel: u8) -> u8 {
    if pixel == 1 {
        0
    } else {
        1
    }
}

/// One pixel row after `byte` is XORed into it at column `x`.
pub open spec fn xor_row(row: Seq<u8>, byte: u8, x: int) -> Seq<u8> {
    Seq::new(row.len(), |c: int| if sprite_covers(byte, x, c) { flip(row[c]) } else { row[c] })
}

/// Whether XORing `byte` into `row` at column `x` turns a lit pixel off.
pub open spec fn row_collides(row: Seq<u8>, byte: u8, x: int) -> bool {
    exists|c: int| 0 <= c < row.len() && #[trigger] sprite_covers(byte, x, c) && row[c] == 1
}

/// The display after the sprite rows `sprite` are XORed in with their
/// top-left corner at `(x, y)`.
pub open spec fn draw_rows(rows: Seq<Seq<u8>>, sprite: Seq<u8>, x: int, y: int) -> Seq<Seq<u8>> {
    Seq::new(
        rows.len(),
        |r: int|
            if y <= r < y + sprite.len() {
                xor_row(rows[r], sprite[r - y], x)
            } else {
                rows[r]
            },
    )
}

/// Whether drawing `sprite` at `(x, y)` turns any lit pixel off.
pub open spec fn draw_collides(rows: Seq<Seq<u8>>, sprite: Seq<u8>, x: int, y: int) -> bool {
    exists|r: int|
        0 <= r < rows.len() && y <= r < y + sprite.len() && #[trigger] row_collides(
            rows[r],
            sprite[r - y],
            x,
        )
}

/// A display with every pixel off.
pub fn blank_display() -> (screen: Vec<Vec<u8>>)
    ensures
        rows_of(screen@) == blank_screen(),
{
    let mut screen: Vec<Vec<u8>> = Vec::new();
    let mut r: usize = 0;
    while r < SCREEN_HEIGHT
        invariant
            r <= SCREEN_HEIGHT,
            screen@.len() == r,
            forall|k: int| 0 <= k < r ==> #[trigger] screen@[k]@ == blank_screen()[k],
        decreases SCREEN_HEIGHT - r,
    {
        let row: Vec<u8> = vec![0u8; SCREEN_WIDTH];
        assert(row@ =~= blank_screen()[r as int]);
        screen.push(row);
        r += 1;
    }
    assert(rows_of(screen@) =~= blank_screen());
    screen
}

/// XORs `byte` into `row` with its leftmost bit at column `x`, dropping the
/// bits past the row's end; returns whether a lit pixel was turned off.
fn xor_sprite_row(row: &mut Vec<u8>, byte: u8, x: usize) -> (collided: bool)
    requires
        x <= 255,
    ensures
        final(row)@ == xor_row(old(row)@, byte, x as int),
        collided == row_collides(old(row)@, byte, x as int),
{
    let ghost before = row@;
    let mut collided = false;
    let mut c: usize = 0;
    while c < 8
        invariant
            x <= 255,
            c <= 8,
            row@.len() == before.len(),
            forall|k: int|
                0 <= k < before.len() ==> #[trigger] row@[k] == if sprite_covers(byte, x as int, k)
                    && k < x + c {
                    flip(before[k])
                } else {
                    before[k]
                },
            collided == exists|k: int|
                0 <= k < before.len() && k < x + c && #[trigger] sprite_covers(byte, x as int, k)
                    && before[k] == 1,
        decreases 8 - c,
    {
        let col = x + c;
        let bit = (byte >> ((7 - c) as u8)) & 1u8;
        assert(bit == 1u8 <==> sprite_covers(byte, x as int, col as int));
        if col < row.len() && bit == 1u8 {
            let pixel = row[col];
            if pixel == 1u8 {
                collided = true;
            }
            row.set(col, if pixel == 1u8 { 0u8 } else { 1u8 });
        }
        c += 1;
    }
    assert(row@ =~= xor_row(before, byte, x as int));
    collided
}

/// XORs the `height` sprite rows stored in `memory` from `start` on into the
/// display, with the sprite's top-left corner at `(x, y)`; returns whether a
/// lit pixel was turned off.
pub fn draw_sprite(
    screen: &mut Vec<Vec<u8>>,
    memory: &Vec<u8>,
    start: usize,
    height: usize,
    x: usize,
    y: usize,
) -> (collided: bool)
    requires
        screen_wf(rows_of(old(screen)@)),
        start + height <= memory@.len(),
        x <= 255,
        y <= 255,
        height <= 15,
    ensures
        rows_of(final(screen)@) == draw_rows(
            rows_of(old(screen)@),
            memory@.subrange(start as int, start + height),
            x as int,
            y as int,
        ),
        collided == draw_collides(
            rows_of(old(screen)@),
            memory@.subrange(start as int, start + height),
            x as int,
            y as int,
        ),
        screen_wf(rows_of(final(screen)@)),
{
    let ghost before = rows_of(screen@);
    let ghost sprite = memory@.subrange(start as int, start + height);
    let mut collided = false;
    let mut r: usize = 0;
    while r < height
        invariant
            r <= height,
            height <= 15,
            x <= 255,
            y <= 255,
            start + height <= memory@.len(),
            sprite == memory@.subrange(start as int, start + height),
            screen_wf(before),
            screen@.len() == SCREEN_HEIGHT,
            forall|k: int|
                0 <= k < SCREEN_HEIGHT ==> #[trigger] screen@[k]@ == if y <= k < y + r {
                    xor_row(before[k], sprite[k - y], x as int)
                } else {
                    before[k]
                },
            collided == exists|k: int|
                0 <= k < SCREEN_HEIGHT && y <= k < y + r && #[trigger] row_collides(
                    before[k],
                    sprite[k - y],
                    x as int,
                ),
        decreases height - r,
    {
        let row_index = y + r;
        let ghost was_collided = collided;
        if row_index < SCREEN_HEIGHT {
            assert(start + r < memory.len());
            let byte = memory[start + r];
            let mut row = screen[row_index].clone();
            assert(row@ =~= before[row_index as int]);
            let hit = xor_sprite_row(&mut row, byte, x);
            screen.set(row_index, row);
            collided = collided || hit;
            assert(sprite[row_index - y] == byte);
            if hit {
                assert(row_collides(before[row_index as int], sprite[row_index - y], x as int));
            }
        }
        proof {
            if collided && !was_collided {
                assert(row_index < SCREEN_HEIGHT);
            }
            if !collided {
                assert forall|k: int|
                    0 <= k < SCREEN_HEIGHT && y <= k < y + r + 1 implies !#[trigger] row_collides(
                    before[k],
                    sprite[k - y],
                    x as int,
                ) by {
                    if k < y + r {
                    } else {
                        assert(k == row_index);
                    }
                }
            }
        }
        r += 1;
    }
    let ghost after = rows_of(screen@);
    assert(after =~= draw_rows(before, sprite, x as int, y as int));
    assert forall|k: int, c: int| 0 <= k < SCREEN_HEIGHT && 0 <= c < SCREEN_WIDTH implies (
    #[trigger] after[k][c] == 0 || after[k][c] == 1) by {
        assert(before[k].len() == SCREEN_WIDTH);
    }
    assert forall|k: int| 0 <= k < SCREEN_HEIGHT implies #[trigger] after[k].len()
        == SCREEN_WIDTH by {
        assert(before[k].len() == SCREEN_WIDTH);
    }
    collided
}

} // verus!
