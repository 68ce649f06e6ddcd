use vstd::prelude::*;

verus! {

/// A monochrome 64 x 32 screen, stored row by row.
pub struct Display {
    pub pixels: [bool; 2048],
}

impl View for Display {
    type V = Seq<bool>;

    /// Entry `(y * 64) + x` tells whether the pixel in column `x` of row `y` is lit.
    open spec fn view(&self) -> Seq<bool> {
        self.pixels@
    }
}

/// Where the pixel at `(x, y)` is stored; coordinates wrap around the edges of the screen.
pub open spec fn pixel_index(x: int, y: int) -> int {
    (y % 32) * 64 + x % 64
}

/// A screen with every pixel off.
pub open spec fn blank_screen() -> Seq<bool> {
    Seq::new(2048, |i: int| false)
}

/// Whether the sprite byte `byte` lights its `b`-th pixel from the left (its most significant
/// bit is the leftmost pixel).
pub open spec fn byte_bit(byte: u8, b: int) -> bool {
    0 <= b < 8 && (byte >> ((7 - b) as u8)) & 1u8 == 1u8
}

/// Whether drawing `byte` with its leftmost pixel at `(x, y)` flips the pixel stored at index
/// `i`: that pixel lies on row `y` (wrapped), `b` columns right of `x` (wrapped), with bit `b`
/// of the byte set.
pub open spec fn byte_covers(x: int, y: int, byte: u8, i: int) -> bool {
    &&& 0 <= i < 2048
    &&& i / 64 == y % 32
    &&& byte_bit(byte, (i % 64 - x) % 64)
}

/// The screen after drawing `byte` at `(x, y)`: each covered pixel is flipped.
pub open spec fn draw_byte_pixels(pixels: Seq<bool>, x: int, y: int, byte: u8) -> Seq<bool> {
    Seq::new(pixels.len(), |i: int| pixels[i] != byte_covers(x, y, byte, i))
}

/// Whether drawing `byte` at `(x, y)` turns off a lit pixel.
pub open spec fn draw_byte_collision(pixels: Seq<bool>, x: int, y: int, byte: u8) -> bool {
    exists|i: int| 0 <= i < pixels.len() && #[trigger] byte_covers(x, y, byte, i) && pixels[i]
}

/// The screen, and whether some lit pixel was turned off, after drawing the rows of `sprite`
/// one after the other, row `k` at `(x, y + k)`.
pub open spec fn draw_sprite_state(pixels: Seq<bool>, x: int, y: int, sprite: Seq<u8>) -> (Seq<bool>, bool)
    decreases sprite.len(),
{
    if sprite.len() == 0 {
        (pixels, false)
    } else {
        let before = draw_sprite_state(pixels, x, y, sprite.drop_last());
        let row_y = y + sprite.len() - 1;
        (
            draw_byte_pixels(before.0, x, row_y, sprite.last()),
            before.1 || draw_byte_collision(before.0, x, row_y, sprite.last()),
        )
    }
}

/// The pixels that drawing `byte` at `(x, y)` flips through its first `n` bits.
spec fn byte_covers_before(x: int, y: int, byte: u8, n: int, i: int) -> bool {
    byte_covers(x, y, byte, i) && (i % 64 - x) % 64 < n
}

/// The pixel of column `x + b` on row `y` is the one that `byte_covers` reads as offset `b`.
proof fn lemma_pixel_offset(x: int, y: int, b: int)
    requires
        0 <= x,
        0 <= b < 8,
    ensures
        0 <= pixel_index(x + b, y) < 2048,
        pixel_index(x + b, y) / 64 == y % 32,
        (pixel_index(x + b, y) % 64 - x) % 64 == b,
{
    let p = pixel_index(x + b, y);
    assert(0 <= y % 32 < 32);
    assert(0 <= (x + b) % 64 < 64);
    assert(p / 64 == y % 32 && p % 64 == (x + b) % 64) by (nonlinear_arith)
        requires
            p == (y % 32) * 64 + (x + b) % 64,
            0 <= (x + b) % 64 < 64,
            0 <= y % 32 < 32,
    ;
    assert(((x + b) % 64 - x) % 64 == b) by (nonlinear_arith)
        requires
            0 <= b < 8,
            0 <= x,
    ;
}

/// A pixel index on row `y` at offset `b` from `x` is the pixel of column `x + b`.
proof fn lemma_offset_pixel(x: int, y: int, i: int)
    requires
        0 <= x,
        0 <= i < 2048,
        i / 64 == y % 32,
    ensures
        i == pixel_index(x + (i % 64 - x) % 64, y),
{
    let b = (i % 64 - x) % 64;
    assert(i == pixel_index(x + b, y)) by (nonlinear_arith)
        requires
            0 <= x,
            0 <= i < 2048,
            i / 64 == y % 32,
            b == (i % 64 - x) % 64,
    ;
}

impl Display {
    /// A screen with every pixel off.
    pub fn new() -> (display: Display)
        ensures
            display@ == blank_screen(),
    {
        let display = Display { pixels: [false; 2048] };
        assert(display@ =~= blank_screen());
        display
    }

    /// Turns every pixel off.
    pub fn clear(&mut self)
        ensures
            final(self)@ == blank_screen(),
    {
        self.pixels = [false; 2048];
        assert(self@ =~= blank_screen());
    }

    /// Whether the pixel at `(x, y)` is lit; coordinates wrap around the screen.
    pub fn get_pixel(&mut self, x: usize, y: usize) -> (lit: bool)
        ensures
            lit == old(self)@[pixel_index(x as int, y as int)],
            final(self)@ == old(self)@,
    {
        let index = (y % 32) * 64 + (x % 64);
        let pixel_status = self.pixels[index];
        pixel_status
    }

    /// Flips the pixel at `(x, y)` (coordinates wrap) and tells whether it was lit before.
    pub fn toggle_pixel(&mut self, x: usize, y: usize) -> (was_on: bool)
        ensures
            was_on == old(self)@[pixel_index(x as int, y as int)],
            final(self)@ == old(self)@.update(pixel_index(x as int, y as int), !was_on),
    {
        let index = (y % 32) * 64 + (x % 64);
        let was_on = self.pixels[index];
        self.pixels[index] = !was_on;
        was_on
    }

    /// Draws the 8 pixels of `byte` from `(x, y)` rightwards by flipping each pixel whose bit
    /// is set (coordinates wrap), and tells whether a lit pixel was turned off.
    pub fn draw_byte(&mut self, x: usize, y: usize, byte: u8) -> (collision: bool)
        requires
            x + 7 <= usize::MAX,
        ensures
            final(self)@ == draw_byte_pixels(old(self)@, x as int, y as int, byte),
            collision == draw_byte_collision(old(self)@, x as int, y as int, byte),
    {
        let ghost start = self@;
        let mut was_on_flag = false;
        let mut bit: usize = 0;
        while bit < 8
            invariant
                bit <= 8,
                x + 7 <= usize::MAX,
                start.len() == 2048,
                self@ == Seq::new(
                    2048,
                    |i: int| start[i] != byte_covers_before(x as int, y as int, byte, bit as int, i),
                ),
                was_on_flag == exists|i: int|
                    #[trigger] byte_covers_before(x as int, y as int, byte, bit as int, i) && start[i],
            decreases 8 - bit,
        {
            let ghost before = self@;
            let ghost flag_before = was_on_flag;
            let col = x + bit;
            let bit_value = (byte >> (7 - bit)) & 1;
            proof {
                lemma_pixel_offset(x as int, y as int, bit as int);
                assert((bit_value == 1) == byte_bit(byte, bit as int)) by (bit_vector)
                    requires
                        bit < 8,
                        bit_value == (byte >> ((7 - bit) as usize)) & 1,
                ;
            }
            if bit_value == 1 {
                let was_on = self.toggle_pixel(col, y);
                was_on_flag = was_on_flag || was_on;
            }
            proof {
                let p = pixel_index(col as int, y as int);
                assert forall|i: int| 0 <= i < 2048 implies
                    #[trigger] byte_covers_before(x as int, y as int, byte, bit + 1, i)
                        == (byte_covers_before(x as int, y as int, byte, bit as int, i)
                            || (i == p && byte_bit(byte, bit as int))) by {
                    if byte_covers(x as int, y as int, byte, i) && (i % 64 - x as int) % 64 == bit {
                        lemma_offset_pixel(x as int, y as int, i);
                    }
                }
                assert(!byte_covers_before(x as int, y as int, byte, bit as int, p));
                assert(self@ =~= Seq::new(
                    2048,
                    |i: int| start[i] != byte_covers_before(x as int, y as int, byte, bit + 1, i),
                ));
                if flag_before {
                    let w = choose|i: int|
                        #[trigger] byte_covers_before(x as int, y as int, byte, bit as int, i) && start[i];
                    assert(byte_covers_before(x as int, y as int, byte, bit + 1, w));
                }
                if bit_value == 1 && start[p] {
                    assert(byte_covers_before(x as int, y as int, byte, bit + 1, p));
                }
                if !was_on_flag {
                    assert forall|i: int| !(#[trigger] byte_covers_before(x as int, y as int, byte, bit + 1, i) && start[i]) by {
                        if 0 <= i < 2048 && byte_covers_before(x as int, y as int, byte, bit + 1, i) && start[i] {
                            if byte_covers_before(x as int, y as int, byte, bit as int, i) {
                                assert(flag_before);
                            } else {
                                assert(i == p);
                                assert(byte_bit(byte, bit as int));
                                assert(before[p] == start[p]);
                            }
                        }
                    }
                }
            }
            bit = bit + 1;
        }
        proof {
            assert(self@ =~= draw_byte_pixels(start, x as int, y as int, byte));
            if was_on_flag {
                let i = choose|i: int| #[trigger] byte_covers_before(x as int, y as int, byte, 8, i) && start[i];
                assert(byte_covers(x as int, y as int, byte, i));
            }
            if draw_byte_collision(start, x as int, y as int, byte) {
                let i = choose|i: int| 0 <= i < start.len() && #[trigger] byte_covers(x as int, y as int, byte, i) && start[i];
                assert(byte_covers_before(x as int, y as int, byte, 8, i));
            }
        }
        was_on_flag
    }

    /// Draws `sprite` with its first row at `(x, y)`: row `k` is drawn as a byte at
    /// `(x, y + k)`, and coordinates wrap. Tells whether a lit pixel was turned off.
    pub fn draw_sprite(&mut self, x: usize, y: usize, sprite: &[u8]) -> (collision: bool)
        requires
            sprite@.len() > 0 ==> x + 7 <= usize::MAX,
            y + sprite@.len() <= usize::MAX + 1,
        ensures
            (final(self)@, collision) == draw_sprite_state(old(self)@, x as int, y as int, sprite@),
    {
        let ghost start = self@;
        let mut was_on_flag = false;
        let mut sprite_row: usize = 0;
        while sprite_row < sprite.len()
            invariant
                sprite_row <= sprite@.len(),
                sprite@.len() > 0 ==> x + 7 <= usize::MAX,
                y + sprite@.len() <= usize::MAX + 1,
                (self@, was_on_flag) == draw_sprite_state(start, x as int, y as int, sprite@.take(sprite_row as int)),
            decreases sprite@.len() - sprite_row,
        {
            let y = y + sprite_row;
            let was_on_row = self.draw_byte(x, y, sprite[sprite_row]);
            was_on_flag = was_on_flag || was_on_row;
            proof {
                assert(sprite@.take(sprite_row + 1).drop_last() =~= sprite@.take(sprite_row as int));
            }
            sprite_row = sprite_row + 1;
        }
        assert(sprite@.take(sprite@.len() as int) =~= sprite@);
        was_on_flag
    }
}

/// Whether the pixel stored at index `i` is flipped an odd number of times by the rows of
/// `sprite` drawn from `(x, y)`.
spec fn sprite_hits(x: int, y: int, sprite: Seq<u8>, i: int) -> bool
    decreases sprite.len(),
{
    if sprite.len() == 0 {
        false
    } else {
        sprite_hits(x, y, sprite.drop_last(), i) != byte_covers(x, y + sprite.len() - 1, sprite.last(), i)
    }
}

/// Drawing a sprite flips exactly the pixels that its rows cover an odd number of times.
proof fn lemma_draw_sprite_pixels(pixels: Seq<bool>, x: int, y: int, sprite: Seq<u8>)
    ensures
        draw_sprite_state(pixels, x, y, sprite).0
            == Seq::new(pixels.len(), |i: int| pixels[i] != sprite_hits(x, y, sprite, i)),
    decreases sprite.len(),
{
    if sprite.len() == 0 {
        assert(pixels =~= Seq::new(pixels.len(), |i: int| pixels[i] != sprite_hits(x, y, sprite, i)));
    } else {
        lemma_draw_sprite_pixels(pixels, x, y, sprite.drop_last());
        assert(draw_sprite_state(pixels, x, y, sprite).0
            =~= Seq::new(pixels.len(), |i: int| pixels[i] != sprite_hits(x, y, sprite, i)));
    }
}

/// Drawing keeps the size of the screen.
pub(crate) proof fn lemma_draw_sprite_length(pixels: Seq<bool>, x: int, y: int, sprite: Seq<u8>)
    ensures
        draw_sprite_state(pixels, x, y, sprite).0.len() == pixels.len(),
{
    lemma_draw_sprite_pixels(pixels, x, y, sprite);
}

/// Drawing the same sprite twice at the same place restores the screen: the second drawing
/// erases the first.
pub proof fn lemma_redraw_erases(pixels: Seq<bool>, x: int, y: int, sprite: Seq<u8>)
    ensures
        draw_sprite_state(draw_sprite_state(pixels, x, y, sprite).0, x, y, sprite).0 == pixels,
{
    let once = draw_sprite_state(pixels, x, y, sprite).0;
    lemma_draw_sprite_pixels(pixels, x, y, sprite);
    lemma_draw_sprite_pixels(once, x, y, sprite);
    assert(draw_sprite_state(once, x, y, sprite).0 =~= pixels);
}

/// The row of a sprite drawn from `y` that lands on the screen line of the pixel at index `i`,
/// counted modulo the 32 lines of the screen.
spec fn row_on_line(i: int, y: int) -> int {
    (i / 64 - y) % 32
}

/// Row `row_on_line(i, y)` of a sprite drawn from `y` is the only one among the first 32 rows
/// that lies on the line of pixel `i`.
proof fn lemma_row_on_line(i: int, y: int, k: int)
    requires
        0 <= i < 2048,
    ensures
        0 <= row_on_line(i, y) < 32,
        (y + row_on_line(i, y)) % 32 == i / 64,
        0 <= k < 32 && (y + k) % 32 == i / 64 ==> k == row_on_line(i, y),
{
    let r = row_on_line(i, y);
    assert(0 <= i / 64 < 32);
    assert(0 <= r < 32 && (y + r) % 32 == i / 64) by (nonlinear_arith)
        requires
            r == (i / 64 - y) % 32,
            0 <= i / 64 < 32,
    ;
    if 0 <= k < 32 && (y + k) % 32 == i / 64 {
        assert(k == r) by (nonlinear_arith)
            requires
                0 <= k < 32,
                0 <= r < 32,
                (y + k) % 32 == (y + r) % 32,
        ;
    }
}

/// For a sprite of at most 32 rows, no two rows share a screen line, so a pixel is flipped by
/// at most one row: the row that lies on its line.
proof fn lemma_sprite_hits_single_row(x: int, y: int, sprite: Seq<u8>, i: int)
    requires
        sprite.len() <= 32,
        0 <= i < 2048,
    ensures
        sprite_hits(x, y, sprite, i) == (row_on_line(i, y) < sprite.len() && byte_covers(
            x,
            y + row_on_line(i, y),
            sprite[row_on_line(i, y)],
            i,
        )),
    decreases sprite.len(),
{
    if sprite.len() > 0 {
        let n = sprite.len() - 1;
        let k = row_on_line(i, y);
        lemma_sprite_hits_single_row(x, y, sprite.drop_last(), i);
        lemma_row_on_line(i, y, n);
    }
}

/// Some pixel is covered by drawing `byte` exactly when the byte is not zero.
proof fn lemma_byte_covers_some(x: nat, y: int, byte: u8)
    ensures
        (exists|i: int| 0 <= i < 2048 && #[trigger] byte_covers(x as int, y, byte, i)) == (byte != 0),
{
    if byte != 0 {
        assert(byte_bit(byte, 0) || byte_bit(byte, 1) || byte_bit(byte, 2) || byte_bit(byte, 3)
            || byte_bit(byte, 4) || byte_bit(byte, 5) || byte_bit(byte, 6) || byte_bit(byte, 7))
            by (bit_vector)
            requires
                byte != 0,
        ;
        let b = choose|b: int| 0 <= b < 8 && byte_bit(byte, b);
        lemma_pixel_offset(x as int, y, b);
        assert(byte_covers(x as int, y, byte, pixel_index(x + b, y)));
    } else {
        assert forall|i: int| 0 <= i < 2048 implies !#[trigger] byte_covers(x as int, y, byte, i) by {
            let b = (i % 64 - x) % 64;
            if 0 <= b < 8 {
                let bb = b as u8;
                assert(byte == 0 ==> (byte >> ((7 - bb) as u8)) & 1u8 == 0u8) by (bit_vector)
                    requires
                        bb < 8,
                ;
            }
        }
    }
}

/// On a blank screen the rows of a sprite of at most 32 rows never meet a lit pixel.
proof fn lemma_blank_no_collision(x: nat, y: nat, sprite: Seq<u8>, m: int)
    requires
        sprite.len() <= 32,
        0 <= m <= sprite.len(),
    ensures
        !draw_sprite_state(blank_screen(), x as int, y as int, sprite.take(m)).1,
    decreases m,
{
    if m > 0 {
        let t = sprite.take(m);
        let prefix = sprite.take(m - 1);
        assert(t.drop_last() =~= prefix);
        lemma_blank_no_collision(x, y, sprite, m - 1);
        lemma_draw_sprite_pixels(blank_screen(), x as int, y as int, prefix);
        let before = draw_sprite_state(blank_screen(), x as int, y as int, prefix).0;
        assert forall|i: int| 0 <= i < before.len() && #[trigger] byte_covers(
            x as int,
            y + m - 1,
            sprite[m - 1],
            i,
        ) implies !before[i] by {
            lemma_row_on_line(i, y as int, m - 1);
            lemma_sprite_hits_single_row(x as int, y as int, prefix, i);
        }
        assert(!draw_byte_collision(before, x as int, y + m - 1, sprite[m - 1]));
    }
}

/// Drawing again a sprite of at most 32 rows that was drawn on a blank screen meets a lit
/// pixel in the first `m` rows exactly when one of those rows is not zero.
proof fn lemma_redraw_collision(x: nat, y: nat, sprite: Seq<u8>, m: int)
    requires
        sprite.len() <= 32,
        0 <= m <= sprite.len(),
    ensures
        draw_sprite_state(
            draw_sprite_state(blank_screen(), x as int, y as int, sprite).0,
            x as int,
            y as int,
            sprite.take(m),
        ).1 == exists|k: int| 0 <= k < m && sprite[k] != 0,
    decreases m,
{
    let drawn = draw_sprite_state(blank_screen(), x as int, y as int, sprite).0;
    if m == 0 {
        assert(sprite.take(0) =~= Seq::<u8>::empty());
    } else {
        let t = sprite.take(m);
        let prefix = sprite.take(m - 1);
        assert(t.drop_last() =~= prefix);
        lemma_redraw_collision(x, y, sprite, m - 1);
        lemma_draw_sprite_pixels(blank_screen(), x as int, y as int, sprite);
        lemma_draw_sprite_pixels(drawn, x as int, y as int, prefix);
        let before = draw_sprite_state(drawn, x as int, y as int, prefix).0;
        assert forall|i: int| 0 <= i < before.len() && #[trigger] byte_covers(
            x as int,
            y + m - 1,
            sprite[m - 1],
            i,
        ) implies before[i] by {
            lemma_row_on_line(i, y as int, m - 1);
            lemma_sprite_hits_single_row(x as int, y as int, prefix, i);
            lemma_sprite_hits_single_row(x as int, y as int, sprite, i);
        }
        lemma_byte_covers_some(x, y + m - 1, sprite[m - 1]);
        assert(draw_byte_collision(before, x as int, y + m - 1, sprite[m - 1]) == (sprite[m - 1] != 0));
        if exists|k: int| 0 <= k < m && sprite[k] != 0 {
            let k = choose|k: int| 0 <= k < m && sprite[k] != 0;
            if k < m - 1 {
                assert(exists|j: int| 0 <= j < m - 1 && sprite[j] != 0);
            }
        }
    }
}

/// On a blank screen, a sprite of at most 32 rows (so that no two rows share a screen line) is
/// drawn without collision; drawing it a second time at the same place reports a collision
/// exactly when the sprite has a lit pixel, and leaves the screen blank again.
pub proof fn lemma_draw_on_blank_screen(x: nat, y: nat, sprite: Seq<u8>)
    requires
        sprite.len() <= 32,
    ensures
        !draw_sprite_state(blank_screen(), x as int, y as int, sprite).1,
        draw_sprite_state(draw_sprite_state(blank_screen(), x as int, y as int, sprite).0, x as int, y as int, sprite).1
            == exists|k: int| 0 <= k < sprite.len() && sprite[k] != 0,
        draw_sprite_state(draw_sprite_state(blank_screen(), x as int, y as int, sprite).0, x as int, y as int, sprite).0
            == blank_screen(),
{
    assert(sprite.take(sprite.len() as int) =~= sprite);
    lemma_blank_no_collision(x, y, sprite, sprite.len() as int);
    lemma_redraw_collision(x, y, sprite, sprite.len() as int);
    lemma_redraw_erases(blank_screen(), x as int, y as int, sprite);
}

/// Toggling the same pixel twice restores the screen, and the second toggle reports the pixel
/// lit exactly when the first one found it off.
pub proof fn lemma_toggle_twice(pixels: Seq<bool>, x: nat, y: nat)
    requires
        pixels.len() == 2048,
    ensures
        ({
            let index = pixel_index(x as int, y as int);
            let once = pixels.update(index, !pixels[index]);
            &&& once[index] == !pixels[index]
            &&& once.update(index, !once[index]) == pixels
        }),
{
    lemma_pixel_offset(x as int, y as int, 0);
    let index = pixel_index(x as int, y as int);
    let once = pixels.update(index, !pixels[index]);
    assert(once.update(index, !once[index]) =~= pixels);
}

/// Whether row `r` of `sprite`, drawn from `(x, y)`, covers a pixel that is lit in `pixels`.
pub open spec fn row_meets_lit_pixel(pixels: Seq<bool>, x: int, y: int, sprite: Seq<u8>, r: int) -> bool {
    exists|i: int| 0 <= i < pixels.len() && #[trigger] byte_covers(x, y + r, sprite[r], i) && pixels[i]
}

/// For the first `m` rows of a sprite of at most 32 rows, the collision flag tells whether one
/// of those rows covers a pixel that was lit before drawing.
proof fn lemma_collision_prefix(pixels: Seq<bool>, x: nat, y: nat, sprite: Seq<u8>, m: int)
    requires
        pixels.len() == 2048,
        sprite.len() <= 32,
        0 <= m <= sprite.len(),
    ensures
        draw_sprite_state(pixels, x as int, y as int, sprite.take(m)).1
            == exists|r: int| 0 <= r < m && #[trigger] row_meets_lit_pixel(pixels, x as int, y as int, sprite, r),
    decreases m,
{
    if m == 0 {
        assert(sprite.take(0) =~= Seq::<u8>::empty());
    } else {
        let prefix = sprite.take(m - 1);
        assert(sprite.take(m).drop_last() =~= prefix);
        lemma_collision_prefix(pixels, x, y, sprite, m - 1);
        lemma_draw_sprite_pixels(pixels, x as int, y as int, prefix);
        let before = draw_sprite_state(pixels, x as int, y as int, prefix).0;
        assert forall|i: int| 0 <= i < 2048 && #[trigger] byte_covers(
            x as int,
            y + m - 1,
            sprite[m - 1],
            i,
        ) implies before[i] == pixels[i] by {
            lemma_row_on_line(i, y as int, m - 1);
            lemma_sprite_hits_single_row(x as int, y as int, prefix, i);
        }
        assert(draw_byte_collision(before, x as int, y + m - 1, sprite[m - 1])
            == row_meets_lit_pixel(pixels, x as int, y as int, sprite, m - 1));
        if exists|r: int| 0 <= r < m && #[trigger] row_meets_lit_pixel(pixels, x as int, y as int, sprite, r) {
            let r = choose|r: int| 0 <= r < m && #[trigger] row_meets_lit_pixel(pixels, x as int, y as int, sprite, r);
            if r < m - 1 {
                assert(exists|j: int| 0 <= j < m - 1 && #[trigger] row_meets_lit_pixel(pixels, x as int, y as int, sprite, j));
            }
        }
    }
}

/// When a sprite has at most 32 rows (so no two rows share a screen line), drawing it reports a
/// collision exactly when one of its rows covers a pixel that was lit before drawing.
pub proof fn lemma_collision_iff_lit_pixel_covered(pixels: Seq<bool>, x: nat, y: nat, sprite: Seq<u8>)
    requires
        pixels.len() == 2048,
        sprite.len() <= 32,
    ensures
        draw_sprite_state(pixels, x as int, y as int, sprite).1
            == exists|r: int| 0 <= r < sprite.len() && #[trigger] row_meets_lit_pixel(pixels, x as int, y as int, sprite, r),
{
    assert(sprite.take(sprite.len() as int) =~= sprite);
    lemma_collision_prefix(pixels, x, y, sprite, sprite.len() as int);
}

/// Of two successive drawings of the same sprite (at most 32 rows, not all zero) at the same
/// place, at least one reports a collision: a pixel that the sprite covers is either lit before
/// the first drawing, or lit by it and turned off by the second.
pub proof fn lemma_one_of_two_draws_collides(pixels: Seq<bool>, x: nat, y: nat, sprite: Seq<u8>)
    requires
        pixels.len() == 2048,
        sprite.len() <= 32,
        exists|k: int| 0 <= k < sprite.len() && sprite[k] != 0,
    ensures
        draw_sprite_state(pixels, x as int, y as int, sprite).1 || draw_sprite_state(
            draw_sprite_state(pixels, x as int, y as int, sprite).0,
            x as int,
            y as int,
            sprite,
        ).1,
{
    let k = choose|k: int| 0 <= k < sprite.len() && sprite[k] != 0;
    lemma_byte_covers_some(x, y + k, sprite[k]);
    let i = choose|i: int| 0 <= i < 2048 && #[trigger] byte_covers(x as int, y + k, sprite[k], i);
    let once = draw_sprite_state(pixels, x as int, y as int, sprite).0;
    lemma_draw_sprite_pixels(pixels, x as int, y as int, sprite);
    lemma_collision_iff_lit_pixel_covered(pixels, x, y, sprite);
    lemma_collision_iff_lit_pixel_covered(once, x, y, sprite);
    lemma_row_on_line(i, y as int, k);
    lemma_sprite_hits_single_row(x as int, y as int, sprite, i);
    if pixels[i] {
        assert(row_meets_lit_pixel(pixels, x as int, y as int, sprite, k));
    } else {
        assert(once[i]);
        assert(row_meets_lit_pixel(once, x as int, y as int, sprite, k));
    }
}

} // verus!
