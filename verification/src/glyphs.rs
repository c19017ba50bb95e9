//! The 5x5 bitmap font: decimal digits for the frame counter and letters for
//! the success screen.

use vstd::prelude::*;
use crate::framebuffer::{
    Framebuffer, paint, lemma_paint_add_pixel, lemma_paint_congruent, lemma_paint_union,
    lemma_row_bound,
};

verus! {

/// The five rows of decimal digit `d`; in each row bit 4 is the leftmost
/// column and bit 0 the rightmost.
pub open spec fn digit_glyph(d: int) -> Seq<u8> {
    if d == 0 {
        seq![0b01110u8, 0b10001, 0b10001, 0b10001, 0b01110]
    } else if d == 1 {
        seq![0b00100u8, 0b01100, 0b00100, 0b00100, 0b01110]
    } else if d == 2 {
        seq![0b01110u8, 0b10001, 0b00110, 0b01000, 0b11111]
    } else if d == 3 {
        seq![0b01110u8, 0b10001, 0b00110, 0b10001, 0b01110]
    } else if d == 4 {
        seq![0b00100u8, 0b01100, 0b10100, 0b11111, 0b00100]
    } else if d == 5 {
        seq![0b11111u8, 0b10000, 0b11110, 0b00001, 0b11110]
    } else if d == 6 {
        seq![0b01110u8, 0b10000, 0b11110, 0b10001, 0b01110]
    } else if d == 7 {
        seq![0b11111u8, 0b00010, 0b00100, 0b01000, 0b10000]
    } else if d == 8 {
        seq![0b01110u8, 0b10001, 0b01110, 0b10001, 0b01110]
    } else {
        seq![0b01110u8, 0b10001, 0b01111, 0b00001, 0b01110]
    }
}

/// The five rows of letter `c`: `H`, `a` and `s` have shapes of their own,
/// every other character is a full block.
pub open spec fn letter_glyph(c: char) -> Seq<u8> {
    if c == 'H' {
        seq![0b10001u8, 0b10001, 0b11111, 0b10001, 0b10001]
    } else if c == 'a' {
        seq![0b01110u8, 0b10001, 0b11111, 0b10001, 0b10001]
    } else if c == 's' {
        seq![0b01111u8, 0b10000, 0b01110, 0b00001, 0b11110]
    } else {
        seq![0b11111u8, 0b11111, 0b11111, 0b11111, 0b11111]
    }
}

/// The digit font, row by row from the top, a row's leftmost pixel in bit 4.
pub proof fn lemma_digit_font()
    ensures
        digit_glyph(0) == seq![0b01110_u8, 0b10001, 0b10001, 0b10001, 0b01110],
        digit_glyph(1) == seq![0b00100_u8, 0b01100, 0b00100, 0b00100, 0b01110],
        digit_glyph(2) == seq![0b01110_u8, 0b10001, 0b00110, 0b01000, 0b11111],
        digit_glyph(3) == seq![0b01110_u8, 0b10001, 0b00110, 0b10001, 0b01110],
        digit_glyph(4) == seq![0b00100_u8, 0b01100, 0b10100, 0b11111, 0b00100],
        digit_glyph(5) == seq![0b11111_u8, 0b10000, 0b11110, 0b00001, 0b11110],
        digit_glyph(6) == seq![0b01110_u8, 0b10000, 0b11110, 0b10001, 0b01110],
        digit_glyph(7) == seq![0b11111_u8, 0b00010, 0b00100, 0b01000, 0b10000],
        digit_glyph(8) == seq![0b01110_u8, 0b10001, 0b01110, 0b10001, 0b01110],
        digit_glyph(9) == seq![0b01110_u8, 0b10001, 0b01111, 0b00001, 0b01110],
{
}

/// The letter font: `H`, `a` and `s` have their own shapes, all different
/// from one another and from the full block that every other character gets.
pub proof fn lemma_letter_font(c: char)
    ensures
        letter_glyph('H') == seq![0b10001_u8, 0b10001, 0b11111, 0b10001, 0b10001],
        letter_glyph('a') == seq![0b01110_u8, 0b10001, 0b11111, 0b10001, 0b10001],
        letter_glyph('s') == seq![0b01111_u8, 0b10000, 0b01110, 0b00001, 0b11110],
        c != 'H' && c != 'a' && c != 's' ==> letter_glyph(c) == seq![0b11111_u8, 0b11111, 0b11111, 0b11111, 0b11111],
        letter_glyph('H') != letter_glyph('a'),
        letter_glyph('H') != letter_glyph('s'),
        letter_glyph('a') != letter_glyph('s'),
        letter_glyph('H') != letter_glyph('A'),
        letter_glyph('a') != letter_glyph('A'),
        letter_glyph('s') != letter_glyph('A'),
{
    assert(letter_glyph('H')[0] != letter_glyph('a')[0]);
    assert(letter_glyph('H')[0] != letter_glyph('s')[0]);
    assert(letter_glyph('a')[0] != letter_glyph('s')[0]);
    assert(letter_glyph('H')[0] != letter_glyph('A')[0]);
    assert(letter_glyph('a')[0] != letter_glyph('A')[0]);
    assert(letter_glyph('s')[0] != letter_glyph('A')[0]);
}

/// The five rows of a glyph read as one number, top row most significant.
pub open spec fn glyph_code(g: Seq<u8>) -> int {
    (((g[0] as int * 32 + g[1] as int) * 32 + g[2] as int) * 32 + g[3] as int) * 32 + g[4] as int
}

/// No two digits look alike: different digits have different glyphs, so
/// every number is drawn as itself.
pub proof fn lemma_digit_glyphs_distinct(d1: int, d2: int)
    requires
        0 <= d1 <= 9,
        0 <= d2 <= 9,
        d1 != d2,
    ensures
        digit_glyph(d1) != digit_glyph(d2),
{
    if digit_glyph(d1) == digit_glyph(d2) {
        assert(glyph_code(digit_glyph(d1)) == glyph_code(digit_glyph(d2)));
        assert(false);
    }
}

/// Whether column `col` (0 is the leftmost of five) of glyph row `bits` is lit.
pub open spec fn glyph_bit(bits: u8, col: int) -> bool {
    bits & (1u8 << ((4 - col) as u8)) != 0
}

/// Whether pixel `(px, py)` is lit by `glyph` drawn with its top-left corner
/// at `(x, y)`.
pub open spec fn glyph_region(glyph: Seq<u8>, x: int, y: int, px: int, py: int) -> bool {
    &&& x <= px < x + 5
    &&& y <= py < y + 5
    &&& glyph_bit(glyph[py - y], px - x)
}

/// The rows of decimal digit `d`.
pub fn digit_rows(d: u8) -> (g: [u8; 5])
    requires
        d <= 9,
    ensures
        g@ == digit_glyph(d as int),
{
    let g: [u8; 5] = match d {
        0 => [0b01110, 0b10001, 0b10001, 0b10001, 0b01110],
        1 => [0b00100, 0b01100, 0b00100, 0b00100, 0b01110],
        2 => [0b01110, 0b10001, 0b00110, 0b01000, 0b11111],
        3 => [0b01110, 0b10001, 0b00110, 0b10001, 0b01110],
        4 => [0b00100, 0b01100, 0b10100, 0b11111, 0b00100],
        5 => [0b11111, 0b10000, 0b11110, 0b00001, 0b11110],
        6 => [0b01110, 0b10000, 0b11110, 0b10001, 0b01110],
        7 => [0b11111, 0b00010, 0b00100, 0b01000, 0b10000],
        8 => [0b01110, 0b10001, 0b01110, 0b10001, 0b01110],
        _ => [0b01110, 0b10001, 0b01111, 0b00001, 0b01110],
    };
    assert(g@ =~= digit_glyph(d as int));
    g
}

/// The rows of letter `c`.
pub fn letter_rows(c: char) -> (g: [u8; 5])
    ensures
        g@ == letter_glyph(c),
{
    let g: [u8; 5] = match c {
        'H' => [0b10001, 0b10001, 0b11111, 0b10001, 0b10001],
        'a' => [0b01110, 0b10001, 0b11111, 0b10001, 0b10001],
        's' => [0b01111, 0b10000, 0b01110, 0b00001, 0b11110],
        _ => [0b11111, 0b11111, 0b11111, 0b11111, 0b11111],
    };
    assert(g@ =~= letter_glyph(c));
    g
}

/// Draws `glyph` in the current colour with its top-left corner at `(x, y)`;
/// lit pixels off the screen are skipped.
pub fn draw_glyph(fb: &mut Framebuffer, x: usize, y: usize, glyph: &[u8; 5])
    requires
        old(fb).wf(),
        x + 4 <= usize::MAX,
        y + 4 <= usize::MAX,
    ensures
        final(fb).wf(),
        final(fb).same_settings(old(fb)),
        final(fb).buffer@ == old(fb).painted(
            |px: int, py: int| glyph_region(glyph@, x as int, y as int, px, py),
        ),
{
    let ghost buf0 = fb.buffer@;
    let ghost w = fb.width as int;
    let ghost h = fb.height as int;
    let ghost c = fb.current();
    let ghost g = glyph@;
    let ghost xi = x as int;
    let ghost yi = y as int;
    proof {
        lemma_paint_congruent(
            buf0,
            w,
            h,
            |px: int, py: int| false,
            |px: int, py: int| glyph_region(g, xi, yi, px, py) && py < yi,
            c,
        );
        assert(paint(buf0, w, |px: int, py: int| false, c) =~= buf0);
    }
    let mut row: usize = 0;
    while row < 5
        invariant
            fb.wf(),
            fb.same_settings(old(fb)),
            buf0 == old(fb).buffer@,
            buf0.len() == w * h,
            w == fb.width,
            h == fb.height,
            c == fb.current(),
            g == glyph@,
            xi == x,
            yi == y,
            x + 4 <= usize::MAX,
            y + 4 <= usize::MAX,
            row <= 5,
            fb.buffer@ == paint(
                buf0,
                w,
                |px: int, py: int| glyph_region(g, xi, yi, px, py) && py < yi + row,
                c,
            ),
        decreases 5 - row,
    {
        let bits = glyph[row];
        let ghost r = row as int;
        proof {
            lemma_paint_congruent(
                buf0,
                w,
                h,
                |px: int, py: int| glyph_region(g, xi, yi, px, py) && py < yi + r,
                |px: int, py: int|
                    glyph_region(g, xi, yi, px, py) && (py < yi + r || (py == yi + r && px < xi)),
                c,
            );
        }
        let mut col: usize = 0;
        while col < 5
            invariant
                fb.wf(),
                fb.same_settings(old(fb)),
                buf0.len() == w * h,
                w == fb.width,
                h == fb.height,
                c == fb.current(),
                g == glyph@,
                xi == x,
                yi == y,
                x + 4 <= usize::MAX,
                y + 4 <= usize::MAX,
                r == row,
                row < 5,
                col <= 5,
                bits == g[r],
                fb.buffer@ == paint(
                    buf0,
                    w,
                    |px: int, py: int|
                        glyph_region(g, xi, yi, px, py) && (py < yi + r || (py == yi + r && px
                            < xi + col)),
                    c,
                ),
            decreases 5 - col,
        {
            let ghost k = col as int;
            let mask: u8 = 1u8 << ((4 - col) as u8);
            let ghost r1 = |px: int, py: int|
                glyph_region(g, xi, yi, px, py) && (py < yi + r || (py == yi + r && px < xi + k));
            let ghost r2 = |px: int, py: int|
                glyph_region(g, xi, yi, px, py) && (py < yi + r || (py == yi + r && px < xi + k
                    + 1));
            if bits & mask != 0 {
                proof {
                    assert(glyph_bit(g[r], k));
                    assert forall|px: int, py: int| #[trigger]
                        r2(px, py) == (r1(px, py) || (px == xi + k && py == yi + r)) by {
                        if px == xi + k && py == yi + r {
                            assert(glyph_region(g, xi, yi, px, py));
                        }
                    }
                    lemma_paint_add_pixel(buf0, w, h, r1, r2, c, xi + k, yi + r);
                    if xi + k < w && yi + r < h {
                        lemma_row_bound(w, h, xi + k, yi + r);
                    }
                }
                fb.point(x + col, y + row);
            } else {
                proof {
                    assert(!glyph_bit(g[r], k));
                    assert forall|px: int, py: int| #[trigger] r2(px, py) == r1(px, py) by {
                        if px == xi + k && py == yi + r {
                            assert(!glyph_region(g, xi, yi, px, py));
                        }
                    }
                    lemma_paint_congruent(buf0, w, h, r1, r2, c);
                }
            }
            col = col + 1;
        }
        proof {
            lemma_paint_congruent(
                buf0,
                w,
                h,
                |px: int, py: int|
                    glyph_region(g, xi, yi, px, py) && (py < yi + r || (py == yi + r && px < xi
                        + 5)),
                |px: int, py: int| glyph_region(g, xi, yi, px, py) && py < yi + r + 1,
                c,
            );
        }
        row = row + 1;
    }
    proof {
        lemma_paint_congruent(
            buf0,
            w,
            h,
            |px: int, py: int| glyph_region(g, xi, yi, px, py) && py < yi + 5,
            |px: int, py: int| glyph_region(glyph@, xi, yi, px, py),
            c,
        );
    }
}

/// Draws decimal digit `digito` in the current colour with its top-left
/// corner at `(x, y)`; a value above 9 draws nothing.
pub fn dibujar_digitos(fb: &mut Framebuffer, x: usize, y: usize, digito: u8)
    requires
        digito <= 9 ==> old(fb).wf(),
        digito <= 9 ==> x + 4 <= usize::MAX && y + 4 <= usize::MAX,
    ensures
        digito > 9 ==> *final(fb) == *old(fb),
        digito <= 9 ==> final(fb).wf(),
        final(fb).same_settings(old(fb)),
        digito <= 9 ==> final(fb).buffer@ == old(fb).painted(
            |px: int, py: int| glyph_region(digit_glyph(digito as int), x as int, y as int, px, py),
        ),
{
    if digito > 9 {
        return ;
    }
    let g = digit_rows(digito);
    draw_glyph(fb, x, y, &g);
}

/// Draws letter `letra` in the current colour with its top-left corner at
/// `(x, y)`.
pub fn dibujar_letra(fb: &mut Framebuffer, x: usize, y: usize, letra: char)
    requires
        old(fb).wf(),
        x + 4 <= usize::MAX,
        y + 4 <= usize::MAX,
    ensures
        final(fb).wf(),
        final(fb).same_settings(old(fb)),
        final(fb).buffer@ == old(fb).painted(
            |px: int, py: int| glyph_region(letter_glyph(letra), x as int, y as int, px, py),
        ),
{
    let g = letter_rows(letra);
    draw_glyph(fb, x, y, &g);
}

/// The decimal digits of `n`, most significant first: `0` is the single
/// digit 0, no other number has a leading zero.
pub open spec fn decimal_digits(n: nat) -> Seq<u8>
    decreases n,
{
    if n < 10 {
        seq![n as u8]
    } else {
        decimal_digits(n / 10).push((n % 10) as u8)
    }
}

/// The number that a sequence of decimal digits, most significant first,
/// stands for.
pub open spec fn digits_value(s: Seq<u8>) -> nat
    decreases s.len(),
{
    if s.len() == 0 {
        0
    } else {
        digits_value(s.drop_last()) * 10 + s.last() as nat
    }
}

/// `10` to the power `k`.
pub open spec fn pow10(k: nat) -> nat
    decreases k,
{
    if k == 0 {
        1
    } else {
        10 * pow10((k - 1) as nat)
    }
}

/// The digits of `n` are decimal digits, read back as `n`, and have no
/// leading zero.
pub proof fn lemma_decimal_digits(n: nat)
    ensures
        decimal_digits(n).len() >= 1,
        digits_value(decimal_digits(n)) == n,
        forall|i: int| 0 <= i < decimal_digits(n).len() ==> #[trigger] decimal_digits(n)[i] <= 9,
        decimal_digits(n)[0] == 0 ==> n == 0,
    decreases n,
{
    if n >= 10 {
        lemma_decimal_digits(n / 10);
        let s = decimal_digits(n);
        assert(s.drop_last() =~= decimal_digits(n / 10));
        assert forall|i: int| 0 <= i < s.len() implies #[trigger] s[i] <= 9 by {
            if i < s.len() - 1 {
                assert(s[i] == decimal_digits(n / 10)[i]);
            }
        }
        assert(s[0] == decimal_digits(n / 10)[0]);
        assert(s.last() == n % 10);
        assert(n == (n / 10) * 10 + n % 10);
    } else {
        let s = decimal_digits(n);
        assert(s.drop_last() =~= Seq::<u8>::empty());
        assert(digits_value(s.drop_last()) == 0);
    }
}

/// A number below `10^k` has at most `k` digits.
pub proof fn lemma_decimal_digits_len(n: nat, k: nat)
    requires
        1 <= k,
        n < pow10(k),
    ensures
        decimal_digits(n).len() <= k,
    decreases n,
{
    if n >= 10 {
        if k == 1 {
            assert(pow10(1) == 10 * pow10(0));
        } else {
            assert(pow10(k) == 10 * pow10((k - 1) as nat));
            lemma_decimal_digits_len(n / 10, (k - 1) as nat);
        }
    }
}

/// The decimal digits of `n`.
pub fn decimal_digits_of(n: u32) -> (v: Vec<u8>)
    ensures
        v@ == decimal_digits(n as nat),
        1 <= v.len() <= 10,
{
    proof {
        assert(pow10(10) == 10000000000) by {
            reveal_with_fuel(pow10, 11);
        }
        lemma_decimal_digits_len(n as nat, 10);
    }
    let mut v: Vec<u8> = Vec::new();
    v.push((n % 10) as u8);
    let mut m: u32 = n / 10;
    assert(v@ =~= seq![(n % 10) as u8]);
    while m > 0
        invariant
            decimal_digits(n as nat) == (if m == 0 {
                Seq::<u8>::empty()
            } else {
                decimal_digits(m as nat)
            }) + v@,
        decreases m,
    {
        let ghost old_v = v@;
        v.insert(0, (m % 10) as u8);
        proof {
            if m < 10 {
                assert(decimal_digits(m as nat) =~= seq![(m % 10) as u8]);
                assert(v@ =~= seq![(m % 10) as u8] + old_v);
            } else {
                assert(decimal_digits(m as nat) == decimal_digits((m / 10) as nat).push(
                    (m % 10) as u8,
                ));
                assert(decimal_digits(m as nat) + old_v =~= decimal_digits((m / 10) as nat)
                    + v@);
            }
        }
        m = m / 10;
    }
    assert(v@ =~= decimal_digits(n as nat));
    v
}

/// Pixels lit by the first `count` digits of `digits` drawn at
/// `(10 + 6 * k, 10)` for digit `k`.
pub open spec fn digit_row_region(digits: Seq<u8>, count: int, px: int, py: int) -> bool {
    let k = (px - 10) / 6;
    &&& 10 <= px
    &&& k < count
    &&& k < digits.len()
    &&& glyph_region(digit_glyph(digits[k] as int), 10 + 6 * k, 10, px, py)
}

/// Pixels lit by the frame counter showing `fps`.
pub open spec fn fps_region(fps: nat, px: int, py: int) -> bool {
    digit_row_region(decimal_digits(fps), decimal_digits(fps).len() as int, px, py)
}

/// Draws the frames-per-second counter in white at the top-left corner: the
/// decimal digits of `fps`, six pixels apart, from `(10, 10)`. The current
/// colour is white afterwards.
pub fn dibujar_fps(fb: &mut Framebuffer, fps: u32)
    requires
        old(fb).wf(),
    ensures
        final(fb).wf(),
        final(fb).width == old(fb).width,
        final(fb).height == old(fb).height,
        final(fb).background() == old(fb).background(),
        final(fb).current() == 0xFFFFFF,
        final(fb).buffer@ == paint(
            old(fb).buffer@,
            old(fb).width as int,
            |px: int, py: int| fps_region(fps as nat, px, py),
            0xFFFFFFu32,
        ),
{
    fb.set_current_color(0xFFFFFF);
    let digits = decimal_digits_of(fps);
    let ghost ds = digits@;
    let ghost buf0 = fb.buffer@;
    let ghost w = fb.width as int;
    let ghost h = fb.height as int;
    proof {
        lemma_decimal_digits(fps as nat);
        lemma_paint_congruent(
            buf0,
            w,
            h,
            |px: int, py: int| false,
            |px: int, py: int| digit_row_region(ds, 0, px, py),
            0xFFFFFFu32,
        );
        assert(paint(buf0, w, |px: int, py: int| false, 0xFFFFFFu32) =~= buf0);
    }
    let mut i: usize = 0;
    while i < digits.len()
        invariant
            fb.wf(),
            fb.width == old(fb).width,
            fb.height == old(fb).height,
            fb.background() == old(fb).background(),
            fb.current() == 0xFFFFFF,
            buf0 == old(fb).buffer@,
            buf0.len() == w * h,
            w == fb.width,
            h == fb.height,
            ds == digits@,
            ds == decimal_digits(fps as nat),
            forall|j: int| 0 <= j < ds.len() ==> #[trigger] ds[j] <= 9,
            1 <= digits.len() <= 10,
            i <= digits.len(),
            fb.buffer@ == paint(
                buf0,
                w,
                |px: int, py: int| digit_row_region(ds, i as int, px, py),
                0xFFFFFFu32,
            ),
        decreases digits.len() - i,
    {
        let ghost k = i as int;
        dibujar_digitos(fb, 10 + i * 6, 10, digits[i]);
        proof {
            lemma_paint_union(
                buf0,
                w,
                |px: int, py: int| digit_row_region(ds, k, px, py),
                |px: int, py: int| glyph_region(digit_glyph(ds[k] as int), 10 + 6 * k, 10, px, py),
                0xFFFFFFu32,
            );
            assert forall|px: int, py: int|
                #![trigger digit_row_region(ds, k + 1, px, py)]
                digit_row_region(ds, k + 1, px, py) == (digit_row_region(ds, k, px, py)
                    || glyph_region(digit_glyph(ds[k] as int), 10 + 6 * k, 10, px, py)) by {
                if glyph_region(digit_glyph(ds[k] as int), 10 + 6 * k, 10, px, py) {
                    assert((px - 10) / 6 == k);
                }
            }
            lemma_paint_congruent(
                buf0,
                w,
                h,
                |px: int, py: int| digit_row_region(ds, k, px, py) || glyph_region(
                    digit_glyph(ds[k] as int),
                    10 + 6 * k,
                    10,
                    px,
                    py,
                ),
                |px: int, py: int| digit_row_region(ds, k + 1, px, py),
                0xFFFFFFu32,
            );
        }
        i = i + 1;
    }
    proof {
        lemma_paint_congruent(
            buf0,
            w,
            h,
            |px: int, py: int| digit_row_region(ds, i as int, px, py),
            |px: int, py: int| fps_region(fps as nat, px, py),
            0xFFFFFFu32,
        );
    }
}

/// The buffer of width `w` after drawing, in colour `c`, the first `count`
/// digits of `ds` one after another as `dibujar_digitos` draws them, digit
/// `k` at `(10 + 6 * k, 10)`.
pub open spec fn digits_drawn_in_turn(buf: Seq<u32>, w: int, ds: Seq<u8>, count: nat, c: u32) -> Seq<
    u32,
>
    decreases count,
{
    if count == 0 {
        buf
    } else {
        let k = count - 1;
        paint(
            digits_drawn_in_turn(buf, w, ds, (count - 1) as nat, c),
            w,
            |px: int, py: int| glyph_region(digit_glyph(ds[k] as int), 10 + 6 * k, 10, px, py),
            c,
        )
    }
}

/// Drawing the first `count` digits one after another paints their union.
proof fn lemma_digits_in_turn_union(buf: Seq<u32>, w: int, h: int, ds: Seq<u8>, count: nat, c: u32)
    requires
        buf.len() == w * h,
        0 <= w,
        0 <= h,
        count <= ds.len(),
    ensures
        digits_drawn_in_turn(buf, w, ds, count, c) == paint(
            buf,
            w,
            |px: int, py: int| digit_row_region(ds, count as int, px, py),
            c,
        ),
    decreases count,
{
    if count == 0 {
        lemma_paint_congruent(
            buf,
            w,
            h,
            |px: int, py: int| false,
            |px: int, py: int| digit_row_region(ds, 0, px, py),
            c,
        );
        assert(paint(buf, w, |px: int, py: int| false, c) =~= buf);
    } else {
        let k = count - 1;
        lemma_digits_in_turn_union(buf, w, h, ds, (count - 1) as nat, c);
        lemma_paint_union(
            buf,
            w,
            |px: int, py: int| digit_row_region(ds, k, px, py),
            |px: int, py: int| glyph_region(digit_glyph(ds[k] as int), 10 + 6 * k, 10, px, py),
            c,
        );
        assert forall|px: int, py: int|
            #![trigger digit_row_region(ds, k + 1, px, py)]
            digit_row_region(ds, k + 1, px, py) == (digit_row_region(ds, k, px, py)
                || glyph_region(digit_glyph(ds[k] as int), 10 + 6 * k, 10, px, py)) by {
            if glyph_region(digit_glyph(ds[k] as int), 10 + 6 * k, 10, px, py) {
                assert((px - 10) / 6 == k);
            }
        }
        lemma_paint_congruent(
            buf,
            w,
            h,
            |px: int, py: int| digit_row_region(ds, k, px, py) || glyph_region(
                digit_glyph(ds[k] as int),
                10 + 6 * k,
                10,
                px,
                py,
            ),
            |px: int, py: int| digit_row_region(ds, count as int, px, py),
            c,
        );
    }
}

/// The frame counter is its decimal digits drawn one after another in white,
/// six pixels apart from `(10, 10)`, as `dibujar_digitos` draws each; it lights
/// only pixels with `10 <= y < 15` and `10 <= x < 10 + 6 * (number of digits)`.
pub proof fn lemma_fps_is_digits_in_turn(buf: Seq<u32>, w: int, h: int, fps: nat)
    requires
        buf.len() == w * h,
        0 <= w,
        0 <= h,
    ensures
        paint(buf, w, |px: int, py: int| fps_region(fps, px, py), 0xFFFFFFu32)
            == digits_drawn_in_turn(
            buf,
            w,
            decimal_digits(fps),
            decimal_digits(fps).len(),
            0xFFFFFFu32,
        ),
        forall|px: int, py: int|
            #[trigger] fps_region(fps, px, py) ==> 10 <= py < 15 && 10 <= px < 10 + 6
                * decimal_digits(fps).len(),
{
    let ds = decimal_digits(fps);
    lemma_digits_in_turn_union(buf, w, h, ds, ds.len(), 0xFFFFFFu32);
    lemma_paint_congruent(
        buf,
        w,
        h,
        |px: int, py: int| fps_region(fps, px, py),
        |px: int, py: int| digit_row_region(ds, ds.len() as int, px, py),
        0xFFFFFFu32,
    );
}

/// The words of the success screen that follow each opening `¡`.
pub open spec fn success_words_first() -> Seq<char> {
    seq!['H', 'A', 'S', ' ', 'A', 'L', 'C', 'A', 'N', 'Z', 'A', 'D', 'O', ' ', 'L', 'A', ' ', 'M', 'E', 'T', 'A', '!', ' ']
}

/// The second exclamation of the success screen, after its `¡`.
pub open spec fn success_words_second() -> Seq<char> {
    seq!['F', 'E', 'L', 'I', 'C', 'I', 'T', 'A', 'C', 'I', 'O', 'N', 'E', 'S', '!']
}

/// The text of the success screen: "¡HAS ALCANZADO LA META! ¡FELICITACIONES!".
pub open spec fn success_message() -> Seq<char> {
    seq!['¡'] + success_words_first() + seq!['¡'] + success_words_second()
}

/// The number of bytes of the UTF-8 encoding of `c`.
pub open spec fn utf8_width(c: char) -> nat {
    if (c as u32) < 0x80 {
        1
    } else if (c as u32) < 0x800 {
        2
    } else if (c as u32) < 0x10000 {
        3
    } else {
        4
    }
}

/// The number of bytes of the UTF-8 encoding of `s`.
pub open spec fn utf8_len(s: Seq<char>) -> nat
    decreases s.len(),
{
    if s.len() == 0 {
        0
    } else {
        utf8_len(s.drop_last()) + utf8_width(s.last())
    }
}

/// The encoding of a concatenation is the concatenation of the encodings.
pub proof fn lemma_utf8_len_concat(a: Seq<char>, b: Seq<char>)
    ensures
        utf8_len(a + b) == utf8_len(a) + utf8_len(b),
    decreases b.len(),
{
    if b.len() == 0 {
        assert(a + b =~= a);
    } else {
        lemma_utf8_len_concat(a, b.drop_last());
        assert((a + b).drop_last() =~= a + b.drop_last());
        assert((a + b).last() == b.last());
    }
}

/// ASCII text takes one byte per character.
pub proof fn lemma_utf8_len_ascii(s: Seq<char>)
    requires
        forall|i: int| 0 <= i < s.len() ==> (#[trigger] s[i] as u32) < 0x80,
    ensures
        utf8_len(s) == s.len(),
    decreases s.len(),
{
    if s.len() > 0 {
        let t = s.drop_last();
        assert forall|i: int| 0 <= i < t.len() implies (#[trigger] t[i] as u32) < 0x80 by {
            assert(t[i] == s[i]);
        }
        lemma_utf8_len_ascii(t);
        assert((s[s.len() - 1] as u32) < 0x80);
    }
}

/// The encoding of `¡` takes two bytes.
proof fn lemma_inverted_exclamation_width()
    ensures
        utf8_len(seq!['¡']) == 2,
{
    let s = seq!['¡'];
    assert(s.drop_last() =~= Seq::<char>::empty());
    assert(utf8_len(s.drop_last()) == 0);
    assert(s.last() == '¡');
    assert(('¡' as u32) == 0xA1);
    assert(utf8_width('¡') == 2);
}

/// Half the width that the success message is centred by: six pixels per
/// byte of its UTF-8 encoding, halved.
pub open spec fn success_half_width() -> int {
    ((utf8_len(success_message()) * 6) / 2) as int
}

/// The success message takes 42 bytes, so it is centred by 126 pixels.
pub proof fn lemma_success_half_width()
    ensures
        utf8_len(success_message()) == 42,
        success_half_width() == 126,
{
    let a = seq!['¡'];
    let w1 = success_words_first();
    let w2 = success_words_second();
    assert forall|i: int| 0 <= i < w1.len() implies (#[trigger] w1[i] as u32) < 0x80 by {}
    assert forall|i: int| 0 <= i < w2.len() implies (#[trigger] w2[i] as u32) < 0x80 by {}
    lemma_utf8_len_ascii(w1);
    lemma_utf8_len_ascii(w2);
    lemma_inverted_exclamation_width();
    lemma_utf8_len_concat(a, w1);
    lemma_utf8_len_concat(a + w1, a);
    lemma_utf8_len_concat(a + w1 + a, w2);
}

/// The left edge of the success message on a screen `w` pixels wide.
pub open spec fn success_origin_x(w: int) -> int {
    w / 2 - success_half_width()
}

/// Pixels lit by the first `count` characters of the success message on a
/// `w` x `h` screen: character `k` is drawn at
/// `(success_origin_x(w) + 6 * k, h / 2)`.
pub open spec fn message_region(w: int, h: int, count: int, px: int, py: int) -> bool {
    let x0 = success_origin_x(w);
    let m = success_message();
    let k = (px - x0) / 6;
    &&& x0 <= px
    &&& k < count
    &&& k < m.len()
    &&& glyph_region(letter_glyph(m[k]), x0 + 6 * k, h / 2, px, py)
}

/// Pixels lit by the whole success message on a `w` x `h` screen.
pub open spec fn success_region(w: int, h: int, px: int, py: int) -> bool {
    message_region(w, h, success_message().len() as int, px, py)
}

/// The number of bytes of the UTF-8 encoding of `s`.
pub fn utf8_byte_len(s: &Vec<char>) -> (n: usize)
    requires
        s.len() <= usize::MAX / 4,
    ensures
        n == utf8_len(s@),
        n <= 4 * s.len(),
{
    let mut n: usize = 0;
    let mut i: usize = 0;
    while i < s.len()
        invariant
            i <= s.len(),
            s.len() <= usize::MAX / 4,
            n == utf8_len(s@.take(i as int)),
            n <= 4 * i,
        decreases s.len() - i,
    {
        let c = s[i];
        let u = c as u32;
        let width: usize = if u < 0x80 {
            1
        } else if u < 0x800 {
            2
        } else if u < 0x10000 {
            3
        } else {
            4
        };
        assert(s@.take(i + 1).drop_last() =~= s@.take(i as int));
        n = n + width;
        i = i + 1;
    }
    assert(s@.take(s.len() as int) =~= s@);
    n
}

/// Clears the screen and writes the success message in green, centred
/// horizontally (by its length in bytes) at half the screen's height. The
/// current colour is green afterwards.
pub fn mostrar_pantalla_exito(fb: &mut Framebuffer)
    requires
        old(fb).wf(),
        success_half_width() <= old(fb).width / 2,
    ensures
        final(fb).wf(),
        final(fb).width == old(fb).width,
        final(fb).height == old(fb).height,
        final(fb).background() == old(fb).background(),
        final(fb).current() == 0x00FF00,
        final(fb).buffer@ == paint(
            Seq::new(old(fb).buffer@.len(), |i: int| old(fb).background()),
            old(fb).width as int,
            |px: int, py: int| success_region(old(fb).width as int, old(fb).height as int, px, py),
            0x00FF00u32,
        ),
{
    fb.clear();
    fb.set_current_color(0x00FF00);
    let mensaje: Vec<char> = vec![
        '¡', 'H', 'A', 'S', ' ', 'A', 'L', 'C', 'A', 'N', 'Z', 'A', 'D', 'O', ' ', 'L', 'A', ' ',
        'M', 'E', 'T', 'A', '!', ' ', '¡', 'F', 'E', 'L', 'I', 'C', 'I', 'T', 'A', 'C', 'I', 'O',
        'N', 'E', 'S', '!',
    ];
    assert(mensaje@ =~= success_message());
    let bytes = utf8_byte_len(&mensaje);
    let x = fb.width / 2 - (bytes * 6) / 2;
    let y = fb.height / 2;
    let ghost buf0 = fb.buffer@;
    let ghost w = fb.width as int;
    let ghost h = fb.height as int;
    let ghost m = mensaje@;
    proof {
        lemma_paint_congruent(
            buf0,
            w,
            h,
            |px: int, py: int| false,
            |px: int, py: int| message_region(w, h, 0, px, py),
            0x00FF00u32,
        );
        assert(paint(buf0, w, |px: int, py: int| false, 0x00FF00u32) =~= buf0);
    }
    let mut i: usize = 0;
    while i < mensaje.len()
        invariant
            fb.wf(),
            fb.width == old(fb).width,
            fb.height == old(fb).height,
            fb.background() == old(fb).background(),
            fb.current() == 0x00FF00,
            buf0 == Seq::new(old(fb).buffer@.len(), |i: int| old(fb).background()),
            buf0.len() == w * h,
            w == fb.width,
            h == fb.height,
            m == mensaje@,
            m == success_message(),
            x == success_origin_x(w),
            y == h / 2,
            x <= w / 2,
            mensaje.len() == 40,
            i <= mensaje.len(),
            fb.buffer@ == paint(
                buf0,
                w,
                |px: int, py: int| message_region(w, h, i as int, px, py),
                0x00FF00u32,
            ),
        decreases mensaje.len() - i,
    {
        let ghost k = i as int;
        let ghost x0 = x as int;
        dibujar_letra(fb, x + i * 6, y, mensaje[i]);
        proof {
            lemma_paint_union(
                buf0,
                w,
                |px: int, py: int| message_region(w, h, k, px, py),
                |px: int, py: int| glyph_region(letter_glyph(m[k]), x0 + 6 * k, h / 2, px, py),
                0x00FF00u32,
            );
            assert forall|px: int, py: int|
                #![trigger message_region(w, h, k + 1, px, py)]
                message_region(w, h, k + 1, px, py) == (message_region(w, h, k, px, py)
                    || glyph_region(letter_glyph(m[k]), x0 + 6 * k, h / 2, px, py)) by {
                if glyph_region(letter_glyph(m[k]), x0 + 6 * k, h / 2, px, py) {
                    assert((px - x0) / 6 == k);
                }
            }
            lemma_paint_congruent(
                buf0,
                w,
                h,
                |px: int, py: int| message_region(w, h, k, px, py) || glyph_region(
                    letter_glyph(m[k]),
                    x0 + 6 * k,
                    h / 2,
                    px,
                    py,
                ),
                |px: int, py: int| message_region(w, h, k + 1, px, py),
                0x00FF00u32,
            );
        }
        i = i + 1;
    }
}

} // verus!
