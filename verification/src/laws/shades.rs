//! Brightness, palette and the colours of the modes.
use vstd::prelude::*;

use crate::cli::ColorMode;
use crate::color::{
    ansi16_code, ansi_code, dequantize_color, effective_rgb, gray_level, palette_color,
    palette_index, palette_level, quantize_color, rgb_to_ansi, true_color_code, visible,
};
use crate::frame::Rgb;
use crate::laws::numerals::{
    all_digits, lemma_numeral_stands_for_number, lemma_table_code_has_one_escape,
    lemma_table_code_is_spelled, lemma_color_code_has_one_escape, one_escape, value_of,
};
use crate::luma::{luma, luma_of, single_step, to_single, BLUE_WEIGHT, GREEN_WEIGHT, RED_WEIGHT};
use crate::text::decimal;

verus! {

/// The brightness of a colour, in thousandths: the weights of red, green and
/// blue.
pub open spec fn thousandths(c: Rgb) -> int {
    299 * c.0 + 587 * c.1 + 114 * c.2
}

/// The step between neighbouring single-precision numbers.
proof fn lemma_step(n: nat)
    ensures
        single_step(n) >= 1,
        n < 0x1000000 ==> single_step(n) == 1,
        n >= 0x1000000 ==> single_step(n) * 0x800000 <= n,
    decreases n,
{
    if n >= 0x1000000 {
        lemma_step(n / 2);
    }
}

/// A number rounded to single precision is a multiple of the step at most half a
/// step away; of two that are as near, it is the even one.
pub proof fn lemma_rounds_to_nearest(n: nat)
    ensures
        to_single(n) % single_step(n) == 0,
        2 * (to_single(n) - n) <= single_step(n),
        2 * (n - to_single(n)) <= single_step(n),
        2 * (to_single(n) - n) == single_step(n) || 2 * (n - to_single(n)) == single_step(n)
            ==> to_single(n) / single_step(n) % 2 == 0,
{
    lemma_step(n);
    let step = single_step(n) as int;
    let below = n as int / step;
    let rest = n as int % step;
    vstd::arithmetic::div_mod::lemma_fundamental_div_mod(n as int, step);
    vstd::arithmetic::div_mod::lemma_mod_bound(n as int, step);
    assert(step * below == below * step) by (nonlinear_arith);
    assert((below + 1) * step == below * step + step) by (nonlinear_arith);
    vstd::arithmetic::div_mod::lemma_mod_multiples_basic(below, step);
    vstd::arithmetic::div_mod::lemma_mod_multiples_basic(below + 1, step);
    vstd::arithmetic::div_mod::lemma_div_by_multiple(below, step);
    vstd::arithmetic::div_mod::lemma_div_by_multiple(below + 1, step);
}

/// Rounding moves a number by at most one part in 2^24.
proof fn lemma_rounding_error(n: nat)
    ensures
        0x1000000 * (to_single(n) - n) <= n,
        0x1000000 * (n - to_single(n)) <= n,
{
    lemma_step(n);
    lemma_rounds_to_nearest(n);
    let step = single_step(n) as int;
    if n < 0x1000000 {
        assert(step == 1);
    } else {
        assert(0x1000000 * (to_single(n) - n) <= 0x800000 * step);
        assert(0x1000000 * (n - to_single(n)) <= 0x800000 * step);
    }
}

/// A colour's brightness is the weighted sum of its channels, 299, 587 and 114
/// thousandths of red, green and blue, cut to a whole number; where the sum is
/// itself a whole number, it may be the one below.
pub proof fn lemma_brightness_is_weighted_sum(r: u8, g: u8, b: u8, y: u8)
    requires
        call_ensures(luma, (r, g, b), y),
    ensures
        1000 * y <= thousandths((r, g, b)) <= 1000 * y + 1000,
{
    lemma_luma_sum((r, g, b));
}

/// The same of the brightness itself.
#[verifier::rlimit(40)]
pub proof fn lemma_luma_sum(c: Rgb)
    ensures
        1000 * luma_of(c.0, c.1, c.2) <= thousandths(c) <= 1000 * luma_of(c.0, c.1, c.2) + 1000,
        luma_of(c.0, c.1, c.2) <= 255,
{
    let r0 = RED_WEIGHT as nat * c.0 as nat;
    let g0 = GREEN_WEIGHT as nat * c.1 as nat;
    let b0 = BLUE_WEIGHT as nat * c.2 as nat;
    lemma_rounding_error(r0);
    lemma_rounding_error(g0);
    lemma_rounding_error(b0);
    let rg = to_single(r0) + to_single(g0);
    lemma_rounding_error(rg);
    let all = to_single(rg) + to_single(b0);
    lemma_rounding_error(all);
    crate::luma::lemma_luma_is_a_byte(c.0, c.1, c.2);
}

/// A colour whose weighted sum is larger by a whole is no darker.
pub proof fn lemma_brightness_rises(a: Rgb, b: Rgb)
    requires
        thousandths(a) + 1000 <= thousandths(b),
    ensures
        luma_of(a.0, a.1, a.2) <= luma_of(b.0, b.1, b.2),
{
    lemma_luma_sum(a);
    lemma_luma_sum(b);
}

/// The levels of a palette number.
pub proof fn lemma_levels(i: int, j: int, k: int, n: int)
    requires
        0 <= i <= 5,
        0 <= j <= 5,
        0 <= k <= 5,
        n == 36 * i + 6 * j + k,
    ensures
        n / 36 == i,
        n / 6 % 6 == j,
        n % 6 == k,
        0 <= n < 216,
{
}

proof fn lemma_multiple(level: int)
    requires
        0 <= level <= 5,
    ensures
        0 <= 51 * level <= 255,
        (51 * level) % 51 == 0,
{
}

proof fn lemma_level(v: u8)
    ensures
        0 <= palette_level(v) <= 5,
        -25 <= 51 * palette_level(v) - v <= 25,
{
}

/// A palette index is 16 and the levels of red, green and blue, six of each, in
/// this order; the level of a channel is the one whose 51-fold is nearest to it.
#[verifier::rlimit(40)]
pub proof fn lemma_palette_index_is_nearest(r: u8, g: u8, b: u8, index: u8)
    requires
        call_ensures(quantize_color, (r, g, b), index),
    ensures
        16 <= index < 232,
        -25 <= 51 * ((index - 16) / 36) - r <= 25,
        -25 <= 51 * ((index - 16) / 6 % 6) - g <= 25,
        -25 <= 51 * ((index - 16) % 6) - b <= 25,
{
    let i = palette_level(r);
    let j = palette_level(g);
    let k = palette_level(b);
    lemma_level(r);
    lemma_level(g);
    lemma_level(b);
    lemma_levels(i, j, k, 36 * i + 6 * j + k);
}

/// The colour at a palette index has the 51-fold of the level of each channel,
/// and an index below the palette is black.
pub proof fn lemma_palette_color_has_levels(i: int, j: int, k: int, index: u8, c: Rgb)
    requires
        index < 232,
        call_ensures(dequantize_color, (index,), c),
    ensures
        0 <= i < 6 && 0 <= j < 6 && 0 <= k < 6 && index == 16 + 36 * i + 6 * j + k ==> c.0 == 51 * i
            && c.1 == 51 * j && c.2 == 51 * k,
        index < 16 ==> c == (0u8, 0u8, 0u8),
{
}

/// In true colour, and without colours, a colour is shown as it is.
pub proof fn lemma_true_color_shows_color(r: u8, g: u8, b: u8, mode: ColorMode, c: Rgb)
    requires
        mode == ColorMode::TrueColor || mode == ColorMode::Off,
        call_ensures(effective_rgb, (r, g, b, mode), c),
    ensures
        c.0 == r,
        c.1 == g,
        c.2 == b,
{
}

/// With 256 colours, each channel is shown as the multiple of 51 nearest to it.
pub proof fn lemma_palette_mode_shows_nearest(r: u8, g: u8, b: u8, c: Rgb)
    requires
        call_ensures(effective_rgb, (r, g, b, ColorMode::Ansi256), c),
    ensures
        c.0 % 51 == 0 && -25 <= c.0 - r <= 25,
        c.1 % 51 == 0 && -25 <= c.1 - g <= 25,
        c.2 % 51 == 0 && -25 <= c.2 - b <= 25,
{
    lemma_palette_shows_nearest((r, g, b));
}

/// The palette colour nearest to a colour has, in each channel, the multiple of
/// 51 nearest to it.
#[verifier::rlimit(40)]
pub proof fn lemma_palette_shows_nearest(c: Rgb)
    ensures
        ({
            let p = palette_color(palette_index(c));
            &&& p.0 % 51 == 0 && -25 <= p.0 - c.0 <= 25
            &&& p.1 % 51 == 0 && -25 <= p.1 - c.1 <= 25
            &&& p.2 % 51 == 0 && -25 <= p.2 - c.2 <= 25
        }),
{
    let i = palette_level(c.0);
    let j = palette_level(c.1);
    let k = palette_level(c.2);
    lemma_level(c.0);
    lemma_level(c.1);
    lemma_level(c.2);
    lemma_levels(i, j, k, 36 * i + 6 * j + k);
    lemma_multiple(i);
    lemma_multiple(j);
    lemma_multiple(k);
}

/// With sixteen colours, each channel is shown full where it is above 85, and
/// not at all elsewhere.
pub proof fn lemma_sixteen_mode_shows_channels(r: u8, g: u8, b: u8, c: Rgb)
    requires
        call_ensures(effective_rgb, (r, g, b, ColorMode::Ansi16), c),
    ensures
        r > 85 ==> c.0 == 255,
        r <= 85 ==> c.0 == 0,
        g > 85 ==> c.1 == 255,
        g <= 85 ==> c.1 == 0,
        b > 85 ==> c.2 == 255,
        b <= 85 ==> c.2 == 0,
{
}

/// In the modes of one colour, every colour is shown as full green or full red.
pub proof fn lemma_one_color_modes(r: u8, g: u8, b: u8, green: Rgb, red: Rgb)
    requires
        call_ensures(effective_rgb, (r, g, b, ColorMode::Green), green),
        call_ensures(effective_rgb, (r, g, b, ColorMode::Red), red),
    ensures
        green == (0u8, 255u8, 0u8),
        red == (255u8, 0u8, 0u8),
{
}

/// In the tinted modes, a colour is shown by its brightness, in green or in red
/// alone; what is darker than 20 is shown as 20.
pub proof fn lemma_tinted_modes_show_brightness(r: u8, g: u8, b: u8, y: u8, green: Rgb, red: Rgb)
    requires
        call_ensures(luma, (r, g, b), y),
        call_ensures(effective_rgb, (r, g, b, ColorMode::GreenGray), green),
        call_ensures(effective_rgb, (r, g, b, ColorMode::RedGray), red),
    ensures
        green.0 == 0 && green.2 == 0,
        red.1 == 0 && red.2 == 0,
        y >= 20 ==> green.1 == y && red.0 == y,
        y < 20 ==> green.1 == 20 && red.0 == 20,
{
}

/// In grey, a colour is shown by one of 24 greys that go evenly from black to
/// white: the brightest that is no brighter than the colour.
pub proof fn lemma_gray_mode_shows_brightness(r: u8, g: u8, b: u8, y: u8, c: Rgb)
    requires
        call_ensures(luma, (r, g, b), y),
        call_ensures(effective_rgb, (r, g, b, ColorMode::Gray), c),
    ensures
        c.0 == c.1,
        c.1 == c.2,
        exists|k: int|
            0 <= k <= 23 && #[trigger] (255 * k) <= 23 * y < 255 * k + 255 && 23 * c.0 <= 255 * k
                < 23 * c.0 + 23,
{
    let k = gray_level(y as nat) as int;
    assert(0 <= k <= 23);
    assert(255 * k <= 23 * y < 255 * k + 255);
    let v = k * 255 / 23;
    assert(23 * v <= 255 * k < 23 * v + 23);
}

/// The escape sequences of the modes are of one form, hold one escape character
/// and no line break.
pub proof fn lemma_mode_code_has_one_escape(c: Rgb, mode: ColorMode)
    requires
        mode != ColorMode::Off,
    ensures
        one_escape(ansi_code(c.0, c.1, c.2, mode)),
{
    let y = luma_of(c.0, c.1, c.2);
    match mode {
        ColorMode::TrueColor => lemma_color_code_has_one_escape(c),
        ColorMode::Ansi256 => lemma_table_code_has_one_escape(palette_index(c) as nat),
        ColorMode::Ansi16 => {
            reveal_strlit("\x1b[");
            reveal_strlit("m");
            let n = ansi16_code(c.0, c.1, c.2) as nat;
            lemma_numeral_stands_for_number(n);
            let code = ansi_code(c.0, c.1, c.2, mode);
            assert forall|i: int| 0 < i < code.len() implies #[trigger] code[i] != '\x1b' && code[i]
                != '\n' by {
                if 2 <= i < code.len() - 1 {
                    assert(code[i] == decimal(n)[i - 2]);
                }
            }
        },
        ColorMode::Gray => lemma_table_code_has_one_escape(232 + gray_level(y)),
        ColorMode::Green => lemma_color_code_has_one_escape((0, 255, 0)),
        ColorMode::GreenGray => lemma_color_code_has_one_escape((0, visible(y), 0)),
        ColorMode::Red => lemma_color_code_has_one_escape((255, 0, 0)),
        ColorMode::RedGray => lemma_color_code_has_one_escape((visible(y), 0, 0)),
        ColorMode::Off => {},
    }
}

/// Where a mode writes a colour by its channels, the escape sequence is that of
/// the colour that is shown.
pub proof fn lemma_code_is_of_shown_color(
    r: u8,
    g: u8,
    b: u8,
    mode: ColorMode,
    s: String,
    c: Rgb,
)
    requires
        mode == ColorMode::TrueColor || mode == ColorMode::Green || mode == ColorMode::GreenGray
            || mode == ColorMode::Red || mode == ColorMode::RedGray,
        call_ensures(rgb_to_ansi, (r, g, b, mode), s),
        call_ensures(effective_rgb, (r, g, b, mode), c),
    ensures
        s@ == true_color_code(c),
{
}

/// With 256 colours, the escape sequence names the table entry of the palette
/// colour that is shown; the first 16 entries are not of the palette.
#[verifier::rlimit(40)]
pub proof fn lemma_palette_code_is_of_shown_color(r: u8, g: u8, b: u8, s: String, c: Rgb)
    requires
        call_ensures(rgb_to_ansi, (r, g, b, ColorMode::Ansi256), s),
        call_ensures(effective_rgb, (r, g, b, ColorMode::Ansi256), c),
    ensures
        s@.take(7) == seq!['\x1b', '[', '3', '8', ';', '5', ';'],
        s@.last() == 'm',
        all_digits(s@.subrange(7, s@.len() - 1)),
        51 * value_of(s@.subrange(7, s@.len() - 1)) == 51 * 16 + 36 * c.0 + 6 * c.1 + c.2,
{
    let i = palette_level(r);
    let j = palette_level(g);
    let k = palette_level(b);
    lemma_level(r);
    lemma_level(g);
    lemma_level(b);
    lemma_levels(i, j, k, 36 * i + 6 * j + k);
    lemma_table_code_is_spelled(palette_index((r, g, b)) as nat);
}

/// In grey, the escape sequence names one of the table's 24 greys, which start
/// at 232: the one that the shown grey stands for.
pub proof fn lemma_gray_code_is_of_shown_color(r: u8, g: u8, b: u8, y: u8, s: String)
    requires
        call_ensures(luma, (r, g, b), y),
        call_ensures(rgb_to_ansi, (r, g, b, ColorMode::Gray), s),
    ensures
        s@.take(7) == seq!['\x1b', '[', '3', '8', ';', '5', ';'],
        s@.last() == 'm',
        all_digits(s@.subrange(7, s@.len() - 1)),
        ({
            let k = value_of(s@.subrange(7, s@.len() - 1)) - 232;
            0 <= k <= 23 && 255 * k <= 23 * y < 255 * k + 255
        }),
{
    lemma_table_code_is_spelled(232 + gray_level(y as nat));
}

/// With sixteen colours, the code counts 1 for red, 2 for green and 4 for blue,
/// each where it is above 85, and starts at 30; at 90 where the three together
/// are 384 or more.
pub proof fn lemma_sixteen_code_counts_channels(r: u8, g: u8, b: u8, s: String)
    requires
        call_ensures(rgb_to_ansi, (r, g, b, ColorMode::Ansi16), s),
    ensures
        s@.take(2) == seq!['\x1b', '['],
        s@.last() == 'm',
        all_digits(s@.subrange(2, s@.len() - 1)),
        ({
            let code = value_of(s@.subrange(2, s@.len() - 1));
            let start = if r + g + b >= 384 {
                90int
            } else {
                30int
            };
            let n = code - start;
            &&& 0 <= n <= 7
            &&& n % 2 == 1 <==> r > 85
            &&& n / 2 % 2 == 1 <==> g > 85
            &&& n / 4 == 1 <==> b > 85
        }),
{
    reveal_strlit("\x1b[");
    reveal_strlit("m");
    let n = ansi16_code(r, g, b) as nat;
    lemma_numeral_stands_for_number(n);
    assert(s@.take(2) =~= seq!['\x1b', '[']);
    assert(s@.subrange(2, s@.len() - 1) =~= decimal(n));
}

/// Without colours nothing is written but the character.
pub proof fn lemma_no_color_has_no_code(r: u8, g: u8, b: u8, s: String)
    requires
        call_ensures(rgb_to_ansi, (r, g, b, ColorMode::Off), s),
    ensures
        s@.len() == 0,
{
}

} // verus!
