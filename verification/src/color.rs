//! Colours: the palette of 6 x 6 x 6 colours, the colour that a mode shows,
//! and the escape sequence that selects it.
use vstd::prelude::*;

use crate::cli::ColorMode;
use crate::frame::Rgb;
use crate::luma::{luma, luma_of};
use crate::text::{decimal, push_decimal};

verus! {

/// The first index after the palette.
pub const PALETTE_END: u8 = 232;

/// The palette level nearest to `v`: levels stand 51 apart.
pub open spec fn palette_level(v: u8) -> int {
    (2 * v + 51) / 102
}

/// The index of the palette colour nearest to a colour.
pub open spec fn palette_index(c: Rgb) -> u8 {
    (16 + 36 * palette_level(c.0) + 6 * palette_level(c.1) + palette_level(c.2)) as u8
}

/// The colour at a palette index; an index below the palette counts as its
/// first.
pub open spec fn palette_color(index: u8) -> Rgb {
    let i = if index < 16 {
        0int
    } else {
        index - 16
    };
    ((i / 36 * 51) as u8, (i / 6 % 6 * 51) as u8, (i % 6 * 51) as u8)
}

/// The index of the palette colour nearest to a colour.
pub fn quantize_color(r: u8, g: u8, b: u8) -> (index: u8)
    ensures
        index == palette_index((r, g, b)),
        16 <= index < PALETTE_END,
{
    let ri: u8 = ((r as u16 + 25) / 51) as u8;
    let gi: u8 = ((g as u16 + 25) / 51) as u8;
    let bi: u8 = ((b as u16 + 25) / 51) as u8;
    16 + 36 * ri + 6 * gi + bi
}

/// The colour at a palette index; an index below the palette counts as its
/// first.
pub fn dequantize_color(idx: u8) -> (c: Rgb)
    requires
        idx < PALETTE_END,
    ensures
        c == palette_color(idx),
{
    let i: u8 = if idx < 16 {
        0
    } else {
        idx - 16
    };
    let b: u8 = (i % 6) * 51;
    let g: u8 = ((i / 6) % 6) * 51;
    let r: u8 = (i / 36) * 51;
    (r, g, b)
}

/// Every palette index is the nearest one to its own colour.
pub proof fn lemma_palette_round_trip(index: u8)
    requires
        16 <= index < PALETTE_END,
    ensures
        palette_index(palette_color(index)) == index,
{
    let i = index - 16;
    let r = i / 36;
    let g = i / 6 % 6;
    let b = i % 6;
    assert(i == 36 * r + 6 * g + b);
    assert(palette_level((r * 51) as u8) == r);
    assert(palette_level((g * 51) as u8) == g);
    assert(palette_level((b * 51) as u8) == b);
}

/// A colour's palette index lies in the palette, and its palette colour is at
/// most 25 away in each channel.
pub proof fn lemma_palette_is_near(c: Rgb)
    ensures
        16 <= palette_index(c) < PALETTE_END,
        -25 <= palette_color(palette_index(c)).0 - c.0 <= 25,
        -25 <= palette_color(palette_index(c)).1 - c.1 <= 25,
        -25 <= palette_color(palette_index(c)).2 - c.2 <= 25,
{
    let r = palette_level(c.0);
    let g = palette_level(c.1);
    let b = palette_level(c.2);
    let i = 36 * r + 6 * g + b;
    assert(0 <= r <= 5 && 0 <= g <= 5 && 0 <= b <= 5);
    assert(i / 36 == r);
    assert(i / 6 % 6 == g);
    assert(i % 6 == b);
}

/// One of 24 greys: the index that a brightness falls to.
pub open spec fn gray_level(y: nat) -> nat {
    y * 23 / 255
}

/// The larger of a brightness and the floor that keeps tinted text visible.
pub open spec fn visible(y: nat) -> u8 {
    if y < 20 {
        20
    } else {
        y as u8
    }
}

/// Whether a channel counts as on in the sixteen-colour mode.
pub open spec fn channel_on(v: u8) -> bool {
    v > 85
}

/// The weight of a channel in a sixteen-colour code.
pub open spec fn channel_value(v: u8, weight: int) -> int {
    if channel_on(v) {
        weight
    } else {
        0
    }
}

/// The code of the sixteen-colour mode: one bit per channel, and the bright
/// half of the palette where the mean exceeds 127 and a channel is on.
pub open spec fn ansi16_code(r: u8, g: u8, b: u8) -> int {
    let bits = channel_value(r, 1) + channel_value(g, 2) + channel_value(b, 4);
    if (r + g + b) / 3 > 127 && bits != 0 {
        90 + bits
    } else {
        30 + bits
    }
}

/// The escape sequence that selects a colour by its three channels.
pub open spec fn true_color_code(c: Rgb) -> Seq<char> {
    "\x1b[38;2;"@ + decimal(c.0 as nat) + ";"@ + decimal(c.1 as nat) + ";"@ + decimal(c.2 as nat)
        + "m"@
}

/// The escape sequence that selects a colour of the 256-colour table.
pub open spec fn table_code(index: nat) -> Seq<char> {
    "\x1b[38;5;"@ + decimal(index) + "m"@
}

/// The escape sequence for a colour in a mode.
pub open spec fn ansi_code(r: u8, g: u8, b: u8, mode: ColorMode) -> Seq<char> {
    let y = luma_of(r, g, b);
    match mode {
        ColorMode::TrueColor => true_color_code((r, g, b)),
        ColorMode::Ansi256 => table_code(palette_index((r, g, b)) as nat),
        ColorMode::Ansi16 => "\x1b["@ + decimal(ansi16_code(r, g, b) as nat) + "m"@,
        ColorMode::Gray => table_code(232 + gray_level(y)),
        ColorMode::Green => true_color_code((0, 255, 0)),
        ColorMode::GreenGray => true_color_code((0, visible(y), 0)),
        ColorMode::Red => true_color_code((255, 0, 0)),
        ColorMode::RedGray => true_color_code((visible(y), 0, 0)),
        ColorMode::Off => Seq::empty(),
    }
}

/// The colour that a mode shows for a colour.
pub open spec fn shown_color(r: u8, g: u8, b: u8, mode: ColorMode) -> Rgb {
    let y = luma_of(r, g, b);
    match mode {
        ColorMode::TrueColor => (r, g, b),
        ColorMode::Ansi256 => palette_color(palette_index((r, g, b))),
        ColorMode::Ansi16 => (
            channel_value(r, 255) as u8,
            channel_value(g, 255) as u8,
            channel_value(b, 255) as u8,
        ),
        ColorMode::Gray => {
            let v = (gray_level(y) * 255 / 23) as u8;
            (v, v, v)
        },
        ColorMode::Green => (0, 255, 0),
        ColorMode::GreenGray => (0, visible(y), 0),
        ColorMode::Red => (255, 0, 0),
        ColorMode::RedGray => (visible(y), 0, 0),
        ColorMode::Off => (r, g, b),
    }
}

/// Appends the escape sequence that selects a colour by its channels.
pub fn push_true_color(out: &mut String, c: Rgb)
    ensures
        final(out)@ == old(out)@ + true_color_code(c),
{
    out.append("\x1b[38;2;");
    push_decimal(out, c.0 as u64);
    out.append(";");
    push_decimal(out, c.1 as u64);
    out.append(";");
    push_decimal(out, c.2 as u64);
    out.append("m");
    assert(out@ =~= old(out)@ + true_color_code(c));
}

fn push_table_code(out: &mut String, index: u8)
    ensures
        final(out)@ == old(out)@ + table_code(index as nat),
{
    out.append("\x1b[38;5;");
    push_decimal(out, index as u64);
    out.append("m");
    assert(out@ =~= old(out)@ + table_code(index as nat));
}

/// The brightness of a colour, raised to the floor that keeps tinted text
/// visible.
fn visible_luma(r: u8, g: u8, b: u8) -> (v: u8)
    ensures
        v == visible(luma_of(r, g, b)),
{
    let y: u8 = luma(r, g, b);
    if y < 20 {
        20
    } else {
        y
    }
}

/// The grey index of a colour's brightness.
fn luma_level(r: u8, g: u8, b: u8) -> (v: u16)
    ensures
        v as nat == gray_level(luma_of(r, g, b)),
        v <= 23,
{
    let y: u8 = luma(r, g, b);
    y as u16 * 23 / 255
}

/// The escape sequence for a colour in a mode.
pub fn rgb_to_ansi(r: u8, g: u8, b: u8, mode: ColorMode) -> (s: String)
    ensures
        s@ == ansi_code(r, g, b, mode),
{
    let mut out = String::new();
    match mode {
        ColorMode::TrueColor => {
            push_true_color(&mut out, (r, g, b));
        },
        ColorMode::Ansi256 => {
            push_table_code(&mut out, quantize_color(r, g, b));
        },
        ColorMode::Ansi16 => {
            let rr: u64 = if r > 85 {
                1
            } else {
                0
            };
            let gg: u64 = if g > 85 {
                2
            } else {
                0
            };
            let bb: u64 = if b > 85 {
                4
            } else {
                0
            };
            let mut code: u64 = 30 + (bb + gg + rr);
            if (r as u16 + g as u16 + b as u16) / 3 > 127 && bb + gg + rr != 0 {
                code += 60;
            }
            out.append("\x1b[");
            push_decimal(&mut out, code);
            out.append("m");
        },
        ColorMode::Gray => {
            let level: u16 = luma_level(r, g, b);
            push_table_code(&mut out, 232 + level as u8);
        },
        ColorMode::Green => {
            push_true_color(&mut out, (0, 255, 0));
        },
        ColorMode::GreenGray => {
            let v: u8 = visible_luma(r, g, b);
            push_true_color(&mut out, (0, v, 0));
        },
        ColorMode::Red => {
            push_true_color(&mut out, (255, 0, 0));
        },
        ColorMode::RedGray => {
            let v: u8 = visible_luma(r, g, b);
            push_true_color(&mut out, (v, 0, 0));
        },
        ColorMode::Off => {},
    }
    assert(out@ =~= ansi_code(r, g, b, mode));
    out
}

/// The colour that a mode shows for a colour.
pub fn effective_rgb(r: u8, g: u8, b: u8, mode: ColorMode) -> (c: Rgb)
    ensures
        c == shown_color(r, g, b, mode),
{
    match mode {
        ColorMode::TrueColor => (r, g, b),
        ColorMode::Ansi256 => dequantize_color(quantize_color(r, g, b)),
        ColorMode::Ansi16 => (
            if r > 85 {
                255
            } else {
                0
            },
            if g > 85 {
                255
            } else {
                0
            },
            if b > 85 {
                255
            } else {
                0
            },
        ),
        ColorMode::Gray => {
            let v: u8 = (luma_level(r, g, b) * 255 / 23) as u8;
            (v, v, v)
        },
        ColorMode::Green => (0, 255, 0),
        ColorMode::GreenGray => (0, visible_luma(r, g, b), 0),
        ColorMode::Red => (255, 0, 0),
        ColorMode::RedGray => (visible_luma(r, g, b), 0, 0),
        ColorMode::Off => (r, g, b),
    }
}

} // verus!
