//! Where the pixels of a frame go when it is turned or mirrored.
use vstd::prelude::*;

use crate::app::App;
use crate::frame::Frame;
use crate::render::{
    flip_frame_horizontal, lemma_rearranged_at, mirrored, rotate_frame, turn_source, turned,
};

verus! {

/// The byte of a channel of the pixel at a column and row of a frame.
pub open spec fn channel(frame: Frame, x: int, y: int, c: int) -> u8 {
    frame.data@[3 * (y * frame.width + x) + c]
}

/// Whether a frame has all its pixels.
pub open spec fn whole(frame: Frame) -> bool {
    3 * (frame.width * frame.height) <= frame.data@.len()
}

proof fn lemma_turned_at(data: Seq<u8>, w: int, h: int, rotation: u8, nx: int, ny: int, c: int)
    requires
        rotation != 0,
        3 * (w * h) <= data.len(),
        0 <= c < 3,
        rotation == 2 ==> 0 <= nx < w && 0 <= ny < h,
        rotation != 2 ==> 0 <= nx < h && 0 <= ny < w,
    ensures
        rotation == 1 ==> turned(data, w, h, rotation)[3 * (ny * h + nx) + c] == data[3 * (nx * w + (
        w - 1 - ny)) + c],
        rotation == 2 ==> turned(data, w, h, rotation)[3 * (ny * w + nx) + c] == data[3 * ((h - 1
            - ny) * w + (w - 1 - nx)) + c],
        rotation > 2 ==> turned(data, w, h, rotation)[3 * (ny * h + nx) + c] == data[3 * ((h - 1
            - nx) * w + ny) + c],
{
    let from = |x: int, y: int| turn_source(w, h, rotation, x, y);
    assert(w * h == h * w) by (nonlinear_arith);
    if rotation == 2 {
        lemma_rearranged_at(data, w, w, h, from, nx, ny, c);
    } else {
        lemma_rearranged_at(data, w, h, w, from, nx, ny, c);
    }
}

/// No turn leaves a frame as it is.
pub proof fn lemma_no_turn_moves_nothing(frame: Frame, r: Frame)
    requires
        call_ensures(rotate_frame, (&frame, 0u8), r),
    ensures
        r.width == frame.width,
        r.height == frame.height,
        r.data@ == frame.data@,
{
}

/// A frame turned by a quarter is as wide as it was high, and its pixel at `(x,
/// y)` has gone to `(y, w - 1 - x)`.
pub proof fn lemma_quarter_turn_moves_pixels(frame: Frame, r: Frame, x: int, y: int, c: int)
    requires
        whole(frame),
        call_ensures(rotate_frame, (&frame, 1u8), r),
        0 <= x < frame.width,
        0 <= y < frame.height,
        0 <= c < 3,
    ensures
        r.width == frame.height,
        r.height == frame.width,
        r.data@.len() == frame.data@.len(),
        channel(r, y, frame.width - 1 - x, c) == channel(frame, x, y, c),
{
    let w = frame.width as int;
    lemma_turned_at(frame.data@, w, frame.height as int, 1, y, w - 1 - x, c);
}

/// A half turn keeps the size of a frame, and its pixel at `(x, y)` has gone to
/// `(w - 1 - x, h - 1 - y)`.
pub proof fn lemma_half_turn_moves_pixels(frame: Frame, r: Frame, x: int, y: int, c: int)
    requires
        whole(frame),
        call_ensures(rotate_frame, (&frame, 2u8), r),
        0 <= x < frame.width,
        0 <= y < frame.height,
        0 <= c < 3,
    ensures
        r.width == frame.width,
        r.height == frame.height,
        r.data@.len() == frame.data@.len(),
        channel(r, frame.width - 1 - x, frame.height - 1 - y, c) == channel(frame, x, y, c),
{
    let w = frame.width as int;
    let h = frame.height as int;
    lemma_turned_at(frame.data@, w, h, 2, w - 1 - x, h - 1 - y, c);
}

/// A frame turned by three quarters, or by any number above, is as wide as it
/// was high, and its pixel at `(x, y)` has gone to `(h - 1 - y, x)`.
pub proof fn lemma_three_quarters_move_pixels(
    frame: Frame,
    rotation: u8,
    r: Frame,
    x: int,
    y: int,
    c: int,
)
    requires
        whole(frame),
        rotation >= 3,
        call_ensures(rotate_frame, (&frame, rotation), r),
        0 <= x < frame.width,
        0 <= y < frame.height,
        0 <= c < 3,
    ensures
        r.width == frame.height,
        r.height == frame.width,
        r.data@.len() == frame.data@.len(),
        channel(r, frame.height - 1 - y, x, c) == channel(frame, x, y, c),
{
    let h = frame.height as int;
    lemma_turned_at(frame.data@, frame.width as int, h, rotation, h - 1 - y, x, c);
}

/// Mirroring keeps the size of a frame and the row of every pixel; the pixel at
/// column `x` has gone to column `w - 1 - x`.
pub proof fn lemma_mirror_moves_pixels(frame: Frame, r: Frame, x: int, y: int, c: int)
    requires
        whole(frame),
        call_ensures(flip_frame_horizontal, (&frame,), r),
        0 <= x < frame.width,
        0 <= y < frame.height,
        0 <= c < 3,
    ensures
        r.width == frame.width,
        r.height == frame.height,
        r.data@.len() == frame.data@.len(),
        channel(r, frame.width - 1 - x, y, c) == channel(frame, x, y, c),
{
    let w = frame.width as int;
    let h = frame.height as int;
    let from = |x: int, y: int| (w - 1 - x, y);
    lemma_rearranged_at(frame.data@, w, w, h, from, w - 1 - x, y, c);
}

/// A frame that is neither turned nor mirrored stays as it is, whatever it
/// holds.
pub proof fn lemma_upright_frame_stays(app: App, frame: Frame, r: Frame)
    requires
        app@.rotation == 0,
        !app@.flip,
        call_ensures(App::orient, (&app, frame), r),
    ensures
        r.data@ == frame.data@,
        r.width == frame.width,
        r.height == frame.height,
{
}

/// Bytes of a frame beyond its pixels do not move into the picture: a turned or
/// mirrored frame has zeros there.
pub proof fn lemma_turns_clear_what_is_no_pixel(frame: Frame, rotation: u8, r: Frame, m: Frame)
    requires
        whole(frame),
        rotation != 0,
        call_ensures(rotate_frame, (&frame, rotation), r),
        call_ensures(flip_frame_horizontal, (&frame,), m),
    ensures
        forall|i: int|
            3 * (frame.width * frame.height) <= i < frame.data@.len() ==> #[trigger] r.data@[i] == 0,
        forall|i: int|
            3 * (frame.width * frame.height) <= i < frame.data@.len() ==> #[trigger] m.data@[i] == 0,
{
    assert(frame.width * frame.height == frame.height * frame.width) by (nonlinear_arith);
}

/// What is done to a camera frame before it is rendered: first it is turned,
/// then it is mirrored. Upright, it stays or has its columns in reverse; turned
/// by a quarter, its pixel at `(x, y)` goes to row `w - 1 - x`, and to column
/// `y`, or `h - 1 - y` mirrored; and so on round.
pub proof fn lemma_orientation_moves_pixels(
    app: App,
    frame: Frame,
    r: Frame,
    x: int,
    y: int,
    c: int,
)
    requires
        app@.sound(),
        whole(frame),
        call_ensures(App::orient, (&app, frame), r),
        0 <= x < frame.width,
        0 <= y < frame.height,
        0 <= c < 3,
    ensures
        app@.rotation == 0 || app@.rotation == 2 ==> r.width == frame.width && r.height
            == frame.height,
        app@.rotation == 1 || app@.rotation == 3 ==> r.width == frame.height && r.height
            == frame.width,
        ({
            let right = frame.width - 1 - x;
            let low = frame.height - 1 - y;
            let at = if app@.rotation == 0 {
                if app@.flip {
                    (right, y)
                } else {
                    (x, y)
                }
            } else if app@.rotation == 1 {
                if app@.flip {
                    (low, right)
                } else {
                    (y, right)
                }
            } else if app@.rotation == 2 {
                if app@.flip {
                    (x, low)
                } else {
                    (right, low)
                }
            } else {
                if app@.flip {
                    (y, x)
                } else {
                    (low, x)
                }
            };
            channel(r, at.0, at.1, c) == channel(frame, x, y, c)
        }),
{
    let w = frame.width as int;
    let h = frame.height as int;
    let rotation = app@.rotation;
    let (nx, ny) = if rotation == 0 {
        (x, y)
    } else if rotation == 1 {
        (y, w - 1 - x)
    } else if rotation == 2 {
        (w - 1 - x, h - 1 - y)
    } else {
        (h - 1 - y, x)
    };
    let data = turned(frame.data@, w, h, rotation);
    if rotation != 0 {
        lemma_turned_at(frame.data@, w, h, rotation, nx, ny, c);
    }
    assert(w * h == h * w) by (nonlinear_arith);
    if app@.flip {
        let (nw, nh) = if rotation == 0 || rotation == 2 {
            (w, h)
        } else {
            (h, w)
        };
        let from = |x: int, y: int| (nw - 1 - x, y);
        lemma_rearranged_at(data, nw, nw, nh, from, nw - 1 - nx, ny, c);
        assert(r.data@ == mirrored(data, nw, nh));
    }
}

} // verus!
