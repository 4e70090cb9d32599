//! Turning frames, and sampling them into characters.
use vstd::arithmetic::div_mod::lemma_fundamental_div_mod_converse;
use vstd::prelude::*;

use crate::cli::ColorMode;
use crate::color::{ansi_code, effective_rgb, rgb_to_ansi, shown_color};
use crate::frame::{Frame, Picture, RenderFrame, Rgb};
use crate::luma::{luma, luma_of};

verus! {

/// The number of brightness values, and of entries in a lookup table.
pub const LEVELS: usize = 256;

/// The character that a ramp gives a brightness: the ramp spread evenly over
/// all brightness values.
pub open spec fn ramp_char(ramp: Seq<char>, level: int) -> char {
    ramp[level * (ramp.len() - 1) / 255]
}

/// The lookup table of a ramp: a character for each brightness.
pub open spec fn ramp_table(ramp: Seq<char>) -> Seq<char> {
    Seq::new(LEVELS as nat, |i: int| ramp_char(ramp, i))
}

proof fn lemma_ramp_position(n: int, level: int)
    requires
        n >= 1,
        0 <= level <= 255,
    ensures
        0 <= level * (n - 1) <= 255 * (n - 1),
        0 <= level * (n - 1) / 255 <= n - 1,
{
    assert(0 <= level * (n - 1) <= 255 * (n - 1)) by (nonlinear_arith)
        requires
            n >= 1,
            0 <= level <= 255,
    ;
}

/// The table runs from the first character of the ramp to the last.
pub proof fn lemma_ramp_table_ends(ramp: Seq<char>)
    requires
        ramp.len() > 0,
    ensures
        ramp_table(ramp)[0] == ramp.first(),
        ramp_table(ramp)[255] == ramp.last(),
        forall|i: int| 0 <= i < LEVELS ==> ramp.contains(#[trigger] ramp_table(ramp)[i]),
{
    assert forall|i: int| 0 <= i < LEVELS implies ramp.contains(#[trigger] ramp_table(ramp)[i]) by {
        lemma_ramp_position(ramp.len() as int, i);
        assert(ramp_table(ramp)[i] == ramp[i * (ramp.len() - 1) / 255]);
    }
    assert(0 * (ramp.len() - 1) / 255 == 0);
    assert(255 * (ramp.len() - 1) / 255 == ramp.len() - 1);
}

/// A brighter level never takes an earlier character of the ramp.
pub proof fn lemma_ramp_rises(ramp: Seq<char>, a: int, b: int)
    requires
        ramp.len() > 0,
        0 <= a <= b < LEVELS,
    ensures
        0 <= a * (ramp.len() - 1) / 255 <= b * (ramp.len() - 1) / 255 < ramp.len(),
        ramp_table(ramp)[a] == ramp[a * (ramp.len() - 1) / 255],
        ramp_table(ramp)[b] == ramp[b * (ramp.len() - 1) / 255],
{
    lemma_ramp_position(ramp.len() as int, a);
    lemma_ramp_position(ramp.len() as int, b);
    let n = ramp.len() - 1;
    assert(a * n <= b * n) by (nonlinear_arith)
        requires
            0 <= a <= b,
            n >= 0,
    ;
}

/// The characters of a string, one by one.
pub fn letters_of(s: &str) -> (r: Vec<char>)
    ensures
        r@ == s@,
{
    let n: usize = s.unicode_len();
    let mut out: Vec<char> = Vec::new();
    let mut rest = s.chars();
    let mut i: usize = 0;
    while i < n
        invariant
            i <= n,
            n == s@.len(),
            out@ == s@.take(i as int),
            vstd::std_specs::iter::IteratorSpec::remaining(&rest) == s@.skip(i as int),
        decreases n - i,
    {
        match rest.next() {
            Some(c) => {
                out.push(c);
                assert(s@.take(i + 1) =~= s@.take(i as int).push(s@[i as int]));
                assert(s@.skip(i as int).drop_first() =~= s@.skip(i + 1));
            },
            None => {},
        }
        i += 1;
    }
    assert(s@.take(n as int) =~= s@);
    out
}

/// The lookup table of a ramp.
pub fn build_lut(ramp: &str) -> (r: Vec<char>)
    requires
        ramp@.len() > 0,
        255 * (ramp@.len() - 1) <= usize::MAX,
    ensures
        r@ == ramp_table(ramp@),
{
    let chars = letters_of(ramp);
    let n: usize = chars.len();
    let mut out: Vec<char> = Vec::new();
    let mut i: usize = 0;
    while i < LEVELS
        invariant
            i <= LEVELS,
            n == ramp@.len(),
            n > 0,
            255 * (n - 1) <= usize::MAX,
            chars@ == ramp@,
            out@ == ramp_table(ramp@).take(i as int),
        decreases LEVELS - i,
    {
        proof {
            lemma_ramp_position(n as int, i as int);
        }
        out.push(chars[i * (n - 1) / 255]);
        assert(ramp_table(ramp@).take(i + 1) =~= ramp_table(ramp@).take(i as int).push(
            ramp_table(ramp@)[i as int],
        ));
        i += 1;
    }
    assert(ramp_table(ramp@).take(LEVELS as int) =~= ramp_table(ramp@));
    out
}

/// Where a pixel of the turned frame comes from: the column and row in the
/// frame before, for a quarter turn (1), a half turn (2) or, for any other
/// number, three quarters.
pub open spec fn turn_source(w: int, h: int, rotation: u8, x: int, y: int) -> (int, int) {
    if rotation == 1 {
        (w - 1 - y, x)
    } else if rotation == 2 {
        (w - 1 - x, h - 1 - y)
    } else {
        (y, h - 1 - x)
    }
}

/// The width and height of the turned frame.
pub open spec fn turned_size(w: int, h: int, rotation: u8) -> (int, int) {
    if rotation == 0 || rotation == 2 {
        (w, h)
    } else {
        (h, w)
    }
}

/// The bytes of a frame of `nw` columns and `nh` rows whose pixel at column
/// `x` and row `y` is the one at `from(x, y)` in `data`, a frame of `w`
/// columns. Bytes of `data` beyond the pixels become zero.
pub open spec fn rearranged(
    data: Seq<u8>,
    w: int,
    nw: int,
    nh: int,
    from: spec_fn(int, int) -> (int, int),
) -> Seq<u8> {
    Seq::new(
        data.len(),
        |i: int|
            if i < 3 * (nw * nh) {
                let source = from(i / 3 % nw, i / 3 / nw);
                data[3 * (source.1 * w + source.0) + i % 3]
            } else {
                0
            },
    )
}

/// The bytes of a frame after a turn.
pub open spec fn turned(data: Seq<u8>, w: int, h: int, rotation: u8) -> Seq<u8> {
    if rotation == 0 {
        data
    } else {
        let size = turned_size(w, h, rotation);
        rearranged(
            data,
            w,
            size.0,
            size.1,
            |x: int, y: int| turn_source(w, h, rotation, x, y),
        )
    }
}

/// The bytes of a frame after its columns have changed sides.
pub open spec fn mirrored(data: Seq<u8>, w: int, h: int) -> Seq<u8> {
    rearranged(data, w, w, h, |x: int, y: int| (w - 1 - x, y))
}

/// The number of a cell lies below the number of cells.
pub proof fn lemma_cell_in_grid(x: int, y: int, w: int, h: int)
    requires
        0 <= x < w,
        0 <= y < h,
    ensures
        0 <= y * w + x < w * h,
        y * w + w <= w * h,
{
    assert(0 <= y * w && y * w + w <= w * h) by (nonlinear_arith)
        requires
            0 <= x < w,
            0 <= y < h,
    ;
}

/// The column and row of a numbered cell.
pub proof fn lemma_cell_of(x: int, y: int, w: int)
    requires
        0 <= x < w,
        0 <= y,
    ensures
        (y * w + x) % w == x,
        (y * w + x) / w == y,
{
    lemma_fundamental_div_mod_converse(y * w + x, w, y, x);
}

/// The byte of a rearranged frame, by column, row and channel.
pub proof fn lemma_rearranged_at(
    data: Seq<u8>,
    w: int,
    nw: int,
    nh: int,
    from: spec_fn(int, int) -> (int, int),
    x: int,
    y: int,
    c: int,
)
    requires
        0 <= x < nw,
        0 <= y < nh,
        0 <= c < 3,
        3 * (nw * nh) <= data.len(),
    ensures
        rearranged(data, w, nw, nh, from)[3 * (y * nw + x) + c] == data[3 * (from(x, y).1 * w + from(
            x,
            y,
        ).0) + c],
{
    lemma_cell_in_grid(x, y, nw, nh);
    lemma_cell_of(x, y, nw);
    let i = 3 * (y * nw + x) + c;
    assert(i / 3 == y * nw + x);
    assert(i % 3 == c);
}

/// The pixels of a frame in a new order.
fn rearrange(
    frame: &Frame,
    new_w: usize,
    new_h: usize,
    rotation: u8,
    mirror: bool,
    Ghost(from): Ghost<spec_fn(int, int) -> (int, int)>,
) -> (out: Vec<u8>)
    requires
        3 * (frame.width * frame.height) <= frame.data@.len(),
        mirror ==> new_w == frame.width && new_h == frame.height,
        !mirror ==> (new_w as int, new_h as int) == turned_size(
            frame.width as int,
            frame.height as int,
            rotation,
        ) && rotation != 0,
        forall|x: int, y: int|
            #[trigger] from(x, y) == (if mirror {
                (frame.width - 1 - x, y)
            } else {
                turn_source(frame.width as int, frame.height as int, rotation, x, y)
            }),
    ensures
        out@ == rearranged(frame.data@, frame.width as int, new_w as int, new_h as int, from),
{
    let ghost w = frame.width as int;
    let ghost goal = rearranged(frame.data@, w, new_w as int, new_h as int, from);
    let mut out: Vec<u8> = Vec::new();
    proof {
        assert(frame.width * frame.height == frame.height * frame.width) by (nonlinear_arith);
    }
    let mut y: usize = 0;
    assert(goal.take(0) =~= out@);
    assert(0 * new_w == 0);
    while y < new_h
        invariant
            y <= new_h,
            w == frame.width,
            goal == rearranged(frame.data@, w, new_w as int, new_h as int, from),
            3 * (frame.width * frame.height) <= frame.data@.len(),
            new_w * new_h == frame.width * frame.height,
            mirror ==> new_w == frame.width && new_h == frame.height,
            !mirror ==> (new_w as int, new_h as int) == turned_size(
                frame.width as int,
                frame.height as int,
                rotation,
            ) && rotation != 0,
            forall|x: int, y: int|
                #[trigger] from(x, y) == (if mirror {
                    (frame.width - 1 - x, y)
                } else {
                    turn_source(frame.width as int, frame.height as int, rotation, x, y)
                }),
            out@ == goal.take(3 * (y * new_w)),
        decreases new_h - y,
    {
        let mut x: usize = 0;
        while x < new_w
            invariant
                x <= new_w,
                y < new_h,
                w == frame.width,
                goal == rearranged(frame.data@, w, new_w as int, new_h as int, from),
                3 * (frame.width * frame.height) <= frame.data@.len(),
                new_w * new_h == frame.width * frame.height,
                mirror ==> new_w == frame.width && new_h == frame.height,
                !mirror ==> (new_w as int, new_h as int) == turned_size(
                    frame.width as int,
                    frame.height as int,
                    rotation,
                ) && rotation != 0,
                forall|x: int, y: int|
                    #[trigger] from(x, y) == (if mirror {
                        (frame.width - 1 - x, y)
                    } else {
                        turn_source(frame.width as int, frame.height as int, rotation, x, y)
                    }),
                out@ == goal.take(3 * (y * new_w + x)),
            decreases new_w - x,
        {
            let (sx, sy): (usize, usize) = if mirror {
                (frame.width - 1 - x, y)
            } else if rotation == 1 {
                (frame.width - 1 - y, x)
            } else if rotation == 2 {
                (frame.width - 1 - x, frame.height - 1 - y)
            } else {
                (y, frame.height - 1 - x)
            };
            proof {
                lemma_cell_in_grid(sx as int, sy as int, w, frame.height as int);
                lemma_cell_in_grid(x as int, y as int, new_w as int, new_h as int);
                assert(from(x as int, y as int) == (sx as int, sy as int));
                assert(frame.data@.len() == frame.data.len());
                lemma_rearranged_at(frame.data@, w, new_w as int, new_h as int, from, x as int, y as int, 0);
                lemma_rearranged_at(frame.data@, w, new_w as int, new_h as int, from, x as int, y as int, 1);
                lemma_rearranged_at(frame.data@, w, new_w as int, new_h as int, from, x as int, y as int, 2);
            }
            let src: usize = 3 * (sy * frame.width + sx);
            out.push(frame.data[src]);
            out.push(frame.data[src + 1]);
            out.push(frame.data[src + 2]);
            proof {
                let p = 3 * (y * new_w + x);
                assert(goal.take(p + 3) =~= goal.take(p).push(goal[p]).push(goal[p + 1]).push(goal[p + 2]));
            }
            x += 1;
        }
        proof {
            assert((y + 1) * new_w == y * new_w + new_w) by (nonlinear_arith);
        }
        y += 1;
    }
    proof {
        assert(new_h * new_w == new_w * new_h) by (nonlinear_arith);
    }
    while out.len() < frame.data.len()
        invariant
            goal == rearranged(frame.data@, w, new_w as int, new_h as int, from),
            3 * (new_w * new_h) <= out@.len() <= frame.data@.len(),
            out@ == goal.take(out@.len() as int),
        decreases frame.data@.len() - out@.len(),
    {
        let ghost n = out@.len() as int;
        out.push(0);
        assert(goal.take(n + 1) =~= goal.take(n).push(goal[n]));
    }
    assert(goal.take(frame.data@.len() as int) =~= goal);
    out
}

/// A frame turned by quarters: 0 leaves it as it is, 1 is a quarter turn, 2 a
/// half turn, and every other number three quarters.
pub fn rotate_frame(frame: &Frame, rotation: u8) -> (r: Frame)
    requires
        rotation != 0 ==> 3 * (frame.width * frame.height) <= frame.data@.len(),
    ensures
        r.data@ == turned(frame.data@, frame.width as int, frame.height as int, rotation),
        (r.width as int, r.height as int) == turned_size(
            frame.width as int,
            frame.height as int,
            rotation,
        ),
{
    if rotation == 0 {
        return frame.clone();
    }
    let (new_w, new_h): (usize, usize) = if rotation == 2 {
        (frame.width, frame.height)
    } else {
        (frame.height, frame.width)
    };
    let ghost from = |x: int, y: int|
        turn_source(frame.width as int, frame.height as int, rotation, x, y);
    let data = rearrange(frame, new_w, new_h, rotation, false, Ghost(from));
    Frame { data, width: new_w, height: new_h }
}

/// A frame with its columns in reverse order.
pub fn flip_frame_horizontal(frame: &Frame) -> (r: Frame)
    requires
        3 * (frame.width * frame.height) <= frame.data@.len(),
    ensures
        r.data@ == mirrored(frame.data@, frame.width as int, frame.height as int),
        r.width == frame.width,
        r.height == frame.height,
{
    let ghost from = |x: int, y: int| (frame.width - 1 - x, y);
    let data = rearrange(frame, frame.width, frame.height, 0, true, Ghost(from));
    Frame { data, width: frame.width, height: frame.height }
}

/// Rearranging twice is rearranging once by the combined order.
proof fn lemma_rearranged_twice(
    data: Seq<u8>,
    w: int,
    w1: int,
    h1: int,
    w2: int,
    h2: int,
    first: spec_fn(int, int) -> (int, int),
    second: spec_fn(int, int) -> (int, int),
    both: spec_fn(int, int) -> (int, int),
)
    requires
        0 <= w1,
        0 <= h1,
        0 <= w2,
        0 <= h2,
        w1 * h1 == w2 * h2,
        data.len() == 3 * (w1 * h1),
        forall|x: int, y: int|
            0 <= x < w2 && 0 <= y < h2 ==> {
                &&& 0 <= (#[trigger] second(x, y)).0 < w1
                &&& 0 <= second(x, y).1 < h1
                &&& both(x, y) == first(second(x, y).0, second(x, y).1)
            },
    ensures
        rearranged(rearranged(data, w, w1, h1, first), w1, w2, h2, second) == rearranged(
            data,
            w,
            w2,
            h2,
            both,
        ),
{
    let once = rearranged(data, w, w1, h1, first);
    let twice = rearranged(once, w1, w2, h2, second);
    let goal = rearranged(data, w, w2, h2, both);
    assert forall|i: int| 0 <= i < data.len() implies #[trigger] twice[i] == goal[i] by {
        let p = i / 3;
        let x = p % w2;
        let y = p / w2;
        let c = i % 3;
        assert(w2 > 0) by {
            if w2 == 0 {
                assert(w2 * h2 == 0) by (nonlinear_arith)
                    requires
                        w2 == 0,
                ;
            }
        }
        vstd::arithmetic::div_mod::lemma_fundamental_div_mod(p, w2);
        assert(0 <= y < h2) by (nonlinear_arith)
            requires
                w2 > 0,
                h2 >= 0,
                0 <= x < w2,
                p == w2 * y + x,
                0 <= p < w2 * h2,
        ;
        assert(w2 * y == y * w2) by (nonlinear_arith);
        assert(i == 3 * (y * w2 + x) + c);
        lemma_rearranged_at(once, w1, w2, h2, second, x, y, c);
        lemma_rearranged_at(data, w, w2, h2, both, x, y, c);
        let s = second(x, y);
        lemma_rearranged_at(data, w, w1, h1, first, s.0, s.1, c);
    }
    assert(twice =~= goal);
}

/// The order that moves nothing.
proof fn lemma_rearranged_in_place(
    data: Seq<u8>,
    w: int,
    h: int,
    from: spec_fn(int, int) -> (int, int),
)
    requires
        0 <= w,
        0 <= h,
        data.len() == 3 * (w * h),
        forall|x: int, y: int| 0 <= x < w && 0 <= y < h ==> #[trigger] from(x, y) == (x, y),
    ensures
        rearranged(data, w, w, h, from) == data,
{
    let same = rearranged(data, w, w, h, from);
    assert forall|i: int| 0 <= i < data.len() implies #[trigger] same[i] == data[i] by {
        let p = i / 3;
        assert(w > 0) by {
            if w == 0 {
                assert(w * h == 0) by (nonlinear_arith)
                    requires
                        w == 0,
                ;
            }
        }
        vstd::arithmetic::div_mod::lemma_fundamental_div_mod(p, w);
        let x = p % w;
        let y = p / w;
        assert(0 <= y < h) by (nonlinear_arith)
            requires
                w > 0,
                h >= 0,
                0 <= x < w,
                p == w * y + x,
                0 <= p < w * h,
        ;
        assert(w * y == y * w) by (nonlinear_arith);
        assert(i == 3 * (y * w + x) + i % 3);
        lemma_rearranged_at(data, w, w, h, from, x, y, i % 3);
    }
    assert(same =~= data);
}

/// Two quarter turns make a half turn.
pub proof fn lemma_two_quarters_are_a_half(data: Seq<u8>, w: int, h: int)
    requires
        0 <= w,
        0 <= h,
        data.len() == 3 * (w * h),
    ensures
        turned(turned(data, w, h, 1), h, w, 1) == turned(data, w, h, 2),
{
    assert(w * h == h * w) by (nonlinear_arith);
    lemma_rearranged_twice(
        data,
        w,
        h,
        w,
        w,
        h,
        |x: int, y: int| turn_source(w, h, 1, x, y),
        |x: int, y: int| turn_source(h, w, 1, x, y),
        |x: int, y: int| turn_source(w, h, 2, x, y),
    );
}

/// A half turn undoes itself.
pub proof fn lemma_half_turn_undoes_itself(data: Seq<u8>, w: int, h: int)
    requires
        0 <= w,
        0 <= h,
        data.len() == 3 * (w * h),
    ensures
        turned(turned(data, w, h, 2), w, h, 2) == data,
{
    let still = |x: int, y: int| (x, y);
    lemma_rearranged_twice(
        data,
        w,
        w,
        h,
        w,
        h,
        |x: int, y: int| turn_source(w, h, 2, x, y),
        |x: int, y: int| turn_source(w, h, 2, x, y),
        still,
    );
    lemma_rearranged_in_place(data, w, h, still);
}

/// Three quarters undo a quarter turn, and a quarter undoes three.
pub proof fn lemma_quarter_turns_undo_each_other(data: Seq<u8>, w: int, h: int)
    requires
        0 <= w,
        0 <= h,
        data.len() == 3 * (w * h),
    ensures
        turned(turned(data, w, h, 1), h, w, 3) == data,
        turned(turned(data, w, h, 3), h, w, 1) == data,
{
    assert(w * h == h * w) by (nonlinear_arith);
    let still = |x: int, y: int| (x, y);
    lemma_rearranged_twice(
        data,
        w,
        h,
        w,
        w,
        h,
        |x: int, y: int| turn_source(w, h, 1, x, y),
        |x: int, y: int| turn_source(h, w, 3, x, y),
        still,
    );
    lemma_rearranged_twice(
        data,
        w,
        h,
        w,
        w,
        h,
        |x: int, y: int| turn_source(w, h, 3, x, y),
        |x: int, y: int| turn_source(h, w, 1, x, y),
        still,
    );
    lemma_rearranged_in_place(data, w, h, still);
}

/// Mirroring undoes itself.
pub proof fn lemma_mirror_undoes_itself(data: Seq<u8>, w: int, h: int)
    requires
        0 <= w,
        0 <= h,
        data.len() == 3 * (w * h),
    ensures
        mirrored(mirrored(data, w, h), w, h) == data,
{
    let still = |x: int, y: int| (x, y);
    lemma_rearranged_twice(
        data,
        w,
        w,
        h,
        w,
        h,
        |x: int, y: int| (w - 1 - x, y),
        |x: int, y: int| (w - 1 - x, y),
        still,
    );
    lemma_rearranged_in_place(data, w, h, still);
}

/// The pixel that a cell samples: `cells` cells spread evenly over `size`
/// pixels, the first cell on the first pixel and the last on the last.
pub open spec fn sample_of(cell: int, cells: int, size: int) -> int {
    cell * (size - 1) / (if cells >= 2 {
        cells - 1
    } else {
        1
    })
}

/// A frame to be rendered, and how.
pub struct Scene {
    /// The bytes of the frame.
    pub data: Seq<u8>,
    /// Its width in pixels.
    pub width: int,
    /// Its height in pixels.
    pub height: int,
    /// The columns of characters to render.
    pub cols: int,
    /// The rows of characters to render.
    pub rows: int,
    /// The character of each brightness.
    pub lut: Seq<char>,
    /// The value that each channel value is adjusted to.
    pub tone: Seq<u8>,
    /// How the characters are coloured.
    pub mode: ColorMode,
}

impl Scene {
    /// Where the bytes of the pixel under a cell start.
    pub open spec fn offset(self, x: int, y: int) -> int {
        3 * (sample_of(y, self.rows, self.height) * self.width + sample_of(x, self.cols, self.width))
    }

    /// The adjusted colour under a cell.
    pub open spec fn color(self, x: int, y: int) -> Rgb {
        let at = self.offset(x, y);
        (
            self.tone[self.data[at] as int],
            self.tone[self.data[at + 1] as int],
            self.tone[self.data[at + 2] as int],
        )
    }

    /// The brightness of a cell.
    pub open spec fn level(self, x: int, y: int) -> int {
        let c = self.color(x, y);
        luma_of(c.0, c.1, c.2) as int
    }

    /// The character of a cell.
    pub open spec fn glyph(self, x: int, y: int) -> char {
        self.lut[self.level(x, y)]
    }

    /// The colour that a cell shows.
    pub open spec fn shown(self, x: int, y: int) -> Rgb {
        let c = self.color(x, y);
        shown_color(c.0, c.1, c.2, self.mode)
    }

    /// Every cell falls on a pixel of the data, and its brightness on an entry
    /// of the table.
    pub open spec fn fits(self) -> bool {
        &&& self.rows > 0 ==> self.height >= 1 && (self.rows - 1) * (self.height - 1) <= usize::MAX
        &&& self.rows > 0 && self.cols > 0 ==> self.width >= 1 && (self.cols - 1) * (self.width - 1)
            <= usize::MAX
        &&& self.tone.len() == LEVELS
        &&& forall|x: int, y: int|
            0 <= x < self.cols && 0 <= y < self.rows ==> {
                &&& #[trigger] self.offset(x, y) + 2 < self.data.len()
                &&& self.level(x, y) < self.lut.len()
            }
    }

    /// The characters of one row.
    pub open spec fn glyphs(self, y: int) -> Seq<char> {
        Seq::new(self.cols as nat, |x: int| self.glyph(x, y))
    }

    /// The colours of one row.
    pub open spec fn shades(self, y: int) -> Seq<Rgb> {
        Seq::new(self.cols as nat, |x: int| self.shown(x, y))
    }

    /// The rendered picture.
    pub open spec fn picture(self) -> Picture {
        Picture {
            chars: Seq::new(self.rows as nat, |y: int| self.glyphs(y)),
            colors: if self.mode.colours() {
                Some(Seq::new(self.rows as nat, |y: int| self.shades(y)))
            } else {
                None
            },
        }
    }

    /// The terminal text of the first `n` cells of a row: each character after
    /// the escape sequence of its colour.
    pub open spec fn row_text(self, y: int, n: nat) -> Seq<char>
        decreases n,
    {
        if n == 0 {
            Seq::empty()
        } else {
            let x = n - 1;
            let c = self.color(x, y);
            (self.row_text(y, x as nat) + ansi_code(c.0, c.1, c.2, self.mode)).push(
                self.glyph(x, y),
            )
        }
    }

    /// What ends a row of terminal text: colours are reset, and a line break
    /// stands before the next row.
    pub open spec fn row_end(self, y: int) -> Seq<char> {
        (if self.mode.colours() {
            "\x1b[0m"@
        } else {
            Seq::empty()
        }) + (if y + 1 < self.rows {
            seq!['\n']
        } else {
            Seq::empty()
        })
    }

    /// The terminal text of the first `n` rows.
    pub open spec fn text(self, n: nat) -> Seq<char>
        decreases n,
    {
        if n == 0 {
            Seq::empty()
        } else {
            self.text((n - 1) as nat) + self.row_text(n - 1, self.cols as nat) + self.row_end(n - 1)
        }
    }
}

/// A cell samples a pixel that exists.
pub proof fn lemma_sample_in_range(cell: int, cells: int, size: int)
    requires
        0 <= cell < cells,
        size >= 1,
    ensures
        0 <= sample_of(cell, cells, size) < size,
        cells >= 2 ==> sample_of(cells - 1, cells, size) == size - 1,
        sample_of(0, cells, size) == 0,
        0 <= cell * (size - 1) <= (cells - 1) * (size - 1),
{
    let d = if cells >= 2 {
        cells - 1
    } else {
        1
    };
    assert(0 <= cell * (size - 1) <= (cells - 1) * (size - 1) && (cells - 1) * (size - 1) <= d * (
    size - 1)) by (nonlinear_arith)
        requires
            0 <= cell < cells,
            size >= 1,
            d >= cells - 1,
    ;
    vstd::arithmetic::div_mod::lemma_div_is_ordered(cell * (size - 1), d * (size - 1), d);
    vstd::arithmetic::div_mod::lemma_div_multiples_vanish(size - 1, d);
    vstd::arithmetic::div_mod::lemma_div_pos_is_pos(cell * (size - 1), d);
    assert(0 * (size - 1) / d == 0) by {
        assert(0 * (size - 1) == 0);
        vstd::arithmetic::div_mod::lemma_div_basics(d);
    }
}

/// A frame with all its pixels renders with a full table at every size that
/// the arithmetic can hold.
pub proof fn lemma_whole_frame_fits(scene: Scene)
    requires
        scene.cols >= 0,
        scene.rows >= 0,
        scene.width >= 1,
        scene.height >= 1,
        3 * (scene.width * scene.height) <= scene.data.len(),
        scene.lut.len() == LEVELS,
        scene.tone.len() == LEVELS,
        (scene.rows - 1) * (scene.height - 1) <= usize::MAX,
        (scene.cols - 1) * (scene.width - 1) <= usize::MAX,
    ensures
        scene.fits(),
{
    assert forall|x: int, y: int| 0 <= x < scene.cols && 0 <= y < scene.rows implies {
        &&& #[trigger] scene.offset(x, y) + 2 < scene.data.len()
        &&& scene.level(x, y) < scene.lut.len()
    } by {
        lemma_sample_in_range(x, scene.cols, scene.width);
        lemma_sample_in_range(y, scene.rows, scene.height);
        lemma_cell_in_grid(
            sample_of(x, scene.cols, scene.width),
            sample_of(y, scene.rows, scene.height),
            scene.width,
            scene.height,
        );
        let c = scene.color(x, y);
        crate::luma::lemma_luma_is_a_byte(c.0, c.1, c.2);
    }
}

/// The scene of a rendering.
pub open spec fn scene_of(
    frame: Frame,
    cols: usize,
    rows: usize,
    lut: Seq<char>,
    tone: Seq<u8>,
    mode: ColorMode,
) -> Scene {
    Scene {
        data: frame.data@,
        width: frame.width as int,
        height: frame.height as int,
        cols: cols as int,
        rows: rows as int,
        lut,
        tone,
        mode,
    }
}

/// The divisor that spreads cells over pixels.
fn spread(cells: usize) -> (d: usize)
    ensures
        d == (if cells >= 2 {
            cells - 1
        } else {
            1
        }),
{
    if cells >= 2 {
        cells - 1
    } else {
        1
    }
}

/// A cell samples no later pixel than the last cell.
proof fn lemma_last_sample(cell: int, cells: int, size: int)
    requires
        0 <= cell < cells,
        size >= 1,
    ensures
        0 <= sample_of(cell, cells, size) <= sample_of(cells - 1, cells, size),
        sample_of(cells - 1, cells, size) == (if cells >= 2 {
            size - 1
        } else {
            0
        }),
{
    lemma_sample_in_range(cell, cells, size);
    lemma_sample_in_range(cells - 1, cells, size);
}

/// A scene with full tables fits where the pixel of its last cell is there.
proof fn lemma_fits_by_last_cell(scene: Scene)
    requires
        scene.cols > 0,
        scene.rows > 0,
        scene.width >= 1,
        scene.height >= 1,
        scene.lut.len() == LEVELS,
        scene.tone.len() == LEVELS,
        (scene.rows - 1) * (scene.height - 1) <= usize::MAX,
        (scene.cols - 1) * (scene.width - 1) <= usize::MAX,
    ensures
        scene.fits() <==> scene.offset(scene.cols - 1, scene.rows - 1) + 2 < scene.data.len(),
{
    let last = scene.offset(scene.cols - 1, scene.rows - 1);
    assert forall|x: int, y: int| 0 <= x < scene.cols && 0 <= y < scene.rows implies {
        &&& #[trigger] scene.offset(x, y) <= last
        &&& scene.level(x, y) < scene.lut.len()
    } by {
        lemma_last_sample(x, scene.cols, scene.width);
        lemma_last_sample(y, scene.rows, scene.height);
        let a = sample_of(y, scene.rows, scene.height);
        let b = sample_of(scene.rows - 1, scene.rows, scene.height);
        assert(a * scene.width <= b * scene.width) by (nonlinear_arith)
            requires
                a <= b,
                0 <= scene.width,
        ;
        let c = scene.color(x, y);
        crate::luma::lemma_luma_is_a_byte(c.0, c.1, c.2);
    }
}

/// Tells whether a frame can be rendered, with a full table of characters.
pub fn frame_renders(
    frame: &Frame,
    render_cols: usize,
    render_rows: usize,
    lut: &[char],
    tone: &[u8],
    color_mode: ColorMode,
) -> (r: bool)
    requires
        lut@.len() == LEVELS,
    ensures
        r == scene_of(*frame, render_cols, render_rows, lut@, tone@, color_mode).fits(),
{
    let ghost scene = scene_of(*frame, render_cols, render_rows, lut@, tone@, color_mode);
    if tone.len() != LEVELS {
        return false;
    }
    if render_rows == 0 {
        return true;
    }
    if frame.height == 0 {
        return false;
    }
    let down: u128 = (render_rows - 1) as u128;
    let across: u128 = (frame.height - 1) as u128;
    proof {
        lemma_word_product(down as int, across as int);
    }
    if down * across > usize::MAX as u128 {
        return false;
    }
    if render_cols == 0 {
        return true;
    }
    if frame.width == 0 {
        return false;
    }
    let right: u128 = (render_cols - 1) as u128;
    let along: u128 = (frame.width - 1) as u128;
    proof {
        lemma_word_product(right as int, along as int);
    }
    if right * along > usize::MAX as u128 {
        return false;
    }
    let sx: u128 = if render_cols >= 2 {
        along
    } else {
        0
    };
    let sy: u128 = if render_rows >= 2 {
        across
    } else {
        0
    };
    proof {
        lemma_word_product(sy as int, frame.width as int);
        lemma_last_sample(scene.cols - 1, scene.cols, scene.width);
        lemma_last_sample(scene.rows - 1, scene.rows, scene.height);
        lemma_fits_by_last_cell(scene);
    }
    sy * (frame.width as u128) + sx < (frame.data.len() / 3) as u128
}

/// The product of two machine words fits in two of them, with room for a third.
proof fn lemma_word_product(a: int, b: int)
    requires
        0 <= a <= 0xffff_ffff_ffff_ffff,
        0 <= b <= 0xffff_ffff_ffff_ffff,
    ensures
        0 <= a * b <= 0xffff_ffff_ffff_ffff * 0xffff_ffff_ffff_ffff,
{
    assert(0 <= a * b <= 0xffff_ffff_ffff_ffff * 0xffff_ffff_ffff_ffff) by (nonlinear_arith)
        requires
            0 <= a <= 0xffff_ffff_ffff_ffff,
            0 <= b <= 0xffff_ffff_ffff_ffff,
    ;
}

/// Renders a frame as characters, with colours where the mode has them, and as
/// terminal text. `tone` gives the adjusted value of every channel value.
pub fn render_frame(
    frame: &Frame,
    render_cols: usize,
    render_rows: usize,
    lut: &[char],
    tone: &[u8],
    color_mode: ColorMode,
) -> (r: (RenderFrame, String))
    requires
        scene_of(*frame, render_cols, render_rows, lut@, tone@, color_mode).fits(),
    ensures
        r.0@ == scene_of(*frame, render_cols, render_rows, lut@, tone@, color_mode).picture(),
        r.1@ == scene_of(*frame, render_cols, render_rows, lut@, tone@, color_mode).text(
            render_rows as nat,
        ),
{
    let ghost scene = scene_of(*frame, render_cols, render_rows, lut@, tone@, color_mode);
    let colored: bool = color_mode.is_color();
    let mut chars: Vec<String> = Vec::new();
    let mut colors: Vec<Vec<Rgb>> = Vec::new();
    let mut ascii = String::new();
    let row_step: usize = spread(render_rows);
    let col_step: usize = spread(render_cols);
    let mut y: usize = 0;
    while y < render_rows
        invariant
            y <= render_rows,
            scene == scene_of(*frame, render_cols, render_rows, lut@, tone@, color_mode),
            scene.fits(),
            colored == color_mode.colours(),
            row_step == (if render_rows >= 2 {
                render_rows - 1
            } else {
                1
            }),
            col_step == (if render_cols >= 2 {
                render_cols - 1
            } else {
                1
            }),
            chars.len() == y,
            forall|i: int| 0 <= i < y ==> #[trigger] chars@[i]@ == scene.glyphs(i),
            colored ==> colors.len() == y,
            colored ==> forall|i: int| 0 <= i < y ==> #[trigger] colors@[i]@ == scene.shades(i),
            ascii@ == scene.text(y as nat),
        decreases render_rows - y,
    {
        proof {
            lemma_sample_in_range(y as int, render_rows as int, frame.height as int);
        }
        let sy: usize = y * (frame.height - 1) / row_step;
        let mut row = String::new();
        let mut color_row: Vec<Rgb> = Vec::new();
        let mut x: usize = 0;
        while x < render_cols
            invariant
                x <= render_cols,
                y < render_rows,
                scene == scene_of(*frame, render_cols, render_rows, lut@, tone@, color_mode),
                scene.fits(),
                colored == color_mode.colours(),
                col_step == (if render_cols >= 2 {
                    render_cols - 1
                } else {
                    1
                }),
                sy == sample_of(y as int, render_rows as int, frame.height as int),
                row@ == scene.glyphs(y as int).take(x as int),
                colored ==> color_row@ == scene.shades(y as int).take(x as int),
                ascii@ == scene.text(y as nat) + scene.row_text(y as int, x as nat),
            decreases render_cols - x,
        {
            proof {
                lemma_sample_in_range(x as int, render_cols as int, frame.width as int);
                assert(scene.offset(x as int, y as int) + 2 < scene.data.len());
                assert(frame.data@.len() == frame.data.len());
            }
            let sx: usize = x * (frame.width - 1) / col_step;
            proof {
                assert(0 <= sy * frame.width) by (nonlinear_arith);
                assert(3 * (sy * frame.width + sx) == scene.offset(x as int, y as int));
            }
            let off: usize = 3 * (sy * frame.width + sx);
            let r: u8 = tone[frame.data[off] as usize];
            let g: u8 = tone[frame.data[off + 1] as usize];
            let b: u8 = tone[frame.data[off + 2] as usize];
            let ghost before = ascii@;
            let ch = lut[luma(r, g, b) as usize];
            row.push(ch);
            if colored {
                let shade = effective_rgb(r, g, b, color_mode);
                let code = rgb_to_ansi(r, g, b, color_mode);
                ascii.append(code.as_str());
                color_row.push(shade);
                assert(scene.shades(y as int).take(x + 1) =~= scene.shades(y as int).take(
                    x as int,
                ).push(scene.shown(x as int, y as int)));
            }
            ascii.push(ch);
            proof {
                let c = scene.color(x as int, y as int);
                assert(c == (r, g, b));
                assert(scene.glyphs(y as int).take(x + 1) =~= scene.glyphs(y as int).take(
                    x as int,
                ).push(scene.glyph(x as int, y as int)));
                assert(ascii@ =~= scene.text(y as nat) + scene.row_text(y as int, (x + 1) as nat));
            }
            x += 1;
        }
        proof {
            assert(scene.glyphs(y as int).take(render_cols as int) =~= scene.glyphs(y as int));
            assert(scene.shades(y as int).take(render_cols as int) =~= scene.shades(y as int));
        }
        chars.push(row);
        if colored {
            colors.push(color_row);
            ascii.append("\x1b[0m");
        }
        if y + 1 < render_rows {
            ascii.push('\n');
        }
        assert(ascii@ =~= scene.text((y + 1) as nat));
        y += 1;
    }
    let grid: Option<Vec<Vec<Rgb>>> = if colored {
        Some(colors)
    } else {
        None
    };
    let picture = RenderFrame { chars, colors: grid };
    proof {
        assert(picture@.chars =~= scene.picture().chars);
        if colored {
            assert(picture@.colors->0 =~= scene.picture().colors->0);
        }
    }
    (picture, ascii)
}

} // verus!
