//! Playing a recording in the terminal.
use vstd::prelude::*;

use crate::color::{push_true_color, true_color_code};
use crate::decoder::{next_is_sound, read_next, Player, TcamDecoder};
use crate::format::TcamError;
use crate::frame::{color_grid, color_rows, text_rows, Picture, RenderFrame, Rgb};
use crate::render::letters_of;
use crate::text::{decimal, push_decimal};

verus! {

/// How long to wait, in milliseconds, before looking for more of a recording
/// that has come to its end.
pub const IDLE_MS: u64 = 100;

/// The colour of a cell that has none of its own.
pub const WHITE: Rgb = (255, 255, 255);

/// The colour of a cell on the screen.
pub open spec fn cell_ink(colors: Seq<Seq<Rgb>>, x: int, y: int) -> Rgb {
    if y < colors.len() && x < colors[y].len() {
        colors[y][x]
    } else {
        WHITE
    }
}

/// The first `n` cells of a coloured row on the screen.
pub open spec fn colored_cells(
    colors: Seq<Seq<Rgb>>,
    y: int,
    row: Seq<char>,
    n: nat,
) -> Seq<char>
    decreases n,
{
    if n == 0 {
        Seq::empty()
    } else {
        (colored_cells(colors, y, row, (n - 1) as nat) + true_color_code(
            cell_ink(colors, n - 1, y),
        )).push(row[n - 1])
    }
}

/// A row on the screen.
pub open spec fn screen_row(picture: Picture, y: int) -> Seq<char> {
    let row = picture.chars[y];
    match picture.colors {
        Some(colors) => colored_cells(colors, y, row, row.len()) + "\x1b[0m\x1b[K\n"@,
        None => row + "\x1b[K\n"@,
    }
}

/// The first `n` rows on the screen.
pub open spec fn screen_rows(picture: Picture, n: nat) -> Seq<char>
    decreases n,
{
    if n == 0 {
        Seq::empty()
    } else {
        screen_rows(picture, (n - 1) as nat) + screen_row(picture, n - 1)
    }
}

/// The line below a played picture.
pub open spec fn playback_line(number: nat, width: nat, height: nat, fps: nat) -> Seq<char> {
    "\x1b[7m RUSTERCAM PLAYBACK | frame "@ + decimal(number) + " | "@ + decimal(width) + "x"@
        + decimal(height) + " | "@ + decimal(fps) + " fps | q quit \x1b[0m\x1b[K\n"@
}

/// The screen with a played picture.
pub open spec fn playback_screen(
    picture: Picture,
    number: nat,
    width: nat,
    height: nat,
    fps: nat,
) -> Seq<char> {
    "\x1b[H"@ + screen_rows(picture, picture.chars.len()) + playback_line(
        number,
        width,
        height,
        fps,
    )
}

/// The colour of a cell on the screen.
fn ink_at(colors: &Vec<Vec<Rgb>>, x: usize, y: usize) -> (r: Rgb)
    ensures
        r == cell_ink(color_rows(colors@), x as int, y as int),
{
    if y < colors.len() && x < colors[y].len() {
        colors[y][x]
    } else {
        WHITE
    }
}

/// Appends the cells of a coloured row.
fn push_colored_cells(out: &mut String, colors: &Vec<Vec<Rgb>>, y: usize, row: &[char])
    ensures
        final(out)@ == old(out)@ + colored_cells(
            color_rows(colors@),
            y as int,
            row@,
            row@.len(),
        ),
{
    let ghost grid = color_rows(colors@);
    let mut x: usize = 0;
    assert(out@ =~= old(out)@ + colored_cells(grid, y as int, row@, 0));
    while x < row.len()
        invariant
            x <= row.len(),
            grid == color_rows(colors@),
            out@ == old(out)@ + colored_cells(grid, y as int, row@, x as nat),
        decreases row.len() - x,
    {
        push_true_color(out, ink_at(colors, x, y));
        out.push(row[x]);
        x += 1;
        assert(out@ =~= old(out)@ + colored_cells(grid, y as int, row@, x as nat));
    }
}

/// The screen with a played picture.
pub fn playback_text(
    frame: &RenderFrame,
    number: usize,
    width: usize,
    height: usize,
    fps: u8,
) -> (r: String)
    ensures
        r@ == playback_screen(frame@, number as nat, width as nat, height as nat, fps as nat),
{
    let mut out = String::new();
    out.append("\x1b[H");
    let ghost head = "\x1b[H"@;
    assert(out@ =~= head + screen_rows(frame@, 0));
    let mut y: usize = 0;
    while y < frame.chars.len()
        invariant
            y <= frame.chars.len(),
            frame@.chars == text_rows(frame.chars@),
            frame@.colors == color_grid(frame.colors),
            out@ == head + screen_rows(frame@, y as nat),
        decreases frame.chars.len() - y,
    {
        let ghost before = out@;
        assert(frame.chars@[y as int]@ == frame@.chars[y as int]);
        match &frame.colors {
            Some(colors) => {
                let row = letters_of(frame.chars[y].as_str());
                push_colored_cells(&mut out, colors, y, row.as_slice());
                out.append("\x1b[0m\x1b[K\n");
            },
            None => {
                out.append(frame.chars[y].as_str());
                out.append("\x1b[K\n");
            },
        }
        assert(out@ =~= before + screen_row(frame@, y as int));
        assert(out@ =~= head + screen_rows(frame@, (y + 1) as nat));
        y += 1;
    }
    let mut line = String::new();
    line.append("\x1b[7m RUSTERCAM PLAYBACK | frame ");
    assert(line@ =~= "\x1b[7m RUSTERCAM PLAYBACK | frame "@);
    push_decimal(&mut line, number as u64);
    line.append(" | ");
    push_decimal(&mut line, width as u64);
    line.append("x");
    push_decimal(&mut line, height as u64);
    line.append(" | ");
    push_decimal(&mut line, fps as u64);
    line.append(" fps | q quit \x1b[0m\x1b[K\n");
    out.append(line.as_str());
    out
}

/// How long to wait, in nanoseconds, until a picture's time: what is left of
/// it, or nothing where it has passed.
pub fn wait_nanos(timestamp_ms: u32, elapsed_nanos: u128) -> (r: u64)
    ensures
        r == (if timestamp_ms * 1_000_000 > elapsed_nanos {
            timestamp_ms * 1_000_000 - elapsed_nanos
        } else {
            0
        }),
{
    let target: u128 = timestamp_ms as u128 * 1_000_000;
    if target > elapsed_nanos {
        (target - elapsed_nanos) as u64
    } else {
        0
    }
}

/// Whether a key ends the playback.
pub open spec fn ends_playback(key: Option<char>) -> bool {
    key == Some('q') || key == Some('Q')
}

/// What to do next.
pub enum PlayStep {
    /// End the playback.
    Quit,
    /// Wait a while and look for more.
    Idle,
    /// Show a screen and wait until its time.
    Show(String, u32),
    /// The next record cannot be shown.
    Unshowable,
}

/// What a step amounts to.
pub enum Turn {
    Quit,
    Idle,
    Show(Seq<char>, u32),
    Unshowable,
    Failed(TcamError),
}

/// What a step amounts to.
pub open spec fn turn_of(step: Result<PlayStep, TcamError>) -> Turn {
    match step {
        Ok(PlayStep::Quit) => Turn::Quit,
        Ok(PlayStep::Idle) => Turn::Idle,
        Ok(PlayStep::Show(text, time)) => Turn::Show(text@, time),
        Ok(PlayStep::Unshowable) => Turn::Unshowable,
        Err(e) => Turn::Failed(e),
    }
}

/// The next step of a playback that has shown `number` pictures, given the key
/// that was pressed, if any: a key ends it; else the next picture is read and
/// shown, with its number, or waited for where there is none. With the step
/// come the playback after it and the number of pictures shown.
pub open spec fn next_turn(player: Player, number: nat, key: Option<char>) -> (Player, nat, Turn) {
    let next = read_next(player);
    if ends_playback(key) {
        (player, number, Turn::Quit)
    } else if !next_is_sound(player) {
        (player, number, Turn::Unshowable)
    } else {
        match next.1 {
            Err(e) => (next.0, number, Turn::Failed(e)),
            Ok(None) => (next.0, number, Turn::Idle),
            Ok(Some((picture, time))) => (
                next.0,
                number + 1,
                Turn::Show(
                    playback_screen(
                        picture,
                        number,
                        player.format.width as nat,
                        player.format.height as nat,
                        player.fps as nat,
                    ),
                    time,
                ),
            ),
        }
    }
}

/// A recording that is being played.
pub struct Playback {
    pub decoder: TcamDecoder,
    pub frame_num: usize,
}

impl Playback {
    /// Starts to play a recording that has been opened.
    pub fn new(decoder: TcamDecoder) -> (r: Self)
        ensures
            r.decoder == decoder,
            r.frame_num == 0,
    {
        Playback { decoder, frame_num: 0 }
    }

    /// Goes on with the playback, given the key that was pressed, if any.
    pub fn turn(&mut self, key: Option<char>) -> (r: Result<PlayStep, TcamError>)
        requires
            old(self).decoder.wf(),
            old(self).frame_num < usize::MAX,
        ensures
            final(self).decoder.wf(),
            (final(self).decoder@, final(self).frame_num as nat, turn_of(r)) == next_turn(
                old(self).decoder@,
                old(self).frame_num as nat,
                key,
            ),
    {
        match key {
            Some(c) => if c == 'q' || c == 'Q' {
                return Ok(PlayStep::Quit);
            },
            None => {},
        }
        let width: usize = self.decoder.width();
        let height: usize = self.decoder.height();
        let fps: u8 = self.decoder.fps();
        match self.decoder.read_sound_frame() {
            None => Ok(PlayStep::Unshowable),
            Some(Err(e)) => Err(e),
            Some(Ok(None)) => Ok(PlayStep::Idle),
            Some(Ok(Some((frame, time)))) => {
                let text = playback_text(&frame, self.frame_num, width, height, fps);
                self.frame_num += 1;
                Ok(PlayStep::Show(text, time))
            },
        }
    }
}

} // verus!
