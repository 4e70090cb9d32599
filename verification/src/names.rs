//! Names of the files that are written: each holds a random number of six
//! digits.
use rand::Rng;
use vstd::prelude::*;

use crate::text::{decimal, push_decimal};

verus! {

/// The least number in a file name.
pub const NUMBER_LOW: u32 = 100000;

/// The greatest number in a file name.
pub const NUMBER_HIGH: u32 = 999999;

/// `rand::Rng::gen_range` over an inclusive range, on `rand::thread_rng()`: a
/// number in the range. Which one is left to chance.
#[verifier::external_body]
fn random_in(low: u32, high: u32) -> (r: u32)
    requires
        low <= high,
    ensures
        low <= r <= high,
{
    rand::thread_rng().gen_range(low..=high)
}

/// Draws a number for a file name.
pub fn draw_number() -> (r: u32)
    ensures
        NUMBER_LOW <= r <= NUMBER_HIGH,
{
    random_in(NUMBER_LOW, NUMBER_HIGH)
}

/// The name of the recording with a number.
pub open spec fn recording_title(number: u32) -> Seq<char> {
    "recording_"@ + decimal(number as nat) + ".tcam"@
}

/// The name of the HTML capture with a number.
pub open spec fn html_title(number: u32) -> Seq<char> {
    "capture_"@ + decimal(number as nat) + ".html"@
}

/// The name of the SVG capture with a number.
pub open spec fn svg_title(number: u32) -> Seq<char> {
    "capture_"@ + decimal(number as nat) + ".svg"@
}

/// The name of the photo that a process takes, with a number.
pub open spec fn photo_title(process: u32, number: u32) -> Seq<char> {
    "rustercam_"@ + decimal(process as nat) + "_"@ + decimal(number as nat) + ".jpg"@
}

/// A number between two texts.
fn numbered(before: &str, number: u32, after: &str) -> (r: String)
    ensures
        r@ == before@ + decimal(number as nat) + after@,
{
    let mut out = String::new();
    out.append(before);
    assert(out@ =~= before@);
    push_decimal(&mut out, number as u64);
    out.append(after);
    out
}

/// The name of the recording with a number.
pub fn recording_name(number: u32) -> (r: String)
    ensures
        r@ == recording_title(number),
{
    numbered("recording_", number, ".tcam")
}

/// The name of the HTML capture with a number.
pub fn html_name(number: u32) -> (r: String)
    ensures
        r@ == html_title(number),
{
    numbered("capture_", number, ".html")
}

/// The name of the SVG capture with a number.
pub fn svg_name(number: u32) -> (r: String)
    ensures
        r@ == svg_title(number),
{
    numbered("capture_", number, ".svg")
}

/// The name of the photo that a process takes, with a number.
pub fn photo_name(process: u32, number: u32) -> (r: String)
    ensures
        r@ == photo_title(process, number),
{
    let mut out = numbered("rustercam_", process, "_");
    push_decimal(&mut out, number as u64);
    out.append(".jpg");
    out
}

} // verus!
