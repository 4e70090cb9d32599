//! Which cameras there are, how they are asked for frames, and what becomes of
//! what they send.
use vstd::prelude::*;

use crate::capture::{
    decode_args, decoded_frame, device_found, devices_found, devices_of, ffmpeg_args, first_of,
    found_of, frame_bytes, is_blank, lemma_camera_list, photo_args, photo_taken,
    query_camera_devices, CameraDevice, Capture, CaptureError, Device,
};
use crate::cli::Platform;
use crate::frame::{text_rows, Frame};
use crate::laws::numerals::{all_digits, lemma_numeral_stands_for_number, value_of};
use crate::text::decimal;

verus! {

/// The first device of a number is the one before which there is none of that
/// number.
proof fn lemma_first_is(list: Seq<Device>, id: u32, k: int)
    requires
        0 <= k < list.len(),
        list[k].id == id,
        forall|i: int| 0 <= i < k ==> (#[trigger] list[i]).id != id,
    ensures
        first_of(list, id) == Some(list[k]),
    decreases list.len(),
{
    let rest = list.drop_last();
    if k < rest.len() {
        assert forall|i: int| 0 <= i < k implies (#[trigger] rest[i]).id != id by {
            assert(list[i].id != id);
        }
        lemma_first_is(rest, id, k);
    } else {
        assert forall|i: int| 0 <= i < rest.len() implies (#[trigger] rest[i]).id != id by {
            assert(list[i].id != id);
        }
        lemma_none_is(rest, id);
    }
}

/// A list without a device of a number has no first one of it.
proof fn lemma_none_is(list: Seq<Device>, id: u32)
    requires
        forall|i: int| 0 <= i < list.len() ==> (#[trigger] list[i]).id != id,
    ensures
        first_of(list, id) is None,
    decreases list.len(),
{
    if list.len() > 0 {
        let rest = list.drop_last();
        assert forall|i: int| 0 <= i < rest.len() implies (#[trigger] rest[i]).id != id by {
            assert(list[i].id != id);
        }
        lemma_none_is(rest, id);
        assert(list[list.len() - 1].id != id);
    }
}

/// A first device of a number is in the list.
proof fn lemma_first_is_held(list: Seq<Device>, id: u32) -> (k: int)
    requires
        first_of(list, id) is Some,
    ensures
        0 <= k < list.len(),
        list[k].id == id,
        first_of(list, id) == Some(list[k]),
    decreases list.len(),
{
    if list.len() == 0 {
        0
    } else if first_of(list.drop_last(), id) is Some {
        lemma_first_is_held(list.drop_last(), id)
    } else {
        list.len() - 1
    }
}

/// The first device found of a number is the first that was found with it.
proof fn lemma_first_found(found: Seq<(Option<u32>, Seq<char>)>, id: u32, j: int, n: nat)
    requires
        n <= found.len(),
        0 <= j <= n,
        j < n ==> found[j].0 == Some(id),
        forall|i: int| 0 <= i < j ==> (#[trigger] found[i]).0 != Some(id),
    ensures
        j < n ==> first_of(devices_found(found, n), id) == Some(device_found(id, found[j].1)),
        j == n ==> first_of(devices_found(found, n), id) is None,
    decreases n,
{
    if n > 0 {
        let k = (n - 1) as nat;
        let before = devices_found(found, k);
        let all = devices_found(found, n);
        if j <= k {
            lemma_first_found(found, id, j, k);
        } else {
            assert(found[k as int].0 != Some(id));
            lemma_first_found(found, id, k as int, k);
        }
        if found[k as int].0 is Some {
            assert(all.drop_last() =~= before);
        }
    }
}

/// The cameras are listed by their numbers, from the smallest, and each once.
pub proof fn lemma_cameras_rise(
    default_camera: u32,
    found: Vec<(Option<u32>, String)>,
    r: Vec<CameraDevice>,
    i: int,
    j: int,
)
    requires
        call_ensures(query_camera_devices, (default_camera, &found), r),
        0 <= i < j < r@.len(),
    ensures
        r@[i].id < r@[j].id,
{
    let list = devices_of(r@);
    lemma_camera_list(found_of(found@), default_camera);
    assert(list[i].id < list[j].id);
}

/// A camera that was found with a number is listed, under the name that it was
/// first found with, or under `Camera` and its number where that name is empty
/// or blanks; it is kept where it has a letter, a digit or a mark.
pub proof fn lemma_found_cameras_are_listed(
    default_camera: u32,
    found: Vec<(Option<u32>, String)>,
    r: Vec<CameraDevice>,
    id: u32,
    j: int,
)
    requires
        call_ensures(query_camera_devices, (default_camera, &found), r),
        0 <= j < found@.len(),
        found@[j].0 == Some(id),
        forall|i: int| 0 <= i < j ==> (#[trigger] found@[i]).0 != Some(id),
    ensures
        exists|k: int|
            0 <= k < r@.len() && (#[trigger] r@[k]).id == id && {
                let name = found@[j].1@;
                &&& (exists|p: int| 0 <= p < name.len() && '!' <= #[trigger] name[p] <= '~')
                    ==> r@[k].name@ == name
                &&& (forall|p: int| 0 <= p < name.len() ==> #[trigger] name[p] == ' ')
                    ==> r@[k].name@ == "Camera "@ + decimal(id as nat)
            },
{
    let list = devices_of(r@);
    let all = found_of(found@);
    lemma_camera_list(all, default_camera);
    assert forall|i: int| 0 <= i < j implies (#[trigger] all[i]).0 != Some(id) by {
        assert(found@[i].0 != Some(id));
    }
    assert(all[j].0 == Some(id));
    lemma_first_found(all, id, j, all.len());
    let k = lemma_first_is_held(list, id);
    assert(list[k] == r@[k]@);
    let name = found@[j].1@;
    assert(all[j].1 == name);
    if exists|p: int| 0 <= p < name.len() && '!' <= #[trigger] name[p] <= '~' {
        let p = choose|p: int| 0 <= p < name.len() && '!' <= #[trigger] name[p] <= '~';
        assert(!is_blank(name[p]));
    }
    assert(r@[k].id == id);
}

/// The camera that is asked for is listed; where it was not found, under
/// `Camera` and its number.
pub proof fn lemma_default_camera_is_listed(
    default_camera: u32,
    found: Vec<(Option<u32>, String)>,
    r: Vec<CameraDevice>,
)
    requires
        call_ensures(query_camera_devices, (default_camera, &found), r),
    ensures
        exists|k: int|
            0 <= k < r@.len() && (#[trigger] r@[k]).id == default_camera && ((forall|i: int|
                0 <= i < found@.len() ==> (#[trigger] found@[i]).0 != Some(default_camera))
                ==> r@[k].name@ == "Camera "@ + decimal(default_camera as nat)),
{
    let list = devices_of(r@);
    let all = found_of(found@);
    lemma_camera_list(all, default_camera);
    assert(first_of(list, default_camera) is Some);
    let k = lemma_first_is_held(list, default_camera);
    assert(list[k] == r@[k]@);
    if forall|i: int| 0 <= i < found@.len() ==> (#[trigger] found@[i]).0 != Some(default_camera) {
        assert forall|i: int| 0 <= i < all.len() implies (#[trigger] all[i]).0 != Some(
            default_camera,
        ) by {
            assert(found@[i].0 != Some(default_camera));
        }
        lemma_first_found(all, default_camera, all.len() as int, all.len());
    }
    assert(r@[k].id == default_camera);
}

/// No camera is listed but those found and the one that is asked for.
pub proof fn lemma_only_known_cameras_are_listed(
    default_camera: u32,
    found: Vec<(Option<u32>, String)>,
    r: Vec<CameraDevice>,
    k: int,
)
    requires
        call_ensures(query_camera_devices, (default_camera, &found), r),
        0 <= k < r@.len(),
    ensures
        r@[k].id == default_camera || exists|j: int|
            0 <= j < found@.len() && (#[trigger] found@[j]).0 == Some(r@[k].id),
{
    let list = devices_of(r@);
    let all = found_of(found@);
    let id = r@[k].id;
    lemma_camera_list(all, default_camera);
    if id != default_camera && forall|j: int|
        0 <= j < found@.len() ==> (#[trigger] found@[j]).0 != Some(id) {
        assert forall|i: int| 0 <= i < all.len() implies (#[trigger] all[i]).0 != Some(id) by {
            assert(found@[i].0 != Some(id));
        }
        lemma_first_found(all, id, all.len() as int, all.len());
        assert(first_of(list, id) is None);
        assert forall|i: int| 0 <= i < k implies (#[trigger] list[i]).id != id by {
            assert(list[i].id < list[k].id);
        }
        lemma_first_is(list, id, k);
    }
}

/// Whether a word stands right behind another in a list of words.
pub open spec fn follows(words: Seq<Seq<char>>, name: Seq<char>, value: Seq<char>) -> bool {
    exists|i: int| 0 <= i < words.len() - 1 && #[trigger] words[i] == name && words[i + 1] == value
}

/// Whether a text is a size: the numeral of a width, an `x` and the numeral of a
/// height.
pub open spec fn tells_size(text: Seq<char>, width: int, height: int) -> bool {
    exists|i: int|
        0 < i < text.len() - 1 && #[trigger] text[i] == 'x' && all_digits(text.take(i))
            && value_of(text.take(i)) == width && all_digits(text.skip(i + 1)) && value_of(
            text.skip(i + 1),
        ) == height
}

proof fn lemma_size_tells(width: usize, height: usize)
    ensures
        tells_size(decimal(width as nat) + "x"@ + decimal(height as nat), width as int, height as int),
{
    let w = decimal(width as nat);
    let h = decimal(height as nat);
    let text = w + "x"@ + h;
    reveal_strlit("x");
    lemma_numeral_stands_for_number(width as nat);
    lemma_numeral_stands_for_number(height as nat);
    let i = w.len() as int;
    assert(text.take(i) =~= w);
    assert(text.skip(i + 1) =~= h);
    assert(text[i] == 'x');
}

/// What ffmpeg is asked for: frames of the camera with its number, at the rate
/// and in the size that are given, mirrored, as raw bytes of red, green and blue
/// on its output. On macOS the camera is read by AVFoundation and named by its
/// number alone, elsewhere by Video4Linux and named by its device file.
pub proof fn lemma_ffmpeg_is_asked(
    platform: Platform,
    camera: u32,
    fps: u8,
    width: usize,
    height: usize,
    r: Vec<String>,
)
    requires
        call_ensures(ffmpeg_args, (platform, camera, fps, width, height), r),
    ensures
        ({
            let words = text_rows(r@);
            &&& follows(words, "-framerate"@, decimal(fps as nat))
            &&& exists|size: Seq<char>|
                follows(words, "-video_size"@, size) && #[trigger] tells_size(
                    size,
                    width as int,
                    height as int,
                )
            &&& platform == Platform::Macos ==> follows(words, "-f"@, "avfoundation"@) && follows(
                words,
                "-i"@,
                decimal(camera as nat),
            )
            &&& platform != Platform::Macos ==> follows(words, "-f"@, "v4l2"@) && follows(
                words,
                "-i"@,
                "/dev/video"@ + decimal(camera as nat),
            )
            &&& follows(words, "-vf"@, "hflip"@)
            &&& follows(words, "-f"@, "rawvideo"@)
            &&& follows(words, "-pix_fmt"@, "rgb24"@)
            &&& words.last() == "pipe:1"@
        }),
{
    let words = text_rows(r@);
    let size = decimal(width as nat) + "x"@ + decimal(height as nat);
    lemma_size_tells(width, height);
    assert(words[5] == "-framerate"@);
    assert(words[7] == "-video_size"@ && words[8] == size);
    assert(words[3] == "-f"@);
    let n = words.len() as int;
    if platform == Platform::Macos {
        assert(n == 21);
        assert(words[11] == "-i"@ && words[12] == decimal(camera as nat));
    } else {
        assert(n == 19);
        assert(words[9] == "-i"@);
    }
    assert(words[n - 8] == "-vf"@ && words[n - 7] == "hflip"@);
    assert(words[n - 6] == "-f"@ && words[n - 5] == "rawvideo"@);
    assert(words[n - 4] == "-pix_fmt"@ && words[n - 3] == "rgb24"@);
    assert(follows(words, "-video_size"@, size));
}

/// What ffmpeg is asked for to decode a photo: one frame of the file, scaled to
/// the width and mirrored, as raw bytes of red, green and blue on its output.
pub proof fn lemma_photo_is_decoded(photo: &str, target_width: usize, r: Vec<String>)
    requires
        call_ensures(decode_args, (photo, target_width), r),
    ensures
        ({
            let words = text_rows(r@);
            &&& follows(words, "-i"@, photo@)
            &&& follows(words, "-vf"@, "scale="@ + decimal(target_width as nat) + ":-2,hflip"@)
            &&& follows(words, "-f"@, "rawvideo"@)
            &&& follows(words, "-pix_fmt"@, "rgb24"@)
            &&& follows(words, "-frames:v"@, "1"@)
            &&& words.last() == "pipe:1"@
        }),
{
    let words = text_rows(r@);
    assert(words[3] == "-i"@);
    assert(words[5] == "-vf"@);
    assert(words[7] == "-f"@);
    assert(words[9] == "-pix_fmt"@);
    assert(words[11] == "-frames:v"@);
}

/// Termux is asked for a photo of the camera with its number.
pub proof fn lemma_photo_is_asked(camera: u32, r: Vec<String>)
    requires
        call_ensures(photo_args, (camera,), r),
    ensures
        r@.len() == 2,
        r@[0]@ == "-c"@,
        all_digits(r@[1]@),
        value_of(r@[1]@) == camera,
{
    lemma_numeral_stands_for_number(camera as nat);
    assert(text_rows(r@).len() == 2);
    assert(text_rows(r@)[0] == r@[0]@);
    assert(text_rows(r@)[1] == r@[1]@);
}

/// A raw frame has three bytes for each pixel.
pub proof fn lemma_frame_has_three_bytes_each(width: usize, height: usize, r: usize)
    requires
        call_ensures(frame_bytes, (width, height), r),
    ensures
        r == 3 * (width * height),
{
}

/// A decoded photo is a frame of the width, with as many rows as its bytes fill,
/// exactly where the command succeeded and the bytes are some whole rows.
pub proof fn lemma_decoded_photo_is_frame(
    success: bool,
    data: Vec<u8>,
    target_width: usize,
    r: Result<Frame, CaptureError>,
)
    requires
        target_width > 0,
        call_ensures(decoded_frame, (success, data, target_width), r),
    ensures
        r is Ok <==> success && data@.len() > 0 && data@.len() % (3 * target_width) as nat == 0,
        r matches Ok(frame) ==> frame.data@ == data@ && frame.width == target_width && 3 * (
        frame.width * frame.height) == data@.len(),
        !success || data@.len() == 0 ==> (r matches Err(e) && e == CaptureError::DecodeFailed),
        success && data@.len() > 0 && r is Err ==> (r matches Err(e) && e
            == CaptureError::BadLength),
{
    if let Ok(frame) = r {
        let n = data@.len() as int;
        let d = 3 * target_width;
        assert(n == d * frame.height) by (nonlinear_arith)
            requires
                n == target_width * frame.height * 3,
                d == 3 * target_width,
        ;
        assert(d * frame.height == frame.height * d) by (nonlinear_arith);
        vstd::arithmetic::div_mod::lemma_mod_multiples_basic(frame.height as int, d);
        assert(3 * (frame.width * frame.height) == frame.width * frame.height * 3);
    } else {
        assert(target_width * 3 == 3 * target_width);
    }
}

/// A photo counts as taken where its command succeeded.
pub proof fn lemma_photo_is_taken(success: bool, r: Result<(), CaptureError>)
    requires
        call_ensures(photo_taken, (success,), r),
    ensures
        r is Ok <==> success,
        r matches Err(e) ==> e == CaptureError::PhotoFailed,
{
}

/// Termux has a camera of its own and nothing to fall back on; every other
/// platform tries its native camera and falls back on ffmpeg, and no further.
pub proof fn lemma_backends(
    platform: Platform,
    first: Capture,
    second: Option<Capture>,
    third: Option<Capture>,
)
    requires
        call_ensures(Capture::start, (platform,), first),
        call_ensures(Capture::fallback, (first,), second),
        call_ensures(Capture::fallback, (Capture::Ffmpeg,), third),
    ensures
        platform == Platform::Termux ==> first == Capture::Termux && second is None,
        platform != Platform::Termux ==> first == Capture::Native && second == Some(Capture::Ffmpeg),
        third is None,
{
}

/// What reads the camera is known by its own name.
pub proof fn lemma_backends_have_names(backend: Capture, r: &'static str)
    requires
        call_ensures(Capture::backend_label, (&backend,), r),
    ensures
        backend == Capture::Native <==> r@ == "nokhwa"@,
        backend == Capture::Ffmpeg <==> r@ == "ffmpeg"@,
        backend == Capture::Termux <==> r@ == "termux"@,
{
    reveal_strlit("nokhwa");
    reveal_strlit("ffmpeg");
    reveal_strlit("termux");
    assert("nokhwa"@[0] != "ffmpeg"@[0]);
    assert("nokhwa"@[0] != "termux"@[0]);
    assert("ffmpeg"@[0] != "termux"@[0]);
}

} // verus!
