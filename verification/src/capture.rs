//! Cameras: which there are, how each backend is asked for frames, and what
//! its answers amount to.
use vstd::prelude::*;

use crate::cli::Platform;
use crate::frame::{text_rows, Frame};
use crate::render::letters_of;
use crate::text::{decimal, decimal_string, push_decimal};

verus! {

/// A camera device.
pub struct CameraDevice {
    pub id: u32,
    pub name: String,
}

/// What a camera device is known by.
#[verifier::ext_equal]
pub struct Device {
    pub id: u32,
    pub name: Seq<char>,
}

impl View for CameraDevice {
    type V = Device;

    open spec fn view(&self) -> Device {
        Device { id: self.id, name: self.name@ }
    }
}

impl Clone for CameraDevice {
    fn clone(&self) -> (r: Self)
        ensures
            r@ == self@,
    {
        CameraDevice { id: self.id, name: self.name.clone() }
    }
}

/// The devices of a list.
pub open spec fn devices_of(list: Seq<CameraDevice>) -> Seq<Device> {
    Seq::new(list.len(), |i: int| list[i]@)
}

/// The cameras that a search found: the number of each, where it has one, and
/// its name.
pub open spec fn found_of(found: Seq<(Option<u32>, String)>) -> Seq<(Option<u32>, Seq<char>)> {
    Seq::new(found.len(), |i: int| (found[i].0, found[i].1@))
}

/// The name of a camera that has none of its own.
pub open spec fn camera_title(id: u32) -> Seq<char> {
    "Camera "@ + decimal(id as nat)
}

/// Whether a character is white space: the Unicode property `White_Space`.
pub open spec fn is_blank(c: char) -> bool {
    ||| '\t' <= c <= '\r'
    ||| c == ' '
    ||| c == '\u{85}'
    ||| c == '\u{a0}'
    ||| c == '\u{1680}'
    ||| '\u{2000}' <= c <= '\u{200a}'
    ||| c == '\u{2028}'
    ||| c == '\u{2029}'
    ||| c == '\u{202f}'
    ||| c == '\u{205f}'
    ||| c == '\u{3000}'
}

/// Whether a name is blank: empty, or white space only.
pub open spec fn all_blank(name: Seq<char>) -> bool {
    forall|i: int| 0 <= i < name.len() ==> is_blank(#[trigger] name[i])
}

/// The device of a camera that was found with a number: it keeps its name,
/// unless that is blank.
pub open spec fn device_found(id: u32, name: Seq<char>) -> Device {
    Device {
        id,
        name: if all_blank(name) {
            camera_title(id)
        } else {
            name
        },
    }
}

/// The devices of the first `n` cameras found; one without a number is left
/// out.
pub open spec fn devices_found(found: Seq<(Option<u32>, Seq<char>)>, n: nat) -> Seq<Device>
    decreases n,
{
    if n == 0 {
        Seq::empty()
    } else {
        let before = devices_found(found, (n - 1) as nat);
        match found[n - 1].0 {
            Some(id) => before.push(device_found(id, found[n - 1].1)),
            None => before,
        }
    }
}

/// A list with one device more, after those whose number is not greater.
pub open spec fn insert_by_id(list: Seq<Device>, device: Device) -> Seq<Device>
    decreases list.len(),
{
    if list.len() == 0 || list.last().id <= device.id {
        list.push(device)
    } else {
        insert_by_id(list.drop_last(), device).push(list.last())
    }
}

/// A list in the order of the device numbers; devices of one number keep their
/// order.
pub open spec fn sorted_by_id(list: Seq<Device>) -> Seq<Device>
    decreases list.len(),
{
    if list.len() == 0 {
        list
    } else {
        insert_by_id(sorted_by_id(list.drop_last()), list.last())
    }
}

/// A list without the devices that follow one of the same number.
pub open spec fn without_repeats(list: Seq<Device>) -> Seq<Device>
    decreases list.len(),
{
    if list.len() == 0 {
        list
    } else {
        let before = without_repeats(list.drop_last());
        if before.len() > 0 && before.last().id == list.last().id {
            before
        } else {
            before.push(list.last())
        }
    }
}

/// Whether a list holds a device of a number.
pub open spec fn holds(list: Seq<Device>, id: u32) -> bool {
    exists|i: int| 0 <= i < list.len() && (#[trigger] list[i]).id == id
}

/// A list that is sure to hold a camera.
pub open spec fn with_camera(list: Seq<Device>, id: u32) -> Seq<Device> {
    if holds(list, id) {
        list
    } else {
        sorted_by_id(list.push(Device { id, name: camera_title(id) }))
    }
}

/// The list of cameras: those found, in order, each once, and the default one.
pub open spec fn camera_list(found: Seq<(Option<u32>, Seq<char>)>, default_camera: u32) -> Seq<
    Device,
> {
    with_camera(
        without_repeats(sorted_by_id(devices_found(found, found.len()))),
        default_camera,
    )
}

/// The name of a camera that has none of its own.
pub fn camera_name(id: u32) -> (r: String)
    ensures
        r@ == camera_title(id),
{
    let mut out = String::new();
    out.append("Camera ");
    push_decimal(&mut out, id as u64);
    assert(out@ =~= camera_title(id));
    out
}

fn blank(c: char) -> (r: bool)
    ensures
        r == is_blank(c),
{
    ('\t' <= c && c <= '\r') || c == ' ' || c == '\u{85}' || c == '\u{a0}' || c == '\u{1680}' || (
    '\u{2000}' <= c && c <= '\u{200a}') || c == '\u{2028}' || c == '\u{2029}' || c == '\u{202f}'
        || c == '\u{205f}' || c == '\u{3000}'
}

/// Whether a name is blank: empty, or white space only.
pub fn name_is_blank(name: &str) -> (r: bool)
    ensures
        r == all_blank(name@),
{
    let letters = letters_of(name);
    let mut i: usize = 0;
    while i < letters.len()
        invariant
            i <= letters.len(),
            letters@ == name@,
            forall|k: int| 0 <= k < i ==> is_blank(#[trigger] name@[k]),
        decreases letters.len() - i,
    {
        if !blank(letters[i]) {
            assert(!is_blank(name@[i as int]));
            return false;
        }
        i += 1;
    }
    true
}

/// Where a device goes in a list.
proof fn lemma_insert_position(list: Seq<Device>, device: Device, k: int)
    requires
        0 <= k <= list.len(),
        k > 0 ==> list[k - 1].id <= device.id,
        forall|i: int| k <= i < list.len() ==> (#[trigger] list[i]).id > device.id,
    ensures
        insert_by_id(list, device) == list.insert(k, device),
    decreases list.len(),
{
    if list.len() == 0 || list.last().id <= device.id {
        assert(list.insert(k, device) =~= list.push(device));
    } else {
        lemma_insert_position(list.drop_last(), device, k);
        assert(list.insert(k, device) =~= list.drop_last().insert(k, device).push(list.last()));
    }
}

/// Puts a device into a list, after those whose number is not greater.
fn insert_device(list: &mut Vec<CameraDevice>, device: CameraDevice)
    ensures
        devices_of(final(list)@) == insert_by_id(devices_of(old(list)@), device@),
{
    let mut k: usize = list.len();
    while k > 0 && list[k - 1].id > device.id
        invariant
            k <= list.len(),
            *list == *old(list),
            forall|i: int| k <= i < list@.len() ==> (#[trigger] list@[i]).id > device.id,
        decreases k,
    {
        k -= 1;
    }
    proof {
        lemma_insert_position(devices_of(list@), device@, k as int);
        assert(devices_of(list@.insert(k as int, device)) =~= devices_of(list@).insert(
            k as int,
            device@,
        ));
    }
    list.insert(k, device);
}

/// Puts a list in the order of the device numbers.
fn sort_devices(list: &mut Vec<CameraDevice>)
    ensures
        devices_of(final(list)@) == sorted_by_id(devices_of(old(list)@)),
{
    let ghost whole = devices_of(list@);
    let mut sorted: Vec<CameraDevice> = Vec::new();
    assert(devices_of(sorted@) =~= sorted_by_id(whole.take(0)));
    assert(whole.skip(0) =~= whole);
    while list.len() > 0
        invariant
            list@.len() <= whole.len(),
            devices_of(list@) == whole.skip(whole.len() - list@.len()),
            devices_of(sorted@) == sorted_by_id(whole.take(whole.len() - list@.len())),
        decreases list@.len(),
    {
        let ghost done = whole.len() - list@.len();
        proof {
            assert(devices_of(list@)[0] == whole[done]);
            assert(devices_of(list@.remove(0)) =~= devices_of(list@).skip(1));
            assert(whole.skip(done).skip(1) =~= whole.skip(done + 1));
            assert(whole.take(done + 1).drop_last() =~= whole.take(done));
        }
        let device = list.remove(0);
        insert_device(&mut sorted, device);
    }
    assert(whole.take(whole.len() as int) =~= whole);
    std::mem::swap(list, &mut sorted);
}

/// Leaves out the devices that follow one of the same number.
fn drop_repeats(list: &mut Vec<CameraDevice>)
    ensures
        devices_of(final(list)@) == without_repeats(devices_of(old(list)@)),
{
    let ghost whole = devices_of(list@);
    let mut kept: Vec<CameraDevice> = Vec::new();
    assert(devices_of(kept@) =~= without_repeats(whole.take(0)));
    assert(whole.skip(0) =~= whole);
    while list.len() > 0
        invariant
            list@.len() <= whole.len(),
            devices_of(list@) == whole.skip(whole.len() - list@.len()),
            devices_of(kept@) == without_repeats(whole.take(whole.len() - list@.len())),
        decreases list@.len(),
    {
        let ghost done = whole.len() - list@.len();
        proof {
            assert(devices_of(list@)[0] == whole[done]);
            assert(devices_of(list@.remove(0)) =~= devices_of(list@).skip(1));
            assert(whole.skip(done).skip(1) =~= whole.skip(done + 1));
            assert(whole.take(done + 1).drop_last() =~= whole.take(done));
        }
        let device = list.remove(0);
        let n: usize = kept.len();
        if n > 0 && kept[n - 1].id == device.id {
            assert(devices_of(kept@).last() == kept@[n - 1]@);
        } else {
            proof {
                assert(n > 0 ==> devices_of(kept@).last() == kept@[n - 1]@);
                assert(devices_of(kept@.push(device)) =~= devices_of(kept@).push(device@));
            }
            kept.push(device);
        }
    }
    assert(whole.take(whole.len() as int) =~= whole);
    std::mem::swap(list, &mut kept);
}

/// Makes sure that a list holds a camera: where it does not, the camera is
/// added and the list put in order.
pub fn ensure_camera_device(devices: &mut Vec<CameraDevice>, camera: u32)
    ensures
        devices_of(final(devices)@) == with_camera(devices_of(old(devices)@), camera),
{
    let mut i: usize = 0;
    while i < devices.len()
        invariant
            i <= devices.len(),
            *devices == *old(devices),
            forall|k: int| 0 <= k < i ==> (#[trigger] devices@[k]).id != camera,
        decreases devices.len() - i,
    {
        if devices[i].id == camera {
            assert(devices_of(devices@)[i as int].id == camera);
            return;
        }
        i += 1;
    }
    assert(!holds(devices_of(devices@), camera));
    let device = CameraDevice { id: camera, name: camera_name(camera) };
    assert(devices_of(devices@.push(device)) =~= devices_of(devices@).push(device@));
    devices.push(device);
    sort_devices(devices);
}

/// The list of cameras, given those that a search found: those that have a
/// number, in order and each once, and the default camera.
pub fn query_camera_devices(default_camera: u32, found: &Vec<(Option<u32>, String)>) -> (r: Vec<
    CameraDevice,
>)
    ensures
        devices_of(r@) == camera_list(found_of(found@), default_camera),
{
    let mut devices: Vec<CameraDevice> = Vec::new();
    let mut i: usize = 0;
    assert(devices_of(devices@) =~= devices_found(found_of(found@), 0));
    while i < found.len()
        invariant
            i <= found.len(),
            devices_of(devices@) == devices_found(found_of(found@), i as nat),
        decreases found.len() - i,
    {
        match found[i].0 {
            Some(id) => {
                let name = if name_is_blank(found[i].1.as_str()) {
                    camera_name(id)
                } else {
                    found[i].1.clone()
                };
                let device = CameraDevice { id, name };
                proof {
                    assert(found_of(found@)[i as int] == (Some(id), found@[i as int].1@));
                    assert(device@ == device_found(id, found@[i as int].1@));
                    assert(devices_of(devices@.push(device)) =~= devices_of(devices@).push(
                        device@,
                    ));
                }
                devices.push(device);
            },
            None => {},
        }
        i += 1;
    }
    sort_devices(&mut devices);
    drop_repeats(&mut devices);
    ensure_camera_device(&mut devices, default_camera);
    devices
}

/// Why a camera gives no frame.
#[derive(Clone, Copy, Debug, PartialEq, Eq, Structural)]
pub enum CaptureError {
    /// The photo was not taken.
    PhotoFailed,
    /// The photo was not decoded.
    DecodeFailed,
    /// The decoded photo does not consist of whole rows.
    BadLength,
}

impl CaptureError {
    /// The message of the error.
    pub open spec fn words(self) -> Seq<char> {
        match self {
            CaptureError::PhotoFailed => "termux-camera-photo failed"@,
            CaptureError::DecodeFailed => "ffmpeg failed to decode Termux camera frame"@,
            CaptureError::BadLength => "decoded Termux frame has unexpected byte length"@,
        }
    }

    /// The message of the error.
    pub fn message(self) -> (r: &'static str)
        ensures
            r@ == self.words(),
    {
        match self {
            CaptureError::PhotoFailed => "termux-camera-photo failed",
            CaptureError::DecodeFailed => "ffmpeg failed to decode Termux camera frame",
            CaptureError::BadLength => "decoded Termux frame has unexpected byte length",
        }
    }
}

/// What reads the camera.
#[derive(Clone, Copy, Debug, PartialEq, Eq, Structural)]
pub enum Capture {
    Native,
    Ffmpeg,
    Termux,
}

impl Capture {
    /// What a platform tries first: Termux has its own camera.
    pub open spec fn first_choice(platform: Platform) -> Capture {
        if platform == Platform::Termux {
            Capture::Termux
        } else {
            Capture::Native
        }
    }

    /// What a platform tries first.
    pub fn start(platform: Platform) -> (r: Capture)
        ensures
            r == Capture::first_choice(platform),
    {
        match platform {
            Platform::Termux => Capture::Termux,
            _ => Capture::Native,
        }
    }

    /// What is tried where this does not start.
    pub open spec fn second_choice(self) -> Option<Capture> {
        match self {
            Capture::Native => Some(Capture::Ffmpeg),
            _ => None,
        }
    }

    /// What is tried where this does not start.
    pub fn fallback(self) -> (r: Option<Capture>)
        ensures
            r == self.second_choice(),
    {
        match self {
            Capture::Native => Some(Capture::Ffmpeg),
            _ => None,
        }
    }

    /// The name that the status line shows.
    pub open spec fn title(self) -> Seq<char> {
        match self {
            Capture::Native => "nokhwa"@,
            Capture::Ffmpeg => "ffmpeg"@,
            Capture::Termux => "termux"@,
        }
    }

    /// The name that the status line shows.
    pub fn backend_label(&self) -> (r: &'static str)
        ensures
            r@ == self.title(),
    {
        match self {
            Capture::Native => "nokhwa",
            Capture::Ffmpeg => "ffmpeg",
            Capture::Termux => "termux",
        }
    }
}

/// What is reported where neither the native camera nor ffmpeg starts.
pub open spec fn both_failed(native_error: Seq<char>) -> Seq<char> {
    "native camera backend failed first: "@ + native_error + "; ffmpeg fallback also failed"@
}

/// What is reported where neither the native camera nor ffmpeg starts.
pub fn fallback_failure(native_error: &str) -> (r: String)
    ensures
        r@ == both_failed(native_error@),
{
    let mut out = String::new();
    out.append("native camera backend failed first: ");
    assert(out@ =~= "native camera backend failed first: "@);
    out.append(native_error);
    out.append("; ffmpeg fallback also failed");
    out
}

/// A size as ffmpeg reads it.
pub open spec fn size_words(width: usize, height: usize) -> Seq<char> {
    decimal(width as nat) + "x"@ + decimal(height as nat)
}

/// Where ffmpeg reads the camera from, on a platform.
pub open spec fn ffmpeg_input(
    platform: Platform,
    camera: u32,
    fps: u8,
    width: usize,
    height: usize,
) -> Seq<Seq<char>> {
    if platform == Platform::Macos {
        seq![
            "-f"@,
            "avfoundation"@,
            "-framerate"@,
            decimal(fps as nat),
            "-video_size"@,
            size_words(width, height),
            "-pixel_format"@,
            "yuyv422"@,
            "-i"@,
            decimal(camera as nat),
        ]
    } else {
        seq![
            "-f"@,
            "v4l2"@,
            "-framerate"@,
            decimal(fps as nat),
            "-video_size"@,
            size_words(width, height),
            "-i"@,
            "/dev/video"@ + decimal(camera as nat),
        ]
    }
}

/// The arguments with which ffmpeg sends the frames of a camera, mirrored, as
/// raw bytes.
pub open spec fn ffmpeg_words(
    platform: Platform,
    camera: u32,
    fps: u8,
    width: usize,
    height: usize,
) -> Seq<Seq<char>> {
    seq!["-hide_banner"@, "-loglevel"@, "error"@] + ffmpeg_input(
        platform,
        camera,
        fps,
        width,
        height,
    ) + seq!["-vf"@, "hflip"@, "-f"@, "rawvideo"@, "-pix_fmt"@, "rgb24"@, "-an"@, "pipe:1"@]
}

/// The arguments with which ffmpeg decodes a photo, mirrored and scaled to a
/// width, to raw bytes.
pub open spec fn decode_words(photo: Seq<char>, target_width: usize) -> Seq<Seq<char>> {
    seq![
        "-hide_banner"@,
        "-loglevel"@,
        "error"@,
        "-i"@,
        photo,
        "-vf"@,
        "scale="@ + decimal(target_width as nat) + ":-2,hflip"@,
        "-f"@,
        "rawvideo"@,
        "-pix_fmt"@,
        "rgb24"@,
        "-frames:v"@,
        "1"@,
        "pipe:1"@,
    ]
}

/// Adds a word to a list of words.
fn push_word(words: &mut Vec<String>, word: &str)
    ensures
        text_rows(final(words)@) == text_rows(old(words)@).push(word@),
{
    let mut copy = String::new();
    copy.append(word);
    assert(copy@ =~= word@);
    words.push(copy);
    assert(text_rows(words@) =~= text_rows(old(words)@).push(word@));
}

/// Adds a word that ends in a number to a list of words.
fn push_numbered(words: &mut Vec<String>, before: &str, number: u64)
    ensures
        text_rows(final(words)@) == text_rows(old(words)@).push(before@ + decimal(number as nat)),
{
    let mut word = String::new();
    word.append(before);
    push_decimal(&mut word, number);
    assert(word@ =~= before@ + decimal(number as nat));
    push_word(words, word.as_str());
}

/// Adds a number to a list of words.
fn push_number(words: &mut Vec<String>, number: u64)
    ensures
        text_rows(final(words)@) == text_rows(old(words)@).push(decimal(number as nat)),
{
    let word = decimal_string(number);
    push_word(words, word.as_str());
}

/// Adds a size to a list of words.
fn push_size(words: &mut Vec<String>, width: usize, height: usize)
    ensures
        text_rows(final(words)@) == text_rows(old(words)@).push(size_words(width, height)),
{
    let mut word = decimal_string(width as u64);
    word.append("x");
    push_decimal(&mut word, height as u64);
    push_word(words, word.as_str());
}

/// The arguments with which ffmpeg sends the frames of a camera.
pub fn ffmpeg_args(
    platform: Platform,
    camera: u32,
    fps: u8,
    width: usize,
    height: usize,
) -> (r: Vec<String>)
    ensures
        text_rows(r@) == ffmpeg_words(platform, camera, fps, width, height),
{
    let mut words: Vec<String> = Vec::new();
    assert(text_rows(words@) =~= Seq::empty());
    push_word(&mut words, "-hide_banner");
    push_word(&mut words, "-loglevel");
    push_word(&mut words, "error");
    assert(text_rows(words@) =~= seq!["-hide_banner"@, "-loglevel"@, "error"@]);
    let ghost head = text_rows(words@);
    match platform {
        Platform::Macos => {
            push_word(&mut words, "-f");
            push_word(&mut words, "avfoundation");
            push_word(&mut words, "-framerate");
            push_number(&mut words, fps as u64);
            push_word(&mut words, "-video_size");
            push_size(&mut words, width, height);
            push_word(&mut words, "-pixel_format");
            push_word(&mut words, "yuyv422");
            push_word(&mut words, "-i");
            push_number(&mut words, camera as u64);
        },
        _ => {
            push_word(&mut words, "-f");
            push_word(&mut words, "v4l2");
            push_word(&mut words, "-framerate");
            push_number(&mut words, fps as u64);
            push_word(&mut words, "-video_size");
            push_size(&mut words, width, height);
            push_word(&mut words, "-i");
            push_numbered(&mut words, "/dev/video", camera as u64);
        },
    }
    assert(text_rows(words@) =~= head + ffmpeg_input(platform, camera, fps, width, height));
    let ghost middle = text_rows(words@);
    push_word(&mut words, "-vf");
    push_word(&mut words, "hflip");
    push_word(&mut words, "-f");
    push_word(&mut words, "rawvideo");
    push_word(&mut words, "-pix_fmt");
    push_word(&mut words, "rgb24");
    push_word(&mut words, "-an");
    push_word(&mut words, "pipe:1");
    assert(text_rows(words@) =~= middle
        + seq!["-vf"@, "hflip"@, "-f"@, "rawvideo"@, "-pix_fmt"@, "rgb24"@, "-an"@, "pipe:1"@]);
    words
}

/// The arguments with which ffmpeg decodes a photo.
pub fn decode_args(photo: &str, target_width: usize) -> (r: Vec<String>)
    ensures
        text_rows(r@) == decode_words(photo@, target_width),
{
    let mut words: Vec<String> = Vec::new();
    assert(text_rows(words@) =~= Seq::empty());
    push_word(&mut words, "-hide_banner");
    push_word(&mut words, "-loglevel");
    push_word(&mut words, "error");
    push_word(&mut words, "-i");
    push_word(&mut words, photo);
    push_word(&mut words, "-vf");
    let mut scale = String::new();
    scale.append("scale=");
    assert(scale@ =~= "scale="@);
    push_decimal(&mut scale, target_width as u64);
    scale.append(":-2,hflip");
    push_word(&mut words, scale.as_str());
    push_word(&mut words, "-f");
    push_word(&mut words, "rawvideo");
    push_word(&mut words, "-pix_fmt");
    push_word(&mut words, "rgb24");
    push_word(&mut words, "-frames:v");
    push_word(&mut words, "1");
    push_word(&mut words, "pipe:1");
    assert(text_rows(words@) =~= decode_words(photo@, target_width));
    words
}

/// The arguments with which Termux takes a photo, before the path of its file.
pub fn photo_args(camera: u32) -> (r: Vec<String>)
    ensures
        text_rows(r@) == seq!["-c"@, decimal(camera as nat)],
{
    let mut words: Vec<String> = Vec::new();
    push_word(&mut words, "-c");
    push_number(&mut words, camera as u64);
    assert(text_rows(words@) =~= seq!["-c"@, decimal(camera as nat)]);
    words
}

/// The number of bytes of a raw frame.
pub fn frame_bytes(width: usize, height: usize) -> (r: usize)
    requires
        width * height * 3 <= usize::MAX,
    ensures
        r == width * height * 3,
{
    assert(width * height <= width * height * 3) by (nonlinear_arith);
    width * height * 3
}

/// Whether a photo was taken, as its command ended.
pub fn photo_taken(success: bool) -> (r: Result<(), CaptureError>)
    ensures
        r == (if success {
            Ok::<(), CaptureError>(())
        } else {
            Err(CaptureError::PhotoFailed)
        }),
{
    if success {
        Ok(())
    } else {
        Err(CaptureError::PhotoFailed)
    }
}

/// The frame of a decoded photo: as many rows of a width as its bytes fill.
/// The command must have succeeded with some bytes, and they must be whole
/// rows.
pub fn decoded_frame(success: bool, data: Vec<u8>, target_width: usize) -> (r: Result<
    Frame,
    CaptureError,
>)
    requires
        success && data@.len() > 0 ==> 0 < target_width * 3 <= usize::MAX,
    ensures
        match r {
            Ok(frame) => {
                &&& success
                &&& data@.len() > 0
                &&& frame.data@ == data@
                &&& frame.width == target_width
                &&& data@.len() == frame.width * frame.height * 3
            },
            Err(CaptureError::DecodeFailed) => !success || data@.len() == 0,
            Err(CaptureError::BadLength) => success && data@.len() > 0 && data@.len() % (
            target_width * 3) as nat != 0,
            Err(CaptureError::PhotoFailed) => false,
        },
{
    if !success || data.len() == 0 {
        return Err(CaptureError::DecodeFailed);
    }
    let row_bytes: usize = target_width * 3;
    if data.len() % row_bytes != 0 {
        return Err(CaptureError::BadLength);
    }
    let height: usize = data.len() / row_bytes;
    proof {
        vstd::arithmetic::div_mod::lemma_fundamental_div_mod(
            data@.len() as int,
            row_bytes as int,
        );
        assert(row_bytes * height == target_width * height * 3) by (nonlinear_arith)
            requires
                row_bytes == target_width * 3,
        ;
    }
    Ok(Frame { data, width: target_width, height })
}

/// The first device of a number in a list.
pub open spec fn first_of(list: Seq<Device>, id: u32) -> Option<Device>
    decreases list.len(),
{
    if list.len() == 0 {
        None
    } else {
        match first_of(list.drop_last(), id) {
            Some(device) => Some(device),
            None => if list.last().id == id {
                Some(list.last())
            } else {
                None
            },
        }
    }
}

/// The devices of a number, in the list's own order.
pub open spec fn of_number(list: Seq<Device>, id: u32) -> Seq<Device> {
    list.filter(|device: Device| device.id == id)
}

/// Whether the numbers in a list do not fall.
pub open spec fn in_order(list: Seq<Device>) -> bool {
    forall|i: int, j: int|
        0 <= i < j < list.len() ==> (#[trigger] list[i]).id <= (#[trigger] list[j]).id
}

/// Whether the numbers in a list rise: it is in order, and no number occurs
/// twice.
pub open spec fn strictly_in_order(list: Seq<Device>) -> bool {
    forall|i: int, j: int|
        0 <= i < j < list.len() ==> (#[trigger] list[i]).id < (#[trigger] list[j]).id
}

/// A list has a first device of a number if it holds one.
proof fn lemma_first_of_held(list: Seq<Device>, id: u32)
    ensures
        first_of(list, id) is Some <==> holds(list, id),
        first_of(list, id) matches Some(device) ==> device.id == id,
    decreases list.len(),
{
    if list.len() > 0 {
        let before = list.drop_last();
        lemma_first_of_held(before, id);
        if holds(before, id) {
            let i = choose|i: int| 0 <= i < before.len() && (#[trigger] before[i]).id == id;
            assert(list[i].id == id);
        }
        if holds(list, id) && list.last().id != id {
            let i = choose|i: int| 0 <= i < list.len() && (#[trigger] list[i]).id == id;
            assert(before[i].id == id);
        }
        if list.last().id == id {
            assert(list[list.len() - 1].id == id);
        }
    }
}

/// A device that goes into a list is the first of its number only if there was
/// none.
proof fn lemma_insert_keeps_first(list: Seq<Device>, device: Device, id: u32)
    ensures
        first_of(insert_by_id(list, device), id) == first_of(list.push(device), id),
    decreases list.len(),
{
    assert(list.push(device).drop_last() =~= list);
    if list.len() > 0 && list.last().id > device.id {
        let before = list.drop_last();
        lemma_insert_keeps_first(before, device, id);
        assert(before.push(device).drop_last() =~= before);
        let inserted = insert_by_id(list, device);
        assert(inserted.drop_last() =~= insert_by_id(before, device));
        assert(inserted.last() == list.last());
        reveal_with_fuel(first_of, 3);
    }
}

/// Putting a list in order keeps the first device of each number, in the
/// list's own order.
proof fn lemma_sort_keeps_first(list: Seq<Device>, id: u32)
    ensures
        first_of(sorted_by_id(list), id) == first_of(list, id),
    decreases list.len(),
{
    if list.len() > 0 {
        let before = list.drop_last();
        lemma_sort_keeps_first(before, id);
        lemma_insert_keeps_first(sorted_by_id(before), list.last(), id);
        assert(sorted_by_id(before).push(list.last()).drop_last() =~= sorted_by_id(before));
    }
}

/// Leaving out repeats keeps the first device of each number.
proof fn lemma_repeats_keep_first(list: Seq<Device>, id: u32)
    ensures
        first_of(without_repeats(list), id) == first_of(list, id),
    decreases list.len(),
{
    if list.len() > 0 {
        let before = without_repeats(list.drop_last());
        lemma_repeats_keep_first(list.drop_last(), id);
        if before.len() > 0 && before.last().id == list.last().id {
            assert(before[before.len() - 1].id == list.last().id);
            lemma_first_of_held(before, list.last().id);
        } else {
            assert(before.push(list.last()).drop_last() =~= before);
        }
    }
}

/// A device and a list below a number stay below it together.
proof fn lemma_insert_below(list: Seq<Device>, device: Device, bound: int)
    requires
        device.id < bound,
        forall|i: int| 0 <= i < list.len() ==> (#[trigger] list[i]).id < bound,
    ensures
        insert_by_id(list, device).len() == list.len() + 1,
        forall|i: int|
            0 <= i < insert_by_id(list, device).len() ==> (#[trigger] insert_by_id(
                list,
                device,
            )[i]).id < bound,
    decreases list.len(),
{
    if list.len() > 0 && list.last().id > device.id {
        lemma_insert_below(list.drop_last(), device, bound);
    }
}

/// A device goes into a list in order so that it stays in order, and strictly
/// where its number is new.
proof fn lemma_insert_in_order(list: Seq<Device>, device: Device)
    requires
        in_order(list),
    ensures
        in_order(insert_by_id(list, device)),
        strictly_in_order(list) && !holds(list, device.id) ==> strictly_in_order(
            insert_by_id(list, device),
        ),
    decreases list.len(),
{
    if list.len() > 0 && list.last().id > device.id {
        let before = list.drop_last();
        let last = list.last();
        lemma_insert_in_order(before, device);
        lemma_insert_below(before, device, last.id + 1);
        if strictly_in_order(list) && !holds(list, device.id) {
            assert(!holds(before, device.id)) by {
                if holds(before, device.id) {
                    let i = choose|i: int|
                        0 <= i < before.len() && (#[trigger] before[i]).id == device.id;
                    assert(list[i].id == device.id);
                }
            }
            lemma_insert_below(before, device, last.id as int);
        }
    } else if list.len() > 0 {
        assert(list[list.len() - 1].id <= device.id);
    }
}

/// A list put in order is in order.
proof fn lemma_sorted_in_order(list: Seq<Device>)
    ensures
        in_order(sorted_by_id(list)),
        sorted_by_id(list).len() == list.len(),
    decreases list.len(),
{
    if list.len() > 0 {
        lemma_sorted_in_order(list.drop_last());
        lemma_insert_in_order(sorted_by_id(list.drop_last()), list.last());
        lemma_insert_below(sorted_by_id(list.drop_last()), list.last(), 0x1_0000_0000);
    }
}

/// A list in order stays as it is.
proof fn lemma_sorted_stays(list: Seq<Device>)
    requires
        in_order(list),
    ensures
        sorted_by_id(list) == list,
    decreases list.len(),
{
    if list.len() > 0 {
        let before = list.drop_last();
        lemma_sorted_stays(before);
        assert(before.len() > 0 ==> list[before.len() - 1].id <= list[list.len() - 1].id);
        assert(before.push(list.last()) =~= list);
    }
}

/// A list in order that leaves out repeats is strictly in order.
proof fn lemma_repeats_strictly_in_order(list: Seq<Device>)
    requires
        in_order(list),
    ensures
        strictly_in_order(without_repeats(list)),
        list.len() > 0 ==> without_repeats(list).len() > 0 && without_repeats(list).last().id
            == list.last().id,
    decreases list.len(),
{
    if list.len() > 0 {
        let before = list.drop_last();
        lemma_repeats_strictly_in_order(before);
        let kept = without_repeats(before);
        if kept.len() > 0 {
            assert(list[before.len() - 1].id <= list[list.len() - 1].id);
            assert forall|i: int, j: int| 0 <= i < j < kept.push(list.last()).len() && kept.last().id
                != list.last().id implies (#[trigger] kept.push(list.last())[i]).id < (
            #[trigger] kept.push(list.last())[j]).id by {
                if j == kept.len() && i < kept.len() - 1 {
                    assert(kept[i].id < kept[kept.len() - 1].id);
                }
            }
        }
    }
}

/// A list with a device put in has one device more, and of each number the
/// same devices in the same order as if it came last.
proof fn lemma_insert_keeps_all(list: Seq<Device>, device: Device, id: u32)
    ensures
        insert_by_id(list, device).to_multiset() == list.push(device).to_multiset(),
        of_number(insert_by_id(list, device), id) == of_number(list.push(device), id),
    decreases list.len(),
{
    if list.len() > 0 && list.last().id > device.id {
        let before = list.drop_last();
        let last = list.last();
        let inserted = insert_by_id(before, device);
        lemma_insert_keeps_all(before, device, id);
        assert(before.push(last) =~= list);
        broadcast use vstd::seq_lib::group_to_multiset_ensures;

        assert(inserted.push(last).to_multiset() =~= list.push(device).to_multiset());
        lemma_filter_push(inserted, last, id);
        lemma_filter_push(before, device, id);
        lemma_filter_push(before, last, id);
        lemma_filter_push(list, device, id);
    }
}

/// A device at the end is kept where its number is the one asked for.
proof fn lemma_filter_push(list: Seq<Device>, device: Device, id: u32)
    ensures
        of_number(list.push(device), id) == (if device.id == id {
            of_number(list, id).push(device)
        } else {
            of_number(list, id)
        }),
{
    reveal(Seq::filter);
    assert(list.push(device).drop_last() =~= list);
}

/// Putting any list in order puts it in order, keeps its devices, and keeps the
/// order of those that have the same number.
pub proof fn lemma_sort_is_stable(list: Seq<Device>)
    ensures
        in_order(sorted_by_id(list)),
        sorted_by_id(list).to_multiset() == list.to_multiset(),
        forall|id: u32| #[trigger]
            of_number(sorted_by_id(list), id) == of_number(list, id),
    decreases list.len(),
{
    lemma_sorted_in_order(list);
    if list.len() > 0 {
        let before = list.drop_last();
        let last = list.last();
        let sorted = sorted_by_id(before);
        lemma_sort_is_stable(before);
        assert(before.push(last) =~= list);
        broadcast use vstd::seq_lib::group_to_multiset_ensures;

        lemma_insert_keeps_all(sorted, last, 0);
        assert(sorted.push(last).to_multiset() =~= before.push(last).to_multiset());
        assert forall|id: u32| #[trigger] of_number(sorted_by_id(list), id) == of_number(list, id) by {
            assert(of_number(sorted, id) == of_number(before, id));
            lemma_insert_keeps_all(sorted, last, id);
            lemma_filter_push(sorted, last, id);
            lemma_filter_push(before, last, id);
        }
    }
}

/// A list that is made sure to hold a camera holds it; a list that is strictly
/// in order stays so, and every device that it held stays.
pub proof fn lemma_with_camera(list: Seq<Device>, camera: u32)
    requires
        strictly_in_order(list),
    ensures
        strictly_in_order(with_camera(list, camera)),
        holds(with_camera(list, camera), camera),
        forall|id: u32| #[trigger]
            first_of(with_camera(list, camera), id) == match first_of(list, id) {
                Some(device) => Some(device),
                None => if id == camera {
                    Some(Device { id, name: camera_title(id) })
                } else {
                    None
                },
            },
        with_camera(with_camera(list, camera), camera) == with_camera(list, camera),
{
    let device = Device { id: camera, name: camera_title(camera) };
    lemma_first_of_held(list, camera);
    if !holds(list, camera) {
        lemma_sorted_stays(list);
        assert(list.push(device).drop_last() =~= list);
        lemma_insert_in_order(list, device);
    }
    assert forall|id: u32| #[trigger]
        first_of(with_camera(list, camera), id) == match first_of(list, id) {
            Some(device) => Some(device),
            None => if id == camera {
                Some(Device { id, name: camera_title(id) })
            } else {
                None
            },
        } by {
        lemma_first_of_held(list, id);
        if !holds(list, camera) {
            lemma_sort_keeps_first(list.push(device), id);
        }
    }
    assert(first_of(with_camera(list, camera), camera) is Some);
    lemma_first_of_held(with_camera(list, camera), camera);
}

/// The list of cameras is strictly in order, holds the default camera, and
/// holds every camera found with a number under the name that it was first
/// found with, and no others.
pub proof fn lemma_camera_list(found: Seq<(Option<u32>, Seq<char>)>, default_camera: u32)
    ensures
        strictly_in_order(camera_list(found, default_camera)),
        holds(camera_list(found, default_camera), default_camera),
        forall|id: u32| #[trigger]
            first_of(camera_list(found, default_camera), id) == match first_of(
                devices_found(found, found.len()),
                id,
            ) {
                Some(device) => Some(device),
                None => if id == default_camera {
                    Some(Device { id, name: camera_title(id) })
                } else {
                    None
                },
            },
{
    let named = devices_found(found, found.len());
    let sorted = sorted_by_id(named);
    let once = without_repeats(sorted);
    lemma_sorted_in_order(named);
    lemma_repeats_strictly_in_order(sorted);
    lemma_with_camera(once, default_camera);
    assert forall|id: u32| #[trigger]
        first_of(camera_list(found, default_camera), id) == match first_of(named, id) {
            Some(device) => Some(device),
            None => if id == default_camera {
                Some(Device { id, name: camera_title(id) })
            } else {
                None
            },
        } by {
        lemma_sort_keeps_first(named, id);
        lemma_repeats_keep_first(sorted, id);
    }
}

} // verus!
