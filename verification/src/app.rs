//! The program's state: what keys do to it, and what a camera frame goes
//! through on its way to the screen and into the recording.
use vstd::prelude::*;

use crate::capture::{
    camera_list, devices_of, ensure_camera_device, found_of, holds, lemma_camera_list,
    lemma_with_camera, query_camera_devices, strictly_in_order, with_camera, CameraDevice, Device,
};
use crate::cli::{lemma_ramps_have_letters, Args, ColorMode, Platform};
use crate::encoder::{payload_reads_back, started, stored_frame, Tape, TcamEncoder};
use crate::export::{
    escaped, html_page, longest, page_of, render_frame_to_svg, svg_of, without_codes, CELL_HEIGHT,
    CELL_WIDTH,
};
use crate::format::TcamError;
use crate::frame::{blank_picture, text_rows, Frame, Picture, RenderFrame};
use crate::names::{
    draw_number, html_name, html_title, recording_name, recording_title, svg_name, svg_title,
    NUMBER_HIGH, NUMBER_LOW,
};
use crate::recording::{
    full_config, lemma_listed_presets_exist, preset, preset_at, preset_title, RecordingConfig,
    PRESET_COUNT,
};
use crate::render::{
    build_lut, flip_frame_horizontal, frame_renders, letters_of, mirrored, ramp_table, render_frame,
    rotate_frame, scene_of, turned, turned_size,
};
use crate::text::{decimal, push_decimal};
use crate::ui::{
    help_lines, help_text, preset_label, preset_words, settings_lines, settings_text, HudState,
};

verus! {

/// The frames in a second that a camera is asked for.
pub const CAPTURE_FPS: u8 = 30;

/// How far a key moves the brightness.
pub const BRIGHTNESS_STEP: i16 = 5;

/// The farthest that keys move the brightness up or down.
pub const BRIGHTNESS_LIMIT: i16 = 100;

/// A key.
#[derive(Clone, Copy, Debug, PartialEq, Eq, Structural)]
pub enum Key {
    Char(char),
    Up,
    Down,
    Left,
    Right,
    Other,
}

/// Where frames are recorded to.
pub enum Target {
    /// Nowhere.
    Nowhere,
    /// To the file that the command line gives.
    Given,
    /// To a file of a name, among the recordings.
    Named(String),
}

/// Where frames are recorded to.
pub enum Goal {
    Nowhere,
    Given,
    Named(Seq<char>),
}

/// Where frames are recorded to.
pub open spec fn goal_of(target: Target) -> Goal {
    match target {
        Target::Nowhere => Goal::Nowhere,
        Target::Given => Goal::Given,
        Target::Named(name) => Goal::Named(name@),
    }
}

/// What is to be done outside of the state.
pub enum Action {
    Nothing,
    /// End the program.
    Quit,
    RaiseContrast,
    LowerContrast,
    /// Start a camera, and tell once it has started.
    StartCamera(u32),
    /// See that there is a place for recordings.
    MakeRecordings,
    /// Write these bytes to the end of the recording and close it.
    CloseRecording(Vec<u8>),
    /// Save a capture: its name and what it holds.
    SaveCapture(String, String),
}

/// What is to be done outside of the state.
pub enum Effect {
    Nothing,
    Quit,
    RaiseContrast,
    LowerContrast,
    StartCamera(u32),
    MakeRecordings,
    CloseRecording(Seq<u8>),
    SaveCapture(Seq<char>, Seq<char>),
}

/// What is to be done outside of the state.
pub open spec fn effect_of(action: Action) -> Effect {
    match action {
        Action::Nothing => Effect::Nothing,
        Action::Quit => Effect::Quit,
        Action::RaiseContrast => Effect::RaiseContrast,
        Action::LowerContrast => Effect::LowerContrast,
        Action::StartCamera(id) => Effect::StartCamera(id),
        Action::MakeRecordings => Effect::MakeRecordings,
        Action::CloseRecording(bytes) => Effect::CloseRecording(bytes@),
        Action::SaveCapture(name, content) => Effect::SaveCapture(name@, content@),
    }
}

/// The program's state.
pub struct Session {
    pub platform: Platform,
    pub camera: u32,
    pub devices: Seq<Device>,
    pub fps: u8,
    pub brightness: i16,
    pub invert: bool,
    pub flip: bool,
    pub cam_w: usize,
    pub cam_h: usize,
    pub ramp_base: Seq<char>,
    pub lut: Seq<char>,
    pub rotation: u8,
    pub goal: Goal,
    pub config: RecordingConfig,
    pub tape: Option<Tape>,
    pub picture: Picture,
    pub ascii: Seq<char>,
    pub show_help: bool,
    pub show_settings: bool,
    pub preset_idx: int,
}

/// A ramp, or the same ramp from its other end.
pub open spec fn ramp_of(base: Seq<char>, invert: bool) -> Seq<char> {
    if invert {
        base.reverse()
    } else {
        base
    }
}

/// Whether a picture is small enough to be drawn.
pub open spec fn drawable(picture: Picture) -> bool {
    &&& longest(picture.chars, picture.chars.len()) * CELL_WIDTH <= usize::MAX
    &&& picture.chars.len() * CELL_HEIGHT <= usize::MAX
}

impl Session {
    /// The ramp in use.
    pub open spec fn ramp(self) -> Seq<char> {
        ramp_of(self.ramp_base, self.invert)
    }

    /// What always holds: the lookup table is that of the ramp in use, the
    /// rotation is one of four, the list of cameras is strictly in order and
    /// holds the one in use, the preset is one of the list, and the picture
    /// can be drawn.
    pub open spec fn sound(self) -> bool {
        &&& self.ramp_base.len() > 0
        &&& 255 * (self.ramp_base.len() - 1) <= usize::MAX
        &&& self.lut == ramp_table(self.ramp())
        &&& self.rotation <= 3
        &&& strictly_in_order(self.devices)
        &&& holds(self.devices, self.camera)
        &&& 0 <= self.preset_idx < PRESET_COUNT
        &&& drawable(self.picture)
    }
}

/// The position of the first device of a number; the first position where
/// there is none.
pub open spec fn position_of(devices: Seq<Device>, id: u32) -> int {
    if holds(devices, id) {
        choose|i: int|
            0 <= i < devices.len() && (#[trigger] devices[i]).id == id && forall|j: int|
                0 <= j < i ==> (#[trigger] devices[j]).id != id
    } else {
        0
    }
}

/// The camera after the one in use, in the order of the list and around its
/// end; none where there is no other.
pub open spec fn next_camera(session: Session) -> Option<u32> {
    if session.devices.len() < 2 {
        None
    } else {
        let at = position_of(session.devices, session.camera);
        Some(session.devices[(at + 1) % session.devices.len() as int].id)
    }
}

/// The camera in use, in words: its name, its place in the list and the length
/// of the list.
pub open spec fn status_words(session: Session) -> Seq<char> {
    let total = if session.devices.len() > 1 {
        session.devices.len()
    } else {
        1
    };
    let at = position_of(session.devices, session.camera);
    let name = if at < session.devices.len() {
        session.devices[at].name
    } else {
        "Camera"@
    };
    name + " ("@ + decimal((at + 1) as nat) + "/"@ + decimal(total) + ")"@
}

/// Recording, turned on or off: a running recording is closed; else frames
/// will be recorded to a new file, which has a number in its name.
pub open spec fn toggled(session: Session, number: u32) -> (Session, Effect) {
    match session.tape {
        Some(tape) => (
            Session { tape: None, goal: Goal::Nowhere, ..session },
            Effect::CloseRecording(tape.written),
        ),
        None => (
            Session { goal: Goal::Named(recording_title(number)), ..session },
            Effect::MakeRecordings,
        ),
    }
}

/// The settings changed to those of the next preset of the list, which is gone
/// through around its end.
pub open spec fn with_next_preset(session: Session) -> Session {
    let next = (session.preset_idx + 1) % PRESET_COUNT as int;
    Session { preset_idx: next, config: preset(preset_title(next))->0, ..session }
}

/// A capture of the picture as SVG, if there is a picture.
pub open spec fn svg_capture(session: Session, number: u32) -> Effect {
    if session.picture.chars.len() == 0 {
        Effect::Nothing
    } else {
        Effect::SaveCapture(svg_title(number), svg_of(session.picture))
    }
}

/// A capture of the text as an HTML page, if there is text.
pub open spec fn html_capture(session: Session, number: u32) -> Effect {
    if session.ascii.len() == 0 {
        Effect::Nothing
    } else {
        Effect::SaveCapture(
            html_title(number),
            page_of(escaped(without_codes(session.ascii, session.ascii.len()), false)),
        )
    }
}

/// What a character key changes in what is shown; most keys change nothing.
pub open spec fn after_view_key(session: Session, c: char) -> Session {
    if c == 'h' {
        Session { show_help: !session.show_help, ..session }
    } else if c == 's' {
        Session { show_settings: !session.show_settings, ..session }
    } else if c == '1' {
        Session {
            invert: !session.invert,
            lut: ramp_table(ramp_of(session.ramp_base, !session.invert)),
            ..session
        }
    } else if c == '2' {
        Session { rotation: ((session.rotation + 1) % 4) as u8, ..session }
    } else if c == 'f' || c == 'F' {
        Session { flip: !session.flip, ..session }
    } else if c == '5' {
        with_next_preset(session)
    } else if c == '7' && session.show_settings {
        Session {
            config: RecordingConfig {
                color_mode: session.config.color_mode.following(),
                ..session.config
            },
            ..session
        }
    } else {
        session
    }
}

/// What a key does. A new file has the number in its name.
pub open spec fn after_key(session: Session, key: Key, number: u32) -> (Session, Effect) {
    match key {
        Key::Up => (session, Effect::RaiseContrast),
        Key::Down => (session, Effect::LowerContrast),
        Key::Right => (
            Session {
                brightness: if session.brightness + BRIGHTNESS_STEP < BRIGHTNESS_LIMIT {
                    (session.brightness + BRIGHTNESS_STEP) as i16
                } else {
                    BRIGHTNESS_LIMIT
                },
                ..session
            },
            Effect::Nothing,
        ),
        Key::Left => (
            Session {
                brightness: if session.brightness - BRIGHTNESS_STEP > -BRIGHTNESS_LIMIT {
                    (session.brightness - BRIGHTNESS_STEP) as i16
                } else {
                    (-BRIGHTNESS_LIMIT) as i16
                },
                ..session
            },
            Effect::Nothing,
        ),
        Key::Other => (session, Effect::Nothing),
        Key::Char(c) => if c == 'q' || c == 'Q' {
            (session, Effect::Quit)
        } else if c == '3' {
            toggled(session, number)
        } else if c == '4' {
            (session, svg_capture(session, number))
        } else if c == 'H' {
            (session, html_capture(session, number))
        } else if c == 'c' || c == 'C' {
            (
                session,
                match next_camera(session) {
                    Some(id) => Effect::StartCamera(id),
                    None => Effect::Nothing,
                },
            )
        } else {
            (after_view_key(session, c), Effect::Nothing)
        },
    }
}

/// The state that the program starts with, on a platform that was detected and
/// with the cameras that a search found.
pub open spec fn first_session(
    args: Args,
    detected: Platform,
    found: Seq<(Option<u32>, Seq<char>)>,
) -> Session {
    let platform = if args.platform == Platform::Auto {
        detected
    } else {
        args.platform
    };
    let termux = platform == Platform::Termux;
    let camera = match args.camera {
        Some(id) => id,
        None => if termux {
            1
        } else {
            0
        },
    };
    Session {
        platform,
        camera,
        devices: camera_list(found, camera),
        fps: CAPTURE_FPS,
        brightness: args.brightness,
        invert: args.invert,
        flip: args.flip,
        cam_w: args.resolution.pixels().0,
        cam_h: args.resolution.pixels().1,
        ramp_base: args.ramp.letters(),
        lut: ramp_table(ramp_of(args.ramp.letters(), args.invert)),
        rotation: match args.rotate {
            Some(rotation) => rotation,
            None => if termux {
                3
            } else {
                0
            },
        },
        goal: if args.record {
            Goal::Given
        } else {
            Goal::Nowhere
        },
        config: if args.no_color {
            RecordingConfig { color_mode: ColorMode::Off, ..full_config() }
        } else {
            full_config()
        },
        tape: None,
        picture: blank_picture(),
        ascii: Seq::empty(),
        show_help: false,
        show_settings: false,
        preset_idx: 0,
    }
}

/// A camera frame, turned and mirrored as the state says.
pub open spec fn oriented(
    data: Seq<u8>,
    w: int,
    h: int,
    rotation: u8,
    flip: bool,
) -> (Seq<u8>, int, int) {
    let size = turned_size(w, h, rotation);
    let data2 = turned(data, w, h, rotation);
    (
        if flip {
            mirrored(data2, size.0, size.1)
        } else {
            data2
        },
        size.0,
        size.1,
    )
}

/// The page that covers the picture, if one does.
pub open spec fn page_shown(session: Session) -> Option<Seq<Seq<char>>> {
    if session.show_help {
        Some(help_lines(session.platform))
    } else if session.show_settings {
        Some(settings_lines(session.config))
    } else {
        None
    }
}

/// The state once a camera has started.
pub open spec fn with_started_camera(session: Session, id: u32) -> Session {
    Session { camera: id, devices: with_camera(session.devices, id), ..session }
}

/// The state once a frame has been rendered.
pub open spec fn with_rendered(
    session: Session,
    frame: Frame,
    cols: usize,
    rows: usize,
    tone: Seq<u8>,
) -> Session {
    let scene = scene_of(frame, cols, rows, session.lut, tone, session.config.color_mode);
    Session { picture: scene.picture(), ascii: scene.text(rows as nat), ..session }
}

/// The state once a recording of a size has been started, if frames are to be
/// recorded and none has been started, and whether it was.
pub open spec fn with_begun_recording(session: Session, cols: usize, rows: usize) -> (
    Session,
    bool,
) {
    if session.tape is None && !(session.goal is Nowhere) {
        (
            Session {
                tape: Some(
                    started(
                        cols as int,
                        rows as int,
                        session.fps,
                        session.ramp(),
                        session.config.color_mode.colours(),
                        session.config,
                    ),
                ),
                ..session
            },
            true,
        )
    } else {
        (session, false)
    }
}

/// The bytes that are handed over, if any, or why there are none.
pub open spec fn handed_over(r: Result<Option<Vec<u8>>, TcamError>) -> Result<
    Option<Seq<u8>>,
    TcamError,
> {
    match r {
        Ok(Some(bytes)) => Ok(Some(bytes@)),
        Ok(None) => Ok(None),
        Err(e) => Err(e),
    }
}

/// The state once the picture has been recorded, if frames are being recorded,
/// and the bytes that are to be written.
pub open spec fn with_recorded_frame(session: Session, elapsed_ms: u128) -> (
    Session,
    Result<Option<Seq<u8>>, TcamError>,
) {
    match session.tape {
        None => (session, Ok(None)),
        Some(tape) => match stored_frame(tape, session.picture, elapsed_ms) {
            Ok(after) => (
                Session { tape: Some(Tape { written: Seq::empty(), ..after }), ..session },
                Ok(Some(after.written)),
            ),
            Err(e) => (session, Err(e)),
        },
    }
}

/// The program's state.
pub struct App {
    platform: Platform,
    camera: u32,
    devices: Vec<CameraDevice>,
    fps: u8,
    brightness: i16,
    invert: bool,
    flip: bool,
    cam_w: usize,
    cam_h: usize,
    ramp_base: String,
    lut: Vec<char>,
    rotation: u8,
    target: Target,
    rec_config: RecordingConfig,
    encoder: Option<TcamEncoder>,
    last_frame: RenderFrame,
    last_ascii: String,
    show_help: bool,
    show_settings: bool,
    preset_idx: usize,
}

impl View for App {
    type V = Session;

    closed spec fn view(&self) -> Session {
        Session {
            platform: self.platform,
            camera: self.camera,
            devices: devices_of(self.devices@),
            fps: self.fps,
            brightness: self.brightness,
            invert: self.invert,
            flip: self.flip,
            cam_w: self.cam_w,
            cam_h: self.cam_h,
            ramp_base: self.ramp_base@,
            lut: self.lut@,
            rotation: self.rotation,
            goal: goal_of(self.target),
            config: self.rec_config,
            tape: match self.encoder {
                Some(encoder) => Some(encoder@),
                None => None,
            },
            picture: self.last_frame@,
            ascii: self.last_ascii@,
            show_help: self.show_help,
            show_settings: self.show_settings,
            preset_idx: self.preset_idx as int,
        }
    }
}

/// A ramp, or the same ramp from its other end.
fn ramp_text(base: &str, invert: bool) -> (r: String)
    ensures
        r@ == ramp_of(base@, invert),
{
    let letters = letters_of(base);
    let n: usize = letters.len();
    let mut out = String::new();
    let mut i: usize = 0;
    assert(out@ =~= ramp_of(base@, invert).take(0));
    while i < n
        invariant
            i <= n,
            n == letters@.len(),
            letters@ == base@,
            out@ == ramp_of(base@, invert).take(i as int),
        decreases n - i,
    {
        let c: char = if invert {
            letters[n - 1 - i]
        } else {
            letters[i]
        };
        out.push(c);
        i += 1;
        assert(out@ =~= ramp_of(base@, invert).take(i as int));
    }
    assert(ramp_of(base@, invert).take(n as int) =~= ramp_of(base@, invert));
    out
}

impl App {
    /// The state that the program starts with, on a platform that was detected
    /// and with the cameras that a search found.
    pub fn new(args: &Args, detected: Platform, found: &Vec<(Option<u32>, String)>) -> (r: Self)
        requires
            args.rotate matches Some(rotation) ==> rotation <= 3,
        ensures
            r@ == first_session(*args, detected, found_of(found@)),
            r@.sound(),
    {
        let platform = match args.platform {
            Platform::Auto => detected,
            given => given,
        };
        let termux: bool = match platform {
            Platform::Termux => true,
            _ => false,
        };
        let camera: u32 = match args.camera {
            Some(id) => id,
            None => if termux {
                1
            } else {
                0
            },
        };
        let devices = query_camera_devices(camera, found);
        let rotation: u8 = match args.rotate {
            Some(rotation) => rotation,
            None => if termux {
                3
            } else {
                0
            },
        };
        let (cam_w, cam_h): (usize, usize) = args.resolution.size();
        let mut rec_config = RecordingConfig::default();
        if args.no_color {
            rec_config.color_mode = ColorMode::Off;
        }
        let mut ramp_base = String::new();
        ramp_base.append(args.ramp.text());
        proof {
            assert(ramp_base@ =~= args.ramp.letters());
            lemma_ramps_have_letters(args.ramp);
            lemma_camera_list(found_of(found@), camera);
        }
        let ramp = ramp_text(ramp_base.as_str(), args.invert);
        let lut = build_lut(ramp.as_str());
        let app = App {
            platform,
            camera,
            devices,
            fps: CAPTURE_FPS,
            brightness: args.brightness,
            invert: args.invert,
            flip: args.flip,
            cam_w,
            cam_h,
            ramp_base,
            lut,
            rotation,
            target: if args.record {
                Target::Given
            } else {
                Target::Nowhere
            },
            rec_config,
            encoder: None,
            last_frame: RenderFrame::default(),
            last_ascii: String::new(),
            show_help: false,
            show_settings: false,
            preset_idx: 0,
        };
        assert(app@.ascii =~= Seq::empty());
        app
    }

    /// The platform that the program runs on.
    pub fn platform(&self) -> (r: Platform)
        ensures
            r == self@.platform,
    {
        self.platform
    }

    /// The camera in use.
    pub fn camera(&self) -> (r: u32)
        ensures
            r == self@.camera,
    {
        self.camera
    }

    /// The frames in a second, and the size of each, that a camera is asked
    /// for.
    pub fn capture_format(&self) -> (r: (u8, usize, usize))
        ensures
            r == (self@.fps, self@.cam_w, self@.cam_h),
    {
        (self.fps, self.cam_w, self.cam_h)
    }

    /// The brightness.
    pub fn brightness(&self) -> (r: i16)
        ensures
            r == self@.brightness,
    {
        self.brightness
    }

    /// The text of the picture last rendered.
    pub fn ascii(&self) -> (r: &str)
        ensures
            r@ == self@.ascii,
    {
        self.last_ascii.as_str()
    }

    /// Whether frames are being recorded.
    pub fn is_recording(&self) -> (r: bool)
        ensures
            r == (self@.tape is Some),
    {
        match &self.encoder {
            Some(_) => true,
            None => false,
        }
    }

    /// The name of the file that frames are recorded to, where it is not the
    /// one that the command line gives.
    pub fn recording_file(&self) -> (r: Option<&str>)
        ensures
            match r {
                Some(name) => self@.goal == Goal::Named(name@),
                None => !(self@.goal is Named),
            },
    {
        match &self.target {
            Target::Named(name) => Some(name.as_str()),
            _ => None,
        }
    }

    /// The ramp in use.
    pub fn current_ramp(&self) -> (r: String)
        ensures
            r@ == self@.ramp(),
    {
        ramp_text(self.ramp_base.as_str(), self.invert)
    }

    /// Makes the lookup table that of the ramp in use.
    fn rebuild_lut(&mut self)
        requires
            old(self)@.ramp_base.len() > 0,
            255 * (old(self)@.ramp_base.len() - 1) <= usize::MAX,
        ensures
            final(self)@ == (Session { lut: ramp_table(old(self)@.ramp()), ..old(self)@ }),
    {
        let ramp = self.current_ramp();
        self.lut = build_lut(ramp.as_str());
    }

    /// The position in the list of the camera in use, or the first position.
    fn camera_position(&self) -> (r: usize)
        ensures
            r == position_of(self@.devices, self@.camera),
            r < self@.devices.len() || r == 0,
    {
        let mut i: usize = 0;
        while i < self.devices.len()
            invariant
                i <= self.devices.len(),
                self@.devices == devices_of(self.devices@),
                self@.camera == self.camera,
                forall|j: int| 0 <= j < i ==> (#[trigger] self@.devices[j]).id != self.camera,
            decreases self.devices.len() - i,
        {
            if self.devices[i].id == self.camera {
                proof {
                    let devices = self@.devices;
                    assert(devices[i as int].id == self.camera);
                    let at = position_of(devices, self.camera);
                    assert(holds(devices, self.camera));
                    if at < i {
                        assert(devices[at].id != self.camera);
                    }
                }
                return i;
            }
            i += 1;
        }
        0
    }

    /// The camera after the one in use, if there is another.
    pub fn next_camera_id(&self) -> (r: Option<u32>)
        ensures
            r == next_camera(self@),
    {
        if self.devices.len() < 2 {
            return None;
        }
        let at: usize = self.camera_position();
        let n: usize = self.devices.len();
        let next: usize = if at + 1 < n {
            at + 1
        } else {
            0
        };
        proof {
            if at + 1 < n {
                vstd::arithmetic::div_mod::lemma_small_mod((at + 1) as nat, n as nat);
            } else {
                vstd::arithmetic::div_mod::lemma_mod_self_0(n as int);
            }
            assert(devices_of(self.devices@)[next as int] == self.devices@[next as int]@);
        }
        Some(self.devices[next].id)
    }

    /// The camera in use, in words.
    pub fn camera_status(&self) -> (r: String)
        ensures
            r@ == status_words(self@),
    {
        let total: usize = if self.devices.len() > 1 {
            self.devices.len()
        } else {
            1
        };
        let at: usize = self.camera_position();
        let mut out = String::new();
        if at < self.devices.len() {
            out.append(self.devices[at].name.as_str());
            assert(devices_of(self.devices@)[at as int] == self.devices@[at as int]@);
            assert(out@ =~= self@.devices[at as int].name);
        } else {
            out.append("Camera");
            assert(out@ =~= "Camera"@);
        }
        out.append(" (");
        push_decimal(&mut out, at as u64 + 1);
        out.append("/");
        push_decimal(&mut out, total as u64);
        out.append(")");
        out
    }

    /// Turns recording on or off; a new file has the number in its name.
    fn toggle_recording(&mut self, number: u32) -> (r: Action)
        ensures
            (final(self)@, effect_of(r)) == toggled(old(self)@, number),
    {
        match self.encoder.take() {
            Some(encoder) => {
                let mut encoder = encoder;
                self.target = Target::Nowhere;
                Action::CloseRecording(encoder.take_written())
            },
            None => {
                self.target = Target::Named(recording_name(number));
                Action::MakeRecordings
            },
        }
    }

    /// A capture of the text as an HTML page, if there is text.
    fn capture_html(&self, number: u32) -> (r: Action)
        ensures
            effect_of(r) == html_capture(self@, number),
    {
        if self.last_ascii.as_str().unicode_len() == 0 {
            Action::Nothing
        } else {
            Action::SaveCapture(html_name(number), html_page(self.last_ascii.as_str()))
        }
    }

    /// A capture of the picture as SVG, if there is a picture.
    fn capture_svg(&self, number: u32) -> (r: Action)
        requires
            drawable(self@.picture),
        ensures
            effect_of(r) == svg_capture(self@, number),
    {
        if self.last_frame.chars.len() == 0 {
            Action::Nothing
        } else {
            Action::SaveCapture(svg_name(number), render_frame_to_svg(&self.last_frame))
        }
    }

    /// Does what a key does; a new file has the number in its name.
    pub fn press(&mut self, key: Key, number: u32) -> (r: Action)
        requires
            old(self)@.sound(),
            key == Key::Right ==> old(self)@.brightness + BRIGHTNESS_STEP <= i16::MAX,
            key == Key::Left ==> old(self)@.brightness - BRIGHTNESS_STEP >= i16::MIN,
        ensures
            (final(self)@, effect_of(r)) == after_key(old(self)@, key, number),
            final(self)@.sound(),
    {
        proof {
            lemma_keys_keep_sound(self@, key, number);
        }
        match key {
            Key::Up => Action::RaiseContrast,
            Key::Down => Action::LowerContrast,
            Key::Right => {
                let raised: i16 = self.brightness + BRIGHTNESS_STEP;
                self.brightness = if raised < BRIGHTNESS_LIMIT {
                    raised
                } else {
                    BRIGHTNESS_LIMIT
                };
                Action::Nothing
            },
            Key::Left => {
                let lowered: i16 = self.brightness - BRIGHTNESS_STEP;
                self.brightness = if lowered > -BRIGHTNESS_LIMIT {
                    lowered
                } else {
                    -BRIGHTNESS_LIMIT
                };
                Action::Nothing
            },
            Key::Other => Action::Nothing,
            Key::Char(c) => self.press_char(c, number),
        }
    }

    /// Does what a character key does.
    fn press_char(&mut self, c: char, number: u32) -> (r: Action)
        requires
            old(self)@.sound(),
        ensures
            (final(self)@, effect_of(r)) == after_key(old(self)@, Key::Char(c), number),
    {
        if c == 'q' || c == 'Q' {
            Action::Quit
        } else if c == '3' {
            self.toggle_recording(number)
        } else if c == '4' {
            self.capture_svg(number)
        } else if c == 'H' {
            self.capture_html(number)
        } else if c == 'c' || c == 'C' {
            match self.next_camera_id() {
                Some(id) => Action::StartCamera(id),
                None => Action::Nothing,
            }
        } else {
            self.change_view(c);
            Action::Nothing
        }
    }

    /// Changes the settings to those of the next preset.
    fn next_preset(&mut self)
        requires
            0 <= old(self)@.preset_idx < PRESET_COUNT,
        ensures
            final(self)@ == with_next_preset(old(self)@),
    {
        self.preset_idx = (self.preset_idx + 1) % PRESET_COUNT;
        self.rec_config.apply_preset(preset_at(self.preset_idx));
        proof {
            lemma_listed_presets_exist(self.preset_idx as int);
        }
    }

    /// Changes what is shown, as a character key says.
    #[verifier::rlimit(50)]
    fn change_view(&mut self, c: char)
        requires
            old(self)@.ramp_base.len() > 0,
            255 * (old(self)@.ramp_base.len() - 1) <= usize::MAX,
            old(self)@.rotation <= 3,
            0 <= old(self)@.preset_idx < PRESET_COUNT,
        ensures
            final(self)@ == after_view_key(old(self)@, c),
    {
        if c == 'h' {
            self.show_help = !self.show_help;
        } else if c == 's' {
            self.show_settings = !self.show_settings;
        } else if c == '1' {
            self.invert = !self.invert;
            self.rebuild_lut();
        } else if c == '2' {
            self.rotation = (self.rotation + 1) % 4;
        } else if c == 'f' || c == 'F' {
            self.flip = !self.flip;
        } else if c == '5' {
            self.next_preset();
        } else if c == '7' && self.show_settings {
            self.rec_config.color_mode = self.rec_config.color_mode.cycle();
        }
    }

    /// Does what a key does; a new file has a random number in its name.
    pub fn handle_key(&mut self, key: Key) -> (r: Action)
        requires
            old(self)@.sound(),
            key == Key::Right ==> old(self)@.brightness + BRIGHTNESS_STEP <= i16::MAX,
            key == Key::Left ==> old(self)@.brightness - BRIGHTNESS_STEP >= i16::MIN,
        ensures
            exists|number: u32|
                NUMBER_LOW <= number <= NUMBER_HIGH && (final(self)@, effect_of(r))
                    == #[trigger] after_key(old(self)@, key, number),
            final(self)@.sound(),
    {
        let number: u32 = draw_number();
        self.press(key, number)
    }

    /// Takes note that a camera has started.
    pub fn camera_started(&mut self, id: u32)
        requires
            old(self)@.sound(),
        ensures
            final(self)@ == with_started_camera(old(self)@, id),
            final(self)@.sound(),
    {
        self.camera = id;
        proof {
            lemma_with_camera(self@.devices, id);
        }
        ensure_camera_device(&mut self.devices, id);
    }

    /// The page that covers the picture, if one does.
    pub fn page(&self) -> (r: Option<Vec<String>>)
        ensures
            match r {
                Some(lines) => page_shown(self@) == Some(text_rows(lines@)),
                None => page_shown(self@) is None,
            },
    {
        if self.show_help {
            Some(help_text(self.platform))
        } else if self.show_settings {
            Some(settings_text(&self.rec_config))
        } else {
            None
        }
    }

    /// A camera frame, turned and mirrored as the state says.
    pub fn orient(&self, frame: Frame) -> (r: Frame)
        requires
            self@.sound(),
            self@.rotation != 0 || self@.flip ==> 3 * (frame.width * frame.height)
                <= frame.data@.len(),
        ensures
            (r.data@, r.width as int, r.height as int) == oriented(
                frame.data@,
                frame.width as int,
                frame.height as int,
                self@.rotation,
                self@.flip,
            ),
    {
        assert(frame.width * frame.height == frame.height * frame.width) by (nonlinear_arith);
        let mut shown = frame;
        if self.rotation != 0 {
            shown = rotate_frame(&shown, self.rotation);
        }
        if self.flip {
            shown = flip_frame_horizontal(&shown);
        }
        shown
    }

    /// Tells whether a frame can be rendered.
    pub fn can_render(&self, frame: &Frame, cols: usize, rows: usize, tone: &[u8]) -> (r: bool)
        requires
            self@.sound(),
        ensures
            r == (cols * CELL_WIDTH <= usize::MAX && rows * CELL_HEIGHT <= usize::MAX && scene_of(
                *frame,
                cols,
                rows,
                self@.lut,
                tone@,
                self@.config.color_mode,
            ).fits()),
    {
        cols <= usize::MAX / CELL_WIDTH && rows <= usize::MAX / CELL_HEIGHT && frame_renders(
            frame,
            cols,
            rows,
            self.lut.as_slice(),
            tone,
            self.rec_config.color_mode,
        )
    }

    /// Renders a frame: it becomes the picture, and its text the text.
    pub fn render(&mut self, frame: &Frame, cols: usize, rows: usize, tone: &[u8])
        requires
            old(self)@.sound(),
            cols * CELL_WIDTH <= usize::MAX,
            rows * CELL_HEIGHT <= usize::MAX,
            scene_of(
                *frame,
                cols,
                rows,
                old(self)@.lut,
                tone@,
                old(self)@.config.color_mode,
            ).fits(),
        ensures
            final(self)@ == with_rendered(old(self)@, *frame, cols, rows, tone@),
            final(self)@.sound(),
    {
        let (picture, text) = render_frame(
            frame,
            cols,
            rows,
            self.lut.as_slice(),
            tone,
            self.rec_config.color_mode,
        );
        proof {
            lemma_longest_of_grid(picture@.chars, picture@.chars.len(), cols as nat);
        }
        self.last_frame = picture;
        self.last_ascii = text;
    }

    /// Starts a recording of a size, if frames are to be recorded and none has
    /// been started; tells whether it did.
    pub fn begin_recording(&mut self, cols: usize, rows: usize) -> (r: bool)
        ensures
            (final(self)@, r) == with_begun_recording(old(self)@, cols, rows),
    {
        let wanted: bool = match &self.target {
            Target::Nowhere => false,
            _ => true,
        };
        if !wanted || self.is_recording() {
            return false;
        }
        let ramp = self.current_ramp();
        self.encoder = Some(
            TcamEncoder::create(
                cols,
                rows,
                self.fps,
                ramp.as_str(),
                self.rec_config.color_mode.is_color(),
                self.rec_config,
            ),
        );
        true
    }

    /// Records the picture at a time since the recording's start, if frames
    /// are being recorded, and hands over the bytes that are to be written.
    pub fn record_frame(&mut self, elapsed_ms: u128) -> (r: Result<Option<Vec<u8>>, TcamError>)
        requires
            old(self)@.tape matches Some(tape) ==> tape.count < usize::MAX,
        ensures
            (final(self)@, handed_over(r)) == with_recorded_frame(old(self)@, elapsed_ms),
            r is Ok ==> (old(self)@.tape matches Some(tape) ==> payload_reads_back(
                tape,
                old(self)@.picture,
            )),
    {
        match self.encoder.take() {
            None => Ok(None),
            Some(encoder) => {
                let mut encoder = encoder;
                let r = encoder.write_and_take(&self.last_frame, elapsed_ms);
                self.encoder = Some(encoder);
                match r {
                    Ok(bytes) => Ok(Some(bytes)),
                    Err(e) => Err(e),
                }
            },
        }
    }

    /// Whether frames are mirrored.
    pub fn flip(&self) -> (r: bool)
        ensures
            r == self@.flip,
    {
        self.flip
    }

    /// The rotation, in quarter turns.
    pub fn rotation(&self) -> (r: u8)
        ensures
            r == self@.rotation,
    {
        self.rotation
    }

    /// The rotation in degrees.
    pub fn rotation_degrees(&self) -> (r: u16)
        ensures
            r == self@.rotation * 90,
    {
        self.rotation as u16 * 90
    }

    /// What the status lines show, given the contrast as text and as filled
    /// cells.
    pub fn hud(&self, contrast: String, contrast_filled: usize) -> (r: HudState)
        ensures
            r.recording == (self@.tape is Some),
            r.preset@ == preset_words(self@.config),
            r.color_mode_label@ == self@.config.color_mode.title(),
            r.contrast == contrast,
            r.contrast_filled == contrast_filled,
            r.brightness == self@.brightness,
            r.camera_status@ == status_words(self@),
            r.invert == self@.invert,
            r.rotation_degrees == self@.rotation * 90,
    {
        let mut preset = String::new();
        preset.append(preset_label(&self.rec_config));
        let mut label = String::new();
        label.append(self.rec_config.color_mode.label());
        assert(preset@ =~= preset_words(self@.config));
        assert(label@ =~= self@.config.color_mode.title());
        HudState {
            recording: self.is_recording(),
            preset,
            color_mode_label: label,
            contrast,
            contrast_filled,
            brightness: self.brightness,
            camera_status: self.camera_status(),
            invert: self.invert,
            rotation_degrees: self.rotation_degrees(),
        }
    }
}

/// No key breaks what always holds.
pub proof fn lemma_keys_keep_sound(session: Session, key: Key, number: u32)
    requires
        session.sound(),
    ensures
        after_key(session, key, number).0.sound(),
{
}

/// A brightness within the limits stays within them, whatever key is pressed.
pub proof fn lemma_brightness_stays_within_limits(session: Session, key: Key, number: u32)
    requires
        -BRIGHTNESS_LIMIT <= session.brightness <= BRIGHTNESS_LIMIT,
    ensures
        -BRIGHTNESS_LIMIT <= after_key(session, key, number).0.brightness <= BRIGHTNESS_LIMIT,
{
}

/// The keys for help, settings, mirroring and inversion undo themselves:
/// pressed twice, they leave everything as it was.
pub proof fn lemma_toggles_undo_themselves(session: Session, c: char, number: u32)
    requires
        session.sound(),
        c == 'h' || c == 's' || c == 'f' || c == 'F' || c == '1',
    ensures
        after_key(after_key(session, Key::Char(c), number).0, Key::Char(c), number).0 == session,
{
}

/// Four presses of the rotation key turn the picture all the way round.
pub proof fn lemma_four_turns_are_none(session: Session, number: u32)
    requires
        session.sound(),
    ensures
        ({
            let key = Key::Char('2');
            let once = after_key(session, key, number).0;
            let twice = after_key(once, key, number).0;
            let thrice = after_key(twice, key, number).0;
            after_key(thrice, key, number).0 == session
        }),
{
}

/// The state after a number of presses of the preset key.
pub open spec fn after_presets(session: Session, n: nat) -> Session
    decreases n,
{
    if n == 0 {
        session
    } else {
        with_next_preset(after_presets(session, (n - 1) as nat))
    }
}

/// The preset key goes through the list of presets, in order and around its
/// end, and sets what the preset says.
pub proof fn lemma_presets_cycle(session: Session, n: nat)
    requires
        session.sound(),
    ensures
        after_presets(session, n).preset_idx == (session.preset_idx + n) % PRESET_COUNT as int,
        n > 0 ==> preset(
            preset_title((session.preset_idx + n) % PRESET_COUNT as int),
        ) == Some(after_presets(session, n).config),
    decreases n,
{
    if n > 0 {
        lemma_presets_cycle(session, (n - 1) as nat);
        let next = (session.preset_idx + n) % PRESET_COUNT as int;
        assert(after_presets(session, n).preset_idx == next);
        lemma_listed_presets_exist(next);
    }
}

/// The state once the next camera has started.
pub open spec fn with_next_camera(session: Session) -> Session {
    match next_camera(session) {
        Some(id) => Session {
            camera: id,
            devices: with_camera(session.devices, id),
            ..session
        },
        None => session,
    }
}

/// The state after a number of changes to the next camera.
pub open spec fn after_cameras(session: Session, n: nat) -> Session
    decreases n,
{
    if n == 0 {
        session
    } else {
        with_next_camera(after_cameras(session, (n - 1) as nat))
    }
}

/// A device stands where its number says.
pub proof fn lemma_position(devices: Seq<Device>, i: int)
    requires
        strictly_in_order(devices),
        0 <= i < devices.len(),
    ensures
        position_of(devices, devices[i].id) == i,
        holds(devices, devices[i].id),
{
    let id = devices[i].id;
    assert(devices[i].id == id && forall|j: int| 0 <= j < i ==> (#[trigger] devices[j]).id != id);
    let at = position_of(devices, id);
    assert(0 <= at < devices.len() && devices[at].id == id);
}

/// The camera key goes through the list of cameras, in order and around its
/// end: after as many changes as there are cameras, the first is in use again.
pub proof fn lemma_cameras_cycle(session: Session, n: nat)
    requires
        session.sound(),
        session.devices.len() >= 2,
    ensures
        after_cameras(session, n).devices == session.devices,
        after_cameras(session, n).camera == session.devices[(position_of(
            session.devices,
            session.camera,
        ) + n) % session.devices.len() as int].id,
        after_cameras(session, session.devices.len()).camera == session.camera,
{
    let devices = session.devices;
    let size = devices.len() as int;
    let at = position_of(devices, session.camera);
    lemma_held_position(devices, session.camera);
    lemma_camera_after(session, n);
    lemma_camera_after(session, devices.len());
    vstd::arithmetic::div_mod::lemma_mod_add_multiples_vanish(at, size);
    vstd::arithmetic::div_mod::lemma_small_mod(at as nat, size as nat);
}

/// Where a held device stands.
pub proof fn lemma_held_position(devices: Seq<Device>, id: u32)
    requires
        strictly_in_order(devices),
        holds(devices, id),
    ensures
        0 <= position_of(devices, id) < devices.len(),
        devices[position_of(devices, id)].id == id,
{
    let i = choose|i: int| 0 <= i < devices.len() && (#[trigger] devices[i]).id == id;
    lemma_position(devices, i);
}

/// The camera after a number of changes.
proof fn lemma_camera_after(session: Session, n: nat)
    requires
        session.sound(),
        session.devices.len() >= 2,
    ensures
        after_cameras(session, n).devices == session.devices,
        after_cameras(session, n).camera == session.devices[(position_of(
            session.devices,
            session.camera,
        ) + n) % session.devices.len() as int].id,
    decreases n,
{
    let devices = session.devices;
    let size = devices.len() as int;
    let at = position_of(devices, session.camera);
    lemma_held_position(devices, session.camera);
    if n == 0 {
        vstd::arithmetic::div_mod::lemma_small_mod(at as nat, size as nat);
    } else {
        let k = (n - 1) as nat;
        lemma_camera_after(session, k);
        let before = after_cameras(session, k);
        let i = (at + k) % size;
        vstd::arithmetic::div_mod::lemma_mod_bound(at + k, size);
        vstd::arithmetic::div_mod::lemma_mod_bound(at + n, size);
        lemma_position(devices, i);
        vstd::arithmetic::div_mod::lemma_add_mod_noop(at + k, 1, size);
        vstd::arithmetic::div_mod::lemma_small_mod(1, size as nat);
        assert((i + 1) % size == (at + n) % size);
        lemma_position(devices, (at + n) % size);
    }
}

/// Each key changes only its own: the rotation changes by the key `2` alone, to
/// the next of four; the brightness by the keys left and right alone, by a step
/// and within the limits; the inversion by the key `1` alone; and only `q` and
/// `Q` end the program.
pub proof fn lemma_keys_change_only_their_own(session: Session, key: Key, number: u32)
    requires
        session.sound(),
        -BRIGHTNESS_LIMIT <= session.brightness <= BRIGHTNESS_LIMIT,
    ensures
        ({
            let (after, effect) = after_key(session, key, number);
            let raised = session.brightness + BRIGHTNESS_STEP;
            let lowered = session.brightness - BRIGHTNESS_STEP;
            &&& after.rotation == (if key == Key::Char('2') {
                (session.rotation + 1) % 4
            } else {
                session.rotation as int
            })
            &&& after.brightness == (if key == Key::Right {
                if raised <= BRIGHTNESS_LIMIT {
                    raised
                } else {
                    BRIGHTNESS_LIMIT as int
                }
            } else if key == Key::Left {
                if lowered >= -BRIGHTNESS_LIMIT {
                    lowered
                } else {
                    -BRIGHTNESS_LIMIT
                }
            } else {
                session.brightness as int
            })
            &&& after.invert == (if key == Key::Char('1') {
                !session.invert
            } else {
                session.invert
            })
            &&& effect is Quit <==> key == Key::Char('q') || key == Key::Char('Q')
        }),
{
}

/// The state after the first `n` of some keys, with the number that each would
/// put into a file name.
pub open spec fn after_keys(session: Session, keys: Seq<Key>, numbers: Seq<u32>, n: nat) -> Session
    decreases n,
{
    if n == 0 {
        session
    } else {
        after_key(
            after_keys(session, keys, numbers, (n - 1) as nat),
            keys[n - 1],
            numbers[n - 1],
        ).0
    }
}

/// How often the preset key is among the first `n` of some keys.
pub open spec fn preset_presses(keys: Seq<Key>, n: nat) -> nat
    decreases n,
{
    if n == 0 {
        0
    } else {
        preset_presses(keys, (n - 1) as nat) + (if keys[n - 1] == Key::Char('5') {
            1nat
        } else {
            0nat
        })
    }
}

/// After any keys in any order, what always holds still holds, the brightness
/// is within its limits, and the preset is the one that as many presses of its
/// key lead to; such a press has just set what that preset says.
pub proof fn lemma_keys_in_any_order(
    session: Session,
    keys: Seq<Key>,
    numbers: Seq<u32>,
    n: nat,
)
    requires
        session.sound(),
        -BRIGHTNESS_LIMIT <= session.brightness <= BRIGHTNESS_LIMIT,
    ensures
        ({
            let after = after_keys(session, keys, numbers, n);
            &&& after.sound()
            &&& -BRIGHTNESS_LIMIT <= after.brightness <= BRIGHTNESS_LIMIT
            &&& after.preset_idx == (session.preset_idx + preset_presses(keys, n))
                % PRESET_COUNT as int
            &&& n > 0 && keys[n - 1] == Key::Char('5') ==> preset(preset_title(after.preset_idx))
                == Some(after.config)
        }),
    decreases n,
{
    if n > 0 {
        let k = (n - 1) as nat;
        lemma_keys_in_any_order(session, keys, numbers, k);
        let before = after_keys(session, keys, numbers, k);
        lemma_keys_keep_sound(before, keys[n - 1], numbers[n - 1]);
        lemma_brightness_stays_within_limits(before, keys[n - 1], numbers[n - 1]);
        lemma_listed_presets_exist(after_keys(session, keys, numbers, n).preset_idx);
    }
}

/// The longest row of a grid is as long as every row.
proof fn lemma_longest_of_grid(rows: Seq<Seq<char>>, n: nat, w: nat)
    requires
        n <= rows.len(),
        forall|y: int| 0 <= y < n ==> (#[trigger] rows[y]).len() == w,
    ensures
        longest(rows, n) <= w,
    decreases n,
{
    if n > 0 {
        lemma_longest_of_grid(rows, (n - 1) as nat, w);
        assert(rows[n - 1].len() == w);
    }
}

} // verus!
