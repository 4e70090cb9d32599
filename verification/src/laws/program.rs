//! What the program starts with, what each key does, and what becomes of a
//! camera frame.
use vstd::prelude::*;

use crate::app::{
    after_key, lemma_held_position, lemma_position, position_of, with_begun_recording,
    with_recorded_frame, with_rendered, with_started_camera, App, Effect, Goal, Key, Session,
};
use crate::capture::{
    devices_of, holds, lemma_with_camera, query_camera_devices, strictly_in_order, CameraDevice,
};
use crate::cli::{Args, ColorMode, Platform, Resolution};
use crate::encoder::{stored_frame, TcamEncoder};
use crate::export::{html_page, render_frame_to_svg};
use crate::format::TcamError;
use crate::frame::{text_rows, Frame, RenderFrame};
use crate::names::{html_name, recording_name, svg_name};
use crate::recording::{lemma_listed_presets_exist, preset, preset_title};
use crate::render::render_frame;
use crate::text::decimal;
use crate::ui::{help_text, settings_text, HudState};

verus! {

/// What the command line leaves open: the platform is the one detected, the
/// camera 0, or 1 on Termux, and the picture upright, or turned by three
/// quarters on Termux. What it says is taken as it is.
pub proof fn lemma_program_starts_as_told(
    args: Args,
    detected: Platform,
    found: Vec<(Option<u32>, String)>,
    r: App,
)
    requires
        call_ensures(App::new, (&args, detected, &found), r),
    ensures
        args.platform != Platform::Auto ==> r@.platform == args.platform,
        args.platform == Platform::Auto ==> r@.platform == detected,
        args.camera matches Some(id) ==> r@.camera == id,
        args.camera is None && r@.platform == Platform::Termux ==> r@.camera == 1,
        args.camera is None && r@.platform != Platform::Termux ==> r@.camera == 0,
        args.rotate matches Some(n) ==> r@.rotation == n,
        args.rotate is None && r@.platform == Platform::Termux ==> r@.rotation == 3,
        args.rotate is None && r@.platform != Platform::Termux ==> r@.rotation == 0,
        r@.brightness == args.brightness,
        r@.invert == args.invert,
        r@.flip == args.flip,
        r@.fps == 30,
        args.resolution == Resolution::Low ==> r@.cam_w == 320 && r@.cam_h == 240,
        args.resolution == Resolution::Medium ==> r@.cam_w == 640 && r@.cam_h == 480,
        args.resolution == Resolution::High ==> r@.cam_w == 1280 && r@.cam_h == 720,
        r@.ramp_base == args.ramp.letters(),
        args.record ==> r@.goal == Goal::Given,
        !args.record ==> r@.goal == Goal::Nowhere,
        holds(r@.devices, r@.camera),
{
}

/// The program starts with nothing shown, nothing recorded and no page open, with
/// every saving on, and in true colour, unless colours are turned off.
pub proof fn lemma_program_starts_with_nothing(
    args: Args,
    detected: Platform,
    found: Vec<(Option<u32>, String)>,
    r: App,
)
    requires
        call_ensures(App::new, (&args, detected, &found), r),
    ensures
        r@.tape is None,
        r@.picture.chars.len() == 0,
        r@.picture.colors is None,
        r@.ascii.len() == 0,
        !r@.show_help,
        !r@.show_settings,
        r@.preset_idx == 0,
        args.no_color ==> r@.config.color_mode == ColorMode::Off,
        !args.no_color ==> r@.config.color_mode == ColorMode::TrueColor,
        r@.config.skip_identical && r@.config.quantize_colors && r@.config.derive_chars
            && r@.config.flat_indices && r@.config.delta_timestamps && r@.config.zlib_max,
{
}

/// The character of a brightness is the one at that part of the way along the
/// ramp, from its first character on or, inverted, from its last.
pub proof fn lemma_table_is_of_ramp_in_use(session: Session, level: int, k: int)
    requires
        session.sound(),
        0 <= level <= 255,
        255 * k <= level * (session.ramp_base.len() - 1) < 255 * k + 255,
    ensures
        session.lut.len() == 256,
        0 <= k < session.ramp_base.len(),
        !session.invert ==> session.lut[level] == session.ramp_base[k],
        session.invert ==> session.lut[level] == session.ramp_base[session.ramp_base.len() - 1 - k],
{
    let n = session.ramp_base.len() - 1;
    assert(0 <= level * n <= 255 * n) by (nonlinear_arith)
        requires
            0 <= level <= 255,
            n >= 0,
    ;
    vstd::arithmetic::div_mod::lemma_fundamental_div_mod_converse(
        level * n,
        255,
        k,
        level * n - 255 * k,
    );
    assert(session.ramp().len() == session.ramp_base.len());
}

/// The ramp in use is the ramp, or the ramp from its other end.
pub proof fn lemma_ramp_in_use(app: App, r: String)
    requires
        call_ensures(App::current_ramp, (&app,), r),
    ensures
        r@.len() == app@.ramp_base.len(),
        forall|i: int|
            0 <= i < r@.len() ==> #[trigger] r@[i] == (if app@.invert {
                app@.ramp_base[app@.ramp_base.len() - 1 - i]
            } else {
                app@.ramp_base[i]
            }),
{
}

/// What the keys change of what is shown: `h` opens and closes the page of keys,
/// `s` that of settings, `f` and `F` mirror, `5` goes to the next preset, and `7`
/// to the next colour mode while the settings are open. No other key does.
pub proof fn lemma_keys_change_what_is_shown(session: Session, key: Key, number: u32)
    requires
        session.sound(),
    ensures
        ({
            let after = after_key(session, key, number).0;
            &&& after.show_help == (if key == Key::Char('h') {
                !session.show_help
            } else {
                session.show_help
            })
            &&& after.show_settings == (if key == Key::Char('s') {
                !session.show_settings
            } else {
                session.show_settings
            })
            &&& after.flip == (if key == Key::Char('f') || key == Key::Char('F') {
                !session.flip
            } else {
                session.flip
            })
            &&& key == Key::Char('5') ==> after.preset_idx == (if session.preset_idx == 7 {
                0
            } else {
                session.preset_idx + 1
            }) && preset(preset_title(after.preset_idx)) == Some(after.config)
            &&& key != Key::Char('5') ==> after.preset_idx == session.preset_idx
            &&& key == Key::Char('7') && session.show_settings ==> after.config.color_mode
                == session.config.color_mode.following() && after.config.skip_identical
                == session.config.skip_identical && after.config.quantize_colors
                == session.config.quantize_colors && after.config.derive_chars
                == session.config.derive_chars && after.config.flat_indices
                == session.config.flat_indices && after.config.delta_timestamps
                == session.config.delta_timestamps && after.config.zlib_max
                == session.config.zlib_max
            &&& key != Key::Char('5') && !(key == Key::Char('7') && session.show_settings)
                ==> after.config == session.config
        }),
{
    let after = after_key(session, key, number).0;
    lemma_listed_presets_exist(after.preset_idx);
}

/// What no key changes: the platform, the camera and the list of cameras, the
/// capture format, the ramp, and what was rendered last.
pub proof fn lemma_keys_leave_the_rest(session: Session, key: Key, number: u32)
    ensures
        ({
            let after = after_key(session, key, number).0;
            &&& after.platform == session.platform
            &&& after.camera == session.camera
            &&& after.devices == session.devices
            &&& after.fps == session.fps
            &&& after.cam_w == session.cam_w
            &&& after.cam_h == session.cam_h
            &&& after.ramp_base == session.ramp_base
            &&& after.picture == session.picture
            &&& after.ascii == session.ascii
        }),
{
}

/// The key `3` ends a recording that runs: what is left of it is written, and no
/// file is recorded to; else it names the file that frames will be recorded to.
/// No other key changes a recording.
pub proof fn lemma_recording_key(session: Session, key: Key, number: u32, name: String)
    requires
        call_ensures(recording_name, (number,), name),
    ensures
        ({
            let (after, effect) = after_key(session, key, number);
            &&& key != Key::Char('3') ==> after.tape == session.tape && after.goal == session.goal
            &&& key == Key::Char('3') && session.tape is Some ==> after.tape is None && after.goal
                == Goal::Nowhere && effect == Effect::CloseRecording(session.tape->0.written)
            &&& key == Key::Char('3') && session.tape is None ==> after.tape is None && after.goal
                == Goal::Named(name@) && effect == Effect::MakeRecordings
        }),
{
}

/// The key `4` saves the picture as SVG and `H` its text as a page, under names
/// with the number, where there is a picture.
pub proof fn lemma_capture_keys(
    session: Session,
    number: u32,
    frame: RenderFrame,
    svg: String,
    svg_file: String,
    text: &str,
    page: String,
    html_file: String,
)
    requires
        frame@ == session.picture,
        text@ == session.ascii,
        call_ensures(render_frame_to_svg, (&frame,), svg),
        call_ensures(svg_name, (number,), svg_file),
        call_ensures(html_page, (text,), page),
        call_ensures(html_name, (number,), html_file),
    ensures
        after_key(session, Key::Char('4'), number).1 == (if session.picture.chars.len() == 0 {
            Effect::Nothing
        } else {
            Effect::SaveCapture(svg_file@, svg@)
        }),
        after_key(session, Key::Char('H'), number).1 == (if session.ascii.len() == 0 {
            Effect::Nothing
        } else {
            Effect::SaveCapture(html_file@, page@)
        }),
{
}

/// The keys up and down change the contrast, `c` and `C` start the next camera,
/// if there is one, `q` and `Q` end the program; of the other keys, only `3`, `4`
/// and `H` have anything done outside of the state.
pub proof fn lemma_keys_have_effects(session: Session, key: Key, number: u32, app: App, next: Option<u32>)
    requires
        app@ == session,
        call_ensures(App::next_camera_id, (&app,), next),
    ensures
        ({
            let effect = after_key(session, key, number).1;
            &&& effect is RaiseContrast <==> key == Key::Up
            &&& effect is LowerContrast <==> key == Key::Down
            &&& effect is Quit <==> key == Key::Char('q') || key == Key::Char('Q')
            &&& key == Key::Char('c') || key == Key::Char('C') ==> effect == (match next {
                Some(id) => Effect::StartCamera(id),
                None => Effect::Nothing,
            })
            &&& effect is StartCamera ==> key == Key::Char('c') || key == Key::Char('C')
            &&& effect is MakeRecordings || effect is CloseRecording ==> key == Key::Char('3')
            &&& effect is SaveCapture ==> key == Key::Char('4') || key == Key::Char('H')
        }),
{
}

/// The next camera is the one with the next greater number, or the one with the
/// least where none is greater; there is none where there are not two.
pub proof fn lemma_next_camera_is_next_greater(app: App, r: Option<u32>)
    requires
        app@.sound(),
        call_ensures(App::next_camera_id, (&app,), r),
    ensures
        r is None <==> app@.devices.len() < 2,
        r matches Some(id) ==> {
            let devices = app@.devices;
            let camera = app@.camera;
            &&& holds(devices, id)
            &&& id > camera ==> forall|i: int|
                0 <= i < devices.len() ==> (#[trigger] devices[i]).id <= camera || devices[i].id
                    >= id
            &&& id <= camera ==> forall|i: int|
                0 <= i < devices.len() ==> id <= (#[trigger] devices[i]).id <= camera
            &&& id != camera
        },
{
    let devices = app@.devices;
    let camera = app@.camera;
    if devices.len() >= 2 {
        lemma_held_position(devices, camera);
        let at = position_of(devices, camera);
        let n = devices.len() as int;
        let next = (at + 1) % n;
        if at + 1 < n {
            vstd::arithmetic::div_mod::lemma_small_mod((at + 1) as nat, n as nat);
            assert(devices[at].id < devices[at + 1].id);
        } else {
            vstd::arithmetic::div_mod::lemma_mod_self_0(n);
            assert(devices[0].id < devices[at].id);
        }
        assert(holds(devices, devices[next].id));
    }
}

/// The camera is told by its name, by how many cameras of smaller numbers there
/// are, and by how many there are together.
pub proof fn lemma_camera_is_told(app: App, r: String, k: int)
    requires
        app@.sound(),
        call_ensures(App::camera_status, (&app,), r),
        0 <= k < app@.devices.len(),
        app@.devices[k].id == app@.camera,
    ensures
        r@ == app@.devices[k].name + " ("@ + decimal((k + 1) as nat) + "/"@ + decimal(
            app@.devices.len(),
        ) + ")"@,
{
    lemma_position(app@.devices, k);
}

/// A camera that has started is the one in use, and is in the list, under its
/// own name or its number; the others stay, and so does everything else.
pub proof fn lemma_started_camera_is_in_use(session: Session, id: u32)
    requires
        session.sound(),
    ensures
        ({
            let after = with_started_camera(session, id);
            &&& after.camera == id
            &&& holds(after.devices, id)
            &&& strictly_in_order(after.devices)
            &&& holds(session.devices, id) ==> after.devices == session.devices
            &&& after.brightness == session.brightness
            &&& after.rotation == session.rotation
            &&& after.invert == session.invert
            &&& after.flip == session.flip
            &&& after.lut == session.lut
            &&& after.config == session.config
            &&& after.tape == session.tape
            &&& after.goal == session.goal
            &&& after.picture == session.picture
            &&& after.ascii == session.ascii
            &&& after.preset_idx == session.preset_idx
        }),
{
    lemma_with_camera(session.devices, id);
}

/// A frame is rendered with the program's own table and colour mode, and what is
/// rendered becomes the picture and the text; everything else stays.
pub proof fn lemma_rendered_frame_is_shown(
    session: Session,
    frame: Frame,
    cols: usize,
    rows: usize,
    lut: &[char],
    tone: &[u8],
    r: (RenderFrame, String),
)
    requires
        lut@ == session.lut,
        call_ensures(render_frame, (&frame, cols, rows, lut, tone, session.config.color_mode), r),
    ensures
        ({
            let after = with_rendered(session, frame, cols, rows, tone@);
            &&& after.picture == r.0@
            &&& after.ascii == r.1@
            &&& after.config == session.config
            &&& after.lut == session.lut
            &&& after.tape == session.tape
            &&& after.goal == session.goal
            &&& after.camera == session.camera
            &&& after.devices == session.devices
            &&& after.brightness == session.brightness
            &&& after.rotation == session.rotation
        }),
{
}

/// A recording starts where frames are to be recorded and none runs: with the
/// size of the picture, the ramp in use and the settings, and with colours in
/// every mode but the one without. Else nothing changes.
pub proof fn lemma_recording_begins(
    session: Session,
    cols: usize,
    rows: usize,
    ramp: &str,
    encoder: TcamEncoder,
)
    requires
        ramp@ == session.ramp(),
        call_ensures(
            TcamEncoder::create,
            (
                cols,
                rows,
                session.fps,
                ramp,
                session.config.color_mode != ColorMode::Off,
                session.config,
            ),
            encoder,
        ),
    ensures
        ({
            let (after, begun) = with_begun_recording(session, cols, rows);
            &&& begun <==> session.tape is None && session.goal != Goal::Nowhere
            &&& begun ==> after.tape == Some(encoder@)
            &&& !begun ==> after.tape == session.tape
            &&& after.goal == session.goal
            &&& after.picture == session.picture
            &&& after.config == session.config
            &&& after.camera == session.camera
        }),
{
}

/// The picture that is recorded is the one last rendered, at the elapsed time;
/// all bytes of it are handed over at once. Where no recording runs, or the
/// frame cannot be compressed, nothing changes and nothing is handed over.
pub proof fn lemma_picture_is_recorded(session: Session, elapsed_ms: u128)
    ensures
        ({
            let (after, r) = with_recorded_frame(session, elapsed_ms);
            &&& session.tape is None ==> after == session && r == Ok::<Option<Seq<u8>>, TcamError>(
                None,
            )
            &&& session.tape matches Some(tape) ==> match stored_frame(
                tape,
                session.picture,
                elapsed_ms,
            ) {
                Ok(stored) => (r matches Ok(Some(bytes)) && bytes == stored.written) && (
                after.tape matches Some(rest) && rest.written.len() == 0 && rest.count
                    == stored.count && rest.previous == stored.previous && rest.clock
                    == stored.clock && rest.format == stored.format),
                Err(e) => after == session && r == Err::<Option<Seq<u8>>, TcamError>(e),
            }
            &&& after.picture == session.picture
            &&& after.goal == session.goal
            &&& after.config == session.config
        }),
{
}

/// The page of keys covers the picture while it is open, else that of settings
/// while that is open, and else nothing does.
pub proof fn lemma_page_covers_picture(
    app: App,
    r: Option<Vec<String>>,
    help: Vec<String>,
    settings: Vec<String>,
)
    requires
        call_ensures(App::page, (&app,), r),
        call_ensures(help_text, (app@.platform,), help),
        call_ensures(settings_text, (&app@.config,), settings),
    ensures
        app@.show_help ==> (r matches Some(lines) && text_rows(lines@) == text_rows(help@)),
        !app@.show_help && app@.show_settings ==> (r matches Some(lines) && text_rows(lines@)
            == text_rows(settings@)),
        !app@.show_help && !app@.show_settings ==> r is None,
{
}

/// The status lines tell the state: whether a recording runs, the mode, the
/// brightness, the inversion, and the rotation, 90 degrees for each quarter.
pub proof fn lemma_status_tells_state(
    app: App,
    contrast: String,
    filled: usize,
    r: HudState,
    status: String,
    label: &'static str,
)
    requires
        call_ensures(App::hud, (&app, contrast, filled), r),
        call_ensures(App::camera_status, (&app,), status),
        call_ensures(ColorMode::label, (app@.config.color_mode,), label),
    ensures
        r.recording <==> app@.tape is Some,
        r.color_mode_label@ == label@,
        r.contrast == contrast,
        r.contrast_filled == filled,
        r.brightness == app@.brightness,
        r.invert == app@.invert,
        r.camera_status@ == status@,
        app@.rotation == 0 ==> r.rotation_degrees == 0,
        app@.rotation == 1 ==> r.rotation_degrees == 90,
        app@.rotation == 2 ==> r.rotation_degrees == 180,
        app@.rotation == 3 ==> r.rotation_degrees == 270,
        preset(r.preset@) == Some(app@.config) || (r.preset@ == "custom"@ && forall|name: Seq<char>|
            #[trigger] preset(name) != Some(app@.config)),
{
}

/// The program is asked of its state: what reads the camera, how frames are
/// taken, and what is shown.
pub proof fn lemma_state_is_told(
    app: App,
    platform: Platform,
    camera: u32,
    format: (u8, usize, usize),
    brightness: i16,
    rotation: u8,
    flip: bool,
    recording: bool,
    degrees: u16,
)
    requires
        call_ensures(App::platform, (&app,), platform),
        call_ensures(App::camera, (&app,), camera),
        call_ensures(App::capture_format, (&app,), format),
        call_ensures(App::brightness, (&app,), brightness),
        call_ensures(App::rotation, (&app,), rotation),
        call_ensures(App::flip, (&app,), flip),
        call_ensures(App::is_recording, (&app,), recording),
        call_ensures(App::rotation_degrees, (&app,), degrees),
    ensures
        platform == app@.platform,
        camera == app@.camera,
        format.0 == app@.fps && format.1 == app@.cam_w && format.2 == app@.cam_h,
        brightness == app@.brightness,
        rotation == app@.rotation,
        flip == app@.flip,
        recording <==> app@.tape is Some,
        degrees == 90 * app@.rotation,
{
}

/// The keys right and left move the brightness by 5, up to 100 and down to -100;
/// no other key changes it.
pub proof fn lemma_keys_move_brightness(session: Session, key: Key, number: u32)
    requires
        -100 <= session.brightness <= 100,
    ensures
        ({
            let b = session.brightness;
            let after = after_key(session, key, number).0.brightness;
            &&& key == Key::Right && b <= 95 ==> after == b + 5
            &&& key == Key::Right && b > 95 ==> after == 100
            &&& key == Key::Left && b >= -95 ==> after == b - 5
            &&& key == Key::Left && b < -95 ==> after == -100
            &&& key != Key::Right && key != Key::Left ==> after == b
        }),
{
}

/// The key `2` turns the picture by a quarter more, and round to upright again;
/// the key `1` inverts the ramp, and its table with it.
pub proof fn lemma_keys_turn_and_invert(session: Session, key: Key, number: u32)
    requires
        session.sound(),
    ensures
        ({
            let after = after_key(session, key, number).0;
            &&& key == Key::Char('2') && session.rotation < 3 ==> after.rotation == session.rotation
                + 1
            &&& key == Key::Char('2') && session.rotation == 3 ==> after.rotation == 0
            &&& key != Key::Char('2') ==> after.rotation == session.rotation
            &&& key == Key::Char('1') ==> after.invert == !session.invert
            &&& key != Key::Char('1') ==> after.invert == session.invert && after.lut == session.lut
            &&& after.sound()
        }),
{
    crate::app::lemma_keys_keep_sound(session, key, number);
}

/// The file that is recorded to is told where it has a name of its own.
pub proof fn lemma_recording_file_is_told(app: App, r: Option<&str>, text: &str)
    requires
        call_ensures(App::recording_file, (&app,), r),
        call_ensures(App::ascii, (&app,), text),
    ensures
        app@.goal matches Goal::Named(name) ==> (r matches Some(told) && told@ == name),
        !(app@.goal is Named) ==> r is None,
        text@ == app@.ascii,
{
}

/// A frame with all its pixels can be rendered at every size that the arithmetic
/// and the screen can hold, and one that lacks the last pixel cannot be.
pub proof fn lemma_whole_frames_can_be_rendered(
    app: App,
    frame: Frame,
    cols: usize,
    rows: usize,
    tone: &[u8],
    r: bool,
)
    requires
        app@.sound(),
        call_ensures(App::can_render, (&app, &frame, cols, rows, tone), r),
        tone@.len() == 256,
        frame.width >= 1,
        frame.height >= 1,
        8 * cols <= usize::MAX,
        12 * rows <= usize::MAX,
        (rows - 1) * (frame.height - 1) <= usize::MAX,
        (cols - 1) * (frame.width - 1) <= usize::MAX,
    ensures
        3 * (frame.width * frame.height) <= frame.data@.len() ==> r,
        cols >= 2 && rows >= 2 && 3 * (frame.width * frame.height) > frame.data@.len() ==> !r,
{
    let scene = crate::render::scene_of(
        frame,
        cols,
        rows,
        app@.lut,
        tone@,
        app@.config.color_mode,
    );
    if 3 * (frame.width * frame.height) <= frame.data@.len() {
        crate::render::lemma_whole_frame_fits(scene);
    } else if cols >= 2 && rows >= 2 {
        let w = frame.width as int;
        let h = frame.height as int;
        crate::render::lemma_sample_in_range(cols - 1, cols as int, w);
        crate::render::lemma_sample_in_range(rows - 1, rows as int, h);
        assert(scene.offset(cols - 1, rows - 1) == 3 * ((h - 1) * w + (w - 1)));
        assert((h - 1) * w + (w - 1) == w * h - 1) by (nonlinear_arith);
        assert(!(scene.offset(cols - 1, rows - 1) + 2 < scene.data.len()));
    }
}

/// The cameras that the program starts with are those that were found, and the
/// one that it starts.
pub proof fn lemma_program_starts_with_cameras(
    args: Args,
    detected: Platform,
    found: Vec<(Option<u32>, String)>,
    r: App,
    list: Vec<CameraDevice>,
)
    requires
        call_ensures(App::new, (&args, detected, &found), r),
        call_ensures(query_camera_devices, (r@.camera, &found), list),
    ensures
        r@.devices == devices_of(list@),
{
}

} // verus!
