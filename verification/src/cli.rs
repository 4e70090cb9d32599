//! The choices a user makes on the command line or in the settings.
use vstd::prelude::*;
use vstd::utf8::is_ascii_chars;

verus! {

/// The long brightness ramp, darkest character first.
pub const RAMP_LONG: &'static str =
    " .'`^\",:;Il!i><~+_-?][}{1)(|/tfjrxnuvczXYUJCLQ0OZmwqpdbkhao*#MW&8%B@$";

/// The short brightness ramp, darkest character first.
pub const RAMP_SHORT: &'static str = " .:-=+*#%@";

/// The number of terminal lines that the status display takes.
pub const HUD_LINES: u16 = 3;

/// A capture resolution.
#[derive(Clone, Copy, Debug, PartialEq, Eq, Structural)]
pub enum Resolution {
    Low,
    Medium,
    High,
}

impl Resolution {
    /// The width and height in pixels.
    pub open spec fn pixels(self) -> (usize, usize) {
        match self {
            Resolution::Low => (320, 240),
            Resolution::Medium => (640, 480),
            Resolution::High => (1280, 720),
        }
    }

    /// The width and height in pixels.
    pub fn size(self) -> (r: (usize, usize))
        ensures
            r == self.pixels(),
    {
        match self {
            Resolution::Low => (320, 240),
            Resolution::Medium => (640, 480),
            Resolution::High => (1280, 720),
        }
    }
}

/// A brightness ramp.
#[derive(Clone, Copy, Debug, PartialEq, Eq, Structural)]
pub enum Ramp {
    Long,
    Short,
}

impl Ramp {
    /// The characters of the ramp, darkest first.
    pub open spec fn letters(self) -> Seq<char> {
        match self {
            Ramp::Long => RAMP_LONG@,
            Ramp::Short => RAMP_SHORT@,
        }
    }

    /// The characters of the ramp, darkest first.
    pub fn text(self) -> (r: &'static str)
        ensures
            r@ == self.letters(),
    {
        match self {
            Ramp::Long => RAMP_LONG,
            Ramp::Short => RAMP_SHORT,
        }
    }
}

/// The ramps have ASCII characters, and not many.
pub proof fn lemma_ramps_have_letters(ramp: Ramp)
    ensures
        0 < ramp.letters().len() <= 100,
        is_ascii_chars(ramp.letters()),
{
    reveal_strlit(
        " .'`^\",:;Il!i><~+_-?][}{1)(|/tfjrxnuvczXYUJCLQ0OZmwqpdbkhao*#MW&8%B@$",
    );
    reveal_strlit(" .:-=+*#%@");
}

/// The system that the camera is read on.
#[derive(Clone, Copy, Debug, PartialEq, Eq, Structural)]
pub enum Platform {
    Auto,
    Macos,
    Linux,
    Termux,
}

impl Platform {
    /// The platform's name as the help shows it.
    pub open spec fn title(self) -> Seq<char> {
        match self {
            Platform::Auto => "Auto"@,
            Platform::Macos => "Macos"@,
            Platform::Linux => "Linux"@,
            Platform::Termux => "Termux"@,
        }
    }

    /// The platform's name as the help shows it.
    pub fn name(self) -> (r: &'static str)
        ensures
            r@ == self.title(),
    {
        match self {
            Platform::Auto => "Auto",
            Platform::Macos => "Macos",
            Platform::Linux => "Linux",
            Platform::Termux => "Termux",
        }
    }
}

/// How colours reach the terminal.
#[derive(Clone, Copy, Debug, PartialEq, Eq, Structural)]
pub enum ColorMode {
    TrueColor,
    Ansi256,
    Ansi16,
    Gray,
    Green,
    GreenGray,
    Red,
    RedGray,
    Off,
}

impl ColorMode {
    /// The short name that the status line shows.
    pub open spec fn title(self) -> Seq<char> {
        match self {
            ColorMode::TrueColor => "24bit"@,
            ColorMode::Ansi256 => "256c"@,
            ColorMode::Ansi16 => "16c"@,
            ColorMode::Gray => "Gray"@,
            ColorMode::Green => "Green"@,
            ColorMode::GreenGray => "GrnGr"@,
            ColorMode::Red => "Red"@,
            ColorMode::RedGray => "RedGr"@,
            ColorMode::Off => "Off"@,
        }
    }

    /// The short name that the status line shows.
    pub fn label(self) -> (r: &'static str)
        ensures
            r@ == self.title(),
    {
        match self {
            ColorMode::TrueColor => "24bit",
            ColorMode::Ansi256 => "256c",
            ColorMode::Ansi16 => "16c",
            ColorMode::Gray => "Gray",
            ColorMode::Green => "Green",
            ColorMode::GreenGray => "GrnGr",
            ColorMode::Red => "Red",
            ColorMode::RedGray => "RedGr",
            ColorMode::Off => "Off",
        }
    }

    /// Whether the mode colours characters at all.
    pub open spec fn colours(self) -> bool {
        self != ColorMode::Off
    }

    /// Whether the mode colours characters at all.
    pub fn is_color(self) -> (r: bool)
        ensures
            r == self.colours(),
    {
        self != ColorMode::Off
    }

    /// The mode that follows in the cycle.
    pub open spec fn following(self) -> ColorMode {
        match self {
            ColorMode::TrueColor => ColorMode::Ansi256,
            ColorMode::Ansi256 => ColorMode::Ansi16,
            ColorMode::Ansi16 => ColorMode::Gray,
            ColorMode::Gray => ColorMode::Green,
            ColorMode::Green => ColorMode::GreenGray,
            ColorMode::GreenGray => ColorMode::Red,
            ColorMode::Red => ColorMode::RedGray,
            ColorMode::RedGray => ColorMode::Off,
            ColorMode::Off => ColorMode::TrueColor,
        }
    }

    /// The mode that follows in the cycle.
    pub fn cycle(self) -> (r: ColorMode)
        ensures
            r == self.following(),
    {
        match self {
            ColorMode::TrueColor => ColorMode::Ansi256,
            ColorMode::Ansi256 => ColorMode::Ansi16,
            ColorMode::Ansi16 => ColorMode::Gray,
            ColorMode::Gray => ColorMode::Green,
            ColorMode::Green => ColorMode::GreenGray,
            ColorMode::GreenGray => ColorMode::Red,
            ColorMode::Red => ColorMode::RedGray,
            ColorMode::RedGray => ColorMode::Off,
            ColorMode::Off => ColorMode::TrueColor,
        }
    }
}

/// The mode reached from `mode` after `n` steps of the cycle.
pub open spec fn mode_after(mode: ColorMode, n: nat) -> ColorMode
    decreases n,
{
    if n == 0 {
        mode
    } else {
        mode_after(mode, (n - 1) as nat).following()
    }
}

/// The cycle visits every mode: from any mode each other one is reached in at
/// most eight steps, and nine steps lead back.
pub proof fn lemma_cycle_visits_every_mode(from: ColorMode, to: ColorMode)
    ensures
        mode_after(from, 9) == from,
        exists|n: nat| n <= 8 && #[trigger] mode_after(from, n) == to,
{
    reveal_with_fuel(mode_after, 10);
    assert(mode_after(from, 0) == to || mode_after(from, 1) == to || mode_after(from, 2) == to
        || mode_after(from, 3) == to || mode_after(from, 4) == to || mode_after(from, 5) == to
        || mode_after(from, 6) == to || mode_after(from, 7) == to || mode_after(from, 8) == to);
}

/// What the command line says. Figures that are not whole numbers, and paths,
/// are kept elsewhere.
#[derive(Clone, Copy, Debug, PartialEq, Eq, Structural)]
pub struct Args {
    pub no_color: bool,
    pub resolution: Resolution,
    pub brightness: i16,
    pub ramp: Ramp,
    pub invert: bool,
    pub flip: bool,
    pub camera: Option<u32>,
    pub rotate: Option<u8>,
    pub platform: Platform,
    /// Whether a file to record to is given.
    pub record: bool,
}

/// The platform that the program runs on: macOS where it was built for it,
/// else Termux where either of its marks is found (its version in the
/// environment, its directory on disk), else Linux.
pub fn detect_platform(macos: bool, termux_version: bool, termux_directory: bool) -> (r: Platform)
    ensures
        r == (if macos {
            Platform::Macos
        } else if termux_version || termux_directory {
            Platform::Termux
        } else {
            Platform::Linux
        }),
{
    if macos {
        Platform::Macos
    } else if termux_version || termux_directory {
        Platform::Termux
    } else {
        Platform::Linux
    }
}

} // verus!
