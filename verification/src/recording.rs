//! The recording settings, their flag word and their presets.
use vstd::prelude::*;

use crate::cli::ColorMode;

verus! {

/// What a recording leaves out or packs tighter.
#[derive(Clone, Copy, Debug, PartialEq, Eq, Structural)]
pub struct RecordingConfig {
    /// A frame equal to the one before is stored as a mark alone.
    pub skip_identical: bool,
    /// Colours are stored as one byte of a palette.
    pub quantize_colors: bool,
    /// Characters of coloured frames are not stored but derived on playback.
    pub derive_chars: bool,
    /// A changed cell is named by one number, not by column and row.
    pub flat_indices: bool,
    /// Times are stored as distances.
    pub delta_timestamps: bool,
    /// Frames are compressed as tightly as can be.
    pub zlib_max: bool,
    /// How the recorded frames were coloured.
    pub color_mode: ColorMode,
}

/// Every saving switched on, in true colour.
pub open spec fn full_config() -> RecordingConfig {
    RecordingConfig {
        skip_identical: true,
        quantize_colors: true,
        derive_chars: true,
        flat_indices: true,
        delta_timestamps: true,
        zlib_max: true,
        color_mode: ColorMode::TrueColor,
    }
}

/// No saving at all, in true colour.
pub open spec fn plain_config() -> RecordingConfig {
    RecordingConfig {
        skip_identical: false,
        quantize_colors: false,
        derive_chars: false,
        flat_indices: false,
        delta_timestamps: false,
        zlib_max: false,
        color_mode: ColorMode::TrueColor,
    }
}

/// Whether the flag of the given weight is set in the flag word.
pub open spec fn flag_set(flags: u16, weight: int) -> bool {
    flags as int / weight % 2 == 1
}

/// What a setting adds to the flag word.
pub open spec fn flag_value(on: bool, weight: int) -> int {
    if on {
        weight
    } else {
        0
    }
}

/// The settings that a flag word stands for.
pub open spec fn config_of_flags(flags: u16) -> RecordingConfig {
    RecordingConfig {
        skip_identical: flag_set(flags, 2),
        quantize_colors: flag_set(flags, 4),
        derive_chars: flag_set(flags, 8),
        flat_indices: flag_set(flags, 16),
        delta_timestamps: flag_set(flags, 32),
        zlib_max: flag_set(flags, 64),
        color_mode: ColorMode::TrueColor,
    }
}

/// The settings of the named preset.
pub open spec fn preset(name: Seq<char>) -> Option<RecordingConfig> {
    if name == "raw"@ {
        Some(plain_config())
    } else if name == "max"@ {
        Some(RecordingConfig { color_mode: ColorMode::Ansi256, ..full_config() })
    } else if name == "greyscale"@ {
        Some(
            RecordingConfig {
                color_mode: ColorMode::Gray,
                quantize_colors: false,
                derive_chars: false,
                ..full_config()
            },
        )
    } else if name == "ascii"@ {
        Some(
            RecordingConfig {
                color_mode: ColorMode::Off,
                quantize_colors: false,
                ..full_config()
            },
        )
    } else if name == "green"@ {
        Some(
            RecordingConfig {
                color_mode: ColorMode::Green,
                quantize_colors: false,
                ..full_config()
            },
        )
    } else if name == "green_gray"@ {
        Some(
            RecordingConfig {
                color_mode: ColorMode::GreenGray,
                quantize_colors: false,
                ..full_config()
            },
        )
    } else if name == "red"@ {
        Some(
            RecordingConfig {
                color_mode: ColorMode::Red,
                quantize_colors: false,
                ..full_config()
            },
        )
    } else if name == "red_gray"@ {
        Some(
            RecordingConfig {
                color_mode: ColorMode::RedGray,
                quantize_colors: false,
                ..full_config()
            },
        )
    } else {
        None
    }
}

/// The number of presets.
pub const PRESET_COUNT: usize = 8;

/// The name of a preset, in the order in which they are cycled through.
pub open spec fn preset_title(i: int) -> Seq<char> {
    if i == 0 {
        "raw"@
    } else if i == 1 {
        "max"@
    } else if i == 2 {
        "greyscale"@
    } else if i == 3 {
        "ascii"@
    } else if i == 4 {
        "green"@
    } else if i == 5 {
        "green_gray"@
    } else if i == 6 {
        "red"@
    } else {
        "red_gray"@
    }
}

/// The name of a preset, in the order in which they are cycled through.
pub fn preset_at(i: usize) -> (r: &'static str)
    requires
        i < PRESET_COUNT,
    ensures
        r@ == preset_title(i as int),
{
    if i == 0 {
        "raw"
    } else if i == 1 {
        "max"
    } else if i == 2 {
        "greyscale"
    } else if i == 3 {
        "ascii"
    } else if i == 4 {
        "green"
    } else if i == 5 {
        "green_gray"
    } else if i == 6 {
        "red"
    } else {
        "red_gray"
    }
}

/// Settings taken from a preset are recognised under that preset's name and no
/// other: two names with the same settings are the same name.
pub proof fn lemma_preset_determines_name(a: Seq<char>, b: Seq<char>)
    requires
        preset(a) is Some,
        preset(a) == preset(b),
    ensures
        a == b,
{
}

/// A listed name stands for a preset.
pub proof fn lemma_listed_presets_exist(i: int)
    requires
        0 <= i < PRESET_COUNT,
    ensures
        preset(preset_title(i)) is Some,
{
}

/// Every preset is listed.
proof fn lemma_presets_are_listed(name: Seq<char>) -> (i: int)
    requires
        preset(name) is Some,
    ensures
        0 <= i < PRESET_COUNT,
        preset_title(i) == name,
{
    if name == "raw"@ {
        0
    } else if name == "max"@ {
        1
    } else if name == "greyscale"@ {
        2
    } else if name == "ascii"@ {
        3
    } else if name == "green"@ {
        4
    } else if name == "green_gray"@ {
        5
    } else if name == "red"@ {
        6
    } else {
        7
    }
}

/// `==` on `str` tells whether the two hold the same characters.
pub assume_specification[ <str as PartialEq>::eq ](a: &str, b: &str) -> (r: bool)
    ensures
        r == (a@ == b@),
;

impl Default for RecordingConfig {
    fn default() -> (r: Self)
        ensures
            r == full_config(),
    {
        RecordingConfig {
            skip_identical: true,
            quantize_colors: true,
            derive_chars: true,
            flat_indices: true,
            delta_timestamps: true,
            zlib_max: true,
            color_mode: ColorMode::TrueColor,
        }
    }
}

impl RecordingConfig {
    /// The flag word of these settings for a recording with or without
    /// colours.
    pub open spec fn flag_word(self, color: bool) -> int {
        flag_value(color, 1) + flag_value(self.skip_identical, 2) + flag_value(
            self.quantize_colors,
            4,
        ) + flag_value(self.derive_chars, 8) + flag_value(self.flat_indices, 16) + flag_value(
            self.delta_timestamps,
            32,
        ) + flag_value(self.zlib_max, 64)
    }

    /// The flag word of these settings for a recording with or without
    /// colours.
    pub fn flags(&self, color: bool) -> (r: u16)
        ensures
            r == self.flag_word(color),
    {
        let mut flags: u16 = 0;
        if color {
            flags += 1;
        }
        if self.skip_identical {
            flags += 2;
        }
        if self.quantize_colors {
            flags += 4;
        }
        if self.derive_chars {
            flags += 8;
        }
        if self.flat_indices {
            flags += 16;
        }
        if self.delta_timestamps {
            flags += 32;
        }
        if self.zlib_max {
            flags += 64;
        }
        flags
    }

    /// The settings that a flag word stands for; colours play back in true
    /// colour.
    pub fn from_flags(flags: u16) -> (r: Self)
        ensures
            r == config_of_flags(flags),
    {
        RecordingConfig {
            skip_identical: flags / 2 % 2 == 1,
            quantize_colors: flags / 4 % 2 == 1,
            derive_chars: flags / 8 % 2 == 1,
            flat_indices: flags / 16 % 2 == 1,
            delta_timestamps: flags / 32 % 2 == 1,
            zlib_max: flags / 64 % 2 == 1,
            color_mode: ColorMode::TrueColor,
        }
    }

    /// The settings of recordings of the first format version.
    pub fn v1_defaults() -> (r: Self)
        ensures
            r == plain_config(),
    {
        RecordingConfig {
            skip_identical: false,
            quantize_colors: false,
            derive_chars: false,
            flat_indices: false,
            delta_timestamps: false,
            zlib_max: false,
            color_mode: ColorMode::TrueColor,
        }
    }

    /// Takes on the settings of the named preset; an unknown name changes
    /// nothing.
    pub fn apply_preset(&mut self, name: &str)
        ensures
            *final(self) == (match preset(name@) {
                Some(config) => config,
                None => *old(self),
            }),
    {
        let full = RecordingConfig::default();
        if *name == *"raw" {
            *self = RecordingConfig::v1_defaults();
        } else if *name == *"max" {
            *self = RecordingConfig { color_mode: ColorMode::Ansi256, ..full };
        } else if *name == *"greyscale" {
            *self =
            RecordingConfig {
                color_mode: ColorMode::Gray,
                quantize_colors: false,
                derive_chars: false,
                ..full
            };
        } else if *name == *"ascii" {
            *self =
            RecordingConfig { color_mode: ColorMode::Off, quantize_colors: false, ..full };
        } else if *name == *"green" {
            *self =
            RecordingConfig { color_mode: ColorMode::Green, quantize_colors: false, ..full };
        } else if *name == *"green_gray" {
            *self =
            RecordingConfig { color_mode: ColorMode::GreenGray, quantize_colors: false, ..full };
        } else if *name == *"red" {
            *self =
            RecordingConfig { color_mode: ColorMode::Red, quantize_colors: false, ..full };
        } else if *name == *"red_gray" {
            *self =
            RecordingConfig { color_mode: ColorMode::RedGray, quantize_colors: false, ..full };
        }
    }

    /// The name of the preset that these settings are, if they are one.
    pub fn preset_name(&self) -> (r: Option<&'static str>)
        ensures
            match r {
                Some(name) => preset(name@) == Some(*self),
                None => forall|name: Seq<char>| preset(name) != Some(*self),
            },
    {
        let mut i: usize = 0;
        while i < PRESET_COUNT
            invariant
                i <= PRESET_COUNT,
                forall|j: int| 0 <= j < i ==> preset(#[trigger] preset_title(j)) != Some(*self),
            decreases PRESET_COUNT - i,
        {
            let name = preset_at(i);
            let mut config = *self;
            config.apply_preset(name);
            proof {
                lemma_listed_presets_exist(i as int);
            }
            if same_config(self, &config) {
                return Some(name);
            }
            i += 1;
        }
        proof {
            assert forall|name: Seq<char>| preset(name) != Some(*self) by {
                if preset(name) is Some {
                    let j = lemma_presets_are_listed(name);
                    assert(preset(preset_title(j)) != Some(*self));
                }
            }
        }
        None
    }
}

/// Whether two settings agree in everything.
pub fn same_config(a: &RecordingConfig, b: &RecordingConfig) -> (r: bool)
    ensures
        r == (*a == *b),
{
    a.skip_identical == b.skip_identical && a.quantize_colors == b.quantize_colors
        && a.derive_chars == b.derive_chars && a.flat_indices == b.flat_indices
        && a.delta_timestamps == b.delta_timestamps && a.zlib_max == b.zlib_max && a.color_mode
        == b.color_mode
}

/// The flag word keeps every setting but the colour mode, and its lowest bit
/// tells whether the recording has colours.
pub proof fn lemma_flags_keep_settings(config: RecordingConfig, color: bool, flags: u16)
    requires
        flags == config.flag_word(color),
    ensures
        config_of_flags(flags) == (RecordingConfig { color_mode: ColorMode::TrueColor, ..config }),
        flag_set(flags, 1) == color,
{
}

} // verus!
