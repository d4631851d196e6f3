//! Configuration and themes: the settings file's contents, colour names and
//! `#RRGGBB` values, the preset themes and how the theme in use is chosen.

use vstd::prelude::*;
use crate::text::{all_ascii, ascii_lower, chars_eq, chars_of, spec_lowercase, to_lowercase};

verus! {

/// A terminal colour.
#[derive(Debug, Clone, Copy, PartialEq, Eq, Structural)]
pub enum ThemeColor {
    Black,
    Red,
    Green,
    Yellow,
    Blue,
    Magenta,
    Cyan,
    Gray,
    DarkGray,
    LightRed,
    LightGreen,
    LightYellow,
    LightBlue,
    LightMagenta,
    LightCyan,
    White,
    Rgb(u8, u8, u8),
}

/// Theme colours as the `[theme]` section of the settings file gives them.
#[derive(Debug, Clone)]
pub struct ThemeConfig {
    pub accent: Option<String>,
    pub border: Option<String>,
    pub clean: Option<String>,
    pub dirty: Option<String>,
    pub error: Option<String>,
    pub ahead: Option<String>,
    pub behind: Option<String>,
    pub stale: Option<String>,
    pub selected_bg: Option<String>,
}

/// The settings file.
pub struct Config {
    pub interval: Option<u64>,
    pub depth: Option<usize>,
    pub stale_days: Option<u64>,
    pub excluded_paths: Option<Vec<String>>,
    pub default_sort: Option<String>,
    pub notifications: Option<bool>,
    pub theme: Option<ThemeConfig>,
}

impl Default for Config {
    fn default() -> (r: Self)
        ensures
            r.interval is None,
            r.depth is None,
            r.stale_days is None,
            r.excluded_paths is None,
            r.default_sort is None,
            r.notifications is None,
            r.theme is None,
    {
        Config {
            interval: None,
            depth: None,
            stale_days: None,
            excluded_paths: None,
            default_sort: None,
            notifications: None,
            theme: None,
        }
    }
}

/// Resolved theme colours, ready for rendering.
#[derive(Debug, Clone, Copy, PartialEq, Eq, Structural)]
pub struct Theme {
    pub accent: ThemeColor,
    pub border: ThemeColor,
    pub clean: ThemeColor,
    pub dirty: ThemeColor,
    pub error: ThemeColor,
    pub ahead: ThemeColor,
    pub behind: ThemeColor,
    pub stale: ThemeColor,
    pub selected_bg: ThemeColor,
    pub dim: ThemeColor,
}

/// The default theme.
pub open spec fn spec_default_theme() -> Theme {
    Theme {
        accent: ThemeColor::Cyan,
        border: ThemeColor::DarkGray,
        clean: ThemeColor::Green,
        dirty: ThemeColor::Yellow,
        error: ThemeColor::Red,
        ahead: ThemeColor::Cyan,
        behind: ThemeColor::Magenta,
        stale: ThemeColor::Rgb(180, 60, 60),
        selected_bg: ThemeColor::Rgb(30, 30, 50),
        dim: ThemeColor::DarkGray,
    }
}

impl Default for Theme {
    fn default() -> (r: Self)
        ensures
            r == spec_default_theme(),
    {
        Theme {
            accent: ThemeColor::Cyan,
            border: ThemeColor::DarkGray,
            clean: ThemeColor::Green,
            dirty: ThemeColor::Yellow,
            error: ThemeColor::Red,
            ahead: ThemeColor::Cyan,
            behind: ThemeColor::Magenta,
            stale: ThemeColor::Rgb(180, 60, 60),
            selected_bg: ThemeColor::Rgb(30, 30, 50),
            dim: ThemeColor::DarkGray,
        }
    }
}

/// A named built-in theme.
pub struct PresetTheme {
    pub name: &'static str,
    pub theme: Theme,
}

/// Number of built-in themes.
pub open spec fn preset_count() -> nat {
    8
}

/// The colours of preset `i`.
pub open spec fn preset_theme(i: int) -> Theme {
    if i == 0 {
        spec_default_theme()
    } else if i == 1 {
        Theme {
            accent: ThemeColor::Rgb(189, 147, 249),
            border: ThemeColor::Rgb(68, 71, 90),
            clean: ThemeColor::Rgb(80, 250, 123),
            dirty: ThemeColor::Rgb(241, 250, 140),
            error: ThemeColor::Rgb(255, 85, 85),
            ahead: ThemeColor::Rgb(139, 233, 253),
            behind: ThemeColor::Rgb(255, 121, 198),
            stale: ThemeColor::Rgb(255, 85, 85),
            selected_bg: ThemeColor::Rgb(68, 71, 90),
            dim: ThemeColor::Rgb(98, 114, 164),
        }
    } else if i == 2 {
        Theme {
            accent: ThemeColor::Rgb(136, 192, 208),
            border: ThemeColor::Rgb(76, 86, 106),
            clean: ThemeColor::Rgb(163, 190, 140),
            dirty: ThemeColor::Rgb(235, 203, 139),
            error: ThemeColor::Rgb(191, 97, 106),
            ahead: ThemeColor::Rgb(129, 161, 193),
            behind: ThemeColor::Rgb(180, 142, 173),
            stale: ThemeColor::Rgb(191, 97, 106),
            selected_bg: ThemeColor::Rgb(59, 66, 82),
            dim: ThemeColor::Rgb(76, 86, 106),
        }
    } else if i == 3 {
        Theme {
            accent: ThemeColor::Rgb(102, 217, 239),
            border: ThemeColor::Rgb(117, 113, 94),
            clean: ThemeColor::Rgb(166, 226, 46),
            dirty: ThemeColor::Rgb(230, 219, 116),
            error: ThemeColor::Rgb(249, 38, 114),
            ahead: ThemeColor::Rgb(102, 217, 239),
            behind: ThemeColor::Rgb(174, 129, 255),
            stale: ThemeColor::Rgb(249, 38, 114),
            selected_bg: ThemeColor::Rgb(62, 61, 50),
            dim: ThemeColor::Rgb(117, 113, 94),
        }
    } else if i == 4 {
        Theme {
            accent: ThemeColor::Rgb(38, 139, 210),
            border: ThemeColor::Rgb(88, 110, 117),
            clean: ThemeColor::Rgb(133, 153, 0),
            dirty: ThemeColor::Rgb(181, 137, 0),
            error: ThemeColor::Rgb(220, 50, 47),
            ahead: ThemeColor::Rgb(42, 161, 152),
            behind: ThemeColor::Rgb(211, 54, 130),
            stale: ThemeColor::Rgb(220, 50, 47),
            selected_bg: ThemeColor::Rgb(7, 54, 66),
            dim: ThemeColor::Rgb(88, 110, 117),
        }
    } else if i == 5 {
        Theme {
            accent: ThemeColor::Rgb(215, 153, 33),
            border: ThemeColor::Rgb(124, 111, 100),
            clean: ThemeColor::Rgb(152, 151, 26),
            dirty: ThemeColor::Rgb(215, 153, 33),
            error: ThemeColor::Rgb(204, 36, 29),
            ahead: ThemeColor::Rgb(69, 133, 136),
            behind: ThemeColor::Rgb(177, 98, 134),
            stale: ThemeColor::Rgb(204, 36, 29),
            selected_bg: ThemeColor::Rgb(60, 56, 54),
            dim: ThemeColor::Rgb(124, 111, 100),
        }
    } else if i == 6 {
        Theme {
            accent: ThemeColor::Rgb(122, 162, 247),
            border: ThemeColor::Rgb(61, 89, 161),
            clean: ThemeColor::Rgb(158, 206, 106),
            dirty: ThemeColor::Rgb(224, 175, 104),
            error: ThemeColor::Rgb(247, 118, 142),
            ahead: ThemeColor::Rgb(125, 207, 255),
            behind: ThemeColor::Rgb(187, 154, 247),
            stale: ThemeColor::Rgb(247, 118, 142),
            selected_bg: ThemeColor::Rgb(41, 46, 66),
            dim: ThemeColor::Rgb(61, 89, 161),
        }
    } else if i == 7 {
        Theme {
            accent: ThemeColor::Rgb(0, 255, 0),
            border: ThemeColor::Rgb(0, 80, 0),
            clean: ThemeColor::Rgb(0, 255, 0),
            dirty: ThemeColor::Rgb(0, 200, 0),
            error: ThemeColor::Rgb(255, 0, 0),
            ahead: ThemeColor::Rgb(0, 255, 100),
            behind: ThemeColor::Rgb(0, 180, 0),
            stale: ThemeColor::Rgb(100, 0, 0),
            selected_bg: ThemeColor::Rgb(0, 30, 0),
            dim: ThemeColor::Rgb(0, 80, 0),
        }
    } else {
        spec_default_theme()
    }
}

/// The name of preset `i`.
pub open spec fn preset_name(i: int) -> Seq<char> {
    if i == 0 {
        "Default"@
    } else if i == 1 {
        "Dracula"@
    } else if i == 2 {
        "Nord"@
    } else if i == 3 {
        "Monokai"@
    } else if i == 4 {
        "Solarized"@
    } else if i == 5 {
        "Gruvbox"@
    } else if i == 6 {
        "Tokyo Night"@
    } else if i == 7 {
        "Matrix"@
    } else {
        ""@
    }
}

impl Theme {
    /// The built-in themes: Default, Dracula, Nord, Monokai, Solarized,
    /// Gruvbox, Tokyo Night and Matrix, in that order.
    pub fn presets() -> (r: Vec<PresetTheme>)
        ensures
            r@.len() == preset_count(),
            forall|i: int|
                0 <= i < r@.len() ==> (#[trigger] r@[i]).name@ == preset_name(i) && r@[i].theme
                    == preset_theme(i),
    {
        let mut v: Vec<PresetTheme> = Vec::new();
        v.push(PresetTheme { name: "Default", theme: Theme::default() });
        v.push(PresetTheme {
            name: "Dracula",
            theme: Theme {
                accent: ThemeColor::Rgb(189, 147, 249),
                border: ThemeColor::Rgb(68, 71, 90),
                clean: ThemeColor::Rgb(80, 250, 123),
                dirty: ThemeColor::Rgb(241, 250, 140),
                error: ThemeColor::Rgb(255, 85, 85),
                ahead: ThemeColor::Rgb(139, 233, 253),
                behind: ThemeColor::Rgb(255, 121, 198),
                stale: ThemeColor::Rgb(255, 85, 85),
                selected_bg: ThemeColor::Rgb(68, 71, 90),
                dim: ThemeColor::Rgb(98, 114, 164),
            },
        });
        v.push(PresetTheme {
            name: "Nord",
            theme: Theme {
                accent: ThemeColor::Rgb(136, 192, 208),
                border: ThemeColor::Rgb(76, 86, 106),
                clean: ThemeColor::Rgb(163, 190, 140),
                dirty: ThemeColor::Rgb(235, 203, 139),
                error: ThemeColor::Rgb(191, 97, 106),
                ahead: ThemeColor::Rgb(129, 161, 193),
                behind: ThemeColor::Rgb(180, 142, 173),
                stale: ThemeColor::Rgb(191, 97, 106),
                selected_bg: ThemeColor::Rgb(59, 66, 82),
                dim: ThemeColor::Rgb(76, 86, 106),
            },
        });
        v.push(PresetTheme {
            name: "Monokai",
            theme: Theme {
                accent: ThemeColor::Rgb(102, 217, 239),
                border: ThemeColor::Rgb(117, 113, 94),
                clean: ThemeColor::Rgb(166, 226, 46),
                dirty: ThemeColor::Rgb(230, 219, 116),
                error: ThemeColor::Rgb(249, 38, 114),
                ahead: ThemeColor::Rgb(102, 217, 239),
                behind: ThemeColor::Rgb(174, 129, 255),
                stale: ThemeColor::Rgb(249, 38, 114),
                selected_bg: ThemeColor::Rgb(62, 61, 50),
                dim: ThemeColor::Rgb(117, 113, 94),
            },
        });
        v.push(PresetTheme {
            name: "Solarized",
            theme: Theme {
                accent: ThemeColor::Rgb(38, 139, 210),
                border: ThemeColor::Rgb(88, 110, 117),
                clean: ThemeColor::Rgb(133, 153, 0),
                dirty: ThemeColor::Rgb(181, 137, 0),
                error: ThemeColor::Rgb(220, 50, 47),
                ahead: ThemeColor::Rgb(42, 161, 152),
                behind: ThemeColor::Rgb(211, 54, 130),
                stale: ThemeColor::Rgb(220, 50, 47),
                selected_bg: ThemeColor::Rgb(7, 54, 66),
                dim: ThemeColor::Rgb(88, 110, 117),
            },
        });
        v.push(PresetTheme {
            name: "Gruvbox",
            theme: Theme {
                accent: ThemeColor::Rgb(215, 153, 33),
                border: ThemeColor::Rgb(124, 111, 100),
                clean: ThemeColor::Rgb(152, 151, 26),
                dirty: ThemeColor::Rgb(215, 153, 33),
                error: ThemeColor::Rgb(204, 36, 29),
                ahead: ThemeColor::Rgb(69, 133, 136),
                behind: ThemeColor::Rgb(177, 98, 134),
                stale: ThemeColor::Rgb(204, 36, 29),
                selected_bg: ThemeColor::Rgb(60, 56, 54),
                dim: ThemeColor::Rgb(124, 111, 100),
            },
        });
        v.push(PresetTheme {
            name: "Tokyo Night",
            theme: Theme {
                accent: ThemeColor::Rgb(122, 162, 247),
                border: ThemeColor::Rgb(61, 89, 161),
                clean: ThemeColor::Rgb(158, 206, 106),
                dirty: ThemeColor::Rgb(224, 175, 104),
                error: ThemeColor::Rgb(247, 118, 142),
                ahead: ThemeColor::Rgb(125, 207, 255),
                behind: ThemeColor::Rgb(187, 154, 247),
                stale: ThemeColor::Rgb(247, 118, 142),
                selected_bg: ThemeColor::Rgb(41, 46, 66),
                dim: ThemeColor::Rgb(61, 89, 161),
            },
        });
        v.push(PresetTheme {
            name: "Matrix",
            theme: Theme {
                accent: ThemeColor::Rgb(0, 255, 0),
                border: ThemeColor::Rgb(0, 80, 0),
                clean: ThemeColor::Rgb(0, 255, 0),
                dirty: ThemeColor::Rgb(0, 200, 0),
                error: ThemeColor::Rgb(255, 0, 0),
                ahead: ThemeColor::Rgb(0, 255, 100),
                behind: ThemeColor::Rgb(0, 180, 0),
                stale: ThemeColor::Rgb(100, 0, 0),
                selected_bg: ThemeColor::Rgb(0, 30, 0),
                dim: ThemeColor::Rgb(0, 80, 0),
            },
        });
        v
    }
}

// --- Colours ---

/// The colour a lower-cased colour name stands for.
pub open spec fn named_color(l: Seq<char>) -> Option<ThemeColor> {
    if l == "black"@ {
        Some(ThemeColor::Black)
    } else if l == "red"@ {
        Some(ThemeColor::Red)
    } else if l == "green"@ {
        Some(ThemeColor::Green)
    } else if l == "yellow"@ {
        Some(ThemeColor::Yellow)
    } else if l == "blue"@ {
        Some(ThemeColor::Blue)
    } else if l == "magenta"@ {
        Some(ThemeColor::Magenta)
    } else if l == "cyan"@ {
        Some(ThemeColor::Cyan)
    } else if l == "white"@ {
        Some(ThemeColor::White)
    } else if l == "darkgray"@ || l == "dark_gray"@ {
        Some(ThemeColor::DarkGray)
    } else if l == "lightred"@ || l == "light_red"@ {
        Some(ThemeColor::LightRed)
    } else if l == "lightgreen"@ || l == "light_green"@ {
        Some(ThemeColor::LightGreen)
    } else if l == "lightyellow"@ || l == "light_yellow"@ {
        Some(ThemeColor::LightYellow)
    } else if l == "lightblue"@ || l == "light_blue"@ {
        Some(ThemeColor::LightBlue)
    } else if l == "lightmagenta"@ || l == "light_magenta"@ {
        Some(ThemeColor::LightMagenta)
    } else if l == "lightcyan"@ || l == "light_cyan"@ {
        Some(ThemeColor::LightCyan)
    } else if l == "gray"@ {
        Some(ThemeColor::Gray)
    } else {
        None
    }
}

/// Whether the characters `l` are exactly `lit`.
fn same(l: &Vec<char>, lit: &str) -> (r: bool)
    ensures
        r == (l@ == lit@),
{
    chars_eq(l, &chars_of(lit))
}

fn color_named(s: &str) -> (r: Option<ThemeColor>)
    ensures
        r == named_color(spec_lowercase(s@)),
        all_ascii(s@) ==> spec_lowercase(s@) == ascii_lower(s@),
{
    let l = chars_of(to_lowercase(s).as_str());
    if same(&l, "black") {
        Some(ThemeColor::Black)
    } else if same(&l, "red") {
        Some(ThemeColor::Red)
    } else if same(&l, "green") {
        Some(ThemeColor::Green)
    } else if same(&l, "yellow") {
        Some(ThemeColor::Yellow)
    } else if same(&l, "blue") {
        Some(ThemeColor::Blue)
    } else if same(&l, "magenta") {
        Some(ThemeColor::Magenta)
    } else if same(&l, "cyan") {
        Some(ThemeColor::Cyan)
    } else if same(&l, "white") {
        Some(ThemeColor::White)
    } else if same(&l, "darkgray") || same(&l, "dark_gray") {
        Some(ThemeColor::DarkGray)
    } else if same(&l, "lightred") || same(&l, "light_red") {
        Some(ThemeColor::LightRed)
    } else if same(&l, "lightgreen") || same(&l, "light_green") {
        Some(ThemeColor::LightGreen)
    } else if same(&l, "lightyellow") || same(&l, "light_yellow") {
        Some(ThemeColor::LightYellow)
    } else if same(&l, "lightblue") || same(&l, "light_blue") {
        Some(ThemeColor::LightBlue)
    } else if same(&l, "lightmagenta") || same(&l, "light_magenta") {
        Some(ThemeColor::LightMagenta)
    } else if same(&l, "lightcyan") || same(&l, "light_cyan") {
        Some(ThemeColor::LightCyan)
    } else if same(&l, "gray") {
        Some(ThemeColor::Gray)
    } else {
        None
    }
}

pub open spec fn is_hex(b: u8) -> bool {
    (0x30 <= b && b <= 0x39) || (0x41 <= b && b <= 0x46) || (0x61 <= b && b <= 0x66)
}

pub open spec fn hex_value(b: u8) -> int {
    if 0x30 <= b && b <= 0x39 {
        b - 0x30
    } else if 0x41 <= b && b <= 0x46 {
        b - 0x41 + 10
    } else {
        b - 0x61 + 10
    }
}

/// The byte value of the two hex digits `a b` (`RR`, `GG` or `BB` of
/// `#RRGGBB`); `None` unless both are hex digits.
pub open spec fn hex_pair(a: u8, b: u8) -> Option<u8> {
    if is_hex(a) && is_hex(b) {
        Some((hex_value(a) * 16 + hex_value(b)) as u8)
    } else {
        None
    }
}

/// The two bytes `a b` read as a base-16 number by `u8::from_str_radix`
/// succeed: two hex digits, or `+` and one hex digit. Cutting the colour
/// string into pairs goes on past a pair exactly when it reads.
pub open spec fn radix_pair_parses(a: u8, b: u8) -> bool {
    (a == 0x2b && is_hex(b)) || (is_hex(a) && is_hex(b))
}

/// A UTF-8 continuation byte: not the start of a character.
pub open spec fn is_continuation(b: u8) -> bool {
    0x80 <= b && b <= 0xbf
}

/// The UTF-8 bytes of `s`.
pub open spec fn utf8_of(s: Seq<char>) -> Seq<u8> {
    vstd::utf8::encode_utf8(s)
}

/// Colour parsing of `s` would cut a character in two: `s` is no colour name,
/// it is `#` and six more bytes, and the red pair ends inside a character, or
/// the red pair reads as a base-16 number and the green pair ends inside one.
pub open spec fn color_cut_inside_char(s: Seq<char>) -> bool {
    let b = utf8_of(s);
    &&& named_color(spec_lowercase(s)) is None
    &&& b.len() == 7
    &&& b[0] == 0x23
    &&& (is_continuation(b[3]) || (radix_pair_parses(b[1], b[2]) && is_continuation(b[5])))
}

/// The colour `s` names: a colour name (case-insensitive; `dark_gray` and
/// `darkgray` alike) or `#RRGGBB`.
pub open spec fn spec_parse_color(s: Seq<char>) -> Option<ThemeColor> {
    match named_color(spec_lowercase(s)) {
        Some(c) => Some(c),
        None => {
            let b = utf8_of(s);
            if b.len() == 7 && b[0] == 0x23 {
                match (hex_pair(b[1], b[2]), hex_pair(b[3], b[4]), hex_pair(b[5], b[6])) {
                    (Some(r), Some(g), Some(bl)) => Some(ThemeColor::Rgb(r, g, bl)),
                    _ => None,
                }
            } else {
                None
            }
        },
    }
}

fn parse_hex_pair(a: u8, b: u8) -> (r: Option<u8>)
    ensures
        r == hex_pair(a, b),
{
    match (hex_digit(a), hex_digit(b)) {
        (Some(x), Some(y)) => Some(x * 16 + y),
        _ => None,
    }
}

fn hex_digit(b: u8) -> (r: Option<u8>)
    ensures
        match r {
            Some(v) => is_hex(b) && v as int == hex_value(b) && v < 16,
            None => !is_hex(b),
        },
{
    if 0x30 <= b && b <= 0x39 {
        Some(b - 0x30)
    } else if 0x41 <= b && b <= 0x46 {
        Some(b - 0x41 + 10)
    } else if 0x61 <= b && b <= 0x66 {
        Some(b - 0x61 + 10)
    } else {
        None
    }
}

/// Parses a colour name or `#RRGGBB`.
pub fn parse_color(s: &str) -> (r: Option<ThemeColor>)
    requires
        !color_cut_inside_char(s@),
    ensures
        r == spec_parse_color(s@),
        all_ascii(s@) && named_color(ascii_lower(s@)) is Some ==> r == named_color(ascii_lower(s@)),
{
    if let Some(c) = color_named(s) {
        return Some(c);
    }
    let b = s.as_bytes();
    if b.len() != 7 || b[0] != 0x23 {
        return None;
    }
    let red = parse_hex_pair(b[1], b[2]);
    let green = parse_hex_pair(b[3], b[4]);
    let blue = parse_hex_pair(b[5], b[6]);
    match (red, green, blue) {
        (Some(r), Some(g), Some(bl)) => Some(ThemeColor::Rgb(r, g, bl)),
        _ => None,
    }
}

fn continuation(b: u8) -> (r: bool)
    ensures
        r == is_continuation(b),
{
    0x80 <= b && b <= 0xbf
}

/// Whether parsing `s` as a colour would cut a character in two (see
/// `color_cut_inside_char`).
pub fn color_cuts_char(s: &str) -> (r: bool)
    ensures
        r == color_cut_inside_char(s@),
        all_ascii(s@) ==> spec_lowercase(s@) == ascii_lower(s@),
{
    if color_named(s).is_some() {
        return false;
    }
    let b = s.as_bytes();
    if b.len() != 7 || b[0] != 0x23 {
        return false;
    }
    let red_reads = (b[1] == 0x2b && hex_digit(b[2]).is_some()) || (hex_digit(b[1]).is_some()
        && hex_digit(b[2]).is_some());
    continuation(b[3]) || (red_reads && continuation(b[5]))
}

/// Parses a colour name or `#RRGGBB` when that can be done without cutting
/// a character in two: `None` for the strings on which that would happen,
/// else the parse.
pub fn checked_parse_color(s: &str) -> (r: Option<Option<ThemeColor>>)
    ensures
        r == if color_cut_inside_char(s@) {
            None
        } else {
            Some(spec_parse_color(s@))
        },
        all_ascii(s@) && named_color(ascii_lower(s@)) is Some ==> r == Some(named_color(ascii_lower(s@))),
{
    if color_cuts_char(s) {
        None
    } else {
        Some(parse_color(s))
    }
}

// --- Choosing the theme ---

/// A configured colour can be parsed without cutting a character in two.
pub open spec fn color_entry_ok(o: Option<String>) -> bool {
    match o {
        Some(v) => !color_cut_inside_char(v@),
        None => true,
    }
}

/// Every colour of the `[theme]` section can be parsed.
pub open spec fn theme_config_ok(tc: ThemeConfig) -> bool {
    &&& color_entry_ok(tc.accent)
    &&& color_entry_ok(tc.border)
    &&& color_entry_ok(tc.clean)
    &&& color_entry_ok(tc.dirty)
    &&& color_entry_ok(tc.error)
    &&& color_entry_ok(tc.ahead)
    &&& color_entry_ok(tc.behind)
    &&& color_entry_ok(tc.stale)
    &&& color_entry_ok(tc.selected_bg)
}

/// The colour a configured value gives, if any.
pub open spec fn configured(o: Option<String>) -> Option<ThemeColor> {
    match o {
        Some(v) => spec_parse_color(v@),
        None => None,
    }
}

/// `t` with `c`, when there is one, put in by `set`.
pub open spec fn apply(t: Theme, c: Option<ThemeColor>, set: spec_fn(Theme, ThemeColor) -> Theme) -> Theme {
    match c {
        Some(c) => set(t, c),
        None => t,
    }
}

/// The theme of a `[theme]` section: the default theme with each colour
/// that parses put in; the accent colour also sets `ahead` and the border
/// colour also sets `dim`, unless `ahead` is given itself.
pub open spec fn spec_from_config(tc: Option<ThemeConfig>) -> Theme {
    match tc {
        None => spec_default_theme(),
        Some(tc) => {
            let t = spec_default_theme();
            let t = apply(t, configured(tc.accent), |t: Theme, c: ThemeColor| Theme { accent: c, ahead: c, ..t });
            let t = apply(t, configured(tc.border), |t: Theme, c: ThemeColor| Theme { border: c, dim: c, ..t });
            let t = apply(t, configured(tc.clean), |t: Theme, c: ThemeColor| Theme { clean: c, ..t });
            let t = apply(t, configured(tc.dirty), |t: Theme, c: ThemeColor| Theme { dirty: c, ..t });
            let t = apply(t, configured(tc.error), |t: Theme, c: ThemeColor| Theme { error: c, ..t });
            let t = apply(t, configured(tc.ahead), |t: Theme, c: ThemeColor| Theme { ahead: c, ..t });
            let t = apply(t, configured(tc.behind), |t: Theme, c: ThemeColor| Theme { behind: c, ..t });
            let t = apply(t, configured(tc.stale), |t: Theme, c: ThemeColor| Theme { stale: c, ..t });
            apply(t, configured(tc.selected_bg), |t: Theme, c: ThemeColor| Theme { selected_bg: c, ..t })
        },
    }
}

fn parse_entry(o: &Option<String>) -> (r: Option<ThemeColor>)
    requires
        color_entry_ok(*o),
    ensures
        r == configured(*o),
{
    match o {
        Some(v) => parse_color(v.as_str()),
        None => None,
    }
}

/// The theme the preset named `name` has, if one has that name.
pub open spec fn preset_named(name: Seq<char>) -> Option<Theme> {
    if name == preset_name(0) {
        Some(preset_theme(0))
    } else if name == preset_name(1) {
        Some(preset_theme(1))
    } else if name == preset_name(2) {
        Some(preset_theme(2))
    } else if name == preset_name(3) {
        Some(preset_theme(3))
    } else if name == preset_name(4) {
        Some(preset_theme(4))
    } else if name == preset_name(5) {
        Some(preset_theme(5))
    } else if name == preset_name(6) {
        Some(preset_theme(6))
    } else if name == preset_name(7) {
        Some(preset_theme(7))
    } else {
        None
    }
}

/// The theme in use: the settings file's `[theme]` section when it has one,
/// else the cached preset, else the default theme.
pub open spec fn spec_resolve_theme(theme: Option<ThemeConfig>, cached: Option<Seq<char>>) -> Theme {
    if theme is Some {
        spec_from_config(theme)
    } else {
        match cached {
            Some(name) => match preset_named(name) {
                Some(t) => t,
                None => spec_default_theme(),
            },
            None => spec_default_theme(),
        }
    }
}

proof fn lemma_preset_named(name: Seq<char>, i: int)
    requires
        0 <= i < preset_count(),
        name == preset_name(i),
        forall|k: int| 0 <= k < i ==> name != #[trigger] preset_name(k),
    ensures
        preset_named(name) == Some(preset_theme(i)),
{
    assert(i > 0 ==> name != preset_name(0));
    assert(i > 1 ==> name != preset_name(1));
    assert(i > 2 ==> name != preset_name(2));
    assert(i > 3 ==> name != preset_name(3));
    assert(i > 4 ==> name != preset_name(4));
    assert(i > 5 ==> name != preset_name(5));
    assert(i > 6 ==> name != preset_name(6));
}

impl Theme {
    pub fn from_config(tc: Option<&ThemeConfig>) -> (r: Self)
        requires
            tc matches Some(c) ==> theme_config_ok(*c),
        ensures
            r == spec_from_config(
                match tc {
                    Some(c) => Some(*c),
                    None => None,
                },
            ),
    {
        let mut theme = Theme::default();
        let tc = match tc {
            Some(tc) => tc,
            None => {
                return theme;
            },
        };
        if let Some(c) = parse_entry(&tc.accent) {
            theme.accent = c;
            theme.ahead = c;
        }
        if let Some(c) = parse_entry(&tc.border) {
            theme.border = c;
            theme.dim = c;
        }
        if let Some(c) = parse_entry(&tc.clean) {
            theme.clean = c;
        }
        if let Some(c) = parse_entry(&tc.dirty) {
            theme.dirty = c;
        }
        if let Some(c) = parse_entry(&tc.error) {
            theme.error = c;
        }
        if let Some(c) = parse_entry(&tc.ahead) {
            theme.ahead = c;
        }
        if let Some(c) = parse_entry(&tc.behind) {
            theme.behind = c;
        }
        if let Some(c) = parse_entry(&tc.stale) {
            theme.stale = c;
        }
        if let Some(c) = parse_entry(&tc.selected_bg) {
            theme.selected_bg = c;
        }
        theme
    }
}

/// Chooses the theme: the settings file's `[theme]` section, else the
/// preset named by `cached` (the name remembered from the theme picker),
/// else the default theme.
pub fn resolve_theme(config: &Config, cached: Option<String>) -> (r: Theme)
    requires
        config.theme matches Some(c) ==> theme_config_ok(c),
    ensures
        r == spec_resolve_theme(
            config.theme,
            match cached {
                Some(n) => Some(n@),
                None => None,
            },
        ),
{
    if config.theme.is_some() {
        return Theme::from_config(config.theme.as_ref());
    }
    if let Some(name) = cached {
        let wanted = chars_of(name.as_str());
        let presets = Theme::presets();
        let mut i: usize = 0;
        while i < presets.len()
            invariant
                i <= presets@.len(),
                presets@.len() == preset_count(),
                forall|k: int|
                    0 <= k < presets@.len() ==> (#[trigger] presets@[k]).name@ == preset_name(k)
                        && presets@[k].theme == preset_theme(k),
                forall|k: int| 0 <= k < i ==> wanted@ != preset_name(k),
                wanted@ == name@,
                config.theme is None,
                cached matches Some(n) && n@ == name@,
            decreases presets.len() - i,
        {
            if chars_eq(&chars_of(presets[i].name), &wanted) {
                proof {
                    lemma_preset_named(name@, i as int);
                }
                return presets[i].theme;
            }
            i = i + 1;
        }
        proof {
            assert forall|k: int| 0 <= k < preset_count() implies name@ != #[trigger] preset_name(k) by {}
            assert(name@ != preset_name(0) && name@ != preset_name(1) && name@ != preset_name(2)
                && name@ != preset_name(3) && name@ != preset_name(4) && name@ != preset_name(5)
                && name@ != preset_name(6) && name@ != preset_name(7));
        }
    }
    Theme::default()
}

fn entry_parsable(o: &Option<String>) -> (r: bool)
    ensures
        r == color_entry_ok(*o),
{
    match o {
        Some(v) => !color_cuts_char(v.as_str()),
        None => true,
    }
}

/// Whether every colour of the `[theme]` section can be parsed.
pub fn theme_config_parsable(tc: &ThemeConfig) -> (r: bool)
    ensures
        r == theme_config_ok(*tc),
{
    entry_parsable(&tc.accent) && entry_parsable(&tc.border) && entry_parsable(&tc.clean)
        && entry_parsable(&tc.dirty) && entry_parsable(&tc.error) && entry_parsable(&tc.ahead)
        && entry_parsable(&tc.behind) && entry_parsable(&tc.stale) && entry_parsable(&tc.selected_bg)
}

/// Chooses the theme as `resolve_theme` does, when every colour of the
/// `[theme]` section can be parsed; `None` when one cannot.
pub fn checked_resolve_theme(config: &Config, cached: Option<String>) -> (r: Option<Theme>)
    ensures
        r == match config.theme {
            Some(tc) => if theme_config_ok(tc) {
                Some(spec_from_config(Some(tc)))
            } else {
                None
            },
            None => Some(
                spec_resolve_theme(
                    None,
                    match cached {
                        Some(n) => Some(n@),
                        None => None,
                    },
                ),
            ),
        },
{
    let ok = match &config.theme {
        Some(tc) => theme_config_parsable(tc),
        None => true,
    };
    if ok {
        Some(resolve_theme(config, cached))
    } else {
        None
    }
}

/// Theme resolution order: a `[theme]` section wins over a cached preset; a
/// cached preset name gives that preset; otherwise the default theme.
pub proof fn law_theme_resolution_order(theme: Option<ThemeConfig>, i: int)
    requires
        0 <= i < preset_count(),
    ensures
        theme is Some ==> spec_resolve_theme(theme, Some(preset_name(i))) == spec_from_config(theme),
        theme is None ==> spec_resolve_theme(theme, Some(preset_name(i))) == preset_theme(i),
        theme is None ==> spec_resolve_theme(theme, None) == spec_default_theme(),
        spec_from_config(None) == spec_default_theme(),
{
    reveal_strlit("Default");
    reveal_strlit("Dracula");
    reveal_strlit("Nord");
    reveal_strlit("Monokai");
    reveal_strlit("Solarized");
    reveal_strlit("Gruvbox");
    reveal_strlit("Tokyo Night");
    reveal_strlit("Matrix");
    assert forall|k: int| 0 <= k < i implies preset_name(i) != #[trigger] preset_name(k) by {
        if preset_name(i).len() == preset_name(k).len() {
            assert(preset_name(i)[0] != preset_name(k)[0] || preset_name(i)[1] != preset_name(k)[1]);
        }
    }
    lemma_preset_named(preset_name(i), i);
}

/// The colour a `[theme]` entry gives when it is present and parses, else
/// `fallback`.
pub open spec fn entry_or(o: Option<String>, fallback: ThemeColor) -> ThemeColor {
    match o {
        Some(v) => match spec_parse_color(v@) {
            Some(c) => c,
            None => fallback,
        },
        None => fallback,
    }
}

/// Each entry of a `[theme]` section sets its own colour, and an absent or
/// unparsable entry leaves the default theme's colour: `accent`, `border`,
/// `clean`, `dirty`, `error`, `behind`, `stale` and `selected_bg` each set
/// their own field. The ahead colour is the `ahead` entry, else the
/// `accent` entry, else the default; the dim colour follows `border`.
pub proof fn law_theme_entries(tc: ThemeConfig)
    ensures
        spec_from_config(Some(tc)).accent == entry_or(tc.accent, spec_default_theme().accent),
        spec_from_config(Some(tc)).border == entry_or(tc.border, spec_default_theme().border),
        spec_from_config(Some(tc)).clean == entry_or(tc.clean, spec_default_theme().clean),
        spec_from_config(Some(tc)).dirty == entry_or(tc.dirty, spec_default_theme().dirty),
        spec_from_config(Some(tc)).error == entry_or(tc.error, spec_default_theme().error),
        spec_from_config(Some(tc)).ahead == entry_or(
            tc.ahead,
            entry_or(tc.accent, spec_default_theme().ahead),
        ),
        spec_from_config(Some(tc)).behind == entry_or(tc.behind, spec_default_theme().behind),
        spec_from_config(Some(tc)).stale == entry_or(tc.stale, spec_default_theme().stale),
        spec_from_config(Some(tc)).selected_bg == entry_or(
            tc.selected_bg,
            spec_default_theme().selected_bg,
        ),
        spec_from_config(Some(tc)).dim == entry_or(tc.border, spec_default_theme().dim),
{
}

} // verus!
