//! The themes: their colours, and finding one by the name the ini holds.
//! Drawing with them is the caller's.

use vstd::prelude::*;
use crate::text::{chars_of, trim, trim_at};

verus! {

/// A colour as red, green and blue.
#[derive(Clone, Copy, PartialEq, Eq, Debug, Structural)]
pub struct Rgb {
    pub r: u8,
    pub g: u8,
    pub b: u8,
}

pub fn rgb(r: u8, g: u8, b: u8) -> (c: Rgb)
    ensures
        c == (Rgb { r, g, b }),
{
    Rgb { r, g, b }
}

#[derive(Clone, Copy)]
pub struct Palette {
    pub name: &'static str,
    pub dark: bool,
    pub accent: Rgb,
    /// The download speed line. Warm in every theme (it is the one reading
    /// that is measured rather than estimated) but tuned per palette, bright
    /// on the dark ones and deepened on the light ones so it stays legible.
    pub speed: Rgb,
    pub bg: Rgb,
    pub panel: Rgb,
    pub card: Rgb,
    pub card_hover: Rgb,
    pub field: Rgb,
    pub line: Rgb,
    pub text: Rgb,
    pub dim: Rgb,
}

/// How many themes there are.
pub const THEME_COUNT: usize = 10;

/// The themes' names, in the order the picker lists them. The first is the
/// fallback for a name nobody knows.
pub open spec fn theme_name(i: int) -> Seq<char> {
    if i == 0 {
        "Dark"@
    } else if i == 1 {
        "Midnight"@
    } else if i == 2 {
        "Graphite"@
    } else if i == 3 {
        "Light"@
    } else if i == 4 {
        "Paper"@
    } else if i == 5 {
        "Mist"@
    } else if i == 6 {
        "Solar"@
    } else if i == 7 {
        "Rose"@
    } else if i == 8 {
        "Sage"@
    } else {
        "Linen"@
    }
}

/// The first three themes are dark.
pub open spec fn theme_is_dark(i: int) -> bool {
    i < 3
}

/// Every theme, in the order the picker lists them; past the last index,
/// the last.
pub open spec fn spec_theme(i: int) -> Palette {
    if i == 0 {
        Palette {
            name: "Dark",
            dark: true,
            accent: Rgb { r: 88, g: 132, b: 255 },
            speed: Rgb { r: 245, g: 158, b: 32 },
            bg: Rgb { r: 20, g: 22, b: 28 },
            panel: Rgb { r: 26, g: 29, b: 36 },
            card: Rgb { r: 33, g: 37, b: 46 },
            card_hover: Rgb { r: 42, g: 47, b: 58 },
            field: Rgb { r: 16, g: 18, b: 23 },
            line: Rgb { r: 48, g: 53, b: 65 },
            text: Rgb { r: 226, g: 230, b: 238 },
            dim: Rgb { r: 138, g: 146, b: 163 },
        }
    } else if i == 1 {
        Palette {
            name: "Midnight",
            dark: true,
            accent: Rgb { r: 149, g: 117, b: 255 },
            speed: Rgb { r: 255, g: 183, b: 77 },
            bg: Rgb { r: 15, g: 18, b: 34 },
            panel: Rgb { r: 20, g: 24, b: 44 },
            card: Rgb { r: 26, g: 31, b: 54 },
            card_hover: Rgb { r: 35, g: 41, b: 68 },
            field: Rgb { r: 12, g: 15, b: 29 },
            line: Rgb { r: 42, g: 48, b: 78 },
            text: Rgb { r: 223, g: 227, b: 245 },
            dim: Rgb { r: 132, g: 140, b: 175 },
        }
    } else if i == 2 {
        Palette {
            name: "Graphite",
            dark: true,
            accent: Rgb { r: 0, g: 183, b: 163 },
            speed: Rgb { r: 255, g: 145, b: 40 },
            bg: Rgb { r: 26, g: 26, b: 26 },
            panel: Rgb { r: 32, g: 32, b: 32 },
            card: Rgb { r: 40, g: 40, b: 40 },
            card_hover: Rgb { r: 52, g: 52, b: 52 },
            field: Rgb { r: 22, g: 22, b: 22 },
            line: Rgb { r: 58, g: 58, b: 58 },
            text: Rgb { r: 232, g: 230, b: 226 },
            dim: Rgb { r: 150, g: 148, b: 143 },
        }
    } else if i == 3 {
        Palette {
            name: "Light",
            dark: false,
            accent: Rgb { r: 88, g: 132, b: 255 },
            speed: Rgb { r: 205, g: 124, b: 0 },
            bg: Rgb { r: 246, g: 247, b: 250 },
            panel: Rgb { r: 255, g: 255, b: 255 },
            card: Rgb { r: 255, g: 255, b: 255 },
            card_hover: Rgb { r: 238, g: 241, b: 247 },
            field: Rgb { r: 250, g: 251, b: 253 },
            line: Rgb { r: 220, g: 224, b: 232 },
            text: Rgb { r: 28, g: 32, b: 40 },
            dim: Rgb { r: 112, g: 120, b: 136 },
        }
    } else if i == 4 {
        Palette {
            name: "Paper",
            dark: false,
            accent: Rgb { r: 184, g: 100, b: 30 },
            speed: Rgb { r: 191, g: 140, b: 0 },
            bg: Rgb { r: 247, g: 243, b: 233 },
            panel: Rgb { r: 253, g: 250, b: 243 },
            card: Rgb { r: 255, g: 253, b: 247 },
            card_hover: Rgb { r: 240, g: 234, b: 221 },
            field: Rgb { r: 252, g: 249, b: 241 },
            line: Rgb { r: 224, g: 215, b: 197 },
            text: Rgb { r: 45, g: 40, b: 32 },
            dim: Rgb { r: 124, g: 113, b: 96 },
        }
    } else if i == 5 {
        Palette {
            name: "Mist",
            dark: false,
            accent: Rgb { r: 0, g: 133, b: 143 },
            speed: Rgb { r: 214, g: 124, b: 0 },
            bg: Rgb { r: 240, g: 244, b: 248 },
            panel: Rgb { r: 250, g: 252, b: 255 },
            card: Rgb { r: 255, g: 255, b: 255 },
            card_hover: Rgb { r: 231, g: 238, b: 246 },
            field: Rgb { r: 247, g: 250, b: 253 },
            line: Rgb { r: 210, g: 220, b: 232 },
            text: Rgb { r: 27, g: 38, b: 50 },
            dim: Rgb { r: 104, g: 120, b: 138 },
        }
    } else if i == 6 {
        Palette {
            name: "Solar",
            dark: false,
            accent: Rgb { r: 38, g: 139, b: 210 },
            speed: Rgb { r: 181, g: 137, b: 0 },
            bg: Rgb { r: 253, g: 246, b: 227 },
            panel: Rgb { r: 255, g: 251, b: 240 },
            card: Rgb { r: 255, g: 252, b: 242 },
            card_hover: Rgb { r: 238, g: 232, b: 213 },
            field: Rgb { r: 255, g: 253, b: 246 },
            line: Rgb { r: 231, g: 223, b: 201 },
            text: Rgb { r: 24, g: 54, b: 62 },
            dim: Rgb { r: 112, g: 130, b: 136 },
        }
    } else if i == 7 {
        Palette {
            name: "Rose",
            dark: false,
            accent: Rgb { r: 190, g: 24, b: 93 },
            speed: Rgb { r: 198, g: 116, b: 0 },
            bg: Rgb { r: 253, g: 242, b: 245 },
            panel: Rgb { r: 255, g: 250, b: 251 },
            card: Rgb { r: 255, g: 255, b: 255 },
            card_hover: Rgb { r: 250, g: 232, b: 238 },
            field: Rgb { r: 255, g: 252, b: 253 },
            line: Rgb { r: 240, g: 214, b: 222 },
            text: Rgb { r: 60, g: 32, b: 42 },
            dim: Rgb { r: 148, g: 110, b: 124 },
        }
    } else if i == 8 {
        Palette {
            name: "Sage",
            dark: false,
            accent: Rgb { r: 46, g: 125, b: 50 },
            speed: Rgb { r: 200, g: 120, b: 0 },
            bg: Rgb { r: 242, g: 247, b: 242 },
            panel: Rgb { r: 251, g: 254, b: 251 },
            card: Rgb { r: 255, g: 255, b: 255 },
            card_hover: Rgb { r: 231, g: 242, b: 233 },
            field: Rgb { r: 249, g: 252, b: 249 },
            line: Rgb { r: 213, g: 228, b: 215 },
            text: Rgb { r: 30, g: 45, b: 34 },
            dim: Rgb { r: 104, g: 126, b: 110 },
        }
    } else {
        Palette {
            name: "Linen",
            dark: false,
            accent: Rgb { r: 120, g: 92, b: 200 },
            speed: Rgb { r: 190, g: 120, b: 20 },
            bg: Rgb { r: 245, g: 244, b: 240 },
            panel: Rgb { r: 252, g: 252, b: 250 },
            card: Rgb { r: 255, g: 255, b: 255 },
            card_hover: Rgb { r: 237, g: 236, b: 230 },
            field: Rgb { r: 250, g: 250, b: 247 },
            line: Rgb { r: 222, g: 220, b: 212 },
            text: Rgb { r: 38, g: 37, b: 34 },
            dim: Rgb { r: 122, g: 119, b: 111 },
        }
    }
}

/// Theme `i` of the picker's list.
pub fn theme(i: usize) -> (p: Palette)
    requires
        i < THEME_COUNT,
    ensures
        p == spec_theme(i as int),
        p.name@ == theme_name(i as int),
        p.dark == theme_is_dark(i as int),
{
    proof {
        reveal_strlit("Dark");
        reveal_strlit("Midnight");
        reveal_strlit("Graphite");
        reveal_strlit("Light");
        reveal_strlit("Paper");
        reveal_strlit("Mist");
        reveal_strlit("Solar");
        reveal_strlit("Rose");
        reveal_strlit("Sage");
        reveal_strlit("Linen");
    }
    match i {
        0 => Palette {
            name: "Dark",
            dark: true,
            accent: rgb(88, 132, 255),
            speed: rgb(245, 158, 32),
            bg: rgb(20, 22, 28),
            panel: rgb(26, 29, 36),
            card: rgb(33, 37, 46),
            card_hover: rgb(42, 47, 58),
            field: rgb(16, 18, 23),
            line: rgb(48, 53, 65),
            text: rgb(226, 230, 238),
            dim: rgb(138, 146, 163),
        },
        1 => Palette {
            name: "Midnight",
            dark: true,
            accent: rgb(149, 117, 255),
            speed: rgb(255, 183, 77),
            bg: rgb(15, 18, 34),
            panel: rgb(20, 24, 44),
            card: rgb(26, 31, 54),
            card_hover: rgb(35, 41, 68),
            field: rgb(12, 15, 29),
            line: rgb(42, 48, 78),
            text: rgb(223, 227, 245),
            dim: rgb(132, 140, 175),
        },
        2 => Palette {
            name: "Graphite",
            dark: true,
            accent: rgb(0, 183, 163),
            speed: rgb(255, 145, 40),
            bg: rgb(26, 26, 26),
            panel: rgb(32, 32, 32),
            card: rgb(40, 40, 40),
            card_hover: rgb(52, 52, 52),
            field: rgb(22, 22, 22),
            line: rgb(58, 58, 58),
            text: rgb(232, 230, 226),
            dim: rgb(150, 148, 143),
        },
        3 => Palette {
            name: "Light",
            dark: false,
            accent: rgb(88, 132, 255),
            speed: rgb(205, 124, 0),
            bg: rgb(246, 247, 250),
            panel: rgb(255, 255, 255),
            card: rgb(255, 255, 255),
            card_hover: rgb(238, 241, 247),
            field: rgb(250, 251, 253),
            line: rgb(220, 224, 232),
            text: rgb(28, 32, 40),
            dim: rgb(112, 120, 136),
        },
        4 => Palette {
            name: "Paper",
            dark: false,
            accent: rgb(184, 100, 30),
            speed: rgb(191, 140, 0),
            bg: rgb(247, 243, 233),
            panel: rgb(253, 250, 243),
            card: rgb(255, 253, 247),
            card_hover: rgb(240, 234, 221),
            field: rgb(252, 249, 241),
            line: rgb(224, 215, 197),
            text: rgb(45, 40, 32),
            dim: rgb(124, 113, 96),
        },
        5 => Palette {
            name: "Mist",
            dark: false,
            accent: rgb(0, 133, 143),
            speed: rgb(214, 124, 0),
            bg: rgb(240, 244, 248),
            panel: rgb(250, 252, 255),
            card: rgb(255, 255, 255),
            card_hover: rgb(231, 238, 246),
            field: rgb(247, 250, 253),
            line: rgb(210, 220, 232),
            text: rgb(27, 38, 50),
            dim: rgb(104, 120, 138),
        },
        6 => Palette {
            name: "Solar",
            dark: false,
            accent: rgb(38, 139, 210),
            speed: rgb(181, 137, 0),
            bg: rgb(253, 246, 227),
            panel: rgb(255, 251, 240),
            card: rgb(255, 252, 242),
            card_hover: rgb(238, 232, 213),
            field: rgb(255, 253, 246),
            line: rgb(231, 223, 201),
            text: rgb(24, 54, 62),
            dim: rgb(112, 130, 136),
        },
        7 => Palette {
            name: "Rose",
            dark: false,
            accent: rgb(190, 24, 93),
            speed: rgb(198, 116, 0),
            bg: rgb(253, 242, 245),
            panel: rgb(255, 250, 251),
            card: rgb(255, 255, 255),
            card_hover: rgb(250, 232, 238),
            field: rgb(255, 252, 253),
            line: rgb(240, 214, 222),
            text: rgb(60, 32, 42),
            dim: rgb(148, 110, 124),
        },
        8 => Palette {
            name: "Sage",
            dark: false,
            accent: rgb(46, 125, 50),
            speed: rgb(200, 120, 0),
            bg: rgb(242, 247, 242),
            panel: rgb(251, 254, 251),
            card: rgb(255, 255, 255),
            card_hover: rgb(231, 242, 233),
            field: rgb(249, 252, 249),
            line: rgb(213, 228, 215),
            text: rgb(30, 45, 34),
            dim: rgb(104, 126, 110),
        },
        _ => Palette {
            name: "Linen",
            dark: false,
            accent: rgb(120, 92, 200),
            speed: rgb(190, 120, 20),
            bg: rgb(245, 244, 240),
            panel: rgb(252, 252, 250),
            card: rgb(255, 255, 255),
            card_hover: rgb(237, 236, 230),
            field: rgb(250, 250, 247),
            line: rgb(222, 220, 212),
            text: rgb(38, 37, 34),
            dim: rgb(122, 119, 111),
        },
    }
}

/// `c.to_ascii_lowercase()`.
pub open spec fn ascii_lower(c: char) -> char {
    if 'A' <= c <= 'Z' {
        ((c as u32) + 32) as char
    } else {
        c
    }
}

/// `a.eq_ignore_ascii_case(b)`.
pub open spec fn eq_ignore_ascii_case(a: Seq<char>, b: Seq<char>) -> bool {
    a.len() == b.len() && forall|i: int| 0 <= i < a.len() ==> ascii_lower(a[i]) == ascii_lower(b[i])
}

pub fn to_ascii_lowercase(c: char) -> (r: char)
    ensures
        r == ascii_lower(c),
{
    if 'A' <= c && c <= 'Z' {
        ((c as u32) + 32) as u8 as char
    } else {
        c
    }
}

pub fn eq_ignore_ascii_case_at(a: &Vec<char>, lo: usize, hi: usize, b: &Vec<char>) -> (r: bool)
    requires
        lo <= hi <= a@.len(),
    ensures
        r == eq_ignore_ascii_case(a@.subrange(lo as int, hi as int), b@),
{
    if hi - lo != b.len() {
        return false;
    }
    let mut i: usize = 0;
    while i < b.len()
        invariant
            hi - lo == b@.len(),
            lo <= hi <= a@.len(),
            i <= b@.len(),
            forall|j: int| 0 <= j < i ==> ascii_lower(a@[lo + j]) == ascii_lower(b@[j]),
        decreases b@.len() - i,
    {
        if to_ascii_lowercase(a[lo + i]) != to_ascii_lowercase(b[i]) {
            return false;
        }
        i = i + 1;
    }
    true
}

/// The first theme whose name matches `name`, trimmed, ignoring ASCII case;
/// the first theme when none does.
pub open spec fn theme_index_from(name: Seq<char>, i: int) -> int
    decreases 10 - i,
{
    if i >= 10 {
        0
    } else if eq_ignore_ascii_case(theme_name(i), trim(name)) {
        i
    } else {
        theme_index_from(name, i + 1)
    }
}

pub open spec fn theme_index(name: Seq<char>) -> int {
    theme_index_from(name, 0)
}

impl Palette {
    /// By name, case-insensitively: an old ini says `dark` or `light`, and the
    /// picker writes `Dark` or `Light`. Anything unrecognised gets the first.
    pub fn get(name: &str) -> (p: Palette)
        ensures
            p == spec_theme(theme_index(name@)),
            p.name@ == theme_name(theme_index(name@)),
            p.dark == theme_is_dark(theme_index(name@)),
    {
        let v = chars_of(name);
        assert(v@.subrange(0, v@.len() as int) =~= v@);
        let (a, b) = trim_at(&v, 0, v.len());
        let mut i: usize = 0;
        while i < THEME_COUNT
            invariant
                i <= 10,
                trim(name@) == v@.subrange(a as int, b as int),
                a <= b <= v@.len(),
                theme_index(name@) == theme_index_from(name@, i as int),
            decreases 10 - i,
        {
            let t = theme(i);
            let n = chars_of(t.name);
            if eq_ignore_ascii_case_at(&v, a, b, &n) {
                proof {
                    lemma_eq_ignore_ascii_case_symmetric(v@.subrange(a as int, b as int), n@);
                }
                return t;
            }
            proof {
                lemma_eq_ignore_ascii_case_symmetric(n@, v@.subrange(a as int, b as int));
            }
            i = i + 1;
        }
        theme(0)
    }
}

pub proof fn lemma_eq_ignore_ascii_case_symmetric(a: Seq<char>, b: Seq<char>)
    ensures
        eq_ignore_ascii_case(a, b) == eq_ignore_ascii_case(b, a),
{
}

/// A click on theme `i` in the picker: its name, unless it is the theme
/// already in use.
pub fn pick(current: &Palette, i: usize) -> (r: Option<&'static str>)
    requires
        i < THEME_COUNT,
    ensures
        match r {
            Some(n) => n@ == theme_name(i as int) && n@ != current.name@,
            None => theme_name(i as int) == current.name@,
        },
{
    let t = theme(i);
    let a = String::from_str(t.name);
    let b = String::from_str(current.name);
    if a == b {
        None
    } else {
        Some(t.name)
    }
}

/// The three window controls of the app's own title bar.
#[derive(Clone, Copy, PartialEq, Eq, Debug, Structural)]
pub enum WinButton {
    Minimize,
    Maximize,
    Restore,
    Close,
}

impl WinButton {
    /// The middle control: Restore on a maximised window, Maximize otherwise.
    pub fn resize_for(maximized: bool) -> (b: WinButton)
        ensures
            b == if maximized {
                WinButton::Restore
            } else {
                WinButton::Maximize
            },
    {
        if maximized {
            WinButton::Restore
        } else {
            WinButton::Maximize
        }
    }

    pub fn hover_text(self) -> (r: &'static str)
        ensures
            r@ == match self {
                WinButton::Minimize => "Minimize"@,
                WinButton::Maximize => "Maximize"@,
                WinButton::Restore => "Restore"@,
                WinButton::Close => "Close"@,
            },
    {
        match self {
            WinButton::Minimize => "Minimize",
            WinButton::Maximize => "Maximize",
            WinButton::Restore => "Restore",
            WinButton::Close => "Close",
        }
    }

    /// Glyph colour, and the fill behind it when hovered: Close turns white
    /// on red, the others take the theme's hover fill.
    pub fn colors(self, hovered: bool, p: &Palette) -> (r: (Rgb, Option<Rgb>))
        ensures
            r.0 == if hovered && self == WinButton::Close {
                rgb_white()
            } else {
                p.text
            },
            r.1 == if !hovered {
                None
            } else if self == WinButton::Close {
                Some(close_red())
            } else {
                Some(p.card_hover)
            },
    {
        let close = match self {
            WinButton::Close => true,
            _ => false,
        };
        let fg = if hovered && close {
            Rgb { r: 255, g: 255, b: 255 }
        } else {
            p.text
        };
        let bg = if !hovered {
            None
        } else if close {
            Some(Rgb { r: 232, g: 17, b: 35 })
        } else {
            Some(p.card_hover)
        };
        (fg, bg)
    }
}

pub open spec fn rgb_white() -> Rgb {
    Rgb { r: 255, g: 255, b: 255 }
}

/// Windows' own close-button red.
pub open spec fn close_red() -> Rgb {
    Rgb { r: 232, g: 17, b: 35 }
}

// ---------------------------------------------------------------------------
// The app's icon
// ---------------------------------------------------------------------------

/// What decoding an image file and converting it to 8-bit RGBA gives: the
/// pixels row by row, four bytes each, and the width and height; None when the
/// bytes are not an image this build reads.
pub uninterp spec fn decoded_rgba(bytes: Seq<u8>) -> Option<(Seq<u8>, u32, u32)>;

/// `image::load_from_memory`, then `DynamicImage::into_rgba8`: the decoded
/// pixels and the dimensions, the error dropped. How an image decodes is left
/// to the name `decoded_rgba`.
#[verifier::external_body]
fn decode_rgba(bytes: &[u8]) -> (r: Option<(Vec<u8>, u32, u32)>)
    ensures
        match r {
            Some((px, w, h)) => decoded_rgba(bytes@) == Some((px@, w, h)),
            None => decoded_rgba(bytes@) is None,
        },
{
    let image = image::load_from_memory(bytes).ok()?.into_rgba8();
    let (w, h) = image.dimensions();
    Some((image.into_raw(), w, h))
}

/// An icon as the window takes it.
pub struct Icon {
    pub rgba: Vec<u8>,
    pub width: u32,
    pub height: u32,
}

/// The app's icon, from the bytes of its image file.
pub fn icon(bytes: &[u8]) -> (r: Option<Icon>)
    ensures
        match r {
            Some(i) => decoded_rgba(bytes@) == Some((i.rgba@, i.width, i.height)),
            None => decoded_rgba(bytes@) is None,
        },
{
    match decode_rgba(bytes) {
        Some((rgba, width, height)) => Some(Icon { rgba, width, height }),
        None => None,
    }
}

} // verus!
