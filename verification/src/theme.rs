//! Colours and the palette system.
use vstd::prelude::*;

verus! {

/// An RGB565 colour, held as its three channels (5, 6 and 5 bits).
#[derive(Clone, Copy, Debug, PartialEq, Eq, Structural)]
pub struct Color565 {
    pub r: u8,
    pub g: u8,
    pub b: u8,
}

impl Color565 {
    /// Each channel fits its 5/6/5-bit field.
    pub open spec fn wf(self) -> bool {
        self.r < 32 && self.g < 64 && self.b < 32
    }
}

/// The RGB565 colour for 8-bit-per-channel `(r, g, b)`: each channel keeps
/// its high bits.
pub open spec fn spec_rgb(r: u8, g: u8, b: u8) -> Color565 {
    Color565 { r: r >> 3, g: g >> 2, b: b >> 3 }
}

/// Build a colour from 8-bit-per-channel hex, truncated to 5/6/5 bits.
pub fn rgb(r: u8, g: u8, b: u8) -> (c: Color565)
    ensures
        c == spec_rgb(r, g, b),
        c.wf(),
{
    assert((r >> 3) < 32u8) by (bit_vector);
    assert((g >> 2) < 64u8) by (bit_vector);
    assert((b >> 3) < 32u8) by (bit_vector);
    Color565 { r: r >> 3, g: g >> 2, b: b >> 3 }
}

/// A palette: the colours that fully define a theme's look, named by their
/// role so light and dark themes map the same way.
#[derive(Clone, Copy, Debug)]
pub struct Theme {
    /// Page background.
    pub bg: Color565,
    /// Header / footer bar fill, and the selected-row highlight bar.
    pub surface: Color565,
    /// Text drawn on top of `surface` (header titles, selected row).
    pub on_surface: Color565,
    /// Primary body text on `bg`.
    pub text: Color565,
    /// Secondary / structural text on `bg`.
    pub dim: Color565,
    /// 1px dividers, slider tracks, input frames, inactive icons.
    pub divider: Color565,
    /// Focus rail, active highlights, caret, active icon, chip fill.
    pub accent: Color565,
    /// Text drawn on top of an `accent` fill (focused chip).
    pub on_accent: Color565,
    /// Errors / alerts.
    pub warn: Color565,
    /// Display name (shown in the Settings "Theme" row).
    pub name: &'static str,
}

/// The palette of a theme, listed role by role:
/// bg, surface, on_surface, text, dim, divider, accent, on_accent, warn.
pub open spec fn palette(t: Theme) -> Seq<Color565> {
    seq![t.bg, t.surface, t.on_surface, t.text, t.dim, t.divider, t.accent, t.on_accent, t.warn]
}

/// Retro green-phosphor terminal: the default theme.
pub open spec fn is_phosphor(t: Theme) -> bool {
    &&& palette(t) == seq![
        spec_rgb(0x0A, 0x14, 0x0A), spec_rgb(0x0F, 0x3D, 0x1E), spec_rgb(0xAF, 0xFF, 0xC0),
        spec_rgb(0x33, 0xFF, 0x66), spec_rgb(0x1F, 0x8A, 0x3A), spec_rgb(0x16, 0x52, 0x2A),
        spec_rgb(0xAF, 0xFF, 0xC0), spec_rgb(0x0A, 0x14, 0x0A), spec_rgb(0xFF, 0xB0, 0x00),
    ]
    &&& t.name@ == "Phosphor"@
}

/// Clean modern dark: off-black surfaces, off-white text, cyan accent.
pub open spec fn is_modern_dark(t: Theme) -> bool {
    &&& palette(t) == seq![
        spec_rgb(0x12, 0x12, 0x12), spec_rgb(0x24, 0x24, 0x24), spec_rgb(0xE6, 0xE6, 0xE6),
        spec_rgb(0xE6, 0xE6, 0xE6), spec_rgb(0x9A, 0xA0, 0xA6), spec_rgb(0x3A, 0x3A, 0x3A),
        spec_rgb(0x4D, 0xD0, 0xE1), spec_rgb(0x12, 0x12, 0x12), spec_rgb(0xFF, 0x6B, 0x6B),
    ]
    &&& t.name@ == "Modern Dark"@
}

/// Game Boy duotone: light background, dark text.
pub open spec fn is_game_boy(t: Theme) -> bool {
    &&& palette(t) == seq![
        spec_rgb(0x9B, 0xBC, 0x0F), spec_rgb(0x30, 0x62, 0x30), spec_rgb(0x9B, 0xBC, 0x0F),
        spec_rgb(0x0F, 0x38, 0x0F), spec_rgb(0x30, 0x62, 0x30), spec_rgb(0x30, 0x62, 0x30),
        spec_rgb(0x0F, 0x38, 0x0F), spec_rgb(0x9B, 0xBC, 0x0F), spec_rgb(0xC2, 0x60, 0x3A),
    ]
    &&& t.name@ == "Game Boy"@
}

impl Theme {
    /// Every colour of the palette fits RGB565.
    pub open spec fn wf(self) -> bool {
        forall|i: int| 0 <= i < palette(self).len() ==> (#[trigger] palette(self)[i]).wf()
    }

    /// Retro green-phosphor terminal (default). Near-monochrome, very legible.
    pub fn phosphor() -> (t: Theme)
        ensures is_phosphor(t), t.wf(),
    {
        Theme {
            bg: rgb(0x0A, 0x14, 0x0A),
            surface: rgb(0x0F, 0x3D, 0x1E),
            on_surface: rgb(0xAF, 0xFF, 0xC0),
            text: rgb(0x33, 0xFF, 0x66),
            dim: rgb(0x1F, 0x8A, 0x3A),
            divider: rgb(0x16, 0x52, 0x2A),
            accent: rgb(0xAF, 0xFF, 0xC0),
            on_accent: rgb(0x0A, 0x14, 0x0A),
            warn: rgb(0xFF, 0xB0, 0x00),
            name: "Phosphor",
        }
    }

    /// Clean modern dark theme: off-black surfaces, off-white text, cyan accent.
    pub fn modern_dark() -> (t: Theme)
        ensures is_modern_dark(t), t.wf(),
    {
        Theme {
            bg: rgb(0x12, 0x12, 0x12),
            surface: rgb(0x24, 0x24, 0x24),
            on_surface: rgb(0xE6, 0xE6, 0xE6),
            text: rgb(0xE6, 0xE6, 0xE6),
            dim: rgb(0x9A, 0xA0, 0xA6),
            divider: rgb(0x3A, 0x3A, 0x3A),
            accent: rgb(0x4D, 0xD0, 0xE1),
            on_accent: rgb(0x12, 0x12, 0x12),
            warn: rgb(0xFF, 0x6B, 0x6B),
            name: "Modern Dark",
        }
    }

    /// Playful Game Boy duotone (light background, dark text).
    pub fn game_boy() -> (t: Theme)
        ensures is_game_boy(t), t.wf(),
    {
        Theme {
            bg: rgb(0x9B, 0xBC, 0x0F),
            surface: rgb(0x30, 0x62, 0x30),
            on_surface: rgb(0x9B, 0xBC, 0x0F),
            text: rgb(0x0F, 0x38, 0x0F),
            dim: rgb(0x30, 0x62, 0x30),
            divider: rgb(0x30, 0x62, 0x30),
            accent: rgb(0x0F, 0x38, 0x0F),
            on_accent: rgb(0x9B, 0xBC, 0x0F),
            warn: rgb(0xC2, 0x60, 0x3A),
            name: "Game Boy",
        }
    }

    /// All selectable themes, in the order they cycle in Settings. Index 0 is
    /// the default.
    pub fn all() -> (v: Vec<Theme>)
        ensures
            v@.len() == 3,
            is_phosphor(v@[0]),
            is_modern_dark(v@[1]),
            is_game_boy(v@[2]),
            forall|i: int| 0 <= i < 3 ==> (#[trigger] v@[i]).wf(),
    {
        let mut v: Vec<Theme> = Vec::new();
        v.push(Theme::phosphor());
        v.push(Theme::modern_dark());
        v.push(Theme::game_boy());
        v
    }
}

/// Every foreground role stands out from what it is drawn on: body text,
/// secondary text, dividers, the accent and alerts from the background;
/// body text also from the surface, the dim text and the dividers; text on
/// the surface bar from the bar; text on an accent chip from the chip.
pub open spec fn legible(t: Theme) -> bool {
    &&& t.text != t.bg
    &&& t.text != t.surface
    &&& t.text != t.dim
    &&& t.text != t.divider
    &&& t.dim != t.bg
    &&& t.divider != t.bg
    &&& t.accent != t.bg
    &&& t.warn != t.bg
    &&& t.on_surface != t.surface
    &&& t.on_accent != t.accent
}

/// Shifting right keeps the high bits: a division by a power of two.
proof fn lemma_shifts()
    by (bit_vector)
    ensures
        forall|x: u8| #[trigger] (x >> 3u8) == x / 8,
        forall|x: u8| #[trigger] (x >> 2u8) == x / 4,
{
}

/// Every shipped theme is legible: no text is drawn in the colour of what
/// lies under it.
pub proof fn lemma_shipped_themes_legible(t: Theme)
    requires is_phosphor(t) || is_modern_dark(t) || is_game_boy(t),
    ensures legible(t),
{
    lemma_shifts();
    let p = palette(t);
    assert(p[0] == t.bg && p[1] == t.surface && p[2] == t.on_surface && p[3] == t.text);
    assert(p[4] == t.dim && p[5] == t.divider && p[6] == t.accent && p[7] == t.on_accent);
    assert(p[8] == t.warn);
    if is_phosphor(t) {
        assert(spec_rgb(0x0A, 0x14, 0x0A) == Color565 { r: 1, g: 5, b: 1 });
        assert(spec_rgb(0x0F, 0x3D, 0x1E) == Color565 { r: 1, g: 15, b: 3 });
        assert(spec_rgb(0xAF, 0xFF, 0xC0) == Color565 { r: 21, g: 63, b: 24 });
        assert(spec_rgb(0x33, 0xFF, 0x66) == Color565 { r: 6, g: 63, b: 12 });
        assert(spec_rgb(0x1F, 0x8A, 0x3A) == Color565 { r: 3, g: 34, b: 7 });
        assert(spec_rgb(0x16, 0x52, 0x2A) == Color565 { r: 2, g: 20, b: 5 });
        assert(spec_rgb(0xFF, 0xB0, 0x00) == Color565 { r: 31, g: 44, b: 0 });
    } else if is_modern_dark(t) {
        assert(spec_rgb(0x12, 0x12, 0x12) == Color565 { r: 2, g: 4, b: 2 });
        assert(spec_rgb(0x24, 0x24, 0x24) == Color565 { r: 4, g: 9, b: 4 });
        assert(spec_rgb(0xE6, 0xE6, 0xE6) == Color565 { r: 28, g: 57, b: 28 });
        assert(spec_rgb(0x9A, 0xA0, 0xA6) == Color565 { r: 19, g: 40, b: 20 });
        assert(spec_rgb(0x3A, 0x3A, 0x3A) == Color565 { r: 7, g: 14, b: 7 });
        assert(spec_rgb(0x4D, 0xD0, 0xE1) == Color565 { r: 9, g: 52, b: 28 });
        assert(spec_rgb(0xFF, 0x6B, 0x6B) == Color565 { r: 31, g: 26, b: 13 });
    } else {
        assert(spec_rgb(0x9B, 0xBC, 0x0F) == Color565 { r: 19, g: 47, b: 1 });
        assert(spec_rgb(0x30, 0x62, 0x30) == Color565 { r: 6, g: 24, b: 6 });
        assert(spec_rgb(0x0F, 0x38, 0x0F) == Color565 { r: 1, g: 14, b: 1 });
        assert(spec_rgb(0xC2, 0x60, 0x3A) == Color565 { r: 24, g: 24, b: 7 });
    }
}

} // verus!
