//! Screens, computed as display lists.
//!
//! Colours come from a [`Theme`] passed into every call, so the whole UI
//! restyles by swapping the palette.
use vstd::prelude::*;
use crate::canvas::{Cmd, DisplayList, DrawOp, Font, fill_cmd, text_cmd};
use crate::layout::{WIDTH, STATUS_TOP, DRAFT_TOP, FOOTER_DIV, FOOTER_TOP};
use crate::text::chars_of;
use crate::theme::{Color565, Theme};

pub mod compose;
pub mod reply;
pub mod menu;
pub mod restyle;

verus! {

/// Computes every screen of the terminal.
pub struct Ui;

/// Faux-bold text: the same text twice, 1px apart.
pub open spec fn bold_cmds(s: Seq<char>, x: int, y: int, color: Color565) -> Seq<Cmd> {
    seq![text_cmd(s, x, y, color), text_cmd(s, x + 1, y, color)]
}

/// A full-width 1px line.
pub open spec fn hline_cmd(y: int, color: Color565) -> Cmd {
    fill_cmd(0, y, WIDTH as int, 1, color)
}

/// The wifi logo: four ascending 2px bars, 3px apart, heights 3, 5, 7, 9,
/// standing on y = 11, the rightmost ending at `right_x`.
pub open spec fn wifi_cmds(right_x: int, color: Color565) -> Seq<Cmd> {
    Seq::new(4, |i: int| fill_cmd(right_x - 11 + 3 * i, 11 - (3 + 2 * i), 2, 3 + 2 * i, color))
}

/// Header bar: surface fill, a bold title, the wifi logo, and the divider.
pub open spec fn header_bar_cmds(theme: Theme, title: Seq<char>) -> Seq<Cmd> {
    seq![fill_cmd(0, 0, WIDTH as int, DRAFT_TOP - 1, theme.surface)]
        + bold_cmds(title, 3, STATUS_TOP + 2, theme.on_surface)
        + wifi_cmds(WIDTH - 3int, theme.on_surface)
        + seq![hline_cmd(DRAFT_TOP - 1int, theme.divider)]
}

/// Footer hint bar: a divider, then dim button-legend text.
pub open spec fn footer_cmds(theme: Theme, hint: Seq<char>) -> Seq<Cmd> {
    seq![hline_cmd(FOOTER_DIV as int, theme.divider), text_cmd(hint, 3, FOOTER_TOP + 2, theme.dim)]
}

/// `a / 2` rounded toward zero, as `i32` division does.
pub open spec fn half(a: int) -> int {
    if a >= 0 { a / 2 } else { -((-a) / 2) }
}

/// The boot/connection splash: a big centred title and a dim subtitle.
pub open spec fn splash_cmds(theme: Theme, title: Seq<char>, subtitle: Seq<char>) -> Seq<Cmd> {
    seq![
        Cmd::Clear { color: theme.bg },
        Cmd::Text { x: half(WIDTH - 10 * title.len()), y: 38, text: title, font: Font::Large, color: theme.accent, background: None },
        text_cmd(subtitle, half(WIDTH - 6 * subtitle.len()), 72, theme.dim),
    ]
}

impl Ui {
    /// Clear the whole screen to the theme background.
    pub fn clear(target: &mut DisplayList, theme: &Theme)
        ensures final(target)@ == old(target)@.push(Cmd::Clear { color: theme.bg }),
    {
        target.push(DrawOp::Clear { color: theme.bg });
    }

    // -- small primitives -------------------------------------------------

    fn text_chars(target: &mut DisplayList, s: Vec<char>, x: i32, y: i32, color: Color565)
        ensures final(target)@ == old(target)@.push(text_cmd(s@, x as int, y as int, color)),
    {
        target.push(DrawOp::Text { x, y, text: s, font: Font::Small, color, background: None });
    }

    fn text(target: &mut DisplayList, s: &str, x: i32, y: i32, color: Color565)
        ensures final(target)@ == old(target)@.push(text_cmd(s@, x as int, y as int, color)),
    {
        Self::text_chars(target, chars_of(s), x, y, color);
    }

    /// Faux-bold (draw twice, offset 1px) for headers: hierarchy without a
    /// second body font.
    fn text_bold(target: &mut DisplayList, s: Vec<char>, x: i32, y: i32, color: Color565)
        requires x < i32::MAX,
        ensures final(target)@ == old(target)@ + bold_cmds(s@, x as int, y as int, color),
    {
        let again = s.clone();
        Self::text_chars(target, s, x, y, color);
        Self::text_chars(target, again, x + 1, y, color);
        proof { assert(target@ =~= old(target)@ + bold_cmds(s@, x as int, y as int, color)); }
    }

    fn fill(target: &mut DisplayList, x: i32, y: i32, w: u32, h: u32, color: Color565)
        ensures final(target)@ == old(target)@.push(fill_cmd(x as int, y as int, w as int, h as int, color)),
    {
        target.push(DrawOp::Fill { x, y, w, h, color });
    }

    fn hline(target: &mut DisplayList, y: i32, color: Color565)
        ensures final(target)@ == old(target)@.push(hline_cmd(y as int, color)),
    {
        Self::fill(target, 0, y, WIDTH, 1, color)
    }

    /// A small "wifi" logo (4 ascending bars), right-aligned so its rightmost
    /// bar ends at `right_x`. A connectivity indicator, not a signal meter.
    fn wifi_icon(target: &mut DisplayList, right_x: i32, color: Color565)
        requires 11 <= right_x <= WIDTH,
        ensures final(target)@ == old(target)@ + wifi_cmds(right_x as int, color),
    {
        let heights: [i32; 4] = [3, 5, 7, 9];
        let base_x = right_x - 11;
        let mut i: usize = 0;
        while i < 4
            invariant
                i <= 4,
                base_x == right_x - 11,
                heights@ == seq![3i32, 5, 7, 9],
                target@ == old(target)@ + wifi_cmds(right_x as int, color).take(i as int),
            decreases 4 - i,
        {
            let h = heights[i];
            let x = base_x + i as i32 * 3;
            Self::fill(target, x, 11 - h, 2, h as u32, color);
            proof {
                assert(wifi_cmds(right_x as int, color).take(i + 1)
                    =~= wifi_cmds(right_x as int, color).take(i as int).push(wifi_cmds(right_x as int, color)[i as int]));
            }
            i = i + 1;
        }
        proof { assert(wifi_cmds(right_x as int, color).take(4) =~= wifi_cmds(right_x as int, color)); }
    }

    /// Header bar: surface fill, a bold title, the wifi logo, and the divider.
    fn header_bar(target: &mut DisplayList, theme: &Theme, title: &str)
        ensures final(target)@ == old(target)@ + header_bar_cmds(*theme, title@),
    {
        Self::fill(target, 0, 0, WIDTH, DRAFT_TOP as u32 - 1, theme.surface);
        Self::text_bold(target, chars_of(title), 3, STATUS_TOP + 2, theme.on_surface);
        Self::wifi_icon(target, WIDTH as i32 - 3, theme.on_surface);
        Self::hline(target, DRAFT_TOP - 1, theme.divider);
        proof { assert(target@ =~= old(target)@ + header_bar_cmds(*theme, title@)); }
    }

    /// Footer hint bar: a divider then dim button-legend text.
    fn footer_hints(target: &mut DisplayList, theme: &Theme, hint: &str)
        ensures final(target)@ == old(target)@ + footer_cmds(*theme, hint@),
    {
        Self::hline(target, FOOTER_DIV, theme.divider);
        Self::text(target, hint, 3, FOOTER_TOP + 2, theme.dim);
        proof { assert(target@ =~= old(target)@ + footer_cmds(*theme, hint@)); }
    }

    /// A boot/connection splash: a big centred title plus a dim subtitle, in
    /// the larger 10x20 font for the title. Every character is one glyph
    /// cell, so each line is centred by its character count.
    pub fn splash(target: &mut DisplayList, theme: &Theme, title: &str, subtitle: &str)
        requires
            10 * title@.len() <= i32::MAX,
            6 * subtitle@.len() <= i32::MAX,
        ensures final(target)@ == old(target)@ + splash_cmds(*theme, title@, subtitle@),
    {
        Self::clear(target, theme);
        let big = chars_of(title);
        let tw = big.len() as i32 * 10;
        target.push(DrawOp::Text {
            x: (WIDTH as i32 - tw) / 2,
            y: 38,
            text: big,
            font: Font::Large,
            color: theme.accent,
            background: None,
        });
        let small = chars_of(subtitle);
        let sw = small.len() as i32 * 6;
        Self::text_chars(target, small, (WIDTH as i32 - sw) / 2, 72, theme.dim);
        proof { assert(target@ =~= old(target)@ + splash_cmds(*theme, title@, subtitle@)); }
    }
}

} // verus!
