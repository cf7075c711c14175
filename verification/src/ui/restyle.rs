//! Swapping the theme only recolours a screen. For every screen: a colour
//! map that takes each colour role of one theme to the same role of another
//! turns the screen drawn in the first theme into the screen drawn in the
//! second. So every screen draws the same steps, at the same places, with
//! the same text, whatever the palette; each colour it draws is picked by its
//! role, and it draws with no colour but those roles.
use vstd::prelude::*;
use crate::canvas::{Cmd, shapes, recolour, recolours, lemma_recolours_concat, lemma_shapes_recolour, no_colour, fill_cmd, text_cmd};
use crate::keyboard::KeyboardView;
use crate::theme::{Color565, Theme};
use crate::ui::{header_bar_cmds, footer_cmds, splash_cmds};
use crate::ui::compose::{
    Pen, Strip, pen_run, strip_run, render_cmds, status_cmds, draft_cmds, guide_cmds,
    letter_cross_cmds, compose_guide_cmds, action_layer_cmds, cells, words, draft_start, resume,
};
use crate::ui::reply::{response_cmds, stream_cmds, scrolled_cmds, rows_cmds, scrollbar_cmds};
use crate::ui::menu::{menu_cmds, menu_rows, swatch_for};

verus! {

/// `f` takes every colour role of `from` to the same role of `to`.
pub open spec fn maps_roles(f: spec_fn(Color565) -> Color565, from: Theme, to: Theme) -> bool {
    &&& f(from.bg) == to.bg
    &&& f(from.surface) == to.surface
    &&& f(from.on_surface) == to.on_surface
    &&& f(from.text) == to.text
    &&& f(from.dim) == to.dim
    &&& f(from.divider) == to.divider
    &&& f(from.accent) == to.accent
    &&& f(from.on_accent) == to.on_accent
    &&& f(from.warn) == to.warn
}

/// `f` takes the roles of the header bar (surface, on_surface, divider) of
/// `from` to the same roles of `to`.
pub open spec fn maps_bar_roles(f: spec_fn(Color565) -> Color565, from: Theme, to: Theme) -> bool {
    &&& f(from.surface) == to.surface
    &&& f(from.on_surface) == to.on_surface
    &&& f(from.divider) == to.divider
}

/// The colour map that swaps each role of `from` for the same role of `to`,
/// and keeps a colour that is no role of `from`.
pub open spec fn swap_palette(from: Theme, to: Theme) -> spec_fn(Color565) -> Color565 {
    |c: Color565|
        if c == from.bg { to.bg }
        else if c == from.surface { to.surface }
        else if c == from.on_surface { to.on_surface }
        else if c == from.text { to.text }
        else if c == from.dim { to.dim }
        else if c == from.divider { to.divider }
        else if c == from.accent { to.accent }
        else if c == from.on_accent { to.on_accent }
        else if c == from.warn { to.warn }
        else { c }
}

/// No two roles of `t` share a colour.
pub open spec fn distinct_roles(t: Theme) -> bool {
    forall|i: int, j: int| 0 <= i < j < 9 ==> #[trigger] crate::theme::palette(t)[i] != #[trigger] crate::theme::palette(t)[j]
}

/// When no two roles of `from` share a colour, swapping the palette takes
/// every role of `from` to the same role of `to`.
pub proof fn lemma_swap_palette_maps_roles(from: Theme, to: Theme)
    requires distinct_roles(from),
    ensures maps_roles(swap_palette(from, to), from, to),
{
    let p = crate::theme::palette(from);
    assert(p[0] == from.bg && p[1] == from.surface && p[2] == from.on_surface && p[3] == from.text);
    assert(p[4] == from.dim && p[5] == from.divider && p[6] == from.accent && p[7] == from.on_accent);
    assert(p[8] == from.warn);
}

/// The swatches with their colours passed through `f`.
pub open spec fn recolour_swatches(swatches: Seq<(usize, Color565)>, f: spec_fn(Color565) -> Color565) -> Seq<(usize, Color565)> {
    swatches.map_values(|s: (usize, Color565)| (s.0, f(s.1)))
}

/// The theme with every role blank: what a screen draws when its colours
/// are left out.
pub open spec fn blank_theme() -> Theme {
    let z = Color565 { r: 0, g: 0, b: 0 };
    Theme { bg: z, surface: z, on_surface: z, text: z, dim: z, divider: z, accent: z, on_accent: z, warn: z, name: "" }
}

proof fn lemma_blank_maps_roles(t: Theme)
    ensures maps_roles(no_colour(), t, blank_theme()),
{
}

proof fn lemma_recolours_push(a: Seq<Cmd>, c: Cmd, f: spec_fn(Color565) -> Color565)
    ensures recolours(a.push(c), f) == recolours(a, f).push(recolour(c, f)),
{
    assert(recolours(a.push(c), f) =~= recolours(a, f).push(recolour(c, f)));
}

/// Lists of lists that recolour one into the other flatten to lists that
/// recolour one into the other.
proof fn lemma_recolours_flatten(a: Seq<Seq<Cmd>>, b: Seq<Seq<Cmd>>, f: spec_fn(Color565) -> Color565)
    requires
        a.len() == b.len(),
        forall|k: int| 0 <= k < a.len() ==> recolours(#[trigger] a[k], f) == b[k],
    ensures recolours(a.flatten(), f) == b.flatten(),
    decreases a.len(),
{
    if a.len() > 0 {
        lemma_recolours_flatten(a.drop_first(), b.drop_first(), f);
        assert(recolours(a[0], f) == b[0]);
        lemma_recolours_concat(a[0], a.drop_first().flatten(), f);
    } else {
        assert(a.flatten() =~= Seq::<Cmd>::empty());
        assert(b.flatten() =~= Seq::<Cmd>::empty());
        assert(recolours(Seq::<Cmd>::empty(), f) =~= Seq::<Cmd>::empty());
    }
}

proof fn lemma_header_bar(t1: Theme, t2: Theme, f: spec_fn(Color565) -> Color565, title: Seq<char>)
    requires maps_bar_roles(f, t1, t2),
    ensures recolours(header_bar_cmds(t1, title), f) == header_bar_cmds(t2, title),
{
    assert(recolours(header_bar_cmds(t1, title), f) =~= header_bar_cmds(t2, title));
}

proof fn lemma_footer(t1: Theme, t2: Theme, f: spec_fn(Color565) -> Color565, hint: Seq<char>)
    requires f(t1.divider) == t2.divider, f(t1.dim) == t2.dim,
    ensures recolours(footer_cmds(t1, hint), f) == footer_cmds(t2, hint),
{
    assert(recolours(footer_cmds(t1, hint), f) =~= footer_cmds(t2, hint));
}

proof fn lemma_rows(rows: Seq<Seq<char>>, y0: int, c1: Color565, c2: Color565, f: spec_fn(Color565) -> Color565)
    requires f(c1) == c2,
    ensures recolours(rows_cmds(rows, y0, c1), f) == rows_cmds(rows, y0, c2),
{
    assert(recolours(rows_cmds(rows, y0, c1), f) =~= rows_cmds(rows, y0, c2));
}

/// The splash, restyled: its colours are the roles bg, accent and dim.
pub proof fn lemma_splash_recolours(t1: Theme, t2: Theme, f: spec_fn(Color565) -> Color565, title: Seq<char>, subtitle: Seq<char>)
    requires f(t1.bg) == t2.bg, f(t1.accent) == t2.accent, f(t1.dim) == t2.dim,
    ensures recolours(splash_cmds(t1, title, subtitle), f) == splash_cmds(t2, title, subtitle),
{
    assert(recolours(splash_cmds(t1, title, subtitle), f) =~= splash_cmds(t2, title, subtitle));
}

/// The splash recolours with the theme and changes in nothing else.
pub proof fn lemma_splash_restyles(t1: Theme, t2: Theme, title: Seq<char>, subtitle: Seq<char>)
    ensures shapes(splash_cmds(t1, title, subtitle)) == shapes(splash_cmds(t2, title, subtitle)),
{
    lemma_splash_recolours(t1, blank_theme(), no_colour(), title, subtitle);
    lemma_splash_recolours(t2, blank_theme(), no_colour(), title, subtitle);
    lemma_shapes_recolour(splash_cmds(t1, title, subtitle));
    lemma_shapes_recolour(splash_cmds(t2, title, subtitle));
}

/// The tail reply view, restyled: its colours are the roles bg, text and
/// those of the header bar.
pub proof fn lemma_response_recolours(t1: Theme, t2: Theme, f: spec_fn(Color565) -> Color565, header: Seq<char>, body: Seq<char>)
    requires maps_bar_roles(f, t1, t2), f(t1.bg) == t2.bg, f(t1.text) == t2.text,
    ensures recolours(response_cmds(t1, header, body), f) == response_cmds(t2, header, body),
{
    let rows = crate::rows::keep_last(crate::rows::wrap_rows(body), crate::layout::TAIL_ROWS as nat);
    let c = seq![Cmd::Clear { color: t1.bg }];
    let h1 = header_bar_cmds(t1, header);
    let r1 = rows_cmds(rows, 16, t1.text);
    lemma_header_bar(t1, t2, f, header);
    lemma_rows(rows, 16, t1.text, t2.text, f);
    assert(recolours(c, f) =~= seq![Cmd::Clear { color: t2.bg }]);
    lemma_recolours_concat(c, h1, f);
    lemma_recolours_concat(c + h1, r1, f);
}

/// The tail reply view recolours with the theme and changes in nothing else.
pub proof fn lemma_response_restyles(t1: Theme, t2: Theme, header: Seq<char>, body: Seq<char>)
    ensures shapes(response_cmds(t1, header, body)) == shapes(response_cmds(t2, header, body)),
{
    lemma_response_recolours(t1, blank_theme(), no_colour(), header, body);
    lemma_response_recolours(t2, blank_theme(), no_colour(), header, body);
    lemma_shapes_recolour(response_cmds(t1, header, body));
    lemma_shapes_recolour(response_cmds(t2, header, body));
}

/// The streaming repaint, restyled: its colours are the roles bg, text and
/// those of the header bar.
pub proof fn lemma_stream_recolours(t1: Theme, t2: Theme, f: spec_fn(Color565) -> Color565, header: Seq<char>, body: Seq<char>)
    requires maps_bar_roles(f, t1, t2), f(t1.bg) == t2.bg, f(t1.text) == t2.text,
    ensures recolours(stream_cmds(t1, header, body), f) == stream_cmds(t2, header, body),
{
    assert(recolours(stream_cmds(t1, header, body), f) =~= stream_cmds(t2, header, body));
}

/// The streaming repaint recolours with the theme and changes in nothing
/// else.
pub proof fn lemma_stream_restyles(t1: Theme, t2: Theme, header: Seq<char>, body: Seq<char>)
    ensures shapes(stream_cmds(t1, header, body)) == shapes(stream_cmds(t2, header, body)),
{
    lemma_stream_recolours(t1, blank_theme(), no_colour(), header, body);
    lemma_stream_recolours(t2, blank_theme(), no_colour(), header, body);
    lemma_shapes_recolour(stream_cmds(t1, header, body));
    lemma_shapes_recolour(stream_cmds(t2, header, body));
}

/// The scrollable reader, restyled: its colours are the roles bg, text,
/// accent, dim and those of the header bar.
pub proof fn lemma_scrolled_recolours(
    t1: Theme, t2: Theme, f: spec_fn(Color565) -> Color565, header: Seq<char>, body: Seq<char>, scroll: nat,
)
    requires
        maps_bar_roles(f, t1, t2),
        f(t1.bg) == t2.bg, f(t1.text) == t2.text, f(t1.accent) == t2.accent, f(t1.dim) == t2.dim,
    ensures recolours(scrolled_cmds(t1, header, body, scroll), f) == scrolled_cmds(t2, header, body, scroll),
{
    let rows = crate::rows::keep_last(crate::rows::wrap_rows(body), 256);
    let start = crate::ui::reply::scroll_start(rows.len(), scroll);
    let end = crate::ui::reply::scroll_end(rows.len(), scroll);
    let shown = rows.subrange(start as int, end as int);
    let hint = "WS scroll  D=type  L=back"@;
    let c = seq![Cmd::Clear { color: t1.bg }];
    let h1 = header_bar_cmds(t1, header);
    let r1 = rows_cmds(shown, 16, t1.text);
    let s1 = scrollbar_cmds(t1, start as int, 8, rows.len() as int);
    let f1 = footer_cmds(t1, hint);
    lemma_header_bar(t1, t2, f, header);
    lemma_rows(shown, 16, t1.text, t2.text, f);
    lemma_footer(t1, t2, f, hint);
    assert(recolours(s1, f) =~= scrollbar_cmds(t2, start as int, 8, rows.len() as int));
    assert(recolours(c, f) =~= seq![Cmd::Clear { color: t2.bg }]);
    lemma_recolours_concat(c, h1, f);
    lemma_recolours_concat(c + h1, r1, f);
    lemma_recolours_concat(c + h1 + r1, s1, f);
    lemma_recolours_concat(c + h1 + r1 + s1, f1, f);
}

/// The scrollable reader recolours with the theme and changes in nothing
/// else.
pub proof fn lemma_scrolled_restyles(t1: Theme, t2: Theme, header: Seq<char>, body: Seq<char>, scroll: nat)
    ensures shapes(scrolled_cmds(t1, header, body, scroll)) == shapes(scrolled_cmds(t2, header, body, scroll)),
{
    lemma_scrolled_recolours(t1, blank_theme(), no_colour(), header, body, scroll);
    lemma_scrolled_recolours(t2, blank_theme(), no_colour(), header, body, scroll);
    lemma_shapes_recolour(scrolled_cmds(t1, header, body, scroll));
    lemma_shapes_recolour(scrolled_cmds(t2, header, body, scroll));
}

proof fn lemma_swatch_for(swatches: Seq<(usize, Color565)>, i: int, f: spec_fn(Color565) -> Color565)
    ensures
        swatch_for(recolour_swatches(swatches, f), i) == match swatch_for(swatches, i) {
            Some(c) => Some(f(c)),
            None => None,
        },
    decreases swatches.len(),
{
    if swatches.len() > 0 {
        assert(recolour_swatches(swatches, f).drop_first() =~= recolour_swatches(swatches.drop_first(), f));
        lemma_swatch_for(swatches.drop_first(), i, f);
    }
}

/// `f` takes the menu's roles of `from` to the same roles of `to`: bg,
/// text, accent, dim and those of the header bar.
pub open spec fn maps_menu_roles(f: spec_fn(Color565) -> Color565, from: Theme, to: Theme) -> bool {
    &&& maps_bar_roles(f, from, to)
    &&& f(from.bg) == to.bg
    &&& f(from.text) == to.text
    &&& f(from.accent) == to.accent
    &&& f(from.dim) == to.dim
}

proof fn lemma_menu_row(
    t1: Theme, t2: Theme, f: spec_fn(Color565) -> Color565, label: Seq<char>, is_sel: bool, y: int,
    slider: Option<u8>, swatch: Option<Color565>,
)
    requires maps_menu_roles(f, t1, t2),
    ensures
        recolours(crate::ui::menu::menu_row_cmds(t1, label, is_sel, y, slider, swatch), f)
            == crate::ui::menu::menu_row_cmds(t2, label, is_sel, y, slider, match swatch { Some(c) => Some(f(c)), None => None }),
{
    assert(recolours(crate::ui::menu::menu_row_cmds(t1, label, is_sel, y, slider, swatch), f)
        =~= crate::ui::menu::menu_row_cmds(t2, label, is_sel, y, slider, match swatch { Some(c) => Some(f(c)), None => None }));
}

proof fn lemma_menu_rows(
    t1: Theme, t2: Theme, f: spec_fn(Color565) -> Color565, items: Seq<&str>, selected: nat,
    sliders: Seq<(usize, u8)>, swatches: Seq<(usize, Color565)>,
)
    requires maps_menu_roles(f, t1, t2),
    ensures
        recolours(menu_rows(t1, items, selected, sliders, swatches).flatten(), f)
            == menu_rows(t2, items, selected, sliders, recolour_swatches(swatches, f)).flatten(),
{
    let a = menu_rows(t1, items, selected, sliders, swatches);
    let b = menu_rows(t2, items, selected, sliders, recolour_swatches(swatches, f));
    let start = crate::ui::menu::menu_start(items.len(), selected);
    assert forall|k: int| 0 <= k < a.len() implies recolours(#[trigger] a[k], f) == b[k] by {
        let i = start + k;
        lemma_swatch_for(swatches, i, f);
        lemma_menu_row(t1, t2, f, items[i]@, i == selected, 17 + 11 * k,
            crate::ui::menu::slider_for(sliders, i), swatch_for(swatches, i));
    }
    lemma_recolours_flatten(a, b, f);
}

/// The settings menu, restyled: its colours are the roles bg, text,
/// accent, dim and those of the header bar, and the swatches, which are
/// recoloured as given.
pub proof fn lemma_menu_recolours(
    t1: Theme,
    t2: Theme,
    f: spec_fn(Color565) -> Color565,
    title: Seq<char>,
    items: Seq<&str>,
    selected: nat,
    sliders: Seq<(usize, u8)>,
    swatches: Seq<(usize, Color565)>,
)
    requires maps_menu_roles(f, t1, t2),
    ensures
        recolours(menu_cmds(t1, title, items, selected, sliders, swatches), f)
            == menu_cmds(t2, title, items, selected, sliders, recolour_swatches(swatches, f)),
{
    let start = crate::ui::menu::menu_start(items.len(), selected);
    let end = crate::ui::menu::menu_end(items.len(), selected);
    let hint = "WS move  A/D change  L ok"@;
    let a = menu_rows(t1, items, selected, sliders, swatches).flatten();
    lemma_menu_rows(t1, t2, f, items, selected, sliders, swatches);
    let c = seq![Cmd::Clear { color: t1.bg }];
    let h1 = header_bar_cmds(t1, title);
    let up1: Seq<Cmd> = if start > 0 { seq![text_cmd("^"@, 152, 17, t1.dim)] } else { Seq::empty() };
    let up2: Seq<Cmd> = if start > 0 { seq![text_cmd("^"@, 152, 17, t2.dim)] } else { Seq::empty() };
    let dn1: Seq<Cmd> = if end < items.len() { seq![text_cmd("v"@, 152, 103, t1.dim)] } else { Seq::empty() };
    let dn2: Seq<Cmd> = if end < items.len() { seq![text_cmd("v"@, 152, 103, t2.dim)] } else { Seq::empty() };
    let f1 = footer_cmds(t1, hint);
    assert(menu_cmds(t1, title, items, selected, sliders, swatches) == c + h1 + a + up1 + dn1 + f1);
    lemma_header_bar(t1, t2, f, title);
    lemma_footer(t1, t2, f, hint);
    assert(recolours(c, f) =~= seq![Cmd::Clear { color: t2.bg }]);
    assert(recolours(up1, f) =~= up2);
    assert(recolours(dn1, f) =~= dn2);
    lemma_recolours_concat(c, h1, f);
    lemma_recolours_concat(c + h1, a, f);
    lemma_recolours_concat(c + h1 + a, up1, f);
    lemma_recolours_concat(c + h1 + a + up1, dn1, f);
    lemma_recolours_concat(c + h1 + a + up1 + dn1, f1, f);
}

/// The settings menu recolours with the theme and changes in nothing else.
pub proof fn lemma_menu_restyles(
    t1: Theme,
    t2: Theme,
    title: Seq<char>,
    items: Seq<&str>,
    selected: nat,
    sliders: Seq<(usize, u8)>,
    swatches: Seq<(usize, Color565)>,
)
    ensures
        shapes(menu_cmds(t1, title, items, selected, sliders, swatches))
            == shapes(menu_cmds(t2, title, items, selected, sliders, swatches)),
{
    lemma_menu_recolours(t1, blank_theme(), no_colour(), title, items, selected, sliders, swatches);
    lemma_menu_recolours(t2, blank_theme(), no_colour(), title, items, selected, sliders, swatches);
    lemma_shapes_recolour(menu_cmds(t1, title, items, selected, sliders, swatches));
    lemma_shapes_recolour(menu_cmds(t2, title, items, selected, sliders, swatches));
}

/// Two pens at the same place whose glyphs recolour one into the other.
pub open spec fn pens_recoloured(p: Pen, q: Pen, f: spec_fn(Color565) -> Color565) -> bool {
    &&& p.x == q.x && p.y == q.y && p.col == q.col && p.done == q.done
    &&& recolours(p.cmds, f) == q.cmds
}

proof fn lemma_pen_run_recolours(p: Pen, q: Pen, s: Seq<char>, newlines: bool, c1: Color565, c2: Color565, f: spec_fn(Color565) -> Color565)
    requires pens_recoloured(p, q, f), f(c1) == c2,
    ensures pens_recoloured(pen_run(p, s, newlines, c1), pen_run(q, s, newlines, c2), f),
    decreases s.len(),
{
    if s.len() > 0 {
        lemma_pen_run_recolours(p, q, s.drop_last(), newlines, c1, c2, f);
        let a = pen_run(p, s.drop_last(), newlines, c1);
        let ch = s.last();
        let wrap = (newlines && ch == '\n') || a.col >= crate::ui::compose::draft_cols();
        let x = if wrap { 4 } else { a.x };
        let y = if wrap { a.y + 11 } else { a.y };
        let g = crate::ui::compose::glyph(ch);
        lemma_recolours_push(a.cmds, text_cmd(g, x, y, c1), f);
    }
}

proof fn lemma_draft(t1: Theme, t2: Theme, f: spec_fn(Color565) -> Color565, kb: KeyboardView)
    requires maps_roles(f, t1, t2),
    ensures recolours(draft_cmds(t1, kb), f) == draft_cmds(t2, kb),
{
    let p1 = pen_run(draft_start(), kb.text@, true, t1.text);
    let q1 = pen_run(draft_start(), kb.text@, true, t2.text);
    assert(recolours(draft_start().cmds, f) =~= draft_start().cmds);
    lemma_pen_run_recolours(draft_start(), draft_start(), kb.text@, true, t1.text, t2.text, f);
    let f1 = seq![Cmd::Frame { x: 1, y: 14, w: 158, h: 76, color: t1.divider }];
    let f2 = seq![Cmd::Frame { x: 1, y: 14, w: 158, h: 76, color: t2.divider }];
    assert(recolours(f1, f) =~= f2);
    let tail1 = match kb.completion_suffix {
        Some(sfx) => seq![fill_cmd(p1.x, p1.y, 1, 9, t1.accent)] + pen_run(resume(p1), sfx@, false, t1.dim).cmds,
        None => if p1.y <= 81 { seq![fill_cmd(p1.x, p1.y, 6, 9, t1.accent)] } else { Seq::empty() },
    };
    let tail2 = match kb.completion_suffix {
        Some(sfx) => seq![fill_cmd(q1.x, q1.y, 1, 9, t2.accent)] + pen_run(resume(q1), sfx@, false, t2.dim).cmds,
        None => if q1.y <= 81 { seq![fill_cmd(q1.x, q1.y, 6, 9, t2.accent)] } else { Seq::empty() },
    };
    match kb.completion_suffix {
        Some(sfx) => {
            assert(recolours(resume(p1).cmds, f) =~= resume(q1).cmds);
            lemma_pen_run_recolours(resume(p1), resume(q1), sfx@, false, t1.dim, t2.dim, f);
            let r1 = pen_run(resume(p1), sfx@, false, t1.dim).cmds;
            let k1 = seq![fill_cmd(p1.x, p1.y, 1, 9, t1.accent)];
            assert(recolours(k1, f) =~= seq![fill_cmd(q1.x, q1.y, 1, 9, t2.accent)]);
            lemma_recolours_concat(k1, r1, f);
        },
        None => {
            assert(recolours(tail1, f) =~= tail2);
        },
    }
    assert(draft_cmds(t1, kb) == f1 + p1.cmds + tail1);
    assert(draft_cmds(t2, kb) == f2 + q1.cmds + tail2);
    lemma_recolours_concat(f1, p1.cmds, f);
    lemma_recolours_concat(f1 + p1.cmds, tail1, f);
}

/// Two suggestion strips at the same place whose words recolour one into
/// the other.
pub open spec fn strips_recoloured(a: Strip, b: Strip, f: spec_fn(Color565) -> Color565) -> bool {
    &&& a.x == b.x && a.taken == b.taken && a.stopped == b.stopped
    &&& recolours(a.cmds, f) == b.cmds
}

proof fn lemma_strip_run_recolours(a: Strip, b: Strip, cands: Seq<String>, word: Seq<char>, c1: Color565, c2: Color565, f: spec_fn(Color565) -> Color565)
    requires strips_recoloured(a, b, f), f(c1) == c2,
    ensures strips_recoloured(strip_run(a, cands, word, c1), strip_run(b, cands, word, c2), f),
    decreases cands.len(),
{
    if cands.len() > 0 {
        lemma_strip_run_recolours(a, b, cands.drop_last(), word, c1, c2, f);
        let p = strip_run(a, cands.drop_last(), word, c1);
        lemma_recolours_push(p.cmds, text_cmd(cands.last()@, p.x, 92, c1), f);
    }
}

proof fn lemma_compose_guide(t1: Theme, t2: Theme, f: spec_fn(Color565) -> Color565, kb: KeyboardView)
    requires maps_roles(f, t1, t2),
    ensures recolours(compose_guide_cmds(t1, kb), f) == compose_guide_cmds(t2, kb),
{
    let line3 = if kb.space_completion is Some { "Iqrst Juvwx Kyz. L=fill"@ } else { "Iqrst Juvwx Kyz., L=spc"@ };
    let end1 = seq![
        text_cmd("Wabcd Aefgh Sijkl Dmnop"@, 0, 103, t1.dim),
        text_cmd(line3, 0, 114, t1.dim),
    ];
    let end2 = seq![
        text_cmd("Wabcd Aefgh Sijkl Dmnop"@, 0, 103, t2.dim),
        text_cmd(line3, 0, 114, t2.dim),
    ];
    assert(recolours(end1, f) =~= end2);
    match kb.space_completion {
        Some(word) => {
            let st = Strip { x: (16 + 6 * crate::text::utf8_len(word@) + 8) as int, taken: 0, stopped: false, cmds: Seq::empty() };
            assert(recolours(st.cmds, f) =~= st.cmds);
            lemma_strip_run_recolours(st, st, kb.candidates@, word@, t1.dim, t2.dim, f);
            let s1 = strip_run(st, kb.candidates@, word@, t1.dim).cmds;
            let s2 = strip_run(st, kb.candidates@, word@, t2.dim).cmds;
            let b1 = seq![
                fill_cmd(2, 91, 11, 11, t1.accent),
                text_cmd("L"@, 5, 92, t1.on_accent),
                text_cmd(word@, 16, 92, t1.accent),
            ];
            let b2 = seq![
                fill_cmd(2, 91, 11, 11, t2.accent),
                text_cmd("L"@, 5, 92, t2.on_accent),
                text_cmd(word@, 16, 92, t2.accent),
            ];
            assert(recolours(b1, f) =~= b2);
            lemma_recolours_concat(b1, s1, f);
            lemma_recolours_concat(b1 + s1, end1, f);
            assert(compose_guide_cmds(t1, kb) == b1 + s1 + end1);
            assert(compose_guide_cmds(t2, kb) == b2 + s2 + end2);
        },
        None => {
            assert(recolours(compose_guide_cmds(t1, kb), f) =~= compose_guide_cmds(t2, kb));
        },
    }
}

proof fn lemma_letter_cross(t1: Theme, t2: Theme, f: spec_fn(Color565) -> Color565, letters: Seq<char>, cands: Seq<String>)
    requires maps_roles(f, t1, t2),
    ensures recolours(letter_cross_cmds(t1, letters, cands), f) == letter_cross_cmds(t2, letters, cands),
{
    let a = cells(t1, letters);
    let b = cells(t2, letters);
    assert forall|k: int| 0 <= k < a.len() implies recolours(#[trigger] a[k], f) == b[k] by {
        assert(recolours(a[k], f) =~= b[k]);
    }
    let w1 = words(t1, cands);
    let w2 = words(t2, cands);
    assert forall|k: int| 0 <= k < w1.len() implies recolours(#[trigger] w1[k], f) == w2[k] by {
        assert(recolours(w1[k], f) =~= w2[k]);
    }
    crate::ui::compose::lemma_flatten4(a);
    crate::ui::compose::lemma_flatten4(b);
    crate::ui::compose::lemma_flatten3(w1);
    crate::ui::compose::lemma_flatten3(w2);
    lemma_recolours_flatten(a, b, f);
    lemma_recolours_flatten(w1, w2, f);
    let d1: Seq<Cmd> = if cands.len() > 0 { seq![fill_cmd(90, 92, 1, 36, t1.divider)] + w1.flatten() } else { Seq::empty() };
    let d2: Seq<Cmd> = if cands.len() > 0 { seq![fill_cmd(90, 92, 1, 36, t2.divider)] + w2.flatten() } else { Seq::empty() };
    if cands.len() > 0 {
        let x1 = seq![fill_cmd(90, 92, 1, 36, t1.divider)];
        assert(recolours(x1, f) =~= seq![fill_cmd(90, 92, 1, 36, t2.divider)]);
        lemma_recolours_concat(x1, w1.flatten(), f);
        assert(w1.flatten() == w1[0] + w1[1] + w1[2]);
    } else {
        assert(recolours(d1, f) =~= d2);
    }
    assert(letter_cross_cmds(t1, letters, cands) == a.flatten() + d1);
    assert(letter_cross_cmds(t2, letters, cands) == b.flatten() + d2);
    lemma_recolours_concat(a.flatten(), d1, f);
}

proof fn lemma_status(t1: Theme, t2: Theme, f: spec_fn(Color565) -> Color565, kb: KeyboardView, title: Seq<char>, status: Seq<char>)
    requires maps_roles(f, t1, t2),
    ensures recolours(status_cmds(t1, kb, title, status), f) == status_cmds(t2, kb, title, status),
{
    assert(recolours(status_cmds(t1, kb, title, status), f) =~= status_cmds(t2, kb, title, status));
}

/// The compose screen, restyled: it draws with every role of the theme.
pub proof fn lemma_render_recolours(
    t1: Theme, t2: Theme, f: spec_fn(Color565) -> Color565, kb: KeyboardView, title: Seq<char>, status: Seq<char>,
)
    requires maps_roles(f, t1, t2),
    ensures recolours(render_cmds(t1, kb, title, status), f) == render_cmds(t2, kb, title, status),
{
    lemma_status(t1, t2, f, kb, title, status);
    lemma_draft(t1, t2, f, kb);
    if kb.action_armed {
        assert(recolours(action_layer_cmds(t1), f) =~= action_layer_cmds(t2));
    } else {
        match kb.active_group {
            Some(letters) => lemma_letter_cross(t1, t2, f, letters@, kb.candidates@),
            None => lemma_compose_guide(t1, t2, f, kb),
        }
    }
    let c = seq![Cmd::Clear { color: t1.bg }];
    assert(recolours(c, f) =~= seq![Cmd::Clear { color: t2.bg }]);
    let s1 = status_cmds(t1, kb, title, status);
    let r1 = draft_cmds(t1, kb);
    let g1 = guide_cmds(t1, kb);
    lemma_recolours_concat(c, s1, f);
    lemma_recolours_concat(c + s1, r1, f);
    lemma_recolours_concat(c + s1 + r1, g1, f);
}

/// The compose screen recolours with the theme and changes in nothing else.
pub proof fn lemma_render_restyles(t1: Theme, t2: Theme, kb: KeyboardView, title: Seq<char>, status: Seq<char>)
    ensures shapes(render_cmds(t1, kb, title, status)) == shapes(render_cmds(t2, kb, title, status)),
{
    lemma_blank_maps_roles(t1);
    lemma_blank_maps_roles(t2);
    lemma_render_recolours(t1, blank_theme(), no_colour(), kb, title, status);
    lemma_render_recolours(t2, blank_theme(), no_colour(), kb, title, status);
    lemma_shapes_recolour(render_cmds(t1, kb, title, status));
    lemma_shapes_recolour(render_cmds(t2, kb, title, status));
}

/// The colours a draw step paints with all satisfy `ok`.
pub open spec fn paints_within(c: Cmd, ok: spec_fn(Color565) -> bool) -> bool {
    match c {
        Cmd::Clear { color } => ok(color),
        Cmd::Fill { color, .. } => ok(color),
        Cmd::Frame { color, .. } => ok(color),
        Cmd::Text { color, background, .. } => ok(color) && (background matches Some(b) ==> ok(b)),
    }
}

/// The colour map that keeps the colours satisfying `ok` and changes every
/// other colour.
pub open spec fn keep_only(ok: spec_fn(Color565) -> bool) -> spec_fn(Color565) -> Color565 {
    |c: Color565| if ok(c) { c } else { Color565 { r: if c.r == 0 { 1 } else { 0 }, g: c.g, b: c.b } }
}

/// Steps left unchanged by `keep_only(ok)` paint only with colours in `ok`.
proof fn lemma_fixed_paints_within(s: Seq<Cmd>, ok: spec_fn(Color565) -> bool)
    requires recolours(s, keep_only(ok)) == s,
    ensures forall|j: int| 0 <= j < s.len() ==> paints_within(#[trigger] s[j], ok),
{
    assert forall|j: int| 0 <= j < s.len() implies paints_within(#[trigger] s[j], ok) by {
        assert(recolours(s, keep_only(ok))[j] == s[j]);
    }
}

/// The roles of the reply views: bg, text and those of the header bar.
pub open spec fn reply_roles(t: Theme) -> spec_fn(Color565) -> bool {
    |c: Color565| c == t.bg || c == t.surface || c == t.on_surface || c == t.text || c == t.divider
}

/// The tail reply view paints with no colour but its roles.
pub proof fn lemma_response_roles(t: Theme, header: Seq<char>, body: Seq<char>)
    ensures forall|j: int| 0 <= j < response_cmds(t, header, body).len()
        ==> paints_within(#[trigger] response_cmds(t, header, body)[j], reply_roles(t)),
{
    lemma_response_recolours(t, t, keep_only(reply_roles(t)), header, body);
    lemma_fixed_paints_within(response_cmds(t, header, body), reply_roles(t));
}

/// The streaming repaint paints with no colour but its roles.
pub proof fn lemma_stream_roles(t: Theme, header: Seq<char>, body: Seq<char>)
    ensures forall|j: int| 0 <= j < stream_cmds(t, header, body).len()
        ==> paints_within(#[trigger] stream_cmds(t, header, body)[j], reply_roles(t)),
{
    lemma_stream_recolours(t, t, keep_only(reply_roles(t)), header, body);
    lemma_fixed_paints_within(stream_cmds(t, header, body), reply_roles(t));
}

/// The scrollable reader paints with no colour but the reply roles, accent
/// and dim.
pub proof fn lemma_scrolled_roles(t: Theme, header: Seq<char>, body: Seq<char>, scroll: nat)
    ensures ({
        let ok = |c: Color565| reply_roles(t)(c) || c == t.accent || c == t.dim;
        forall|j: int| 0 <= j < scrolled_cmds(t, header, body, scroll).len()
            ==> paints_within(#[trigger] scrolled_cmds(t, header, body, scroll)[j], ok)
    }),
{
    let ok = |c: Color565| reply_roles(t)(c) || c == t.accent || c == t.dim;
    lemma_scrolled_recolours(t, t, keep_only(ok), header, body, scroll);
    lemma_fixed_paints_within(scrolled_cmds(t, header, body, scroll), ok);
}

/// The splash paints with no colour but bg, accent and dim.
pub proof fn lemma_splash_roles(t: Theme, title: Seq<char>, subtitle: Seq<char>)
    ensures ({
        let ok = |c: Color565| c == t.bg || c == t.accent || c == t.dim;
        forall|j: int| 0 <= j < splash_cmds(t, title, subtitle).len()
            ==> paints_within(#[trigger] splash_cmds(t, title, subtitle)[j], ok)
    }),
{
    let ok = |c: Color565| c == t.bg || c == t.accent || c == t.dim;
    lemma_splash_recolours(t, t, keep_only(ok), title, subtitle);
    lemma_fixed_paints_within(splash_cmds(t, title, subtitle), ok);
}

/// The settings menu paints with no colour but its roles and the colours of
/// its swatches.
pub proof fn lemma_menu_roles(
    t: Theme,
    title: Seq<char>,
    items: Seq<&str>,
    selected: nat,
    sliders: Seq<(usize, u8)>,
    swatches: Seq<(usize, Color565)>,
)
    ensures ({
        let ok = |c: Color565| reply_roles(t)(c) || c == t.accent || c == t.dim
            || exists|k: int| 0 <= k < swatches.len() && swatches[k].1 == c;
        let cmds = menu_cmds(t, title, items, selected, sliders, swatches);
        forall|j: int| 0 <= j < cmds.len() ==> paints_within(#[trigger] cmds[j], ok)
    }),
{
    let ok = |c: Color565| reply_roles(t)(c) || c == t.accent || c == t.dim
        || exists|k: int| 0 <= k < swatches.len() && swatches[k].1 == c;
    let f = keep_only(ok);
    lemma_menu_recolours(t, t, f, title, items, selected, sliders, swatches);
    assert(recolour_swatches(swatches, f) =~= swatches) by {
        assert forall|k: int| 0 <= k < swatches.len() implies #[trigger] recolour_swatches(swatches, f)[k] == swatches[k] by {
            assert(ok(swatches[k].1));
        }
    }
    lemma_fixed_paints_within(menu_cmds(t, title, items, selected, sliders, swatches), ok);
}

/// The compose screen paints with no colour but the roles of its theme.
pub proof fn lemma_render_roles(t: Theme, kb: KeyboardView, title: Seq<char>, status: Seq<char>)
    ensures ({
        let ok = |c: Color565| crate::theme::palette(t).contains(c);
        forall|j: int| 0 <= j < render_cmds(t, kb, title, status).len()
            ==> paints_within(#[trigger] render_cmds(t, kb, title, status)[j], ok)
    }),
{
    let ok = |c: Color565| crate::theme::palette(t).contains(c);
    let p = crate::theme::palette(t);
    assert(p[0] == t.bg && p[1] == t.surface && p[2] == t.on_surface && p[3] == t.text);
    assert(p[4] == t.dim && p[5] == t.divider && p[6] == t.accent && p[7] == t.on_accent);
    assert(p[8] == t.warn);
    lemma_render_recolours(t, t, keep_only(ok), kb, title, status);
    lemma_fixed_paints_within(render_cmds(t, kb, title, status), ok);
}

} // verus!
