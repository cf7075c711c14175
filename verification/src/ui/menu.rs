//! The scrolling settings menu.
use vstd::prelude::*;
use crate::canvas::{Cmd, DisplayList, DrawOp, fill_cmd, text_cmd};
use crate::layout::{WIDTH, DRAFT_TOP, FOOTER_DIV, COLS, LINE_H, CONTENT_ROWS};
use crate::rows::{clipped_row, row_chars};
use crate::text::clip;
use crate::theme::{Color565, Theme};
use crate::ui::{Ui, header_bar_cmds, footer_cmds};

verus! {

/// The first menu row shown: the selected row centred in the window,
/// clamped to the ends of the list.
pub open spec fn menu_start(len: nat, selected: nat) -> nat {
    if len <= CONTENT_ROWS {
        0
    } else {
        let centred: nat = if selected > CONTENT_ROWS / 2 { (selected - CONTENT_ROWS / 2) as nat } else { 0 };
        let last: nat = (len - CONTENT_ROWS) as nat;
        if centred < last { centred } else { last }
    }
}

/// One past the last menu row shown.
pub open spec fn menu_end(len: nat, selected: nat) -> nat {
    let e: nat = menu_start(len, selected) + CONTENT_ROWS as nat;
    if e < len { e } else { len }
}

/// The value of the first slider entry for row `i`, if any.
pub open spec fn slider_for(sliders: Seq<(usize, u8)>, i: int) -> Option<u8>
    decreases sliders.len(),
{
    if sliders.len() == 0 {
        None
    } else if sliders[0].0 == i {
        Some(sliders[0].1)
    } else {
        slider_for(sliders.drop_first(), i)
    }
}

/// The colour of the first swatch entry for row `i`, if any.
pub open spec fn swatch_for(swatches: Seq<(usize, Color565)>, i: int) -> Option<Color565>
    decreases swatches.len(),
{
    if swatches.len() == 0 {
        None
    } else if swatches[0].0 == i {
        Some(swatches[0].1)
    } else {
        swatch_for(swatches.drop_first(), i)
    }
}

/// One menu row at line top `y`: the highlight bar and accent rail when
/// selected, the label cut to leave room on the right, then the row's
/// `0..=10` slider bar and its colour swatch when it has them.
pub open spec fn menu_row_cmds(
    theme: Theme,
    label: Seq<char>,
    is_sel: bool,
    y: int,
    slider: Option<u8>,
    swatch: Option<Color565>,
) -> Seq<Cmd> {
    let highlight = if is_sel {
        seq![fill_cmd(0, y - 1, WIDTH as int, LINE_H as int, theme.surface), fill_cmd(0, y - 1, 2, LINE_H as int, theme.accent)]
    } else {
        Seq::empty()
    };
    let row_color = if is_sel { theme.on_surface } else { theme.text };
    let bar = match slider {
        Some(val) => {
            let v: int = if val < 10 { val as int } else { 10 };
            let fill_w = 40 * v / 10;
            let track = if is_sel { theme.bg } else { theme.divider };
            seq![fill_cmd(WIDTH - 48, y + 3, 40, 4, track)]
                + if fill_w > 0 { seq![fill_cmd(WIDTH - 48, y + 3, fill_w, 4, theme.accent)] } else { Seq::empty() }
        },
        None => Seq::empty(),
    };
    let swatch_cmds = match swatch {
        Some(color) => seq![
            Cmd::Frame { x: WIDTH - 17, y, w: 9, h: 9, color: theme.dim },
            fill_cmd(WIDTH - 16, y + 1, 7, 7, color),
        ],
        None => Seq::empty(),
    };
    highlight + seq![text_cmd(clip(label, (COLS - 2) as nat, COLS as nat), 4, y, row_color)] + bar + swatch_cmds
}

/// The visible menu rows, top to bottom.
pub open spec fn menu_rows(
    theme: Theme,
    items: Seq<&str>,
    selected: nat,
    sliders: Seq<(usize, u8)>,
    swatches: Seq<(usize, Color565)>,
) -> Seq<Seq<Cmd>> {
    let start = menu_start(items.len(), selected);
    let end = menu_end(items.len(), selected);
    Seq::new((end - start) as nat, |k: int| {
        let i = start + k;
        menu_row_cmds(theme, items[i]@, i == selected, DRAFT_TOP + 3 + LINE_H * k, slider_for(sliders, i), swatch_for(swatches, i))
    })
}

/// The settings menu: cleared, header, the visible rows, "more above" and
/// "more below" markers, and the footer hints.
pub open spec fn menu_cmds(
    theme: Theme,
    title: Seq<char>,
    items: Seq<&str>,
    selected: nat,
    sliders: Seq<(usize, u8)>,
    swatches: Seq<(usize, Color565)>,
) -> Seq<Cmd> {
    let start = menu_start(items.len(), selected);
    let end = menu_end(items.len(), selected);
    seq![Cmd::Clear { color: theme.bg }]
        + header_bar_cmds(theme, title)
        + menu_rows(theme, items, selected, sliders, swatches).flatten()
        + if start > 0 { seq![text_cmd("^"@, WIDTH - 8, DRAFT_TOP + 3, theme.dim)] } else { Seq::empty() }
        + if end < items.len() { seq![text_cmd("v"@, WIDTH - 8, FOOTER_DIV - LINE_H, theme.dim)] } else { Seq::empty() }
        + footer_cmds(theme, "WS move  A/D change  L ok"@)
}

/// The selected row is always on screen, centred when the list allows it,
/// and the window shows as many rows as fit.
pub proof fn lemma_selection_visible(len: nat, selected: nat)
    requires selected < len,
    ensures
        menu_start(len, selected) <= selected < menu_end(len, selected),
        menu_end(len, selected) - menu_start(len, selected) == if len < CONTENT_ROWS { len } else { CONTENT_ROWS as nat },
        CONTENT_ROWS / 2 <= selected && selected + CONTENT_ROWS / 2 <= len && len > CONTENT_ROWS
            ==> menu_start(len, selected) == selected - CONTENT_ROWS / 2,
{
}

/// Whether a draw step is text starting left of the marker column.
pub open spec fn left_of_markers(c: Cmd) -> bool {
    match c {
        Cmd::Text { x, .. } => x < WIDTH - 8,
        _ => true,
    }
}

proof fn lemma_flatten_left(rows: Seq<Seq<Cmd>>)
    requires forall|k: int, m: int| 0 <= k < rows.len() && 0 <= m < rows[k].len() ==> left_of_markers(#[trigger] rows[k][m]),
    ensures forall|j: int| 0 <= j < rows.flatten().len() ==> left_of_markers(#[trigger] rows.flatten()[j]),
    decreases rows.len(),
{
    if rows.len() > 0 {
        lemma_flatten_left(rows.drop_first());
        let f = rows.flatten();
        assert(f == rows[0] + rows.drop_first().flatten());
        assert forall|j: int| 0 <= j < f.len() implies left_of_markers(#[trigger] f[j]) by {
            if j < rows[0].len() {
                assert(f[j] == rows[0][j]);
            } else {
                assert(f[j] == rows.drop_first().flatten()[j - rows[0].len()]);
            }
        }
    }
}

/// The "more above" marker is drawn exactly when some item lies above the
/// window: the list is longer than a screen and the selection is past the
/// middle of the first screen. The "more below" marker is drawn exactly
/// when some item lies below it: the list is longer than a screen and more
/// than half a screen of items follows the selection.
pub proof fn lemma_menu_markers(
    theme: Theme,
    title: Seq<char>,
    items: Seq<&str>,
    selected: nat,
    sliders: Seq<(usize, u8)>,
    swatches: Seq<(usize, Color565)>,
)
    ensures ({
        let cmds = menu_cmds(theme, title, items, selected, sliders, swatches);
        let up = text_cmd("^"@, WIDTH - 8, DRAFT_TOP + 3, theme.dim);
        let down = text_cmd("v"@, WIDTH - 8, FOOTER_DIV - LINE_H, theme.dim);
        &&& cmds.contains(up) <==> (items.len() > CONTENT_ROWS && selected > CONTENT_ROWS / 2)
        &&& cmds.contains(down) <==> (items.len() > CONTENT_ROWS && selected + CONTENT_ROWS / 2 < items.len())
    }),
{
    let cmds = menu_cmds(theme, title, items, selected, sliders, swatches);
    let up = text_cmd("^"@, WIDTH - 8, DRAFT_TOP + 3, theme.dim);
    let down = text_cmd("v"@, WIDTH - 8, FOOTER_DIV - LINE_H, theme.dim);
    let start = menu_start(items.len(), selected);
    let end = menu_end(items.len(), selected);
    let c = seq![Cmd::Clear { color: theme.bg }];
    let h = header_bar_cmds(theme, title);
    let rs = menu_rows(theme, items, selected, sliders, swatches);
    let rows = rs.flatten();
    let ups: Seq<Cmd> = if start > 0 { seq![up] } else { Seq::empty() };
    let downs: Seq<Cmd> = if end < items.len() { seq![down] } else { Seq::empty() };
    let f = footer_cmds(theme, "WS move  A/D change  L ok"@);
    assert(cmds == c + h + rows + ups + downs + f);
    assert forall|k: int, m: int| 0 <= k < rs.len() && 0 <= m < rs[k].len() implies left_of_markers(#[trigger] rs[k][m]) by {
        let i = start + k;
        let row = menu_row_cmds(theme, items[i]@, i == selected, DRAFT_TOP + 3 + LINE_H * k, slider_for(sliders, i), swatch_for(swatches, i));
        assert(rs[k] == row);
    }
    lemma_flatten_left(rs);
    let head = c + h + rows;
    assert forall|j: int| 0 <= j < head.len() implies left_of_markers(#[trigger] head[j]) by {
        if j >= c.len() + h.len() {
            assert(head[j] == rows[j - c.len() - h.len()]);
        }
    }
    assert(!left_of_markers(up) && !left_of_markers(down));
    assert(up != down);
    let p = head.len() as int;
    if start > 0 {
        assert(cmds[p] == up);
    } else {
        assert forall|j: int| 0 <= j < cmds.len() implies cmds[j] != up by {
            if j < p {
                assert(cmds[j] == head[j]);
            }
        }
    }
    let q = p + ups.len();
    if end < items.len() {
        assert(cmds[q] == down);
    } else {
        assert forall|j: int| 0 <= j < cmds.len() implies cmds[j] != down by {
            if j < p {
                assert(cmds[j] == head[j]);
            }
        }
    }
}

proof fn lemma_flatten_has(rows: Seq<Seq<Cmd>>, k: int, m: int)
    requires 0 <= k < rows.len(), 0 <= m < rows[k].len(),
    ensures rows.flatten().contains(rows[k][m]),
    decreases k,
{
    let f = rows.flatten();
    assert(f == rows[0] + rows.drop_first().flatten());
    if k == 0 {
        assert(f[m] == rows[0][m]);
    } else {
        lemma_flatten_has(rows.drop_first(), k - 1, m);
        assert(rows.drop_first()[k - 1] == rows[k]);
        let j = choose|j: int| 0 <= j < rows.drop_first().flatten().len() && rows.drop_first().flatten()[j] == rows[k][m];
        assert(f[rows[0].len() + j] == rows[k][m]);
    }
}

/// Every visible menu row is drawn on its line: row `k` of the window holds
/// item `start + k`, its label (cut to leave room on the right) at x 4 on line
/// `k` below the header. The selected item's label is in the on-surface
/// colour over a full-width surface bar with an accent rail at its left
/// edge; every other label is in the text colour.
pub proof fn lemma_menu_shows_rows(
    theme: Theme,
    title: Seq<char>,
    items: Seq<&str>,
    selected: nat,
    sliders: Seq<(usize, u8)>,
    swatches: Seq<(usize, Color565)>,
)
    requires selected < items.len(),
    ensures ({
        let cmds = menu_cmds(theme, title, items, selected, sliders, swatches);
        let start = menu_start(items.len(), selected);
        let end = menu_end(items.len(), selected);
        let ysel = DRAFT_TOP + 3 + LINE_H * (selected - start);
        &&& forall|k: int| 0 <= k < end - start ==> cmds.contains(text_cmd(
            clip((#[trigger] items[start + k])@, (COLS - 2) as nat, COLS as nat), 4, DRAFT_TOP + 3 + LINE_H * k,
            if start + k == selected { theme.on_surface } else { theme.text }))
        &&& cmds.contains(fill_cmd(0, ysel - 1, WIDTH as int, LINE_H as int, theme.surface))
        &&& cmds.contains(fill_cmd(0, ysel - 1, 2, LINE_H as int, theme.accent))
    }),
{
    let cmds = menu_cmds(theme, title, items, selected, sliders, swatches);
    let start = menu_start(items.len(), selected);
    let end = menu_end(items.len(), selected);
    lemma_selection_visible(items.len(), selected);
    let c = seq![Cmd::Clear { color: theme.bg }];
    let h = header_bar_cmds(theme, title);
    let rs = menu_rows(theme, items, selected, sliders, swatches);
    let rows = rs.flatten();
    let tail: Seq<Cmd> = (if start > 0 { seq![text_cmd("^"@, WIDTH - 8, DRAFT_TOP + 3, theme.dim)] } else { Seq::empty() })
        + (if end < items.len() { seq![text_cmd("v"@, WIDTH - 8, FOOTER_DIV - LINE_H, theme.dim)] } else { Seq::empty() })
        + footer_cmds(theme, "WS move  A/D change  L ok"@);
    assert(cmds == (c + h) + rows + tail);
    let off = (c + h).len() as int;
    assert forall|k: int| 0 <= k < end - start implies cmds.contains(text_cmd(
        clip((#[trigger] items[start + k])@, (COLS - 2) as nat, COLS as nat), 4, DRAFT_TOP + 3 + LINE_H * k,
        if start + k == selected { theme.on_surface } else { theme.text })) by {
        let i = start + k;
        let row = menu_row_cmds(theme, items[i]@, i == selected, DRAFT_TOP + 3 + LINE_H * k, slider_for(sliders, i), swatch_for(swatches, i));
        assert(rs[k] == row);
        let m: int = if i == selected { 2 } else { 0 };
        lemma_flatten_has(rs, k, m);
        let j = choose|j: int| 0 <= j < rows.len() && rows[j] == rs[k][m];
        assert(cmds[off + j] == rows[j]);
    }
    let ks = selected - start;
    let row = menu_row_cmds(theme, items[selected as int]@, true, DRAFT_TOP + 3 + LINE_H * ks, slider_for(sliders, selected as int), swatch_for(swatches, selected as int));
    assert(rs[ks] == row);
    lemma_flatten_has(rs, ks, 0);
    lemma_flatten_has(rs, ks, 1);
    let j0 = choose|j: int| 0 <= j < rows.len() && rows[j] == rs[ks][0];
    assert(cmds[off + j0] == rows[j0]);
    let j1 = choose|j: int| 0 <= j < rows.len() && rows[j] == rs[ks][1];
    assert(cmds[off + j1] == rows[j1]);
}

fn find_slider(sliders: &[(usize, u8)], i: usize) -> (r: Option<u8>)
    ensures r == slider_for(sliders@, i as int),
{
    let mut k: usize = 0;
    proof { assert(sliders@.skip(0) =~= sliders@); }
    while k < sliders.len()
        invariant
            k <= sliders@.len(),
            slider_for(sliders@, i as int) == slider_for(sliders@.skip(k as int), i as int),
        decreases sliders@.len() - k,
    {
        proof { assert(sliders@.skip(k as int).drop_first() =~= sliders@.skip(k + 1)); }
        let (idx, val) = sliders[k];
        if idx == i {
            return Some(val);
        }
        k = k + 1;
    }
    None
}

fn find_swatch(swatches: &[(usize, Color565)], i: usize) -> (r: Option<Color565>)
    ensures r == swatch_for(swatches@, i as int),
{
    let mut k: usize = 0;
    proof { assert(swatches@.skip(0) =~= swatches@); }
    while k < swatches.len()
        invariant
            k <= swatches@.len(),
            swatch_for(swatches@, i as int) == swatch_for(swatches@.skip(k as int), i as int),
        decreases swatches@.len() - k,
    {
        proof { assert(swatches@.skip(k as int).drop_first() =~= swatches@.skip(k + 1)); }
        let (idx, color) = swatches[k];
        if idx == i {
            return Some(color);
        }
        k = k + 1;
    }
    None
}

impl Ui {
    /// One menu row at line top `y`.
    fn draw_menu_row(
        target: &mut DisplayList,
        theme: &Theme,
        label: &str,
        is_sel: bool,
        y: i32,
        i: usize,
        sliders: &[(usize, u8)],
        swatches: &[(usize, Color565)],
    )
        requires DRAFT_TOP + 3 <= y <= DRAFT_TOP + 3 + LINE_H * 8,
        ensures
            final(target)@ == old(target)@ + menu_row_cmds(*theme, label@, is_sel, y as int,
                slider_for(sliders@, i as int), swatch_for(swatches@, i as int)),
    {
        if is_sel {
            // Surface highlight bar + accent left rail.
            Self::fill(target, 0, y - 1, WIDTH, LINE_H as u32, theme.surface);
            Self::fill(target, 0, y - 1, 2, LINE_H as u32, theme.accent);
        }
        let row_color = if is_sel { theme.on_surface } else { theme.text };

        // Label, truncated to leave room for the slider / swatch / scrollbar.
        let row = clipped_row(label, COLS - 2);
        Self::text_chars(target, row_chars(&row), 4, y, row_color);

        // Slider bar on the right, if this row is one. On the selected
        // row the track is drawn in `bg` so it stays visible against the
        // `surface` highlight.
        if let Some(val) = find_slider(sliders, i) {
            let bar_w = 40u32;
            let bar_x = WIDTH as i32 - bar_w as i32 - 8;
            let fill_w = (bar_w * val.min(10) as u32) / 10;
            let track = if is_sel { theme.bg } else { theme.divider };
            Self::fill(target, bar_x, y + 3, bar_w, 4, track);
            if fill_w > 0 {
                Self::fill(target, bar_x, y + 3, fill_w, 4, theme.accent);
            }
        }

        // Colour swatch on the right, if this row has one (Theme row).
        if let Some(color) = find_swatch(swatches, i) {
            let sw = 9i32;
            let sx = WIDTH as i32 - sw - 8;
            target.push(DrawOp::Frame { x: sx, y, w: sw as u32, h: sw as u32, color: theme.dim });
            Self::fill(target, sx + 1, y + 1, (sw - 2) as u32, (sw - 2) as u32, color);
        }
        proof {
            assert(target@ =~= old(target)@ + menu_row_cmds(*theme, label@, is_sel, y as int,
                slider_for(sliders@, i as int), swatch_for(swatches@, i as int)));
        }
    }

    /// A scrolling settings menu. `selected` is highlighted with a surface
    /// bar and an accent left rail; rows listed in `sliders` show a `0..=10`
    /// bar; rows listed in `swatches` show a small colour square.
    pub fn menu(
        target: &mut DisplayList,
        theme: &Theme,
        title: &str,
        items: &[&str],
        selected: usize,
        sliders: &[(usize, u8)],
        swatches: &[(usize, Color565)],
    )
        ensures
            final(target)@ == old(target)@ + menu_cmds(*theme, title@, items@, selected as nat, sliders@, swatches@),
    {
        broadcast use Seq::lemma_flatten_push;
        Self::clear(target, theme);
        Self::header_bar(target, theme, title);

        let top = DRAFT_TOP + 3;
        let max_rows = CONTENT_ROWS;

        // Scroll so the selected row stays on screen (centred, clamped).
        let start = if items.len() <= max_rows {
            0
        } else {
            selected.saturating_sub(max_rows / 2).min(items.len() - max_rows)
        };
        let end = (start + max_rows).min(items.len());
        proof {
            assert(start == menu_start(items@.len(), selected as nat));
            assert(end == menu_end(items@.len(), selected as nat));
        }
        let ghost rows = menu_rows(*theme, items@, selected as nat, sliders@, swatches@);
        let ghost base = target@;

        let mut y = top;
        let mut i: usize = start;
        proof { assert(rows.take(0) =~= Seq::<Seq<Cmd>>::empty()); }
        while i < end
            invariant
                start <= i <= end,
                end <= items@.len(),
                end - start <= 8,
                start == menu_start(items@.len(), selected as nat),
                end == menu_end(items@.len(), selected as nat),
                rows == menu_rows(*theme, items@, selected as nat, sliders@, swatches@),
                rows.len() == end - start,
                y == DRAFT_TOP + 3 + LINE_H * (i - start),
                target@ == base + rows.take(i - start).flatten(),
            decreases end - i,
        {
            let ghost before = target@;
            Self::draw_menu_row(target, theme, items[i], i == selected, y, i, sliders, swatches);
            proof {
                let k = i - start;
                assert(rows[k] == menu_row_cmds(*theme, items@[i as int]@, i == selected, y as int,
                    slider_for(sliders@, i as int), swatch_for(swatches@, i as int)));
                assert(target@ == before + rows[k]);
                assert(rows.take(k + 1) =~= rows.take(k).push(rows[k]));
                rows.take(k).lemma_flatten_push(rows[k]);
                assert(target@ =~= base + rows.take(k + 1).flatten());
            }
            y = y + LINE_H;
            i = i + 1;
        }
        proof { assert(rows.take(end - start) =~= rows); }

        // "more above / below" markers, then the footer hint bar.
        if start > 0 {
            Self::text(target, "^", WIDTH as i32 - 8, top, theme.dim);
        }
        if end < items.len() {
            Self::text(target, "v", WIDTH as i32 - 8, FOOTER_DIV - LINE_H, theme.dim);
        }
        Self::footer_hints(target, theme, "WS move  A/D change  L ok");
        proof {
            assert(target@ =~= old(target)@ + menu_cmds(*theme, title@, items@, selected as nat, sliders@, swatches@));
        }
    }
}

} // verus!
