//! Reply views: the tail view, the streaming repaint, and the scrollable
//! reader.
use vstd::prelude::*;
use crate::canvas::{Cmd, DisplayList, DrawOp, Font, fill_cmd, text_cmd};
use crate::layout::{WIDTH, HEIGHT, STATUS_TOP, DRAFT_TOP, FOOTER_DIV, COLS, LINE_H, CONTENT_ROWS, TAIL_ROWS};
use crate::rows::{
    Row, RowBuffer, row_chars, rows64_new, rows256_new,
    wrap_into, wrap_state, wrap_rows, keep_last, lemma_keep_last_twice,
};
use crate::text::{spaces, fit_cells, fit_to_cells, chars_of, char_len, utf8_len, lemma_utf8_len_push, lemma_utf8_len_empty};
use crate::theme::{Color565, Theme};
use crate::ui::{Ui, header_bar_cmds, footer_cmds, wifi_cmds, hline_cmd};

verus! {

/// Rows drawn one per line from `y0`, 3px from the left edge.
pub open spec fn rows_cmds(rows: Seq<Seq<char>>, y0: int, color: Color565) -> Seq<Cmd> {
    Seq::new(rows.len(), |k: int| text_cmd(rows[k], 3, y0 + LINE_H * k, color))
}

/// The full-screen reply view: clear, header, and the last rows of the
/// wrapped body that fit below the header.
pub open spec fn response_cmds(theme: Theme, header: Seq<char>, body: Seq<char>) -> Seq<Cmd> {
    seq![Cmd::Clear { color: theme.bg }]
        + header_bar_cmds(theme, header)
        + rows_cmds(keep_last(wrap_rows(body), TAIL_ROWS as nat), DRAFT_TOP + 2, theme.text)
}

/// Opaque text: glyph cells painted in `background` too.
pub open spec fn opaque_text_cmd(s: Seq<char>, x: int, y: int, color: Color565, background: Color565) -> Cmd {
    Cmd::Text { x, y, text: s, font: Font::Small, color, background: Some(background) }
}

/// Line `k` of the streaming grid: the k-th visible row padded to the full
/// width of `COLS` cells, or a blank line.
pub open spec fn stream_line(visible: Seq<Seq<char>>, k: int) -> Seq<char> {
    if k < visible.len() { fit_cells(visible[k], COLS as nat) } else { spaces(COLS as nat) }
}

/// The streaming header title: cut or padded to `COLS - 3` cells, leaving
/// the right end for the wifi logo.
pub open spec fn stream_title(header: Seq<char>) -> Seq<char> {
    fit_cells(header, (COLS - 3) as nat)
}

/// The streaming repaint: the header band redrawn opaquely (title clipped to
/// leave room for the wifi logo and padded so a shorter title covers a longer
/// one), then a full grid of `TAIL_ROWS` opaque, full-width lines holding the
/// tail of the wrapped body. Nothing is cleared.
pub open spec fn stream_cmds(theme: Theme, header: Seq<char>, body: Seq<char>) -> Seq<Cmd> {
    let visible = keep_last(wrap_rows(body), TAIL_ROWS as nat);
    seq![
        fill_cmd(0, 0, WIDTH as int, DRAFT_TOP - 1, theme.surface),
        opaque_text_cmd(stream_title(header), 3, STATUS_TOP + 2, theme.on_surface, theme.surface),
    ]
        + wifi_cmds(WIDTH - 3int, theme.on_surface)
        + seq![hline_cmd(DRAFT_TOP - 1int, theme.divider)]
        + Seq::new(TAIL_ROWS as nat, |k: int| opaque_text_cmd(stream_line(visible, k), 3, DRAFT_TOP + 2 + LINE_H * k, theme.text, theme.bg))
}

/// The first row shown by the scrollable reader: the requested offset,
/// clamped so the last screen is full.
pub open spec fn scroll_start(total: nat, scroll: nat) -> nat {
    let max_start: nat = if total > CONTENT_ROWS { (total - CONTENT_ROWS) as nat } else { 0 };
    if scroll < max_start { scroll } else { max_start }
}

/// One past the last row shown by the scrollable reader.
pub open spec fn scroll_end(total: nat, scroll: nat) -> nat {
    let e: nat = scroll_start(total, scroll) + CONTENT_ROWS as nat;
    if e < total { e } else { total }
}

/// Height of the scrollbar thumb: the visible share of the 98px track, at
/// least 4px.
pub open spec fn thumb_h(visible: int, total: int) -> int {
    let h = 98 * visible / total;
    if h < 4 { 4 } else { h }
}

/// Top of the scrollbar thumb: the scrolled share of the free track.
pub open spec fn thumb_y(start: int, visible: int, total: int) -> int {
    DRAFT_TOP + 2 + (98 - thumb_h(visible, total)) * start / (total - visible)
}

/// The scrollbar: nothing when everything fits; otherwise a dim track down
/// the right edge and the accent thumb on it.
pub open spec fn scrollbar_cmds(theme: Theme, start: int, visible: int, total: int) -> Seq<Cmd> {
    if total <= visible {
        Seq::empty()
    } else {
        seq![
            fill_cmd(WIDTH - 3int, DRAFT_TOP + 2int, 2, 98, theme.divider),
            fill_cmd(WIDTH - 3int, thumb_y(start, visible, total), 2, thumb_h(visible, total), theme.accent),
        ]
    }
}

/// The scrollable reader: clear, header, the window of rows from the
/// clamped offset, the scrollbar, and the footer hints. The body keeps its
/// last 256 wrapped rows.
pub open spec fn scrolled_cmds(theme: Theme, header: Seq<char>, body: Seq<char>, scroll: nat) -> Seq<Cmd> {
    let rows = keep_last(wrap_rows(body), 256);
    let start = scroll_start(rows.len(), scroll);
    let end = scroll_end(rows.len(), scroll);
    seq![Cmd::Clear { color: theme.bg }]
        + header_bar_cmds(theme, header)
        + rows_cmds(rows.subrange(start as int, end as int), DRAFT_TOP + 2, theme.text)
        + scrollbar_cmds(theme, start as int, CONTENT_ROWS as int, rows.len() as int)
        + footer_cmds(theme, "WS scroll  D=type  L=back"@)
}

impl Ui {
    /// Full-screen reply view (used at the start of streaming and for
    /// errors): clears, draws the header, and shows the tail of `body`
    /// wrapped to the screen width.
    pub fn response(target: &mut DisplayList, theme: &Theme, header: &str, body: &str)
        ensures final(target)@ == old(target)@ + response_cmds(*theme, header@, body@),
    {
        Self::clear(target, theme);
        Self::header_bar(target, theme, header);

        // Tail view: keep only the last screenful of wrapped rows.
        let max_rows: usize = ((HEIGHT as i32 - (DRAFT_TOP + 2)) / LINE_H) as usize;
        let mut rows: heapless::Vec<Row, 64> = rows64_new();
        wrap_into(body, &mut rows);
        let ghost kept = rows.rows();

        let n = rows.row_count();
        let start = n.saturating_sub(max_rows);
        let ghost shown = kept.subrange(start as int, n as int);
        proof {
            lemma_keep_last_twice(wrap_rows(body@), 64, 10);
            assert(shown =~= keep_last(kept, 10));
        }
        let ghost base = target@;
        let mut y: i32 = DRAFT_TOP + 2;
        let mut i: usize = start;
        while i < n
            invariant
                start <= i <= n,
                n == kept.len(),
                n - start <= 10,
                kept == rows.rows(),
                shown == kept.subrange(start as int, n as int),
                y == DRAFT_TOP + 2 + LINE_H * (i - start),
                target@ == base + rows_cmds(shown, DRAFT_TOP + 2, theme.text).take(i - start),
            decreases n - i,
        {
            Self::text_chars(target, row_chars(rows.row_at(i)), 3, y, theme.text);
            proof {
                assert(rows_cmds(shown, DRAFT_TOP + 2, theme.text).take(i - start + 1)
                    =~= rows_cmds(shown, DRAFT_TOP + 2, theme.text).take(i - start).push(
                        rows_cmds(shown, DRAFT_TOP + 2, theme.text)[i - start]));
            }
            y = y + LINE_H;
            i = i + 1;
        }
        proof {
            assert(rows_cmds(shown, DRAFT_TOP + 2, theme.text).take(n - start) =~= rows_cmds(shown, DRAFT_TOP + 2, theme.text));
            assert(target@ =~= old(target)@ + response_cmds(*theme, header@, body@));
        }
    }
}

/// The scrollbar thumb stays on its track; it sits at the top when the view
/// is scrolled to the start and reaches the bottom at the last offset.
pub proof fn lemma_thumb_on_track(start: int, visible: int, total: int)
    requires
        0 <= visible < total,
        0 <= start <= total - visible,
    ensures
        4 <= thumb_h(visible, total) <= 98,
        DRAFT_TOP + 2 <= thumb_y(start, visible, total),
        thumb_y(start, visible, total) + thumb_h(visible, total) <= FOOTER_DIV,
        start == 0 ==> thumb_y(start, visible, total) == DRAFT_TOP + 2,
        start == total - visible ==> thumb_y(start, visible, total) + thumb_h(visible, total) == FOOTER_DIV,
{
    let h = 98 * visible / total;
    assert(0 <= h < 98) by (nonlinear_arith)
        requires 0 <= visible < total, h == 98 * visible / total;
    let free = 98 - thumb_h(visible, total);
    let q = free * start / (total - visible);
    assert(0 <= q <= free) by (nonlinear_arith)
        requires 0 <= free, 0 <= start <= total - visible, total - visible > 0, q == free * start / (total - visible);
    if start == total - visible {
        assert(q == free) by (nonlinear_arith)
            requires total - visible > 0, start == total - visible, q == free * start / (total - visible);
    }
    if start == 0 {
        assert(q == 0) by (nonlinear_arith)
            requires total - visible > 0, start == 0, q == free * start / (total - visible);
    }
}

/// Scrolling down never moves the scrollbar thumb up: its height does not
/// depend on the offset, and its top grows with the offset.
pub proof fn lemma_thumb_monotone(s1: int, s2: int, visible: int, total: int)
    requires
        0 <= visible < total,
        0 <= s1 <= s2 <= total - visible,
    ensures
        thumb_y(s1, visible, total) <= thumb_y(s2, visible, total),
{
    lemma_thumb_on_track(s1, visible, total);
    let free = 98 - thumb_h(visible, total);
    vstd::arithmetic::mul::lemma_mul_inequality(s1, s2, free);
    assert(free * s1 == s1 * free) by (nonlinear_arith);
    assert(free * s2 == s2 * free) by (nonlinear_arith);
    vstd::arithmetic::div_mod::lemma_div_is_ordered(free * s1, free * s2, total - visible);
}

impl Ui {
    /// Streaming hot-loop repaint: never blanks the panel, so it cannot
    /// flicker. Overwrites the header and every visible row in place with
    /// opaque text padded to the full width.
    pub fn response_stream(target: &mut DisplayList, theme: &Theme, header: &str, body: &str)
        ensures final(target)@ == old(target)@ + stream_cmds(*theme, header@, body@),
    {
        let max_rows: usize = ((HEIGHT as i32 - (DRAFT_TOP + 2)) / LINE_H) as usize;

        // Header band (surface fill + opaque title + wifi logo + divider).
        Self::fill(target, 0, 0, WIDTH, DRAFT_TOP as u32 - 1, theme.surface);

        // Header padded so a shorter header overwrites the previous one,
        // leaving the right end clear for the wifi logo.
        let hdr = fit_to_cells(&chars_of(header), COLS - 3);
        target.push(DrawOp::Text {
            x: 3,
            y: STATUS_TOP + 2,
            text: hdr,
            font: Font::Small,
            color: theme.on_surface,
            background: Some(theme.surface),
        });
        Self::wifi_icon(target, WIDTH as i32 - 3, theme.on_surface);
        Self::hline(target, DRAFT_TOP - 1, theme.divider);

        let mut rows: heapless::Vec<Row, 64> = rows64_new();
        wrap_into(body, &mut rows);
        let ghost kept = rows.rows();
        let n = rows.row_count();
        let start = n.saturating_sub(max_rows);
        let ghost visible = kept.subrange(start as int, n as int);
        proof {
            lemma_keep_last_twice(wrap_rows(body@), 64, 10);
            assert(visible =~= keep_last(kept, 10));
        }
        let ghost grid = Seq::new(TAIL_ROWS as nat, |k: int| opaque_text_cmd(stream_line(visible, k), 3, DRAFT_TOP + 2 + LINE_H * k, theme.text, theme.bg));
        let ghost base = target@;

        // Redraw a full grid every time, padding each row (and blanking
        // unused rows) to the full width so the body region is repainted in
        // place, no clear.
        let mut y: i32 = DRAFT_TOP + 2;
        let mut i: usize = 0;
        while i < max_rows
            invariant
                max_rows == TAIL_ROWS,
                i <= max_rows,
                n == kept.len(),
                kept == rows.rows(),
                start == (if n > 10 { n - 10 } else { 0 }),
                visible == kept.subrange(start as int, n as int),
                grid == Seq::new(TAIL_ROWS as nat, |k: int| opaque_text_cmd(stream_line(visible, k), 3, DRAFT_TOP + 2 + LINE_H * k, theme.text, theme.bg)),
                y == DRAFT_TOP + 2 + LINE_H * i,
                target@ == base + grid.take(i as int),
            decreases max_rows - i,
        {
            let src = if start + i < n { row_chars(rows.row_at(start + i)) } else { Vec::new() };
            let line = fit_to_cells(&src, COLS);
            proof {
                if !(start + i < n) {
                    assert(src@ =~= Seq::<char>::empty());
                    assert(Seq::<char>::empty() + spaces(COLS as nat) =~= spaces(COLS as nat));
                }
                assert(line@ == stream_line(visible, i as int));
            }
            target.push(DrawOp::Text {
                x: 3,
                y,
                text: line,
                font: Font::Small,
                color: theme.text,
                background: Some(theme.bg),
            });
            proof {
                assert(grid.take(i + 1) =~= grid.take(i as int).push(grid[i as int]));
            }
            y = y + LINE_H;
            i = i + 1;
        }
        proof {
            assert(grid.take(10) =~= grid);
            assert(target@ =~= old(target)@ + stream_cmds(*theme, header@, body@));
        }
    }
}

impl Ui {
    fn draw_scrollbar(target: &mut DisplayList, theme: &Theme, start_row: usize, visible_rows: usize, total_rows: usize)
        requires
            total_rows <= 256,
            visible_rows <= 256,
            total_rows > visible_rows ==> start_row <= total_rows - visible_rows,
        ensures
            final(target)@ == old(target)@ + scrollbar_cmds(*theme, start_row as int, visible_rows as int, total_rows as int),
    {
        if total_rows <= visible_rows {
            proof { assert(target@ =~= old(target)@ + Seq::<Cmd>::empty()); }
            return;
        }
        let area_h: i32 = FOOTER_DIV - (DRAFT_TOP + 2);
        proof {
            assert(0 <= 98 * visible_rows <= 98 * 256) by (nonlinear_arith)
                requires visible_rows <= 256;
            lemma_thumb_on_track(start_row as int, visible_rows as int, total_rows as int);
        }
        let bar_h = (area_h * visible_rows as i32 / total_rows as i32).max(4);
        proof {
            assert(0 <= (98 - bar_h) * start_row <= 98 * 256) by (nonlinear_arith)
                requires 0 <= 98 - bar_h <= 98, start_row <= 256;
        }
        let bar_y = DRAFT_TOP + 2 + (area_h - bar_h) * start_row as i32 / (total_rows - visible_rows) as i32;
        // Track (dim) then thumb (accent).
        Self::fill(target, WIDTH as i32 - 3, DRAFT_TOP + 2, 2, area_h as u32, theme.divider);
        Self::fill(target, WIDTH as i32 - 3, bar_y, 2, bar_h as u32, theme.accent);
        proof {
            assert(target@ =~= old(target)@ + scrollbar_cmds(*theme, start_row as int, visible_rows as int, total_rows as int));
        }
    }

    /// Scrollable reply view (the read-after-streaming mode): a window of
    /// rows starting `scroll_lines` from the top, clamped so the last screen
    /// is full, with a scrollbar and footer hints.
    pub fn response_scrolled(target: &mut DisplayList, theme: &Theme, header: &str, body: &str, scroll_lines: usize)
        ensures final(target)@ == old(target)@ + scrolled_cmds(*theme, header@, body@, scroll_lines as nat),
    {
        Self::clear(target, theme);
        Self::header_bar(target, theme, header);

        let max_rows = CONTENT_ROWS;
        let mut rows: heapless::Vec<Row, 256> = rows256_new();
        wrap_into(body, &mut rows);
        let ghost kept = rows.rows();

        let n = rows.row_count();
        let max_start = n.saturating_sub(max_rows);
        let start = scroll_lines.min(max_start);
        let end = (start + max_rows).min(n);
        proof {
            assert(start == scroll_start(n as nat, scroll_lines as nat));
            assert(end == scroll_end(n as nat, scroll_lines as nat));
        }
        let ghost shown = kept.subrange(start as int, end as int);
        let ghost base = target@;

        let mut y: i32 = DRAFT_TOP + 2;
        let mut i: usize = start;
        while i < end
            invariant
                start <= i <= end,
                end <= n,
                end - start <= 8,
                n == kept.len(),
                kept == rows.rows(),
                shown == kept.subrange(start as int, end as int),
                y == DRAFT_TOP + 2 + LINE_H * (i - start),
                target@ == base + rows_cmds(shown, DRAFT_TOP + 2, theme.text).take(i - start),
            decreases end - i,
        {
            Self::text_chars(target, row_chars(rows.row_at(i)), 3, y, theme.text);
            proof {
                assert(rows_cmds(shown, DRAFT_TOP + 2, theme.text).take(i - start + 1)
                    =~= rows_cmds(shown, DRAFT_TOP + 2, theme.text).take(i - start).push(
                        rows_cmds(shown, DRAFT_TOP + 2, theme.text)[i - start]));
            }
            y = y + LINE_H;
            i = i + 1;
        }
        proof {
            assert(rows_cmds(shown, DRAFT_TOP + 2, theme.text).take(end - start) =~= rows_cmds(shown, DRAFT_TOP + 2, theme.text));
        }

        Self::draw_scrollbar(target, theme, start, max_rows, n);
        Self::footer_hints(target, theme, "WS scroll  D=type  L=back");
        proof {
            assert(target@ =~= old(target)@ + scrolled_cmds(*theme, header@, body@, scroll_lines as nat));
        }
    }

    /// Number of wrapped rows the body produces, and how many fit on one
    /// scroll screen; used to clamp the scroll offset. Rows are counted by
    /// the wrapping rule itself, so the count is the reader's row budget.
    pub fn wrapped_row_count(body: &str) -> (r: (usize, usize))
        requires body@.len() < usize::MAX,
        ensures
            r.0 == wrap_rows(body@).len(),
            r.1 == CONTENT_ROWS,
    {
        let mut rows: usize = 1;
        // Bytes held by the row being filled.
        let mut col: usize = 0;
        for ch in it: body.chars()
            invariant
                it.seq() == body@,
                body@.len() < usize::MAX,
                rows == wrap_state(body@.take(it.index() as int)).0.len() + 1,
                col == utf8_len(wrap_state(body@.take(it.index() as int)).1),
                rows <= it.index() + 1,
        {
            let ghost pre = body@.take(it.index() as int);
            proof {
                assert(body@.take(it.index() + 1).drop_last() =~= pre);
                lemma_utf8_len_empty();
                crate::rows::lemma_wrap_cur_fits(pre);
                let cur = wrap_state(pre).1;
                let cur1 = if ch == '\n' || utf8_len(cur) >= COLS { Seq::<char>::empty() } else { cur };
                lemma_utf8_len_push(cur1, ch);
            }
            if ch == '\n' || col >= COLS {
                rows += 1;
                col = 0;
            }
            if ch != '\n' {
                let w = char_len(ch);
                if col + w <= COLS {
                    col += w;
                }
            }
        }
        proof { assert(body@.take(body@.len() as int) =~= body@); }
        (rows, CONTENT_ROWS)
    }
}

/// The streaming repaint never blanks the panel: it holds no clear, its
/// header title covers exactly `COLS - 3` cells (so a shorter title covers a
/// longer one, and the wifi logo stays clear), and it repaints a full grid of
/// `TAIL_ROWS` opaque lines, each exactly `COLS` cells wide, one line apart
/// from just below the header.
pub proof fn lemma_stream_in_place(theme: Theme, header: Seq<char>, body: Seq<char>)
    ensures ({
        let cmds = stream_cmds(theme, header, body);
        let visible = keep_last(wrap_rows(body), TAIL_ROWS as nat);
        &&& forall|j: int| 0 <= j < cmds.len() ==> !(#[trigger] cmds[j] is Clear)
        &&& cmds.len() == 7 + TAIL_ROWS
        &&& cmds[1] == opaque_text_cmd(stream_title(header), 3, STATUS_TOP + 2, theme.on_surface, theme.surface)
        &&& stream_title(header).len() == COLS - 3
        &&& forall|k: int| 0 <= k < TAIL_ROWS ==> {
            &&& #[trigger] cmds[7 + k] == opaque_text_cmd(stream_line(visible, k), 3, DRAFT_TOP + 2 + LINE_H * k, theme.text, theme.bg)
            &&& stream_line(visible, k).len() == COLS
        }
    }),
{
}

/// Two draw steps paint the same cells in the same colours: they are equal
/// but for the characters of their text, of which they have as many.
pub open spec fn same_cells(a: Cmd, b: Cmd) -> bool {
    match a {
        Cmd::Text { x, y, text, font, color, background } => match b {
            Cmd::Text { x: x2, y: y2, text: text2, font: font2, color: color2, background: background2 } =>
                x == x2 && y == y2 && text.len() == text2.len() && font == font2 && color == color2 && background == background2,
            _ => false,
        },
        _ => a == b,
    }
}

/// No ghosting: in one theme, any two streaming repaints paint exactly the
/// same cells, opaquely and in the same colours, whatever their headers and
/// bodies. So each frame covers everything an earlier, longer frame drew,
/// and repeating a frame repaints the same cells with the same glyphs.
pub proof fn lemma_stream_no_ghosting(theme: Theme, h1: Seq<char>, b1: Seq<char>, h2: Seq<char>, b2: Seq<char>)
    ensures ({
        let c1 = stream_cmds(theme, h1, b1);
        let c2 = stream_cmds(theme, h2, b2);
        &&& c1.len() == c2.len()
        &&& forall|j: int| 0 <= j < c1.len() ==> same_cells(#[trigger] c1[j], c2[j])
    }),
{
    let c1 = stream_cmds(theme, h1, b1);
    let c2 = stream_cmds(theme, h2, b2);
    lemma_stream_in_place(theme, h1, b1);
    lemma_stream_in_place(theme, h2, b2);
    assert forall|j: int| 0 <= j < c1.len() implies same_cells(#[trigger] c1[j], c2[j]) by {
        if j >= 7 {
            let k = j - 7;
            assert(c1[7 + k] == c1[j]);
        }
    }
}

/// Below the header the streaming repaint shows what the tail view shows:
/// the same rows, in the same order, at the same places and in the same
/// colour. Line `k` of the grid begins with the tail view's row `k` and is
/// padded with spaces; the lines past the last row are blank.
pub proof fn lemma_stream_matches_tail(theme: Theme, header: Seq<char>, body: Seq<char>)
    ensures ({
        let stream = stream_cmds(theme, header, body);
        let tail = response_cmds(theme, header, body);
        let visible = keep_last(wrap_rows(body), TAIL_ROWS as nat);
        let top = 1 + header_bar_cmds(theme, header).len();
        &&& tail.len() == top + visible.len()
        &&& visible.len() <= TAIL_ROWS
        &&& forall|k: int| 0 <= k < visible.len() ==> {
            &&& #[trigger] tail[top + k] == text_cmd(visible[k], 3, DRAFT_TOP + 2 + LINE_H * k, theme.text)
            &&& stream[7 + k] == opaque_text_cmd(stream_line(visible, k), 3, DRAFT_TOP + 2 + LINE_H * k, theme.text, theme.bg)
            &&& stream_line(visible, k) == visible[k] + spaces((COLS - visible[k].len()) as nat)
        }
        &&& forall|k: int| visible.len() <= k < TAIL_ROWS ==> #[trigger] stream_line(visible, k) == spaces(COLS as nat)
    }),
{
    let visible = keep_last(wrap_rows(body), TAIL_ROWS as nat);
    crate::rows::lemma_wrap_rows_fit(body);
    assert forall|k: int| 0 <= k < visible.len() implies #[trigger] visible[k].len() <= COLS by {
        let w = wrap_rows(body);
        assert(visible[k] == w[w.len() - visible.len() + k]);
        crate::text::lemma_utf8_len_bounds(visible[k]);
    }
}

/// The row count and the reader agree: with `n` the count of wrapped rows
/// (what `wrapped_row_count` returns), the reader at offset 0 starts at the
/// first row it keeps, and at offset `n - CONTENT_ROWS` (or 0) it shows its
/// last screen, ending with the body's last row. A body of at most 256 rows
/// keeps them all.
pub proof fn lemma_count_clamps_reader(body: Seq<char>)
    ensures ({
        let n = wrap_rows(body).len();
        let kept = keep_last(wrap_rows(body), 256);
        let last_offset: nat = if n > CONTENT_ROWS { (n - CONTENT_ROWS) as nat } else { 0 };
        &&& n <= 256 ==> kept == wrap_rows(body)
        &&& kept.len() > 0 && kept.last() == wrap_rows(body).last()
        &&& scroll_start(kept.len(), 0) == 0
        &&& scroll_end(kept.len(), last_offset) == kept.len()
        &&& scroll_end(kept.len(), last_offset) - scroll_start(kept.len(), last_offset)
            == if kept.len() < CONTENT_ROWS { kept.len() } else { CONTENT_ROWS as nat }
    }),
{
}

/// The reader's window: it shows as many rows as fit, never runs past the
/// last row, and an offset at or past the end shows the last full screen.
pub proof fn lemma_scroll_window(total: nat, scroll: nat)
    ensures
        scroll_start(total, scroll) <= scroll_end(total, scroll) <= total,
        scroll_end(total, scroll) - scroll_start(total, scroll) == if total < CONTENT_ROWS { total } else { CONTENT_ROWS as nat },
        scroll_start(total, scroll) <= scroll,
        total >= CONTENT_ROWS && scroll + CONTENT_ROWS >= total ==> scroll_end(total, scroll) == total,
{
}

} // verus!
