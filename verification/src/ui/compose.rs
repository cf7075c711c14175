//! The compose / keyboard view.
use vstd::prelude::*;
use crate::canvas::{Cmd, DisplayList, DrawOp, fill_cmd, text_cmd};
use crate::keyboard::KeyboardView;
use crate::layout::{WIDTH, STATUS_TOP, DRAFT_TOP, GUIDE_TOP, COLS, LINE_H};
use crate::text::{cap_append, cap_write, chars_of, decimal, decimal_digits, append_within, same_chars, utf8_len, str_bytes, bytes_capped};
use crate::theme::{Color565, Theme};
use crate::ui::{Ui, bold_cmds, hline_cmd, wifi_cmds};

verus! {

/// The header prompt and its colour: a transient status wins, then the
/// action layer, then step 2 of typing, else the AI persona name.
pub open spec fn status_label(theme: Theme, kb: KeyboardView, title: Seq<char>, status: Seq<char>) -> (Seq<char>, Color565) {
    if status.len() > 0 {
        (status, theme.warn)
    } else if kb.action_armed {
        ("ACTION: pick one"@, theme.warn)
    } else if kb.active_group is Some {
        ("STEP 2: pick letter"@, theme.accent)
    } else {
        (title, theme.on_surface)
    }
}

/// The header text, built in a 32-byte buffer: the persona name is shown as
/// "AI: <name>"; a label that does not fit is left out.
pub open spec fn header_label(label: Seq<char>, title: Seq<char>) -> Seq<char> {
    if label == title {
        cap_write(Seq::empty(), "AI: "@, label, 32)
    } else {
        cap_append(Seq::empty(), label, 32)
    }
}

/// The right side of the header, built in a 12-byte buffer: "CAPS " when
/// caps lock is on, then "s" and the number of suggestions.
pub open spec fn status_right(kb: KeyboardView) -> Seq<char> {
    let caps = if kb.caps { cap_append(Seq::empty(), "CAPS "@, 12) } else { Seq::empty() };
    cap_write(caps, "s"@, decimal(kb.candidates@.len()), 12)
}

/// Compose-mode header: the prompt on the surface bar, the CAPS flag and
/// suggestion count right-aligned left of the wifi logo, then the divider.
pub open spec fn status_cmds(theme: Theme, kb: KeyboardView, title: Seq<char>, status: Seq<char>) -> Seq<Cmd> {
    let (label, color) = status_label(theme, kb, title, status);
    let right = status_right(kb);
    seq![fill_cmd(0, 0, WIDTH as int, DRAFT_TOP - 1, theme.surface)]
        + bold_cmds(header_label(label, title), 3, STATUS_TOP + 2, color)
        + seq![text_cmd(right, WIDTH - 16 - 6 * utf8_len(right), STATUS_TOP + 2, theme.on_surface)]
        + wifi_cmds(WIDTH - 3int, theme.on_surface)
        + seq![hline_cmd(DRAFT_TOP - 1int, theme.divider)]
}

impl Ui {
    /// Compose-mode header: a state-aware step prompt plus CAPS and the
    /// suggestion count, all drawn on the surface bar.
    fn draw_status(target: &mut DisplayList, theme: &Theme, kb: &KeyboardView, title: &str, status: &str)
        ensures final(target)@ == old(target)@ + status_cmds(*theme, *kb, title@, status@),
    {
        Self::fill(target, 0, 0, WIDTH, DRAFT_TOP as u32 - 1, theme.surface);

        let title_chars = chars_of(title);
        let (label, color) = if !status.is_empty() {
            (chars_of(status), theme.warn)
        } else if kb.action_armed {
            (chars_of("ACTION: pick one"), theme.warn)
        } else if kb.active_group.is_some() {
            (chars_of("STEP 2: pick letter"), theme.accent)
        } else {
            (title_chars.clone(), theme.on_surface)
        };
        proof { assert((label@, color) == status_label(*theme, *kb, title@, status@)); }

        let mut final_label: Vec<char> = Vec::new();
        if same_chars(&label, &title_chars) {
            if append_within(&mut final_label, &chars_of("AI: "), 32) {
                let _ = append_within(&mut final_label, &label, 32);
            }
        } else {
            let _ = append_within(&mut final_label, &label, 32);
        }
        proof {
            assert(Seq::<char>::empty() + "AI: "@ =~= "AI: "@);
            assert(final_label@ == header_label(label@, title@));
        }
        Self::text_bold(target, final_label, 3, STATUS_TOP + 2, color);

        // Right side: CAPS flag + live suggestion count, left of the wifi logo.
        let mut right: Vec<char> = Vec::new();
        if kb.caps {
            let _ = append_within(&mut right, &chars_of("CAPS "), 12);
        }
        if append_within(&mut right, &chars_of("s"), 12) {
            let _ = append_within(&mut right, &decimal_digits(kb.candidates.len()), 12);
        }
        proof {
            let caps = if kb.caps { cap_append(Seq::empty(), "CAPS "@, 12) } else { Seq::<char>::empty() };
            assert(caps + "s"@ == caps.add("s"@));
            assert(right@ == status_right(*kb));
            crate::text::lemma_utf8_len_empty();
            crate::text::lemma_cap_write_fits(Seq::empty(), "CAPS "@, Seq::empty(), 12);
            crate::text::lemma_cap_write_fits(caps, "s"@, decimal(kb.candidates@.len()), 12);
        }
        let w = bytes_capped(&right, 12) as i32 * 6;
        let right_edge = WIDTH as i32 - 16; // leave room for the wifi logo
        Self::text_chars(target, right, right_edge - w, STATUS_TOP + 2, theme.on_surface);
        Self::wifi_icon(target, WIDTH as i32 - 3, theme.on_surface);

        Self::hline(target, DRAFT_TOP - 1, theme.divider);
        proof {
            assert(target@ =~= old(target)@ + status_cmds(*theme, *kb, title@, status@));
        }
    }
}

/// Draft layout state: the pen position, the column in the current line,
/// whether the draft zone is full, and the glyphs drawn so far.
pub struct Pen {
    pub x: int,
    pub y: int,
    pub col: int,
    pub done: bool,
    pub cmds: Seq<Cmd>,
}

/// Characters per draft line: one column of padding inside the frame.
pub open spec fn draft_cols() -> int {
    COLS - 1
}

/// The lowest line top that still fits above the guidance zone.
pub open spec fn draft_last_y() -> int {
    GUIDE_TOP - LINE_H
}

/// What is drawn for one character: the character, drawn from a 2-byte
/// buffer, so a character of 3 or 4 UTF-8 bytes draws as nothing.
pub open spec fn glyph(ch: char) -> Seq<char> {
    if crate::text::char_utf8_len(ch) <= 2 { seq![ch] } else { Seq::empty() }
}

/// One character of draft layout. A full line (or, when `newlines` holds, a
/// `'\n'`) moves the pen to the start of the next line; a `'\n'` draws
/// nothing; once a line would start below the draft zone, layout stops.
pub open spec fn pen_step(p: Pen, ch: char, newlines: bool, color: Color565) -> Pen {
    if p.done {
        p
    } else {
        let nl = newlines && ch == '\n';
        let wrap = nl || p.col >= draft_cols();
        let x = if wrap { 4 } else { p.x };
        let y = if wrap { p.y + LINE_H } else { p.y };
        let col = if wrap { 0 } else { p.col };
        if nl {
            Pen { x, y, col, done: false, cmds: p.cmds }
        } else if y > draft_last_y() {
            Pen { x, y, col, done: true, cmds: p.cmds }
        } else {
            Pen { x: x + 6, y, col: col + 1, done: false, cmds: p.cmds.push(text_cmd(glyph(ch), x, y, color)) }
        }
    }
}

/// Draft layout of `s` from pen `p`.
pub open spec fn pen_run(p: Pen, s: Seq<char>, newlines: bool, color: Color565) -> Pen
    decreases s.len(),
{
    if s.len() == 0 {
        p
    } else {
        pen_step(pen_run(p, s.drop_last(), newlines, color), s.last(), newlines, color)
    }
}

/// The pen at the top-left of the draft zone.
pub open spec fn draft_start() -> Pen {
    Pen { x: 4, y: DRAFT_TOP + 3, col: 0, done: false, cmds: Seq::empty() }
}

/// The same position, with nothing drawn yet.
pub open spec fn resume(p: Pen) -> Pen {
    Pen { x: p.x, y: p.y, col: p.col, done: false, cmds: Seq::empty() }
}

/// Draft zone: the input frame, the typed text wrapped inside it, then
/// either a thin caret and the dim ghost completion, or a block cursor.
pub open spec fn draft_cmds(theme: Theme, kb: KeyboardView) -> Seq<Cmd> {
    let p1 = pen_run(draft_start(), kb.text@, true, theme.text);
    let tail = match kb.completion_suffix {
        Some(sfx) => seq![fill_cmd(p1.x, p1.y, 1, 9, theme.accent)]
            + pen_run(resume(p1), sfx@, false, theme.dim).cmds,
        None => if p1.y <= draft_last_y() { seq![fill_cmd(p1.x, p1.y, 6, 9, theme.accent)] } else { Seq::empty() },
    };
    seq![Cmd::Frame { x: 1, y: DRAFT_TOP as int, w: WIDTH - 2, h: GUIDE_TOP - 2 - DRAFT_TOP, color: theme.divider }]
        + p1.cmds + tail
}

/// Moving one cell along a run of `draft_cols()`-wide lines.
proof fn lemma_next_cell(m: int)
    requires m >= 0,
    ensures
        m % 25 == 24 ==> (m + 1) % 25 == 0 && (m + 1) / 25 == m / 25 + 1,
        m % 25 != 24 ==> (m + 1) % 25 == m % 25 + 1 && (m + 1) / 25 == m / 25,
{
}

/// Text laid out from a fresh pen at column `col` fills lines of
/// `draft_cols()` (25) cells, left to right, wrapping to column 0 of the next
/// line when one is full: character `i` lands in cell `col + i`, that is at
/// column `(col + i) % 25` of line `(col + i) / 25`. While the last
/// character's line is still above the guide zone, every character is drawn
/// there, one glyph each, and layout goes on. This holds for the ghost
/// completion (no newline handling) and for typed text without newlines.
pub proof fn lemma_layout_fills_lines(p: Pen, s: Seq<char>, newlines: bool, color: Color565)
    requires
        !p.done,
        0 <= p.col <= draft_cols(),
        p.x == 4 + 6 * p.col,
        p.cmds == Seq::<Cmd>::empty(),
        newlines ==> forall|i: int| 0 <= i < s.len() ==> s[i] != '\n',
        s.len() > 0 ==> p.y + LINE_H * ((p.col + s.len() - 1) / 25) <= draft_last_y(),
    ensures ({
        let r = pen_run(p, s, newlines, color);
        &&& !r.done
        &&& r.cmds.len() == s.len()
        &&& forall|i: int| 0 <= i < s.len() ==> #[trigger] r.cmds[i]
            == text_cmd(glyph(s[i]), 4 + 6 * ((p.col + i) % 25), p.y + LINE_H * ((p.col + i) / 25), color)
        &&& s.len() > 0 ==> r.col == (p.col + s.len() - 1) % 25 + 1 && r.x == 4 + 6 * r.col
            && r.y == p.y + LINE_H * ((p.col + s.len() - 1) / 25)
    }),
    decreases s.len(),
{
    if s.len() > 0 {
        let s0 = s.drop_last();
        let n = s.len();
        if n > 1 {
            vstd::arithmetic::div_mod::lemma_div_is_ordered(p.col + n - 2, p.col + n - 1, 25);
        }
        lemma_layout_fills_lines(p, s0, newlines, color);
        let a = pen_run(p, s0, newlines, color);
        let ch = s.last();
        assert(s[n - 1] == ch);
        assert forall|i: int| 0 <= i < s0.len() implies #[trigger] s0[i] == s[i] by {}
        if n > 1 {
            lemma_next_cell(p.col + n - 2);
        }
        let r = pen_run(p, s, newlines, color);
        assert(r == pen_step(a, ch, newlines, color));
        assert forall|i: int| 0 <= i < s.len() implies #[trigger] r.cmds[i]
            == text_cmd(glyph(s[i]), 4 + 6 * ((p.col + i) % 25), p.y + LINE_H * ((p.col + i) / 25), color) by {
            if i < n - 1 {
                assert(r.cmds[i] == a.cmds[i]);
            }
        }
    } else {
        assert(pen_run(p, s, newlines, color) == p);
    }
}

proof fn lemma_cell_after(n: int, j: int)
    requires n >= 1, j >= 0,
    ensures
        (n - 1) / 25 + ((n - 1) % 25 + 1 + j) / 25 == (n + j) / 25,
        ((n - 1) % 25 + 1 + j) % 25 == (n + j) % 25,
{
    let q = (n - 1) / 25;
    let r = (n - 1) % 25;
    vstd::arithmetic::div_mod::lemma_fundamental_div_mod(n - 1, 25);
    assert(n + j == 25 * q + (r + 1 + j));
    vstd::arithmetic::div_mod::lemma_hoist_over_denominator(r + 1 + j, q, 25);
    assert(q * 25 == 25 * q) by (nonlinear_arith);
    vstd::arithmetic::div_mod::lemma_mod_multiples_vanish(q, r + 1 + j, 25);
}

/// The draft with a ghost completion, for typed text without newlines that
/// fits above the guide zone together with its completion: the frame, then
/// typed character `i` in cell `i` (25 cells a line, from the top-left of the
/// draft zone) in the text colour, then the thin caret just after the last
/// typed character, then ghost character `j` in cell `n + j`, dimmed: the
/// completion continues in the very next cells, wrapping as the typed text
/// does.
pub proof fn lemma_draft_ghost_continues(theme: Theme, kb: KeyboardView)
    requires
        kb.completion_suffix is Some,
        forall|i: int| 0 <= i < kb.text@.len() ==> kb.text@[i] != '\n',
        kb.text@.len() + kb.completion_suffix->0@.len() > 0 ==>
            DRAFT_TOP + 3 + LINE_H * ((kb.text@.len() + kb.completion_suffix->0@.len() - 1) / 25) <= draft_last_y(),
    ensures ({
        let d = draft_cmds(theme, kb);
        let t = kb.text@;
        let g = kb.completion_suffix->0@;
        let n = t.len() as int;
        let caret_x: int = if n == 0 { 4 } else { 4 + 6 * ((n - 1) % 25 + 1) };
        let caret_y: int = if n == 0 { DRAFT_TOP + 3 } else { DRAFT_TOP + 3 + LINE_H * ((n - 1) / 25) };
        &&& d.len() == 2 + n + g.len()
        &&& forall|i: int| 0 <= i < n ==> #[trigger] d[1 + i]
            == text_cmd(glyph(t[i]), 4 + 6 * (i % 25), DRAFT_TOP + 3 + LINE_H * (i / 25), theme.text)
        &&& d[1 + n] == fill_cmd(caret_x, caret_y, 1, 9, theme.accent)
        &&& forall|j: int| 0 <= j < g.len() ==> #[trigger] d[2 + n + j]
            == text_cmd(glyph(g[j]), 4 + 6 * ((n + j) % 25), DRAFT_TOP + 3 + LINE_H * ((n + j) / 25), theme.dim)
    }),
{
    let t = kb.text@;
    let g = kb.completion_suffix->0@;
    let n = t.len() as int;
    let m = g.len() as int;
    if n > 0 {
        vstd::arithmetic::div_mod::lemma_div_is_ordered(n - 1, n + m - 1, 25);
    }
    lemma_layout_fills_lines(draft_start(), t, true, theme.text);
    let p1 = pen_run(draft_start(), t, true, theme.text);
    let q = resume(p1);
    if m > 0 {
        if n > 0 {
            lemma_cell_after(n, m - 1);
        }
    }
    lemma_layout_fills_lines(q, g, false, theme.dim);
    let ghost_cmds = pen_run(q, g, false, theme.dim).cmds;
    let d = draft_cmds(theme, kb);
    let frame = seq![Cmd::Frame { x: 1, y: DRAFT_TOP as int, w: WIDTH - 2, h: GUIDE_TOP - 2 - DRAFT_TOP, color: theme.divider }];
    let caret = seq![fill_cmd(p1.x, p1.y, 1, 9, theme.accent)];
    assert(d == frame + p1.cmds + (caret + ghost_cmds));
    assert forall|j: int| 0 <= j < m implies #[trigger] d[2 + n + j]
        == text_cmd(glyph(g[j]), 4 + 6 * ((n + j) % 25), DRAFT_TOP + 3 + LINE_H * ((n + j) / 25), theme.dim) by {
        assert(d[2 + n + j] == ghost_cmds[j]);
        if n > 0 {
            lemma_cell_after(n, j);
        }
    }
    assert forall|i: int| 0 <= i < n implies #[trigger] d[1 + i]
        == text_cmd(glyph(t[i]), 4 + 6 * (i % 25), DRAFT_TOP + 3 + LINE_H * (i / 25), theme.text) by {
        assert(d[1 + i] == p1.cmds[i]);
    }
}

/// Once layout has stopped, further characters change nothing.
proof fn lemma_pen_run_stops(p: Pen, s: Seq<char>, i: int, j: int, newlines: bool, color: Color565)
    requires
        0 <= i <= j <= s.len(),
        pen_run(p, s.take(i), newlines, color).done,
    ensures pen_run(p, s.take(j), newlines, color) == pen_run(p, s.take(i), newlines, color),
    decreases j - i,
{
    if j > i {
        lemma_pen_run_stops(p, s, i, j - 1, newlines, color);
        assert(s.take(j).drop_last() =~= s.take(j - 1));
    }
}

/// Lays `s` out from the pen (`x`, `y`, `col`), pushing the glyphs; returns
/// the final pen position.
fn lay_out(target: &mut DisplayList, s: &Vec<char>, x0: i32, y0: i32, col0: usize, newlines: bool, color: Color565)
    -> (r: (i32, i32, usize))
    requires
        x0 == 4 + 6 * col0,
        -1000 <= y0,
        newlines ==> y0 + LINE_H * s@.len() <= i32::MAX,
        !newlines ==> y0 + LINE_H <= i32::MAX,
        col0 <= 25,
    ensures ({
        let p = pen_run(Pen { x: x0 as int, y: y0 as int, col: col0 as int, done: false, cmds: Seq::empty() }, s@, newlines, color);
        &&& final(target)@ == old(target)@ + p.cmds
        &&& r.0 == p.x && r.1 == p.y && r.2 == p.col
        &&& r.0 == 4 + 6 * r.2
        &&& -1000 <= r.1 <= y0 + LINE_H * s@.len()
        &&& !newlines ==> r.1 <= (if y0 > GUIDE_TOP - LINE_H { y0 as int } else { GUIDE_TOP - LINE_H }) + LINE_H
        &&& r.2 <= 25
    }),
{
    let ghost p0 = Pen { x: x0 as int, y: y0 as int, col: col0 as int, done: false, cmds: Seq::empty() };
    let ghost base = target@;
    let left: i32 = 4;
    let right_cols: usize = COLS - 1;
    let mut x = x0;
    let mut y = y0;
    let mut col = col0;
    let mut i: usize = 0;
    proof {
        assert(s@.take(0) =~= Seq::<char>::empty());
        assert(s@.take(s@.len() as int) =~= s@);
    }
    while i < s.len()
        invariant_except_break
            ({
                let p = pen_run(p0, s@.take(i as int), newlines, color);
                &&& !p.done
                &&& target@ == base + p.cmds
                &&& x == p.x && y == p.y && col == p.col
            }),
            -1000 <= y <= y0 + LINE_H * i,
            !newlines ==> (y == y0 || y <= GUIDE_TOP - LINE_H),
        invariant
            i <= s@.len(),
            s@.take(s@.len() as int) == s@,
            -1000 <= y0,
            newlines ==> y0 + LINE_H * s@.len() <= i32::MAX,
            !newlines ==> y0 + LINE_H <= i32::MAX,
            left == 4,
            right_cols == 25,
            x == 4 + 6 * col,
            col <= 25,
        ensures ({
            let p = pen_run(p0, s@, newlines, color);
            &&& target@ == base + p.cmds
            &&& x == p.x && y == p.y && col == p.col
            &&& x == 4 + 6 * col
            &&& col <= 25
            &&& -1000 <= y <= y0 + LINE_H * s@.len()
            &&& !newlines ==> y <= (if y0 > GUIDE_TOP - LINE_H { y0 as int } else { GUIDE_TOP - LINE_H }) + LINE_H
        }),
        decreases s@.len() - i,
    {
        let ch = s[i];
        let ghost before = pen_run(p0, s@.take(i as int), newlines, color);
        proof {
            assert(s@.take(i + 1).drop_last() =~= s@.take(i as int));
            assert(s@.take(i + 1).last() == ch);
            assert(pen_run(p0, s@.take(i + 1), newlines, color) == pen_step(before, ch, newlines, color));
        }
        let nl = newlines && ch == '\n';
        if nl || col >= right_cols {
            x = left;
            y = y + LINE_H;
            col = 0;
        }
        if !nl {
            if y > GUIDE_TOP - LINE_H {
                proof {
                    lemma_pen_run_stops(p0, s@, i + 1, s@.len() as int, newlines, color);
                    assert(s@.take(s@.len() as int) =~= s@);
                }
                break;
            }
            let g: Vec<char> = if crate::text::char_len(ch) <= 2 { vec![ch] } else { Vec::new() };
            proof { assert(g@ =~= glyph(ch)); }
            Ui::text_chars(target, g, x, y, color);
            x = x + 6;
            col = col + 1;
        }
        i = i + 1;
    }
    (x, y, col)
}

impl Ui {
    /// Draft zone: a framed input field with wrapped text, dim ghost
    /// completion, and a caret.
    fn draw_draft(target: &mut DisplayList, theme: &Theme, kb: &KeyboardView)
        requires kb.wf(),
        ensures final(target)@ == old(target)@ + draft_cmds(*theme, *kb),
    {
        // Input-field frame around the draft band.
        target.push(DrawOp::Frame {
            x: 1,
            y: DRAFT_TOP,
            w: WIDTH - 2,
            h: (GUIDE_TOP - 2 - DRAFT_TOP) as u32,
            color: theme.divider,
        });
        let ghost base = target@;

        let (x, y, col) = lay_out(target, &chars_of(kb.text.as_str()), 4, DRAFT_TOP + 3, 0, true, theme.text);
        let ghost p1 = pen_run(draft_start(), kb.text@, true, theme.text);

        // Inline "ghost" completion: the not-yet-typed tail of the top
        // suggestion, dimmed, right at the cursor.
        match &kb.completion_suffix {
            Some(suffix) => {
                // A thin caret marks the boundary between typed text and the ghost.
                Self::fill(target, x, y, 1, 9, theme.accent);
                let _ = lay_out(target, &chars_of(suffix.as_str()), x, y, col, false, theme.dim);
            }
            None => {
                if y <= GUIDE_TOP - LINE_H {
                    // No completion: a solid block cursor.
                    Self::fill(target, x, y, 6, 9, theme.accent);
                }
            }
        }
        proof {
            assert(target@ =~= old(target)@ + draft_cmds(*theme, *kb));
        }
    }
}

/// A letter-cross cell: `"<button>:<letter>"` in bold, when the group has a
/// letter at `idx`.
pub open spec fn cell_cmds(letters: Seq<char>, button: char, idx: int, x: int, y: int, color: Color565) -> Seq<Cmd> {
    if idx < letters.len() {
        bold_cmds(seq![button, ':', letters[idx]], x, y, color)
    } else {
        Seq::empty()
    }
}

/// A predicted word in the right-hand column: its key, then the word cut
/// after the first character that brings it to 9 bytes or more.
pub open spec fn word_cmds(theme: Theme, cands: Seq<String>, i: int, key: char) -> Seq<Cmd> {
    if i < cands.len() {
        seq![
            text_cmd(seq![key], 94, GUIDE_TOP + LINE_H * i, theme.accent),
            text_cmd(crate::text::clip(cands[i]@, 9, 12), 104, GUIDE_TOP + LINE_H * i, theme.text),
        ]
    } else {
        Seq::empty()
    }
}

/// Step 2: the left-pad letter cross (W up, A left, S down, D right) and,
/// when predictions exist, a divider and up to three words for the right
/// pad keys I, J, K.
pub open spec fn letter_cross_cmds(theme: Theme, letters: Seq<char>, cands: Seq<String>) -> Seq<Cmd> {
    cell_cmds(letters, 'W', 0, 42, GUIDE_TOP as int, theme.accent)
        + cell_cmds(letters, 'A', 1, 2, GUIDE_TOP + 11, theme.accent)
        + cell_cmds(letters, 'S', 2, 42, GUIDE_TOP + 22, theme.accent)
        + cell_cmds(letters, 'D', 3, 74, GUIDE_TOP + 11, theme.accent)
        + if cands.len() > 0 {
            seq![fill_cmd(90, GUIDE_TOP as int, 1, crate::layout::HEIGHT - GUIDE_TOP, theme.divider)]
                + word_cmds(theme, cands, 0, 'I')
                + word_cmds(theme, cands, 1, 'J')
                + word_cmds(theme, cands, 2, 'K')
        } else {
            Seq::empty()
        }
}

/// The action layer (after holding L): each button's action.
pub open spec fn action_layer_cmds(theme: Theme) -> Seq<Cmd> {
    seq![
        text_cmd("W=back A=send S=expand"@, 2, GUIDE_TOP as int, theme.warn),
        text_cmd("D=caps I=set J=newline"@, 2, GUIDE_TOP + 11, theme.warn),
        text_cmd("K=clear  L=cancel"@, 2, GUIDE_TOP + 22, theme.warn),
    ]
}

/// The four cells of the letter cross, in drawing order.
pub open spec fn cells(theme: Theme, letters: Seq<char>) -> Seq<Seq<Cmd>> {
    seq![
        cell_cmds(letters, 'W', 0, 42, GUIDE_TOP as int, theme.accent),
        cell_cmds(letters, 'A', 1, 2, GUIDE_TOP + 11, theme.accent),
        cell_cmds(letters, 'S', 2, 42, GUIDE_TOP + 22, theme.accent),
        cell_cmds(letters, 'D', 3, 74, GUIDE_TOP + 11, theme.accent),
    ]
}

/// The three right-pad words, in drawing order.
pub open spec fn words(theme: Theme, cands: Seq<String>) -> Seq<Seq<Cmd>> {
    seq![word_cmds(theme, cands, 0, 'I'), word_cmds(theme, cands, 1, 'J'), word_cmds(theme, cands, 2, 'K')]
}

pub(crate) proof fn lemma_flatten4(s: Seq<Seq<Cmd>>)
    requires s.len() == 4,
    ensures s.flatten() == s[0] + s[1] + s[2] + s[3],
{
    broadcast use Seq::lemma_flatten_push;
    assert(s =~= Seq::<Seq<Cmd>>::empty().push(s[0]).push(s[1]).push(s[2]).push(s[3]));
    assert(Seq::<Seq<Cmd>>::empty().flatten() =~= Seq::<Cmd>::empty());
    assert(Seq::<Cmd>::empty() + s[0] =~= s[0]);
}

pub(crate) proof fn lemma_flatten3(s: Seq<Seq<Cmd>>)
    requires s.len() == 3,
    ensures s.flatten() == s[0] + s[1] + s[2],
{
    broadcast use Seq::lemma_flatten_push;
    assert(s =~= Seq::<Seq<Cmd>>::empty().push(s[0]).push(s[1]).push(s[2]));
    assert(Seq::<Seq<Cmd>>::empty().flatten() =~= Seq::<Cmd>::empty());
    assert(Seq::<Cmd>::empty() + s[0] =~= s[0]);
}

impl Ui {
    /// Step 2: a left-pad letter cross (pick the letter) and, when
    /// predictions exist, a right-hand column of whole words mapped to the
    /// right pad (I/J/K -> candidate 1/2/3).
    fn draw_letter_cross(target: &mut DisplayList, theme: &Theme, letters: &str, cands: &Vec<String>)
        ensures final(target)@ == old(target)@ + letter_cross_cmds(*theme, letters@, cands@),
    {
        broadcast use Seq::lemma_flatten_push;
        let ghost base = target@;
        let letter_chars = chars_of(letters);
        // Left zone: the letter cross, compressed to the left half to leave
        // room for the word column.
        let buttons: [char; 4] = ['W', 'A', 'S', 'D'];
        let xs: [i32; 4] = [42, 2, 42, 74];
        let ys: [i32; 4] = [GUIDE_TOP, GUIDE_TOP + 11, GUIDE_TOP + 22, GUIDE_TOP + 11];
        let ghost all = cells(*theme, letters@);
        let mut k: usize = 0;
        proof { assert(all.take(0) =~= Seq::<Seq<Cmd>>::empty()); }
        while k < 4
            invariant
                k <= 4,
                buttons@ == seq!['W', 'A', 'S', 'D'],
                xs@ == seq![42i32, 2, 42, 74],
                ys@ == seq![92i32, 103, 114, 103],
                letter_chars@ == letters@,
                all == cells(*theme, letters@),
                target@ == base + all.take(k as int).flatten(),
            decreases 4 - k,
        {
            let ghost before = target@;
            if k < letter_chars.len() {
                // "<button>:<letter>" always fits the 8-byte cell buffer.
                let cell: Vec<char> = vec![buttons[k], ':', letter_chars[k]];
                Self::text_bold(target, cell, xs[k], ys[k], theme.accent);
            }
            proof {
                assert(all.take(k + 1) =~= all.take(k as int).push(all[k as int]));
                assert(target@ =~= before + all[k as int]);
                all.take(k as int).lemma_flatten_push(all[k as int]);
                assert(target@ =~= base + all.take(k + 1).flatten());
            }
            k = k + 1;
        }
        proof { assert(all.take(4) =~= all); lemma_flatten4(all); }

        // Right zone: up to three predicted words, each grabbable with its
        // right-pad key. Only drawn when predictions exist.
        if cands.len() > 0 {
            // Divider between the letter cross and the word column.
            Self::fill(target, 90, GUIDE_TOP, 1, (crate::layout::HEIGHT as i32 - GUIDE_TOP) as u32, theme.divider);
            let ghost mid = target@;
            let keys: [char; 3] = ['I', 'J', 'K'];
            let ghost ws = words(*theme, cands@);
            let mut i: usize = 0;
            proof { assert(ws.take(0) =~= Seq::<Seq<Cmd>>::empty()); }
            while i < 3
                invariant
                    i <= 3,
                    keys@ == seq!['I', 'J', 'K'],
                    ws == words(*theme, cands@),
                    target@ == mid + ws.take(i as int).flatten(),
                decreases 3 - i,
            {
                let ghost before = target@;
                proof {
                    assert(ws[i as int] == word_cmds(*theme, cands@, i as int, keys@[i as int]));
                }
                if i < cands.len() {
                    let y = GUIDE_TOP + i as i32 * 11;
                    // Key letter (accent) then the word (text), truncated to fit.
                    let key_text: Vec<char> = vec![keys[i]];
                    proof { assert(key_text@ =~= seq![keys@[i as int]]); }
                    Self::text_chars(target, key_text, 94, y, theme.accent);
                    let w = crate::text::clip_chars(cands[i].as_str(), 9, 12);
                    Self::text_chars(target, w, 104, y, theme.text);
                    proof {
                        assert(w@ == crate::text::clip(cands@[i as int]@, 9, 12));
                        assert(y == GUIDE_TOP + LINE_H * i);
                        assert(target@ =~= before + seq![
                            text_cmd(seq![keys@[i as int]], 94, GUIDE_TOP + LINE_H * i, theme.accent),
                            text_cmd(crate::text::clip(cands@[i as int]@, 9, 12), 104, GUIDE_TOP + LINE_H * i, theme.text),
                        ]);
                    }
                }
                proof {
                    assert(ws.take(i + 1) =~= ws.take(i as int).push(ws[i as int]));
                    assert(target@ =~= before + ws[i as int]);
                    ws.take(i as int).lemma_flatten_push(ws[i as int]);
                    assert(target@ =~= mid + ws.take(i + 1).flatten());
                }
                i = i + 1;
            }
            proof { assert(ws.take(3) =~= ws); lemma_flatten3(ws); }
        }
        proof {
            assert(target@ =~= old(target)@ + letter_cross_cmds(*theme, letters@, cands@));
        }
    }

    /// Action layer (after holding L): label each button's action.
    fn draw_action_layer(target: &mut DisplayList, theme: &Theme)
        ensures final(target)@ == old(target)@ + action_layer_cmds(*theme),
    {
        Self::text(target, "W=back A=send S=expand", 2, GUIDE_TOP, theme.warn);
        Self::text(target, "D=caps I=set J=newline", 2, GUIDE_TOP + 11, theme.warn);
        Self::text(target, "K=clear  L=cancel", 2, GUIDE_TOP + 22, theme.warn);
        proof { assert(target@ =~= old(target)@ + action_layer_cmds(*theme)); }
    }
}

/// The suggestion strip after the word that L would accept: up to two other
/// candidates, dimmed, left to right, stopping at the first that would run
/// past the right edge.
pub struct Strip {
    pub x: int,
    pub taken: int,
    pub stopped: bool,
    pub cmds: Seq<Cmd>,
}

pub open spec fn strip_step(st: Strip, cand: Seq<char>, word: Seq<char>, color: Color565) -> Strip {
    if st.stopped || st.taken >= 2 || cand == word {
        st
    } else {
        let need = 6 * utf8_len(cand);
        if st.x + need > WIDTH - 2 {
            Strip { x: st.x, taken: st.taken, stopped: true, cmds: st.cmds }
        } else {
            Strip { x: st.x + need + 8, taken: st.taken + 1, stopped: false, cmds: st.cmds.push(text_cmd(cand, st.x, GUIDE_TOP as int, color)) }
        }
    }
}

pub open spec fn strip_run(st: Strip, cands: Seq<String>, word: Seq<char>, color: Color565) -> Strip
    decreases cands.len(),
{
    if cands.len() == 0 {
        st
    } else {
        strip_step(strip_run(st, cands.drop_last(), word, color), cands.last()@, word, color)
    }
}

/// Step 1: the word L would accept (with an L key badge) and up to two
/// other candidates dimmed, or "L = space"; then the group-to-button map,
/// whose last line says what L does now.
pub open spec fn compose_guide_cmds(theme: Theme, kb: KeyboardView) -> Seq<Cmd> {
    let first = match kb.space_completion {
        Some(word) => seq![
            fill_cmd(2, GUIDE_TOP - 1, 11, 11, theme.accent),
            text_cmd("L"@, 5, GUIDE_TOP as int, theme.on_accent),
            text_cmd(word@, 16, GUIDE_TOP as int, theme.accent),
        ] + strip_run(
            Strip { x: (16 + 6 * utf8_len(word@) + 8) as int, taken: 0, stopped: false, cmds: Seq::empty() },
            kb.candidates@, word@, theme.dim).cmds,
        None => seq![text_cmd("L = space"@, 3, GUIDE_TOP as int, theme.dim)],
    };
    let line3 = if kb.space_completion is Some { "Iqrst Juvwx Kyz. L=fill"@ } else { "Iqrst Juvwx Kyz., L=spc"@ };
    first + seq![
        text_cmd("Wabcd Aefgh Sijkl Dmnop"@, 0, GUIDE_TOP + 11, theme.dim),
        text_cmd(line3, 0, GUIDE_TOP + 22, theme.dim),
    ]
}

/// The guidance zone, by typing step.
pub open spec fn guide_cmds(theme: Theme, kb: KeyboardView) -> Seq<Cmd> {
    if kb.action_armed {
        action_layer_cmds(theme)
    } else {
        match kb.active_group {
            Some(letters) => letter_cross_cmds(theme, letters@, kb.candidates@),
            None => compose_guide_cmds(theme, kb),
        }
    }
}

/// The compose screen: cleared, then header, draft, and guidance zone.
pub open spec fn render_cmds(theme: Theme, kb: KeyboardView, title: Seq<char>, status: Seq<char>) -> Seq<Cmd> {
    seq![Cmd::Clear { color: theme.bg }]
        + status_cmds(theme, kb, title, status)
        + draft_cmds(theme, kb)
        + guide_cmds(theme, kb)
}

impl Ui {
    /// Step 1: the word L will complete to (with an L key badge), any other
    /// candidates shown dimmed as "keep typing toward these", and the
    /// group-to-button map.
    fn draw_compose_guide(target: &mut DisplayList, theme: &Theme, kb: &KeyboardView)
        requires kb.wf(),
        ensures final(target)@ == old(target)@ + compose_guide_cmds(*theme, *kb),
    {
        // Line 1: only show the suggestion strip when L would actually accept
        // a word (the current word is incomplete). Otherwise L is a space.
        match &kb.space_completion {
            Some(word) => {
                // An "L" key badge, then the exact word L accepts (in accent).
                Self::fill(target, 2, GUIDE_TOP - 1, 11, 11, theme.accent);
                Self::text(target, "L", 5, GUIDE_TOP, theme.on_accent);
                let mut x: i32 = 16;
                Self::text(target, word.as_str(), x, GUIDE_TOP, theme.accent);
                let word_chars = chars_of(word.as_str());
                x = x + str_bytes(word.as_str()) as i32 * 6 + 8;
                let ghost st0 = Strip { x: x as int, taken: 0, stopped: false, cmds: Seq::empty() };
                let ghost base = target@;
                // Up to two other candidates, dimmed: reachable by typing more.
                let mut taken: usize = 0;
                let mut i: usize = 0;
                proof {
                    assert(kb.candidates@.take(0) =~= Seq::<String>::empty());
                    assert(kb.candidates@.take(kb.candidates@.len() as int) =~= kb.candidates@);
                }
                while i < kb.candidates.len()
                    invariant_except_break
                        ({
                            let st = strip_run(st0, kb.candidates@.take(i as int), word@, theme.dim);
                            &&& !st.stopped
                            &&& st.x == x
                            &&& st.taken == taken
                            &&& target@ == base + st.cmds
                        }),
                    invariant
                        kb.wf(),
                        i <= kb.candidates@.len(),
                        kb.candidates@.take(kb.candidates@.len() as int) == kb.candidates@,
                        word_chars@ == word@,
                        taken <= 2,
                        16 <= x <= crate::keyboard::strip_reach(word@),
                        kb.space_completion == Some(*word),
                    ensures
                        target@ == base + strip_run(st0, kb.candidates@, word@, theme.dim).cmds,
                    decreases kb.candidates@.len() - i,
                {
                    proof {
                        assert(kb.candidates@.take(i + 1).drop_last() =~= kb.candidates@.take(i as int));
                        assert(kb.candidates@.take(i + 1).last() == kb.candidates@[i as int]);
                    }
                    if taken == 2 {
                        proof { lemma_strip_stays(st0, kb.candidates@, i as int, word@, theme.dim); }
                        break;
                    }
                    let cand = &kb.candidates[i];
                    let cand_chars = chars_of(cand.as_str());
                    if !same_chars(&cand_chars, &word_chars) {
                        proof {
                            assert(crate::keyboard::strip_reach(word@) + 6 * utf8_len(kb.candidates@[i as int]@) <= i32::MAX);
                        }
                        let need = str_bytes(cand.as_str()) as i32 * 6;
                        if x + need > WIDTH as i32 - 2 {
                            proof {
                                assert(strip_run(st0, kb.candidates@.take(i + 1), word@, theme.dim).stopped);
                                lemma_strip_stays(st0, kb.candidates@, i + 1, word@, theme.dim);
                            }
                            break;
                        }
                        Self::text(target, cand.as_str(), x, GUIDE_TOP, theme.dim);
                        x = x + need + 8;
                        taken = taken + 1;
                    }
                    i = i + 1;
                    proof {
                        assert(target@ =~= base + strip_run(st0, kb.candidates@.take(i as int), word@, theme.dim).cmds);
                    }
                }
            }
            None => {
                Self::text(target, "L = space", 3, GUIDE_TOP, theme.dim);
            }
        }

        // Lines 2-3: the group -> button map; the L hint reflects what L does now.
        Self::text(target, "Wabcd Aefgh Sijkl Dmnop", 0, GUIDE_TOP + 11, theme.dim);
        let line3 = if kb.space_completion.is_some() {
            "Iqrst Juvwx Kyz. L=fill"
        } else {
            "Iqrst Juvwx Kyz., L=spc"
        };
        Self::text(target, line3, 0, GUIDE_TOP + 22, theme.dim);
        proof { assert(target@ =~= old(target)@ + compose_guide_cmds(*theme, *kb)); }
    }
}

/// Once the strip is full or has run out of room, later candidates change
/// nothing.
proof fn lemma_strip_stays(st: Strip, cands: Seq<String>, i: int, word: Seq<char>, color: Color565)
    requires
        0 <= i <= cands.len(),
        strip_run(st, cands.take(i), word, color).stopped || strip_run(st, cands.take(i), word, color).taken >= 2,
    ensures strip_run(st, cands, word, color) == strip_run(st, cands.take(i), word, color),
    decreases cands.len() - i,
{
    if i == cands.len() {
        assert(cands.take(i) =~= cands);
    } else {
        lemma_strip_stays_upto(st, cands, i, cands.len() as int, word, color);
        assert(cands.take(cands.len() as int) =~= cands);
    }
}

proof fn lemma_strip_stays_upto(st: Strip, cands: Seq<String>, i: int, j: int, word: Seq<char>, color: Color565)
    requires
        0 <= i <= j <= cands.len(),
        strip_run(st, cands.take(i), word, color).stopped || strip_run(st, cands.take(i), word, color).taken >= 2,
    ensures strip_run(st, cands.take(j), word, color) == strip_run(st, cands.take(i), word, color),
    decreases j - i,
{
    if j > i {
        lemma_strip_stays_upto(st, cands, i, j - 1, word, color);
        assert(cands.take(j).drop_last() =~= cands.take(j - 1));
    }
}

impl Ui {
    /// The guidance zone: makes typing self-explanatory; branches on the step.
    fn draw_guide(target: &mut DisplayList, theme: &Theme, kb: &KeyboardView)
        requires kb.wf(),
        ensures final(target)@ == old(target)@ + guide_cmds(*theme, *kb),
    {
        if kb.action_armed {
            return Self::draw_action_layer(target, theme);
        }
        match &kb.active_group {
            Some(letters) => Self::draw_letter_cross(target, theme, letters.as_str(), &kb.candidates),
            None => Self::draw_compose_guide(target, theme, kb),
        }
    }

    /// Redraw every zone of the compose screen from the keyboard state.
    ///
    /// `title` is the active AI persona name; `status` is an optional
    /// transient banner (empty = show the default step prompt).
    pub fn render(target: &mut DisplayList, theme: &Theme, kb: &KeyboardView, title: &str, status: &str)
        requires kb.wf(),
        ensures final(target)@ == old(target)@ + render_cmds(*theme, *kb, title@, status@),
    {
        Self::clear(target, theme);
        Self::draw_status(target, theme, kb, title, status);
        Self::draw_draft(target, theme, kb);
        Self::draw_guide(target, theme, kb);
        proof { assert(target@ =~= old(target)@ + render_cmds(*theme, *kb, title@, status@)); }
    }
}

/// A draft glyph inside the input frame: one of the 25 columns, on a line
/// between the top of the draft zone and the last line above the guide.
pub open spec fn in_draft_zone(c: Cmd) -> bool {
    c matches Cmd::Text { x, y, .. } && 4 <= x <= 4 + 6 * 24 && DRAFT_TOP + 3 <= y <= draft_last_y()
}

pub open spec fn pen_ok(p: Pen) -> bool {
    &&& 0 <= p.col <= draft_cols()
    &&& p.x == 4 + 6 * p.col
    &&& p.y >= DRAFT_TOP + 3
    &&& forall|j: int| 0 <= j < p.cmds.len() ==> in_draft_zone(#[trigger] p.cmds[j])
}

proof fn lemma_pen_run_ok(p: Pen, s: Seq<char>, newlines: bool, color: Color565)
    requires pen_ok(p),
    ensures pen_ok(pen_run(p, s, newlines, color)),
    decreases s.len(),
{
    if s.len() > 0 {
        lemma_pen_run_ok(p, s.drop_last(), newlines, color);
        let q = pen_run(p, s.drop_last(), newlines, color);
        let r = pen_step(q, s.last(), newlines, color);
        assert forall|j: int| 0 <= j < r.cmds.len() implies in_draft_zone(#[trigger] r.cmds[j]) by {
            if j < q.cmds.len() {
                assert(r.cmds[j] == q.cmds[j]);
            }
        }
    }
}

/// The draft never draws a glyph outside its input frame, whatever the
/// length of the typed text or of the ghost completion.
pub proof fn lemma_draft_in_frame(theme: Theme, kb: KeyboardView)
    ensures ({
        let p1 = pen_run(draft_start(), kb.text@, true, theme.text);
        &&& forall|j: int| 0 <= j < p1.cmds.len() ==> in_draft_zone(#[trigger] p1.cmds[j])
        &&& (kb.completion_suffix matches Some(sfx) ==> {
            let p2 = pen_run(resume(p1), sfx@, false, theme.dim);
            forall|j: int| 0 <= j < p2.cmds.len() ==> in_draft_zone(#[trigger] p2.cmds[j])
        })
    }),
{
    let p1 = pen_run(draft_start(), kb.text@, true, theme.text);
    lemma_pen_run_ok(draft_start(), kb.text@, true, theme.text);
    if let Some(sfx) = kb.completion_suffix {
        lemma_pen_run_ok(resume(p1), sfx@, false, theme.dim);
    }
}

/// Step 2 of typing shows the picked group's letters on the letter cross:
/// with the action layer off, for every letter `i` of the group up to the
/// fourth, the compose screen draws `"<button>:<letter>"` in bold (twice,
/// 1px apart) in the accent colour at that button's place: W above, A left,
/// S below, D right.
pub proof fn lemma_step2_shows_letters(theme: Theme, kb: KeyboardView, title: Seq<char>, status: Seq<char>)
    requires
        !kb.action_armed,
        kb.active_group is Some,
    ensures ({
        let r = render_cmds(theme, kb, title, status);
        let g = kb.active_group->0@;
        let buttons = seq!['W', 'A', 'S', 'D'];
        let xs = seq![42int, 2, 42, 74];
        let ys = seq![GUIDE_TOP as int, GUIDE_TOP + 11, GUIDE_TOP + 22, GUIDE_TOP + 11];
        forall|i: int| 0 <= i < 4 && i < g.len() ==> {
            &&& r.contains(text_cmd(seq![buttons[i], ':', #[trigger] g[i]], xs[i], ys[i], theme.accent))
            &&& r.contains(text_cmd(seq![buttons[i], ':', g[i]], xs[i] + 1, ys[i], theme.accent))
        }
    }),
{
    let r = render_cmds(theme, kb, title, status);
    let g = kb.active_group->0@;
    let buttons = seq!['W', 'A', 'S', 'D'];
    let xs = seq![42int, 2, 42, 74];
    let ys = seq![GUIDE_TOP as int, GUIDE_TOP + 11, GUIDE_TOP + 22, GUIDE_TOP + 11];
    let pre = seq![Cmd::Clear { color: theme.bg }] + status_cmds(theme, kb, title, status) + draft_cmds(theme, kb);
    let cs = cells(theme, g);
    lemma_flatten4(cs);
    let rest: Seq<Cmd> = if kb.candidates@.len() > 0 {
        seq![fill_cmd(90, GUIDE_TOP as int, 1, crate::layout::HEIGHT - GUIDE_TOP, theme.divider)]
            + word_cmds(theme, kb.candidates@, 0, 'I')
            + word_cmds(theme, kb.candidates@, 1, 'J')
            + word_cmds(theme, kb.candidates@, 2, 'K')
    } else {
        Seq::empty()
    };
    assert(letter_cross_cmds(theme, g, kb.candidates@) == cs.flatten() + rest);
    assert(r == pre + (cs[0] + cs[1] + cs[2] + cs[3] + rest));
    let b = pre.len() as int;
    assert forall|i: int| 0 <= i < 4 && i < g.len() implies {
        &&& r.contains(text_cmd(seq![buttons[i], ':', #[trigger] g[i]], xs[i], ys[i], theme.accent))
        &&& r.contains(text_cmd(seq![buttons[i], ':', g[i]], xs[i] + 1, ys[i], theme.accent))
    } by {
        let c0 = text_cmd(seq![buttons[i], ':', g[i]], xs[i], ys[i], theme.accent);
        let c1 = text_cmd(seq![buttons[i], ':', g[i]], xs[i] + 1, ys[i], theme.accent);
        assert(cs[i] == seq![c0, c1]);
        if i == 0 {
            assert(r[b] == c0 && r[b + 1] == c1);
        } else if i == 1 {
            assert(cs[0].len() == 2);
            assert(r[b + 2] == c0 && r[b + 3] == c1);
        } else if i == 2 {
            assert(cs[0].len() == 2 && cs[1].len() == 2);
            assert(r[b + 4] == c0 && r[b + 5] == c1);
        } else {
            assert(cs[0].len() == 2 && cs[1].len() == 2 && cs[2].len() == 2);
            assert(r[b + 6] == c0 && r[b + 7] == c1);
        }
    }
}

/// Step 2 of typing also lists the predicted words for the right pad: when
/// there are any, a divider down the guide zone at x 90, then for each of
/// the first three words its key (I, J, K) in the accent colour at x 94 and
/// the word, cut to about 9 bytes, in the text colour at x 104, one line
/// each from the top of the guide zone.
pub proof fn lemma_step2_shows_words(theme: Theme, kb: KeyboardView, title: Seq<char>, status: Seq<char>)
    requires
        !kb.action_armed,
        kb.active_group is Some,
    ensures ({
        let r = render_cmds(theme, kb, title, status);
        let cands = kb.candidates@;
        let keys = seq!['I', 'J', 'K'];
        &&& cands.len() > 0 ==> r.contains(fill_cmd(90, GUIDE_TOP as int, 1, crate::layout::HEIGHT - GUIDE_TOP, theme.divider))
        &&& forall|i: int| 0 <= i < 3 && i < cands.len() ==> {
            &&& r.contains(text_cmd(seq![keys[i]], 94, GUIDE_TOP + LINE_H * i, theme.accent))
            &&& r.contains(text_cmd(crate::text::clip((#[trigger] cands[i])@, 9, 12), 104, GUIDE_TOP + LINE_H * i, theme.text))
        }
    }),
{
    let r = render_cmds(theme, kb, title, status);
    let g = kb.active_group->0@;
    let cands = kb.candidates@;
    let keys = seq!['I', 'J', 'K'];
    if cands.len() > 0 {
        let pre = seq![Cmd::Clear { color: theme.bg }] + status_cmds(theme, kb, title, status) + draft_cmds(theme, kb);
        let cs = cells(theme, g);
        lemma_flatten4(cs);
        let dv = seq![fill_cmd(90, GUIDE_TOP as int, 1, crate::layout::HEIGHT - GUIDE_TOP, theme.divider)];
        let ws = words(theme, cands);
        let rest = dv + ws[0] + ws[1] + ws[2];
        assert(letter_cross_cmds(theme, g, cands) == cs.flatten() + rest);
        let head = pre + (cs[0] + cs[1] + cs[2] + cs[3]);
        assert(r == head + rest);
        let b = head.len() as int;
        assert(r[b] == dv[0]);
        assert forall|i: int| 0 <= i < 3 && i < cands.len() implies {
            &&& r.contains(text_cmd(seq![keys[i]], 94, GUIDE_TOP + LINE_H * i, theme.accent))
            &&& r.contains(text_cmd(crate::text::clip((#[trigger] cands[i])@, 9, 12), 104, GUIDE_TOP + LINE_H * i, theme.text))
        } by {
            let k0 = text_cmd(seq![keys[i]], 94, GUIDE_TOP + LINE_H * i, theme.accent);
            let k1 = text_cmd(crate::text::clip(cands[i]@, 9, 12), 104, GUIDE_TOP + LINE_H * i, theme.text);
            if i == 0 {
                assert(ws[0] == seq![k0, k1]);
                assert(r[b + 1] == k0 && r[b + 2] == k1);
            } else if i == 1 {
                assert(ws[0].len() == 2);
                assert(ws[1] == seq![k0, k1]);
                assert(r[b + 3] == k0 && r[b + 4] == k1);
            } else {
                assert(ws[0].len() == 2 && ws[1].len() == 2);
                assert(ws[2] == seq![k0, k1]);
                assert(r[b + 5] == k0 && r[b + 6] == k1);
            }
        }
    }
}

/// With the action layer up, the guide zone lists what each button does, in
/// the alert colour, on its three lines from the left edge; the letter cross
/// and the suggestions are not drawn then.
pub proof fn lemma_action_layer_shown(theme: Theme, kb: KeyboardView, title: Seq<char>, status: Seq<char>)
    requires kb.action_armed,
    ensures ({
        let r = render_cmds(theme, kb, title, status);
        let pre = seq![Cmd::Clear { color: theme.bg }] + status_cmds(theme, kb, title, status) + draft_cmds(theme, kb);
        &&& r == pre + seq![
            text_cmd("W=back A=send S=expand"@, 2, GUIDE_TOP as int, theme.warn),
            text_cmd("D=caps I=set J=newline"@, 2, GUIDE_TOP + LINE_H, theme.warn),
            text_cmd("K=clear  L=cancel"@, 2, GUIDE_TOP + 2 * LINE_H, theme.warn),
        ]
    }),
{
}

} // verus!
