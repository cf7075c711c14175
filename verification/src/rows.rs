//! Character wrapping of reply text into fixed-width rows.
//!
//! Rows live in `heapless` buffers: each row is a `heapless::String` of
//! `COLS` bytes, and a screen keeps its rows in a `heapless::Vec` that drops
//! the oldest row when it is full.
use vstd::prelude::*;
use crate::layout::COLS;
use crate::text::{utf8_len, char_utf8_len, lemma_utf8_len_push, lemma_utf8_len_empty, lemma_char_utf8_len, clip};

verus! {

#[verifier::external_type_specification]
#[verifier::external_body]
pub struct ExFixedString<const N: usize>(heapless::String<N>);

#[verifier::external_type_specification]
#[verifier::external_body]
#[verifier::reject_recursive_types(T)]
pub struct ExFixedVec<T, const N: usize>(heapless::Vec<T, N>);

/// One wrapped row: up to `COLS` bytes of text.
pub type Row = heapless::String<26>;

/// What a row holds.
pub uninterp spec fn row_text(row: heapless::String<26>) -> Seq<char>;

/// The rows a 64-row buffer holds, oldest first.
pub uninterp spec fn rows_in_64(rows: heapless::Vec<heapless::String<26>, 64>) -> Seq<Seq<char>>;

/// The rows a 256-row buffer holds, oldest first.
pub uninterp spec fn rows_in_256(rows: heapless::Vec<heapless::String<26>, 256>) -> Seq<Seq<char>>;

/// `heapless::String::new`: an empty row.
#[verifier::external_body]
pub(crate) fn row_new() -> (row: Row)
    ensures row_text(row) == Seq::<char>::empty(),
{
    heapless::String::new()
}

/// `heapless::String::push`: appends `c` when its UTF-8 bytes still fit the
/// 26-byte capacity, and otherwise leaves the row as it was and fails.
#[verifier::external_body]
pub(crate) fn row_push(row: &mut Row, c: char) -> (r: Result<(), ()>)
    ensures
        utf8_len(row_text(*old(row))) + char_utf8_len(c) <= 26 ==> r is Ok && row_text(*final(row)) == row_text(*old(row)).push(c),
        utf8_len(row_text(*old(row))) + char_utf8_len(c) > 26 ==> r is Err && row_text(*final(row)) == row_text(*old(row)),
{
    row.push(c)
}

/// `heapless::String::len` (the `str` length): the row's size in bytes,
/// which never exceeds the capacity.
#[verifier::external_body]
pub(crate) fn row_len(row: &Row) -> (n: usize)
    ensures
        n == utf8_len(row_text(*row)),
        n <= 26,
{
    row.len()
}

/// `heapless::String::clear`: empties the row.
#[verifier::external_body]
pub(crate) fn row_clear(row: &mut Row)
    ensures row_text(*final(row)) == Seq::<char>::empty(),
{
    row.clear()
}

/// `heapless::String::clone`: a row with the same text.
#[verifier::external_body]
pub(crate) fn row_clone(row: &Row) -> (c: Row)
    ensures row_text(c) == row_text(*row),
{
    row.clone()
}

/// The characters of a row (`heapless::String` read through `str::chars`).
#[verifier::external_body]
pub(crate) fn row_chars(row: &Row) -> (v: Vec<char>)
    ensures v@ == row_text(*row),
{
    row.chars().collect()
}

/// `heapless::Vec::new`: an empty 64-row buffer.
#[verifier::external_body]
pub(crate) fn rows64_new() -> (v: heapless::Vec<Row, 64>)
    ensures rows_in_64(v) == Seq::<Seq<char>>::empty(),
{
    heapless::Vec::new()
}

/// `heapless::Vec::push` on a 64-row buffer: appends while there is room,
/// and otherwise hands the row back unchanged.
#[verifier::external_body]
pub(crate) fn rows64_push(v: &mut heapless::Vec<Row, 64>, row: Row) -> (r: Result<(), Row>)
    ensures
        rows_in_64(*old(v)).len() < 64 ==> r is Ok && rows_in_64(*final(v)) == rows_in_64(*old(v)).push(row_text(row)),
        rows_in_64(*old(v)).len() >= 64 ==> (r matches Err(back) && row_text(back) == row_text(row)
            && rows_in_64(*final(v)) == rows_in_64(*old(v))),
{
    v.push(row)
}

/// `heapless::Vec::remove` on a 64-row buffer: takes out row `i`, shifting
/// the later rows down.
#[verifier::external_body]
pub(crate) fn rows64_remove(v: &mut heapless::Vec<Row, 64>, i: usize) -> (row: Row)
    requires i < rows_in_64(*old(v)).len(),
    ensures
        row_text(row) == rows_in_64(*old(v))[i as int],
        rows_in_64(*final(v)) == rows_in_64(*old(v)).remove(i as int),
{
    v.remove(i)
}

/// `heapless::Vec::len` on a 64-row buffer; never above its capacity.
#[verifier::external_body]
pub(crate) fn rows64_len(v: &heapless::Vec<Row, 64>) -> (n: usize)
    ensures n == rows_in_64(*v).len(), n <= 64,
{
    v.len()
}

/// Row `i` of a 64-row buffer (slice indexing).
#[verifier::external_body]
pub(crate) fn rows64_get(v: &heapless::Vec<Row, 64>, i: usize) -> (row: &Row)
    requires i < rows_in_64(*v).len(),
    ensures row_text(*row) == rows_in_64(*v)[i as int],
{
    &v[i]
}

/// `heapless::Vec::new`: an empty 256-row buffer.
#[verifier::external_body]
pub(crate) fn rows256_new() -> (v: heapless::Vec<Row, 256>)
    ensures rows_in_256(v) == Seq::<Seq<char>>::empty(),
{
    heapless::Vec::new()
}

/// `heapless::Vec::push` on a 256-row buffer: appends while there is room,
/// and otherwise hands the row back unchanged.
#[verifier::external_body]
pub(crate) fn rows256_push(v: &mut heapless::Vec<Row, 256>, row: Row) -> (r: Result<(), Row>)
    ensures
        rows_in_256(*old(v)).len() < 256 ==> r is Ok && rows_in_256(*final(v)) == rows_in_256(*old(v)).push(row_text(row)),
        rows_in_256(*old(v)).len() >= 256 ==> (r matches Err(back) && row_text(back) == row_text(row)
            && rows_in_256(*final(v)) == rows_in_256(*old(v))),
{
    v.push(row)
}

/// `heapless::Vec::remove` on a 256-row buffer: takes out row `i`, shifting
/// the later rows down.
#[verifier::external_body]
pub(crate) fn rows256_remove(v: &mut heapless::Vec<Row, 256>, i: usize) -> (row: Row)
    requires i < rows_in_256(*old(v)).len(),
    ensures
        row_text(row) == rows_in_256(*old(v))[i as int],
        rows_in_256(*final(v)) == rows_in_256(*old(v)).remove(i as int),
{
    v.remove(i)
}

/// `heapless::Vec::len` on a 256-row buffer; never above its capacity.
#[verifier::external_body]
pub(crate) fn rows256_len(v: &heapless::Vec<Row, 256>) -> (n: usize)
    ensures n == rows_in_256(*v).len(), n <= 256,
{
    v.len()
}

/// Row `i` of a 256-row buffer (slice indexing).
#[verifier::external_body]
pub(crate) fn rows256_get(v: &heapless::Vec<Row, 256>, i: usize) -> (row: &Row)
    requires i < rows_in_256(*v).len(),
    ensures row_text(*row) == rows_in_256(*v)[i as int],
{
    &v[i]
}

/// A fixed-capacity buffer of rows.
pub trait RowBuffer: Sized {
    /// The rows held, oldest first.
    spec fn rows(&self) -> Seq<Seq<char>>;

    /// How many rows fit.
    spec fn capacity() -> nat;

    fn row_count(&self) -> (n: usize)
        ensures n == self.rows().len(), n <= Self::capacity();

    fn push_row(&mut self, row: Row) -> (r: Result<(), Row>)
        ensures
            old(self).rows().len() < Self::capacity() ==> r is Ok && final(self).rows() == old(self).rows().push(row_text(row)),
            old(self).rows().len() >= Self::capacity() ==> r is Err && final(self).rows() == old(self).rows();

    fn remove_row(&mut self, i: usize) -> (row: Row)
        requires i < old(self).rows().len(),
        ensures
            row_text(row) == old(self).rows()[i as int],
            final(self).rows() == old(self).rows().remove(i as int);

    fn row_at(&self, i: usize) -> (row: &Row)
        requires i < self.rows().len(),
        ensures row_text(*row) == self.rows()[i as int];
}

impl RowBuffer for heapless::Vec<Row, 64> {
    open spec fn rows(&self) -> Seq<Seq<char>> { rows_in_64(*self) }
    open spec fn capacity() -> nat { 64 }
    fn row_count(&self) -> (n: usize) { rows64_len(self) }
    fn push_row(&mut self, row: Row) -> (r: Result<(), Row>) { rows64_push(self, row) }
    fn remove_row(&mut self, i: usize) -> (row: Row) { rows64_remove(self, i) }
    fn row_at(&self, i: usize) -> (row: &Row) { rows64_get(self, i) }
}

impl RowBuffer for heapless::Vec<Row, 256> {
    open spec fn rows(&self) -> Seq<Seq<char>> { rows_in_256(*self) }
    open spec fn capacity() -> nat { 256 }
    fn row_count(&self) -> (n: usize) { rows256_len(self) }
    fn push_row(&mut self, row: Row) -> (r: Result<(), Row>) { rows256_push(self, row) }
    fn remove_row(&mut self, i: usize) -> (row: Row) { rows256_remove(self, i) }
    fn row_at(&self, i: usize) -> (row: &Row) { rows256_get(self, i) }
}

/// The oldest rows are dropped once more than `n` have been written.
pub open spec fn keep_last(rows: Seq<Seq<char>>, n: nat) -> Seq<Seq<char>> {
    if rows.len() <= n {
        rows
    } else {
        rows.subrange(rows.len() - n, rows.len() as int)
    }
}

/// One character of wrapping. The state is the finished rows and the row
/// being filled. A `'\n'`, or a row already holding `COLS` bytes, closes
/// the current row; a `'\n'` is not itself stored; a character that does not
/// fit the bytes left in the row is dropped.
pub open spec fn wrap_step(state: (Seq<Seq<char>>, Seq<char>), ch: char) -> (Seq<Seq<char>>, Seq<char>) {
    let (rows, cur) = state;
    let (rows1, cur1) = if ch == '\n' || utf8_len(cur) >= COLS {
        (rows.push(cur), Seq::<char>::empty())
    } else {
        (rows, cur)
    };
    if ch == '\n' {
        (rows1, cur1)
    } else if utf8_len(cur1) + char_utf8_len(ch) <= COLS {
        (rows1, cur1.push(ch))
    } else {
        (rows1, cur1)
    }
}

/// Wrapping state after the characters of `s`.
pub open spec fn wrap_state(s: Seq<char>) -> (Seq<Seq<char>>, Seq<char>)
    decreases s.len(),
{
    if s.len() == 0 {
        (Seq::<Seq<char>>::empty(), Seq::<char>::empty())
    } else {
        wrap_step(wrap_state(s.drop_last()), s.last())
    }
}

/// All rows that `s` wraps into; the last row is the one being filled.
pub open spec fn wrap_rows(s: Seq<char>) -> Seq<Seq<char>> {
    wrap_state(s).0.push(wrap_state(s).1)
}

/// `s` without its newlines.
pub open spec fn strip_newlines(s: Seq<char>) -> Seq<char>
    decreases s.len(),
{
    if s.len() == 0 {
        s
    } else if s.last() == '\n' {
        strip_newlines(s.drop_last())
    } else {
        strip_newlines(s.drop_last()).push(s.last())
    }
}

proof fn lemma_keep_last_push(rows: Seq<Seq<char>>, x: Seq<char>, n: nat)
    requires n >= 1,
    ensures
        keep_last(rows, n).len() < n ==> keep_last(rows.push(x), n) == keep_last(rows, n).push(x),
        keep_last(rows, n).len() >= n ==> keep_last(rows.push(x), n) == keep_last(rows, n).remove(0).push(x),
        keep_last(rows, n).len() <= n,
{
    if rows.len() < n {
        assert(keep_last(rows.push(x), n) =~= rows.push(x));
    } else {
        assert(keep_last(rows.push(x), n) =~= keep_last(rows, n).remove(0).push(x));
    }
}

/// Keeping the last `n` rows, then the last `k <= n` of those, keeps the
/// last `k`.
pub proof fn lemma_keep_last_twice(rows: Seq<Seq<char>>, n: nat, k: nat)
    requires k <= n,
    ensures keep_last(keep_last(rows, n), k) == keep_last(rows, k),
{
    assert(keep_last(keep_last(rows, n), k) =~= keep_last(rows, k));
}

/// The row being filled never exceeds `COLS` bytes.
pub proof fn lemma_wrap_cur_fits(s: Seq<char>)
    ensures utf8_len(wrap_state(s).1) <= COLS,
    decreases s.len(),
{
    lemma_utf8_len_empty();
    if s.len() > 0 {
        lemma_wrap_cur_fits(s.drop_last());
        let (rows, cur) = wrap_state(s.drop_last());
        let ch = s.last();
        let cur1 = if ch == '\n' || utf8_len(cur) >= COLS { Seq::<char>::empty() } else { cur };
        lemma_utf8_len_push(cur1, ch);
    }
}

/// Every wrapped row fits in `COLS` bytes.
pub proof fn lemma_wrap_rows_fit(s: Seq<char>)
    ensures forall|i: int| 0 <= i < wrap_rows(s).len() ==> utf8_len(#[trigger] wrap_rows(s)[i]) <= COLS,
    decreases s.len(),
{
    lemma_wrap_cur_fits(s);
    if s.len() > 0 {
        lemma_wrap_rows_fit(s.drop_last());
        lemma_wrap_cur_fits(s.drop_last());
        let (rows, cur) = wrap_state(s.drop_last());
        assert forall|i: int| 0 <= i < wrap_state(s).0.len() implies utf8_len(#[trigger] wrap_state(s).0[i]) <= COLS by {
            assert(wrap_rows(s.drop_last())[i] == rows.push(cur)[i]);
        }
    }
}

/// Wraps `body` into `rows` (honouring `'\n'`), keeping the most recent rows
/// when the buffer fills.
pub fn wrap_into<B: RowBuffer>(body: &str, rows: &mut B)
    requires B::capacity() >= 1,
    ensures
        final(rows).rows() == keep_last(old(rows).rows() + wrap_rows(body@), B::capacity()),
        1 <= final(rows).rows().len() <= B::capacity(),
{
    let ghost cap = B::capacity();
    let ghost before = rows.rows();
    let held = rows.row_count();
    proof {
        assert(before + wrap_state(body@.take(0)).0 =~= before);
    }
    let mut cur = row_new();
    for ch in it: body.chars()
        invariant
            it.seq() == body@,
            cap == B::capacity(),
            cap >= 1,
            rows.rows() == keep_last(before + wrap_state(body@.take(it.index() as int)).0, cap),
            row_text(cur) == wrap_state(body@.take(it.index() as int)).1,
    {
        let ghost pre = body@.take(it.index() as int);
        let ghost next = body@.take(it.index() + 1);
        proof {
            assert(next.drop_last() =~= pre);
            assert(next.last() == ch);
        }
        if ch == '\n' || row_len(&cur) >= COLS {
            proof {
                lemma_keep_last_push(before + wrap_state(pre).0, row_text(cur), cap);
                assert(before + wrap_state(pre).0.push(row_text(cur)) =~= (before + wrap_state(pre).0).push(row_text(cur)));
            }
            if rows.push_row(row_clone(&cur)).is_err() {
                let _ = rows.remove_row(0);
                let _ = rows.push_row(row_clone(&cur));
            }
            row_clear(&mut cur);
        }
        if ch != '\n' {
            let _ = row_push(&mut cur, ch);
        }
    }
    proof {
        assert(body@.take(body@.len() as int) =~= body@);
        lemma_keep_last_push(before + wrap_state(body@).0, row_text(cur), cap);
        assert(before + wrap_rows(body@) =~= (before + wrap_state(body@).0).push(row_text(cur)));
    }
    if rows.push_row(row_clone(&cur)).is_err() {
        let _ = rows.remove_row(0);
        let _ = rows.push_row(cur);
    }
}

proof fn lemma_ascii_prefix(s: Seq<char>)
    requires vstd::utf8::is_ascii_chars(s), s.len() > 0,
    ensures
        vstd::utf8::is_ascii_chars(s.drop_last()),
        (s.last() as u32) <= 0x7F,
{
    assert forall|i: int| 0 <= i < s.drop_last().len() implies '\0' <= #[trigger] s.drop_last()[i] <= '\u{7f}' by {
        assert(s.drop_last()[i] == s[i]);
    }
    assert('\0' <= s[s.len() - 1] <= '\u{7f}');
}

/// The row being filled of an ASCII text is ASCII, one byte per character.
proof fn lemma_ascii_cur(s: Seq<char>)
    requires vstd::utf8::is_ascii_chars(s),
    ensures
        vstd::utf8::is_ascii_chars(wrap_state(s).1),
        utf8_len(wrap_state(s).1) == wrap_state(s).1.len(),
    decreases s.len(),
{
    lemma_utf8_len_empty();
    if s.len() > 0 {
        lemma_ascii_prefix(s);
        lemma_ascii_cur(s.drop_last());
        let (rows, cur) = wrap_state(s.drop_last());
        let ch = s.last();
        crate::text::lemma_char_utf8_len(ch);
        let cur1 = if ch == '\n' || utf8_len(cur) >= COLS { Seq::<char>::empty() } else { cur };
        lemma_utf8_len_push(cur1, ch);
        let out = wrap_state(s).1;
        assert forall|i: int| 0 <= i < out.len() implies '\0' <= #[trigger] out[i] <= '\u{7f}' by {
            if ch != '\n' && i == cur1.len() {
                assert(out[i] == ch);
            } else {
                assert(out[i] == cur1[i]);
            }
        }
    }
}

/// The lines of `s`: the pieces between its `'\n'`s, in order; a text with
/// `n` newlines has `n + 1` lines, empty ones included.
pub open spec fn lines_of(s: Seq<char>) -> Seq<Seq<char>>
    decreases s.len(),
{
    if s.len() == 0 {
        seq![Seq::<char>::empty()]
    } else {
        let before = lines_of(s.drop_last());
        if s.last() == '\n' {
            before.push(Seq::<char>::empty())
        } else {
            before.update(before.len() - 1, before.last().push(s.last()))
        }
    }
}

proof fn lemma_lines_nonempty(s: Seq<char>)
    ensures lines_of(s).len() >= 1,
    decreases s.len(),
{
    if s.len() > 0 {
        lemma_lines_nonempty(s.drop_last());
    }
}

/// Every `'\n'` closes a row: when each line of the body fits in a row
/// (`COLS` bytes), the body wraps into exactly its lines, one row per line,
/// in order, an empty line giving an empty row.
pub proof fn lemma_wrap_keeps_lines(s: Seq<char>)
    requires forall|i: int| 0 <= i < lines_of(s).len() ==> utf8_len(#[trigger] lines_of(s)[i]) <= COLS,
    ensures wrap_rows(s) == lines_of(s),
    decreases s.len(),
{
    lemma_lines_nonempty(s);
    lemma_utf8_len_empty();
    if s.len() == 0 {
        assert(wrap_rows(s) =~= lines_of(s));
    } else {
        let s0 = s.drop_last();
        let ch = s.last();
        let l0 = lines_of(s0);
        lemma_lines_nonempty(s0);
        assert forall|i: int| 0 <= i < l0.len() implies utf8_len(#[trigger] l0[i]) <= COLS by {
            if ch != '\n' && i == l0.len() - 1 {
                assert(lines_of(s)[i] == l0.last().push(ch));
                lemma_utf8_len_push(l0.last(), ch);
            } else {
                assert(lines_of(s)[i] == l0[i]);
            }
        }
        lemma_wrap_keeps_lines(s0);
        let (rows, cur) = wrap_state(s0);
        assert(rows =~= l0.drop_last());
        assert(cur == l0.last());
        if ch == '\n' {
            assert(wrap_rows(s) =~= lines_of(s));
        } else {
            let last = lines_of(s).len() - 1;
            assert(lines_of(s)[last] == cur.push(ch));
            lemma_utf8_len_push(cur, ch);
            lemma_char_utf8_len(ch);
            assert(wrap_state(s).1 == cur.push(ch));
            assert(wrap_rows(s) =~= lines_of(s));
        }
    }
}

/// How many `'\n'` `s` holds.
pub open spec fn newlines_in(s: Seq<char>) -> nat
    decreases s.len(),
{
    if s.len() == 0 { 0 } else { newlines_in(s.drop_last()) + if s.last() == '\n' { 1nat } else { 0nat } }
}

/// Every `'\n'` closes a row, whatever the line lengths: a text wraps into
/// at least one row more than it has newlines, and each of its lines gives
/// at least one row.
pub proof fn lemma_newline_closes_row(s: Seq<char>)
    ensures
        wrap_rows(s).len() >= newlines_in(s) + 1,
        wrap_state(s).0.len() >= newlines_in(s),
    decreases s.len(),
{
    if s.len() > 0 {
        lemma_newline_closes_row(s.drop_last());
    }
}

/// Wrapping loses no ASCII text: the rows, read one after another, are the
/// text without its newlines.
pub proof fn lemma_wrap_keeps_ascii_text(s: Seq<char>)
    requires vstd::utf8::is_ascii_chars(s),
    ensures wrap_rows(s).flatten() == strip_newlines(s),
    decreases s.len(),
{
    broadcast use Seq::lemma_flatten_push;
    lemma_ascii_cur(s);
    if s.len() == 0 {
        assert(wrap_rows(s) =~= seq![Seq::<char>::empty()]);
        assert(wrap_rows(s).flatten() =~= Seq::<Seq<char>>::empty().flatten() + Seq::<char>::empty());
    } else {
        lemma_ascii_prefix(s);
        lemma_wrap_keeps_ascii_text(s.drop_last());
        lemma_ascii_cur(s.drop_last());
        let (rows, cur) = wrap_state(s.drop_last());
        let ch = s.last();
        crate::text::lemma_char_utf8_len(ch);
        lemma_utf8_len_empty();
        let cur1 = if ch == '\n' || utf8_len(cur) >= COLS { Seq::<char>::empty() } else { cur };
        lemma_utf8_len_push(cur1, ch);
        assert(rows.push(cur).flatten() == rows.flatten() + cur);
        if ch == '\n' || utf8_len(cur) >= COLS {
            assert(rows.push(cur).push(wrap_state(s).1).flatten() == rows.push(cur).flatten() + wrap_state(s).1);
            if ch == '\n' {
                assert(wrap_state(s).1 =~= Seq::<char>::empty());
                assert(rows.push(cur).flatten() + Seq::<char>::empty() =~= rows.push(cur).flatten());
            } else {
                assert(wrap_state(s).1 =~= seq![ch]);
                assert(strip_newlines(s) == strip_newlines(s.drop_last()).push(ch));
                assert(rows.push(cur).flatten() + seq![ch] =~= (rows.flatten() + cur).push(ch));
            }
        } else {
            assert(wrap_state(s).1 =~= cur.push(ch));
            assert(rows.push(cur.push(ch)).flatten() == rows.flatten() + cur.push(ch));
            assert(rows.flatten() + cur.push(ch) =~= (rows.flatten() + cur).push(ch));
        }
    }
}

/// The truncating copy of `s` into a row: characters are copied until the
/// row holds `limit` bytes; one that does not fit the row is skipped.
pub(crate) fn clipped_row(s: &str, limit: usize) -> (row: Row)
    requires limit <= COLS,
    ensures row_text(row) == clip(s@, limit as nat, COLS as nat),
{
    let chars = crate::text::chars_of(s);
    proof { assert(chars@.take(chars@.len() as int) =~= chars@); }
    let mut row = row_new();
    let mut i: usize = 0;
    while i < chars.len()
        invariant
            i <= chars@.len(),
            chars@.take(chars@.len() as int) == chars@,
            row_text(row) == clip(chars@.take(i as int), limit as nat, COLS as nat),
        ensures
            row_text(row) == clip(chars@, limit as nat, COLS as nat),
        decreases chars@.len() - i,
    {
        if row_len(&row) >= limit {
            proof {
                crate::text::lemma_clip_stops(chars@, i as int, chars@.len() as int, limit as nat, COLS as nat);
                assert(chars@.take(chars@.len() as int) =~= chars@);
            }
            break;
        }
        proof { assert(chars@.take(i + 1).drop_last() =~= chars@.take(i as int)); }
        let _ = row_push(&mut row, chars[i]);
        i = i + 1;
    }
    row
}

} // verus!
