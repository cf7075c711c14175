//! Character-level facts: UTF-8 lengths, fixed-capacity appends, prefixes.
use vstd::prelude::*;
use vstd::utf8::{encode_utf8, encode_scalar};

verus! {

/// Number of bytes `s` takes in UTF-8.
pub open spec fn utf8_len(s: Seq<char>) -> nat {
    encode_utf8(s).len()
}

/// Number of bytes `c` takes in UTF-8 (1 to 4).
pub open spec fn char_utf8_len(c: char) -> nat {
    encode_scalar(c as u32).len()
}

/// A character takes 1 to 4 bytes; 1 exactly when it is ASCII, at most 2
/// exactly when it is below U+0800.
pub proof fn lemma_char_utf8_len(c: char)
    ensures
        1 <= char_utf8_len(c) <= 4,
        char_utf8_len(c) == 1 <==> (c as u32) <= 0x7F,
        char_utf8_len(c) <= 2 <==> (c as u32) <= 0x7FF,
{
    broadcast use vstd::utf8::char_is_scalar;
    assert(vstd::utf8::is_scalar(c as u32));
}

/// The empty text takes no bytes.
pub proof fn lemma_utf8_len_empty()
    ensures utf8_len(Seq::<char>::empty()) == 0,
{
}

/// Appending one character adds its UTF-8 length.
pub proof fn lemma_utf8_len_push(s: Seq<char>, c: char)
    ensures utf8_len(s.push(c)) == utf8_len(s) + char_utf8_len(c),
    decreases s.len(),
{
    let t = s.push(c);
    if s.len() == 0 {
        assert(t.drop_first() =~= Seq::<char>::empty());
        assert(encode_utf8(t) == encode_scalar(t[0] as u32) + encode_utf8(t.drop_first()));
    } else {
        assert(t.drop_first() =~= s.drop_first().push(c));
        lemma_utf8_len_push(s.drop_first(), c);
        assert(encode_utf8(t) == encode_scalar(t[0] as u32) + encode_utf8(t.drop_first()));
        assert(encode_utf8(s) == encode_scalar(s[0] as u32) + encode_utf8(s.drop_first()));
    }
}

/// UTF-8 length of a concatenation.
pub proof fn lemma_utf8_len_concat(a: Seq<char>, b: Seq<char>)
    ensures utf8_len(a + b) == utf8_len(a) + utf8_len(b),
    decreases b.len(),
{
    if b.len() == 0 {
        assert(a + b =~= a);
    } else {
        lemma_utf8_len_concat(a, b.drop_last());
        assert(a + b =~= (a + b.drop_last()).push(b.last()));
        assert(b =~= b.drop_last().push(b.last()));
        lemma_utf8_len_push(a + b.drop_last(), b.last());
        lemma_utf8_len_push(b.drop_last(), b.last());
    }
}

/// Every character takes at least one and at most four bytes.
pub proof fn lemma_utf8_len_bounds(s: Seq<char>)
    ensures s.len() <= utf8_len(s) <= 4 * s.len(),
    decreases s.len(),
{
    if s.len() > 0 {
        lemma_utf8_len_bounds(s.drop_last());
        assert(s =~= s.drop_last().push(s.last()));
        lemma_utf8_len_push(s.drop_last(), s.last());
        lemma_char_utf8_len(s.last());
    }
}

/// UTF-8 length of `c`, as `char::len_utf8` documents it.
pub fn char_len(c: char) -> (n: usize)
    ensures n == char_utf8_len(c),
{
    proof { lemma_char_utf8_len(c); broadcast use vstd::utf8::char_is_scalar; }
    let v: u32 = c as u32;
    if v <= 0x7F {
        1
    } else if v <= 0x7FF {
        2
    } else if v <= 0xFFFF {
        3
    } else {
        4
    }
}

/// The characters of `s`, in order.
pub fn chars_of(s: &str) -> (v: Vec<char>)
    ensures v@ == s@,
{
    let mut v: Vec<char> = Vec::new();
    for ch in it: s.chars()
        invariant
            it.seq() == s@,
            v@ == s@.take(it.index() as int),
    {
        v.push(ch);
    }
    v
}

/// `buf` after appending all of `s`, if it still fits in `cap` bytes; a
/// fixed-capacity string buffer refuses an append that does not fit whole.
pub open spec fn cap_append(buf: Seq<char>, s: Seq<char>, cap: nat) -> Seq<char> {
    if utf8_len(buf) + utf8_len(s) <= cap {
        buf + s
    } else {
        buf
    }
}

/// `buf` after formatting the two pieces `a` then `b` into it: each piece is
/// appended whole or not at all, and formatting stops at the first piece
/// that does not fit.
pub open spec fn cap_write(buf: Seq<char>, a: Seq<char>, b: Seq<char>, cap: nat) -> Seq<char> {
    if utf8_len(buf) + utf8_len(a) <= cap {
        cap_append(buf + a, b, cap)
    } else {
        buf
    }
}

/// One character of a truncating copy: stop once `limit` bytes are held,
/// and skip a character that would overflow the `cap`-byte buffer.
pub open spec fn clip_step(w: Seq<char>, ch: char, limit: nat, cap: nat) -> Seq<char> {
    if utf8_len(w) >= limit {
        w
    } else if utf8_len(w) + char_utf8_len(ch) <= cap {
        w.push(ch)
    } else {
        w
    }
}

/// The truncating copy of `s`: characters are copied until the copy holds
/// at least `limit` bytes, each one only if it fits the `cap`-byte buffer.
pub open spec fn clip(s: Seq<char>, limit: nat, cap: nat) -> Seq<char>
    decreases s.len(),
{
    if s.len() == 0 {
        s
    } else {
        clip_step(clip(s.drop_last(), limit, cap), s.last(), limit, cap)
    }
}

/// `n` spaces.
pub open spec fn spaces(n: nat) -> Seq<char> {
    Seq::new(n, |i: int| ' ')
}

/// `s` cut or padded with spaces to exactly `n` characters: one glyph cell
/// per character, so the text covers `n` cells.
pub open spec fn fit_cells(s: Seq<char>, n: nat) -> Seq<char> {
    if s.len() < n { s + spaces((n - s.len()) as nat) } else { s.take(n as int) }
}

/// Cuts or pads `s` with spaces to exactly `n` characters.
pub fn fit_to_cells(s: &Vec<char>, n: usize) -> (line: Vec<char>)
    ensures line@ == fit_cells(s@, n as nat),
{
    let mut line: Vec<char> = Vec::new();
    let mut i: usize = 0;
    while i < s.len() && i < n
        invariant
            i <= n,
            i <= s@.len(),
            line@ == s@.take(i as int),
        decreases n - i,
    {
        line.push(s[i]);
        i = i + 1;
        proof { assert(line@ =~= s@.take(i as int)); }
    }
    while line.len() < n
        invariant
            i <= n,
            line@.len() >= i,
            i == (if s@.len() < n { s@.len() } else { n as nat }),
            line@ == s@.take(i as int) + spaces((line@.len() - i) as nat),
            line@.len() <= n,
        decreases n - line@.len(),
    {
        line.push(' ');
        proof { assert(line@ =~= s@.take(i as int) + spaces((line@.len() - i) as nat)); }
    }
    proof {
        if s@.len() < n {
            assert(s@.take(i as int) =~= s@);
        } else {
            assert(line@ =~= s@.take(n as int));
        }
    }
    line
}

/// The decimal digits of `n`, as `usize`'s `Display` writes them.
pub open spec fn decimal(n: nat) -> Seq<char>
    decreases n,
{
    if n < 10 {
        seq![digit(n)]
    } else {
        decimal(n / 10).push(digit(n % 10))
    }
}

pub open spec fn digit(d: nat) -> char {
    if d == 0 { '0' } else if d == 1 { '1' } else if d == 2 { '2' } else if d == 3 { '3' }
    else if d == 4 { '4' } else if d == 5 { '5' } else if d == 6 { '6' } else if d == 7 { '7' }
    else if d == 8 { '8' } else { '9' }
}

/// `min(utf8_len(v), limit + 1)`: the byte length of `v`, counted no
/// further than just past `limit`.
pub fn bytes_capped(v: &Vec<char>, limit: usize) -> (n: usize)
    requires limit <= 1_000_000,
    ensures
        utf8_len(v@) <= limit ==> n == utf8_len(v@),
        utf8_len(v@) > limit ==> n == limit + 1,
{
    let mut acc: usize = 0;
    let mut i: usize = 0;
    while i < v.len()
        invariant
            i <= v@.len(),
            acc == utf8_len(v@.take(i as int)),
            acc <= limit,
            limit <= 1_000_000,
        decreases v@.len() - i,
    {
        proof {
            assert(v@.take(i + 1) =~= v@.take(i as int).push(v@[i as int]));
            lemma_utf8_len_push(v@.take(i as int), v@[i as int]);
            lemma_char_utf8_len(v@[i as int]);
        }
        acc = acc + char_len(v[i]);
        i = i + 1;
        if acc > limit {
            proof {
                assert(v@ =~= v@.take(i as int) + v@.skip(i as int));
                lemma_utf8_len_concat(v@.take(i as int), v@.skip(i as int));
            }
            return limit + 1;
        }
    }
    proof { assert(v@.take(i as int) =~= v@); }
    acc
}

/// Appends `s` to `buf` when the result fits in `cap` bytes, as a
/// fixed-capacity string buffer does; otherwise `buf` is left as it was.
pub fn append_within(buf: &mut Vec<char>, s: &Vec<char>, cap: usize) -> (ok: bool)
    requires cap <= 1_000_000,
    ensures
        final(buf)@ == cap_append(old(buf)@, s@, cap as nat),
        ok == (utf8_len(old(buf)@) + utf8_len(s@) <= cap),
{
    let b = bytes_capped(buf, cap);
    let sb = bytes_capped(s, cap);
    if b + sb <= cap {
        let mut i: usize = 0;
        while i < s.len()
            invariant
                i <= s@.len(),
                buf@ == old(buf)@ + s@.take(i as int),
            decreases s@.len() - i,
        {
            proof { assert(s@.take(i + 1) =~= s@.take(i as int).push(s@[i as int])); }
            buf.push(s[i]);
            proof { assert(buf@ =~= old(buf)@ + s@.take(i + 1)); }
            i = i + 1;
        }
        proof { assert(s@.take(i as int) =~= s@); }
        true
    } else {
        false
    }
}

fn push_digits(n: usize, out: &mut Vec<char>)
    ensures final(out)@ == old(out)@ + decimal(n as nat),
    decreases n,
{
    let d: usize = n % 10;
    let c: char = if d == 0 { '0' } else if d == 1 { '1' } else if d == 2 { '2' } else if d == 3 { '3' }
        else if d == 4 { '4' } else if d == 5 { '5' } else if d == 6 { '6' } else if d == 7 { '7' }
        else if d == 8 { '8' } else { '9' };
    if n >= 10 {
        push_digits(n / 10, out);
    }
    out.push(c);
    proof {
        if n < 10 {
            assert(decimal(n as nat) =~= seq![digit(n as nat)]);
        }
        assert(final(out)@ =~= old(out)@ + decimal(n as nat));
    }
}

/// The decimal digits of `n`.
pub fn decimal_digits(n: usize) -> (v: Vec<char>)
    ensures v@ == decimal(n as nat),
{
    let mut v: Vec<char> = Vec::new();
    push_digits(n, &mut v);
    proof { assert(v@ =~= decimal(n as nat)); }
    v
}

/// The UTF-8 length of `s`.
pub fn str_bytes(s: &str) -> (n: usize)
    requires utf8_len(s@) <= usize::MAX,
    ensures n == utf8_len(s@), n <= 4 * s@.len(),
{
    proof { lemma_utf8_len_bounds(s@); }
    s.len()
}

/// A truncating copy never exceeds its buffer.
pub proof fn lemma_clip_fits(s: Seq<char>, limit: nat, cap: nat)
    ensures utf8_len(clip(s, limit, cap)) <= cap,
    decreases s.len(),
{
    lemma_utf8_len_empty();
    if s.len() > 0 {
        lemma_clip_fits(s.drop_last(), limit, cap);
        lemma_utf8_len_push(clip(s.drop_last(), limit, cap), s.last());
    }
}

/// Once the copy holds `limit` bytes, later characters change nothing.
pub proof fn lemma_clip_stops(s: Seq<char>, i: int, j: int, limit: nat, cap: nat)
    requires
        0 <= i <= j <= s.len(),
        utf8_len(clip(s.take(i), limit, cap)) >= limit,
    ensures clip(s.take(j), limit, cap) == clip(s.take(i), limit, cap),
    decreases j - i,
{
    if j > i {
        lemma_clip_stops(s, i, j - 1, limit, cap);
        assert(s.take(j).drop_last() =~= s.take(j - 1));
    }
}

/// Whether two character sequences are equal.
pub fn same_chars(a: &Vec<char>, b: &Vec<char>) -> (r: bool)
    ensures r == (a@ == b@),
{
    if a.len() != b.len() {
        return false;
    }
    let mut i: usize = 0;
    while i < a.len()
        invariant
            i <= a@.len(),
            a@.len() == b@.len(),
            forall|j: int| 0 <= j < i ==> a@[j] == b@[j],
        decreases a@.len() - i,
    {
        if a[i] != b[i] {
            return false;
        }
        i = i + 1;
    }
    proof { assert(a@ =~= b@); }
    true
}

/// A fixed-capacity buffer stays within its capacity.
pub proof fn lemma_cap_write_fits(buf: Seq<char>, a: Seq<char>, b: Seq<char>, cap: nat)
    requires utf8_len(buf) <= cap,
    ensures
        utf8_len(cap_append(buf, a, cap)) <= cap,
        utf8_len(cap_write(buf, a, b, cap)) <= cap,
{
    lemma_utf8_len_concat(buf, a);
    lemma_utf8_len_concat(buf + a, b);
}

/// The truncating copy of `s` into a `cap`-byte buffer: characters are
/// copied until the copy holds `limit` bytes; one that would overflow the
/// buffer is skipped.
pub fn clip_chars(s: &str, limit: usize, cap: usize) -> (w: Vec<char>)
    requires limit <= cap <= 1_000_000,
    ensures w@ == clip(s@, limit as nat, cap as nat),
{
    let chars = chars_of(s);
    let mut w: Vec<char> = Vec::new();
    let mut used: usize = 0;
    let mut i: usize = 0;
    proof {
        assert(chars@.take(0) =~= Seq::<char>::empty());
        assert(chars@.take(chars@.len() as int) =~= chars@);
        lemma_utf8_len_empty();
    }
    while i < chars.len()
        invariant
            i <= chars@.len(),
            limit <= cap <= 1_000_000,
            chars@.take(chars@.len() as int) == chars@,
            w@ == clip(chars@.take(i as int), limit as nat, cap as nat),
            used == utf8_len(w@),
            used <= cap,
        ensures
            w@ == clip(chars@, limit as nat, cap as nat),
        decreases chars@.len() - i,
    {
        if used >= limit {
            proof { lemma_clip_stops(chars@, i as int, chars@.len() as int, limit as nat, cap as nat); }
            break;
        }
        let ch = chars[i];
        proof {
            assert(chars@.take(i + 1).drop_last() =~= chars@.take(i as int));
            lemma_utf8_len_push(w@, ch);
            lemma_char_utf8_len(ch);
        }
        let n = char_len(ch);
        if used + n <= cap {
            w.push(ch);
            used = used + n;
        }
        i = i + 1;
    }
    w
}

} // verus!
