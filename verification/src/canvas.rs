//! Draw commands and the display list a screen is computed into.
use vstd::prelude::*;
use crate::theme::Color565;

verus! {

/// The two monospace fonts: 6x10 for body text, 10x20 for splash titles.
#[derive(Clone, Copy, Debug, PartialEq, Eq, Structural)]
pub enum Font {
    Small,
    Large,
}

/// One drawing step, in panel coordinates (origin top-left, y down).
#[derive(Debug, PartialEq, Eq)]
pub enum DrawOp {
    /// Paint the whole panel.
    Clear { color: Color565 },
    /// A filled rectangle.
    Fill { x: i32, y: i32, w: u32, h: u32, color: Color565 },
    /// A rectangle outline, 1px wide.
    Frame { x: i32, y: i32, w: u32, h: u32, color: Color565 },
    /// Monospace text, top-left at (x, y); `background` paints the glyph
    /// cells opaquely when present.
    Text { x: i32, y: i32, text: Vec<char>, font: Font, color: Color565, background: Option<Color565> },
}

/// What a draw step does, as mathematical values.
pub enum Cmd {
    Clear { color: Color565 },
    Fill { x: int, y: int, w: int, h: int, color: Color565 },
    Frame { x: int, y: int, w: int, h: int, color: Color565 },
    Text { x: int, y: int, text: Seq<char>, font: Font, color: Color565, background: Option<Color565> },
}

impl DrawOp {
    pub open spec fn cmd(&self) -> Cmd {
        match self {
            DrawOp::Clear { color } => Cmd::Clear { color: *color },
            DrawOp::Fill { x, y, w, h, color } => Cmd::Fill { x: *x as int, y: *y as int, w: *w as int, h: *h as int, color: *color },
            DrawOp::Frame { x, y, w, h, color } => Cmd::Frame { x: *x as int, y: *y as int, w: *w as int, h: *h as int, color: *color },
            DrawOp::Text { x, y, text, font, color, background } =>
                Cmd::Text { x: *x as int, y: *y as int, text: text@, font: *font, color: *color, background: *background },
        }
    }
}

/// A draw step with its colours left out: where and what it draws.
pub open spec fn shape(c: Cmd) -> Cmd {
    let none = Color565 { r: 0, g: 0, b: 0 };
    match c {
        Cmd::Clear { .. } => Cmd::Clear { color: none },
        Cmd::Fill { x, y, w, h, .. } => Cmd::Fill { x, y, w, h, color: none },
        Cmd::Frame { x, y, w, h, .. } => Cmd::Frame { x, y, w, h, color: none },
        Cmd::Text { x, y, text, font, background, .. } =>
            Cmd::Text { x, y, text, font, color: none, background: if background is Some { Some(none) } else { None } },
    }
}

/// The shapes of a list of draw steps.
pub open spec fn shapes(s: Seq<Cmd>) -> Seq<Cmd> {
    s.map_values(|c: Cmd| shape(c))
}

/// A draw step with each of its colours passed through `f`.
pub open spec fn recolour(c: Cmd, f: spec_fn(Color565) -> Color565) -> Cmd {
    match c {
        Cmd::Clear { color } => Cmd::Clear { color: f(color) },
        Cmd::Fill { x, y, w, h, color } => Cmd::Fill { x, y, w, h, color: f(color) },
        Cmd::Frame { x, y, w, h, color } => Cmd::Frame { x, y, w, h, color: f(color) },
        Cmd::Text { x, y, text, font, color, background } =>
            Cmd::Text { x, y, text, font, color: f(color), background: match background { Some(b) => Some(f(b)), None => None } },
    }
}

/// A list of draw steps with every colour passed through `f`.
pub open spec fn recolours(s: Seq<Cmd>, f: spec_fn(Color565) -> Color565) -> Seq<Cmd> {
    s.map_values(|c: Cmd| recolour(c, f))
}

/// Recolouring a concatenation.
pub proof fn lemma_recolours_concat(a: Seq<Cmd>, b: Seq<Cmd>, f: spec_fn(Color565) -> Color565)
    ensures recolours(a + b, f) == recolours(a, f) + recolours(b, f),
{
    assert(recolours(a + b, f) =~= recolours(a, f) + recolours(b, f));
}

/// The colour map that takes every colour to black.
pub open spec fn no_colour() -> spec_fn(Color565) -> Color565 {
    |c: Color565| Color565 { r: 0, g: 0, b: 0 }
}

/// Leaving out the colours is recolouring everything to one colour.
pub proof fn lemma_shapes_recolour(s: Seq<Cmd>)
    ensures shapes(s) == recolours(s, no_colour()),
{
    assert(shapes(s) =~= recolours(s, no_colour()));
}

/// A filled rectangle.
pub open spec fn fill_cmd(x: int, y: int, w: int, h: int, color: Color565) -> Cmd {
    Cmd::Fill { x, y, w, h, color }
}

/// Body text (6x10 font) drawn transparently.
pub open spec fn text_cmd(s: Seq<char>, x: int, y: int, color: Color565) -> Cmd {
    Cmd::Text { x, y, text: s, font: Font::Small, color, background: None }
}

/// The screen being built: draw commands in the order they are painted.
pub struct DisplayList {
    ops: Vec<DrawOp>,
}

impl View for DisplayList {
    type V = Seq<Cmd>;

    closed spec fn view(&self) -> Seq<Cmd> {
        Seq::new(self.ops@.len(), |i: int| self.ops@[i].cmd())
    }
}

impl DisplayList {
    /// An empty list.
    pub fn new() -> (l: DisplayList)
        ensures l@ == Seq::<Cmd>::empty(),
    {
        let l = DisplayList { ops: Vec::new() };
        assert(l@ =~= Seq::<Cmd>::empty());
        l
    }

    /// The draw steps, in painting order.
    pub fn ops(&self) -> (v: &Vec<DrawOp>)
        ensures
            v@.len() == self@.len(),
            forall|i: int| 0 <= i < v@.len() ==> (#[trigger] v@[i]).cmd() == self@[i],
    {
        &self.ops
    }

    /// Append one step.
    pub fn push(&mut self, op: DrawOp)
        ensures final(self)@ == old(self)@.push(op.cmd()),
    {
        self.ops.push(op);
        assert(self@ =~= old(self)@.push(op.cmd()));
    }
}

} // verus!
