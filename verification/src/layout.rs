//! Panel geometry shared by every screen.
//!
//! ```text
//! +------------------------------------------+  y=0
//! | HEADER: title              wifi  caps    |   surface bar
//! +------------------------------------------+  y=13   1px divider
//! | content (draft / reply / menu)           |
//! +------------------------------------------+  y=114  1px divider
//! | FOOTER: button legend                    |   hint bar (lists/reply)
//! +------------------------------------------+  y=128
//! ```
use vstd::prelude::*;

verus! {

/// Physical panel width.
pub const WIDTH: u32 = 160;
/// Physical panel height.
pub const HEIGHT: u32 = 128;

/// Top of the header band.
pub const STATUS_TOP: i32 = 0;
/// Content top (just below the header divider at y=13).
pub const DRAFT_TOP: i32 = 14;
/// Top of the compose-mode guidance zone.
pub const GUIDE_TOP: i32 = 92;

/// Height of the footer hint bar.
pub const FOOTER_H: i32 = 13;
/// Top of the footer hint bar: HEIGHT - FOOTER_H.
pub const FOOTER_TOP: i32 = 115;
/// Divider above the footer: FOOTER_TOP - 1.
pub const FOOTER_DIV: i32 = 114;

/// Monospace columns across the panel: WIDTH / 6.
pub const COLS: usize = 26;
/// Height of one text line.
pub const LINE_H: i32 = 11;

/// Content rows that fit on a list/reply screen (header + footer reserved):
/// (FOOTER_DIV - (DRAFT_TOP + 2)) / LINE_H.
pub const CONTENT_ROWS: usize = 8;

/// Rows of the reply tail that fit below the header with no footer:
/// (HEIGHT - (DRAFT_TOP + 2)) / LINE_H.
pub const TAIL_ROWS: usize = 10;

} // verus!
