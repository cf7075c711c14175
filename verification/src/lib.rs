//! The layout engine behind Locket's 160x128 ST7735 screen.
//!
//! Every screen is computed into a [`DisplayList`]: the ordered draw steps
//! (clear, filled rectangle, 1px frame, monospace text) that a renderer
//! owning the real panel replays.
pub mod text;
pub mod layout;
pub mod theme;
pub mod canvas;
pub mod rows;
pub mod keyboard;
pub mod ui;

pub use canvas::{DisplayList, DrawOp, Font};
pub use keyboard::KeyboardView;
pub use theme::{Color565, Theme};
pub use ui::Ui;
