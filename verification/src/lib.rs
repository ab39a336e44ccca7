//! The drawing, erasing, history, menu and peer-synchronisation rules of a
//! shared whiteboard, verified with Verus.
//!
//! - `stroke`: strokes and colours.
//! - `erase`: the point eraser and the stroke eraser.
//! - `input`: what each tool and the size keys do in a frame.
//! - `history`: undo, redo and the palette of picked colours.
//! - `network`: the packets peers exchange and how a canvas takes them in.
//! - `menu`: the pause menu's screens.
//! - `text`: room codes, names, labels and room addresses.

pub mod stroke;
pub mod erase;
pub mod input;
pub mod history;
pub mod network;
pub mod menu;
pub mod text;

pub use stroke::{Rgba, Stroke, StrokeView, Tool};
