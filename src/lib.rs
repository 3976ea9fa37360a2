//! Building blocks for small text-mode benchmark screens: a compact
//! one-character string, a plain character grid, a capture/replay cache for
//! rendering into that grid, and a staged sequencer for timed operations.

pub mod buffer;
pub mod embedded_str;
pub mod grid;
pub mod sequencer;
pub mod worm_buffer;

pub use buffer::{Buffer, Cell, Color};
pub use embedded_str::EmbeddedStr;
pub use grid::{Position, Rect};
pub use sequencer::{Sequencer, StageState, TickAction, millis_u32, timed};
pub use worm_buffer::{WormBuffer, changed_cells};
