//! Input and focus logic for a fixed-length numeric one-time code.
//!
//! `OtpState` holds the code, the selected box, masking and any IME
//! composition. Each operation returns the `Effects` the host carries out
//! (focus, cursor blinking, events, redraw), so the state itself does no I/O.

pub mod laws;
pub mod model;
pub mod state;
pub mod text;

pub use model::{CursorBlink, OtpEvent, MASK_CHAR};
pub use state::{Effects, OtpState};
pub use text::byte_range;
