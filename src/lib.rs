//! Fill a buffer completely from a byte source, telling a source that was
//! already exhausted apart from one that ran dry partway through.
//!
//! The decisions of a fill are a small state machine in [`model`]; the loop
//! that drives it against a `std::io::Read` source lives in [`fill`]. The laws
//! that the state machine obeys are proved in [`laws`].

pub mod fill;
pub mod laws;
pub mod model;

pub use fill::{fill_or_eof, ReadExactExt};
pub use model::{begin, FillError, Next, Progress, MAX_INTERRUPTS};
