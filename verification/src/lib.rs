//! A typing-test session engine: keystrokes are recorded against a fixed
//! prompt, and speed, accuracy and consistency are derived from the log.
//!
//! Nothing in this crate reads a clock. Every operation that needs the
//! current time takes it as a number of milliseconds on a clock of the
//! caller's choosing, and all results are exact integers.

pub mod laws;
pub mod layout;
pub mod metrics;
pub mod sorting;
pub mod tally;
pub mod thok;

pub use layout::{CharStyle, Shade};
pub use metrics::{Coord, Deviation, Metrics};
pub use thok::{Input, Outcome, Session, Thok};
