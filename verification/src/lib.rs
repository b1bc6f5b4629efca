//! The logic of a thin status bar that shows how much of a five-hour usage
//! window has been used and when the window resets: reading timestamps and
//! calendar dates, looking values up in JSON documents, choosing the monitor
//! and laying out the bar and its menu, and the bar's state on window events.

pub mod civil;
pub mod text;
pub mod iso8601;
pub mod json;
pub mod monitor;
pub mod bar;
pub mod wide;

pub use civil::days_from_civil;
pub use iso8601::iso8601_to_epoch;
