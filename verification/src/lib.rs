//! Overtime bookkeeping: parse `HH:MM-HH:MM` shift tokens into signed minute
//! spans and fold a log of shift lines into one net overtime total, deducting
//! a weekly allowance at each blank-line week boundary and once at the end.

pub mod aggregate;
pub mod duration;
pub mod error;
pub mod shift;
pub mod text;

pub use aggregate::shifts_from_line;
pub use aggregate::total_time_from_buffer;
pub use duration::Duration;
pub use error::Error;
