//! Parses the many ways people type a UTC offset ("+5:30", "UTC+05:30",
//! "utc+5", "-0800", "PST", "Z") and formats them all the same way.

pub mod batch;
pub mod laws;
pub mod offset;
pub mod parse;
pub mod text;
pub mod zones;

pub use batch::{batch_end, batch_line, BatchEnd, BatchState, LineReport};
pub use offset::{Offset, OffsetError, MAX_TOTAL_MINUTES, MIN_TOTAL_MINUTES};
pub use parse::{extract_offset, normalize, parse_numeric};
