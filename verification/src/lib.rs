//! A gap buffer: a sequence container optimized for repeated insertion and
//! removal around a movable cursor, together with a small ASCII-checked byte
//! string used by callers that feed text into the buffer.

pub mod ascii;
pub mod gap;
