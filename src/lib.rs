//! A daemon core that tails a structured system journal and re-emits each
//! record as one formatted line, with a durable, crash-safe resume cursor.

pub mod priority;
pub mod format;
pub mod cursor;
pub mod tailer;
