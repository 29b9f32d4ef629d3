//! Conversion of a civil (proleptic Gregorian, UTC) date and time to a POSIX
//! timestamp in milliseconds since 1970-01-01T00:00:00 UTC.

pub mod calendar;
pub mod convert;
pub mod laws;

pub use convert::ConversionError;
pub use convert::time_converter;
