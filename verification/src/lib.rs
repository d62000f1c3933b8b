//! Time zones and zone-aware date/time values.
//!
//! A [`TimeZone`] describes how to turn a naive (zone-less) date/time into
//! the locally observed one: either no adjustment (UTC), a fixed offset in
//! seconds, or a table of historical transitions decoded from a binary
//! time-zone-database file. A [`ZonedDateTime`] pairs a naive value with a
//! zone and resolves the offset on every field access.

pub mod local;
pub mod tzfile;
pub mod zoned;

pub use local::LocalDateTime;
pub use tzfile::{DecodeError, Transition};
pub use zoned::{Error, ParseError, Sign, TimeZone, ZoneFields, ZonedDateTime};
