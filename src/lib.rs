//! Wire codecs for the temporal column types of a tabular database protocol.
pub mod bytes;
pub mod calendar;
pub mod type_info;
pub mod codec;
pub mod laws;
