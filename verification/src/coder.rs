//! The codec: header, channel strategies, record format and the two entry
//! points.

pub mod decoder;
pub mod encoder;
pub mod error;
pub mod header;
pub mod layout;
pub mod record;
pub mod round_trip;
pub mod util;
