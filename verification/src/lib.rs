//! A versioned binary serialization library.
//!
//! Values are persisted to a little-endian byte stream framed by a `u32`
//! version number and, optionally, a self-describing schema header. On load
//! the stored schema is compared against the schema the in-memory types
//! declare for the file's version; a mismatch is reported with the exact
//! path of the first difference instead of silently decoding garbage.

pub mod bytes;
pub mod containers;
pub mod de;
pub mod driver;
pub mod diff;
pub mod mapping;
pub mod meta;
pub mod schema;
pub mod schema_codec;
pub mod ser;
pub mod traits;
pub mod error;

pub use crate::driver::{load, load_noschema, save, save_noschema};
pub use crate::error::SavefileError;
