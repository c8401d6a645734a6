//! A type-directed binary codec for a fixed, schema-less save-file layout.
//!
//! Values are written as their fields in declared order, with little-endian
//! scalars, ULEB128-prefixed strings and four length-prefixed collection kinds.

pub mod codec;
pub mod de;
pub mod error;
pub mod laws;
pub mod le;
pub mod ser;
pub mod types;
pub mod uleb;
pub mod vec;

pub use codec::{from_reader, to_writer, Codec, Deserialize, Serialize};
pub use de::ReadDeserializer;
pub use error::Error;
pub use error::Result;
pub use ser::WriteSerializer;
pub use types::{Rect, ULEB128};
pub use vec::{ValueSized, VecI16, VecI16Flags, VecI32, VecULEB128};
