//! Field-value codec and memo-file resolver for dBase / FoxPro tables.
//!
//! The library works on bytes held in memory: a [`ByteReader`] stands for
//! the record or memo stream, and encoders append to a `Vec<u8>`.

pub mod arith;
pub mod date;
pub mod decimal;
pub mod endian;
pub mod error;
pub mod field;
pub mod field_type;
pub mod memo;
pub mod reader;
pub mod record;
pub mod round_trip;
pub mod text;
pub mod writing;

pub use crate::date::{Date, DateTime, Time};
pub use crate::error::Error;
pub use crate::field::{read_string_of_len, FieldValue};
pub use crate::field_type::FieldType;
pub use crate::memo::{MemoFileType, MemoHeader, MemoReader};
pub use crate::reader::ByteReader;
pub use crate::record::{FieldFlags, FieldInfo};
pub use crate::writing::WriteableDbaseField;
