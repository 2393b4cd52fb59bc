//! What a table header says of one column.

use crate::field_type::FieldType;
use vstd::prelude::*;

verus! {

/// Flag bits of a column, as the header stores them.
#[derive(Debug, Copy, Clone, PartialEq, Eq, Structural)]
pub struct FieldFlags(pub u8);

/// Description of one column of a table.
#[derive(Debug, Clone)]
pub struct FieldInfo {
    pub name: String,
    pub field_type: FieldType,
    pub displacement_field: [u8; 4],
    /// Number of bytes that a value of the column takes in a record.
    pub field_length: u8,
    pub num_decimal_places: u8,
    pub flags: FieldFlags,
    pub autoincrement_next_val: [u8; 5],
    pub autoincrement_step: u8,
}

impl FieldInfo {
    /// Number of bytes that a value of type `field_type` takes where the
    /// column is declared `field_length` bytes long: the declared length for
    /// the types stored as text, the fixed width for the others. A memo
    /// column of at most four bytes holds a four-byte block index.
    pub open spec fn stored_len(field_type: FieldType, field_length: u8) -> nat {
        match field_type {
            FieldType::Logical => 1,
            FieldType::Integer => 4,
            FieldType::Double | FieldType::Currency | FieldType::DateTime => 8,
            FieldType::Memo => if field_length > 4 {
                field_length as nat
            } else {
                4
            },
            _ => field_length as nat,
        }
    }

    /// Number of bytes that a value of this column takes in a record.
    pub fn value_len(&self) -> (r: usize)
        ensures
            r == Self::stored_len(self.field_type, self.field_length),
    {
        match self.field_type {
            FieldType::Logical => 1,
            FieldType::Integer => 4,
            FieldType::Double | FieldType::Currency | FieldType::DateTime => 8,
            FieldType::Memo => if self.field_length > 4 {
                self.field_length as usize
            } else {
                4
            },
            _ => self.field_length as usize,
        }
    }
}

} // verus!
