//! Encoding of values: what each kind of value appends to a record.

use crate::date::Date;
use crate::endian::{i32_le_bytes, u32_le, u64_le, u64_le_bytes, unsigned32};
use crate::field::{FieldModel, FieldValue};
use crate::field_type::FieldType;
use vstd::prelude::*;
use vstd::utf8::encode_utf8;

verus! {

/// The byte `t`, written for true.
pub const LOGICAL_TRUE: u8 = 0x74;

/// The byte `f`, written for false.
pub const LOGICAL_FALSE: u8 = 0x66;

/// The byte `?`, written for a logical field without a value.
pub const LOGICAL_UNKNOWN: u8 = 0x3F;

/// The byte of a space.
pub const SPACE: u8 = 0x20;

/// The byte written for a truth value.
pub open spec fn logical_byte(value: bool) -> u8 {
    if value {
        LOGICAL_TRUE
    } else {
        LOGICAL_FALSE
    }
}

/// The eight spaces of a date field without a value.
pub open spec fn blank_date() -> Seq<u8> {
    Seq::new(8, |i: int| SPACE)
}

impl FieldModel {
    /// Whether the value can be written: every value but memo text.
    pub open spec fn is_writable(self) -> bool {
        !(self is Memo)
    }

    /// The bytes that stand for the value in a record. Text is written as
    /// it is, with no padding to the length of the column; memo text has no
    /// encoding and is given none here.
    pub open spec fn encoding(self) -> Seq<u8> {
        match self {
            FieldModel::Character(Some(text)) => encode_utf8(text),
            FieldModel::Character(None) => Seq::empty(),
            FieldModel::Numeric(Some(text)) => encode_utf8(text),
            FieldModel::Numeric(None) => Seq::empty(),
            FieldModel::Float(Some(text)) => encode_utf8(text),
            FieldModel::Float(None) => Seq::empty(),
            FieldModel::Logical(Some(value)) => seq![logical_byte(value)],
            FieldModel::Logical(None) => seq![LOGICAL_UNKNOWN],
            FieldModel::Date(Some(date)) => encode_utf8(date.text()),
            FieldModel::Date(None) => blank_date(),
            FieldModel::Integer(i) => u32_le(unsigned32(i as int)),
            FieldModel::Double(bits) => u64_le(bits as int),
            FieldModel::Currency(bits) => u64_le(bits as int),
            FieldModel::DateTime(dt) => dt.encoding(),
            FieldModel::Memo(_) => Seq::empty(),
        }
    }
}

/// A value that can stand in a field of a record.
pub trait WriteableDbaseField {
    /// The column type that holds such a value.
    spec fn type_of(&self) -> FieldType;

    /// Whether `write_to` accepts the value.
    spec fn is_writable(&self) -> bool;

    /// The bytes that `write_to` appends.
    spec fn encoding(&self) -> Seq<u8>;

    /// The column type that holds such a value.
    fn field_type(&self) -> (r: FieldType)
        ensures
            r == self.type_of(),
    ;

    /// Appends the bytes that stand for the value to `dst`.
    fn write_to(&self, dst: &mut Vec<u8>)
        requires
            self.is_writable(),
        ensures
            final(dst)@ == old(dst)@ + self.encoding(),
    ;
}

impl WriteableDbaseField for &str {
    open spec fn type_of(&self) -> FieldType {
        FieldType::Character
    }

    open spec fn is_writable(&self) -> bool {
        true
    }

    open spec fn encoding(&self) -> Seq<u8> {
        encode_utf8(self@)
    }

    fn field_type(&self) -> (r: FieldType) {
        FieldType::Character
    }

    fn write_to(&self, dst: &mut Vec<u8>) {
        dst.extend_from_slice(self.as_bytes());
    }
}

impl WriteableDbaseField for String {
    open spec fn type_of(&self) -> FieldType {
        FieldType::Character
    }

    open spec fn is_writable(&self) -> bool {
        true
    }

    open spec fn encoding(&self) -> Seq<u8> {
        encode_utf8(self@)
    }

    fn field_type(&self) -> (r: FieldType) {
        FieldType::Character
    }

    fn write_to(&self, dst: &mut Vec<u8>) {
        self.as_str().write_to(dst)
    }
}

impl WriteableDbaseField for Option<String> {
    open spec fn type_of(&self) -> FieldType {
        FieldType::Character
    }

    open spec fn is_writable(&self) -> bool {
        true
    }

    open spec fn encoding(&self) -> Seq<u8> {
        match *self {
            Some(s) => encode_utf8(s@),
            None => Seq::empty(),
        }
    }

    fn field_type(&self) -> (r: FieldType) {
        FieldType::Character
    }

    fn write_to(&self, dst: &mut Vec<u8>) {
        if let Some(s) = self {
            s.write_to(dst)
        } else {
            assert(old(dst)@ + Seq::<u8>::empty() =~= old(dst)@);
        }
    }
}

impl WriteableDbaseField for Date {
    open spec fn type_of(&self) -> FieldType {
        FieldType::Date
    }

    open spec fn is_writable(&self) -> bool {
        true
    }

    open spec fn encoding(&self) -> Seq<u8> {
        encode_utf8(self.text())
    }

    fn field_type(&self) -> (r: FieldType) {
        FieldType::Date
    }

    fn write_to(&self, dst: &mut Vec<u8>) {
        let text = self.to_string();
        dst.extend_from_slice(text.as_str().as_bytes());
    }
}

impl WriteableDbaseField for Option<Date> {
    open spec fn type_of(&self) -> FieldType {
        FieldType::Date
    }

    open spec fn is_writable(&self) -> bool {
        true
    }

    open spec fn encoding(&self) -> Seq<u8> {
        match *self {
            Some(d) => encode_utf8(d.text()),
            None => Seq::empty(),
        }
    }

    fn field_type(&self) -> (r: FieldType) {
        FieldType::Date
    }

    fn write_to(&self, dst: &mut Vec<u8>) {
        if let Some(d) = self {
            <Date as WriteableDbaseField>::write_to(d, dst)
        } else {
            assert(old(dst)@ + Seq::<u8>::empty() =~= old(dst)@);
        }
    }
}

impl WriteableDbaseField for bool {
    open spec fn type_of(&self) -> FieldType {
        FieldType::Logical
    }

    open spec fn is_writable(&self) -> bool {
        true
    }

    open spec fn encoding(&self) -> Seq<u8> {
        seq![logical_byte(*self)]
    }

    fn field_type(&self) -> (r: FieldType) {
        FieldType::Logical
    }

    fn write_to(&self, dst: &mut Vec<u8>) {
        if *self {
            dst.push(LOGICAL_TRUE);
        } else {
            dst.push(LOGICAL_FALSE);
        }
        assert(final(dst)@ =~= old(dst)@ + self.encoding());
    }
}

impl WriteableDbaseField for Option<bool> {
    open spec fn type_of(&self) -> FieldType {
        FieldType::Logical
    }

    open spec fn is_writable(&self) -> bool {
        true
    }

    open spec fn encoding(&self) -> Seq<u8> {
        match *self {
            Some(value) => seq![logical_byte(value)],
            None => seq![LOGICAL_UNKNOWN],
        }
    }

    fn field_type(&self) -> (r: FieldType) {
        FieldType::Logical
    }

    fn write_to(&self, dst: &mut Vec<u8>) {
        if let Some(value) = self {
            value.write_to(dst)
        } else {
            dst.push(LOGICAL_UNKNOWN);
            assert(final(dst)@ =~= old(dst)@ + self.encoding());
        }
    }
}

impl WriteableDbaseField for FieldValue {
    open spec fn type_of(&self) -> FieldType {
        self@.field_type()
    }

    open spec fn is_writable(&self) -> bool {
        self@.is_writable()
    }

    open spec fn encoding(&self) -> Seq<u8> {
        self@.encoding()
    }

    fn field_type(&self) -> (r: FieldType) {
        FieldValue::field_type(self)
    }

    /// Memo text cannot be written: such a value is not accepted.
    fn write_to(&self, dst: &mut Vec<u8>) {
        match self {
            FieldValue::Character(value) => {
                value.write_to(dst);
            },
            FieldValue::Numeric(value) => {
                value.write_to(dst);
            },
            FieldValue::Float(value) => {
                value.write_to(dst);
            },
            FieldValue::Logical(value) => {
                value.write_to(dst);
            },
            FieldValue::Date(value) => {
                match value {
                    Some(d) => {
                        <Date as WriteableDbaseField>::write_to(d, dst);
                    },
                    None => {
                        let blank = [SPACE; 8];
                        dst.extend_from_slice(&blank);
                        assert(final(dst)@ =~= old(dst)@ + blank_date());
                    },
                }
            },
            FieldValue::Double(d) => {
                let bytes = u64_le_bytes(*d);
                dst.extend_from_slice(&bytes);
            },
            FieldValue::Integer(i) => {
                let bytes = i32_le_bytes(*i);
                dst.extend_from_slice(&bytes);
            },
            FieldValue::Memo(_text) => {
                vstd::pervasive::unreached::<()>();
            },
            FieldValue::Currency(c) => {
                let bytes = u64_le_bytes(*c);
                dst.extend_from_slice(&bytes);
            },
            FieldValue::DateTime(dt) => {
                dt.write_to(dst);
            },
        }
    }
}

} // verus!
