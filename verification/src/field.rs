//! Field values and their codec: one value of a record, read from and
//! written to its bytes.

use crate::date::{Date, DateTime};
use std::str::FromStr;
use crate::decimal::{float_text, is_float_text};
use crate::endian::{
    le_u32, le_u64, read_i32_le, read_u32_le, read_u64_le, signed32,
};
use crate::error::Error;
use crate::field_type::FieldType;
use crate::memo::{memo_block, MemoReader};
use crate::reader::ByteReader;
use crate::record::FieldInfo;
use crate::text::{
    all_chars_are, all_equal, decimal_u32, decode_lossy, parse_u32, text_of, trim, trimmed,
};
use vstd::prelude::*;
use vstd::std_specs::convert::FromSpecImpl;
use vstd::string::StrSliceExecFns;

verus! {

/// The value of one field of a record.
///
/// Character, numeric, float and date fields hold nothing where the stored
/// bytes are blank. A numeric or float field holds its number as the text
/// that is stored, trimmed; a double or currency field holds the 64 bits of
/// its IEEE-754 number.
#[derive(Debug, Clone, PartialEq)]
pub enum FieldValue {
    // dBase III fields, stored as text
    Character(Option<String>),
    Numeric(Option<String>),
    Logical(Option<bool>),
    Date(Option<Date>),
    Float(Option<String>),
    // Visual FoxPro fields, stored in binary
    Integer(i32),
    Currency(u64),
    DateTime(DateTime),
    Double(u64),
    Memo(String),
}

/// A field value with its text as sequences of characters.
pub enum FieldModel {
    Character(Option<Seq<char>>),
    Numeric(Option<Seq<char>>),
    Logical(Option<bool>),
    Date(Option<Date>),
    Float(Option<Seq<char>>),
    Integer(i32),
    Currency(u64),
    DateTime(DateTime),
    Double(u64),
    Memo(Seq<char>),
}

/// The characters of an optional string.
pub open spec fn text_view(s: Option<String>) -> Option<Seq<char>> {
    match s {
        Some(s) => Some(s@),
        None => None,
    }
}

impl View for FieldValue {
    type V = FieldModel;

    open spec fn view(&self) -> FieldModel {
        match *self {
            FieldValue::Character(s) => FieldModel::Character(text_view(s)),
            FieldValue::Numeric(s) => FieldModel::Numeric(text_view(s)),
            FieldValue::Logical(b) => FieldModel::Logical(b),
            FieldValue::Date(d) => FieldModel::Date(d),
            FieldValue::Float(s) => FieldModel::Float(text_view(s)),
            FieldValue::Integer(i) => FieldModel::Integer(i),
            FieldValue::Currency(c) => FieldModel::Currency(c),
            FieldValue::DateTime(dt) => FieldModel::DateTime(dt),
            FieldValue::Double(d) => FieldModel::Double(d),
            FieldValue::Memo(s) => FieldModel::Memo(s@),
        }
    }
}

impl FieldModel {
    /// The column type that holds such a value.
    pub open spec fn field_type(self) -> FieldType {
        match self {
            FieldModel::Character(_) => FieldType::Character,
            FieldModel::Numeric(_) => FieldType::Numeric,
            FieldModel::Logical(_) => FieldType::Logical,
            FieldModel::Date(_) => FieldType::Date,
            FieldModel::Float(_) => FieldType::Float,
            FieldModel::Integer(_) => FieldType::Integer,
            FieldModel::Currency(_) => FieldType::Currency,
            FieldModel::DateTime(_) => FieldType::DateTime,
            FieldModel::Double(_) => FieldType::Double,
            FieldModel::Memo(_) => FieldType::Memo,
        }
    }
}

/// What the byte of a logical field says: `1 0 T t Y y` are true,
/// `N n F f` are false, and every other byte, blank and `?` among them,
/// says nothing.
pub open spec fn logical_of(byte: u8) -> Option<bool> {
    if byte == 0x31 || byte == 0x30 || byte == 0x54 || byte == 0x74 || byte == 0x59 || byte
        == 0x79 {
        Some(true)
    } else if byte == 0x4E || byte == 0x6E || byte == 0x46 || byte == 0x66 {
        Some(false)
    } else {
        None
    }
}

/// The text of a field once trimmed, or nothing where that leaves nothing.
pub open spec fn text_or_blank(text: Seq<char>) -> Option<Seq<char>> {
    if trimmed(text).len() == 0 {
        None
    } else {
        Some(trimmed(text))
    }
}

/// The number of a numeric or float field, as text: nothing where the
/// field is blank or holds asterisks only, the trimmed text where that
/// writes a number, and `ParseFloatError` where it does not.
pub open spec fn number_of_text(text: Seq<char>) -> Result<Option<Seq<char>>, Error> {
    if trimmed(text).len() == 0 || all_equal(text, '*') {
        Ok(None)
    } else if is_float_text(trimmed(text)) {
        Ok(Some(trimmed(text)))
    } else {
        Err(Error::ParseFloatError)
    }
}

/// The date of a date field: nothing where the field holds spaces only,
/// the date that its first eight characters write otherwise.
pub open spec fn date_of_text(text: Seq<char>) -> Result<Option<Date>, Error> {
    if all_equal(text, ' ') {
        Ok(None)
    } else {
        match Date::parse_text(text) {
            Ok(d) => Ok(Some(d)),
            Err(e) => Err(e),
        }
    }
}

/// The block index that a memo field holds as text: none where the field
/// is blank, the number that the trimmed text writes otherwise.
pub open spec fn memo_index_of_text(text: Seq<char>) -> Result<Option<u32>, Error> {
    if trimmed(text).len() == 0 {
        Ok(None)
    } else {
        match decimal_u32(trimmed(text)) {
            Some(index) => Ok(Some(index)),
            None => Err(Error::ParseIntError),
        }
    }
}

/// The value that a column of type `field_type`, declared `field_length`
/// bytes long, holds where the record goes on with `bytes`, with `memo` to
/// look memo text up in.
///
/// Too few bytes give `UnexpectedEof`. Text is read with `text_of`. A memo
/// field holds a block index, as text where the column is longer than four
/// bytes and as a little-endian integer otherwise; a blank index stands for
/// empty text, and any other needs `memo`.
pub open spec fn decode_field(
    bytes: Seq<u8>,
    memo: Option<MemoReader>,
    field_type: FieldType,
    field_length: u8,
) -> Result<FieldModel, Error> {
    let len = FieldInfo::stored_len(field_type, field_length);
    if bytes.len() < len {
        Err(Error::UnexpectedEof)
    } else {
        let raw = bytes.take(len as int);
        match field_type {
            FieldType::Logical => Ok(FieldModel::Logical(logical_of(raw[0]))),
            FieldType::Character => Ok(FieldModel::Character(text_or_blank(text_of(raw)))),
            FieldType::Numeric => match number_of_text(text_of(raw)) {
                Ok(n) => Ok(FieldModel::Numeric(n)),
                Err(e) => Err(e),
            },
            FieldType::Float => match number_of_text(text_of(raw)) {
                Ok(n) => Ok(FieldModel::Float(n)),
                Err(e) => Err(e),
            },
            FieldType::Date => match date_of_text(text_of(raw)) {
                Ok(d) => Ok(FieldModel::Date(d)),
                Err(e) => Err(e),
            },
            FieldType::Integer => Ok(FieldModel::Integer(signed32(le_u32(raw)) as i32)),
            FieldType::Double => Ok(FieldModel::Double(le_u64(raw) as u64)),
            FieldType::Currency => Ok(FieldModel::Currency(le_u64(raw) as u64)),
            FieldType::DateTime => Ok(FieldModel::DateTime(DateTime::decode(raw))),
            FieldType::Memo => match memo_index(raw, field_length) {
                Err(e) => Err(e),
                Ok(None) => Ok(FieldModel::Memo(Seq::empty())),
                Ok(Some(index)) => match memo {
                    None => Err(Error::MissingMemoFile),
                    Some(reader) => match memo_block(
                        reader.bytes(),
                        reader.header(),
                        reader.memo_type(),
                        index,
                    ) {
                        Ok(data) => Ok(FieldModel::Memo(text_of(data))),
                        Err(e) => Err(e),
                    },
                },
            },
        }
    }
}

/// The block index that the bytes `raw` of a memo field hold.
pub open spec fn memo_index(raw: Seq<u8>, field_length: u8) -> Result<Option<u32>, Error> {
    if field_length > 4 {
        memo_index_of_text(text_of(raw))
    } else {
        Ok(Some(le_u32(raw) as u32))
    }
}

/// Whether two optional memo readers stand for the same memo file.
pub open spec fn same_memo(a: Option<MemoReader>, b: Option<MemoReader>) -> bool {
    match (a, b) {
        (Some(a), Some(b)) => a.bytes() == b.bytes() && a.header() == b.header() && a.memo_type()
            == b.memo_type(),
        (None, None) => true,
        _ => false,
    }
}

/// Reads `len` bytes of `source` as text.
pub fn read_string_of_len(source: &mut ByteReader, len: u8) -> (r: Result<String, Error>)
    ensures
        final(source).bytes() == old(source).bytes(),
        old(source).remaining().len() >= len ==> r is Ok && r->Ok_0@ == text_of(
            old(source).remaining().take(len as int),
        ) && final(source).remaining() == old(source).remaining().skip(len as int),
        old(source).remaining().len() < len ==> r is Err && r->Err_0 == Error::UnexpectedEof
            && final(source).pos() == old(source).bytes().len(),
{
    let bytes = source.read_exact(len as usize)?;
    Ok(decode_lossy(bytes.as_slice()))
}

impl FieldValue {
    /// The column type that holds such a value.
    pub fn field_type(&self) -> (r: FieldType)
        ensures
            r == self@.field_type(),
    {
        match self {
            FieldValue::Character(_) => FieldType::Character,
            FieldValue::Numeric(_) => FieldType::Numeric,
            FieldValue::Logical(_) => FieldType::Logical,
            FieldValue::Integer(_) => FieldType::Integer,
            FieldValue::Float(_) => FieldType::Float,
            FieldValue::Double(_) => FieldType::Double,
            FieldValue::Date(_) => FieldType::Date,
            FieldValue::Memo(_) => FieldType::Memo,
            FieldValue::Currency(_) => FieldType::Currency,
            FieldValue::DateTime(_) => FieldType::DateTime,
        }
    }

    /// The value of a logical field that holds `byte`.
    pub fn logical_from_byte(byte: u8) -> (r: FieldValue)
        ensures
            r@ == FieldModel::Logical(logical_of(byte)),
    {
        match byte {
            // 1 0 T t Y y
            0x31 | 0x30 | 0x54 | 0x74 | 0x59 | 0x79 => FieldValue::Logical(Some(true)),
            // N n F f
            0x4E | 0x6E | 0x46 | 0x66 => FieldValue::Logical(Some(false)),
            _ => FieldValue::Logical(None),
        }
    }

    /// The value of a character field that holds `text`.
    pub fn character_from_text(text: &str) -> (r: FieldValue)
        ensures
            r@ == FieldModel::Character(text_or_blank(text@)),
    {
        let trimmed_value = trim(text);
        if trimmed_value.as_str().unicode_len() == 0 {
            FieldValue::Character(None)
        } else {
            FieldValue::Character(Some(trimmed_value))
        }
    }

    /// The value of a numeric field that holds `text`; `ParseFloatError`
    /// where the text is neither blank nor a number.
    pub fn numeric_from_text(text: &str) -> (r: Result<FieldValue, Error>)
        ensures
            match number_of_text(text@) {
                Ok(n) => r is Ok && r->Ok_0@ == FieldModel::Numeric(n),
                Err(e) => r is Err && r->Err_0 == e,
            },
    {
        let trimmed_value = trim(text);
        if trimmed_value.as_str().unicode_len() == 0 || all_chars_are(text, '*') {
            Ok(FieldValue::Numeric(None))
        } else if float_text(trimmed_value.as_str()) {
            Ok(FieldValue::Numeric(Some(trimmed_value)))
        } else {
            Err(Error::ParseFloatError)
        }
    }

    /// The value of a float field that holds `text`; `ParseFloatError`
    /// where the text is neither blank nor a number.
    pub fn float_from_text(text: &str) -> (r: Result<FieldValue, Error>)
        ensures
            match number_of_text(text@) {
                Ok(n) => r is Ok && r->Ok_0@ == FieldModel::Float(n),
                Err(e) => r is Err && r->Err_0 == e,
            },
    {
        let trimmed_value = trim(text);
        if trimmed_value.as_str().unicode_len() == 0 || all_chars_are(text, '*') {
            Ok(FieldValue::Float(None))
        } else if float_text(trimmed_value.as_str()) {
            Ok(FieldValue::Float(Some(trimmed_value)))
        } else {
            Err(Error::ParseFloatError)
        }
    }

    /// The value of a date field that holds `text`; `ParseIntError` where
    /// the text is neither blank nor starts with eight digits.
    pub fn date_from_text(text: &str) -> (r: Result<FieldValue, Error>)
        ensures
            match date_of_text(text@) {
                Ok(d) => r is Ok && r->Ok_0@ == FieldModel::Date(d),
                Err(e) => r is Err && r->Err_0 == e,
            },
    {
        if all_chars_are(text, ' ') {
            Ok(FieldValue::Date(None))
        } else {
            match Date::from_str(text) {
                Ok(d) => Ok(FieldValue::Date(Some(d))),
                Err(e) => Err(e),
            }
        }
    }

    /// The block index that a memo field holds as `text`, or none where
    /// the field is blank; `ParseIntError` where the text is no number.
    pub fn memo_index_from_text(text: &str) -> (r: Result<Option<u32>, Error>)
        ensures
            r == memo_index_of_text(text@),
    {
        let trimmed_value = trim(text);
        if trimmed_value.as_str().unicode_len() == 0 {
            Ok(None)
        } else {
            match parse_u32(trimmed_value.as_str()) {
                Ok(index) => Ok(Some(index)),
                Err(e) => Err(e),
            }
        }
    }

    /// Reads the value of the column that `field_info` describes from
    /// `source`, looking memo text up through `memo_reader`.
    pub fn read_from(
        source: &mut ByteReader,
        memo_reader: &mut Option<MemoReader>,
        field_info: &FieldInfo,
    ) -> (r: Result<Self, Error>)
        ensures
            final(source).bytes() == old(source).bytes(),
            same_memo(*old(memo_reader), *final(memo_reader)),
            match decode_field(
                old(source).remaining(),
                *old(memo_reader),
                field_info.field_type,
                field_info.field_length,
            ) {
                Ok(value) => r is Ok && r->Ok_0@ == value,
                Err(e) => r is Err && r->Err_0 == e,
            },
            old(source).remaining().len() >= FieldInfo::stored_len(
                field_info.field_type,
                field_info.field_length,
            ) ==> final(source).remaining() == old(source).remaining().skip(
                FieldInfo::stored_len(field_info.field_type, field_info.field_length) as int,
            ),
            old(source).remaining().len() < FieldInfo::stored_len(
                field_info.field_type,
                field_info.field_length,
            ) ==> final(source).pos() == old(source).bytes().len(),
    {
        let value = match field_info.field_type {
            FieldType::Logical => {
                let byte = source.read_exact(1)?;
                FieldValue::logical_from_byte(byte[0])
            },
            FieldType::Character => {
                let value = read_string_of_len(source, field_info.field_length)?;
                FieldValue::character_from_text(value.as_str())
            },
            FieldType::Numeric => {
                let value = read_string_of_len(source, field_info.field_length)?;
                FieldValue::numeric_from_text(value.as_str())?
            },
            FieldType::Float => {
                let value = read_string_of_len(source, field_info.field_length)?;
                FieldValue::float_from_text(value.as_str())?
            },
            FieldType::Date => {
                let value = read_string_of_len(source, field_info.field_length)?;
                FieldValue::date_from_text(value.as_str())?
            },
            FieldType::Integer => {
                let word = source.read_exact(4)?;
                FieldValue::Integer(read_i32_le(word.as_slice()))
            },
            FieldType::Double => {
                let bits = source.read_exact(8)?;
                FieldValue::Double(read_u64_le(bits.as_slice()))
            },
            FieldType::Currency => {
                let bits = source.read_exact(8)?;
                FieldValue::Currency(read_u64_le(bits.as_slice()))
            },
            FieldType::DateTime => {
                let ghost before = source.remaining();
                let dt = DateTime::read_from(source)?;
                assert(DateTime::decode(before) == DateTime::decode(before.take(8))) by {
                    assert(before.take(8).skip(4) =~= before.skip(4).take(4));
                };
                FieldValue::DateTime(dt)
            },
            FieldType::Memo => {
                let index_in_memo = if field_info.field_length > 4 {
                    let string = read_string_of_len(source, field_info.field_length)?;
                    match FieldValue::memo_index_from_text(string.as_str())? {
                        Some(index) => index,
                        None => {
                            return Ok(FieldValue::Memo(String::new()));
                        },
                    }
                } else {
                    let word = source.read_exact(4)?;
                    read_u32_le(word.as_slice())
                };
                match memo_reader {
                    Some(reader) => {
                        let data_from_memo = reader.read_data_at(index_in_memo)?;
                        FieldValue::Memo(decode_lossy(data_from_memo.as_slice()))
                    },
                    None => {
                        return Err(Error::MissingMemoFile);
                    },
                }
            },
        };
        Ok(value)
    }
}

impl From<Date> for FieldValue {
    /// A date field that holds `d`.
    fn from(d: Date) -> (r: Self) {
        FieldValue::Date(Some(d))
    }
}

impl FromSpecImpl<Date> for FieldValue {
    open spec fn obeys_from_spec() -> bool {
        true
    }

    open spec fn from_spec(d: Date) -> FieldValue {
        FieldValue::Date(Some(d))
    }
}

impl FieldValue {
    /// A character field that holds `s`.
    pub fn character(s: &str) -> (r: Self)
        ensures
            r@ == FieldModel::Character(Some(s@)),
    {
        FieldValue::Character(Some(s.to_owned()))
    }
}

impl From<&str> for FieldValue {
    /// A character field that holds `s`.
    fn from(s: &str) -> (r: Self)
        ensures
            r@ == FieldModel::Character(Some(s@)),
    {
        FieldValue::character(s)
    }
}

/// What `from` gives is stated on `from` itself, over the view of the
/// value: no `String` can be written down here.
impl FromSpecImpl<&str> for FieldValue {
    open spec fn obeys_from_spec() -> bool {
        false
    }

    open spec fn from_spec(s: &str) -> FieldValue {
        arbitrary()
    }
}

} // verus!
