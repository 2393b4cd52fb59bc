//! What is written reads back: laws that tie the encoding of a value to
//! the decoding of a field.

use crate::date::{lemma_date_time_round_trip, lemma_text_round_trip, Date, DateTime};
use crate::decimal::{
    is_exponent, is_exponent_mark, is_float_text, is_letter, is_mantissa, is_number, is_sign,
    spells, without_sign,
};
use crate::endian::{lemma_signed32_round_trip, lemma_u64_le_round_trip};
use crate::error::Error;
use crate::field::{decode_field, logical_of, memo_index, FieldModel};
use crate::field_type::FieldType;
use crate::memo::MemoReader;
use crate::record::FieldInfo;
use crate::text::{
    is_digit, is_whitespace, lemma_text_of_ascii, lemma_text_of_encoded, lemma_trimmed_blank,
    lemma_trimmed_unchanged,
};
use crate::writing::blank_date;
use vstd::prelude::*;
use vstd::utf8::encode_utf8;

verus! {

/// `len` bytes that all hold `byte`.
pub open spec fn filled(len: nat, byte: u8) -> Seq<u8> {
    Seq::new(len, |i: int| byte)
}

/// Bytes that all hold one ASCII character read as that many of the
/// character.
proof fn lemma_text_of_filled(len: nat, byte: u8)
    requires
        byte < 0x80,
    ensures
        crate::text::text_of(filled(len, byte)) == Seq::new(len, |i: int| byte as char),
{
    let chars = Seq::new(len, |i: int| byte as char);
    lemma_text_of_ascii(chars);
    assert(encode_utf8(chars) =~= filled(len, byte));
}

/// A date in the accepted range, written as a date field, takes eight
/// bytes and is read back as the same date.
pub proof fn lemma_date_field_round_trip(date: Date, memo: Option<MemoReader>)
    requires
        date.is_valid(),
    ensures
        FieldModel::Date(Some(date)).encoding().len() == 8,
        decode_field(FieldModel::Date(Some(date)).encoding(), memo, FieldType::Date, 8) == Ok::<
            FieldModel,
            Error,
        >(FieldModel::Date(Some(date))),
{
    let text = date.text();
    lemma_text_round_trip(date);
    assert(vstd::utf8::is_ascii_chars(text)) by {
        assert forall|i: int| 0 <= i < text.len() implies '\0' <= #[trigger] text[i]
            <= '\u{7f}' by {
            assert(is_digit(text[i]));
        }
    }
    lemma_text_of_ascii(text);
    let bytes = encode_utf8(text);
    assert(bytes.take(8) =~= bytes);
    assert(is_digit(text[0]));
}

/// A date field without a value is written as eight spaces, and a date
/// field of any length that holds spaces only is read as holding none.
pub proof fn lemma_blank_date_field(field_length: u8, memo: Option<MemoReader>)
    ensures
        FieldModel::Date(None).encoding() == filled(8, 0x20),
        decode_field(filled(field_length as nat, 0x20), memo, FieldType::Date, field_length)
            == Ok::<FieldModel, Error>(FieldModel::Date(None)),
{
    assert(blank_date() =~= filled(8, 0x20));
    let bytes = filled(field_length as nat, 0x20);
    lemma_text_of_filled(field_length as nat, 0x20);
    assert(bytes.take(field_length as int) =~= bytes);
}

/// Text that neither starts nor ends with white space, written as a
/// character field as long as its bytes, is read back unchanged.
pub proof fn lemma_character_field_round_trip(text: Seq<char>, memo: Option<MemoReader>)
    requires
        text.len() > 0,
        !is_whitespace(text[0]),
        !is_whitespace(text.last()),
        encode_utf8(text).len() <= u8::MAX,
    ensures
        decode_field(
            FieldModel::Character(Some(text)).encoding(),
            memo,
            FieldType::Character,
            encode_utf8(text).len() as u8,
        ) == Ok::<FieldModel, Error>(FieldModel::Character(Some(text))),
{
    let bytes = encode_utf8(text);
    lemma_text_of_encoded(text);
    lemma_trimmed_unchanged(text);
    assert(bytes.take(bytes.len() as int) =~= bytes);
}

/// A numeric or float field of any length that holds spaces only, or
/// asterisks only, is read as holding no value.
pub proof fn lemma_blank_number_field(field_length: u8, memo: Option<MemoReader>)
    ensures
        decode_field(filled(field_length as nat, 0x20), memo, FieldType::Numeric, field_length)
            == Ok::<FieldModel, Error>(FieldModel::Numeric(None)),
        decode_field(filled(field_length as nat, 0x2A), memo, FieldType::Numeric, field_length)
            == Ok::<FieldModel, Error>(FieldModel::Numeric(None)),
        decode_field(filled(field_length as nat, 0x20), memo, FieldType::Float, field_length)
            == Ok::<FieldModel, Error>(FieldModel::Float(None)),
        decode_field(filled(field_length as nat, 0x2A), memo, FieldType::Float, field_length)
            == Ok::<FieldModel, Error>(FieldModel::Float(None)),
{
    let len = field_length as nat;
    lemma_text_of_filled(len, 0x20);
    lemma_text_of_filled(len, 0x2A);
    let spaces = Seq::new(len, |i: int| 0x20u8 as char);
    assert forall|i: int| 0 <= i < spaces.len() implies is_whitespace(spaces[i]) by {
        assert(spaces[i] == ' ');
    }
    lemma_trimmed_blank(spaces);
    assert(filled(len, 0x20).take(len as int) =~= filled(len, 0x20));
    assert(filled(len, 0x2A).take(len as int) =~= filled(len, 0x2A));
    let stars = Seq::new(len, |i: int| 0x2Au8 as char);
    assert forall|i: int| 0 <= i < stars.len() implies stars[i] == '*' by {
        assert(0x2Au8 as char == '*');
    }
}

/// Whether `c` may stand in the text of a number: it is neither white
/// space nor an asterisk.
spec fn is_plain(c: char) -> bool {
    !is_whitespace(c) && c != '*'
}

/// A word that is spelled in letters starts and ends with a plain
/// character.
proof fn lemma_spelled_is_plain(s: Seq<char>, word: Seq<char>)
    requires
        spells(s, word),
        word.len() > 0,
        forall|i: int| 0 <= i < word.len() ==> 'a' <= #[trigger] word[i] <= 'z',
    ensures
        s.len() > 0,
        is_plain(s[0]),
        is_plain(s.last()),
{
    assert(is_letter(s[0], word[0]));
    assert('a' <= word[0] <= 'z');
    let last = s.len() - 1;
    assert(is_letter(s[last], word[last]));
    assert('a' <= word[last] <= 'z');
}

/// The text of a number starts and ends with a plain character.
proof fn lemma_number_is_plain(s: Seq<char>)
    requires
        is_number(s),
    ensures
        s.len() > 0,
        is_plain(s[0]),
        is_plain(s.last()),
{
    if is_mantissa(s) {
        let d = choose|i: int| 0 <= i < s.len() && is_digit(#[trigger] s[i]);
        assert(is_digit(s[0]) || s[0] == '.');
        assert(is_digit(s[s.len() - 1]) || s[s.len() - 1] == '.');
    } else {
        let m = choose|m: int|
            0 <= m < s.len() && is_exponent_mark(#[trigger] s[m]) && is_mantissa(s.take(m))
                && is_exponent(s.skip(m + 1));
        let head = s.take(m);
        let d = choose|i: int| 0 <= i < head.len() && is_digit(#[trigger] head[i]);
        assert(m > 0);
        assert(is_digit(head[0]) || head[0] == '.');
        assert(head[0] == s[0]);
        let tail = s.skip(m + 1);
        let digits = without_sign(tail);
        assert(digits.len() > 0);
        assert(is_digit(digits[digits.len() - 1]));
        assert(digits.last() == s.last());
    }
}

/// The text of a number is not blank, starts and ends with a character
/// that is no white space, and is not made of asterisks.
pub proof fn lemma_float_text_is_plain(text: Seq<char>)
    requires
        is_float_text(text),
    ensures
        text.len() > 0,
        !is_whitespace(text[0]),
        !is_whitespace(text.last()),
        text[0] != '*',
{
    let body = without_sign(text);
    let inf = seq!['i', 'n', 'f'];
    let infinity = seq!['i', 'n', 'f', 'i', 'n', 'i', 't', 'y'];
    let nan = seq!['n', 'a', 'n'];
    if spells(body, inf) {
        lemma_spelled_is_plain(body, inf);
    } else if spells(body, infinity) {
        lemma_spelled_is_plain(body, infinity);
    } else if spells(body, nan) {
        lemma_spelled_is_plain(body, nan);
    } else {
        lemma_number_is_plain(body);
    }
    assert(body.len() > 0 && is_plain(body[0]) && is_plain(body.last()));
    assert(body.last() == text.last());
    assert(is_sign(text[0]) || text[0] == body[0]);
}

/// A number written as a numeric or float field as long as its text is
/// read back as the same text.
pub proof fn lemma_number_field_round_trip(text: Seq<char>, memo: Option<MemoReader>)
    requires
        is_float_text(text),
        encode_utf8(text).len() <= u8::MAX,
    ensures
        decode_field(
            FieldModel::Numeric(Some(text)).encoding(),
            memo,
            FieldType::Numeric,
            encode_utf8(text).len() as u8,
        ) == Ok::<FieldModel, Error>(FieldModel::Numeric(Some(text))),
        decode_field(
            FieldModel::Float(Some(text)).encoding(),
            memo,
            FieldType::Float,
            encode_utf8(text).len() as u8,
        ) == Ok::<FieldModel, Error>(FieldModel::Float(Some(text))),
{
    let bytes = encode_utf8(text);
    lemma_float_text_is_plain(text);
    lemma_text_of_encoded(text);
    lemma_trimmed_unchanged(text);
    assert(bytes.take(bytes.len() as int) =~= bytes);
}

/// A truth value, or none, written as a logical field is read back as it
/// was.
pub proof fn lemma_logical_field_round_trip(value: Option<bool>, memo: Option<MemoReader>)
    ensures
        FieldModel::Logical(value).encoding().len() == 1,
        decode_field(FieldModel::Logical(value).encoding(), memo, FieldType::Logical, 1) == Ok::<
            FieldModel,
            Error,
        >(FieldModel::Logical(value)),
{
    let bytes = FieldModel::Logical(value).encoding();
    assert(logical_of(bytes.take(1)[0]) == value);
}

/// An integer written as an integer field takes four bytes and is read
/// back as it was.
pub proof fn lemma_integer_field_round_trip(value: i32, memo: Option<MemoReader>)
    ensures
        FieldModel::Integer(value).encoding().len() == 4,
        decode_field(FieldModel::Integer(value).encoding(), memo, FieldType::Integer, 4) == Ok::<
            FieldModel,
            Error,
        >(FieldModel::Integer(value)),
{
    lemma_signed32_round_trip(value as int);
    let bytes = FieldModel::Integer(value).encoding();
    assert(bytes.take(4) =~= bytes);
}

/// The bits of a double written as a double or currency field take eight
/// bytes and are read back as they were.
pub proof fn lemma_double_field_round_trip(bits: u64, memo: Option<MemoReader>)
    ensures
        FieldModel::Double(bits).encoding().len() == 8,
        decode_field(FieldModel::Double(bits).encoding(), memo, FieldType::Double, 8) == Ok::<
            FieldModel,
            Error,
        >(FieldModel::Double(bits)),
        decode_field(FieldModel::Currency(bits).encoding(), memo, FieldType::Currency, 8) == Ok::<
            FieldModel,
            Error,
        >(FieldModel::Currency(bits)),
{
    lemma_u64_le_round_trip(bits as int);
    let bytes = FieldModel::Double(bits).encoding();
    assert(bytes.take(8) =~= bytes);
}

/// A calendar date from 1900 to 2155 with a time of day, written as a
/// date-time field, takes eight bytes and is read back as it was.
pub proof fn lemma_date_time_field_round_trip(value: DateTime, memo: Option<MemoReader>)
    requires
        value.date.is_calendar_date(),
        value.time.hours < 24,
        value.time.minutes < 60,
        value.time.seconds < 60,
    ensures
        FieldModel::DateTime(value).encoding().len() == 8,
        decode_field(FieldModel::DateTime(value).encoding(), memo, FieldType::DateTime, 8)
            == Ok::<FieldModel, Error>(FieldModel::DateTime(value)),
{
    lemma_date_time_round_trip(value);
    let bytes = value.encoding();
    assert(bytes.take(8) =~= bytes);
}

/// A memo field that holds a block index cannot be read without a memo
/// reader: the answer is `MissingMemoFile`.
pub proof fn lemma_memo_needs_reader(bytes: Seq<u8>, field_length: u8, index: u32)
    requires
        bytes.len() >= FieldInfo::stored_len(FieldType::Memo, field_length),
        memo_index(
            bytes.take(FieldInfo::stored_len(FieldType::Memo, field_length) as int),
            field_length,
        ) == Ok::<Option<u32>, Error>(Some(index)),
    ensures
        decode_field(bytes, None, FieldType::Memo, field_length) == Err::<FieldModel, Error>(
            Error::MissingMemoFile,
        ),
{
}

} // verus!
