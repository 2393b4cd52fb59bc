use dbase::{Error, FieldType};

#[test]
fn every_tag_names_its_type() {
    assert_eq!(FieldType::from('C'), Some(FieldType::Character));
    assert_eq!(FieldType::from('D'), Some(FieldType::Date));
    assert_eq!(FieldType::from('F'), Some(FieldType::Float));
    assert_eq!(FieldType::from('N'), Some(FieldType::Numeric));
    assert_eq!(FieldType::from('L'), Some(FieldType::Logical));
    assert_eq!(FieldType::from('Y'), Some(FieldType::Currency));
    assert_eq!(FieldType::from('T'), Some(FieldType::DateTime));
    assert_eq!(FieldType::from('I'), Some(FieldType::Integer));
    assert_eq!(FieldType::from('B'), Some(FieldType::Double));
    assert_eq!(FieldType::from('M'), Some(FieldType::Memo));
}

#[test]
fn unknown_tag_names_no_type() {
    assert_eq!(FieldType::from('G'), None);
    assert_eq!(FieldType::from('c'), None);
    assert_eq!(FieldType::from(' '), None);
}

#[test]
fn unknown_tag_is_an_invalid_field_type() {
    assert_eq!(FieldType::try_from('x'), Err(Error::InvalidFieldType('x')));
    assert_eq!(FieldType::try_from('G'), Err(Error::InvalidFieldType('G')));
    assert_eq!(FieldType::try_from('N'), Ok(FieldType::Numeric));
}

#[test]
fn tag_byte_of_each_type() {
    assert_eq!(u8::from(FieldType::Character), b'C');
    assert_eq!(u8::from(FieldType::Date), b'D');
    assert_eq!(u8::from(FieldType::Float), b'F');
    assert_eq!(u8::from(FieldType::Numeric), b'N');
    assert_eq!(u8::from(FieldType::Logical), b'L');
    assert_eq!(u8::from(FieldType::Currency), b'Y');
    assert_eq!(u8::from(FieldType::DateTime), b'T');
    assert_eq!(u8::from(FieldType::Integer), b'I');
    assert_eq!(u8::from(FieldType::Double), b'B');
    assert_eq!(u8::from(FieldType::Memo), b'M');
}

#[test]
fn tag_byte_reads_back_as_the_type() {
    let all = [
        FieldType::Character,
        FieldType::Date,
        FieldType::Float,
        FieldType::Numeric,
        FieldType::Logical,
        FieldType::Currency,
        FieldType::DateTime,
        FieldType::Integer,
        FieldType::Double,
        FieldType::Memo,
    ];
    for t in all {
        assert_eq!(FieldType::from(u8::from(t) as char), Some(t));
    }
}

#[test]
fn fixed_sizes() {
    assert_eq!(FieldType::Logical.size(), Some(1));
    assert_eq!(FieldType::Date.size(), Some(8));
    assert_eq!(FieldType::Integer.size(), Some(4));
    assert_eq!(FieldType::Currency.size(), Some(8));
    assert_eq!(FieldType::DateTime.size(), Some(8));
    assert_eq!(FieldType::Double.size(), Some(8));
    assert_eq!(FieldType::Character.size(), None);
    assert_eq!(FieldType::Numeric.size(), None);
    assert_eq!(FieldType::Float.size(), None);
    assert_eq!(FieldType::Memo.size(), None);
}

#[test]
fn pad_bytes() {
    assert_eq!(FieldType::Character.pad_byte(), Some(b' '));
    assert_eq!(FieldType::Numeric.pad_byte(), Some(b' '));
    assert_eq!(FieldType::Float.pad_byte(), Some(b' '));
    assert_eq!(FieldType::Logical.pad_byte(), Some(b' '));
    assert_eq!(FieldType::Date.pad_byte(), None);
    assert_eq!(FieldType::Integer.pad_byte(), None);
    assert_eq!(FieldType::Currency.pad_byte(), None);
    assert_eq!(FieldType::DateTime.pad_byte(), None);
    assert_eq!(FieldType::Double.pad_byte(), None);
    assert_eq!(FieldType::Memo.pad_byte(), None);
}
