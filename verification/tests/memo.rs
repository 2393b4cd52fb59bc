use dbase::memo::{cut_before, trim_trailing_zeros};
use dbase::{
    ByteReader, Error, FieldFlags, FieldInfo, FieldType, FieldValue, MemoFileType, MemoHeader,
    MemoReader,
};

fn memo_field(len: u8) -> FieldInfo {
    FieldInfo {
        name: "NOTES".to_owned(),
        field_type: FieldType::Memo,
        displacement_field: [0u8; 4],
        field_length: len,
        num_decimal_places: 0,
        flags: FieldFlags(0u8),
        autoincrement_next_val: [0u8; 5],
        autoincrement_step: 0u8,
    }
}

/// A FoxBase memo file with blocks of 32 bytes: the header block, then one
/// block for each payload.
fn foxbase_file(payloads: &[&[u8]]) -> Vec<u8> {
    let mut file = Vec::new();
    file.extend_from_slice(&((payloads.len() + 1) as u32).to_le_bytes());
    file.extend_from_slice(&[0, 0]);
    file.extend_from_slice(&32u16.to_be_bytes());
    file.resize(32, 0);
    for payload in payloads {
        file.extend_from_slice(&1u32.to_be_bytes());
        file.extend_from_slice(&(payload.len() as u32).to_be_bytes());
        file.extend_from_slice(payload);
        while file.len() % 32 != 0 {
            file.push(0);
        }
    }
    file
}

/// A dBase IV memo file with blocks of 32 bytes.
fn dbase4_file(payloads: &[&[u8]]) -> Vec<u8> {
    let mut file = Vec::new();
    file.extend_from_slice(&((payloads.len() + 1) as u32).to_le_bytes());
    file.extend_from_slice(&32u16.to_le_bytes());
    file.resize(32, 0);
    for payload in payloads {
        file.extend_from_slice(&[0xFF, 0xFF, 0x08, 0x00]);
        file.extend_from_slice(&(payload.len() as u32).to_le_bytes());
        file.extend_from_slice(payload);
        while file.len() % 32 != 0 {
            file.push(0);
        }
    }
    file
}

/// A classic dBase memo file with blocks of 16 bytes.
fn dbase_file(blocks: &[&[u8]], next: u32) -> Vec<u8> {
    let mut file = Vec::new();
    file.extend_from_slice(&next.to_le_bytes());
    file.extend_from_slice(&16u16.to_le_bytes());
    file.resize(16, 0);
    for block in blocks {
        file.extend_from_slice(block);
    }
    file
}

#[test]
fn header_of_a_dbase_file() {
    let mut source = ByteReader::new(vec![5, 1, 0, 0, 0x00, 0x02, 9, 9]);
    let header = MemoHeader::read_from(&mut source, MemoFileType::DbaseMemo).unwrap();
    assert_eq!(header.next_available_block_index, 261);
    assert_eq!(header.block_size, 512);
    assert_eq!(source.position(), 6);
}

#[test]
fn header_block_size_zero_stands_for_512() {
    let mut source = ByteReader::new(vec![1, 0, 0, 0, 0, 0]);
    let header = MemoHeader::read_from(&mut source, MemoFileType::DbaseMemo).unwrap();
    assert_eq!(header, MemoHeader { next_available_block_index: 1, block_size: 512 });
    let mut source = ByteReader::new(vec![1, 0, 0, 0, 0, 0]);
    let header = MemoHeader::read_from(&mut source, MemoFileType::DbaseMemo4).unwrap();
    assert_eq!(header.block_size, 512);
}

#[test]
fn header_block_size_is_little_endian_in_dbase() {
    let mut source = ByteReader::new(vec![1, 0, 0, 0, 0x40, 0x01]);
    let header = MemoHeader::read_from(&mut source, MemoFileType::DbaseMemo4).unwrap();
    assert_eq!(header.block_size, 0x0140);
}

#[test]
fn header_of_a_foxbase_file() {
    let mut source = ByteReader::new(vec![0x10, 0x20, 0x30, 0x40, 7, 7, 0x01, 0x40]);
    let header = MemoHeader::read_from(&mut source, MemoFileType::FoxBaseMemo).unwrap();
    assert_eq!(header.next_available_block_index, 0x40302010);
    assert_eq!(header.block_size, 0x0140);
    assert_eq!(source.position(), 8);
}

#[test]
fn header_of_a_foxbase_file_keeps_a_block_size_of_zero() {
    let mut source = ByteReader::new(vec![1, 0, 0, 0, 0, 0, 0, 0]);
    let header = MemoHeader::read_from(&mut source, MemoFileType::FoxBaseMemo).unwrap();
    assert_eq!(header.block_size, 0);
}

#[test]
fn header_cut_short() {
    let mut source = ByteReader::new(vec![1, 0, 0, 0, 0]);
    assert_eq!(
        MemoHeader::read_from(&mut source, MemoFileType::DbaseMemo),
        Err(Error::UnexpectedEof)
    );
    let mut source = ByteReader::new(vec![1, 0, 0, 0, 0, 0, 0]);
    assert_eq!(
        MemoHeader::read_from(&mut source, MemoFileType::FoxBaseMemo),
        Err(Error::UnexpectedEof)
    );
    let mut source = ByteReader::new(vec![1, 0, 0]);
    assert_eq!(
        MemoHeader::read_from(&mut source, MemoFileType::DbaseMemo4),
        Err(Error::UnexpectedEof)
    );
    assert!(MemoReader::new(MemoFileType::DbaseMemo, ByteReader::new(vec![1, 0])).is_err());
}

#[test]
fn foxbase_block_without_its_padding() {
    let file = foxbase_file(&[b"hello", b"second block"]);
    let mut reader = MemoReader::new(MemoFileType::FoxBaseMemo, ByteReader::new(file)).unwrap();
    assert_eq!(reader.read_data_at(1).unwrap(), b"hello".to_vec());
    assert_eq!(reader.read_data_at(2).unwrap(), b"second block".to_vec());
    assert_eq!(reader.read_data_at(1).unwrap(), b"hello".to_vec());
}

#[test]
fn foxbase_block_loses_its_trailing_zeros() {
    let file = foxbase_file(&[&[b'h', b'i', 0, b'!', 0, 0, 0]]);
    let mut reader = MemoReader::new(MemoFileType::FoxBaseMemo, ByteReader::new(file)).unwrap();
    assert_eq!(reader.read_data_at(1).unwrap(), vec![b'h', b'i', 0, b'!']);
}

#[test]
fn foxbase_block_of_zeros_is_empty() {
    let file = foxbase_file(&[&[0, 0, 0, 0, 0, 0]]);
    let mut reader = MemoReader::new(MemoFileType::FoxBaseMemo, ByteReader::new(file)).unwrap();
    assert_eq!(reader.read_data_at(1).unwrap(), Vec::<u8>::new());
}

#[test]
fn foxbase_block_longer_than_a_block() {
    let text = [b'x'; 100];
    let file = foxbase_file(&[&text]);
    let mut reader = MemoReader::new(MemoFileType::FoxBaseMemo, ByteReader::new(file)).unwrap();
    assert_eq!(reader.read_data_at(1).unwrap(), text.to_vec());
}

#[test]
fn foxbase_block_cut_short() {
    let mut file = foxbase_file(&[b"hello"]);
    file.truncate(32 + 8 + 3);
    let mut reader = MemoReader::new(MemoFileType::FoxBaseMemo, ByteReader::new(file)).unwrap();
    assert_eq!(reader.read_data_at(1), Err(Error::UnexpectedEof));
    assert_eq!(reader.read_data_at(7), Err(Error::UnexpectedEof));
}

#[test]
fn dbase4_block_stops_at_its_terminator() {
    let file = dbase4_file(&[&[b'a', b'b', b'c', 0x1F, b'd', 0x1F]]);
    let mut reader = MemoReader::new(MemoFileType::DbaseMemo4, ByteReader::new(file)).unwrap();
    assert_eq!(reader.read_data_at(1).unwrap(), b"abc".to_vec());
}

#[test]
fn dbase4_block_with_the_terminator_first() {
    let file = dbase4_file(&[&[0x1F, b'a']]);
    let mut reader = MemoReader::new(MemoFileType::DbaseMemo4, ByteReader::new(file)).unwrap();
    assert_eq!(reader.read_data_at(1).unwrap(), Vec::<u8>::new());
}

#[test]
fn dbase4_block_without_terminator_is_all_that_was_read() {
    let file = dbase4_file(&[b"abcd"]);
    let mut reader = MemoReader::new(MemoFileType::DbaseMemo4, ByteReader::new(file)).unwrap();
    assert_eq!(reader.read_data_at(1).unwrap(), b"abcd".to_vec());
}

#[test]
fn dbase4_block_longer_than_a_block() {
    let text = [b'y'; 70];
    let file = dbase4_file(&[&text]);
    let mut reader = MemoReader::new(MemoFileType::DbaseMemo4, ByteReader::new(file)).unwrap();
    assert_eq!(reader.read_data_at(1).unwrap(), text.to_vec());
}

#[test]
fn dbase4_block_cut_short() {
    let mut file = dbase4_file(&[b"abcd"]);
    file.truncate(32 + 6);
    let mut reader = MemoReader::new(MemoFileType::DbaseMemo4, ByteReader::new(file)).unwrap();
    assert_eq!(reader.read_data_at(1), Err(Error::UnexpectedEof));
}

#[test]
fn dbase_block_stops_at_its_terminator() {
    let file = dbase_file(&[b"hello\x1A\x1Agarbage!!", b"0123456789ABCDEF"], 3);
    let mut reader = MemoReader::new(MemoFileType::DbaseMemo, ByteReader::new(file)).unwrap();
    assert_eq!(reader.read_data_at(1).unwrap(), b"hello".to_vec());
}

#[test]
fn dbase_block_without_terminator_is_the_whole_block() {
    let file = dbase_file(&[b"hello\x1A\x1Agarbage!!", b"0123456789ABCDEF", b"more"], 4);
    let mut reader = MemoReader::new(MemoFileType::DbaseMemo, ByteReader::new(file)).unwrap();
    assert_eq!(reader.read_data_at(2).unwrap(), b"0123456789ABCDEF".to_vec());
}

#[test]
fn dbase_last_block_may_end_with_the_file() {
    let file = dbase_file(&[b"0123456789ABCDEF", b"short\x1A"], 3);
    let mut reader = MemoReader::new(MemoFileType::DbaseMemo, ByteReader::new(file)).unwrap();
    assert_eq!(reader.read_data_at(2).unwrap(), b"short".to_vec());
    let file = dbase_file(&[b"0123456789ABCDEF", b"short"], 3);
    let mut reader = MemoReader::new(MemoFileType::DbaseMemo, ByteReader::new(file)).unwrap();
    assert_eq!(reader.read_data_at(2).unwrap(), b"short".to_vec());
}

#[test]
fn dbase_block_before_the_last_may_not_end_with_the_file() {
    let file = dbase_file(&[b"0123456789ABCDEF", b"short"], 9);
    let mut reader = MemoReader::new(MemoFileType::DbaseMemo, ByteReader::new(file)).unwrap();
    assert_eq!(reader.read_data_at(2), Err(Error::UnexpectedEof));
    assert_eq!(reader.read_data_at(1).unwrap(), b"0123456789ABCDEF".to_vec());
}

#[test]
fn dbase_file_without_blocks_has_no_last_block() {
    let file = dbase_file(&[], 0);
    let mut reader = MemoReader::new(MemoFileType::DbaseMemo, ByteReader::new(file)).unwrap();
    assert_eq!(reader.read_data_at(1), Err(Error::UnexpectedEof));
    assert_eq!(reader.read_data_at(u32::MAX), Err(Error::UnexpectedEof));
}

#[test]
fn cut_before_the_first_stop() {
    assert_eq!(cut_before(b"abc\x1Adef\x1A", 0x1A), b"abc".to_vec());
    assert_eq!(cut_before(b"abcdef", 0x1A), b"abcdef".to_vec());
    assert_eq!(cut_before(b"\x1A", 0x1A), Vec::<u8>::new());
    assert_eq!(cut_before(b"", 0x1A), Vec::<u8>::new());
}

#[test]
fn trailing_zeros_are_trimmed() {
    assert_eq!(trim_trailing_zeros(&[1, 0, 2, 0, 0]), vec![1, 0, 2]);
    assert_eq!(trim_trailing_zeros(&[1, 2]), vec![1, 2]);
    assert_eq!(trim_trailing_zeros(&[0, 0]), Vec::<u8>::new());
    assert_eq!(trim_trailing_zeros(&[]), Vec::<u8>::new());
}

#[test]
fn memo_field_with_its_index_as_text() {
    let file = foxbase_file(&[b"first", b"second"]);
    let mut memo = Some(MemoReader::new(MemoFileType::FoxBaseMemo, ByteReader::new(file)).unwrap());
    let mut source = ByteReader::new(b"         2         1".to_vec());
    let info = memo_field(10);
    assert_eq!(
        FieldValue::read_from(&mut source, &mut memo, &info),
        Ok(FieldValue::Memo("second".to_owned()))
    );
    assert_eq!(
        FieldValue::read_from(&mut source, &mut memo, &info),
        Ok(FieldValue::Memo("first".to_owned()))
    );
    assert_eq!(source.position(), 20);
}

#[test]
fn memo_field_with_its_index_in_binary() {
    let file = dbase4_file(&[b"first\x1F", b"second\x1F"]);
    let mut memo = Some(MemoReader::new(MemoFileType::DbaseMemo4, ByteReader::new(file)).unwrap());
    let mut source = ByteReader::new(vec![2, 0, 0, 0, 1, 0, 0, 0]);
    let info = memo_field(4);
    assert_eq!(
        FieldValue::read_from(&mut source, &mut memo, &info),
        Ok(FieldValue::Memo("second".to_owned()))
    );
    assert_eq!(
        FieldValue::read_from(&mut source, &mut memo, &info),
        Ok(FieldValue::Memo("first".to_owned()))
    );
}

#[test]
fn memo_field_without_an_index_is_empty() {
    let mut memo: Option<MemoReader> = None;
    let mut source = ByteReader::new(b"          ".to_vec());
    assert_eq!(
        FieldValue::read_from(&mut source, &mut memo, &memo_field(10)),
        Ok(FieldValue::Memo(String::new()))
    );
    assert_eq!(source.position(), 10);
}

#[test]
fn memo_field_without_a_reader() {
    let mut memo: Option<MemoReader> = None;
    let mut source = ByteReader::new(b"         1".to_vec());
    assert_eq!(
        FieldValue::read_from(&mut source, &mut memo, &memo_field(10)),
        Err(Error::MissingMemoFile)
    );
    let mut source = ByteReader::new(vec![1, 0, 0, 0]);
    assert_eq!(
        FieldValue::read_from(&mut source, &mut memo, &memo_field(4)),
        Err(Error::MissingMemoFile)
    );
}

#[test]
fn memo_field_with_a_malformed_index() {
    let mut memo: Option<MemoReader> = None;
    let mut source = ByteReader::new(b"      1x  ".to_vec());
    assert_eq!(
        FieldValue::read_from(&mut source, &mut memo, &memo_field(10)),
        Err(Error::ParseIntError)
    );
    let mut source = ByteReader::new(b"4294967296".to_vec());
    assert_eq!(
        FieldValue::read_from(&mut source, &mut memo, &memo_field(10)),
        Err(Error::ParseIntError)
    );
}

#[test]
fn memo_field_whose_block_is_missing() {
    let file = foxbase_file(&[b"first"]);
    let mut memo = Some(MemoReader::new(MemoFileType::FoxBaseMemo, ByteReader::new(file)).unwrap());
    let mut source = ByteReader::new(b"         5".to_vec());
    assert_eq!(
        FieldValue::read_from(&mut source, &mut memo, &memo_field(10)),
        Err(Error::UnexpectedEof)
    );
}

#[test]
fn memo_text_that_is_no_utf8() {
    let file = foxbase_file(&[&[b'a', 0xFF, b'b']]);
    let mut memo = Some(MemoReader::new(MemoFileType::FoxBaseMemo, ByteReader::new(file)).unwrap());
    let mut source = ByteReader::new(vec![1, 0, 0, 0]);
    assert_eq!(
        FieldValue::read_from(&mut source, &mut memo, &memo_field(4)),
        Ok(FieldValue::Memo("a\u{FFFD}b".to_owned()))
    );
}
