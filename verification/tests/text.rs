use dbase::decimal::float_text;
use dbase::text::{all_chars_are, chars_of, decimal_string, parse_u32, trim, zero_padded_string};
use dbase::{ByteReader, Error};

#[test]
fn characters_of_a_string() {
    assert_eq!(chars_of("a🤔é"), vec!['a', '🤔', 'é']);
    assert_eq!(chars_of(""), Vec::<char>::new());
}

#[test]
fn trim_takes_white_space_from_both_ends() {
    assert_eq!(trim("  hello world \t\r\n"), "hello world");
    assert_eq!(trim("hello"), "hello");
    assert_eq!(trim("   "), "");
    assert_eq!(trim(""), "");
    assert_eq!(trim("\u{A0}\u{2003}x\u{3000}\u{85}"), "x");
    assert_eq!(trim(" 🤔 "), "🤔");
}

#[test]
fn trim_agrees_with_the_standard_library() {
    for code in 0u32..0x3100 {
        if let Some(c) = char::from_u32(code) {
            let text = format!("{}x{}", c, c);
            assert_eq!(trim(&text), text.trim());
        }
    }
}

#[test]
fn all_characters_alike() {
    assert!(all_chars_are("****", '*'));
    assert!(all_chars_are("", '*'));
    assert!(!all_chars_are("** *", '*'));
    assert!(all_chars_are("   ", ' '));
}

#[test]
fn unsigned_numbers_from_text() {
    assert_eq!(parse_u32("0"), Ok(0));
    assert_eq!(parse_u32("12"), Ok(12));
    assert_eq!(parse_u32("007"), Ok(7));
    assert_eq!(parse_u32("4294967295"), Ok(u32::MAX));
    assert_eq!(parse_u32("00000000004294967295"), Ok(u32::MAX));
}

#[test]
fn malformed_unsigned_numbers() {
    assert_eq!(parse_u32(""), Err(Error::ParseIntError));
    assert_eq!(parse_u32("4294967296"), Err(Error::ParseIntError));
    assert_eq!(parse_u32("99999999999999999999999"), Err(Error::ParseIntError));
    assert_eq!(parse_u32("1a"), Err(Error::ParseIntError));
    assert_eq!(parse_u32("-1"), Err(Error::ParseIntError));
    assert_eq!(parse_u32("+1"), Err(Error::ParseIntError));
    assert_eq!(parse_u32(" 1"), Err(Error::ParseIntError));
    assert_eq!(parse_u32("1.0"), Err(Error::ParseIntError));
    assert_eq!(parse_u32("99999999990x"), Err(Error::ParseIntError));
}

#[test]
fn numbers_in_base_ten() {
    assert_eq!(decimal_string(0), "0");
    assert_eq!(decimal_string(7), "7");
    assert_eq!(decimal_string(2019), "2019");
    assert_eq!(decimal_string(u32::MAX), "4294967295");
}

#[test]
fn numbers_padded_with_zeros() {
    assert_eq!(zero_padded_string(7, 2), "07");
    assert_eq!(zero_padded_string(0, 4), "0000");
    assert_eq!(zero_padded_string(2019, 4), "2019");
    assert_eq!(zero_padded_string(12345, 4), "12345");
    assert_eq!(zero_padded_string(5, 0), "5");
}

#[test]
fn text_of_numbers() {
    for text in [
        "3.14", "-3.14", "2.5E10", "2.5e10", "2.5E-10", "5.", ".5", "0.5", "7", "007", "inf",
        "-inf", "+infinity", "NaN", "nan", "INFINITY", "+7", "-.5e+3", "12.43", "1e0",
    ] {
        assert!(float_text(text), "{}", text);
    }
}

#[test]
fn text_of_no_number() {
    for text in [
        "", "+", "-", ".", "e5", "1e", "1e+", "1e5e3", "1.2.3", "abc", "1,5", " 1", "1 ", "in",
        "infinit", "infinityy", "na", "nann", "++1", "1e1.5", "0x10", "1_000", "--1", "+-1",
        "1e++1", "٣", "**", "1*",
    ] {
        assert!(!float_text(text), "{}", text);
    }
}

#[test]
fn text_of_numbers_agrees_with_the_standard_library() {
    let alphabet = ['0', '7', '.', 'e', 'E', '+', '-', 'i', 'n', 'f', 'a', ' '];
    let mut indices = [0usize; 5];
    for len in 0..=5 {
        for slot in indices.iter_mut() {
            *slot = 0;
        }
        loop {
            let text: String = indices[..len].iter().map(|i| alphabet[*i]).collect();
            assert_eq!(float_text(&text), text.parse::<f64>().is_ok(), "{:?}", text);
            assert_eq!(float_text(&text), text.parse::<f32>().is_ok(), "{:?}", text);
            let mut at = 0;
            while at < len {
                indices[at] += 1;
                if indices[at] < alphabet.len() {
                    break;
                }
                indices[at] = 0;
                at += 1;
            }
            if at == len {
                break;
            }
        }
    }
}

#[test]
fn reader_hands_out_bytes_in_order() {
    let mut reader = ByteReader::new(vec![1, 2, 3, 4, 5]);
    assert_eq!(reader.len(), 5);
    assert_eq!(reader.available(), 5);
    assert_eq!(reader.read_exact(2), Ok(vec![1, 2]));
    assert_eq!(reader.position(), 2);
    assert_eq!(reader.read_exact(0), Ok(vec![]));
    assert_eq!(reader.read_exact(3), Ok(vec![3, 4, 5]));
    assert_eq!(reader.available(), 0);
    assert_eq!(reader.read_exact(0), Ok(vec![]));
}

#[test]
fn reader_fails_at_the_end() {
    let mut reader = ByteReader::new(vec![1, 2, 3]);
    assert_eq!(reader.read_exact(4), Err(Error::UnexpectedEof));
    assert_eq!(reader.position(), 3);
    assert_eq!(reader.read_exact(1), Err(Error::UnexpectedEof));
    reader.set_position(1);
    assert_eq!(reader.read_exact(2), Ok(vec![2, 3]));
}

#[test]
fn reader_may_stand_past_the_end() {
    let mut reader = ByteReader::new(vec![1, 2, 3]);
    reader.set_position(u64::MAX);
    assert_eq!(reader.available(), 0);
    assert_eq!(reader.read_exact(0), Ok(vec![]));
    assert_eq!(reader.position(), u64::MAX);
    assert_eq!(reader.read_exact(1), Err(Error::UnexpectedEof));
    assert_eq!(reader.position(), 3);
}
