use dbase::{ByteReader, Date, DateTime, Error, Time};
use std::str::FromStr;

#[test]
fn new_accepts_the_range() {
    let d = Date::new(20, 7, 2019).unwrap();
    assert_eq!(d.year(), 2019);
    assert_eq!(d.month(), 7);
    assert_eq!(d.day(), 20);
    assert!(Date::new(1, 1, 1900).is_ok());
    assert!(Date::new(31, 12, 2155).is_ok());
}

#[test]
fn new_refuses_what_lies_outside() {
    assert_eq!(Date::new(1, 13, 2000), Err(Error::InvalidDate));
    assert_eq!(Date::new(1, 0, 2000), Err(Error::InvalidDate));
    assert_eq!(Date::new(32, 1, 2000), Err(Error::InvalidDate));
    assert_eq!(Date::new(0, 1, 2000), Err(Error::InvalidDate));
    assert_eq!(Date::new(1, 1, 1899), Err(Error::InvalidDate));
    assert_eq!(Date::new(1, 1, 2156), Err(Error::InvalidDate));
}

#[test]
fn julian_day_numbers_of_known_days() {
    assert_eq!(Date { year: 1900, month: 1, day: 1 }.to_julian_day_number(), 2415021);
    assert_eq!(Date { year: 2000, month: 1, day: 1 }.to_julian_day_number(), 2451545);
    assert_eq!(Date { year: 2000, month: 2, day: 29 }.to_julian_day_number(), 2451604);
    assert_eq!(Date { year: 2000, month: 3, day: 1 }.to_julian_day_number(), 2451605);
    assert_eq!(Date { year: 2155, month: 12, day: 31 }.to_julian_day_number(), 2508522);
}

#[test]
fn julian_day_number_and_back() {
    let days = [
        (1900, 1, 1),
        (1900, 2, 28),
        (1900, 3, 1),
        (1999, 12, 31),
        (2000, 2, 29),
        (2000, 3, 1),
        (2019, 7, 20),
        (2024, 2, 29),
        (2100, 2, 28),
        (2100, 3, 1),
        (2155, 12, 31),
    ];
    for (year, month, day) in days {
        let date = Date { year, month, day };
        let back = Date::julian_day_number_to_gregorian_date(date.to_julian_day_number());
        assert_eq!(back, date);
    }
}

#[test]
fn julian_day_number_and_back_for_every_day() {
    let lengths = [31u32, 28, 31, 30, 31, 30, 31, 31, 30, 31, 30, 31];
    let mut expected = 2415021;
    for year in 1900u32..=2155 {
        let leap = (year % 4 == 0 && year % 100 != 0) || year % 400 == 0;
        for month in 1u32..=12 {
            let mut len = lengths[(month - 1) as usize];
            if month == 2 && leap {
                len = 29;
            }
            for day in 1..=len {
                let date = Date { year, month, day };
                let jdn = date.to_julian_day_number();
                assert_eq!(jdn, expected);
                assert_eq!(Date::julian_day_number_to_gregorian_date(jdn), date);
                expected += 1;
            }
        }
    }
    assert_eq!(expected, 2508523);
}

#[test]
fn a_day_that_the_month_lacks_comes_back_as_another() {
    let date = Date { year: 2019, month: 2, day: 30 };
    let back = Date::julian_day_number_to_gregorian_date(date.to_julian_day_number());
    assert_eq!(back, Date { year: 2019, month: 3, day: 2 });
}

#[test]
fn julian_day_zero() {
    let date = Date::julian_day_number_to_gregorian_date(0);
    assert_eq!(date.month, 11);
    assert_eq!(date.day, 24);
    assert_eq!(date.year, (-4713i32) as u32);
}

#[test]
fn three_byte_form() {
    let date = Date::from_bytes([119, 7, 20]);
    assert_eq!(date, Date { year: 2019, month: 7, day: 20 });
    let mut out = vec![0xAAu8];
    date.write_to(&mut out);
    assert_eq!(out, vec![0xAA, 119, 7, 20]);
}

#[test]
fn three_byte_form_takes_any_byte() {
    let date = Date::from_bytes([255, 0, 200]);
    assert_eq!(date, Date { year: 2155, month: 0, day: 200 });
    let mut out = Vec::new();
    date.write_to(&mut out);
    assert_eq!(out, vec![255, 0, 200]);
}

#[test]
fn three_byte_form_keeps_the_low_bits() {
    let mut out = Vec::new();
    Date { year: 1899, month: 256 + 7, day: 512 + 1 }.write_to(&mut out);
    assert_eq!(out, vec![255, 7, 1]);
}

#[test]
fn text_of_a_date() {
    assert_eq!(Date { year: 2019, month: 7, day: 20 }.to_string(), "20190720");
    assert_eq!(Date { year: 1900, month: 1, day: 1 }.to_string(), "19000101");
    assert_eq!(Date { year: 5, month: 12, day: 31 }.to_string(), "00051231");
    assert_eq!(Date { year: 12345, month: 123, day: 7 }.to_string(), "1234512307");
}

#[test]
fn date_from_text() {
    assert_eq!(Date::from_str("20190720"), Ok(Date { year: 2019, month: 7, day: 20 }));
    assert_eq!(Date::from_str("00000000"), Ok(Date { year: 0, month: 0, day: 0 }));
    assert_eq!(Date::from_str("99999999"), Ok(Date { year: 9999, month: 99, day: 99 }));
    assert_eq!(Date::from_str("20190720 and more"), Ok(Date { year: 2019, month: 7, day: 20 }));
}

#[test]
fn date_from_malformed_text() {
    assert_eq!(Date::from_str(""), Err(Error::ParseIntError));
    assert_eq!(Date::from_str("2019072"), Err(Error::ParseIntError));
    assert_eq!(Date::from_str("2019-7-2"), Err(Error::ParseIntError));
    assert_eq!(Date::from_str("2019 720"), Err(Error::ParseIntError));
    assert_eq!(Date::from_str("+0190720"), Err(Error::ParseIntError));
    assert_eq!(Date::from_str("２０１９0720"), Err(Error::ParseIntError));
}

#[test]
fn text_of_a_date_reads_back() {
    for (year, month, day) in [(1900, 1, 1), (2019, 7, 20), (2155, 12, 31), (2000, 2, 29)] {
        let date = Date::new(day, month, year).unwrap();
        assert_eq!(Date::from_str(&date.to_string()), Ok(date));
    }
}

#[test]
fn time_from_word() {
    assert_eq!(Time::from_word(0), Time { hours: 0, minutes: 0, seconds: 0 });
    assert_eq!(Time::from_word(3_661_500), Time { hours: 1, minutes: 1, seconds: 1 });
    assert_eq!(Time::from_word(86_399_999), Time { hours: 23, minutes: 59, seconds: 59 });
    assert_eq!(Time::from_word(999), Time { hours: 0, minutes: 0, seconds: 0 });
    assert_eq!(Time::from_word(i32::MAX), Time { hours: 596, minutes: 31, seconds: 23 });
}

#[test]
fn time_from_negative_word() {
    assert_eq!(Time::from_word(-1), Time { hours: 0, minutes: 0, seconds: 0 });
    assert_eq!(
        Time::from_word(-3_661_500),
        Time { hours: u32::MAX, minutes: u32::MAX, seconds: u32::MAX }
    );
}

#[test]
fn time_to_word() {
    assert_eq!(Time { hours: 1, minutes: 1, seconds: 1 }.to_time_word(), 3_661_000);
    assert_eq!(Time { hours: 23, minutes: 59, seconds: 59 }.to_time_word(), 86_399_000);
    assert_eq!(Time { hours: 0, minutes: 0, seconds: 0 }.to_time_word(), 0);
}

#[test]
fn time_word_loses_what_is_below_a_second() {
    for word in [0, 1, 999, 1000, 59_999, 60_000, 3_599_999, 3_600_000, 86_399_999, i32::MAX] {
        assert_eq!(Time::from_word(word).to_time_word(), word - word % 1000);
    }
}

#[test]
fn time_to_word_keeps_the_low_bits() {
    let time = Time { hours: 1200, minutes: 0, seconds: 0 };
    assert_eq!(time.to_time_word(), (4_320_000_000u64 - (1u64 << 32)) as i32);
}

#[test]
fn date_time_from_bytes() {
    let mut bytes = Vec::new();
    bytes.extend_from_slice(&2458685i32.to_le_bytes());
    bytes.extend_from_slice(&3_661_500i32.to_le_bytes());
    let mut source = ByteReader::new(bytes);
    let dt = DateTime::read_from(&mut source).unwrap();
    assert_eq!(dt.date, Date { year: 2019, month: 7, day: 20 });
    assert_eq!(dt.time, Time { hours: 1, minutes: 1, seconds: 1 });
    assert_eq!(source.position(), 8);
}

#[test]
fn date_time_to_bytes() {
    let dt = DateTime {
        date: Date { year: 2019, month: 7, day: 20 },
        time: Time { hours: 1, minutes: 1, seconds: 1 },
    };
    let mut out = Vec::new();
    dt.write_to(&mut out);
    let mut expected = Vec::new();
    expected.extend_from_slice(&2458685i32.to_le_bytes());
    expected.extend_from_slice(&3_661_000i32.to_le_bytes());
    assert_eq!(out, expected);
}

#[test]
fn date_time_reads_back() {
    let dt = DateTime {
        date: Date { year: 2000, month: 2, day: 29 },
        time: Time { hours: 23, minutes: 59, seconds: 59 },
    };
    let mut out = Vec::new();
    dt.write_to(&mut out);
    assert_eq!(out.len(), 8);
    let mut source = ByteReader::new(out);
    assert_eq!(DateTime::read_from(&mut source), Ok(dt));
}

#[test]
fn date_time_from_too_few_bytes() {
    let mut source = ByteReader::new(vec![1, 2, 3, 4, 5, 6, 7]);
    assert_eq!(DateTime::read_from(&mut source), Err(Error::UnexpectedEof));
}
