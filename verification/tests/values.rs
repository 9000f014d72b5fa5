use dbase::{
    Date, DateTime, Decimal, Error, FieldInfo, FieldName, FieldType, FieldValue, MemoFile,
    MemoKind,
};

fn column(name: &str, field_type: FieldType, length: u8, decimals: u8) -> FieldInfo {
    FieldInfo::new(FieldName::try_from(name).unwrap(), field_type, length, decimals).unwrap()
}

fn slot_of_value(info: &FieldInfo, value: &FieldValue) -> Vec<u8> {
    let mut dest = Vec::new();
    value.encode_plain(info, &mut dest).unwrap();
    dest
}

fn number(text: &str) -> Decimal {
    Decimal::parse(text.as_bytes()).unwrap()
}

#[test]
fn character_slot_is_left_justified_and_space_padded() {
    let info = column("NAME", FieldType::Character, 8, 0);
    let slot = slot_of_value(&info, &FieldValue::Character(Some("Yoshi".to_string())));
    assert_eq!(slot, b"Yoshi   ".to_vec());
    assert_eq!(
        FieldValue::decode_plain(&info, &slot).unwrap(),
        FieldValue::Character(Some("Yoshi".to_string()))
    );
}

#[test]
fn character_value_of_exactly_the_width_comes_back_unchanged() {
    let info = column("NAME", FieldType::Character, 5, 0);
    let slot = slot_of_value(&info, &FieldValue::Character(Some("Yoshi".to_string())));
    assert_eq!(slot, b"Yoshi".to_vec());
    assert_eq!(
        FieldValue::decode_plain(&info, &slot).unwrap(),
        FieldValue::Character(Some("Yoshi".to_string()))
    );
}

#[test]
fn character_value_wider_than_the_field_is_rejected() {
    let info = column("NAME", FieldType::Character, 4, 0);
    let mut dest = vec![7u8];
    let result = FieldValue::Character(Some("Yoshi".to_string())).encode_plain(&info, &mut dest);
    match result {
        Err(Error::Message(text)) => {
            assert_eq!(text, "the value does not fit the width of its field")
        }
        other => panic!("unexpected result {:?}", other),
    }
    assert_eq!(dest, vec![7u8]);
}

#[test]
fn character_slot_of_spaces_reads_as_unset() {
    let info = column("NAME", FieldType::Character, 6, 0);
    assert_eq!(
        FieldValue::decode_plain(&info, b"      ").unwrap(),
        FieldValue::Character(None)
    );
    let unset = slot_of_value(&info, &FieldValue::Character(None));
    assert_eq!(unset, b"      ".to_vec());
    let empty = slot_of_value(&info, &FieldValue::Character(Some(String::new())));
    assert_eq!(empty, b"      ".to_vec());
}

#[test]
fn character_value_loses_only_the_spaces_at_its_end() {
    let info = column("NAME", FieldType::Character, 10, 0);
    let slot = slot_of_value(&info, &FieldValue::Character(Some("  a b  ".to_string())));
    assert_eq!(slot, b"  a b     ".to_vec());
    assert_eq!(
        FieldValue::decode_plain(&info, &slot).unwrap(),
        FieldValue::Character(Some("  a b".to_string()))
    );
}

#[test]
fn character_text_outside_ascii_is_kept() {
    let info = column("NAME", FieldType::Character, 12, 0);
    let value = FieldValue::Character(Some("h\u{e9}llo \u{4e16}".to_string()));
    let slot = slot_of_value(&info, &value);
    assert_eq!(slot.len(), 12);
    assert_eq!(FieldValue::decode_plain(&info, &slot).unwrap(), value);
}

#[test]
fn character_bytes_that_are_no_text_are_read_leniently() {
    let info = column("NAME", FieldType::Character, 4, 0);
    let slot = [b'a', 0xff, b'b', b' '];
    assert_eq!(
        FieldValue::decode_plain(&info, &slot).unwrap(),
        FieldValue::Character(Some("a\u{fffd}b".to_string()))
    );
}

#[test]
fn numeric_slot_is_right_justified_with_the_decimals_of_the_field() {
    let info = column("AGE", FieldType::Numeric, 20, 10);
    let slot = slot_of_value(&info, &FieldValue::Numeric(Some(number("32.0"))));
    assert_eq!(slot, b"       32.0000000000".to_vec());
    assert_eq!(
        FieldValue::decode_plain(&info, &slot).unwrap(),
        FieldValue::Numeric(Some(number("32.0000000000")))
    );
}

#[test]
fn numeric_slot_without_decimals_has_no_point() {
    let info = column("COUNT", FieldType::Numeric, 6, 0);
    let slot = slot_of_value(&info, &FieldValue::Numeric(Some(Decimal::from_i64(-42))));
    assert_eq!(slot, b"   -42".to_vec());
    assert_eq!(
        FieldValue::decode_plain(&info, &slot).unwrap(),
        FieldValue::Numeric(Some(Decimal::from_i64(-42)))
    );
}

#[test]
fn numeric_value_with_too_many_decimals_or_digits_is_rejected() {
    let info = column("N", FieldType::Numeric, 6, 2);
    for text in ["1.234", "1234.5", "-123.45"] {
        let mut dest = Vec::new();
        let result = FieldValue::Numeric(Some(number(text))).encode_plain(&info, &mut dest);
        assert!(matches!(result, Err(Error::Message(_))), "{}", text);
        assert!(dest.is_empty());
    }
    let slot = slot_of_value(&info, &FieldValue::Numeric(Some(number("123.45"))));
    assert_eq!(slot, b"123.45".to_vec());
}

#[test]
fn numeric_slot_of_blanks_reads_as_unset() {
    let info = column("N", FieldType::Numeric, 5, 0);
    assert_eq!(FieldValue::decode_plain(&info, b"     ").unwrap(), FieldValue::Numeric(None));
    assert_eq!(
        FieldValue::decode_plain(&info, &[0, 0, 0, 0, 0]).unwrap(),
        FieldValue::Numeric(None)
    );
    assert_eq!(slot_of_value(&info, &FieldValue::Numeric(None)), b"     ".to_vec());
}

#[test]
fn malformed_numeric_slot_is_a_parse_error_with_the_text() {
    let info = column("N", FieldType::Numeric, 6, 0);
    match FieldValue::decode_plain(&info, b"  12a ") {
        Err(Error::ParseFloatError(text)) => assert_eq!(text, b"12a".to_vec()),
        other => panic!("unexpected result {:?}", other),
    }
    assert!(matches!(
        FieldValue::decode_plain(&info, b"1.2.3 "),
        Err(Error::ParseFloatError(_))
    ));
    assert!(matches!(
        FieldValue::decode_plain(&info, b"   -  "),
        Err(Error::ParseFloatError(_))
    ));
    assert!(matches!(
        FieldValue::decode_plain(&info, b"  1e5 "),
        Err(Error::ParseFloatError(_))
    ));
}

#[test]
fn float_field_holds_numbers_as_a_numeric_field_does() {
    let info = column("F", FieldType::Float, 8, 3);
    let slot = slot_of_value(&info, &FieldValue::Float(Some(number("-1.5"))));
    assert_eq!(slot, b"  -1.500".to_vec());
    assert_eq!(
        FieldValue::decode_plain(&info, &slot).unwrap(),
        FieldValue::Float(Some(number("-1.500")))
    );
}

#[test]
fn logical_values_come_back_as_they_went_in() {
    let info = column("FLAG", FieldType::Logical, 1, 0);
    for (value, byte) in [(Some(true), b'T'), (Some(false), b'F'), (None, b' ')] {
        let slot = slot_of_value(&info, &FieldValue::Logical(value));
        assert_eq!(slot, vec![byte]);
        assert_eq!(FieldValue::decode_plain(&info, &slot).unwrap(), FieldValue::Logical(value));
    }
}

#[test]
fn logical_bytes_are_read_as_documented() {
    let info = column("FLAG", FieldType::Logical, 1, 0);
    for byte in [b'T', b't', b'Y', b'y'] {
        assert_eq!(
            FieldValue::decode_plain(&info, &[byte]).unwrap(),
            FieldValue::Logical(Some(true))
        );
    }
    for byte in [b'F', b'f', b'N', b'n'] {
        assert_eq!(
            FieldValue::decode_plain(&info, &[byte]).unwrap(),
            FieldValue::Logical(Some(false))
        );
    }
    for byte in [b'?', b' '] {
        assert_eq!(FieldValue::decode_plain(&info, &[byte]).unwrap(), FieldValue::Logical(None));
    }
    match FieldValue::decode_plain(&info, b"x") {
        Err(Error::Message(text)) => {
            assert_eq!(text, "a Logical field holds a byte that stands for no value")
        }
        other => panic!("unexpected result {:?}", other),
    }
}

#[test]
fn date_slot_is_eight_digits() {
    let info = column("DAY", FieldType::Date, 8, 0);
    let date = Date::new(29, 2, 2024).unwrap();
    let slot = slot_of_value(&info, &FieldValue::Date(Some(date)));
    assert_eq!(slot, b"20240229".to_vec());
    assert_eq!(FieldValue::decode_plain(&info, &slot).unwrap(), FieldValue::Date(Some(date)));
    let early = Date::new(5, 1, 33).unwrap();
    assert_eq!(slot_of_value(&info, &FieldValue::Date(Some(early))), b"00330105".to_vec());
    assert_eq!(slot_of_value(&info, &FieldValue::Date(None)), b"        ".to_vec());
    assert_eq!(FieldValue::decode_plain(&info, b"        ").unwrap(), FieldValue::Date(None));
}

#[test]
fn date_slot_that_is_no_day_is_an_invalid_date() {
    let info = column("DAY", FieldType::Date, 8, 0);
    for slot in [&b"20230229"[..], b"20231301", b"20230431", b"2023 101", b"20230100", b"abcdefgh"]
    {
        assert!(matches!(FieldValue::decode_plain(&info, slot), Err(Error::InvalidDate)));
    }
}

#[test]
fn dates_exist_as_the_calendar_says() {
    assert!(Date::new(29, 2, 2024).is_ok());
    assert!(Date::new(29, 2, 2000).is_ok());
    assert!(matches!(Date::new(29, 2, 1900), Err(Error::InvalidDate)));
    assert!(matches!(Date::new(29, 2, 2023), Err(Error::InvalidDate)));
    assert!(matches!(Date::new(31, 4, 2023), Err(Error::InvalidDate)));
    assert!(matches!(Date::new(0, 1, 2023), Err(Error::InvalidDate)));
    assert!(matches!(Date::new(1, 0, 2023), Err(Error::InvalidDate)));
    assert!(matches!(Date::new(1, 13, 2023), Err(Error::InvalidDate)));
    assert!(matches!(Date::new(1, 1, 10000), Err(Error::InvalidDate)));
    assert!(Date::new(31, 12, 9999).is_ok());
    assert!(Date::new(1, 1, 0).is_ok());
    let date = Date::new(7, 3, 1999).unwrap();
    assert_eq!((date.day(), date.month(), date.year()), (7, 3, 1999));
}

#[test]
fn binary_fields_are_little_endian() {
    let integer = column("I", FieldType::Integer, 4, 0);
    assert_eq!(slot_of_value(&integer, &FieldValue::Integer(-2)), vec![0xfe, 0xff, 0xff, 0xff]);
    assert_eq!(
        slot_of_value(&integer, &FieldValue::Integer(0x01020304)),
        vec![0x04, 0x03, 0x02, 0x01]
    );
    assert_eq!(
        FieldValue::decode_plain(&integer, &[0x00, 0x00, 0x00, 0x80]).unwrap(),
        FieldValue::Integer(i32::MIN)
    );

    let double = column("B", FieldType::Double, 8, 0);
    let bits = 1.5f64.to_bits();
    let slot = slot_of_value(&double, &FieldValue::Double(bits));
    assert_eq!(slot, 1.5f64.to_le_bytes().to_vec());
    assert_eq!(
        slot_of_value(&double, &FieldValue::Double(0x0102030405060708)),
        vec![8, 7, 6, 5, 4, 3, 2, 1]
    );
    assert_eq!(FieldValue::decode_plain(&double, &slot).unwrap(), FieldValue::Double(bits));

    let currency = column("Y", FieldType::Currency, 8, 4);
    let slot = slot_of_value(&currency, &FieldValue::Currency(-12345));
    assert_eq!(slot, (-12345i64).to_le_bytes().to_vec());
    assert_eq!(FieldValue::decode_plain(&currency, &slot).unwrap(), FieldValue::Currency(-12345));
    assert_eq!(
        FieldValue::decode_plain(&currency, &i64::MIN.to_le_bytes()).unwrap(),
        FieldValue::Currency(i64::MIN)
    );

    let stamp = column("T", FieldType::DateTime, 8, 0);
    let value = DateTime { julian_day: 2_460_000, milliseconds: 43_200_000 };
    let slot = slot_of_value(&stamp, &FieldValue::DateTime(value));
    let mut expected = 2_460_000u32.to_le_bytes().to_vec();
    expected.extend_from_slice(&43_200_000u32.to_le_bytes());
    assert_eq!(slot, expected);
    assert_eq!(FieldValue::decode_plain(&stamp, &slot).unwrap(), FieldValue::DateTime(value));
}

#[test]
fn value_of_another_type_is_a_bad_field_type() {
    let info = column("Nick Name", FieldType::Character, 10, 0);
    let mut dest = Vec::new();
    match FieldValue::Logical(Some(true)).encode_plain(&info, &mut dest) {
        Err(Error::BadFieldType { expected, got, field_name }) => {
            assert_eq!(expected, FieldType::Character);
            assert_eq!(got, FieldType::Logical);
            assert_eq!(field_name, "Nick Name");
        }
        other => panic!("unexpected result {:?}", other),
    }
    assert!(dest.is_empty());
}

#[test]
fn memo_text_goes_to_the_memo_file_and_comes_back() {
    let info = column("NOTES", FieldType::Memo, 10, 0);
    let mut memo = Some(MemoFile::new(MemoKind::Classic));
    let mut dest = Vec::new();
    let value = FieldValue::Memo(Some("first text".to_string()));
    value.encode(&info, &mut dest, &mut memo).unwrap();
    assert_eq!(dest, b"         1".to_vec());
    let second = FieldValue::Memo(Some("second".to_string()));
    let mut other = Vec::new();
    second.encode(&info, &mut other, &mut memo).unwrap();
    assert_eq!(other, b"         2".to_vec());
    assert_eq!(FieldValue::decode(&info, &dest, memo.as_ref()).unwrap(), value);
    assert_eq!(FieldValue::decode(&info, &other, memo.as_ref()).unwrap(), second);

    let mut blank = Vec::new();
    FieldValue::Memo(None).encode(&info, &mut blank, &mut memo).unwrap();
    assert_eq!(blank, b"          ".to_vec());
    assert_eq!(FieldValue::decode(&info, &blank, memo.as_ref()).unwrap(), FieldValue::Memo(None));
    assert_eq!(
        FieldValue::decode(&info, b"         0", memo.as_ref()).unwrap(),
        FieldValue::Memo(None)
    );
}

#[test]
fn memo_reference_in_four_bytes_is_a_little_endian_number() {
    let info = column("NOTES", FieldType::Memo, 4, 0);
    let mut memo = Some(MemoFile::new(MemoKind::FoxPro));
    let mut dest = Vec::new();
    let value = FieldValue::Memo(Some("fox".to_string()));
    value.encode(&info, &mut dest, &mut memo).unwrap();
    assert_eq!(dest, vec![8, 0, 0, 0]);
    assert_eq!(FieldValue::decode(&info, &dest, memo.as_ref()).unwrap(), value);
    assert_eq!(
        FieldValue::decode(&info, &[0, 0, 0, 0], memo.as_ref()).unwrap(),
        FieldValue::Memo(None)
    );
    let mut blank = Vec::new();
    FieldValue::Memo(None).encode(&info, &mut blank, &mut memo).unwrap();
    assert_eq!(blank, vec![0, 0, 0, 0]);
}

#[test]
fn memo_field_without_memo_file_is_missing_memo_file() {
    let info = column("NOTES", FieldType::Memo, 10, 0);
    assert!(matches!(
        FieldValue::decode(&info, b"         1", None),
        Err(Error::MissingMemoFile)
    ));
    assert!(matches!(
        FieldValue::decode(&info, b"          ", None),
        Err(Error::MissingMemoFile)
    ));
    let mut none = None;
    let mut dest = Vec::new();
    assert!(matches!(
        FieldValue::Memo(Some("x".to_string())).encode(&info, &mut dest, &mut none),
        Err(Error::MissingMemoFile)
    ));
}

#[test]
fn malformed_memo_reference_is_a_parse_error_with_the_text() {
    let info = column("NOTES", FieldType::Memo, 10, 0);
    let memo = MemoFile::new(MemoKind::Classic);
    match FieldValue::decode(&info, b"       12x", Some(&memo)) {
        Err(Error::ParseIntError(text)) => assert_eq!(text, b"12x".to_vec()),
        other => panic!("unexpected result {:?}", other),
    }
    assert!(matches!(
        FieldValue::decode(&info, b"4294967296", Some(&memo)),
        Err(Error::ParseIntError(_))
    ));
}

#[test]
fn memo_reference_to_a_block_that_is_not_there_is_an_io_error() {
    let info = column("NOTES", FieldType::Memo, 10, 0);
    let memo = MemoFile::new(MemoKind::Classic);
    match FieldValue::decode(&info, b"         7", Some(&memo)) {
        Err(Error::IoError(e)) => assert_eq!(e.kind(), std::io::ErrorKind::UnexpectedEof),
        other => panic!("unexpected result {:?}", other),
    }
}

#[test]
fn decimals_are_read_as_written() {
    let d = number("-12.50");
    assert!(d.is_negative());
    assert_eq!(d.int_digits(), b"12");
    assert_eq!(d.frac_digits(), b"50");
    assert_eq!(d.scale(), 2);
    assert_eq!(d.to_text(), b"-12.50".to_vec());
    assert_eq!(number("+7").to_text(), b"7".to_vec());
    assert_eq!(number(".5").to_text(), b".5".to_vec());
    assert_eq!(number("5.").to_text(), b"5".to_vec());
    assert_eq!(number("007").to_text(), b"007".to_vec());
    for text in ["", "-", "+", ".", "1 2", "1,5", "--1", "1e3", "0x10", "1.2.3"] {
        assert!(Decimal::parse(text.as_bytes()).is_none(), "{}", text);
    }
}

#[test]
fn whole_numbers_become_decimals() {
    assert_eq!(Decimal::from_i64(0).to_text(), b"0".to_vec());
    assert_eq!(Decimal::from_i64(32).to_text(), b"32".to_vec());
    assert_eq!(Decimal::from_i64(-7).to_text(), b"-7".to_vec());
    assert_eq!(Decimal::from_i64(i64::MAX).to_text(), b"9223372036854775807".to_vec());
    assert_eq!(Decimal::from_i64(i64::MIN).to_text(), b"-9223372036854775808".to_vec());
    assert_eq!(Decimal::from_i64(1234), number("1234"));
}
