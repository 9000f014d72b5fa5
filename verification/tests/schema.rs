use dbase::schema::{DESCRIPTOR_SIZE, INVALID_NAME, INVALID_WIDTH};
use dbase::{Error, FieldFlags, FieldInfo, FieldName, FieldType, Header, LastUpdate, MemoKind};

fn named(name: &str) -> FieldName {
    FieldName::try_from(name).unwrap()
}

#[test]
fn field_names_have_one_to_ten_printable_bytes() {
    assert_eq!(named("Nick Name").as_str(), "Nick Name");
    assert_eq!(named("ABCDEFGHIJ").as_bytes(), b"ABCDEFGHIJ");
    assert!(matches!(FieldName::try_from("ABCDEFGHIJK"), Err(Error::FieldNameTooLong)));
    for name in ["", "tab\there", "caf\u{e9}", "nul\0"] {
        match FieldName::try_from(name) {
            Err(Error::Message(text)) => assert_eq!(text, INVALID_NAME),
            other => panic!("unexpected result {:?}", other),
        }
    }
    assert!(matches!(FieldName::from_bytes(b"ABCDEFGHIJK"), Err(Error::FieldNameTooLong)));
    assert_eq!(FieldName::from_bytes(b"AGE").unwrap(), named("AGE"));
}

#[test]
fn field_types_have_their_letters() {
    let all = [
        (FieldType::Character, b'C'),
        (FieldType::Numeric, b'N'),
        (FieldType::Float, b'F'),
        (FieldType::Logical, b'L'),
        (FieldType::Date, b'D'),
        (FieldType::DateTime, b'T'),
        (FieldType::Integer, b'I'),
        (FieldType::Double, b'B'),
        (FieldType::Currency, b'Y'),
        (FieldType::Memo, b'M'),
    ];
    for (field_type, letter) in all {
        assert_eq!(field_type.code(), letter);
        assert_eq!(FieldType::from_code(letter), Some(field_type));
        assert_eq!(FieldType::try_from_code(letter).unwrap(), field_type);
    }
    assert_eq!(FieldType::from_code(b'Z'), None);
    assert!(matches!(FieldType::try_from_code(b'Z'), Err(Error::InvalidFieldType('Z'))));
    assert!(matches!(FieldType::try_from_code(b'c'), Err(Error::InvalidFieldType('c'))));
}

#[test]
fn widths_must_suit_the_type() {
    let good = [
        (FieldType::Character, 1, 0),
        (FieldType::Character, 254, 0),
        (FieldType::Numeric, 20, 18),
        (FieldType::Numeric, 1, 0),
        (FieldType::Numeric, 3, 1),
        (FieldType::Float, 20, 10),
        (FieldType::Logical, 1, 0),
        (FieldType::Date, 8, 0),
        (FieldType::DateTime, 8, 0),
        (FieldType::Integer, 4, 0),
        (FieldType::Double, 8, 5),
        (FieldType::Currency, 8, 4),
        (FieldType::Memo, 10, 0),
        (FieldType::Memo, 4, 0),
    ];
    for (field_type, length, decimals) in good {
        assert!(field_type.accepts(length, decimals), "{:?} {} {}", field_type, length, decimals);
        assert!(FieldInfo::new(named("X"), field_type, length, decimals).is_ok());
    }
    let bad = [
        (FieldType::Character, 0, 0),
        (FieldType::Character, 255, 0),
        (FieldType::Character, 10, 1),
        (FieldType::Numeric, 21, 0),
        (FieldType::Numeric, 0, 0),
        (FieldType::Numeric, 3, 2),
        (FieldType::Numeric, 1, 1),
        (FieldType::Logical, 2, 0),
        (FieldType::Date, 10, 0),
        (FieldType::Integer, 8, 0),
        (FieldType::Double, 4, 0),
        (FieldType::Memo, 8, 0),
    ];
    for (field_type, length, decimals) in bad {
        assert!(!field_type.accepts(length, decimals), "{:?} {} {}", field_type, length, decimals);
        match FieldInfo::new(named("X"), field_type, length, decimals) {
            Err(Error::Message(text)) => assert_eq!(text, INVALID_WIDTH),
            other => panic!("unexpected result {:?}", other),
        }
    }
}

#[test]
fn descriptor_has_the_documented_layout() {
    let info = FieldInfo::new(named("Age"), FieldType::Numeric, 20, 10)
        .unwrap()
        .with_flags(FieldFlags(0x02));
    let mut bytes = Vec::new();
    info.write_to(&mut bytes);
    assert_eq!(bytes.len(), DESCRIPTOR_SIZE);
    let mut expected = vec![0u8; 32];
    expected[0] = b'A';
    expected[1] = b'g';
    expected[2] = b'e';
    expected[11] = b'N';
    expected[16] = 20;
    expected[17] = 10;
    expected[18] = 0x02;
    assert_eq!(bytes, expected);

    let back = FieldInfo::read_from(&bytes).unwrap();
    assert_eq!(back, info);
    assert_eq!(back.name(), "Age");
    assert_eq!(back.field_type(), FieldType::Numeric);
    assert_eq!(back.length(), 20);
    assert_eq!(back.decimal_count(), 10);
    assert!(back.flags().can_store_null());
    assert!(!back.flags().system_column());
    assert!(!back.flags().is_binary());
    assert!(!back.flags().is_auto_incrementing());
}

#[test]
fn descriptor_errors_name_what_is_wrong() {
    let mut bytes = vec![0u8; 32];
    bytes[..3].copy_from_slice(b"Age");
    bytes[11] = b'N';
    bytes[16] = 20;
    bytes[17] = 10;
    assert!(FieldInfo::read_from(&bytes).is_ok());

    let mut unknown = bytes.clone();
    unknown[11] = b'Z';
    assert!(matches!(FieldInfo::read_from(&unknown), Err(Error::InvalidFieldType('Z'))));

    let mut long = bytes.clone();
    long[..11].copy_from_slice(b"ABCDEFGHIJK");
    assert!(matches!(FieldInfo::read_from(&long), Err(Error::FieldNameTooLong)));

    let mut nameless = bytes.clone();
    nameless[..3].copy_from_slice(&[0, 0, 0]);
    assert!(matches!(FieldInfo::read_from(&nameless), Err(Error::Message(_))));

    let mut broken = bytes.clone();
    broken[1] = 0;
    assert!(matches!(FieldInfo::read_from(&broken), Err(Error::Message(_))));

    let mut wide = bytes.clone();
    wide[16] = 30;
    match FieldInfo::read_from(&wide) {
        Err(Error::Message(text)) => assert_eq!(text, INVALID_WIDTH),
        other => panic!("unexpected result {:?}", other),
    }
}

#[test]
fn header_has_the_documented_layout() {
    let fields = vec![
        FieldInfo::new(named("Nick Name"), FieldType::Character, 50, 0).unwrap(),
        FieldInfo::new(named("Age"), FieldType::Numeric, 20, 10).unwrap(),
    ];
    let last_update = LastUpdate { years_since_1900: 124, month: 2, day: 29 };
    let header = Header::new(0x03, last_update, fields)
        .unwrap()
        .with_record_count(0x01020304);
    assert_eq!(header.header_length(), 32 + 32 * 2 + 1);
    assert_eq!(header.record_length(), 1 + 50 + 20);
    assert_eq!(header.record_count(), 0x01020304);
    assert_eq!(header.version(), 0x03);
    assert!(!header.has_memo());
    assert_eq!(header.memo_kind(), None);

    let mut bytes = Vec::new();
    header.write_to(&mut bytes);
    assert_eq!(bytes.len(), 97);
    assert_eq!(&bytes[..4], &[0x03, 124, 2, 29]);
    assert_eq!(&bytes[4..8], &[0x04, 0x03, 0x02, 0x01]);
    assert_eq!(&bytes[8..10], &[97, 0]);
    assert_eq!(&bytes[10..12], &[71, 0]);
    assert_eq!(&bytes[12..32], &[0u8; 20]);
    assert_eq!(&bytes[32..41], b"Nick Name");
    assert_eq!(bytes[43], b'C');
    assert_eq!(bytes[48], 50);
    assert_eq!(bytes[96], 0x0d);

    let back = Header::read_from(&bytes).unwrap();
    assert_eq!(back, header);
    assert_eq!(back.fields().len(), 2);
    assert_eq!(back.fields()[1].name(), "Age");
    assert_eq!(back.last_update(), last_update);
    assert_eq!(back.last_update().date().unwrap(), dbase::Date::new(29, 2, 2024).unwrap());
}

#[test]
fn header_lengths_above_255_use_both_bytes() {
    let mut fields = Vec::new();
    for i in 0..10 {
        let name = format!("F{}", i);
        fields.push(FieldInfo::new(named(&name), FieldType::Character, 100, 0).unwrap());
    }
    let header = Header::new(0x03, LastUpdate { years_since_1900: 0, month: 0, day: 0 }, fields)
        .unwrap();
    let mut bytes = Vec::new();
    header.write_to(&mut bytes);
    assert_eq!(header.header_length(), 353);
    assert_eq!(header.record_length(), 1001);
    assert_eq!(&bytes[8..10], &[0x61, 0x01]);
    assert_eq!(&bytes[10..12], &[0xe9, 0x03]);
    assert_eq!(Header::read_from(&bytes).unwrap(), header);
}

#[test]
fn truncated_header_is_an_io_error() {
    let fields = vec![FieldInfo::new(named("A"), FieldType::Logical, 1, 0).unwrap()];
    let header =
        Header::new(0x03, LastUpdate { years_since_1900: 1, month: 1, day: 1 }, fields).unwrap();
    let mut bytes = Vec::new();
    header.write_to(&mut bytes);
    for len in [0, 10, 31, 32, 40, 63, 64] {
        match Header::read_from(&bytes[..len]) {
            Err(Error::IoError(e)) => assert_eq!(e.kind(), std::io::ErrorKind::UnexpectedEof),
            other => panic!("unexpected result at {}: {:?}", len, other),
        }
    }
    assert!(Header::read_from(&bytes[..65]).is_ok());
}

#[test]
fn header_that_contradicts_its_fields_is_rejected() {
    let fields = vec![FieldInfo::new(named("A"), FieldType::Logical, 1, 0).unwrap()];
    let header =
        Header::new(0x03, LastUpdate { years_since_1900: 1, month: 1, day: 1 }, fields).unwrap();
    let mut bytes = Vec::new();
    header.write_to(&mut bytes);
    let mut long_record = bytes.clone();
    long_record[10] = 3;
    assert!(matches!(Header::read_from(&long_record), Err(Error::Message(_))));
    let mut long_header = bytes.clone();
    long_header[8] = 66;
    assert!(matches!(Header::read_from(&long_header), Err(Error::Message(_))));
}

#[test]
fn signature_announces_the_memo_file() {
    let blank = LastUpdate { years_since_1900: 0, month: 0, day: 0 };
    for (version, kind) in [
        (0x03u8, None),
        (0x83, Some(MemoKind::Classic)),
        (0x8b, Some(MemoKind::Classic)),
        (0xf5, Some(MemoKind::FoxPro)),
        (0x30, None),
    ] {
        let header = Header::new(version, blank, Vec::new()).unwrap();
        assert_eq!(header.memo_kind(), kind);
        assert_eq!(header.has_memo(), kind.is_some());
    }
}

#[test]
fn too_many_or_too_wide_fields_are_rejected() {
    let blank = LastUpdate { years_since_1900: 0, month: 0, day: 0 };
    let mut fields = Vec::new();
    for _ in 0..258 {
        fields.push(FieldInfo::new(named("WIDE"), FieldType::Character, 254, 0).unwrap());
    }
    assert_eq!(Header::new(0x03, blank, fields.clone()).unwrap().record_length(), 65533);
    fields.push(FieldInfo::new(named("MORE"), FieldType::Character, 3, 0).unwrap());
    assert!(matches!(Header::new(0x03, blank, fields), Err(Error::Message(_))));

    let mut many = Vec::new();
    for _ in 0..2046 {
        many.push(FieldInfo::new(named("L"), FieldType::Logical, 1, 0).unwrap());
    }
    assert_eq!(Header::new(0x03, blank, many.clone()).unwrap().header_length(), 65505);
    many.push(FieldInfo::new(named("L"), FieldType::Logical, 1, 0).unwrap());
    assert!(matches!(Header::new(0x03, blank, many), Err(Error::Message(_))));
}

#[test]
fn last_update_is_a_date_when_the_calendar_has_it() {
    let date = dbase::Date::new(31, 12, 1999).unwrap();
    let update = LastUpdate::from_date(&date).unwrap();
    assert_eq!(update, LastUpdate { years_since_1900: 99, month: 12, day: 31 });
    assert_eq!(update.date().unwrap(), date);
    assert!(LastUpdate::from_date(&dbase::Date::new(1, 1, 1899).unwrap()).is_none());
    assert!(LastUpdate::from_date(&dbase::Date::new(1, 1, 2156).unwrap()).is_none());
    assert!(matches!(
        LastUpdate { years_since_1900: 0, month: 0, day: 0 }.date(),
        Err(Error::InvalidDate)
    ));
}

#[test]
fn errors_describe_themselves() {
    assert_eq!(Error::InvalidDate.description(), "The date is invalid");
    assert_eq!(Error::FieldNameTooLong.description(), "The Field name is too long to fit");
    assert_eq!(Error::EndOfRecord.description(), "EndOfRecord");
    assert_eq!(Error::NotEnoughFields.description(), "Missing at least one field");
    assert_eq!(
        Error::MissingMemoFile.description(),
        "A memo file was expected but could not be found"
    );
    assert_eq!(Error::InvalidFieldType('Z').description(), "The field type is invalid");
    assert_eq!(Error::truncated().description(), "A std::io::Error occurred");
    assert_eq!(
        Error::bad_memo_file().description(),
        "An error occurred when trying to open the memo file"
    );
    assert_eq!(Error::ParseFloatError(Vec::new()).description(), "Failed to parse a float");
    assert_eq!(Error::ParseIntError(Vec::new()).description(), "Failed to parse an int");
    assert_eq!(Error::message("anything").description(), "anything");
    assert_eq!(
        Error::BadConversion(dbase::FieldConversionError {
            expected: FieldType::Logical,
            actual: FieldType::Character,
        })
        .description(),
        "BadConversion"
    );
    assert_eq!(
        Error::BadFieldType {
            expected: FieldType::Logical,
            got: FieldType::Character,
            field_name: "X".to_string(),
        }
        .description(),
        "The Given type does not match the expected field type"
    );
    match Error::message("anything") {
        Error::Message(text) => assert_eq!(text, "anything"),
        other => panic!("unexpected error {:?}", other),
    }
    let converted: Error =
        std::io::Error::from(std::io::ErrorKind::NotFound).into();
    match converted {
        Error::IoError(e) => assert_eq!(e.kind(), std::io::ErrorKind::NotFound),
        other => panic!("unexpected error {:?}", other),
    }
    let mismatch = dbase::FieldConversionError {
        expected: FieldType::Logical,
        actual: FieldType::Character,
    };
    assert!(matches!(Error::from(mismatch), Error::BadConversion(e) if e == mismatch));
}
