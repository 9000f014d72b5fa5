use dbase::{
    read, Date, DateTime, Decimal, Error, FieldIterator, FieldName, FieldType, FieldValue,
    FieldWriter, MemoFile, MemoKind, ReadableRecord, Reader, Record, Table, TableWriterBuilder,
    WritableRecord,
};

fn name_of(name: &str) -> FieldName {
    FieldName::try_from(name).unwrap()
}

fn chars(s: &str) -> FieldValue {
    FieldValue::Character(Some(s.to_string()))
}

fn decimal(s: &str) -> Decimal {
    Decimal::parse(s.as_bytes()).unwrap()
}

fn every_type(kind: MemoKind) -> TableWriterBuilder {
    TableWriterBuilder::new()
        .with_memo_kind(kind)
        .add_character_field(name_of("TEXT"), 12)
        .unwrap()
        .add_numeric_field(name_of("NUMBER"), 10, 3)
        .unwrap()
        .add_float_field(name_of("FLOAT"), 8, 2)
        .unwrap()
        .add_logical_field(name_of("FLAG"))
        .unwrap()
        .add_date_field(name_of("DAY"))
        .unwrap()
        .add_datetime_field(name_of("STAMP"))
        .unwrap()
        .add_integer_field(name_of("INT"))
        .unwrap()
        .add_double_field(name_of("DOUBLE"))
        .unwrap()
        .add_currency_field(name_of("MONEY"))
        .unwrap()
        .add_memo_field(name_of("NOTES"))
        .unwrap()
}

fn full_row(i: i32) -> Vec<FieldValue> {
    vec![
        chars(&format!("row {}", i)),
        FieldValue::Numeric(Some(decimal(&format!("{}.125", i)))),
        FieldValue::Float(Some(decimal(&format!("-{}.50", i)))),
        FieldValue::Logical(Some(i % 2 == 0)),
        FieldValue::Date(Some(Date::new(1 + (i as u32 % 28), 2, 2000 + i as u32).unwrap())),
        FieldValue::DateTime(DateTime { julian_day: 2_451_545 + i as u32, milliseconds: 1000 }),
        FieldValue::Integer(-i),
        FieldValue::Double((i as f64 * 0.5).to_bits()),
        FieldValue::Currency(i as i64 * 10_000 - 1),
        FieldValue::Memo(Some(format!("note {} {}", i, "x".repeat(i as usize * 300)))),
    ]
}

fn unset_row() -> Vec<FieldValue> {
    vec![
        FieldValue::Character(None),
        FieldValue::Numeric(None),
        FieldValue::Float(None),
        FieldValue::Logical(None),
        FieldValue::Date(None),
        FieldValue::DateTime(DateTime { julian_day: 0, milliseconds: 0 }),
        FieldValue::Integer(0),
        FieldValue::Double(0),
        FieldValue::Currency(0),
        FieldValue::Memo(None),
    ]
}

fn values_of(record: &Record) -> Vec<FieldValue> {
    record.entries().iter().map(|(_, value)| value.clone()).collect()
}

fn reopen(table: &Table) -> Reader {
    Reader::new(table.bytes.clone(), table.memo.clone()).unwrap()
}

#[test]
fn every_type_comes_back_as_it_went_in() {
    for kind in [MemoKind::Classic, MemoKind::FoxPro] {
        let rows = vec![full_row(1), unset_row(), full_row(2), full_row(3)];
        let table = every_type(kind).build().write_rows(&rows).unwrap();
        let reader = reopen(&table);
        let records = reader.read().unwrap();
        assert_eq!(records.len(), 4);
        for (record, row) in records.iter().zip(rows.iter()) {
            assert!(!record.is_deleted());
            assert_eq!(&values_of(record), row);
        }
        let names: Vec<&str> = (0..records[0].len()).map(|i| records[0].name(i)).collect();
        assert_eq!(
            names,
            vec![
                "TEXT", "NUMBER", "FLOAT", "FLAG", "DAY", "STAMP", "INT", "DOUBLE", "MONEY",
                "NOTES"
            ]
        );
    }
}

#[test]
fn table_file_has_the_documented_layout() {
    let table = TableWriterBuilder::new()
        .add_character_field(name_of("Nick Name"), 50)
        .unwrap()
        .add_numeric_field(name_of("Age"), 20, 10)
        .unwrap()
        .build()
        .write_rows(&[
            vec![chars("Yoshi"), FieldValue::Numeric(Some(decimal("32.0")))],
            vec![chars("Mario"), FieldValue::Numeric(None)],
        ])
        .unwrap();
    let bytes = &table.bytes;
    assert!(table.memo.is_none());
    assert_eq!(bytes.len(), 97 + 2 * 71 + 1);
    assert_eq!(bytes[0], 0x03);
    assert_eq!(&bytes[4..8], &[2, 0, 0, 0]);
    assert_eq!(&bytes[8..10], &[97, 0]);
    assert_eq!(&bytes[10..12], &[71, 0]);
    assert_eq!(bytes[96], 0x0d);
    assert_eq!(bytes[97], b' ');
    assert_eq!(&bytes[98..103], b"Yoshi");
    assert!(bytes[103..148].iter().all(|b| *b == b' '));
    assert_eq!(&bytes[148..168], b"       32.0000000000");
    assert_eq!(bytes[168], b' ');
    assert_eq!(&bytes[169..174], b"Mario");
    assert!(bytes[174..239].iter().all(|b| *b == b' '));
    assert_eq!(bytes[239], 0x1a);
}

#[test]
fn written_header_states_the_lengths_of_its_fields() {
    let table = every_type(MemoKind::Classic).build().write_rows(&[full_row(1)]).unwrap();
    let reader = reopen(&table);
    let header = reader.header();
    let widths: u16 = header.fields().iter().map(|f| f.length() as u16).sum();
    assert_eq!(widths, 12 + 10 + 8 + 1 + 8 + 8 + 4 + 8 + 8 + 10);
    assert_eq!(header.record_length(), 1 + widths);
    assert_eq!(header.header_length(), 32 + 32 * 10 + 1);
    assert_eq!(u16::from_le_bytes([table.bytes[8], table.bytes[9]]), header.header_length());
    assert_eq!(u16::from_le_bytes([table.bytes[10], table.bytes[11]]), header.record_length());
    assert_eq!(header.record_count(), 1);
    assert_eq!(header.version(), 0x83);
}

#[test]
fn reading_twice_gives_the_same_records() {
    let rows = vec![full_row(4), unset_row(), full_row(5)];
    let table = every_type(MemoKind::FoxPro).build().write_rows(&rows).unwrap();
    let reader = reopen(&table);
    let first = reader.read().unwrap();
    let second = reader.read().unwrap();
    assert_eq!(first, second);
    let memo = table.memo.as_ref().map(|m| m.as_bytes().to_vec());
    let third = read(table.bytes.clone(), memo).unwrap();
    assert_eq!(first, third);
    assert_eq!(reader.header().version(), 0xf5);
}

#[test]
fn table_with_memo_signature_and_no_memo_file_fails_at_the_memo_field() {
    let rows = vec![full_row(1)];
    let table = every_type(MemoKind::Classic).build().write_rows(&rows).unwrap();
    let reader = Reader::open(table.bytes.clone(), None).unwrap();
    assert!(reader.header().has_memo());
    assert!(reader.memo().is_none());
    assert!(matches!(reader.read(), Err(Error::MissingMemoFile)));
    assert!(matches!(reader.record(0), Err(Error::MissingMemoFile)));
    assert!(matches!(read(table.bytes.clone(), None), Err(Error::MissingMemoFile)));

    let mut fields = reader.field_iterator(0).unwrap();
    for _ in 0..9 {
        assert!(fields.read_next_field().is_ok());
    }
    assert!(matches!(fields.read_next_field(), Err(Error::MissingMemoFile)));
    assert!(matches!(fields.read_next_field(), Err(Error::EndOfRecord)));
}

#[test]
fn memo_file_that_cannot_be_opened_fails_the_opening() {
    let table = every_type(MemoKind::Classic).build().write_rows(&[full_row(1)]).unwrap();
    assert!(matches!(
        Reader::open(table.bytes.clone(), Some(vec![0u8; 10])),
        Err(Error::ErrorOpeningMemoFile(_))
    ));
    assert!(matches!(
        read(table.bytes, Some(vec![0u8; 10])),
        Err(Error::ErrorOpeningMemoFile(_))
    ));
}

#[test]
fn memo_bytes_are_read_in_the_layout_that_the_table_announces() {
    for kind in [MemoKind::Classic, MemoKind::FoxPro] {
        let table = every_type(kind).build().write_rows(&[full_row(2)]).unwrap();
        let memo_bytes = table.memo.as_ref().unwrap().as_bytes().to_vec();
        let reader = Reader::open(table.bytes.clone(), Some(memo_bytes)).unwrap();
        assert_eq!(reader.memo().unwrap().kind(), kind);
        assert_eq!(values_of(&reader.record(0).unwrap()), full_row(2));
    }
}

#[test]
fn deleted_records_are_handed_out_with_their_flag() {
    let table = TableWriterBuilder::new()
        .add_integer_field(name_of("ID"))
        .unwrap()
        .build()
        .write_rows(&[
            vec![FieldValue::Integer(1)],
            vec![FieldValue::Integer(2)],
            vec![FieldValue::Integer(3)],
        ])
        .unwrap();
    let mut bytes = table.bytes;
    let start = 32 + 32 + 1;
    bytes[start + 5] = b'*';
    let reader = Reader::open(bytes, None).unwrap();
    let records = reader.read().unwrap();
    let flags: Vec<bool> = records.iter().map(|r| r.is_deleted()).collect();
    assert_eq!(flags, vec![false, true, false]);
    assert_eq!(records[1].get("ID"), Some(&FieldValue::Integer(2)));
    assert!(reader.field_iterator(1).unwrap().is_deleted());
    assert!(!reader.field_iterator(0).unwrap().is_deleted());
}

#[test]
fn records_are_decoded_one_at_a_time_and_can_be_sought() {
    let table = TableWriterBuilder::new()
        .add_integer_field(name_of("ID"))
        .unwrap()
        .build()
        .write_rows(&[
            vec![FieldValue::Integer(10)],
            vec![FieldValue::Integer(20)],
            vec![FieldValue::Integer(30)],
        ])
        .unwrap();
    let reader = Reader::open(table.bytes, None).unwrap();
    assert_eq!(reader.record_count(), 3);
    let mut records = reader.iter_records();
    let mut seen = Vec::new();
    while let Some(record) = records.next() {
        seen.push(record.unwrap().value(0).clone());
    }
    assert_eq!(
        seen,
        vec![FieldValue::Integer(10), FieldValue::Integer(20), FieldValue::Integer(30)]
    );
    assert!(records.next().is_none());
    records.seek(1);
    assert_eq!(records.next().unwrap().unwrap().value(0), &FieldValue::Integer(20));
    records.seek(0);
    assert_eq!(records.next().unwrap().unwrap().value(0), &FieldValue::Integer(10));
    assert_eq!(reader.record_bytes(2).unwrap(), &[b' ', 30, 0, 0, 0][..]);
    assert!(reader.record_bytes(3).is_none());
}

#[test]
fn table_that_ends_before_its_last_record_is_an_io_error() {
    let table = TableWriterBuilder::new()
        .add_character_field(name_of("NAME"), 10)
        .unwrap()
        .build()
        .write_rows(&[vec![chars("one")], vec![chars("two")]])
        .unwrap();
    let mut bytes = table.bytes;
    bytes.truncate(bytes.len() - 5);
    let reader = Reader::open(bytes, None).unwrap();
    assert_eq!(reader.record(0).unwrap().get("NAME"), Some(&chars("one")));
    match reader.record(1) {
        Err(Error::IoError(e)) => assert_eq!(e.kind(), std::io::ErrorKind::UnexpectedEof),
        other => panic!("unexpected result {:?}", other),
    }
    assert!(matches!(reader.read(), Err(Error::IoError(_))));
    assert!(matches!(reader.field_iterator(1), Err(Error::IoError(_))));
    let mut records = reader.iter_records();
    assert!(records.next().unwrap().is_ok());
    assert!(matches!(records.next(), Some(Err(Error::IoError(_)))));
    assert!(records.next().is_none());
}

#[test]
fn record_names_find_their_values() {
    let table = TableWriterBuilder::new()
        .add_character_field(name_of("A"), 3)
        .unwrap()
        .add_logical_field(name_of("B"))
        .unwrap()
        .add_character_field(name_of("A"), 3)
        .unwrap()
        .build()
        .write_rows(&[vec![chars("one"), FieldValue::Logical(Some(true)), chars("two")]])
        .unwrap();
    let record = Reader::open(table.bytes, None).unwrap().record(0).unwrap();
    assert_eq!(record.get("A"), Some(&chars("one")));
    assert_eq!(record.get("B"), Some(&FieldValue::Logical(Some(true))));
    assert_eq!(record.get("C"), None);
    assert_eq!(record.get("a"), None);
    assert_eq!(record.len(), 3);
    assert_eq!(record.name(2), "A");
    assert_eq!(record.value(2), &chars("two"));
    let entries = record.clone().into_entries();
    assert_eq!(Record::new(false, entries), record);
}

#[test]
fn fields_are_read_in_the_order_of_the_schema() {
    let table = every_type(MemoKind::Classic).build().write_rows(&[full_row(3)]).unwrap();
    let reader = reopen(&table);
    let mut fields = reader.field_iterator(0).unwrap();
    assert_eq!(fields.remaining(), 10);
    assert!(fields.expect_fields(10).is_ok());
    assert!(matches!(fields.expect_fields(11), Err(Error::NotEnoughFields)));
    let text = fields.read_next_field_as::<String>().unwrap();
    assert_eq!((text.name.as_str(), text.value.as_str()), ("TEXT", "row 3"));
    assert_eq!(fields.read_next_field_as::<Decimal>().unwrap().value, decimal("3.125"));
    assert_eq!(
        fields.read_next_field_as::<Option<Decimal>>().unwrap().value,
        Some(decimal("-3.50"))
    );
    assert_eq!(fields.read_next_field_as::<bool>().unwrap().value, false);
    assert_eq!(
        fields.read_next_field_as::<Date>().unwrap().value,
        Date::new(4, 2, 2003).unwrap()
    );
    fields.skip_next_field().unwrap();
    assert_eq!(fields.remaining(), 4);
    assert_eq!(fields.read_next_field_as::<i32>().unwrap().value, -3);
    assert_eq!(fields.read_next_field_as::<u64>().unwrap().value, 1.5f64.to_bits());
    assert_eq!(fields.read_next_field_as::<i64>().unwrap().value, 29_999);
    let notes = fields.read_next_field_as::<FieldValue>().unwrap();
    assert_eq!(notes.name, "NOTES");
    assert_eq!(notes.value, full_row(3)[9]);
    assert_eq!(fields.remaining(), 0);
    assert!(matches!(fields.skip_next_field(), Err(Error::EndOfRecord)));
    assert!(matches!(fields.read_next_field(), Err(Error::EndOfRecord)));
}

#[test]
fn field_of_another_type_is_a_bad_conversion() {
    let table = every_type(MemoKind::Classic).build().write_rows(&[unset_row()]).unwrap();
    let reader = reopen(&table);
    let mut fields = reader.field_iterator(0).unwrap();
    match fields.read_next_field_as::<bool>() {
        Err(Error::BadConversion(e)) => {
            assert_eq!(e.expected, FieldType::Logical);
            assert_eq!(e.actual, FieldType::Character);
        }
        other => panic!("unexpected result {:?}", other),
    }
    assert!(matches!(fields.read_next_field_as::<Decimal>(), Err(Error::BadConversion(_))));
    assert_eq!(fields.read_next_field_as::<Option<Decimal>>().unwrap().value, None);
    assert_eq!(fields.read_next_field_as::<Option<bool>>().unwrap().value, None);
    assert_eq!(fields.read_next_field_as::<Option<Date>>().unwrap().value, None);
    assert_eq!(
        fields.read_next_field_as::<DateTime>().unwrap().value,
        DateTime { julian_day: 0, milliseconds: 0 }
    );
    assert!(matches!(fields.read_next_field_as::<String>(), Err(Error::BadConversion(_))));
    assert_eq!(fields.remaining(), 3);
}

struct Station {
    name: String,
    marker_col: String,
    marker_sym: String,
    line: String,
}

impl ReadableRecord for Station {
    fn read_using<'a>(field_iterator: &mut FieldIterator<'a>) -> Result<Self, Error> {
        Ok(Station {
            name: field_iterator.read_next_field_as()?.value,
            marker_col: field_iterator.read_next_field_as()?.value,
            marker_sym: field_iterator.read_next_field_as()?.value,
            line: field_iterator.read_next_field_as()?.value,
        })
    }
}

impl WritableRecord for Station {
    fn write_using(&self, field_writer: &mut FieldWriter) -> Result<(), Error> {
        field_writer.write_next_field(&self.name)?;
        field_writer.write_next_field(&self.marker_col)?;
        field_writer.write_next_field(&self.marker_sym)?;
        field_writer.write_next_field(&self.line)?;
        Ok(())
    }
}

struct Greedy {
    station: Station,
    more: String,
}

impl ReadableRecord for Greedy {
    fn read_using<'a>(field_iterator: &mut FieldIterator<'a>) -> Result<Self, Error> {
        Ok(Greedy {
            station: Station::read_using(field_iterator)?,
            more: field_iterator.read_next_field_as()?.value,
        })
    }
}

fn stations() -> TableWriterBuilder {
    TableWriterBuilder::new()
        .add_character_field(name_of("name"), 20)
        .unwrap()
        .add_character_field(name_of("marker_col"), 7)
        .unwrap()
        .add_character_field(name_of("marker_sym"), 12)
        .unwrap()
        .add_character_field(name_of("line"), 6)
        .unwrap()
}

fn van_dorn() -> Station {
    Station {
        name: "Van Dorn Street".to_string(),
        marker_col: "#0000ff".to_string(),
        marker_sym: "rail-metro".to_string(),
        line: "blue".to_string(),
    }
}

#[test]
fn records_are_read_and_written_as_user_types() {
    let table = stations().build().write(&[van_dorn(), van_dorn()]).unwrap();
    let reader = Reader::open(table.bytes, None).unwrap();
    let read_back = reader.read_as::<Station>().unwrap();
    assert_eq!(read_back.len(), 2);
    assert_eq!(read_back[0].name, "Van Dorn Street");
    assert_eq!(read_back[0].marker_col, "#0000ff");
    assert_eq!(read_back[0].marker_sym, "rail-metro");
    assert_eq!(read_back[0].line, "blue");
    let generic = reader.read_as::<Record>().unwrap();
    assert_eq!(generic, reader.read().unwrap());
}

#[test]
fn user_type_that_asks_for_a_fifth_field_of_four_gets_end_of_record() {
    let table = stations().build().write(&[van_dorn()]).unwrap();
    let reader = Reader::open(table.bytes, None).unwrap();
    match reader.read_as::<Greedy>() {
        Err(Error::EndOfRecord) => {}
        Err(other) => panic!("unexpected error {:?}", other),
        Ok(records) => panic!("read {} records", records.len() + records[0].more.len()
            + records[0].station.name.len()),
    }
}

struct TooFew;

impl WritableRecord for TooFew {
    fn write_using(&self, field_writer: &mut FieldWriter) -> Result<(), Error> {
        field_writer.write_next_field(&"only one".to_string())
    }
}

struct TooMany;

impl WritableRecord for TooMany {
    fn write_using(&self, field_writer: &mut FieldWriter) -> Result<(), Error> {
        van_dorn().write_using(field_writer)?;
        field_writer.write_next_field(&true)
    }
}

#[test]
fn record_with_too_few_or_too_many_values_is_taken_back() {
    let mut writer = stations().build();
    writer.write_record(&van_dorn()).unwrap();
    assert!(matches!(writer.write_record(&TooFew), Err(Error::NotEnoughFields)));
    assert!(matches!(writer.write_record(&TooMany), Err(Error::EndOfRecord)));
    assert!(matches!(
        writer.write_values(&[chars("a"), chars("b"), chars("c")]),
        Err(Error::NotEnoughFields)
    ));
    assert!(matches!(
        writer.write_values(&[chars("a"), chars("b"), chars("c"), chars("d"), chars("e")]),
        Err(Error::EndOfRecord)
    ));
    assert!(matches!(
        writer.write_values(&[chars("a"), FieldValue::Integer(1), chars("c"), chars("d")]),
        Err(Error::BadFieldType { .. })
    ));
    assert!(matches!(
        writer.write_values(&[chars("a"), chars("b"), chars("c"), chars("much too wide")]),
        Err(Error::Message(_))
    ));
    assert_eq!(writer.record_count(), 1);
    writer.write_values(&[chars("a"), chars("b"), chars("c"), chars("d")]).unwrap();
    assert_eq!(writer.record_count(), 2);
    let table = writer.finish();
    assert_eq!(table.bytes.len(), 32 + 4 * 32 + 1 + 2 * 46 + 1);
    let records = Reader::open(table.bytes, None).unwrap().read().unwrap();
    assert_eq!(records.len(), 2);
    assert_eq!(records[0].get("line"), Some(&chars("blue")));
    assert_eq!(records[1].get("line"), Some(&chars("d")));
}

#[test]
fn failing_write_of_all_records_gives_no_table() {
    assert!(matches!(stations().build().write(&[TooFew]), Err(Error::NotEnoughFields)));
    let rows = vec![vec![chars("a"), chars("b"), chars("c"), chars("d")], vec![chars("a")]];
    assert!(matches!(stations().build().write_rows(&rows), Err(Error::NotEnoughFields)));
}

#[test]
fn table_without_records_is_a_header_and_the_end_of_file() {
    let table = stations().build().finish();
    assert_eq!(table.bytes.len(), 32 + 4 * 32 + 1 + 1);
    assert_eq!(&table.bytes[4..8], &[0, 0, 0, 0]);
    assert_eq!(*table.bytes.last().unwrap(), 0x1a);
    let reader = Reader::open(table.bytes, None).unwrap();
    assert_eq!(reader.read().unwrap(), Vec::<Record>::new());
    assert!(reader.iter_records().next().is_none());
    let empty = TableWriterBuilder::new().build().write_rows(&[vec![], vec![]]).unwrap();
    assert_eq!(empty.bytes, {
        let mut bytes = vec![0u8; 32];
        bytes[0] = 0x03;
        bytes[4] = 2;
        bytes[8] = 33;
        bytes[10] = 1;
        bytes.extend_from_slice(&[0x0d, b' ', b' ', 0x1a]);
        bytes
    });
}

#[test]
fn schema_of_a_reader_seeds_a_writer() {
    let rows = vec![full_row(1), full_row(2)];
    let table = every_type(MemoKind::FoxPro)
        .with_last_update(dbase::LastUpdate { years_since_1900: 99, month: 12, day: 31 })
        .build()
        .write_rows(&rows)
        .unwrap();
    let reader = reopen(&table);
    let mut records = reader.read().unwrap();
    let place = records[0].position("TEXT").unwrap();
    assert_eq!(place, 0);
    assert_eq!(records[0].position("NOTES"), Some(9));
    assert_eq!(records[0].position("MISSING"), None);
    records[0].set_value(place, chars("Red"));
    let copy = TableWriterBuilder::from_reader(&reader).build().write(&records).unwrap();
    assert_eq!(copy.bytes.len(), table.bytes.len());
    assert_eq!(&copy.bytes[..32], &table.bytes[..32]);
    let copied = reopen(&copy);
    assert_eq!(copied.header().fields(), reader.header().fields());
    let again = copied.read().unwrap();
    assert_eq!(again, records);
    assert_eq!(again[0].get("TEXT"), Some(&chars("Red")));
    assert_eq!(again[1], reader.read().unwrap()[1]);
}

#[test]
fn memo_texts_of_many_records_stay_apart() {
    let builder = TableWriterBuilder::new()
        .add_memo_field(name_of("A"))
        .unwrap()
        .add_memo_field(name_of("B"))
        .unwrap();
    let rows: Vec<Vec<FieldValue>> = (0..20)
        .map(|i| {
            vec![
                FieldValue::Memo(Some("a".repeat(i * 97))),
                FieldValue::Memo(if i % 3 == 0 { None } else { Some(format!("b{}", i)) }),
            ]
        })
        .collect();
    let table = builder.build().write_rows(&rows).unwrap();
    let memo: &MemoFile = table.memo.as_ref().unwrap();
    assert_eq!(memo.as_bytes().len() % 512, 0);
    let records = reopen(&table).read().unwrap();
    for (record, row) in records.iter().zip(rows.iter()) {
        assert_eq!(&values_of(record), row);
    }
}

#[test]
fn builder_rejects_what_a_header_cannot_state() {
    assert!(matches!(
        TableWriterBuilder::new().add_numeric_field(name_of("N"), 5, 4),
        Err(Error::Message(_))
    ));
    assert!(matches!(
        TableWriterBuilder::new().add_character_field(name_of("C"), 0),
        Err(Error::Message(_))
    ));
    let mut builder = TableWriterBuilder::new();
    for _ in 0..258 {
        builder = builder.add_character_field(name_of("WIDE"), 254).unwrap();
    }
    assert_eq!(builder.fields().len(), 258);
    match builder.add_character_field(name_of("MORE"), 3) {
        Err(Error::Message(text)) => assert_eq!(
            text,
            "the fields are too many or too wide for the lengths that a header can state"
        ),
        Err(other) => panic!("unexpected error {:?}", other),
        Ok(_) => panic!("a record of 65536 bytes was accepted"),
    }
}

#[test]
fn foxpro_memo_fields_are_four_bytes_long() {
    let classic = TableWriterBuilder::new().add_memo_field(name_of("M")).unwrap();
    assert_eq!(classic.fields()[0].length(), 10);
    let fox = TableWriterBuilder::new()
        .with_memo_kind(MemoKind::FoxPro)
        .add_memo_field(name_of("M"))
        .unwrap();
    assert_eq!(fox.fields()[0].length(), 4);
    let table = fox.build().write_rows(&[vec![FieldValue::Memo(Some("x".to_string()))]]).unwrap();
    assert_eq!(table.bytes[0], 0xf5);
    assert_eq!(&table.bytes[66..70], &[8, 0, 0, 0]);
}

#[test]
fn pieces_of_a_table_written_one_by_one_make_the_table() {
    for kind in [MemoKind::Classic, MemoKind::FoxPro] {
        let rows = vec![full_row(1), unset_row(), full_row(2)];
        let whole = every_type(kind).build().write_rows(&rows).unwrap();

        let (mut writer, first_header) = every_type(kind).build_stream();
        assert_eq!(first_header.len(), 32 + 10 * 32 + 1);
        assert_eq!(&first_header[4..8], &[0, 0, 0, 0]);
        let mut bytes = first_header.clone();
        for row in &rows {
            let piece = writer.write_values(row).unwrap();
            assert_eq!(piece.len(), usize::from(writer.header().record_length()));
            let index = writer.record_count() - 1;
            assert_eq!(writer.header().record_offset(index), bytes.len() as u64);
            bytes.extend_from_slice(&piece);
        }
        assert!(matches!(writer.write_values(&rows[0][..3]), Err(Error::NotEnoughFields)));
        assert!(matches!(writer.write_record(&TooFew), Err(Error::NotEnoughFields)));
        assert!(matches!(
            writer.write_values(&[FieldValue::Logical(None)]),
            Err(Error::BadFieldType { .. })
        ));
        assert_eq!(writer.record_count(), 3);
        bytes.push(0x1a);
        let (last_header, memo) = writer.finish();
        assert_eq!(last_header.len(), first_header.len());
        assert_eq!(&last_header[4..8], &[3, 0, 0, 0]);
        assert_eq!(&last_header[..4], &first_header[..4]);
        assert_eq!(&last_header[8..], &first_header[8..]);
        bytes[..last_header.len()].copy_from_slice(&last_header);
        assert_eq!(bytes, whole.bytes);
        assert_eq!(memo, whole.memo);
    }
}

#[test]
fn user_records_are_handed_out_one_by_one() {
    let (mut writer, header) = stations().build_stream();
    let piece = writer.write_record(&van_dorn()).unwrap();
    assert_eq!(piece.len(), 46);
    assert_eq!(&piece[..16], b" Van Dorn Street");
    assert!(matches!(writer.write_record(&TooFew), Err(Error::NotEnoughFields)));
    assert!(matches!(writer.write_record(&TooMany), Err(Error::EndOfRecord)));
    let again = writer.write_record(&van_dorn()).unwrap();
    assert_eq!(again, piece);
    let (last, memo) = writer.finish();
    assert!(memo.is_none());
    let mut table = last;
    table.extend_from_slice(&piece);
    table.extend_from_slice(&again);
    table.push(0x1a);
    assert_eq!(table.len(), header.len() + 2 * 46 + 1);
    assert_eq!(table, stations().build().write(&[van_dorn(), van_dorn()]).unwrap().bytes);
}

#[test]
fn header_tells_where_the_records_are() {
    let table = stations().build().write(&[van_dorn(), van_dorn()]).unwrap();
    let header = dbase::Header::read_from(&table.bytes).unwrap();
    assert_eq!(dbase::Header::stated_length(&table.bytes[..32]).unwrap(), 161);
    assert_eq!(dbase::Header::stated_length(&table.bytes).unwrap(), header.header_length());
    assert!(matches!(dbase::Header::stated_length(&table.bytes[..31]), Err(Error::IoError(_))));
    assert_eq!(header.record_offset(0), 161);
    assert_eq!(header.record_offset(1), 161 + 46);
    assert_eq!(header.record_offset(u32::MAX), 161 + 46 * u32::MAX as u64);
    let start = header.record_offset(1) as usize;
    let record =
        dbase::record::decode_record(header.fields(), &table.bytes[start..start + 46], None)
            .unwrap();
    assert_eq!(record.get("name"), Some(&chars("Van Dorn Street")));
}

#[test]
fn records_are_written_as_their_values_in_order() {
    let rows = vec![full_row(1), unset_row(), full_row(2)];
    let table = every_type(MemoKind::Classic).build().write_rows(&rows).unwrap();
    let records = reopen(&table).read().unwrap();
    let copy = every_type(MemoKind::Classic).build().write_records(&records).unwrap();
    assert_eq!(copy.bytes, table.bytes);
    assert_eq!(copy.memo, table.memo);

    let mut writer = every_type(MemoKind::Classic).build();
    writer.write_entries(&records[1]).unwrap();
    assert!(matches!(
        writer.write_entries(&Record::new(false, Vec::new())),
        Err(Error::NotEnoughFields)
    ));
    assert_eq!(writer.record_count(), 1);
    let one = writer.finish();
    assert_eq!(reopen(&one).read().unwrap(), vec![records[1].clone()]);

    let (mut stream, _) = every_type(MemoKind::Classic).build_stream();
    let piece = stream.write_entries(&records[1]).unwrap();
    assert_eq!(piece, reopen(&table).record_bytes(1).unwrap().to_vec());
}

#[test]
fn character_field_holds_its_text_inline_and_memo_field_in_the_memo_file() {
    let builder = TableWriterBuilder::new()
        .add_character_field(name_of("INLINE"), 254)
        .unwrap()
        .add_memo_field(name_of("OUTSIDE"))
        .unwrap();
    let long = "y".repeat(254);
    let rows = vec![
        vec![chars("x"), FieldValue::Memo(Some("x".to_string()))],
        vec![chars(&long), FieldValue::Memo(Some(long.clone()))],
        vec![chars("z"), FieldValue::Memo(Some(String::new()))],
    ];
    let table = builder.build().write_rows(&rows).unwrap();
    let start = 32 + 2 * 32 + 1;
    assert_eq!(&table.bytes[start + 1..start + 2], b"x");
    assert_eq!(&table.bytes[start + 255..start + 265], b"         1");
    assert_eq!(&table.bytes[start + 265 + 1..start + 265 + 255], long.as_bytes());
    assert_eq!(&table.bytes[start + 265 + 255..start + 265 + 265], b"         2");
    assert_eq!(&table.bytes[start + 2 * 265 + 255..start + 3 * 265], b"         3");
    let memo = table.memo.as_ref().unwrap();
    assert_eq!(memo.next_free_block(), 4);
    assert_eq!(memo.read_block(1).unwrap(), b"x".to_vec());
    assert_eq!(memo.read_block(3).unwrap(), Vec::<u8>::new());
    let records = reopen(&table).read().unwrap();
    for (record, row) in records.iter().zip(rows.iter()) {
        assert_eq!(&values_of(record), row);
    }
    let too_long = "w".repeat(255);
    assert!(matches!(
        TableWriterBuilder::new()
            .add_character_field(name_of("INLINE"), 254)
            .unwrap()
            .build()
            .write_rows(&[vec![chars(&too_long)]]),
        Err(Error::Message(_))
    ));
}

struct Everything {
    text: String,
    number: Option<Decimal>,
    float: FieldValue,
    flag: Option<bool>,
    day: Date,
    stamp: DateTime,
    int: i32,
    double: u64,
    money: i64,
    notes: FieldValue,
}

impl WritableRecord for Everything {
    fn write_using(&self, field_writer: &mut FieldWriter) -> Result<(), Error> {
        assert_eq!(field_writer.cursor(), 0);
        assert_eq!(field_writer.fields().len(), 10);
        field_writer.write_next_field(&self.text)?;
        field_writer.write_next_field(&self.number)?;
        field_writer.write_next_field(&self.float)?;
        field_writer.write_next_field(&self.flag)?;
        field_writer.write_next_field(&self.day)?;
        field_writer.write_next_field(&self.stamp)?;
        field_writer.write_next_field(&self.int)?;
        field_writer.write_next_field(&self.double)?;
        field_writer.write_next_field(&self.money)?;
        assert_eq!(field_writer.cursor(), 9);
        field_writer.write_next_field_value(&self.notes)
    }
}

impl ReadableRecord for Everything {
    fn read_using<'a>(field_iterator: &mut FieldIterator<'a>) -> Result<Self, Error> {
        Ok(Everything {
            text: field_iterator.read_next_field_as()?.value,
            number: field_iterator.read_next_field_as()?.value,
            float: field_iterator.read_next_field_as()?.value,
            flag: field_iterator.read_next_field_as()?.value,
            day: field_iterator.read_next_field_as()?.value,
            stamp: field_iterator.read_next_field_as()?.value,
            int: field_iterator.read_next_field_as()?.value,
            double: field_iterator.read_next_field_as()?.value,
            money: field_iterator.read_next_field_as()?.value,
            notes: field_iterator.read_next_field_as()?.value,
        })
    }
}

#[test]
fn values_of_every_kind_are_written_from_and_read_into_plain_types() {
    let row = full_row(6);
    let record = Everything {
        text: "row 6".to_string(),
        number: Some(decimal("6.125")),
        float: row[2].clone(),
        flag: Some(true),
        day: Date::new(7, 2, 2006).unwrap(),
        stamp: DateTime { julian_day: 2_451_551, milliseconds: 1000 },
        int: -6,
        double: 3.0f64.to_bits(),
        money: 59_999,
        notes: row[9].clone(),
    };
    let table = every_type(MemoKind::Classic).build().write(&[record]).unwrap();
    let expected = every_type(MemoKind::Classic).build().write_rows(&[row.clone()]).unwrap();
    assert_eq!(table, expected);

    let back = reopen(&table).read_as::<Everything>().unwrap();
    assert_eq!(back.len(), 1);
    assert_eq!(back[0].text, "row 6");
    assert_eq!(back[0].number, Some(decimal("6.125")));
    assert_eq!(back[0].float, row[2]);
    assert_eq!(back[0].flag, Some(true));
    assert_eq!(back[0].day, Date::new(7, 2, 2006).unwrap());
    assert_eq!(back[0].stamp.date(), Some(Date::new(7, 1, 2000).unwrap()));
    assert_eq!(back[0].int, -6);
    assert_eq!(f64::from_bits(back[0].double), 3.0);
    assert_eq!(back[0].money, 59_999);
    assert_eq!(back[0].notes, row[9]);
    for (value, field_type) in row.iter().zip([
        FieldType::Character,
        FieldType::Numeric,
        FieldType::Float,
        FieldType::Logical,
        FieldType::Date,
        FieldType::DateTime,
        FieldType::Integer,
        FieldType::Double,
        FieldType::Currency,
        FieldType::Memo,
    ]) {
        assert_eq!(value.field_type(), field_type);
    }
}

#[test]
fn one_record_is_read_as_a_user_type() {
    let table = stations().build().write(&[van_dorn(), van_dorn()]).unwrap();
    let reader = Reader::open(table.bytes, None).unwrap();
    let station = reader.record_as::<Station>(1).unwrap();
    assert_eq!(station.name, "Van Dorn Street");
    assert_eq!(station.line, "blue");
    assert_eq!(reader.record_as::<Record>(0).unwrap(), reader.record(0).unwrap());
    assert!(matches!(reader.record_as::<Station>(2), Err(Error::IoError(_))));
    assert!(matches!(reader.record_as::<Greedy>(0), Err(Error::EndOfRecord)));
}

#[test]
fn nothing_to_write_and_nothing_to_read_succeed() {
    let none: Vec<Station> = Vec::new();
    let table = stations().build().write(&none).unwrap();
    assert_eq!(table, stations().build().finish());
    let reader = Reader::open(table.bytes, None).unwrap();
    assert_eq!(reader.read_as::<Station>().unwrap().len(), 0);
    assert_eq!(reader.read_as::<Greedy>().unwrap().len(), 0);
}
