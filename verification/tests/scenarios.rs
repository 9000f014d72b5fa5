use dbase::{Decimal, Error, FieldName, FieldValue, Reader, TableWriterBuilder};

fn text(s: &str) -> FieldValue {
    FieldValue::Character(Some(s.to_string()))
}

#[test]
fn nick_name_and_age_come_back() {
    let writer = TableWriterBuilder::new()
        .add_character_field(FieldName::try_from("Nick Name").unwrap(), 50)
        .unwrap()
        .add_numeric_field(FieldName::try_from("Age").unwrap(), 20, 10)
        .unwrap()
        .build();
    let age = Decimal::parse(b"32.0").unwrap();
    let rows = vec![vec![text("Yoshi"), FieldValue::Numeric(Some(age))]];
    let table = writer.write_rows(&rows).unwrap();
    assert_eq!(table.bytes.len(), 32 + 2 * 32 + 1 + 71 + 1);

    let reader = Reader::open(table.bytes, None).unwrap();
    let records = reader.read().unwrap();
    assert_eq!(records.len(), 1);
    assert_eq!(records[0].get("Nick Name"), Some(&text("Yoshi")));
    let age = match records[0].get("Age") {
        Some(FieldValue::Numeric(Some(d))) => d.clone(),
        other => panic!("unexpected value {:?}", other),
    };
    let as_text = String::from_utf8(age.to_text()).unwrap();
    assert_eq!(as_text, "32.0000000000");
    assert_eq!(as_text.parse::<f64>().unwrap(), 32.0);
}

#[test]
fn fifth_field_of_four_is_end_of_record() {
    let writer = TableWriterBuilder::new()
        .add_character_field(FieldName::try_from("name").unwrap(), 20)
        .unwrap()
        .add_character_field(FieldName::try_from("marker_col").unwrap(), 7)
        .unwrap()
        .add_character_field(FieldName::try_from("marker_sym").unwrap(), 12)
        .unwrap()
        .add_character_field(FieldName::try_from("line").unwrap(), 6)
        .unwrap()
        .build();
    let rows =
        vec![vec![text("Van Dorn Street"), text("#0000ff"), text("rail-metro"), text("blue")]];
    let table = writer.write_rows(&rows).unwrap();
    let reader = Reader::open(table.bytes, None).unwrap();
    let mut fields = reader.field_iterator(0).unwrap();
    assert_eq!(fields.read_next_field_as::<String>().unwrap().value, "Van Dorn Street");
    assert_eq!(fields.read_next_field_as::<String>().unwrap().value, "#0000ff");
    assert_eq!(fields.read_next_field_as::<String>().unwrap().value, "rail-metro");
    assert_eq!(fields.read_next_field_as::<String>().unwrap().value, "blue");
    assert!(matches!(fields.read_next_field_as::<String>(), Err(Error::EndOfRecord)));
}
