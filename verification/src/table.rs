//! Writing a table: a schema is declared column by column, the header goes
//! out with a count of zero records, the records follow, and at the end the
//! count is put into the header and the end-of-file byte behind the last
//! record.

use vstd::prelude::*;
use crate::bytes::{le_bytes_u32, lemma_le_u32_round_trip, overwrite, push_all};
use crate::header::{
    clone_fields, header_bytes, header_length, is_schema, lemma_descriptors_len, measure,
    prefix_bytes, record_length, Header, HeaderModel, LastUpdate, END_OF_FILE, TOO_MANY_FIELDS,
    VERSION_CLASSIC_MEMO, VERSION_FOXPRO_MEMO, VERSION_PLAIN,
};
use crate::memo::{grown, new_memo, MemoFile, MemoKind, MemoModel};
use crate::reading::Reader;
use crate::record::ACTIVE;
use crate::schema::{field_specs, FieldInfo, FieldName, FieldSpec, FieldType, INVALID_WIDTH};
use crate::value::{memo_model, FieldValue, ValueModel};
use crate::record::Record;
use crate::writing::{
    continues, entry_values, outcome_unit, values_model, values_written, write_values_using,
    FieldWriter, WritableRecord, WriterModel,
};
use crate::{Error, Failure};

verus! {

/// What is wrong with one record more than a header can count.
pub const TOO_MANY_RECORDS: &'static str = "the table holds as many records as a header can count";

/// Whether one of the columns is a Memo column.
pub open spec fn has_memo_field(fields: Seq<FieldSpec>) -> bool {
    exists|i: int| 0 <= i < fields.len() && (#[trigger] fields[i]).field_type == FieldType::Memo
}

/// The signature of a table with these columns: that of a table with a memo
/// file in the given layout if a column is a Memo column, and that of a
/// plain table if none is.
pub open spec fn version_for(fields: Seq<FieldSpec>, kind: MemoKind) -> u8 {
    if has_memo_field(fields) {
        match kind {
            MemoKind::Classic => VERSION_CLASSIC_MEMO,
            MemoKind::FoxPro => VERSION_FOXPRO_MEMO,
        }
    } else {
        VERSION_PLAIN
    }
}

/// The length of a Memo field whose texts go to a memo file of this layout.
pub open spec fn memo_field_length(kind: MemoKind) -> nat {
    match kind {
        MemoKind::Classic => 10,
        MemoKind::FoxPro => 4,
    }
}

/// A schema in the making, as plain values.
pub struct BuilderModel {
    pub last_update: LastUpdate,
    pub memo_kind: MemoKind,
    pub fields: Seq<FieldSpec>,
}

/// What adding a column of the given type, length and decimal count to a
/// schema gives: the schema with the column behind the others, or the
/// failure that says that the type does not allow the length and decimal
/// count, or that the columns have become too many or too wide.
pub open spec fn with_field(
    b: BuilderModel,
    name: Seq<u8>,
    field_type: FieldType,
    length: nat,
    decimal_count: nat,
) -> Result<BuilderModel, Failure> {
    let field = FieldSpec { name, field_type, length, decimal_count, flags: 0 };
    if !field_type.allows(length as int, decimal_count as int) {
        Err(Failure::Message(INVALID_WIDTH@))
    } else if !is_schema(b.fields.push(field)) {
        Err(Failure::Message(TOO_MANY_FIELDS@))
    } else {
        Ok(BuilderModel { fields: b.fields.push(field), ..b })
    }
}

/// The schema of a table that is going to be written.
pub struct TableWriterBuilder {
    last_update: LastUpdate,
    memo_kind: MemoKind,
    fields: Vec<FieldInfo>,
}

impl View for TableWriterBuilder {
    type V = BuilderModel;

    closed spec fn view(&self) -> BuilderModel {
        BuilderModel {
            last_update: self.last_update,
            memo_kind: self.memo_kind,
            fields: field_specs(self.fields@),
        }
    }
}

/// The result of adding a column, as contracts speak of it.
pub open spec fn outcome_builder(r: Result<TableWriterBuilder, Error>) -> Result<
    BuilderModel,
    Failure,
> {
    match r {
        Ok(b) => Ok(b@),
        Err(e) => Err(e@),
    }
}

/// Whether one of the columns is a Memo column.
pub fn any_memo_field(fields: &Vec<FieldInfo>) -> (found: bool)
    ensures
        found == has_memo_field(field_specs(fields@)),
{
    let ghost specs = field_specs(fields@);
    let mut i: usize = 0;
    while i < fields.len()
        invariant
            i <= fields@.len(),
            specs == field_specs(fields@),
            forall|j: int| 0 <= j < i ==> (#[trigger] specs[j]).field_type != FieldType::Memo,
        decreases fields@.len() - i,
    {
        assert(specs[i as int] == fields@[i as int]@);
        if fields[i].field_type() == FieldType::Memo {
            return true;
        }
        i = i + 1;
    }
    false
}

impl TableWriterBuilder {
    #[verifier::type_invariant]
    closed spec fn inv(self) -> bool {
        is_schema(field_specs(self.fields@))
    }

    /// A schema without columns. The day of the last change is left at
    /// zero, and texts of Memo fields go to a memo file in the classic
    /// layout.
    pub fn new() -> (b: TableWriterBuilder)
        ensures
            b@ == (BuilderModel {
                last_update: LastUpdate { years_since_1900: 0, month: 0, day: 0 },
                memo_kind: MemoKind::Classic,
                fields: Seq::empty(),
            }),
            is_schema(b@.fields),
    {
        let fields: Vec<FieldInfo> = Vec::new();
        assert(field_specs(fields@) =~= Seq::<FieldSpec>::empty());
        assert(crate::header::slots_length(Seq::<FieldSpec>::empty()) == 0);
        TableWriterBuilder {
            last_update: LastUpdate { years_since_1900: 0, month: 0, day: 0 },
            memo_kind: MemoKind::Classic,
            fields,
        }
    }

    /// The schema of the table that `reader` reads, its day of the last
    /// change, and the memo layout that its signature announces, or the
    /// classic one.
    pub fn from_reader(reader: &Reader) -> (b: TableWriterBuilder)
        ensures
            b@ == (BuilderModel {
                last_update: reader.spec_header().last_update,
                memo_kind: match crate::header::spec_memo_kind(reader.spec_header().version) {
                    Some(kind) => kind,
                    None => MemoKind::Classic,
                },
                fields: reader.spec_header().fields,
            }),
            is_schema(b@.fields),
    {
        let header = reader.header();
        let memo_kind = match header.memo_kind() {
            Some(kind) => kind,
            None => MemoKind::Classic,
        };
        TableWriterBuilder {
            last_update: header.last_update(),
            memo_kind,
            fields: clone_fields(header.fields()),
        }
    }

    /// The same schema with another day of the last change.
    pub fn with_last_update(self, last_update: LastUpdate) -> (b: TableWriterBuilder)
        ensures
            b@ == (BuilderModel { last_update, ..self@ }),
    {
        proof {
            use_type_invariant(&self);
        }
        TableWriterBuilder { last_update, memo_kind: self.memo_kind, fields: self.fields }
    }

    /// The same schema with another layout for the memo file. Memo columns
    /// that are added from now on have the length that suits it.
    pub fn with_memo_kind(self, memo_kind: MemoKind) -> (b: TableWriterBuilder)
        ensures
            b@ == (BuilderModel { memo_kind, ..self@ }),
    {
        proof {
            use_type_invariant(&self);
        }
        TableWriterBuilder { last_update: self.last_update, memo_kind, fields: self.fields }
    }

    /// The columns so far.
    pub fn fields(&self) -> (fields: &Vec<FieldInfo>)
        ensures
            field_specs(fields@) == self@.fields,
            is_schema(self@.fields),
    {
        proof {
            use_type_invariant(self);
        }
        &self.fields
    }

    /// Adds the column `info` behind the others.
    pub fn add_field(self, info: FieldInfo) -> (r: Result<TableWriterBuilder, Error>)
        ensures
            outcome_builder(r) == if is_schema(self@.fields.push(info@)) {
                Ok::<BuilderModel, Failure>(
                    BuilderModel { fields: self@.fields.push(info@), ..self@ },
                )
            } else {
                Err(Failure::Message(TOO_MANY_FIELDS@))
            },
    {
        let last_update = self.last_update;
        let memo_kind = self.memo_kind;
        let mut fields = self.fields;
        fields.push(info);
        assert(field_specs(fields@) =~= self@.fields.push(info@));
        match measure(&fields) {
            None => Err(Error::message(TOO_MANY_FIELDS)),
            Some(_) => Ok(TableWriterBuilder { last_update, memo_kind, fields }),
        }
    }

    /// Adds a column of the given type, length and decimal count.
    pub fn add_typed_field(
        self,
        name: FieldName,
        field_type: FieldType,
        length: u8,
        decimal_count: u8,
    ) -> (r: Result<TableWriterBuilder, Error>)
        ensures
            outcome_builder(r) == with_field(
                self@,
                name@,
                field_type,
                length as nat,
                decimal_count as nat,
            ),
    {
        let info = FieldInfo::new(name, field_type, length, decimal_count)?;
        self.add_field(info)
    }

    /// Adds a Character column of `length` bytes.
    pub fn add_character_field(self, name: FieldName, length: u8) -> (r: Result<
        TableWriterBuilder,
        Error,
    >)
        ensures
            outcome_builder(r) == with_field(
                self@,
                name@,
                FieldType::Character,
                length as nat,
                0,
            ),
    {
        self.add_typed_field(name, FieldType::Character, length, 0)
    }

    /// Adds a Numeric column of `length` bytes, `decimal_count` of them
    /// behind the point.
    pub fn add_numeric_field(self, name: FieldName, length: u8, decimal_count: u8) -> (r: Result<
        TableWriterBuilder,
        Error,
    >)
        ensures
            outcome_builder(r) == with_field(
                self@,
                name@,
                FieldType::Numeric,
                length as nat,
                decimal_count as nat,
            ),
    {
        self.add_typed_field(name, FieldType::Numeric, length, decimal_count)
    }

    /// Adds a Float column of `length` bytes, `decimal_count` of them
    /// behind the point.
    pub fn add_float_field(self, name: FieldName, length: u8, decimal_count: u8) -> (r: Result<
        TableWriterBuilder,
        Error,
    >)
        ensures
            outcome_builder(r) == with_field(
                self@,
                name@,
                FieldType::Float,
                length as nat,
                decimal_count as nat,
            ),
    {
        self.add_typed_field(name, FieldType::Float, length, decimal_count)
    }

    /// Adds a Logical column.
    pub fn add_logical_field(self, name: FieldName) -> (r: Result<TableWriterBuilder, Error>)
        ensures
            outcome_builder(r) == with_field(self@, name@, FieldType::Logical, 1, 0),
    {
        self.add_typed_field(name, FieldType::Logical, 1, 0)
    }

    /// Adds a Date column.
    pub fn add_date_field(self, name: FieldName) -> (r: Result<TableWriterBuilder, Error>)
        ensures
            outcome_builder(r) == with_field(self@, name@, FieldType::Date, 8, 0),
    {
        self.add_typed_field(name, FieldType::Date, 8, 0)
    }

    /// Adds a DateTime column.
    pub fn add_datetime_field(self, name: FieldName) -> (r: Result<TableWriterBuilder, Error>)
        ensures
            outcome_builder(r) == with_field(self@, name@, FieldType::DateTime, 8, 0),
    {
        self.add_typed_field(name, FieldType::DateTime, 8, 0)
    }

    /// Adds an Integer column.
    pub fn add_integer_field(self, name: FieldName) -> (r: Result<TableWriterBuilder, Error>)
        ensures
            outcome_builder(r) == with_field(self@, name@, FieldType::Integer, 4, 0),
    {
        self.add_typed_field(name, FieldType::Integer, 4, 0)
    }

    /// Adds a Double column.
    pub fn add_double_field(self, name: FieldName) -> (r: Result<TableWriterBuilder, Error>)
        ensures
            outcome_builder(r) == with_field(self@, name@, FieldType::Double, 8, 0),
    {
        self.add_typed_field(name, FieldType::Double, 8, 0)
    }

    /// Adds a Currency column.
    pub fn add_currency_field(self, name: FieldName) -> (r: Result<TableWriterBuilder, Error>)
        ensures
            outcome_builder(r) == with_field(self@, name@, FieldType::Currency, 8, 0),
    {
        self.add_typed_field(name, FieldType::Currency, 8, 0)
    }

    /// Adds a Memo column, as long as the layout of the memo file asks.
    pub fn add_memo_field(self, name: FieldName) -> (r: Result<TableWriterBuilder, Error>)
        ensures
            outcome_builder(r) == with_field(
                self@,
                name@,
                FieldType::Memo,
                memo_field_length(self@.memo_kind),
                0,
            ),
    {
        let length: u8 = match self.memo_kind {
            MemoKind::Classic => 10,
            MemoKind::FoxPro => 4,
        };
        self.add_typed_field(name, FieldType::Memo, length, 0)
    }

    /// The writer of a table with this schema that hands its pieces out one
    /// by one, and the first of them: the header, with a count of zero
    /// records. A new memo file is there if a column is a Memo column.
    pub fn build_stream(self) -> (r: (StreamWriter, Vec<u8>))
        ensures
            r.0.wf(),
            r.0@ == (TableModel {
                header: HeaderModel {
                    version: version_for(self@.fields, self@.memo_kind),
                    last_update: self@.last_update,
                    record_count: 0,
                    fields: self@.fields,
                },
                body: Seq::empty(),
                memo: if has_memo_field(self@.fields) {
                    Some(new_memo(self@.memo_kind))
                } else {
                    None
                },
            }),
            r.1@ == header_bytes(r.0@.header),
    {
        proof {
            use_type_invariant(&self);
            crate::memo::lemma_new_memo(self.memo_kind);
        }
        let with_memo = any_memo_field(&self.fields);
        let version = if with_memo {
            match self.memo_kind {
                MemoKind::Classic => VERSION_CLASSIC_MEMO,
                MemoKind::FoxPro => VERSION_FOXPRO_MEMO,
            }
        } else {
            VERSION_PLAIN
        };
        let memo = if with_memo {
            Some(MemoFile::new(self.memo_kind))
        } else {
            None
        };
        let header = match Header::new(version, self.last_update, clone_fields(&self.fields)) {
            Ok(header) => header,
            Err(_) => vstd::pervasive::unreached(),
        };
        let mut bytes: Vec<u8> = Vec::new();
        header.write_to(&mut bytes);
        assert(bytes@ =~= header_bytes(header@));
        assert(0 * record_length(header@.fields) == 0);
        let writer = FieldWriter::new(self.fields, Vec::new(), memo);
        (StreamWriter { header, writer, record_count: 0, body: Ghost(Seq::empty()) }, bytes)
    }

    /// The writer of a table with this schema that keeps the table until it
    /// is whole. A new memo file is there if a column is a Memo column.
    pub fn build(self) -> (writer: TableWriter)
        ensures
            writer.wf(),
            writer@ == (TableModel {
                header: HeaderModel {
                    version: version_for(self@.fields, self@.memo_kind),
                    last_update: self@.last_update,
                    record_count: 0,
                    fields: self@.fields,
                },
                body: Seq::empty(),
                memo: if has_memo_field(self@.fields) {
                    Some(new_memo(self@.memo_kind))
                } else {
                    None
                },
            }),
    {
        let (stream, bytes) = self.build_stream();
        assert(bytes@ + Seq::<u8>::empty() =~= bytes@);
        TableWriter { stream, bytes }
    }
}

/// A table that is being written, as plain values: the header with the
/// count of the records written so far, the bytes of those records, and the
/// memo file.
pub struct TableModel {
    pub header: HeaderModel,
    pub body: Seq<u8>,
    pub memo: Option<MemoModel>,
}

/// The writer of a record that was just opened in a table: the flag of an
/// active record is written, and the first field comes up.
pub open spec fn record_begun(t: TableModel) -> WriterModel {
    WriterModel { fields: t.header.fields, dest: seq![ACTIVE], memo: t.memo, cursor: 0 }
}

/// What closing a record does to a table, once the writing of its fields
/// has ended with `r` and the writer as `after`. A record whose writing
/// failed, or ended before every field had its value, is taken back: the
/// table keeps the records that it had, and the memo file the texts that
/// got there. Any other record is counted and stands behind the others.
pub open spec fn record_closed(t: TableModel, r: Result<(), Failure>, after: WriterModel) -> (
    Result<(), Failure>,
    TableModel,
) {
    let kept = TableModel { memo: after.memo, ..t };
    match r {
        Err(failure) => (Err(failure), kept),
        Ok(_) => if after.cursor < t.header.fields.len() {
            (Err(Failure::NotEnoughFields), kept)
        } else {
            (
                Ok(()),
                TableModel {
                    header: HeaderModel {
                        record_count: (t.header.record_count + 1) as u32,
                        ..t.header
                    },
                    body: t.body + after.dest,
                    memo: after.memo,
                },
            )
        },
    }
}

/// What writing one record does to a table. The values are written one
/// after the other to a record with the flag of an active record. Where one
/// of them cannot be written, or the values are too few, the table keeps the
/// records that it had, and the memo file the texts that got there.
pub open spec fn record_written(t: TableModel, values: Seq<ValueModel>) -> (
    Result<(), Failure>,
    TableModel,
) {
    if t.header.record_count == u32::MAX {
        (Err(Failure::Message(TOO_MANY_RECORDS@)), t)
    } else {
        let (r, after) = values_written(record_begun(t), values, values.len());
        record_closed(t, r, after)
    }
}

/// Whether writing `record` to a table that is as `t` can end with `result`
/// and the table as `end`: a table that holds as many records as a header
/// can count takes no more; in any other the record is opened, writes its
/// fields as it says that it does, and is closed.
pub open spec fn record_written_by<R: WritableRecord>(
    t: TableModel,
    record: R,
    result: Result<(), Failure>,
    end: TableModel,
) -> bool {
    if t.header.record_count == u32::MAX {
        result == Err::<(), Failure>(Failure::Message(TOO_MANY_RECORDS@)) && end == t
    } else {
        exists|r: Result<(), Failure>, after: WriterModel|
            #![trigger record.writes(record_begun(t), r, after)]
            record.writes(record_begun(t), r, after) && continues(record_begun(t), after) && (
            result,
            end,
        ) == record_closed(t, r, after)
    }
}

/// Whether writing the first `count` of `records` to a table that is as `t`
/// can end with `result` and the table as `end`: all but the last of them
/// were written, and the last one ended so.
pub open spec fn records_written_by<R: WritableRecord>(
    t: TableModel,
    records: Seq<R>,
    count: nat,
    result: Result<(), Failure>,
    end: TableModel,
) -> bool
    decreases count,
{
    if count == 0 {
        result == Ok::<(), Failure>(()) && end == t
    } else {
        exists|mid: TableModel|
            #![trigger record_written_by(mid, records[count - 1], result, end)]
            records_written_by(t, records, (count - 1) as nat, Ok(()), mid) && record_written_by(
                mid,
                records[count - 1],
                result,
                end,
            )
    }
}

/// What writing the first `count` of some rows does, one after the other up
/// to the first that fails.
pub open spec fn rows_written(t: TableModel, rows: Seq<Seq<ValueModel>>, count: nat) -> (
    Result<(), Failure>,
    TableModel,
)
    decreases count,
{
    if count == 0 {
        (Ok(()), t)
    } else {
        let (r, mid) = rows_written(t, rows, (count - 1) as nat);
        match r {
            Err(failure) => (Err(failure), mid),
            Ok(_) => record_written(mid, rows[count - 1]),
        }
    }
}

/// Records that were written, and one more behind them that ended with
/// `result`, are records of which the last ended with `result`.
pub proof fn lemma_records_written_by_next<R: WritableRecord>(
    t: TableModel,
    records: Seq<R>,
    count: nat,
    mid: TableModel,
    result: Result<(), Failure>,
    end: TableModel,
)
    requires
        count < records.len(),
        records_written_by(t, records, count, Ok::<(), Failure>(()), mid),
        record_written_by(mid, records[count as int], result, end),
    ensures
        records_written_by(t, records, (count + 1) as nat, result, end),
{
    let next = (count + 1) as nat;
    assert((next - 1) as nat == count);
    assert(records[next - 1] == records[count as int]);
    assert(records_written_by(t, records, (next - 1) as nat, Ok::<(), Failure>(()), mid));
    assert(record_written_by(mid, records[next - 1], result, end));
}

/// Whether `end` is `start` with `count` more records: the same header but
/// for the count, the records that were there still there, behind them
/// `count` records with the flag of an active record, and a memo file that
/// has only grown.
pub open spec fn grew_by(start: TableModel, end: TableModel, count: nat) -> bool {
    let length = record_length(start.header.fields);
    &&& start.header.record_count + count <= u32::MAX
    &&& end.header == (HeaderModel {
        record_count: (start.header.record_count + count) as u32,
        ..start.header
    })
    &&& end.body.len() == start.body.len() + count * length
    &&& forall|i: int| 0 <= i < start.body.len() ==> end.body[i] == start.body[i]
    &&& forall|k: int|
        0 <= k < count ==> #[trigger] end.body[start.body.len() + k * length] == ACTIVE
    &&& grown(start.memo, end.memo)
}

/// One more record behind some more records is one record more.
pub proof fn lemma_grew_by_one_more(start: TableModel, mid: TableModel, end: TableModel, count: nat)
    requires
        grew_by(start, mid, count),
        grew_by(mid, end, 1),
    ensures
        grew_by(start, end, count + 1),
{
    let length = record_length(start.header.fields) as int;
    assert((count + 1) * length == count * length + length) by (nonlinear_arith);
    assert(0 * length == 0);
    assert(count * length >= 0) by (nonlinear_arith)
        requires
            length >= 0,
    ;
    assert forall|k: int| 0 <= k < count + 1 implies #[trigger] end.body[start.body.len() + k
        * length] == ACTIVE by {
        if k < count {
            assert(k * length + length <= count * length) by (nonlinear_arith)
                requires
                    0 <= k < count,
                    length >= 0,
            ;
            assert(k * length >= 0) by (nonlinear_arith)
                requires
                    0 <= k,
                    length >= 0,
            ;
            assert(mid.body[start.body.len() + k * length] == ACTIVE);
        } else {
            assert(end.body[mid.body.len() + 0 * length] == ACTIVE);
        }
    }
}

/// The bytes of a table: the header, the records, and the end-of-file byte.
pub open spec fn table_bytes(t: TableModel) -> Seq<u8> {
    header_bytes(t.header) + t.body + seq![END_OF_FILE]
}

/// A table that was written: its bytes, and its memo file if it has one.
#[derive(Debug, PartialEq, Eq)]
pub struct Table {
    pub bytes: Vec<u8>,
    pub memo: Option<MemoFile>,
}

/// The header with a count of zero records.
pub open spec fn blank(h: HeaderModel) -> HeaderModel {
    HeaderModel { record_count: 0, ..h }
}

/// The header of a table differs from the header with a count of zero only
/// in the four bytes of the count.
pub proof fn lemma_header_count(h: HeaderModel)
    requires
        h.wf(),
    ensures
        header_bytes(h) == header_bytes(blank(h)).take(4) + le_bytes_u32(h.record_count)
            + header_bytes(blank(h)).skip(8),
        header_bytes(h).len() == header_length(h.fields),
        header_bytes(blank(h)).len() == header_length(h.fields),
{
    lemma_descriptors_len(h.fields);
    lemma_le_u32_round_trip(h.record_count);
    lemma_le_u32_round_trip(0);
    let a = header_bytes(h);
    let b = header_bytes(blank(h));
    let c = b.take(4) + le_bytes_u32(h.record_count) + b.skip(8);
    assert(prefix_bytes(h).len() == 32);
    assert(prefix_bytes(blank(h)).len() == 32);
    assert(a.len() == c.len());
    assert forall|i: int| 0 <= i < a.len() implies a[i] == c[i] by {
        if i < 32 {
            assert(a[i] == prefix_bytes(h)[i]);
            if i < 4 {
                assert(c[i] == b[i]);
                assert(b[i] == prefix_bytes(blank(h))[i]);
            } else if i < 8 {
                assert(c[i] == le_bytes_u32(h.record_count)[i - 4]);
            } else {
                assert(c[i] == b[i]);
                assert(b[i] == prefix_bytes(blank(h))[i]);
            }
        } else {
            assert(c[i] == b[i]);
        }
    }
    assert(a =~= c);
}

/// A table that is written piece by piece. The header goes out first, with a
/// count of zero records; each record goes out when it is written; and at
/// the end comes the header with the count of the records, to be put in the
/// place of the first, which is the one step back in the whole writing. The
/// pieces are handed out as bytes: where they go is the caller's affair.
pub struct StreamWriter {
    header: Header,
    writer: FieldWriter,
    record_count: u32,
    body: Ghost<Seq<u8>>,
}

impl View for StreamWriter {
    type V = TableModel;

    /// The table that the pieces handed out so far make.
    closed spec fn view(&self) -> TableModel {
        TableModel {
            header: HeaderModel { record_count: self.record_count, ..self.header@ },
            body: self.body@,
            memo: self.writer@.memo,
        }
    }
}

/// The result of writing a record that is handed out, as contracts speak of
/// it.
pub open spec fn outcome_piece(r: Result<Vec<u8>, Error>) -> Result<(), Failure> {
    match r {
        Ok(_) => Ok(()),
        Err(e) => Err(e@),
    }
}

impl StreamWriter {
    /// What every writer that the library hands out satisfies, and what its
    /// methods ask for and keep.
    pub closed spec fn wf(&self) -> bool {
        &&& self.writer.wf()
        &&& self.header@.wf()
        &&& self.header@.record_count == 0
        &&& self.writer@.fields == self.header@.fields
        &&& self.writer@.cursor == self.header@.fields.len()
        &&& self.writer@.dest.len() == 0
        &&& self.body@.len() == self.record_count * record_length(self.header@.fields)
    }

    /// What a well-formed writer gives away of itself.
    pub proof fn lemma_wf(&self)
        requires
            self.wf(),
        ensures
            self@.header.wf(),
            self@.body.len() == self@.header.record_count * record_length(self@.header.fields),
            self@.memo matches Some(m) ==> m.wf(),
    {
    }

    /// A table has grown by no record from what it is.
    pub proof fn lemma_same(&self)
        ensures
            grew_by(self@, self@, 0),
    {
        assert(0 * record_length(self@.header.fields) == 0);
    }

    /// The count of the records written so far.
    pub fn record_count(&self) -> (count: u32)
        ensures
            count == self@.header.record_count,
    {
        self.record_count
    }

    /// The header as it is now, which is where record `index` starts and
    /// how long it is.
    pub fn header(&self) -> (header: &Header)
        requires
            self.wf(),
        ensures
            header@ == blank(self@.header),
    {
        &self.header
    }

    /// Hands out the record that was just written if it is whole, and
    /// counts it; takes it back if it is not.
    fn close_record(&mut self, r: Result<(), Error>) -> (done: Result<Vec<u8>, Error>)
        requires
            old(self).writer.wf(),
            old(self).header@.wf(),
            old(self).header@.record_count == 0,
            old(self).record_count < u32::MAX,
            old(self).writer@.fields == old(self).header@.fields,
            old(self).writer@.dest.len() == crate::header::field_offset(
                old(self).header@.fields,
                old(self).writer@.cursor as int,
            ),
            old(self).body@.len() == old(self).record_count * record_length(
                old(self).header@.fields,
            ),
        ensures
            final(self).wf(),
            final(self).header@ == old(self).header@,
            final(self).writer@.memo == old(self).writer@.memo,
            outcome_piece(done) == match r {
                Err(e) => Err::<(), Failure>(e@),
                Ok(_) => if old(self).writer@.cursor < old(self).header@.fields.len() {
                    Err(Failure::NotEnoughFields)
                } else {
                    Ok(())
                },
            },
            done matches Ok(bytes) ==> final(self).record_count == old(self).record_count + 1
                && bytes@ == old(self).writer@.dest && final(self).body@ == old(self).body@
                + bytes@,
            done is Err ==> final(self).record_count == old(self).record_count && final(self).body@
                == old(self).body@,
    {
        let ghost fields = self.header@.fields;
        proof {
            crate::header::lemma_field_offset_ends(fields);
        }
        let whole = self.writer.cursor() == self.writer.fields().len();
        let checked = match r {
            Err(e) => Err(e),
            Ok(()) => if whole {
                Ok(())
            } else {
                Err(Error::NotEnoughFields)
            },
        };
        match checked {
            Ok(()) => {
                proof {
                    assert((self.record_count + 1) * record_length(fields) == self.record_count
                        * record_length(fields) + record_length(fields)) by (nonlinear_arith);
                }
                let bytes = self.writer.take_written();
                self.record_count = self.record_count + 1;
                self.body = Ghost(self.body@ + bytes@);
                Ok(bytes)
            },
            Err(e) => {
                self.writer.rollback(0);
                Err(e)
            },
        }
    }

    /// Writes one record, which `record` writes field by field, and hands it
    /// out. A record that fails, or ends before every field has its value,
    /// is not handed out.
    pub fn write_record<R: WritableRecord>(&mut self, record: &R) -> (r: Result<Vec<u8>, Error>)
        requires
            old(self).wf(),
        ensures
            final(self).wf(),
            old(self)@.header.record_count == u32::MAX ==> (r matches Err(e) && e@
                == Failure::Message(TOO_MANY_RECORDS@)),
            record_written_by(old(self)@, *record, outcome_piece(r), final(self)@),
            r matches Ok(bytes) ==> grew_by(old(self)@, final(self)@, 1) && bytes@.len()
                == record_length(old(self)@.header.fields) && final(self)@.body == old(self)@.body
                + bytes@,
            r is Err ==> grew_by(old(self)@, final(self)@, 0) && final(self)@.body
                == old(self)@.body,
    {
        if self.record_count == u32::MAX {
            proof {
                self.lemma_same();
            }
            return Err(Error::message(TOO_MANY_RECORDS));
        }
        let ghost fields = self.header@.fields;
        let ghost length = record_length(fields) as int;
        let ghost table = self@;
        self.writer.begin_record();
        let ghost begun = self.writer@;
        let r = record.write_using(&mut self.writer);
        let ghost written = outcome_unit(r);
        let ghost after = self.writer@;
        proof {
            crate::header::lemma_field_offset_ends(fields);
            assert(self.writer@.dest[0] == begun.dest[0]);
            assert(0 * length == 0);
            assert(1 * length == length);
            assert(begun.dest =~= seq![ACTIVE]);
            assert(begun == record_begun(table));
            assert(record.writes(record_begun(table), written, after));
        }
        let done = self.close_record(r);
        proof {
            assert((outcome_piece(done), self@) == record_closed(table, written, after));
        }
        done
    }

    /// Writes one record with the values `values`, one for each column, and
    /// hands it out.
    pub fn write_values(&mut self, values: &[FieldValue]) -> (r: Result<Vec<u8>, Error>)
        requires
            old(self).wf(),
        ensures
            final(self).wf(),
            (outcome_piece(r), final(self)@) == record_written(old(self)@, values_model(values@)),
            r matches Ok(bytes) ==> final(self)@.body == old(self)@.body + bytes@,
    {
        if self.record_count == u32::MAX {
            return Err(Error::message(TOO_MANY_RECORDS));
        }
        let ghost fields = self.header@.fields;
        self.writer.begin_record();
        let ghost begun = self.writer@;
        let r = write_values_using(values, &mut self.writer);
        proof {
            crate::header::lemma_field_offset_ends(fields);
            assert(begun.dest =~= seq![ACTIVE]);
        }
        self.close_record(r)
    }

    /// Writes one record with the values of `record`, one for each column,
    /// and hands it out.
    pub fn write_entries(&mut self, record: &Record) -> (r: Result<Vec<u8>, Error>)
        requires
            old(self).wf(),
        ensures
            final(self).wf(),
            (outcome_piece(r), final(self)@) == record_written(
                old(self)@,
                entry_values(record@.entries),
            ),
            r matches Ok(bytes) ==> final(self)@.body == old(self)@.body + bytes@,
    {
        if self.record_count == u32::MAX {
            return Err(Error::message(TOO_MANY_RECORDS));
        }
        let ghost fields = self.header@.fields;
        self.writer.begin_record();
        let ghost begun = self.writer@;
        let r = record.write_using(&mut self.writer);
        proof {
            crate::header::lemma_field_offset_ends(fields);
            assert(begun.dest =~= seq![ACTIVE]);
        }
        self.close_record(r)
    }

    /// Ends the table: hands out the header with the count of the records,
    /// which goes where the first header went, and the memo file. The
    /// end-of-file byte goes behind the last record.
    pub fn finish(self) -> (r: (Vec<u8>, Option<MemoFile>))
        requires
            self.wf(),
        ensures
            r.0@ == header_bytes(self@.header),
            r.0@ + self@.body + seq![END_OF_FILE] == table_bytes(self@),
            memo_model(r.1) == self@.memo,
    {
        let header = self.header.with_record_count(self.record_count);
        let mut bytes: Vec<u8> = Vec::new();
        header.write_to(&mut bytes);
        assert(bytes@ =~= header_bytes(self@.header));
        let (_, memo) = self.writer.into_parts();
        (bytes, memo)
    }
}

/// Rows as plain values.
pub open spec fn rows_model(rows: Seq<Vec<FieldValue>>) -> Seq<Seq<ValueModel>> {
    Seq::new(rows.len(), |i: int| values_model(rows[i]@))
}

/// Once a row cannot be written, nothing changes any more.
pub proof fn lemma_rows_written_fail(
    t: TableModel,
    rows: Seq<Seq<ValueModel>>,
    at: nat,
    count: nat,
)
    requires
        at <= count,
        rows_written(t, rows, at).0 is Err,
    ensures
        rows_written(t, rows, count) == rows_written(t, rows, at),
    decreases count,
{
    if count > at {
        lemma_rows_written_fail(t, rows, at, (count - 1) as nat);
    }
}

/// A table that is being written and kept until it is whole.
pub struct TableWriter {
    stream: StreamWriter,
    bytes: Vec<u8>,
}

impl View for TableWriter {
    type V = TableModel;

    /// The table that has been written so far.
    closed spec fn view(&self) -> TableModel {
        self.stream@
    }
}

impl TableWriter {
    /// The header, with the count of the records written so far.
    pub open spec fn header(&self) -> HeaderModel {
        self@.header
    }

    /// The bytes of the records written so far.
    pub open spec fn body(&self) -> Seq<u8> {
        self@.body
    }

    /// The memo file as it is now.
    pub open spec fn memo(&self) -> Option<MemoModel> {
        self@.memo
    }

    /// What every writer that the library hands out satisfies, and what its
    /// methods ask for and keep: the header is well formed, the records
    /// written so far are as many as it counts, and no record is open.
    pub closed spec fn wf(&self) -> bool {
        &&& self.stream.wf()
        &&& self.bytes@ == header_bytes(blank(self.stream@.header)) + self.stream@.body
    }

    /// What a well-formed writer gives away of itself.
    pub proof fn lemma_wf(&self)
        requires
            self.wf(),
        ensures
            self.header().wf(),
            self.body().len() == self.header().record_count * record_length(self.header().fields),
            self.memo() matches Some(m) ==> m.wf(),
    {
        self.stream.lemma_wf();
    }

    /// The count of the records written so far.
    pub fn record_count(&self) -> (count: u32)
        ensures
            count == self.header().record_count,
    {
        self.stream.record_count()
    }

    /// The columns of the table.
    pub fn fields(&self) -> (fields: &Vec<FieldInfo>)
        requires
            self.wf(),
        ensures
            field_specs(fields@) == self.header().fields,
    {
        self.stream.header().fields()
    }

    /// Writes one record, which `record` writes field by field. A record
    /// that fails, or ends before every field has its value, is taken back:
    /// the table then has the records that it had, and the memo file the
    /// texts that got there.
    pub fn write_record<R: WritableRecord>(&mut self, record: &R) -> (r: Result<(), Error>)
        requires
            old(self).wf(),
        ensures
            final(self).wf(),
            record_written_by(old(self)@, *record, outcome_unit(r), final(self)@),
            r is Ok ==> grew_by(old(self)@, final(self)@, 1),
            r is Err ==> grew_by(old(self)@, final(self)@, 0) && final(self).body()
                == old(self).body(),
    {
        let piece = match self.stream.write_record(record) {
            Ok(piece) => piece,
            Err(e) => {
                return Err(e);
            },
        };
        push_all(&mut self.bytes, piece.as_slice());
        proof {
            let head = header_bytes(blank(old(self).stream@.header));
            assert(self.bytes@ =~= head + (old(self).stream@.body + piece@));
        }
        Ok(())
    }

    /// Writes one record with the values `values`, one for each column.
    pub fn write_values(&mut self, values: &[FieldValue]) -> (r: Result<(), Error>)
        requires
            old(self).wf(),
        ensures
            final(self).wf(),
            (outcome_unit(r), final(self)@) == record_written(old(self)@, values_model(values@)),
    {
        let piece = self.stream.write_values(values)?;
        push_all(&mut self.bytes, piece.as_slice());
        proof {
            let head = header_bytes(blank(old(self).stream@.header));
            assert(self.bytes@ =~= head + (old(self).stream@.body + piece@));
        }
        Ok(())
    }

    /// Ends the table: puts the header with the count of the records where
    /// the first header went, and the end-of-file byte behind the last
    /// record.
    pub fn finish(self) -> (table: Table)
        requires
            self.wf(),
        ensures
            table.bytes@ == table_bytes(self@),
            memo_model(table.memo) == self.memo(),
    {
        let ghost model = self@;
        proof {
            self.stream.lemma_wf();
            lemma_header_count(model.header);
        }
        let mut bytes = self.bytes;
        let (header, memo) = self.stream.finish();
        overwrite(&mut bytes, 0, header.as_slice());
        bytes.push(END_OF_FILE);
        proof {
            let first = header_bytes(blank(model.header));
            assert((first + model.body).skip(first.len() as int) =~= model.body);
            assert(bytes@ =~= table_bytes(model));
        }
        Table { bytes, memo }
    }

    /// Writes the records, each of which writes itself field by field, and
    /// ends the table. The first record that cannot be written ends the
    /// writing, and no table comes back. Where there is nothing to write the
    /// table is ended as it is. The table that comes back is the one that
    /// the records make, each written as it says that it writes itself: the
    /// header counts the records that were there and those that came, each
    /// of which is as long as the header says and active, and the
    /// end-of-file byte stands behind the last.
    pub fn write<R: WritableRecord>(self, records: &[R]) -> (r: Result<Table, Error>)
        requires
            self.wf(),
        ensures
            records@.len() == 0 ==> (r matches Ok(table) && table.bytes@ == table_bytes(self@)
                && memo_model(table.memo) == self.memo()),
            self.header().record_count + records@.len() > u32::MAX ==> r is Err,
            r matches Ok(table) ==> (exists|end: TableModel|
                #![trigger table_bytes(end)]
                records_written_by(
                    self@,
                    records@,
                    records@.len() as nat,
                    Ok::<(), Failure>(()),
                    end,
                ) && grew_by(self@, end, records@.len() as nat) && table.bytes@ == table_bytes(end)
                    && memo_model(table.memo) == end.memo),
            r matches Err(e) ==> (exists|count: nat, end: TableModel|
                #![trigger records_written_by(self@, records@, count, Err::<(), Failure>(e@), end)]
                0 < count <= records@.len() && records_written_by(
                    self@,
                    records@,
                    count,
                    Err::<(), Failure>(e@),
                    end,
                )),
    {
        let mut writer = self;
        let ghost start = writer@;
        let mut i: usize = 0;
        proof {
            writer.stream.lemma_same();
        }
        while i < records.len()
            invariant
                i <= records@.len(),
                writer.wf(),
                start == self@,
                grew_by(start, writer@, i as nat),
                records_written_by(start, records@, i as nat, Ok::<(), Failure>(()), writer@),
                i == 0 ==> writer@ == start,
            decreases records@.len() - i,
        {
            let ghost before = writer@;
            match writer.write_record(&records[i]) {
                Ok(()) => {},
                Err(e) => {
                    proof {
                        lemma_records_written_by_next(
                            start,
                            records@,
                            i as nat,
                            before,
                            Err::<(), Failure>(e@),
                            writer@,
                        );
                    }
                    return Err(e);
                },
            }
            proof {
                lemma_grew_by_one_more(start, before, writer@, i as nat);
                lemma_records_written_by_next(
                    start,
                    records@,
                    i as nat,
                    before,
                    Ok::<(), Failure>(()),
                    writer@,
                );
            }
            i = i + 1;
        }
        let ghost end = writer@;
        let table = writer.finish();
        assert(table.bytes@ == table_bytes(end));
        Ok(table)
    }

    /// Writes the rows, one record each, and ends the table. The first row
    /// that cannot be written ends the writing, and no table comes back.
    pub fn write_rows(self, rows: &[Vec<FieldValue>]) -> (r: Result<Table, Error>)
        requires
            self.wf(),
        ensures
            match rows_written(self@, rows_model(rows@), rows@.len()) {
                (Ok(_), end) => r matches Ok(table) && table.bytes@ == table_bytes(end)
                    && memo_model(table.memo) == end.memo,
                (Err(failure), _) => r matches Err(e) && e@ == failure,
            },
    {
        let mut writer = self;
        let ghost start = writer@;
        let ghost models = rows_model(rows@);
        let mut i: usize = 0;
        while i < rows.len()
            invariant
                i <= rows@.len(),
                writer.wf(),
                start == self@,
                models == rows_model(rows@),
                rows_written(start, models, i as nat) == (Ok::<(), Failure>(()), writer@),
            decreases rows@.len() - i,
        {
            assert(models[i as int] == values_model(rows@[i as int]@));
            match writer.write_values(rows[i].as_slice()) {
                Ok(()) => {},
                Err(e) => {
                    proof {
                        lemma_rows_written_fail(start, models, (i + 1) as nat, rows@.len() as nat);
                    }
                    return Err(e);
                },
            }
            i = i + 1;
        }
        Ok(writer.finish())
    }

    /// Writes one record with the values of `record`, one for each column.
    pub fn write_entries(&mut self, record: &Record) -> (r: Result<(), Error>)
        requires
            old(self).wf(),
        ensures
            final(self).wf(),
            (outcome_unit(r), final(self)@) == record_written(
                old(self)@,
                entry_values(record@.entries),
            ),
    {
        let piece = self.stream.write_entries(record)?;
        push_all(&mut self.bytes, piece.as_slice());
        proof {
            let head = header_bytes(blank(old(self).stream@.header));
            assert(self.bytes@ =~= head + (old(self).stream@.body + piece@));
        }
        Ok(())
    }

    /// Writes the records, one record each, and ends the table. The first
    /// record that cannot be written ends the writing, and no table comes
    /// back.
    pub fn write_records(self, records: &[Record]) -> (r: Result<Table, Error>)
        requires
            self.wf(),
        ensures
            match rows_written(self@, record_rows(records@), records@.len()) {
                (Ok(_), end) => r matches Ok(table) && table.bytes@ == table_bytes(end)
                    && memo_model(table.memo) == end.memo,
                (Err(failure), _) => r matches Err(e) && e@ == failure,
            },
    {
        let mut writer = self;
        let ghost start = writer@;
        let ghost models = record_rows(records@);
        let mut i: usize = 0;
        while i < records.len()
            invariant
                i <= records@.len(),
                writer.wf(),
                start == self@,
                models == record_rows(records@),
                rows_written(start, models, i as nat) == (Ok::<(), Failure>(()), writer@),
            decreases records@.len() - i,
        {
            assert(models[i as int] == entry_values(records@[i as int]@.entries));
            match writer.write_entries(&records[i]) {
                Ok(()) => {},
                Err(e) => {
                    proof {
                        lemma_rows_written_fail(
                            start,
                            models,
                            (i + 1) as nat,
                            records@.len() as nat,
                        );
                    }
                    return Err(e);
                },
            }
            i = i + 1;
        }
        Ok(writer.finish())
    }
}

/// The values that each of some records holds.
pub open spec fn record_rows(records: Seq<Record>) -> Seq<Seq<ValueModel>> {
    Seq::new(records.len(), |i: int| entry_values(records[i]@.entries))
}

} // verus!
