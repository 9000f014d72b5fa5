//! What holds of writing and reading together: a table that was written
//! reads back as the records that went in.

use vstd::prelude::*;
use crate::header::{
    field_offset, header_bytes, header_length, lemma_field_offset_ends, lemma_field_offset_next,
    lemma_header_round_trip, parse_header, record_length, HeaderModel,
};
use crate::memo::{extends, lemma_appended_extends, lemma_extends_keeps_blocks, MemoModel};
use crate::reading::{read_table, record_at, table_record, table_records};
use crate::record::{entries_of, parse_record, record_values, slot_of, RecordModel, ACTIVE};
use crate::schema::{FieldSpec, FieldType};
use crate::table::{record_written, rows_written, table_bytes, TableModel};
use crate::value::{field_value, field_written, memo_ref, ValueModel};
use crate::value_laws::{lemma_field_round_trip, lemma_slot_length, stored};
use crate::writing::{values_written, write_step, WriterModel};
use crate::Failure;

verus! {

/// Whether a memo file has only grown from `earlier` to `later`, where
/// there is one at all.
pub open spec fn memo_grows(earlier: Option<MemoModel>, later: Option<MemoModel>) -> bool {
    match (earlier, later) {
        (None, None) => true,
        (Some(a), Some(b)) => a.wf() && extends(a, b),
        _ => false,
    }
}

/// Whether each of the first `count` values is well formed.
pub open spec fn values_wf(values: Seq<ValueModel>, count: nat) -> bool {
    forall|i: int| 0 <= i < count ==> (#[trigger] values[i]).wf()
}

/// What the first `count` fields give back for the values written to them.
pub open spec fn stored_values(fields: Seq<FieldSpec>, values: Seq<ValueModel>, count: nat) -> Seq<
    ValueModel,
> {
    Seq::new(count, |i: int| stored(fields[i], values[i]))
}

/// The record that a table gives back for the values written as one.
pub open spec fn stored_record(fields: Seq<FieldSpec>, values: Seq<ValueModel>) -> RecordModel {
    RecordModel {
        deleted: false,
        entries: entries_of(fields, stored_values(fields, values, fields.len()), 0),
    }
}

/// The records that a table gives back for the first `count` rows written
/// to it.
pub open spec fn stored_records(fields: Seq<FieldSpec>, rows: Seq<Seq<ValueModel>>, count: nat)
    -> Seq<RecordModel> {
    Seq::new(count, |i: int| stored_record(fields, rows[i]))
}

/// A field has the same value with a memo file that has only grown.
pub proof fn lemma_field_value_grows(
    f: FieldSpec,
    slot: Seq<u8>,
    memo: Option<MemoModel>,
    later: Option<MemoModel>,
)
    requires
        memo_grows(memo, later),
        field_value(f, slot, memo) is Ok,
    ensures
        field_value(f, slot, later) == field_value(f, slot, memo),
{
    if f.field_type == FieldType::Memo {
        match memo_ref(slot) {
            Ok(Some(index)) => {
                lemma_extends_keeps_blocks(memo->Some_0, later->Some_0, index as nat);
            },
            _ => {},
        }
    }
}

/// Writing a value lets the memo file only grow.
pub proof fn lemma_written_grows(f: FieldSpec, v: ValueModel, memo: Option<MemoModel>)
    requires
        f.wf(),
        memo matches Some(m) ==> m.wf(),
        field_written(f, v, memo) is Ok,
    ensures
        memo_grows(memo, field_written(f, v, memo)->Ok_0.1),
        field_written(f, v, memo)->Ok_0.1 matches Some(m) ==> m.wf(),
{
    lemma_slot_length(f, v, memo);
    match v {
        ValueModel::Memo(Some(t)) => {
            lemma_appended_extends(memo->Some_0, vstd::utf8::encode_utf8(t));
        },
        _ => {},
    }
}

/// Growing and growing again is growing.
pub proof fn lemma_memo_grows_chain(
    a: Option<MemoModel>,
    b: Option<MemoModel>,
    c: Option<MemoModel>,
)
    requires
        memo_grows(a, b),
        memo_grows(b, c),
    ensures
        memo_grows(a, c),
{
}

/// The values of the fields up to one depend on the bytes up to the end of
/// its slot only.
pub proof fn lemma_record_values_prefix(
    fields: Seq<FieldSpec>,
    a: Seq<u8>,
    b: Seq<u8>,
    memo: Option<MemoModel>,
    to: nat,
)
    requires
        to <= fields.len(),
        field_offset(fields, to as int) <= a.len(),
        field_offset(fields, to as int) <= b.len(),
        forall|i: int| 0 <= i < field_offset(fields, to as int) ==> a[i] == b[i],
    ensures
        record_values(fields, a, memo, 0, to) == record_values(fields, b, memo, 0, to),
    decreases to,
{
    if to > 0 {
        lemma_field_offset_next(fields, to - 1);
        lemma_record_values_prefix(fields, a, b, memo, (to - 1) as nat);
        assert(slot_of(fields, a, to - 1) =~= slot_of(fields, b, to - 1));
    }
}

/// The fields that were written hold, for every memo file that the one
/// after the writing grows into, the values that they store for what was
/// written.
pub proof fn lemma_values_round_trip(
    w: WriterModel,
    values: Seq<ValueModel>,
    count: nat,
    later: Option<MemoModel>,
)
    requires
        w.wf(),
        w.cursor == 0,
        w.dest.len() == 1,
        values_wf(values, count),
        values_written(w, values, count).0 is Ok,
        memo_grows(values_written(w, values, count).1.memo, later),
    ensures
        ({
            let after = values_written(w, values, count).1;
            &&& after.fields == w.fields
            &&& after.cursor == count
            &&& count <= w.fields.len()
            &&& after.dest.len() == field_offset(w.fields, count as int)
            &&& after.dest[0] == w.dest[0]
            &&& memo_grows(w.memo, after.memo)
            &&& (after.memo matches Some(m) ==> m.wf())
            &&& record_values(w.fields, after.dest, later, 0, count) == Ok::<
                Seq<ValueModel>,
                Failure,
            >(stored_values(w.fields, values, count))
        }),
    decreases count,
{
    let after = values_written(w, values, count).1;
    if count == 0 {
        lemma_field_offset_ends(w.fields);
        assert(stored_values(w.fields, values, 0) =~= Seq::<ValueModel>::empty());
    } else {
        let k = (count - 1) as nat;
        let (r, mid) = values_written(w, values, k);
        let f = w.fields[k as int];
        let v = values[k as int];
        assert(r is Ok);
        assert(values_wf(values, k));
        assert(v.wf());
        assert(write_step(mid, v) == (Ok::<(), Failure>(()), after));
        lemma_values_round_trip_mid(w, values, k);
        assert(f.wf());
        // The memo file grows from the fields before this one over this one
        // to `later`, so what holds of them with `later` holds by induction.
        lemma_written_grows(f, v, mid.memo);
        lemma_memo_grows_chain(mid.memo, after.memo, later);
        lemma_values_round_trip(w, values, k, later);
        lemma_field_offset_next(w.fields, k as int);
        lemma_field_round_trip(f, v, mid.memo);
        let slot = field_written(f, v, mid.memo)->Ok_0.0;
        assert(after.dest == mid.dest + slot);
        lemma_record_values_prefix(w.fields, mid.dest, after.dest, later, k);
        assert(slot_of(w.fields, after.dest, k as int) =~= slot);
        lemma_field_value_grows(f, slot, after.memo, later);
        lemma_memo_grows_chain(w.memo, mid.memo, after.memo);
        assert(stored_values(w.fields, values, count) =~= stored_values(w.fields, values, k).push(
            stored(f, v),
        ));
    }
}

/// After some values were written, the writer is as well formed as before,
/// and at the field behind them.
pub proof fn lemma_values_round_trip_mid(w: WriterModel, values: Seq<ValueModel>, count: nat)
    requires
        w.wf(),
        w.cursor == 0,
        values_written(w, values, count).0 is Ok,
    ensures
        values_written(w, values, count).1.wf(),
        values_written(w, values, count).1.fields == w.fields,
        values_written(w, values, count).1.cursor == count,
    decreases count,
{
    if count > 0 {
        let k = (count - 1) as nat;
        lemma_values_round_trip_mid(w, values, k);
        let mid = values_written(w, values, k).1;
        let f = w.fields[k as int];
        assert(f.wf());
        lemma_slot_length(f, values[k as int], mid.memo);
    }
}

/// A record that was written reads back, with every memo file that the one
/// after the writing grows into, as the values that its fields store for
/// what was written.
pub proof fn lemma_record_round_trip(
    t: TableModel,
    values: Seq<ValueModel>,
    later: Option<MemoModel>,
)
    requires
        t.header.wf(),
        t.memo matches Some(m) ==> m.wf(),
        values_wf(values, values.len()),
        record_written(t, values).0 is Ok,
        memo_grows(record_written(t, values).1.memo, later),
    ensures
        ({
            let after = record_written(t, values).1;
            let fields = t.header.fields;
            &&& after.header == (HeaderModel {
                record_count: (t.header.record_count + 1) as u32,
                ..t.header
            })
            &&& t.header.record_count < u32::MAX
            &&& after.body.len() == t.body.len() + record_length(fields)
            &&& after.body.take(t.body.len() as int) == t.body
            &&& memo_grows(t.memo, after.memo)
            &&& (after.memo matches Some(m) ==> m.wf())
            &&& parse_record(fields, after.body.skip(t.body.len() as int), later) == Ok::<
                RecordModel,
                Failure,
            >(stored_record(fields, values))
        }),
{
    let fields = t.header.fields;
    let begun = WriterModel { fields, dest: seq![ACTIVE], memo: t.memo, cursor: 0 };
    let (r, end) = values_written(begun, values, values.len());
    let after = record_written(t, values).1;
    lemma_values_round_trip_mid(begun, values, values.len());
    assert(values.len() == fields.len());
    lemma_values_round_trip(begun, values, values.len(), later);
    lemma_field_offset_ends(fields);
    assert(after.body == t.body + end.dest);
    assert(after.body.take(t.body.len() as int) =~= t.body);
    assert(after.body.skip(t.body.len() as int) =~= end.dest);
    assert(end.dest[0] == ACTIVE);
}

/// The records of a table depend on the bytes of the records only.
pub proof fn lemma_table_records_same(
    a: Seq<u8>,
    b: Seq<u8>,
    h: HeaderModel,
    memo: Option<MemoModel>,
    count: nat,
)
    requires
        h.header_length() + count * h.record_length() <= a.len(),
        h.header_length() + count * h.record_length() <= b.len(),
        forall|i: int|
            h.header_length() <= i < h.header_length() + count * h.record_length() ==> a[i]
                == b[i],
    ensures
        table_records(a, h, memo, count) == table_records(b, h, memo, count),
    decreases count,
{
    if count > 0 {
        let k = (count - 1) as nat;
        assert(count * h.record_length() == k * h.record_length() + h.record_length())
            by (nonlinear_arith)
            requires
                count == k + 1,
        ;
        assert(k * h.record_length() >= 0) by (nonlinear_arith);
        lemma_table_records_same(a, b, h, memo, k);
        let start = (h.header_length() + k * h.record_length()) as int;
        assert(a.subrange(start, start + h.record_length()) =~= b.subrange(
            start,
            start + h.record_length(),
        ));
    }
}

/// The records of a table are the same with a memo file that has only
/// grown.
pub proof fn lemma_table_records_grow(
    table: Seq<u8>,
    h: HeaderModel,
    memo: Option<MemoModel>,
    later: Option<MemoModel>,
    count: nat,
)
    requires
        memo_grows(memo, later),
        table_records(table, h, memo, count) is Ok,
    ensures
        table_records(table, h, later, count) == table_records(table, h, memo, count),
    decreases count,
{
    if count > 0 {
        let k = (count - 1) as nat;
        lemma_table_records_grow(table, h, memo, later, k);
        let record = record_at(table, h, k)->Some_0;
        lemma_record_values_grow(h.fields, record, memo, later, h.fields.len());
    }
}

/// The values of a record are the same with a memo file that has only
/// grown.
pub proof fn lemma_record_values_grow(
    fields: Seq<FieldSpec>,
    record: Seq<u8>,
    memo: Option<MemoModel>,
    later: Option<MemoModel>,
    to: nat,
)
    requires
        memo_grows(memo, later),
        record_values(fields, record, memo, 0, to) is Ok,
    ensures
        record_values(fields, record, later, 0, to) == record_values(fields, record, memo, 0, to),
    decreases to,
{
    if to > 0 {
        lemma_record_values_grow(fields, record, memo, later, (to - 1) as nat);
        lemma_field_value_grows(
            fields[to - 1],
            slot_of(fields, record, to - 1),
            memo,
            later,
        );
    }
}

/// The record that was written last reads back, from any bytes that hold
/// the records where the header says, as the record that the table stores
/// for it.
pub proof fn lemma_last_row_round_trip(
    mid: TableModel,
    values: Seq<ValueModel>,
    table: Seq<u8>,
    index: nat,
)
    requires
        mid.header.wf(),
        mid.memo matches Some(m) ==> m.wf(),
        values_wf(values, values.len()),
        record_written(mid, values).0 is Ok,
        mid.body.len() == index * record_length(mid.header.fields),
        ({
            let end = record_written(mid, values).1;
            &&& mid.header.header_length() + end.body.len() <= table.len()
            &&& forall|i: int|
                0 <= i < end.body.len() ==> table[mid.header.header_length() + i] == end.body[i]
        }),
    ensures
        ({
            let end = record_written(mid, values).1;
            &&& end.body.len() == (index + 1) * record_length(mid.header.fields)
            &&& memo_grows(mid.memo, end.memo)
            &&& (end.memo matches Some(m) ==> m.wf())
            &&& table_record(table, mid.header, end.memo, index) == Ok::<RecordModel, Failure>(
                stored_record(mid.header.fields, values),
            )
        }),
{
    let end = record_written(mid, values).1;
    let h = mid.header;
    let rl = record_length(h.fields);
    let begun = WriterModel { fields: h.fields, dest: seq![ACTIVE], memo: mid.memo, cursor: 0 };
    lemma_values_round_trip_mid(begun, values, values.len());
    assert(end.memo matches Some(m) ==> m.wf());
    assert(memo_grows(end.memo, end.memo));
    lemma_record_round_trip(mid, values, end.memo);
    assert((index + 1) * rl == index * rl + rl) by (nonlinear_arith);
    let start = (h.header_length() + index * h.record_length()) as int;
    assert(table.subrange(start, start + rl) =~= end.body.skip(mid.body.len() as int));
}

/// The rows that were written read back, from any bytes that hold the
/// records where the header says and with the memo file as it is after the
/// writing, as the records that the table stores for them.
pub proof fn lemma_rows_round_trip(
    t: TableModel,
    rows: Seq<Seq<ValueModel>>,
    count: nat,
    table: Seq<u8>,
)
    requires
        t.header.wf(),
        t.header.record_count == 0,
        t.body.len() == 0,
        t.memo matches Some(m) ==> m.wf(),
        forall|i: int| 0 <= i < count ==> values_wf(#[trigger] rows[i], rows[i].len()),
        rows_written(t, rows, count).0 is Ok,
        ({
            let end = rows_written(t, rows, count).1;
            &&& t.header.header_length() + end.body.len() <= table.len()
            &&& forall|i: int|
                0 <= i < end.body.len() ==> table[t.header.header_length() + i] == end.body[i]
        }),
    ensures
        ({
            let end = rows_written(t, rows, count).1;
            &&& end.header == (HeaderModel { record_count: count as u32, ..t.header })
            &&& count <= u32::MAX
            &&& end.body.len() == count * record_length(t.header.fields)
            &&& memo_grows(t.memo, end.memo)
            &&& (end.memo matches Some(m) ==> m.wf())
            &&& table_records(table, t.header, end.memo, count) == Ok::<
                Seq<RecordModel>,
                Failure,
            >(stored_records(t.header.fields, rows, count))
        }),
    decreases count,
{
    let fields = t.header.fields;
    let h = t.header;
    let end = rows_written(t, rows, count).1;
    if count == 0 {
        assert(stored_records(fields, rows, 0) =~= Seq::<RecordModel>::empty());
        assert(0 * record_length(fields) == 0);
    } else {
        let k = (count - 1) as nat;
        let mid = rows_written(t, rows, k).1;
        let values = rows[k as int];
        assert(rows_written(t, rows, k).0 is Ok);
        assert(record_written(mid, values) == (Ok::<(), Failure>(()), end));
        assert(values_wf(values, values.len()));
        lemma_rows_shape(t, rows, k);
        // The last record lies behind the others, which are where they were.
        let begun = WriterModel { fields, dest: seq![ACTIVE], memo: mid.memo, cursor: 0 };
        assert(end.body == mid.body + values_written(begun, values, values.len()).1.dest);
        assert forall|i: int| 0 <= i < mid.body.len() implies table[h.header_length() + i]
            == mid.body[i] by {
            assert(end.body[i] == mid.body[i]);
        }
        lemma_rows_round_trip(t, rows, k, table);
        assert(mid.header.fields == fields);
        lemma_last_row_round_trip(mid, values, table, k);
        lemma_memo_grows_chain(t.memo, mid.memo, end.memo);
        lemma_table_records_grow(table, h, mid.memo, end.memo, k);
        lemma_table_records_header(table, h, mid.header, end.memo, k);
        assert(table_record(table, h, end.memo, k) == table_record(table, mid.header, end.memo, k));
        assert(stored_records(fields, rows, count) =~= stored_records(fields, rows, k).push(
            stored_record(fields, values),
        ));
    }
}

/// After some rows were written, the table has the header that it had, but
/// for the count, and a memo file that is well formed.
pub proof fn lemma_rows_shape(t: TableModel, rows: Seq<Seq<ValueModel>>, count: nat)
    requires
        t.header.wf(),
        t.memo matches Some(m) ==> m.wf(),
        rows_written(t, rows, count).0 is Ok,
    ensures
        rows_written(t, rows, count).1.header.fields == t.header.fields,
        rows_written(t, rows, count).1.header.wf(),
        rows_written(t, rows, count).1.memo matches Some(m) ==> m.wf(),
    decreases count,
{
    if count > 0 {
        let k = (count - 1) as nat;
        lemma_rows_shape(t, rows, k);
        let mid = rows_written(t, rows, k).1;
        let begun = WriterModel {
            fields: mid.header.fields,
            dest: seq![ACTIVE],
            memo: mid.memo,
            cursor: 0,
        };
        lemma_values_round_trip_mid(begun, rows[k as int], rows[k as int].len());
    }
}

/// A table that was written reads back as the records that it stores for
/// the rows that went in: every value as it was, but for the spaces at the
/// end of a text and the count of digits after the point of a number.
pub proof fn lemma_table_round_trip(t: TableModel, rows: Seq<Seq<ValueModel>>)
    requires
        t.header.wf(),
        t.header.record_count == 0,
        t.body.len() == 0,
        t.memo matches Some(m) ==> m.wf(),
        forall|i: int| 0 <= i < rows.len() ==> values_wf(#[trigger] rows[i], rows[i].len()),
        rows_written(t, rows, rows.len()).0 is Ok,
    ensures
        ({
            let end = rows_written(t, rows, rows.len()).1;
            &&& parse_header(table_bytes(end)) == Ok::<HeaderModel, Failure>(end.header)
            &&& end.header.record_count == rows.len()
            &&& end.header.fields == t.header.fields
            &&& read_table(table_bytes(end), end.memo) == Ok::<Seq<RecordModel>, Failure>(
                stored_records(t.header.fields, rows, rows.len()),
            )
        }),
{
    let end = rows_written(t, rows, rows.len()).1;
    let table = table_bytes(end);
    lemma_rows_shape(t, rows, rows.len());
    lemma_header_round_trip(end.header, end.body + seq![crate::header::END_OF_FILE]);
    assert(table =~= header_bytes(end.header) + (end.body + seq![crate::header::END_OF_FILE]));
    assert(header_bytes(end.header).len() == t.header.header_length());
    assert forall|i: int| 0 <= i < end.body.len() implies table[t.header.header_length() + i]
        == end.body[i] by {}
    lemma_rows_round_trip(t, rows, rows.len(), table);
    lemma_table_records_header(table, t.header, end.header, end.memo, rows.len());
}

/// Whether every value of every row comes back from its field exactly as
/// it goes in.
pub open spec fn rows_kept_exactly(fields: Seq<FieldSpec>, rows: Seq<Seq<ValueModel>>) -> bool {
    forall|i: int, j: int|
        0 <= i < rows.len() && 0 <= j < fields.len() ==> crate::value_laws::kept_exactly(
            fields[j],
            #[trigger] rows[i][j],
        )
}

/// The record that a row is, as it was written: active, and each value with
/// the name of its column.
pub open spec fn written_record(fields: Seq<FieldSpec>, values: Seq<ValueModel>) -> RecordModel {
    RecordModel {
        deleted: false,
        entries: entries_of(fields, values.take(fields.len() as int), 0),
    }
}

/// A table of texts that are not empty and end in no space, of numbers with
/// the digits after the point that their fields have, and of any values of
/// the other types, reads back as exactly the rows that were written.
pub proof fn lemma_table_round_trip_exact(t: TableModel, rows: Seq<Seq<ValueModel>>)
    requires
        t.header.wf(),
        t.header.record_count == 0,
        t.body.len() == 0,
        t.memo matches Some(m) ==> m.wf(),
        forall|i: int| 0 <= i < rows.len() ==> values_wf(#[trigger] rows[i], rows[i].len()),
        rows_written(t, rows, rows.len()).0 is Ok,
        rows_kept_exactly(t.header.fields, rows),
    ensures
        read_table(
            table_bytes(rows_written(t, rows, rows.len()).1),
            rows_written(t, rows, rows.len()).1.memo,
        ) == Ok::<Seq<RecordModel>, Failure>(
            Seq::new(rows.len(), |i: int| written_record(t.header.fields, rows[i])),
        ),
{
    let fields = t.header.fields;
    lemma_table_round_trip(t, rows);
    let stored_all = stored_records(fields, rows, rows.len());
    let written_all = Seq::new(rows.len(), |i: int| written_record(fields, rows[i]));
    assert forall|i: int| 0 <= i < rows.len() implies stored_all[i] == written_all[i] by {
        let values = rows[i];
        let kept = stored_values(fields, values, fields.len());
        assert forall|j: int| 0 <= j < fields.len() implies kept[j] == values[j] by {
            assert(crate::value_laws::kept_exactly(fields[j], rows[i][j]));
            crate::value_laws::lemma_kept_exactly(fields[j], values[j]);
        }
        lemma_rows_lengths(t, rows, rows.len(), i);
        assert(kept =~= values.take(fields.len() as int));
    }
    assert(stored_all =~= written_all);
}

/// Every row that was written has one value for each column.
pub proof fn lemma_rows_lengths(t: TableModel, rows: Seq<Seq<ValueModel>>, count: nat, index: int)
    requires
        t.header.wf(),
        t.memo matches Some(m) ==> m.wf(),
        rows_written(t, rows, count).0 is Ok,
        0 <= index < count,
    ensures
        rows[index].len() == t.header.fields.len(),
    decreases count,
{
    let k = (count - 1) as nat;
    lemma_rows_shape(t, rows, k);
    if index < k {
        lemma_rows_lengths(t, rows, k, index);
    } else {
        let mid = rows_written(t, rows, k).1;
        let begun = WriterModel {
            fields: mid.header.fields,
            dest: seq![ACTIVE],
            memo: mid.memo,
            cursor: 0,
        };
        lemma_values_round_trip_mid(begun, rows[k as int], rows[k as int].len());
    }
}

/// Rows of values that are written as records that write themselves are
/// written as rows of values are: with the same result, and the same table
/// at the end.
pub proof fn lemma_rows_write_themselves(
    t: TableModel,
    rows: Seq<Vec<crate::value::FieldValue>>,
    count: nat,
    result: Result<(), Failure>,
    end: TableModel,
)
    requires
        count <= rows.len(),
        crate::table::records_written_by(t, rows, count, result, end),
    ensures
        rows_written(t, crate::table::rows_model(rows), count) == (result, end),
    decreases count,
{
    if count > 0 {
        let k = (count - 1) as nat;
        let mid = choose|mid: TableModel|
            #![trigger crate::table::record_written_by(mid, rows[count - 1], result, end)]
            crate::table::records_written_by(t, rows, k, Ok(()), mid)
                && crate::table::record_written_by(mid, rows[count - 1], result, end);
        lemma_rows_write_themselves(t, rows, k, Ok(()), mid);
        assert(crate::table::rows_model(rows)[count - 1] == crate::writing::values_model(
            rows[count - 1]@,
        ));
    }
}

/// The header of a table that was written states the lengths that its
/// columns give: 32 bytes, 32 for each column and one more for the header,
/// and one byte and the slots of the columns for a record.
pub proof fn lemma_written_lengths(t: TableModel)
    requires
        t.header.wf(),
    ensures
        parse_header(table_bytes(t)) == Ok::<HeaderModel, Failure>(t.header),
        crate::bytes::le_u16(table_bytes(t).skip(8)) == 32 + 32 * t.header.fields.len() + 1,
        crate::bytes::le_u16(table_bytes(t).skip(10)) == 1 + crate::header::slots_length(
            t.header.fields,
        ),
{
    let table = table_bytes(t);
    lemma_header_round_trip(t.header, t.body + seq![crate::header::END_OF_FILE]);
    assert(table =~= header_bytes(t.header) + (t.body + seq![crate::header::END_OF_FILE]));
    crate::header::lemma_parsed_header(table);
}

/// The records of a table do not depend on the count that the header
/// states, nor on its signature or its day.
pub proof fn lemma_table_records_header(
    table: Seq<u8>,
    a: HeaderModel,
    b: HeaderModel,
    memo: Option<MemoModel>,
    count: nat,
)
    requires
        a.fields == b.fields,
    ensures
        table_records(table, a, memo, count) == table_records(table, b, memo, count),
    decreases count,
{
    if count > 0 {
        lemma_table_records_header(table, a, b, memo, (count - 1) as nat);
    }
}

} // verus!
