//! Writing the fields of a record, one after the other in the order of the
//! schema.

use vstd::prelude::*;
use crate::convert::ToFieldValue;
use crate::header::is_schema;
use crate::memo::{grown, MemoFile, MemoModel};
use crate::record::{Record, ACTIVE};
use crate::schema::{field_specs, FieldInfo, FieldSpec};
use crate::value::{field_written, memo_model, FieldValue, ValueModel};
use crate::{Error, Failure};

verus! {

/// A writer as plain values: the columns, the bytes written so far, the
/// memo file, and the count of fields of the current record that have their
/// value.
pub struct WriterModel {
    pub fields: Seq<FieldSpec>,
    pub dest: Seq<u8>,
    pub memo: Option<MemoModel>,
    pub cursor: nat,
}

impl WriterModel {
    /// Whether the columns are a schema, the cursor is within them, and
    /// the memo file is well formed.
    pub open spec fn wf(self) -> bool {
        &&& is_schema(self.fields)
        &&& self.cursor <= self.fields.len()
        &&& (self.memo matches Some(m) ==> m.wf())
    }
}

/// What writing one value does: after the last field nothing, and the
/// failure says so; a value that cannot stand in the next field nothing
/// either; any other value takes its slot behind what was written, and the
/// next field comes up.
pub open spec fn write_step(w: WriterModel, v: ValueModel) -> (Result<(), Failure>, WriterModel) {
    if w.cursor >= w.fields.len() {
        (Err(Failure::EndOfRecord), w)
    } else {
        match field_written(w.fields[w.cursor as int], v, w.memo) {
            Err(failure) => (Err(failure), w),
            Ok((slot, after)) => (
                Ok(()),
                WriterModel {
                    fields: w.fields,
                    dest: w.dest + slot,
                    memo: after,
                    cursor: w.cursor + 1,
                },
            ),
        }
    }
}

/// What writing the first `count` of some values does, one after the other
/// up to the first that fails.
pub open spec fn values_written(w: WriterModel, values: Seq<ValueModel>, count: nat) -> (
    Result<(), Failure>,
    WriterModel,
)
    decreases count,
{
    if count == 0 {
        (Ok(()), w)
    } else {
        let (r, mid) = values_written(w, values, (count - 1) as nat);
        match r {
            Err(failure) => (Err(failure), mid),
            Ok(_) => write_step(mid, values[count - 1]),
        }
    }
}

/// Whether `after` is `before` with more fields of the same record written:
/// the same columns, what was written still there, behind it as many bytes
/// as the slots of the fields in between take, and a memo file that has only
/// grown.
pub open spec fn continues(before: WriterModel, after: WriterModel) -> bool {
    &&& after.fields == before.fields
    &&& before.cursor <= after.cursor
    &&& grown(before.memo, after.memo)
    &&& after.dest.len() + crate::header::field_offset(before.fields, before.cursor as int)
        == before.dest.len() + crate::header::field_offset(before.fields, after.cursor as int)
    &&& forall|i: int| 0 <= i < before.dest.len() ==> after.dest[i] == before.dest[i]
}

/// The fields of one record, taking their values one after the other.
pub struct FieldWriter {
    fields: Vec<FieldInfo>,
    dest: Vec<u8>,
    memo: Option<MemoFile>,
    cursor: usize,
}

impl View for FieldWriter {
    type V = WriterModel;

    closed spec fn view(&self) -> WriterModel {
        WriterModel {
            fields: field_specs(self.fields@),
            dest: self.dest@,
            memo: memo_model(self.memo),
            cursor: self.cursor as nat,
        }
    }
}

/// The result of a write, as contracts speak of it.
pub open spec fn outcome_unit(r: Result<(), Error>) -> Result<(), Failure> {
    match r {
        Ok(_) => Ok(()),
        Err(e) => Err(e@),
    }
}

impl FieldWriter {
    /// What every writer that the library hands out satisfies, and what its
    /// methods ask for and keep.
    pub open spec fn wf(&self) -> bool {
        self@.wf()
    }

    /// A writer for records with the columns `fields`, which appends to
    /// `dest`. No record is open: the first write fails until one is.
    pub(crate) fn new(fields: Vec<FieldInfo>, dest: Vec<u8>, memo: Option<MemoFile>) -> (w:
        FieldWriter)
        requires
            is_schema(field_specs(fields@)),
        ensures
            w.wf(),
            w@ == (WriterModel {
                fields: field_specs(fields@),
                dest: dest@,
                memo: memo_model(memo),
                cursor: fields@.len(),
            }),
    {
        let cursor = fields.len();
        match &memo {
            Some(m) => {
                m.check();
            },
            None => {},
        }
        FieldWriter { fields, dest, memo, cursor }
    }

    /// Opens a record: writes the flag of an active record, and the first
    /// field comes up.
    pub(crate) fn begin_record(&mut self)
        requires
            old(self).wf(),
        ensures
            final(self).wf(),
            final(self)@ == (WriterModel {
                dest: old(self)@.dest.push(ACTIVE),
                cursor: 0,
                ..old(self)@
            }),
    {
        self.dest.push(ACTIVE);
        self.cursor = 0;
    }

    /// Takes back what was written from `len` on, and closes the record.
    pub(crate) fn rollback(&mut self, len: usize)
        requires
            old(self).wf(),
            len <= old(self)@.dest.len(),
        ensures
            final(self).wf(),
            final(self)@ == (WriterModel {
                dest: old(self)@.dest.take(len as int),
                cursor: old(self)@.fields.len(),
                ..old(self)@
            }),
    {
        self.dest.truncate(len);
        self.cursor = self.fields.len();
        assert(self.dest@ =~= old(self)@.dest.take(len as int));
    }

    /// Hands out what was written and keeps nothing of it.
    pub(crate) fn take_written(&mut self) -> (bytes: Vec<u8>)
        requires
            old(self).wf(),
        ensures
            final(self).wf(),
            bytes@ == old(self)@.dest,
            final(self)@ == (WriterModel { dest: Seq::empty(), ..old(self)@ }),
    {
        let mut bytes: Vec<u8> = Vec::new();
        bytes.append(&mut self.dest);
        assert(bytes@ =~= old(self)@.dest);
        bytes
    }

    /// The columns of the record.
    pub fn fields(&self) -> (fields: &Vec<FieldInfo>)
        ensures
            field_specs(fields@) == self@.fields,
    {
        &self.fields
    }

    /// How many fields of the record have their value.
    pub fn cursor(&self) -> (cursor: usize)
        ensures
            cursor == self@.cursor,
    {
        self.cursor
    }

    /// The bytes written so far and the memo file, which is all there is to
    /// a writer once it is done.
    pub(crate) fn into_parts(self) -> (parts: (Vec<u8>, Option<MemoFile>))
        ensures
            parts.0@ == self@.dest,
            memo_model(parts.1) == self@.memo,
    {
        (self.dest, self.memo)
    }

    /// Writes `value` to the next field.
    pub fn write_next_field_value(&mut self, value: &FieldValue) -> (r: Result<(), Error>)
        requires
            old(self).wf(),
        ensures
            final(self).wf(),
            (outcome_unit(r), final(self)@) == write_step(old(self)@, value@),
            continues(old(self)@, final(self)@),
    {
        if self.cursor >= self.fields.len() {
            return Err(Error::EndOfRecord);
        }
        let ghost specs = field_specs(self.fields@);
        proof {
            assert(specs[self.cursor as int] == self.fields@[self.cursor as int]@);
            crate::header::lemma_field_offset_next(specs, self.cursor as int);
        }
        let info = &self.fields[self.cursor];
        match value.encode(info, &mut self.dest, &mut self.memo) {
            Ok(()) => {
                proof {
                    lemma_written_slot(specs[self.cursor as int], value@, old(self)@.memo);
                    lemma_written_grown(specs[self.cursor as int], value@, old(self)@.memo);
                }
                self.cursor = self.cursor + 1;
                Ok(())
            },
            Err(e) => Err(e),
        }
    }

    /// Writes `value` to the next field, as the value of a field that its
    /// type makes of it.
    pub fn write_next_field<T: ToFieldValue>(&mut self, value: &T) -> (r: Result<(), Error>)
        requires
            old(self).wf(),
        ensures
            final(self).wf(),
            (outcome_unit(r), final(self)@) == write_step(old(self)@, value.model()),
            continues(old(self)@, final(self)@),
    {
        let field_value = value.to_field_value();
        self.write_next_field_value(&field_value)
    }
}

/// Whatever is written to a field takes as many bytes as the field is long,
/// and a memo file is there afterwards exactly if one was there before.
pub proof fn lemma_written_slot(f: FieldSpec, v: ValueModel, memo: Option<MemoModel>)
    requires
        f.wf(),
        memo matches Some(m) ==> m.wf(),
        field_written(f, v, memo) is Ok,
    ensures
        field_written(f, v, memo)->Ok_0.0.len() == f.length,
        (field_written(f, v, memo)->Ok_0.1 is Some) == (memo is Some),
{
    crate::value_laws::lemma_slot_length(f, v, memo);
}

/// Whatever is written to a field lets the memo file only grow.
pub proof fn lemma_written_grown(f: FieldSpec, v: ValueModel, memo: Option<MemoModel>)
    requires
        memo matches Some(m) ==> m.wf(),
        field_written(f, v, memo) is Ok,
    ensures
        grown(memo, field_written(f, v, memo)->Ok_0.1),
{
    match v {
        ValueModel::Memo(Some(t)) => {
            crate::memo::lemma_appended_extends(memo->Some_0, vstd::utf8::encode_utf8(t));
        },
        _ => {},
    }
}

/// A type whose values can be written as records, field by field.
pub trait WritableRecord {
    /// Whether writing the record to a writer that is as `before` can end
    /// with `result` and the writer as `after`. A type that says nothing
    /// here lets anything be.
    open spec fn writes(
        &self,
        before: WriterModel,
        result: Result<(), Failure>,
        after: WriterModel,
    ) -> bool {
        true
    }

    /// Writes the values of the record to the fields of `field_writer`, one
    /// after the other.
    fn write_using(&self, field_writer: &mut FieldWriter) -> (r: Result<(), Error>)
        requires
            old(field_writer).wf(),
        ensures
            final(field_writer).wf(),
            continues(old(field_writer)@, final(field_writer)@),
            self.writes(old(field_writer)@, outcome_unit(r), final(field_writer)@),
    ;
}

/// Values as plain values.
pub open spec fn values_model(values: Seq<FieldValue>) -> Seq<ValueModel> {
    Seq::new(values.len(), |i: int| values[i]@)
}

/// The values of the entries of a record.
pub open spec fn entry_values(entries: Seq<(Seq<char>, ValueModel)>) -> Seq<ValueModel> {
    Seq::new(entries.len(), |i: int| entries[i].1)
}

/// Once a value cannot be written, nothing changes any more.
pub proof fn lemma_values_written_fail(w: WriterModel, values: Seq<ValueModel>, at: nat, count: nat)
    requires
        at <= count,
        values_written(w, values, at).0 is Err,
    ensures
        values_written(w, values, count) == values_written(w, values, at),
    decreases count,
{
    if count > at {
        lemma_values_written_fail(w, values, at, (count - 1) as nat);
    }
}

/// Writes the values one after the other, up to the first that fails.
pub fn write_values_using(values: &[FieldValue], field_writer: &mut FieldWriter) -> (r: Result<
    (),
    Error,
>)
    requires
        old(field_writer).wf(),
    ensures
        final(field_writer).wf(),
        continues(old(field_writer)@, final(field_writer)@),
        (outcome_unit(r), final(field_writer)@) == values_written(
            old(field_writer)@,
            values_model(values@),
            values@.len(),
        ),
{
    let ghost start = field_writer@;
    let ghost models = values_model(values@);
    let mut i: usize = 0;
    while i < values.len()
        invariant
            i <= values@.len(),
            start == old(field_writer)@,
            models == values_model(values@),
            field_writer.wf(),
            continues(start, field_writer@),
            values_written(start, models, i as nat) == (Ok::<(), Failure>(()), field_writer@),
        decreases values@.len() - i,
    {
        let ghost mid = field_writer@;
        match field_writer.write_next_field_value(&values[i]) {
            Ok(()) => {},
            Err(e) => {
                proof {
                    assert(models[i as int] == values@[i as int]@);
                    lemma_values_written_fail(start, models, (i + 1) as nat, values@.len() as nat);
                    lemma_continues_chain(start, mid, field_writer@);
                }
                return Err(e);
            },
        }
        proof {
            assert(models[i as int] == values@[i as int]@);
            lemma_continues_chain(start, mid, field_writer@);
        }
        i = i + 1;
    }
    Ok(())
}

/// More fields written after more fields written are more fields written.
pub proof fn lemma_continues_chain(a: WriterModel, b: WriterModel, c: WriterModel)
    requires
        continues(a, b),
        continues(b, c),
        is_schema(a.fields),
        c.cursor <= a.fields.len(),
    ensures
        continues(a, c),
{
    crate::header::lemma_slots_length_prefix(a.fields, a.cursor as int);
    assert forall|i: int| 0 <= i < a.dest.len() implies c.dest[i] == a.dest[i] by {
        lemma_offsets_ordered(a.fields, a.cursor as int, b.cursor as int);
        assert(c.dest[i] == b.dest[i]);
    }
}

/// The slots of later fields start no earlier than those of earlier ones.
pub proof fn lemma_offsets_ordered(fields: Seq<FieldSpec>, i: int, j: int)
    requires
        0 <= i <= j <= fields.len(),
    ensures
        crate::header::field_offset(fields, i) <= crate::header::field_offset(fields, j),
    decreases j - i,
{
    if i < j {
        lemma_offsets_ordered(fields, i, j - 1);
        crate::header::lemma_field_offset_next(fields, j - 1);
    }
}

impl WritableRecord for Vec<FieldValue> {
    /// The values are written one after the other, up to the first that
    /// fails.
    open spec fn writes(
        &self,
        before: WriterModel,
        result: Result<(), Failure>,
        after: WriterModel,
    ) -> bool {
        (result, after) == values_written(before, values_model(self@), self@.len())
    }

    /// Writes the values one after the other, up to the first that fails.
    fn write_using(&self, field_writer: &mut FieldWriter) -> (r: Result<(), Error>)
        ensures
            (outcome_unit(r), final(field_writer)@) == values_written(
                old(field_writer)@,
                values_model(self@),
                self@.len(),
            ),
    {
        write_values_using(self.as_slice(), field_writer)
    }
}

impl WritableRecord for Record {
    /// The values of the record are written one after the other, up to the
    /// first that fails. The names are not looked at.
    open spec fn writes(
        &self,
        before: WriterModel,
        result: Result<(), Failure>,
        after: WriterModel,
    ) -> bool {
        (result, after) == values_written(
            before,
            entry_values(self@.entries),
            self@.entries.len(),
        )
    }

    /// Writes the values of the record one after the other, up to the
    /// first that fails. The names are not looked at.
    fn write_using(&self, field_writer: &mut FieldWriter) -> (r: Result<(), Error>)
        ensures
            (outcome_unit(r), final(field_writer)@) == values_written(
                old(field_writer)@,
                entry_values(self@.entries),
                self@.entries.len(),
            ),
    {
        let entries = self.entries();
        let ghost start = field_writer@;
        let ghost models = entry_values(self@.entries);
        let mut i: usize = 0;
        while i < entries.len()
            invariant
                i <= entries@.len(),
                start == old(field_writer)@,
                models == entry_values(self@.entries),
                crate::record::entries_model(entries@) == self@.entries,
                field_writer.wf(),
                continues(start, field_writer@),
                values_written(start, models, i as nat) == (Ok::<(), Failure>(()), field_writer@),
            decreases entries@.len() - i,
        {
            let ghost mid = field_writer@;
            proof {
                assert(crate::record::entries_model(entries@)[i as int].1 == entries@[i as int].1@);
                assert(models[i as int] == entries@[i as int].1@);
            }
            match field_writer.write_next_field_value(&entries[i].1) {
                Ok(()) => {},
                Err(e) => {
                    proof {
                        lemma_values_written_fail(
                            start,
                            models,
                            (i + 1) as nat,
                            entries@.len() as nat,
                        );
                        lemma_continues_chain(start, mid, field_writer@);
                    }
                    return Err(e);
                },
            }
            proof {
                lemma_continues_chain(start, mid, field_writer@);
            }
            i = i + 1;
        }
        Ok(())
    }
}

} // verus!
