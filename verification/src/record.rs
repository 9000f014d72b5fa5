//! One record of a table: a deletion flag and one slot for each column, read
//! field by field in the order of the schema.

use vstd::prelude::*;
use crate::header::{field_offset, is_schema, lemma_field_offset_next, record_length};
use crate::memo::{MemoFile, MemoModel};
use crate::schema::{field_specs, FieldInfo, FieldSpec};
use crate::text::{ascii_chars, owned, same_text};
use crate::value::{borrowed_memo_model, field_value, FieldValue, ValueModel};
use crate::convert::FromFieldValue;
use crate::{Error, Failure, FieldConversionError};

verus! {

/// The flag of a record that is in use.
pub const ACTIVE: u8 = 0x20;

/// The flag of a record that was deleted.
pub const DELETED: u8 = 0x2a;

/// A record as plain values: whether it was deleted, and the name and value
/// of each field in the order of the schema.
pub struct RecordModel {
    pub deleted: bool,
    pub entries: Seq<(Seq<char>, ValueModel)>,
}

/// The slot of column `index` in a record.
pub open spec fn slot_of(fields: Seq<FieldSpec>, record: Seq<u8>, index: int) -> Seq<u8> {
    record.subrange(field_offset(fields, index) as int, field_offset(fields, index + 1) as int)
}

/// The values of the fields from `from` up to `to` of a record, or the
/// failure of the first of them that has none.
pub open spec fn record_values(
    fields: Seq<FieldSpec>,
    record: Seq<u8>,
    memo: Option<MemoModel>,
    from: nat,
    to: nat,
) -> Result<Seq<ValueModel>, Failure>
    decreases to,
{
    if to <= from {
        Ok(Seq::empty())
    } else {
        match record_values(fields, record, memo, from, (to - 1) as nat) {
            Err(failure) => Err(failure),
            Ok(front) => match field_value(fields[to - 1], slot_of(fields, record, to - 1), memo) {
                Err(failure) => Err(failure),
                Ok(value) => Ok(front.push(value)),
            },
        }
    }
}

/// Values, each with the name of its column; the first value is that of
/// column `from`.
pub open spec fn entries_of(fields: Seq<FieldSpec>, values: Seq<ValueModel>, from: nat) -> Seq<
    (Seq<char>, ValueModel),
> {
    Seq::new(values.len(), |i: int| (ascii_chars(fields[from + i].name), values[i]))
}

/// The fields from `from` on of a record, as a record. The flag `*` marks a
/// deleted record; any other flag an active one.
pub open spec fn parse_record_from(
    fields: Seq<FieldSpec>,
    record: Seq<u8>,
    memo: Option<MemoModel>,
    from: nat,
) -> Result<RecordModel, Failure> {
    match record_values(fields, record, memo, from, fields.len()) {
        Err(failure) => Err(failure),
        Ok(values) => Ok(
            RecordModel {
                deleted: record[0] == DELETED,
                entries: entries_of(fields, values, from),
            },
        ),
    }
}

/// The record that the bytes of one record are.
pub open spec fn parse_record(fields: Seq<FieldSpec>, record: Seq<u8>, memo: Option<MemoModel>)
    -> Result<RecordModel, Failure>
    recommends
        record.len() == record_length(fields),
{
    parse_record_from(fields, record, memo, 0)
}

/// Once a field has no value, the fields up to any later one have none.
pub proof fn lemma_record_values_fail(
    fields: Seq<FieldSpec>,
    record: Seq<u8>,
    memo: Option<MemoModel>,
    from: nat,
    at: nat,
    to: nat,
)
    requires
        from <= at < to,
        record_values(fields, record, memo, from, at) is Ok,
        field_value(fields[at as int], slot_of(fields, record, at as int), memo) is Err,
    ensures
        record_values(fields, record, memo, from, to) == Err::<Seq<ValueModel>, Failure>(
            field_value(fields[at as int], slot_of(fields, record, at as int), memo)->Err_0,
        ),
    decreases to,
{
    if to > at + 1 {
        lemma_record_values_fail(fields, record, memo, from, at, (to - 1) as nat);
    }
}

/// The fields up to the next one have values where those before it have
/// them and the next one has one.
pub proof fn lemma_record_values_next(
    fields: Seq<FieldSpec>,
    record: Seq<u8>,
    memo: Option<MemoModel>,
    from: nat,
    at: nat,
)
    requires
        from <= at,
        record_values(fields, record, memo, from, at) is Ok,
        field_value(fields[at as int], slot_of(fields, record, at as int), memo) is Ok,
    ensures
        record_values(fields, record, memo, from, at + 1) == Ok::<Seq<ValueModel>, Failure>(
            record_values(fields, record, memo, from, at)->Ok_0.push(
                field_value(fields[at as int], slot_of(fields, record, at as int), memo)->Ok_0,
            ),
        ),
{
}

/// A value with the name of its column.
#[derive(Debug, Clone, PartialEq)]
pub struct NamedValue<T> {
    pub name: String,
    pub value: T,
}

/// One record: whether it was deleted, and the name and value of each field
/// in the order of the schema.
#[derive(Debug, Clone, PartialEq)]
pub struct Record {
    deleted: bool,
    entries: Vec<(String, FieldValue)>,
}

/// Names and values as plain values.
pub open spec fn entries_model(entries: Seq<(String, FieldValue)>) -> Seq<(Seq<char>, ValueModel)> {
    Seq::new(entries.len(), |i: int| (entries[i].0@, entries[i].1@))
}

impl View for Record {
    type V = RecordModel;

    closed spec fn view(&self) -> RecordModel {
        RecordModel { deleted: self.deleted, entries: entries_model(self.entries@) }
    }
}

/// The result of reading a record, as contracts speak of it.
pub open spec fn outcome_record(r: Result<Record, Error>) -> Result<RecordModel, Failure> {
    match r {
        Ok(record) => Ok(record@),
        Err(e) => Err(e@),
    }
}

/// The first entry with the name `name`, if there is one.
pub open spec fn find_entry(entries: Seq<(Seq<char>, ValueModel)>, name: Seq<char>) -> Option<int>
    decreases entries.len(),
{
    if entries.len() == 0 {
        None
    } else if entries[0].0 == name {
        Some(0)
    } else {
        match find_entry(entries.drop_first(), name) {
            Some(i) => Some(i + 1),
            None => None,
        }
    }
}

impl Record {
    /// The record with these names and values.
    pub fn new(deleted: bool, entries: Vec<(String, FieldValue)>) -> (record: Record)
        ensures
            record@ == (RecordModel { deleted, entries: entries_model(entries@) }),
    {
        Record { deleted, entries }
    }

    /// Whether the record was deleted.
    pub fn is_deleted(&self) -> (deleted: bool)
        ensures
            deleted == self@.deleted,
    {
        self.deleted
    }

    /// The count of fields.
    pub fn len(&self) -> (n: usize)
        ensures
            n == self@.entries.len(),
    {
        self.entries.len()
    }

    /// The names and values, in the order of the schema.
    pub fn entries(&self) -> (entries: &Vec<(String, FieldValue)>)
        ensures
            entries_model(entries@) == self@.entries,
    {
        &self.entries
    }

    /// The names and values, in the order of the schema.
    pub fn into_entries(self) -> (entries: Vec<(String, FieldValue)>)
        ensures
            entries_model(entries@) == self@.entries,
    {
        self.entries
    }

    /// The name of field `index`.
    pub fn name(&self, index: usize) -> (name: &str)
        requires
            index < self@.entries.len(),
        ensures
            name@ == self@.entries[index as int].0,
    {
        self.entries[index].0.as_str()
    }

    /// The value of field `index`.
    pub fn value(&self, index: usize) -> (value: &FieldValue)
        requires
            index < self@.entries.len(),
        ensures
            value@ == self@.entries[index as int].1,
    {
        &self.entries[index].1
    }

    /// Puts `value` in the place of the value of field `index`.
    pub fn set_value(&mut self, index: usize, value: FieldValue)
        requires
            index < old(self)@.entries.len(),
        ensures
            final(self)@ == (RecordModel {
                deleted: old(self)@.deleted,
                entries: old(self)@.entries.update(
                    index as int,
                    (old(self)@.entries[index as int].0, value@),
                ),
            }),
    {
        let name = self.entries[index].0.clone();
        self.entries.set(index, (name, value));
        assert(entries_model(self.entries@) =~= entries_model(old(self).entries@).update(
            index as int,
            (old(self)@.entries[index as int].0, value@),
        ));
    }

    /// The place of the first field with the name `name`.
    pub fn position(&self, name: &str) -> (index: Option<usize>)
        ensures
            match find_entry(self@.entries, name@) {
                Some(i) => index matches Some(k) && k == i && 0 <= i < self@.entries.len(),
                None => index is None,
            },
    {
        let ghost entries = self@.entries;
        let mut i: usize = 0;
        assert(entries.skip(0) =~= entries);
        while i < self.entries.len()
            invariant
                i <= self.entries@.len(),
                entries == entries_model(self.entries@),
                find_entry(entries, name@) == match find_entry(entries.skip(i as int), name@) {
                    Some(k) => Some(k + i),
                    None => None,
                },
            decreases self.entries@.len() - i,
        {
            assert(entries.skip(i as int)[0] == entries[i as int]);
            assert(entries.skip(i as int).drop_first() =~= entries.skip(i + 1));
            if same_text(self.entries[i].0.as_str(), name) {
                return Some(i);
            }
            i = i + 1;
        }
        None
    }

    /// The value of the first field with the name `name`.
    pub fn get(&self, name: &str) -> (value: Option<&FieldValue>)
        ensures
            match find_entry(self@.entries, name@) {
                Some(i) => value matches Some(v) && 0 <= i < self@.entries.len() && v@
                    == self@.entries[i].1,
                None => value is None,
            },
    {
        match self.position(name) {
            Some(index) => {
                assert(self@.entries[index as int].1 == self.entries@[index as int].1@);
                Some(&self.entries[index].1)
            },
            None => None,
        }
    }
}

/// The fields of one record, from the first to the last. A field can be
/// read or passed over, and there is no way back.
pub struct FieldIterator<'a> {
    fields: &'a Vec<FieldInfo>,
    record: &'a [u8],
    memo: Option<&'a MemoFile>,
    cursor: usize,
    offset: usize,
}

impl<'a> FieldIterator<'a> {
    #[verifier::type_invariant]
    closed spec fn inv(self) -> bool {
        &&& is_schema(field_specs(self.fields@))
        &&& self.record@.len() == record_length(field_specs(self.fields@))
        &&& self.cursor <= self.fields@.len()
        &&& self.offset == field_offset(field_specs(self.fields@), self.cursor as int)
        &&& (self.memo matches Some(m) ==> m.wf())
    }

    /// The columns of the record.
    pub closed spec fn fields(self) -> Seq<FieldSpec> {
        field_specs(self.fields@)
    }

    /// The bytes of the record.
    pub closed spec fn record(self) -> Seq<u8> {
        self.record@
    }

    /// The memo file that the texts of Memo fields come from.
    pub closed spec fn memo(self) -> Option<MemoModel> {
        borrowed_memo_model(self.memo)
    }

    /// How many fields have been read or passed over.
    pub closed spec fn cursor(self) -> nat {
        self.cursor as nat
    }

    /// The same record with the cursor at another field.
    pub open spec fn at(self, other: FieldIterator<'a>, cursor: nat) -> bool {
        &&& other.fields() == self.fields()
        &&& other.record() == self.record()
        &&& other.memo() == self.memo()
        &&& other.cursor() == cursor
    }

    /// The fields of `record`, which has the columns `fields`.
    pub fn new(fields: &'a Vec<FieldInfo>, record: &'a [u8], memo: Option<&'a MemoFile>) -> (it:
        FieldIterator<'a>)
        requires
            is_schema(field_specs(fields@)),
            record@.len() == record_length(field_specs(fields@)),
        ensures
            it.fields() == field_specs(fields@),
            it.record() == record@,
            it.memo() == borrowed_memo_model(memo),
            it.cursor() == 0,
    {
        assert(field_specs(fields@).take(0).len() == 0);
        match memo {
            Some(m) => {
                m.check();
            },
            None => {},
        }
        FieldIterator { fields, record, memo, cursor: 0, offset: 1 }
    }

    /// Whether the record was deleted.
    pub fn is_deleted(&self) -> (deleted: bool)
        ensures
            deleted == (self.record()[0] == DELETED),
    {
        proof {
            use_type_invariant(self);
        }
        self.record[0] == DELETED
    }

    /// How many fields are left.
    pub fn remaining(&self) -> (n: usize)
        ensures
            n == self.fields().len() - self.cursor(),
            self.cursor() <= self.fields().len(),
    {
        proof {
            use_type_invariant(self);
        }
        self.fields.len() - self.cursor
    }

    /// Succeeds if at least `count` fields are left.
    pub fn expect_fields(&self, count: usize) -> (r: Result<(), Error>)
        ensures
            r.is_ok() == (count <= self.fields().len() - self.cursor()),
            r matches Err(e) ==> e@ == Failure::NotEnoughFields,
    {
        if count <= self.remaining() {
            Ok(())
        } else {
            Err(Error::NotEnoughFields)
        }
    }

    /// The name and value of the next field. After the last field there is
    /// none. The cursor moves on wherever there was a field, also where its
    /// slot holds no value.
    pub fn read_next_field(&mut self) -> (r: Result<NamedValue<FieldValue>, Error>)
        ensures
            old(self).cursor() <= old(self).fields().len(),
            old(self).cursor() == old(self).fields().len() ==> (r matches Err(e) && e@
                == Failure::EndOfRecord) && old(self).at(*final(self), old(self).cursor()),
            old(self).cursor() < old(self).fields().len() ==> {
                let index = old(self).cursor() as int;
                &&& old(self).at(*final(self), old(self).cursor() + 1)
                &&& match field_value(
                    old(self).fields()[index],
                    slot_of(old(self).fields(), old(self).record(), index),
                    old(self).memo(),
                ) {
                    Ok(value) => r matches Ok(named) && named.value@ == value && named.name@
                        == ascii_chars(old(self).fields()[index].name) && value.wf(),
                    Err(failure) => r matches Err(e) && e@ == failure,
                }
            },
    {
        proof {
            use_type_invariant(&*self);
        }
        if self.cursor >= self.fields.len() {
            return Err(Error::EndOfRecord);
        }
        let ghost specs = field_specs(self.fields@);
        let info = &self.fields[self.cursor];
        let length = info.length() as usize;
        proof {
            lemma_field_offset_next(specs, self.cursor as int);
            assert(specs[self.cursor as int] == self.fields@[self.cursor as int]@);
        }
        let slot = vstd::slice::slice_subrange(self.record, self.offset, self.offset + length);
        let decoded = FieldValue::decode(info, slot, self.memo);
        let name = owned(info.name());
        *self = FieldIterator {
            fields: self.fields,
            record: self.record,
            memo: self.memo,
            cursor: self.cursor + 1,
            offset: self.offset + length,
        };
        match decoded {
            Ok(value) => Ok(NamedValue { name, value }),
            Err(e) => Err(e),
        }
    }

    /// Passes over the next field, if there is one.
    pub fn skip_next_field(&mut self) -> (r: Result<(), Error>)
        ensures
            old(self).cursor() <= old(self).fields().len(),
            old(self).cursor() == old(self).fields().len() ==> (r matches Err(e) && e@
                == Failure::EndOfRecord) && old(self).at(*final(self), old(self).cursor()),
            old(self).cursor() < old(self).fields().len() ==> r is Ok && old(self).at(
                *final(self),
                old(self).cursor() + 1,
            ),
    {
        proof {
            use_type_invariant(&*self);
        }
        if self.cursor >= self.fields.len() {
            return Err(Error::EndOfRecord);
        }
        let ghost specs = field_specs(self.fields@);
        let length = self.fields[self.cursor].length() as usize;
        proof {
            lemma_field_offset_next(specs, self.cursor as int);
            assert(specs[self.cursor as int] == self.fields@[self.cursor as int]@);
        }
        *self = FieldIterator {
            fields: self.fields,
            record: self.record,
            memo: self.memo,
            cursor: self.cursor + 1,
            offset: self.offset + length,
        };
        Ok(())
    }
}

impl<'a> FieldIterator<'a> {
    /// The name of the next field and its value as a `T`. After the last
    /// field there is none. The cursor moves on wherever there was a field,
    /// also where its slot holds no value or none that a `T` can be made of.
    pub fn read_next_field_as<T: FromFieldValue>(&mut self) -> (r: Result<NamedValue<T>, Error>)
        ensures
            old(self).cursor() <= old(self).fields().len(),
            old(self).cursor() == old(self).fields().len() ==> (r matches Err(e) && e@
                == Failure::EndOfRecord) && old(self).at(*final(self), old(self).cursor()),
            old(self).cursor() < old(self).fields().len() ==> {
                let index = old(self).cursor() as int;
                &&& old(self).at(*final(self), old(self).cursor() + 1)
                &&& match field_value(
                    old(self).fields()[index],
                    slot_of(old(self).fields(), old(self).record(), index),
                    old(self).memo(),
                ) {
                    Ok(value) => if T::convertible(value) {
                        r matches Ok(named) && named.value.holds(value) && named.name@
                            == ascii_chars(old(self).fields()[index].name)
                    } else {
                        r matches Err(e) && e@ == Failure::BadConversion(
                            FieldConversionError {
                                expected: T::expected(),
                                actual: value.field_type(),
                            },
                        )
                    },
                    Err(failure) => r matches Err(e) && e@ == failure,
                }
            },
    {
        let named = self.read_next_field()?;
        match T::from_field_value(named.value) {
            Ok(value) => Ok(NamedValue { name: named.name, value }),
            Err(e) => Err(Error::BadConversion(e)),
        }
    }
}

/// A type that a record can be read as, field by field.
pub trait ReadableRecord: Sized {
    /// Whether `result` is what reading the fields of `record` from field
    /// `cursor` on can give. A type that says nothing here lets anything be
    /// the result.
    open spec fn reads(
        fields: Seq<FieldSpec>,
        record: Seq<u8>,
        memo: Option<MemoModel>,
        cursor: nat,
        result: Result<Self, Error>,
    ) -> bool {
        true
    }

    /// Reads the fields that the type is made of from `field_iterator`, one
    /// after the other.
    fn read_using<'a>(field_iterator: &mut FieldIterator<'a>) -> (r: Result<Self, Error>)
        ensures
            Self::reads(
                old(field_iterator).fields(),
                old(field_iterator).record(),
                old(field_iterator).memo(),
                old(field_iterator).cursor(),
                r,
            ),
    ;
}

impl ReadableRecord for Record {
    /// The record of the fields from `cursor` on, or the failure of the
    /// first of them that has no value.
    open spec fn reads(
        fields: Seq<FieldSpec>,
        record: Seq<u8>,
        memo: Option<MemoModel>,
        cursor: nat,
        result: Result<Record, Error>,
    ) -> bool {
        outcome_record(result) == parse_record_from(fields, record, memo, cursor)
    }

    /// The fields that are left, each with its name.
    fn read_using<'a>(field_iterator: &mut FieldIterator<'a>) -> (r: Result<Record, Error>)
        ensures
            old(field_iterator).fields() == final(field_iterator).fields(),
            old(field_iterator).record() == final(field_iterator).record(),
            old(field_iterator).memo() == final(field_iterator).memo(),
            old(field_iterator).cursor() <= old(field_iterator).fields().len(),
            outcome_record(r) == parse_record_from(
                old(field_iterator).fields(),
                old(field_iterator).record(),
                old(field_iterator).memo(),
                old(field_iterator).cursor(),
            ),
            r is Ok ==> final(field_iterator).cursor() == old(field_iterator).fields().len(),
    {
        let ghost fields = field_iterator.fields();
        let ghost record = field_iterator.record();
        let ghost memo = field_iterator.memo();
        let ghost from = field_iterator.cursor();
        let deleted = field_iterator.is_deleted();
        let mut entries: Vec<(String, FieldValue)> = Vec::new();
        let mut left = field_iterator.remaining();
        let ghost mut values: Seq<ValueModel> = Seq::empty();
        while left > 0
            invariant
                fields == old(field_iterator).fields(),
                record == old(field_iterator).record(),
                memo == old(field_iterator).memo(),
                from == old(field_iterator).cursor(),
                field_iterator.fields() == fields,
                field_iterator.record() == record,
                field_iterator.memo() == memo,
                from <= field_iterator.cursor() <= fields.len(),
                left == fields.len() - field_iterator.cursor(),
                record_values(fields, record, memo, from, field_iterator.cursor()) == Ok::<
                    Seq<ValueModel>,
                    Failure,
                >(values),
                values.len() == field_iterator.cursor() - from,
                entries@.len() == values.len(),
                entries_model(entries@) == entries_of(fields, values, from),
            decreases left,
        {
            let ghost at = field_iterator.cursor();
            let named = match field_iterator.read_next_field() {
                Ok(named) => named,
                Err(e) => {
                    proof {
                        lemma_record_values_fail(fields, record, memo, from, at, fields.len());
                    }
                    return Err(e);
                },
            };
            proof {
                lemma_record_values_next(fields, record, memo, from, at);
                let next = values.push(named.value@);
                let grown = entries@.push((named.name, named.value));
                assert forall|i: int| 0 <= i < grown.len() implies #[trigger] entries_model(
                    grown,
                )[i] == entries_of(fields, next, from)[i] by {
                    if i < entries@.len() {
                        assert(entries_model(entries@)[i] == entries_of(fields, values, from)[i]);
                    }
                }
                assert(entries_model(entries@.push((named.name, named.value))) =~= entries_of(
                    fields,
                    next,
                    from,
                ));
                values = next;
            }
            entries.push((named.name, named.value));
            left = left - 1;
        }
        Ok(Record { deleted, entries })
    }
}

/// The record that the bytes of one record are, read with the columns
/// `fields` and the memo file `memo`.
pub fn decode_record(fields: &Vec<FieldInfo>, record: &[u8], memo: Option<&MemoFile>) -> (r: Result<
    Record,
    Error,
>)
    requires
        is_schema(field_specs(fields@)),
        record@.len() == record_length(field_specs(fields@)),
    ensures
        outcome_record(r) == parse_record(field_specs(fields@), record@, borrowed_memo_model(memo)),
{
    let mut field_iterator = FieldIterator::new(fields, record, memo);
    Record::read_using(&mut field_iterator)
}

} // verus!
