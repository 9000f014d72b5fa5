//! Reading a table: the header first, then the records one by one, each
//! decoded when it is asked for.

use vstd::prelude::*;
use crate::header::{parse_header, spec_memo_kind, Header, HeaderModel};
use crate::memo::{open_memo, wide_product, MemoFile, MemoModel};
use crate::record::{
    decode_record, outcome_record, parse_record, FieldIterator, ReadableRecord, Record,
    RecordModel,
};
use crate::value::memo_model;
use crate::{Error, Failure};

verus! {

/// The bytes of record `index` of a table, if the table holds them all.
pub open spec fn record_at(table: Seq<u8>, h: HeaderModel, index: nat) -> Option<Seq<u8>> {
    let start = (h.header_length() + index * h.record_length()) as int;
    if start + h.record_length() <= table.len() {
        Some(table.subrange(start, start + h.record_length()))
    } else {
        None
    }
}

/// Record `index` of a table. A record that the table does not hold whole
/// is an input that ended too early.
pub open spec fn table_record(
    table: Seq<u8>,
    h: HeaderModel,
    memo: Option<MemoModel>,
    index: nat,
) -> Result<RecordModel, Failure> {
    match record_at(table, h, index) {
        None => Err(Failure::Io),
        Some(record) => parse_record(h.fields, record, memo),
    }
}

/// The first `count` records of a table, or the failure of the first of
/// them that cannot be read.
pub open spec fn table_records(
    table: Seq<u8>,
    h: HeaderModel,
    memo: Option<MemoModel>,
    count: nat,
) -> Result<Seq<RecordModel>, Failure>
    decreases count,
{
    if count == 0 {
        Ok(Seq::empty())
    } else {
        match table_records(table, h, memo, (count - 1) as nat) {
            Err(failure) => Err(failure),
            Ok(front) => match table_record(table, h, memo, (count - 1) as nat) {
                Err(failure) => Err(failure),
                Ok(record) => Ok(front.push(record)),
            },
        }
    }
}

/// The memo file that a table is read with: the given bytes, read in the
/// layout that the signature of the table announces. A table whose
/// signature announces none is read without, and so is one for which no
/// bytes are given.
pub open spec fn resolve_memo(h: HeaderModel, memo: Option<Seq<u8>>) -> Result<
    Option<MemoModel>,
    Failure,
> {
    match (spec_memo_kind(h.version), memo) {
        (Some(kind), Some(bytes)) => match open_memo(kind, bytes) {
            Ok(m) => Ok(Some(m)),
            Err(failure) => Err(failure),
        },
        _ => Ok(None),
    }
}

/// All the records of a table.
pub open spec fn read_table(table: Seq<u8>, memo: Option<MemoModel>) -> Result<
    Seq<RecordModel>,
    Failure,
> {
    match parse_header(table) {
        Err(failure) => Err(failure),
        Ok(h) => table_records(table, h, memo, h.record_count as nat),
    }
}

/// All the records of a table that comes with the bytes of its memo file,
/// or without.
pub open spec fn read_files(table: Seq<u8>, memo: Option<Seq<u8>>) -> Result<
    Seq<RecordModel>,
    Failure,
> {
    match parse_header(table) {
        Err(failure) => Err(failure),
        Ok(h) => match resolve_memo(h, memo) {
            Err(failure) => Err(failure),
            Ok(m) => table_records(table, h, m, h.record_count as nat),
        },
    }
}

/// Whether `result` is what reading record `index` of a table as an `R` can
/// give: a record that the table does not hold whole is an input that ended
/// too early, and any other record gives what `R` reads of its fields from
/// the first on.
pub open spec fn record_read_as<R: ReadableRecord>(
    table: Seq<u8>,
    h: HeaderModel,
    memo: Option<MemoModel>,
    index: nat,
    result: Result<R, Error>,
) -> bool {
    match record_at(table, h, index) {
        None => result matches Err(e) && e@ == Failure::Io,
        Some(record) => R::reads(h.fields, record, memo, 0, result),
    }
}

/// Whether each of `records` is what reading the record of its place in a
/// table as an `R` can give.
pub open spec fn records_read_as<R: ReadableRecord>(
    table: Seq<u8>,
    h: HeaderModel,
    memo: Option<MemoModel>,
    records: Seq<R>,
) -> bool {
    forall|i: int|
        0 <= i < records.len() ==> record_read_as::<R>(
            table,
            h,
            memo,
            i as nat,
            Ok::<R, Error>(#[trigger] records[i]),
        )
}

/// Records that were read as records, each from its place and as many as
/// `count`, are the first `count` records of the table.
pub proof fn lemma_records_read_as_records(
    table: Seq<u8>,
    h: HeaderModel,
    memo: Option<MemoModel>,
    records: Seq<Record>,
)
    requires
        records_read_as::<Record>(table, h, memo, records),
    ensures
        table_records(table, h, memo, records.len()) == Ok::<Seq<RecordModel>, Failure>(
            records_model(records),
        ),
    decreases records.len(),
{
    if records.len() == 0 {
        assert(records_model(records) =~= Seq::<RecordModel>::empty());
    } else {
        let front = records.drop_last();
        assert forall|i: int| 0 <= i < front.len() implies record_read_as::<Record>(
            table,
            h,
            memo,
            i as nat,
            Ok::<Record, Error>(#[trigger] front[i]),
        ) by {
            assert(front[i] == records[i]);
        }
        lemma_records_read_as_records(table, h, memo, front);
        let last = records.len() - 1;
        assert(record_read_as::<Record>(
            table,
            h,
            memo,
            last as nat,
            Ok::<Record, Error>(records[last]),
        ));
        assert(records_model(records) =~= records_model(front).push(records[last]@));
    }
}

/// Records as plain values.
pub open spec fn records_model(records: Seq<Record>) -> Seq<RecordModel> {
    Seq::new(records.len(), |i: int| records[i]@)
}

/// The result of reading records, as contracts speak of it.
pub open spec fn outcome_records(r: Result<Vec<Record>, Error>) -> Result<
    Seq<RecordModel>,
    Failure,
> {
    match r {
        Ok(records) => Ok(records_model(records@)),
        Err(e) => Err(e@),
    }
}

/// Once a record cannot be read, the records up to any later one cannot.
pub proof fn lemma_table_records_fail(
    table: Seq<u8>,
    h: HeaderModel,
    memo: Option<MemoModel>,
    at: nat,
    count: nat,
)
    requires
        at < count,
        table_records(table, h, memo, at) is Ok,
        table_record(table, h, memo, at) is Err,
    ensures
        table_records(table, h, memo, count) == Err::<Seq<RecordModel>, Failure>(
            table_record(table, h, memo, at)->Err_0,
        ),
    decreases count,
{
    if count > at + 1 {
        lemma_table_records_fail(table, h, memo, at, (count - 1) as nat);
    }
}

/// Reading the same bytes again gives the same records, or the same
/// failure.
pub proof fn lemma_reading_again(
    table: Seq<u8>,
    memo: Option<MemoModel>,
    first: Result<Vec<Record>, Error>,
    second: Result<Vec<Record>, Error>,
)
    requires
        outcome_records(first) == read_table(table, memo),
        outcome_records(second) == read_table(table, memo),
    ensures
        outcome_records(first) == outcome_records(second),
{
}

/// A table that is being read.
pub struct Reader {
    header: Header,
    table: Vec<u8>,
    memo: Option<MemoFile>,
}

/// The result of opening a table, as contracts speak of it.
pub open spec fn outcome_reader(r: Result<Reader, Error>) -> Result<
    (Seq<u8>, Option<MemoModel>),
    Failure,
> {
    match r {
        Ok(reader) => Ok((reader.spec_table(), reader.spec_memo())),
        Err(e) => Err(e@),
    }
}

impl Reader {
    #[verifier::type_invariant]
    closed spec fn inv(self) -> bool {
        &&& parse_header(self.table@) == Ok::<HeaderModel, Failure>(self.header@)
        &&& self.header@.wf()
        &&& (self.memo matches Some(m) ==> m.wf())
    }

    /// The bytes of the table.
    pub closed spec fn spec_table(self) -> Seq<u8> {
        self.table@
    }

    /// The memo file that the table is read with.
    pub closed spec fn spec_memo(self) -> Option<MemoModel> {
        memo_model(self.memo)
    }

    /// The header of the table.
    pub closed spec fn spec_header(self) -> HeaderModel {
        self.header@
    }

    /// What holds of every reader: its header is the one that its bytes
    /// start with.
    pub open spec fn wf(self) -> bool {
        &&& parse_header(self.spec_table()) == Ok::<HeaderModel, Failure>(self.spec_header())
        &&& self.spec_header().wf()
        &&& (self.spec_memo() matches Some(m) ==> m.wf())
    }

    /// A reader of the table `table`, with the texts of Memo fields in
    /// `memo`.
    pub fn new(table: Vec<u8>, memo: Option<MemoFile>) -> (r: Result<Reader, Error>)
        ensures
            outcome_reader(r) == match parse_header(table@) {
                Ok(_) => Ok::<(Seq<u8>, Option<MemoModel>), Failure>((table@, memo_model(memo))),
                Err(failure) => Err(failure),
            },
            r matches Ok(reader) ==> reader.wf(),
    {
        let header = Header::read_from(table.as_slice())?;
        match &memo {
            Some(m) => {
                m.check();
            },
            None => {},
        }
        Ok(Reader { header, table, memo })
    }

    /// A reader of the table `table`, with the texts of Memo fields in the
    /// memo file that `memo` is in the layout that the table announces. A
    /// memo file that is announced and not given is not missed here: reading
    /// a Memo field will fail. One that is given and cannot be used fails the
    /// opening.
    pub fn open(table: Vec<u8>, memo: Option<Vec<u8>>) -> (r: Result<Reader, Error>)
        ensures
            outcome_reader(r) == match parse_header(table@) {
                Err(failure) => Err::<(Seq<u8>, Option<MemoModel>), Failure>(failure),
                Ok(h) => match resolve_memo(h, bytes_model(memo)) {
                    Err(failure) => Err(failure),
                    Ok(m) => Ok((table@, m)),
                },
            },
            r matches Ok(reader) ==> reader.wf(),
    {
        let header = Header::read_from(table.as_slice())?;
        let memo = match (header.memo_kind(), memo) {
            (Some(kind), Some(bytes)) => Some(MemoFile::open(kind, bytes)?),
            _ => None,
        };
        Ok(Reader { header, table, memo })
    }

    /// The header of the table.
    pub fn header(&self) -> (header: &Header)
        ensures
            header@ == self.spec_header(),
            self.wf(),
    {
        proof {
            use_type_invariant(self);
        }
        &self.header
    }

    /// The memo file that the table is read with, if there is one.
    pub fn memo(&self) -> (memo: Option<&MemoFile>)
        ensures
            crate::value::borrowed_memo_model(memo) == self.spec_memo(),
            memo matches Some(m) ==> m.wf(),
            self.wf(),
    {
        proof {
            use_type_invariant(self);
        }
        self.memo.as_ref()
    }

    /// The bytes of the table.
    pub fn as_bytes(&self) -> (bytes: &[u8])
        ensures
            bytes@ == self.spec_table(),
    {
        self.table.as_slice()
    }

    /// The count of records that the header states.
    pub fn record_count(&self) -> (count: u32)
        ensures
            count == self.spec_header().record_count,
    {
        self.header.record_count()
    }

    /// The bytes of record `index`, if the table holds them all.
    pub fn record_bytes(&self, index: u32) -> (bytes: Option<&[u8]>)
        ensures
            self.wf(),
            match record_at(self.spec_table(), self.spec_header(), index as nat) {
                Some(record) => bytes matches Some(b) && b@ == record && record.len()
                    == self.spec_header().record_length(),
                None => bytes is None,
            },
    {
        proof {
            use_type_invariant(self);
        }
        let record_length = self.header.record_length();
        let start: u64 = self.header.header_length() as u64 + wide_product(
            index,
            record_length as u32,
        );
        if start + record_length as u64 > self.table.len() as u64 {
            return None;
        }
        Some(
            vstd::slice::slice_subrange(
                self.table.as_slice(),
                start as usize,
                start as usize + record_length as usize,
            ),
        )
    }

    /// The fields of record `index`, ready to be read one by one.
    pub fn field_iterator<'a>(&'a self, index: u32) -> (r: Result<FieldIterator<'a>, Error>)
        ensures
            self.wf(),
            match record_at(self.spec_table(), self.spec_header(), index as nat) {
                Some(record) => r matches Ok(it) && it.fields() == self.spec_header().fields
                    && it.record() == record && it.memo() == self.spec_memo() && it.cursor() == 0,
                None => r matches Err(e) && e@ == Failure::Io,
            },
    {
        proof {
            use_type_invariant(self);
        }
        match self.record_bytes(index) {
            None => Err(Error::truncated()),
            Some(bytes) => Ok(FieldIterator::new(self.header.fields(), bytes, self.memo.as_ref())),
        }
    }

    /// Record `index`, whatever the count of records that the header states.
    pub fn record(&self, index: u32) -> (r: Result<Record, Error>)
        ensures
            self.wf(),
            outcome_record(r) == table_record(
                self.spec_table(),
                self.spec_header(),
                self.spec_memo(),
                index as nat,
            ),
    {
        proof {
            use_type_invariant(self);
        }
        match self.record_bytes(index) {
            None => Err(Error::truncated()),
            Some(bytes) => decode_record(self.header.fields(), bytes, self.memo.as_ref()),
        }
    }

    /// All the records, deleted ones included, in the order of the file.
    pub fn read(&self) -> (r: Result<Vec<Record>, Error>)
        ensures
            self.wf(),
            outcome_records(r) == read_table(self.spec_table(), self.spec_memo()),
    {
        proof {
            use_type_invariant(self);
        }
        let count = self.header.record_count();
        let mut records: Vec<Record> = Vec::new();
        let mut index: u32 = 0;
        assert(records_model(records@) =~= Seq::<RecordModel>::empty());
        while index < count
            invariant
                index <= count,
                count == self.spec_header().record_count,
                table_records(
                    self.spec_table(),
                    self.spec_header(),
                    self.spec_memo(),
                    index as nat,
                ) == Ok::<Seq<RecordModel>, Failure>(records_model(records@)),
            decreases count - index,
        {
            let record = match self.record(index) {
                Ok(record) => record,
                Err(e) => {
                    proof {
                        lemma_table_records_fail(
                            self.spec_table(),
                            self.spec_header(),
                            self.spec_memo(),
                            index as nat,
                            count as nat,
                        );
                    }
                    return Err(e);
                },
            };
            assert(records_model(records@.push(record)) =~= records_model(records@).push(record@));
            records.push(record);
            index = index + 1;
        }
        Ok(records)
    }

    /// Record `index`, read as an `R`, whatever the count of records that
    /// the header states.
    pub fn record_as<R: ReadableRecord>(&self, index: u32) -> (r: Result<R, Error>)
        ensures
            self.wf(),
            record_read_as::<R>(
                self.spec_table(),
                self.spec_header(),
                self.spec_memo(),
                index as nat,
                r,
            ),
    {
        proof {
            use_type_invariant(self);
        }
        match self.field_iterator(index) {
            Err(e) => Err(e),
            Ok(mut field_iterator) => R::read_using(&mut field_iterator),
        }
    }

    /// All the records, each read as an `R`, or the failure of the first of
    /// them that cannot be read. A table without records gives none. Each
    /// of the records that come back is what `R` reads of the record of its
    /// place, and they are as many as the header states.
    pub fn read_as<R: ReadableRecord>(&self) -> (r: Result<Vec<R>, Error>)
        ensures
            self.spec_header().record_count == 0 ==> (r matches Ok(records) && records@.len()
                == 0),
            r matches Ok(records) ==> records@.len() == self.spec_header().record_count
                && records_read_as::<R>(
                self.spec_table(),
                self.spec_header(),
                self.spec_memo(),
                records@,
            ),
            r matches Err(e) ==> (exists|front: Seq<R>|
                #![auto]
                front.len() < self.spec_header().record_count && records_read_as::<R>(
                    self.spec_table(),
                    self.spec_header(),
                    self.spec_memo(),
                    front,
                ) && record_read_as::<R>(
                    self.spec_table(),
                    self.spec_header(),
                    self.spec_memo(),
                    front.len(),
                    Err::<R, Error>(e),
                )),
    {
        let count = self.header.record_count();
        let mut records: Vec<R> = Vec::new();
        let mut index: u32 = 0;
        while index < count
            invariant
                index <= count,
                count == self.spec_header().record_count,
                records@.len() == index,
                records_read_as::<R>(
                    self.spec_table(),
                    self.spec_header(),
                    self.spec_memo(),
                    records@,
                ),
            decreases count - index,
        {
            let record = match self.record_as::<R>(index) {
                Ok(record) => record,
                Err(e) => {
                    return Err(e);
                },
            };
            records.push(record);
            index = index + 1;
        }
        Ok(records)
    }

    /// The records, one at a time, from the first on.
    pub fn iter_records<'a>(&'a self) -> (records: RecordIterator<'a>)
        ensures
            records.position() == 0,
            records.reader() == *self,
    {
        RecordIterator { reader: self, position: 0 }
    }
}

/// The bytes of a memo file as plain values, if there are any.
pub open spec fn bytes_model(bytes: Option<Vec<u8>>) -> Option<Seq<u8>> {
    match bytes {
        Some(b) => Some(b@),
        None => None,
    }
}

/// All the records of the table `table`, with the texts of Memo fields in
/// the memo file that `memo` is in the layout that the table announces.
pub fn read(table: Vec<u8>, memo: Option<Vec<u8>>) -> (r: Result<Vec<Record>, Error>)
    ensures
        outcome_records(r) == read_files(table@, bytes_model(memo)),
{
    let reader = Reader::open(table, memo)?;
    reader.read()
}

/// The records of a table, one at a time. Each is decoded when it is asked
/// for.
pub struct RecordIterator<'a> {
    reader: &'a Reader,
    position: u32,
}

impl<'a> RecordIterator<'a> {
    /// The number of the record that comes next.
    pub closed spec fn position(self) -> nat {
        self.position as nat
    }

    /// The reader whose records these are.
    pub closed spec fn reader(self) -> Reader {
        *self.reader
    }

    /// The next record, or nothing after the last one that the header
    /// counts. A record that cannot be read is passed over all the same.
    pub fn next(&mut self) -> (r: Option<Result<Record, Error>>)
        ensures
            final(self).reader() == old(self).reader(),
            old(self).position() >= old(self).reader().spec_header().record_count ==> r is None
                && final(self).position() == old(self).position(),
            old(self).position() < old(self).reader().spec_header().record_count ==> {
                &&& final(self).position() == old(self).position() + 1
                &&& r matches Some(record)
                &&& outcome_record(record) == table_record(
                    old(self).reader().spec_table(),
                    old(self).reader().spec_header(),
                    old(self).reader().spec_memo(),
                    old(self).position(),
                )
            },
    {
        if self.position >= self.reader.record_count() {
            return None;
        }
        let record = self.reader.record(self.position);
        self.position = self.position + 1;
        Some(record)
    }

    /// Goes to record `index`, which comes next.
    pub fn seek(&mut self, index: u32)
        ensures
            final(self).reader() == old(self).reader(),
            final(self).position() == index,
    {
        self.position = index;
    }
}

} // verus!
