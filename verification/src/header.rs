//! The header of a table: 32 bytes of table-level facts, one descriptor of
//! 32 bytes for each column, and the byte `0x0D` behind the last of them.

use vstd::prelude::*;
use crate::bytes::{
    filled, le_bytes_u16, le_bytes_u32, le_u16, le_u32, lemma_le_u16_round_trip,
    lemma_le_u32_round_trip, push_all, push_fill, read_u16_le, read_u32_le, u16_le, u32_le,
};
use crate::date::Date;
use crate::memo::MemoKind;
use crate::schema::{
    all_wf, descriptor_bytes, field_specs, lemma_descriptor_round_trip, parse_descriptor,
    FieldInfo, FieldSpec, DESCRIPTOR_SIZE,
};
use crate::text::is_printable;
use crate::{Error, Failure};

verus! {

/// The bytes of a header before its descriptors.
pub const PREFIX_SIZE: usize = 32;

/// The byte behind the last descriptor.
pub const HEADER_TERMINATOR: u8 = 0x0d;

/// The byte behind the last record.
pub const END_OF_FILE: u8 = 0x1a;

/// The signature of a table without memo file.
pub const VERSION_PLAIN: u8 = 0x03;

/// The signature of a table with a memo file in the classic layout.
pub const VERSION_CLASSIC_MEMO: u8 = 0x83;

/// The signature of a dBase IV table with a memo file.
pub const VERSION_DBASE4_MEMO: u8 = 0x8b;

/// The signature of a table with a memo file in the FoxPro layout.
pub const VERSION_FOXPRO_MEMO: u8 = 0xf5;

/// What is wrong with a header whose lengths are not those of its fields.
pub const INCONSISTENT_HEADER: &'static str =
    "the header and record lengths do not match the fields that the header declares";

/// The day of the last change as a header holds it: the years since 1900,
/// the month and the day, one byte each and none of them checked.
#[derive(Debug, Clone, Copy, PartialEq, Eq, Structural)]
pub struct LastUpdate {
    pub years_since_1900: u8,
    pub month: u8,
    pub day: u8,
}

impl LastUpdate {
    /// The day as a date, if the calendar has it.
    pub fn date(self) -> (r: Result<Date, Error>)
        ensures
            r.is_ok() == crate::date::is_table_date(
                1900 + self.years_since_1900,
                self.month as int,
                self.day as int,
            ),
            r matches Ok(d) ==> d == Date::of(
                1900 + self.years_since_1900,
                self.month as int,
                self.day as int,
            ),
            r matches Err(e) ==> e@ == Failure::InvalidDate,
    {
        Date::new(self.day as u32, self.month as u32, 1900 + self.years_since_1900 as u32)
    }

    /// The day of `date`, if its year is one that a byte can count from
    /// 1900.
    pub fn from_date(date: &Date) -> (r: Option<LastUpdate>)
        ensures
            r.is_some() == (1900 <= date.spec_year() <= 2155),
            r matches Some(u) ==> 1900 + u.years_since_1900 == date.spec_year() && u.month
                == date.spec_month() && u.day == date.spec_day(),
    {
        let year = date.year();
        if year < 1900 || year > 2155 {
            return None;
        }
        Some(
            LastUpdate {
                years_since_1900: (year - 1900) as u8,
                month: date.month() as u8,
                day: date.day() as u8,
            },
        )
    }
}

/// The memo layout that a signature byte announces, if it announces one.
pub open spec fn spec_memo_kind(version: u8) -> Option<MemoKind> {
    if version == VERSION_CLASSIC_MEMO || version == VERSION_DBASE4_MEMO {
        Some(MemoKind::Classic)
    } else if version == VERSION_FOXPRO_MEMO {
        Some(MemoKind::FoxPro)
    } else {
        None
    }
}

/// The bytes that the slots of the columns take together.
pub open spec fn slots_length(fields: Seq<FieldSpec>) -> nat
    decreases fields.len(),
{
    if fields.len() == 0 {
        0
    } else {
        slots_length(fields.drop_last()) + fields.last().length
    }
}

/// The bytes of one record: the deletion flag and the slots.
pub open spec fn record_length(fields: Seq<FieldSpec>) -> nat {
    1 + slots_length(fields)
}

/// The bytes of the header: the prefix, the descriptors and the terminator.
pub open spec fn header_length(fields: Seq<FieldSpec>) -> nat {
    PREFIX_SIZE as nat + DESCRIPTOR_SIZE as nat * fields.len() + 1
}

/// Where the slot of column `index` starts in a record.
pub open spec fn field_offset(fields: Seq<FieldSpec>, index: int) -> nat {
    1 + slots_length(fields.take(index))
}

/// Whether columns can be the schema of a table: each is well formed, and
/// the header and the record are short enough for their lengths to be
/// written in sixteen bits.
pub open spec fn is_schema(fields: Seq<FieldSpec>) -> bool {
    &&& all_wf(fields)
    &&& header_length(fields) <= u16::MAX
    &&& record_length(fields) <= u16::MAX
}

/// A header as plain values.
pub struct HeaderModel {
    pub version: u8,
    pub last_update: LastUpdate,
    pub record_count: u32,
    pub fields: Seq<FieldSpec>,
}

impl HeaderModel {
    /// Whether the columns can be the schema of a table.
    pub open spec fn wf(self) -> bool {
        is_schema(self.fields)
    }

    /// The bytes of the header.
    pub open spec fn header_length(self) -> nat {
        header_length(self.fields)
    }

    /// The bytes of one record.
    pub open spec fn record_length(self) -> nat {
        record_length(self.fields)
    }

    /// Whether the signature announces a memo file.
    pub open spec fn has_memo(self) -> bool {
        spec_memo_kind(self.version).is_some()
    }
}

/// The descriptors of the columns, one behind the other.
pub open spec fn descriptors_bytes(fields: Seq<FieldSpec>) -> Seq<u8>
    decreases fields.len(),
{
    if fields.len() == 0 {
        Seq::empty()
    } else {
        descriptors_bytes(fields.drop_last()) + descriptor_bytes(fields.last())
    }
}

/// The first 32 bytes of a header: the signature, the day of the last
/// change, the count of records, the length of the header and of a record,
/// and twenty bytes kept free.
pub open spec fn prefix_bytes(h: HeaderModel) -> Seq<u8> {
    seq![h.version, h.last_update.years_since_1900, h.last_update.month, h.last_update.day]
        + le_bytes_u32(h.record_count) + le_bytes_u16(h.header_length() as u16) + le_bytes_u16(
        h.record_length() as u16,
    ) + filled(0, 20)
}

/// The header as bytes.
pub open spec fn header_bytes(h: HeaderModel) -> Seq<u8> {
    prefix_bytes(h) + descriptors_bytes(h.fields) + seq![HEADER_TERMINATOR]
}

/// `front` before the columns that were parsed, and the failure if they
/// were not.
pub open spec fn prepend(front: Seq<FieldSpec>, r: Result<Seq<FieldSpec>, Failure>) -> Result<
    Seq<FieldSpec>,
    Failure,
> {
    match r {
        Ok(rest) => Ok(front + rest),
        Err(failure) => Err(failure),
    }
}

/// The columns that the descriptors from `pos` on declare: one descriptor
/// after the other up to the byte `0x0D`. Bytes that end before that byte
/// are an input that ended too early.
pub open spec fn parse_fields(bytes: Seq<u8>, pos: int) -> Result<Seq<FieldSpec>, Failure>
    decreases bytes.len() - pos,
{
    if pos < 0 || pos >= bytes.len() {
        Err(Failure::Io)
    } else if bytes[pos] == HEADER_TERMINATOR {
        Ok(Seq::empty())
    } else if pos + DESCRIPTOR_SIZE > bytes.len() {
        Err(Failure::Io)
    } else {
        match parse_descriptor(bytes.subrange(pos, pos + DESCRIPTOR_SIZE)) {
            Err(failure) => Err(failure),
            Ok(field) => prepend(seq![field], parse_fields(bytes, pos + DESCRIPTOR_SIZE)),
        }
    }
}

/// The header at the start of `bytes`. The lengths that it states must be
/// those that its columns give.
pub open spec fn parse_header(bytes: Seq<u8>) -> Result<HeaderModel, Failure> {
    if bytes.len() < PREFIX_SIZE {
        Err(Failure::Io)
    } else {
        match parse_fields(bytes, PREFIX_SIZE as int) {
            Err(failure) => Err(failure),
            Ok(fields) => if le_u16(bytes.skip(8)) != header_length(fields) || le_u16(
                bytes.skip(10),
            ) != record_length(fields) {
                Err(Failure::Message(INCONSISTENT_HEADER@))
            } else {
                Ok(
                    HeaderModel {
                        version: bytes[0],
                        last_update: LastUpdate {
                            years_since_1900: bytes[1],
                            month: bytes[2],
                            day: bytes[3],
                        },
                        record_count: le_u32(bytes.skip(4)) as u32,
                        fields,
                    },
                )
            },
        }
    }
}

/// Nothing in front changes nothing.
pub proof fn lemma_prepend_empty(r: Result<Seq<FieldSpec>, Failure>)
    ensures
        prepend(Seq::empty(), r) == r,
{
    match r {
        Ok(rest) => {
            assert(Seq::<FieldSpec>::empty() + rest =~= rest);
        },
        Err(_) => {},
    }
}

/// Columns in front of a column in front of others are the columns and the
/// column in front of the others.
pub proof fn lemma_prepend_step(
    front: Seq<FieldSpec>,
    field: FieldSpec,
    r: Result<Seq<FieldSpec>, Failure>,
)
    ensures
        prepend(front, prepend(seq![field], r)) == prepend(front.push(field), r),
{
    match r {
        Ok(rest) => {
            assert(front + (seq![field] + rest) =~= front.push(field) + rest);
        },
        Err(_) => {},
    }
}

/// The slots of some of the columns take no more room than those of all.
pub proof fn lemma_slots_length_prefix(fields: Seq<FieldSpec>, k: int)
    requires
        0 <= k <= fields.len(),
    ensures
        slots_length(fields.take(k)) <= slots_length(fields),
    decreases fields.len() - k,
{
    if k < fields.len() {
        lemma_slots_length_prefix(fields, k + 1);
        assert(fields.take(k + 1).drop_last() =~= fields.take(k));
    } else {
        assert(fields.take(k) =~= fields);
    }
}

/// The slots up to a column and the column's own slot are the slots up to
/// the next one.
pub proof fn lemma_field_offset_next(fields: Seq<FieldSpec>, index: int)
    requires
        0 <= index < fields.len(),
    ensures
        field_offset(fields, index + 1) == field_offset(fields, index) + fields[index].length,
        field_offset(fields, index + 1) <= record_length(fields),
        field_offset(fields, 0) == 1,
{
    assert(fields.take(index + 1).drop_last() =~= fields.take(index));
    assert(fields.take(index + 1).last() == fields[index]);
    lemma_slots_length_prefix(fields, index + 1);
    assert(fields.take(0).len() == 0);
}

/// The slot of the first column starts behind the deletion flag, and the
/// slots of all the columns end where the record ends.
pub proof fn lemma_field_offset_ends(fields: Seq<FieldSpec>)
    ensures
        field_offset(fields, 0) == 1,
        field_offset(fields, fields.len() as int) == record_length(fields),
{
    assert(fields.take(0).len() == 0);
    assert(fields.take(fields.len() as int) =~= fields);
}

/// The descriptors take 32 bytes each.
pub proof fn lemma_descriptors_len(fields: Seq<FieldSpec>)
    requires
        all_wf(fields),
    ensures
        descriptors_bytes(fields).len() == DESCRIPTOR_SIZE * fields.len(),
    decreases fields.len(),
{
    if fields.len() > 0 {
        assert(fields.last().wf());
        assert(all_wf(fields.drop_last())) by {
            assert forall|i: int| 0 <= i < fields.drop_last().len() implies (
            #[trigger] fields.drop_last()[i]).wf() by {
                assert(fields[i].wf());
            }
        }
        lemma_descriptors_len(fields.drop_last());
        lemma_descriptor_round_trip(fields.last());
    }
}

/// The descriptors are the first one and then the others.
pub proof fn lemma_descriptors_front(fields: Seq<FieldSpec>)
    requires
        fields.len() > 0,
    ensures
        descriptors_bytes(fields) == descriptor_bytes(fields[0]) + descriptors_bytes(
            fields.drop_first(),
        ),
    decreases fields.len(),
{
    if fields.len() == 1 {
        assert(fields.drop_last().len() == 0);
        assert(fields.drop_first().len() == 0);
        assert(descriptors_bytes(fields.drop_last()) =~= Seq::<u8>::empty());
        assert(descriptors_bytes(fields.drop_first()) =~= Seq::<u8>::empty());
        assert(fields.last() == fields[0]);
        assert(descriptors_bytes(fields) =~= descriptor_bytes(fields[0]));
        assert(descriptor_bytes(fields[0]) + descriptors_bytes(fields.drop_first())
            =~= descriptor_bytes(fields[0]));
    } else {
        let init = fields.drop_last();
        lemma_descriptors_front(init);
        assert(init.drop_first() =~= fields.drop_first().drop_last());
        assert(init[0] == fields[0]);
        assert(fields.drop_first().last() == fields.last());
        assert(descriptor_bytes(fields[0]) + descriptors_bytes(init.drop_first())
            + descriptor_bytes(fields.last()) =~= descriptor_bytes(fields[0]) + (descriptors_bytes(
            init.drop_first(),
        ) + descriptor_bytes(fields.last())));
    }
}

/// Descriptors and the terminator behind them, wherever they lie in some
/// bytes, parse as the columns that they declare.
pub proof fn lemma_parse_fields(bytes: Seq<u8>, pos: int, fields: Seq<FieldSpec>)
    requires
        all_wf(fields),
        0 <= pos,
        pos + DESCRIPTOR_SIZE * fields.len() + 1 <= bytes.len(),
        bytes.subrange(pos, pos + DESCRIPTOR_SIZE * fields.len() + 1) == descriptors_bytes(fields)
            + seq![HEADER_TERMINATOR],
    ensures
        parse_fields(bytes, pos) == Ok::<Seq<FieldSpec>, Failure>(fields),
    decreases fields.len(),
{
    let n = fields.len() as int;
    let part = bytes.subrange(pos, pos + DESCRIPTOR_SIZE * n + 1);
    lemma_descriptors_len(fields);
    if n == 0 {
        assert(part[0] == HEADER_TERMINATOR);
        assert(bytes[pos] == part[0]);
        assert(fields =~= Seq::<FieldSpec>::empty());
    } else {
        let first = fields[0];
        let rest = fields.drop_first();
        assert(first.wf());
        assert(all_wf(rest)) by {
            assert forall|i: int| 0 <= i < rest.len() implies (#[trigger] rest[i]).wf() by {
                assert(fields[i + 1].wf());
            }
        }
        lemma_descriptors_front(fields);
        lemma_descriptors_len(rest);
        lemma_descriptor_round_trip(first);
        let d = descriptor_bytes(first);
        assert(bytes.subrange(pos, pos + DESCRIPTOR_SIZE) =~= d) by {
            assert forall|i: int| 0 <= i < DESCRIPTOR_SIZE implies bytes[pos + i] == d[i] by {
                assert(bytes[pos + i] == part[i]);
            }
        }
        assert(bytes[pos] == d[0]);
        assert(d[0] == first.name[0]);
        assert(is_printable(first.name[0]));
        let next = pos + DESCRIPTOR_SIZE;
        assert(bytes.subrange(next, next + DESCRIPTOR_SIZE * rest.len() + 1) =~= descriptors_bytes(
            rest,
        ) + seq![HEADER_TERMINATOR]) by {
            assert forall|i: int| 0 <= i < DESCRIPTOR_SIZE * rest.len() + 1 implies bytes[next + i]
                == (descriptors_bytes(rest) + seq![HEADER_TERMINATOR])[i] by {
                assert(bytes[next + i] == part[DESCRIPTOR_SIZE + i]);
            }
        }
        lemma_parse_fields(bytes, next, rest);
        assert(seq![first] + rest =~= fields);
    }
}

/// A header that is written and read again is the same header, whatever
/// follows it; and it is as long as it says.
pub proof fn lemma_header_round_trip(h: HeaderModel, rest: Seq<u8>)
    requires
        h.wf(),
    ensures
        header_bytes(h).len() == h.header_length(),
        parse_header(header_bytes(h) + rest) == Ok::<HeaderModel, Failure>(h),
{
    let bytes = header_bytes(h) + rest;
    let prefix = prefix_bytes(h);
    let n = h.fields.len() as int;
    lemma_descriptors_len(h.fields);
    lemma_le_u32_round_trip(h.record_count);
    lemma_le_u16_round_trip(h.header_length() as u16);
    lemma_le_u16_round_trip(h.record_length() as u16);
    assert(prefix.len() == PREFIX_SIZE);
    assert(bytes.subrange(PREFIX_SIZE as int, PREFIX_SIZE + DESCRIPTOR_SIZE * n + 1)
        =~= descriptors_bytes(h.fields) + seq![HEADER_TERMINATOR]);
    lemma_parse_fields(bytes, PREFIX_SIZE as int, h.fields);
    let count = le_bytes_u32(h.record_count);
    let hl = le_bytes_u16(h.header_length() as u16);
    let rl = le_bytes_u16(h.record_length() as u16);
    assert(bytes[0] == h.version && bytes[1] == h.last_update.years_since_1900 && bytes[2]
        == h.last_update.month && bytes[3] == h.last_update.day);
    let at4 = bytes.skip(4);
    assert(at4[0] == count[0] && at4[1] == count[1] && at4[2] == count[2] && at4[3] == count[3]);
    let at8 = bytes.skip(8);
    assert(at8[0] == hl[0] && at8[1] == hl[1]);
    let at10 = bytes.skip(10);
    assert(at10[0] == rl[0] && at10[1] == rl[1]);
}

/// Whatever parses as a header is a well-formed header, and the lengths that
/// the bytes state are those that its columns give.
pub proof fn lemma_parsed_header(bytes: Seq<u8>)
    requires
        parse_header(bytes) is Ok,
    ensures
        parse_header(bytes)->Ok_0.wf(),
        le_u16(bytes.skip(8)) == header_length(parse_header(bytes)->Ok_0.fields),
        le_u16(bytes.skip(10)) == record_length(parse_header(bytes)->Ok_0.fields),
        parse_header(bytes)->Ok_0.header_length() <= bytes.len(),
{
    lemma_parsed_fields(bytes, PREFIX_SIZE as int);
}

/// Whatever parses as columns is well-formed columns that the bytes had
/// room for.
pub proof fn lemma_parsed_fields(bytes: Seq<u8>, pos: int)
    requires
        parse_fields(bytes, pos) is Ok,
    ensures
        all_wf(parse_fields(bytes, pos)->Ok_0),
        pos + DESCRIPTOR_SIZE * parse_fields(bytes, pos)->Ok_0.len() + 1 <= bytes.len(),
    decreases bytes.len() - pos,
{
    if bytes[pos] != HEADER_TERMINATOR {
        let field = parse_descriptor(bytes.subrange(pos, pos + DESCRIPTOR_SIZE))->Ok_0;
        lemma_parsed_fields(bytes, pos + DESCRIPTOR_SIZE);
        let rest = parse_fields(bytes, pos + DESCRIPTOR_SIZE)->Ok_0;
        let fields = seq![field] + rest;
        assert(field.wf());
        assert forall|i: int| 0 <= i < fields.len() implies (#[trigger] fields[i]).wf() by {
            if i > 0 {
                assert(fields[i] == rest[i - 1]);
            }
        }
    }
}

/// What is wrong with columns that make a header or a record too long.
pub const TOO_MANY_FIELDS: &'static str =
    "the fields are too many or too wide for the lengths that a header can state";

/// A copy of the columns.
pub fn clone_fields(fields: &Vec<FieldInfo>) -> (copy: Vec<FieldInfo>)
    ensures
        field_specs(copy@) == field_specs(fields@),
{
    let mut copy: Vec<FieldInfo> = Vec::new();
    let mut i: usize = 0;
    while i < fields.len()
        invariant
            i <= fields@.len(),
            copy@.len() == i,
            forall|j: int| 0 <= j < i ==> copy@[j]@ == fields@[j]@,
        decreases fields@.len() - i,
    {
        copy.push(fields[i].clone());
        i = i + 1;
    }
    assert(field_specs(copy@) =~= field_specs(fields@));
    copy
}

/// The lengths of the header and of a record for these columns, if sixteen
/// bits can state them.
pub fn measure(fields: &Vec<FieldInfo>) -> (r: Option<(u16, u16)>)
    ensures
        r.is_some() == is_schema(field_specs(fields@)),
        r matches Some((header, record)) ==> header == header_length(field_specs(fields@))
            && record == record_length(field_specs(fields@)),
{
    let ghost specs = field_specs(fields@);
    let n = fields.len();
    let mut total: u32 = 1;
    let mut i: usize = 0;
    assert(specs.take(0).len() == 0);
    while i < n
        invariant
            i <= n,
            n == fields@.len(),
            specs == field_specs(fields@),
            total == 1 + slots_length(specs.take(i as int)),
            total <= u16::MAX,
            forall|j: int| 0 <= j < i ==> (#[trigger] specs[j]).wf(),
        decreases n - i,
    {
        let length = fields[i].length();
        proof {
            assert(specs[i as int] == fields@[i as int]@);
            assert(specs.take(i + 1).drop_last() =~= specs.take(i as int));
            assert(specs.take(i + 1).last() == specs[i as int]);
            lemma_slots_length_prefix(specs, i + 1);
        }
        if total + length as u32 > u16::MAX as u32 {
            return None;
        }
        total = total + length as u32;
        i = i + 1;
    }
    assert(specs.take(n as int) =~= specs);
    assert(specs.len() == n);
    assert(header_length(specs) == 33 + 32 * n);
    if n > 2046 {
        return None;
    }
    assert(all_wf(specs));
    let header: usize = 33 + 32 * n;
    Some((header as u16, total as u16))
}

/// A header.
#[derive(Debug, PartialEq, Eq)]
pub struct Header {
    version: u8,
    last_update: LastUpdate,
    record_count: u32,
    header_length: u16,
    record_length: u16,
    fields: Vec<FieldInfo>,
}

impl View for Header {
    type V = HeaderModel;

    closed spec fn view(&self) -> HeaderModel {
        HeaderModel {
            version: self.version,
            last_update: self.last_update,
            record_count: self.record_count,
            fields: field_specs(self.fields@),
        }
    }
}

/// The result of reading a header, as contracts speak of it.
pub open spec fn outcome_header(r: Result<Header, Error>) -> Result<HeaderModel, Failure> {
    match r {
        Ok(h) => Ok(h@),
        Err(e) => Err(e@),
    }
}

impl Clone for Header {
    fn clone(&self) -> (h: Header)
        ensures
            h@ == self@,
    {
        proof {
            use_type_invariant(self);
        }
        Header {
            version: self.version,
            last_update: self.last_update,
            record_count: self.record_count,
            header_length: self.header_length,
            record_length: self.record_length,
            fields: clone_fields(&self.fields),
        }
    }
}

impl Header {
    #[verifier::type_invariant]
    closed spec fn inv(self) -> bool {
        &&& self@.wf()
        &&& self.header_length == self@.header_length()
        &&& self.record_length == self@.record_length()
    }

    /// The header of a table with these columns and no record yet.
    pub fn new(version: u8, last_update: LastUpdate, fields: Vec<FieldInfo>) -> (r: Result<
        Header,
        Error,
    >)
        ensures
            outcome_header(r) == if is_schema(field_specs(fields@)) {
                Ok::<HeaderModel, Failure>(
                    HeaderModel {
                        version,
                        last_update,
                        record_count: 0,
                        fields: field_specs(fields@),
                    },
                )
            } else {
                Err(Failure::Message(TOO_MANY_FIELDS@))
            },
            r matches Ok(h) ==> h@.wf(),
    {
        match measure(&fields) {
            None => Err(Error::message(TOO_MANY_FIELDS)),
            Some((header_length, record_length)) => Ok(
                Header {
                    version,
                    last_update,
                    record_count: 0,
                    header_length,
                    record_length,
                    fields,
                },
            ),
        }
    }

    /// The same header with another count of records.
    pub fn with_record_count(self, record_count: u32) -> (h: Header)
        ensures
            h@ == (HeaderModel { record_count, ..self@ }),
            h@.wf(),
    {
        proof {
            use_type_invariant(&self);
        }
        Header {
            version: self.version,
            last_update: self.last_update,
            record_count,
            header_length: self.header_length,
            record_length: self.record_length,
            fields: self.fields,
        }
    }

    /// The signature byte.
    pub fn version(&self) -> (version: u8)
        ensures
            version == self@.version,
    {
        self.version
    }

    /// The day of the last change.
    pub fn last_update(&self) -> (last_update: LastUpdate)
        ensures
            last_update == self@.last_update,
    {
        self.last_update
    }

    /// The count of records.
    pub fn record_count(&self) -> (record_count: u32)
        ensures
            record_count == self@.record_count,
    {
        self.record_count
    }

    /// The bytes of the header, which is where the first record starts.
    pub fn header_length(&self) -> (length: u16)
        ensures
            length == self@.header_length(),
            self@.wf(),
    {
        proof {
            use_type_invariant(self);
        }
        self.header_length
    }

    /// The bytes of one record.
    pub fn record_length(&self) -> (length: u16)
        ensures
            length == self@.record_length(),
            self@.wf(),
    {
        proof {
            use_type_invariant(self);
        }
        self.record_length
    }

    /// The columns, in the order of their slots.
    pub fn fields(&self) -> (fields: &Vec<FieldInfo>)
        ensures
            field_specs(fields@) == self@.fields,
            self@.wf(),
    {
        proof {
            use_type_invariant(self);
        }
        &self.fields
    }

    /// Where record `index` starts in the table.
    pub fn record_offset(&self, index: u32) -> (offset: u64)
        ensures
            offset == self@.header_length() + index * self@.record_length(),
            self@.wf(),
    {
        proof {
            use_type_invariant(self);
        }
        self.header_length as u64 + crate::memo::wide_product(index, self.record_length as u32)
    }

    /// The length that the first 32 bytes of a table state for its header,
    /// which is how many bytes it takes to read the header.
    pub fn stated_length(prefix: &[u8]) -> (r: Result<u16, Error>)
        ensures
            match r {
                Ok(length) => prefix@.len() >= PREFIX_SIZE && length == le_u16(prefix@.skip(8)),
                Err(e) => prefix@.len() < PREFIX_SIZE && e@ == Failure::Io,
            },
    {
        if prefix.len() < PREFIX_SIZE {
            return Err(Error::truncated());
        }
        let length = read_u16_le(vstd::slice::slice_subrange(prefix, 8, 10));
        proof {
            let a = prefix@.subrange(8, 10);
            let b = prefix@.skip(8);
            assert(a[0] == b[0] && a[1] == b[1]);
        }
        Ok(length)
    }

    /// The memo layout that the signature announces, if it announces one.
    pub fn memo_kind(&self) -> (kind: Option<MemoKind>)
        ensures
            kind == spec_memo_kind(self@.version),
    {
        if self.version == VERSION_CLASSIC_MEMO || self.version == VERSION_DBASE4_MEMO {
            Some(MemoKind::Classic)
        } else if self.version == VERSION_FOXPRO_MEMO {
            Some(MemoKind::FoxPro)
        } else {
            None
        }
    }

    /// Whether the signature announces a memo file.
    pub fn has_memo(&self) -> (has_memo: bool)
        ensures
            has_memo == self@.has_memo(),
    {
        self.memo_kind().is_some()
    }

    /// Appends the header to `dest`.
    pub fn write_to(&self, dest: &mut Vec<u8>)
        ensures
            final(dest)@ == old(dest)@ + header_bytes(self@),
            self@.wf(),
    {
        proof {
            use_type_invariant(self);
        }
        let ghost start = dest@;
        let ghost specs = self@.fields;
        dest.push(self.version);
        dest.push(self.last_update.years_since_1900);
        dest.push(self.last_update.month);
        dest.push(self.last_update.day);
        let count = u32_le(self.record_count);
        let header_length = u16_le(self.header_length);
        let record_length = u16_le(self.record_length);
        push_all(dest, count.as_slice());
        push_all(dest, header_length.as_slice());
        push_all(dest, record_length.as_slice());
        push_fill(dest, 0, 20);
        assert(dest@ =~= start + prefix_bytes(self@));
        let mut i: usize = 0;
        assert(specs.take(0).len() == 0);
        while i < self.fields.len()
            invariant
                i <= self.fields@.len(),
                specs == field_specs(self.fields@),
                dest@ == start + prefix_bytes(self@) + descriptors_bytes(specs.take(i as int)),
            decreases self.fields@.len() - i,
        {
            self.fields[i].write_to(dest);
            proof {
                assert(specs.take(i + 1).drop_last() =~= specs.take(i as int));
                assert(specs.take(i + 1).last() == specs[i as int]);
                assert(start + prefix_bytes(self@) + descriptors_bytes(specs.take(i as int))
                    + descriptor_bytes(specs[i as int]) =~= start + prefix_bytes(self@)
                    + descriptors_bytes(specs.take(i + 1)));
            }
            i = i + 1;
        }
        assert(specs.take(specs.len() as int) =~= specs);
        dest.push(HEADER_TERMINATOR);
        assert(dest@ =~= start + header_bytes(self@));
    }

    /// The header at the start of `bytes`.
    pub fn read_from(bytes: &[u8]) -> (r: Result<Header, Error>)
        ensures
            outcome_header(r) == parse_header(bytes@),
            r matches Ok(h) ==> h@.wf() && h@.header_length() <= bytes@.len(),
    {
        let len = bytes.len();
        if len < PREFIX_SIZE {
            return Err(Error::truncated());
        }
        let mut fields: Vec<FieldInfo> = Vec::new();
        let mut pos: usize = PREFIX_SIZE;
        proof {
            lemma_prepend_empty(parse_fields(bytes@, PREFIX_SIZE as int));
            assert(field_specs(fields@) =~= Seq::<FieldSpec>::empty());
        }
        while pos < len && bytes[pos] != HEADER_TERMINATOR
            invariant
                PREFIX_SIZE <= pos,
                len == bytes@.len(),
                parse_fields(bytes@, PREFIX_SIZE as int) == prepend(
                    field_specs(fields@),
                    parse_fields(bytes@, pos as int),
                ),
                all_wf(field_specs(fields@)),
            decreases len - pos,
        {
            if len - pos < DESCRIPTOR_SIZE {
                return Err(Error::truncated());
            }
            let descriptor = vstd::slice::slice_subrange(bytes, pos, pos + DESCRIPTOR_SIZE);
            let info = match FieldInfo::read_from(descriptor) {
                Ok(info) => info,
                Err(e) => {
                    return Err(e);
                },
            };
            proof {
                lemma_prepend_step(
                    field_specs(fields@),
                    info@,
                    parse_fields(bytes@, pos + DESCRIPTOR_SIZE),
                );
                assert(field_specs(fields@.push(info)) =~= field_specs(fields@).push(info@));
                assert forall|i: int| 0 <= i <= fields@.len() implies (#[trigger] field_specs(
                    fields@,
                ).push(info@)[i]).wf() by {
                    if i < fields@.len() {
                        assert(field_specs(fields@)[i].wf());
                    }
                }
            }
            fields.push(info);
            pos = pos + DESCRIPTOR_SIZE;
        }
        if pos >= len {
            return Err(Error::truncated());
        }
        proof {
            assert(field_specs(fields@) + Seq::<FieldSpec>::empty() =~= field_specs(fields@));
        }
        let stated_header = read_u16_le(vstd::slice::slice_subrange(bytes, 8, 10));
        let stated_record = read_u16_le(vstd::slice::slice_subrange(bytes, 10, 12));
        let record_count = read_u32_le(vstd::slice::slice_subrange(bytes, 4, 8));
        proof {
            let a = bytes@.subrange(8, 10);
            let b = bytes@.skip(8);
            assert(a[0] == b[0] && a[1] == b[1]);
            let c = bytes@.subrange(10, 12);
            let d = bytes@.skip(10);
            assert(c[0] == d[0] && c[1] == d[1]);
            let e = bytes@.subrange(4, 8);
            let f = bytes@.skip(4);
            assert(e[0] == f[0] && e[1] == f[1] && e[2] == f[2] && e[3] == f[3]);
        }
        match measure(&fields) {
            None => Err(Error::message(INCONSISTENT_HEADER)),
            Some((header_length, record_length)) => {
                if stated_header != header_length || stated_record != record_length {
                    return Err(Error::message(INCONSISTENT_HEADER));
                }
                proof {
                    lemma_parsed_header(bytes@);
                }
                Ok(
                    Header {
                        version: bytes[0],
                        last_update: LastUpdate {
                            years_since_1900: bytes[1],
                            month: bytes[2],
                            day: bytes[3],
                        },
                        record_count,
                        header_length,
                        record_length,
                        fields,
                    },
                )
            },
        }
    }
}

} // verus!
