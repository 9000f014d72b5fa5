//! The schema of a table: column types, names, and the 32-byte descriptor
//! that declares one column in the header.

use vstd::prelude::*;
use vstd::utf8::{decode_utf8_encode_utf8, encode_utf8};
use crate::bytes::{filled, lemma_trim_end_padded, push_all, push_fill, trim_end, trimmed_end_len};
use crate::text::{all_printable, ascii_chars, is_printable, lemma_ascii_text, text_from_bytes};
use crate::{Error, Failure};

verus! {

/// The bytes of one field descriptor.
pub const DESCRIPTOR_SIZE: usize = 32;

/// The bytes that a descriptor keeps for the name.
pub const NAME_SLOT: usize = 11;

/// The most bytes that a field name can take.
pub const MAX_NAME_LENGTH: usize = 10;

/// What is wrong with a name that is empty or holds something unprintable.
pub const INVALID_NAME: &'static str =
    "the field name is empty or holds a byte that is not printable ASCII";

/// What is wrong with a length and decimal count that the type does not
/// allow.
pub const INVALID_WIDTH: &'static str = "the length and decimal count do not suit the field type";

/// The column types that a table can declare.
#[derive(Debug, Clone, Copy, PartialEq, Eq, Structural)]
pub enum FieldType {
    Character,
    Numeric,
    Float,
    Logical,
    Date,
    DateTime,
    Integer,
    Double,
    Currency,
    Memo,
}

impl FieldType {
    /// The letter that stands for the type in a descriptor.
    pub open spec fn spec_code(self) -> u8 {
        match self {
            FieldType::Character => 0x43,
            FieldType::Numeric => 0x4e,
            FieldType::Float => 0x46,
            FieldType::Logical => 0x4c,
            FieldType::Date => 0x44,
            FieldType::DateTime => 0x54,
            FieldType::Integer => 0x49,
            FieldType::Double => 0x42,
            FieldType::Currency => 0x59,
            FieldType::Memo => 0x4d,
        }
    }

    /// The type that a letter stands for, if it stands for one.
    pub open spec fn spec_from_code(code: u8) -> Option<FieldType> {
        if code == 0x43 {
            Some(FieldType::Character)
        } else if code == 0x4e {
            Some(FieldType::Numeric)
        } else if code == 0x46 {
            Some(FieldType::Float)
        } else if code == 0x4c {
            Some(FieldType::Logical)
        } else if code == 0x44 {
            Some(FieldType::Date)
        } else if code == 0x54 {
            Some(FieldType::DateTime)
        } else if code == 0x49 {
            Some(FieldType::Integer)
        } else if code == 0x42 {
            Some(FieldType::Double)
        } else if code == 0x59 {
            Some(FieldType::Currency)
        } else if code == 0x4d {
            Some(FieldType::Memo)
        } else {
            None
        }
    }

    /// The letter that stands for the type in a descriptor.
    #[verifier::when_used_as_spec(spec_code)]
    pub fn code(self) -> (code: u8)
        ensures
            code == self.spec_code(),
            FieldType::spec_from_code(code) == Some(self),
    {
        match self {
            FieldType::Character => 0x43,
            FieldType::Numeric => 0x4e,
            FieldType::Float => 0x46,
            FieldType::Logical => 0x4c,
            FieldType::Date => 0x44,
            FieldType::DateTime => 0x54,
            FieldType::Integer => 0x49,
            FieldType::Double => 0x42,
            FieldType::Currency => 0x59,
            FieldType::Memo => 0x4d,
        }
    }

    /// The type that the letter `code` stands for.
    pub fn from_code(code: u8) -> (r: Option<FieldType>)
        ensures
            r == FieldType::spec_from_code(code),
            r matches Some(t) ==> t.spec_code() == code,
    {
        if code == 0x43 {
            Some(FieldType::Character)
        } else if code == 0x4e {
            Some(FieldType::Numeric)
        } else if code == 0x46 {
            Some(FieldType::Float)
        } else if code == 0x4c {
            Some(FieldType::Logical)
        } else if code == 0x44 {
            Some(FieldType::Date)
        } else if code == 0x54 {
            Some(FieldType::DateTime)
        } else if code == 0x49 {
            Some(FieldType::Integer)
        } else if code == 0x42 {
            Some(FieldType::Double)
        } else if code == 0x59 {
            Some(FieldType::Currency)
        } else if code == 0x4d {
            Some(FieldType::Memo)
        } else {
            None
        }
    }

    /// The type that the letter `code` stands for, or the error that names
    /// the letter.
    pub fn try_from_code(code: u8) -> (r: Result<FieldType, Error>)
        ensures
            match FieldType::spec_from_code(code) {
                Some(t) => r == Ok::<FieldType, Error>(t),
                None => r matches Err(e) && e@ == Failure::InvalidFieldType(code as char),
            },
    {
        match FieldType::from_code(code) {
            Some(t) => Ok(t),
            None => Err(Error::InvalidFieldType(code as char)),
        }
    }

    /// Whether a field of this type can have `length` bytes and
    /// `decimals` decimal places.
    pub open spec fn allows(self, length: int, decimals: int) -> bool {
        match self {
            FieldType::Character => 1 <= length <= 254 && decimals == 0,
            FieldType::Numeric | FieldType::Float => {
                &&& 1 <= length <= 20
                &&& (decimals == 0 || decimals + 2 <= length)
            },
            FieldType::Logical => length == 1 && decimals == 0,
            FieldType::Date => length == 8 && decimals == 0,
            FieldType::DateTime | FieldType::Double | FieldType::Currency => length == 8,
            FieldType::Integer => length == 4,
            FieldType::Memo => (length == 10 || length == 4) && decimals == 0,
        }
    }

    /// Decides [`FieldType::allows`].
    pub fn accepts(self, length: u8, decimals: u8) -> (ok: bool)
        ensures
            ok == self.allows(length as int, decimals as int),
    {
        match self {
            FieldType::Character => 1 <= length && length <= 254 && decimals == 0,
            FieldType::Numeric | FieldType::Float => {
                1 <= length && length <= 20 && (decimals == 0 || length >= 2 && decimals
                    <= length - 2)
            },
            FieldType::Logical => length == 1 && decimals == 0,
            FieldType::Date => length == 8 && decimals == 0,
            FieldType::DateTime | FieldType::Double | FieldType::Currency => length == 8,
            FieldType::Integer => length == 4,
            FieldType::Memo => (length == 10 || length == 4) && decimals == 0,
        }
    }
}

/// The flag byte of a descriptor.
#[derive(Debug, Clone, Copy, PartialEq, Eq, Structural)]
pub struct FieldFlags(pub u8);

impl FieldFlags {
    /// Whether the column is hidden from the user.
    pub fn system_column(self) -> (set: bool)
        ensures
            set == (self.0 & 0x01 != 0),
    {
        self.0 & 0x01 != 0
    }

    /// Whether the column can hold null values.
    pub fn can_store_null(self) -> (set: bool)
        ensures
            set == (self.0 & 0x02 != 0),
    {
        self.0 & 0x02 != 0
    }

    /// Whether the column holds bytes that are no text.
    pub fn is_binary(self) -> (set: bool)
        ensures
            set == (self.0 & 0x04 != 0),
    {
        self.0 & 0x04 != 0
    }

    /// Whether the column counts up by itself.
    pub fn is_auto_incrementing(self) -> (set: bool)
        ensures
            set == (self.0 & 0x0c != 0),
    {
        self.0 & 0x0c != 0
    }
}

/// Whether bytes can be a field name: one to ten printable ASCII characters.
pub open spec fn is_name(bytes: Seq<u8>) -> bool {
    1 <= bytes.len() <= MAX_NAME_LENGTH && all_printable(bytes)
}

/// What becomes of bytes that are offered as a field name.
pub open spec fn check_name(bytes: Seq<u8>) -> Result<Seq<u8>, Failure> {
    if bytes.len() > MAX_NAME_LENGTH {
        Err(Failure::FieldNameTooLong)
    } else if !is_name(bytes) {
        Err(Failure::Message(INVALID_NAME@))
    } else {
        Ok(bytes)
    }
}

/// The name of a field.
#[derive(Debug, PartialEq, Eq)]
pub struct FieldName {
    text: String,
}

impl View for FieldName {
    type V = Seq<u8>;

    /// The bytes of the name.
    closed spec fn view(&self) -> Seq<u8> {
        encode_utf8(self.text@)
    }
}

impl Clone for FieldName {
    fn clone(&self) -> (name: FieldName)
        ensures
            name@ == self@,
    {
        proof {
            use_type_invariant(self);
        }
        FieldName { text: self.text.clone() }
    }
}

/// Whether every byte of `bytes` is printable ASCII.
pub fn is_printable_text(bytes: &[u8]) -> (ok: bool)
    ensures
        ok == all_printable(bytes@),
{
    let mut i: usize = 0;
    while i < bytes.len()
        invariant
            i <= bytes@.len(),
            forall|j: int| 0 <= j < i ==> is_printable(#[trigger] bytes@[j]),
        decreases bytes@.len() - i,
    {
        if bytes[i] < 0x20 || bytes[i] > 0x7e {
            return false;
        }
        i = i + 1;
    }
    true
}

impl FieldName {
    #[verifier::type_invariant]
    closed spec fn inv(self) -> bool {
        is_name(encode_utf8(self.text@))
    }

    /// The name `name`, if it can be one.
    pub fn try_from(name: &str) -> (r: Result<FieldName, Error>)
        ensures
            outcome_name(r) == check_name(encode_utf8(name@)),
    {
        let bytes = name.as_bytes();
        if bytes.len() > MAX_NAME_LENGTH {
            return Err(Error::FieldNameTooLong);
        }
        if bytes.len() == 0 || !is_printable_text(bytes) {
            return Err(Error::message(INVALID_NAME));
        }
        Ok(FieldName { text: name.to_owned() })
    }

    /// The name that `bytes` spell, if they can be one.
    pub fn from_bytes(bytes: &[u8]) -> (r: Result<FieldName, Error>)
        ensures
            outcome_name(r) == check_name(bytes@),
    {
        if bytes.len() > MAX_NAME_LENGTH {
            return Err(Error::FieldNameTooLong);
        }
        if bytes.len() == 0 || !is_printable_text(bytes) {
            return Err(Error::message(INVALID_NAME));
        }
        proof {
            lemma_ascii_text(bytes@);
            decode_utf8_encode_utf8(bytes@);
        }
        Ok(FieldName { text: text_from_bytes(bytes) })
    }

    /// The name as text.
    pub fn as_str(&self) -> (text: &str)
        ensures
            text@ == ascii_chars(self@),
            encode_utf8(text@) == self@,
            is_name(self@),
    {
        proof {
            use_type_invariant(self);
            lemma_name_text(self.text@);
        }
        self.text.as_str()
    }

    /// The name as bytes.
    pub fn as_bytes(&self) -> (bytes: &[u8])
        ensures
            bytes@ == self@,
            is_name(self@),
    {
        proof {
            use_type_invariant(self);
        }
        self.text.as_str().as_bytes()
    }
}

/// A text whose bytes are printable ASCII is those bytes, one character each.
pub proof fn lemma_name_text(text: Seq<char>)
    requires
        all_printable(encode_utf8(text)),
    ensures
        text == ascii_chars(encode_utf8(text)),
{
    let bytes = encode_utf8(text);
    assert forall|i: int| 0 <= i < bytes.len() implies #[trigger] bytes[i] < 0x80 by {
        assert(is_printable(bytes[i]));
    }
    lemma_ascii_text(bytes);
    crate::text::lemma_text_round_trip(text);
}

/// The result of making a name, as contracts speak of it.
pub open spec fn outcome_name(r: Result<FieldName, Error>) -> Result<Seq<u8>, Failure> {
    match r {
        Ok(name) => Ok(name@),
        Err(e) => Err(e@),
    }
}

/// One column of a schema, as plain values.
pub struct FieldSpec {
    pub name: Seq<u8>,
    pub field_type: FieldType,
    pub length: nat,
    pub decimal_count: nat,
    pub flags: u8,
}

impl FieldSpec {
    /// A name that can be one, and a length and decimal count that suit the
    /// type.
    pub open spec fn wf(self) -> bool {
        &&& is_name(self.name)
        &&& self.length <= 255
        &&& self.decimal_count <= 255
        &&& self.field_type.allows(self.length as int, self.decimal_count as int)
    }
}

/// The columns of a schema as plain values.
pub open spec fn field_specs(fields: Seq<FieldInfo>) -> Seq<FieldSpec> {
    Seq::new(fields.len(), |i: int| fields[i]@)
}

/// Whether every column is well formed.
pub open spec fn all_wf(fields: Seq<FieldSpec>) -> bool {
    forall|i: int| 0 <= i < fields.len() ==> (#[trigger] fields[i]).wf()
}

/// One column of a schema.
#[derive(Debug, PartialEq, Eq)]
pub struct FieldInfo {
    name: FieldName,
    field_type: FieldType,
    length: u8,
    decimal_count: u8,
    flags: FieldFlags,
}

impl View for FieldInfo {
    type V = FieldSpec;

    closed spec fn view(&self) -> FieldSpec {
        FieldSpec {
            name: self.name@,
            field_type: self.field_type,
            length: self.length as nat,
            decimal_count: self.decimal_count as nat,
            flags: self.flags.0,
        }
    }
}

impl Clone for FieldInfo {
    fn clone(&self) -> (info: FieldInfo)
        ensures
            info@ == self@,
    {
        proof {
            use_type_invariant(self);
        }
        FieldInfo {
            name: self.name.clone(),
            field_type: self.field_type,
            length: self.length,
            decimal_count: self.decimal_count,
            flags: self.flags,
        }
    }
}

/// The result of making a column, as contracts speak of it.
pub open spec fn outcome_field(r: Result<FieldInfo, Error>) -> Result<FieldSpec, Failure> {
    match r {
        Ok(info) => Ok(info@),
        Err(e) => Err(e@),
    }
}

/// The descriptor of a column: the name in eleven bytes with NULs behind it,
/// the type's letter, four bytes kept free, the length, the decimal count,
/// the flags, and thirteen bytes kept free.
pub open spec fn descriptor_bytes(f: FieldSpec) -> Seq<u8> {
    f.name + filled(0, (NAME_SLOT - f.name.len()) as nat) + seq![f.field_type.spec_code()]
        + filled(0, 4) + seq![f.length as u8, f.decimal_count as u8, f.flags] + filled(0, 13)
}

/// The column that a descriptor declares. The name is what stands before the
/// NULs that fill its slot; a slot without a NUL holds a name that is too
/// long.
pub open spec fn parse_descriptor(bytes: Seq<u8>) -> Result<FieldSpec, Failure>
    recommends
        bytes.len() == DESCRIPTOR_SIZE,
{
    let name = trim_end(bytes.subrange(0, NAME_SLOT as int), 0);
    let length = bytes[16] as nat;
    let decimal_count = bytes[17] as nat;
    match check_name(name) {
        Err(failure) => Err(failure),
        Ok(_) => match FieldType::spec_from_code(bytes[11]) {
            None => Err(Failure::InvalidFieldType(bytes[11] as char)),
            Some(field_type) => if field_type.allows(length as int, decimal_count as int) {
                Ok(FieldSpec { name, field_type, length, decimal_count, flags: bytes[18] })
            } else {
                Err(Failure::Message(INVALID_WIDTH@))
            },
        },
    }
}

/// A descriptor that is written and read again declares the same column.
pub proof fn lemma_descriptor_round_trip(f: FieldSpec)
    requires
        f.wf(),
    ensures
        descriptor_bytes(f).len() == DESCRIPTOR_SIZE,
        parse_descriptor(descriptor_bytes(f)) == Ok::<FieldSpec, Failure>(f),
{
    let bytes = descriptor_bytes(f);
    let n = f.name.len() as int;
    let pad = (NAME_SLOT - n) as nat;
    assert(bytes.subrange(0, NAME_SLOT as int) =~= f.name + filled(0, pad));
    assert(is_printable(f.name.last()));
    lemma_trim_end_padded(f.name, 0, pad);
    assert(bytes[11] == f.field_type.spec_code());
    assert(bytes[16] == f.length as u8);
    assert(bytes[17] == f.decimal_count as u8);
    assert(bytes[18] == f.flags);
}

impl FieldInfo {
    #[verifier::type_invariant]
    closed spec fn inv(self) -> bool {
        self@.wf()
    }

    /// The column `name` of type `field_type`, `length` bytes wide with
    /// `decimal_count` decimal places, if the type allows them.
    pub fn new(name: FieldName, field_type: FieldType, length: u8, decimal_count: u8) -> (r: Result<
        FieldInfo,
        Error,
    >)
        ensures
            outcome_field(r) == if field_type.allows(length as int, decimal_count as int) {
                Ok::<FieldSpec, Failure>(
                    FieldSpec {
                        name: name@,
                        field_type,
                        length: length as nat,
                        decimal_count: decimal_count as nat,
                        flags: 0,
                    },
                )
            } else {
                Err(Failure::Message(INVALID_WIDTH@))
            },
            r matches Ok(info) ==> info@.wf(),
    {
        if !field_type.accepts(length, decimal_count) {
            return Err(Error::message(INVALID_WIDTH));
        }
        proof {
            use_type_invariant(&name);
        }
        Ok(FieldInfo { name, field_type, length, decimal_count, flags: FieldFlags(0) })
    }

    /// The same column with other flags.
    pub fn with_flags(self, flags: FieldFlags) -> (info: FieldInfo)
        ensures
            info@ == (FieldSpec { flags: flags.0, ..self@ }),
            info@.wf(),
    {
        proof {
            use_type_invariant(&self);
        }
        FieldInfo {
            name: self.name,
            field_type: self.field_type,
            length: self.length,
            decimal_count: self.decimal_count,
            flags,
        }
    }

    /// The name of the column, as text.
    pub fn name(&self) -> (name: &str)
        ensures
            name@ == ascii_chars(self@.name),
            self@.wf(),
    {
        proof {
            use_type_invariant(self);
        }
        self.name.as_str()
    }

    /// The name of the column.
    pub fn field_name(&self) -> (name: &FieldName)
        ensures
            name@ == self@.name,
            self@.wf(),
    {
        proof {
            use_type_invariant(self);
        }
        &self.name
    }

    /// The type of the column.
    pub fn field_type(&self) -> (field_type: FieldType)
        ensures
            field_type == self@.field_type,
            self@.wf(),
    {
        proof {
            use_type_invariant(self);
        }
        self.field_type
    }

    /// The width of the field's slot in bytes.
    pub fn length(&self) -> (length: u8)
        ensures
            length == self@.length,
            self@.wf(),
    {
        proof {
            use_type_invariant(self);
        }
        self.length
    }

    /// The count of digits after the point.
    pub fn decimal_count(&self) -> (decimal_count: u8)
        ensures
            decimal_count == self@.decimal_count,
            self@.wf(),
    {
        proof {
            use_type_invariant(self);
        }
        self.decimal_count
    }

    /// The flags of the column.
    pub fn flags(&self) -> (flags: FieldFlags)
        ensures
            flags.0 == self@.flags,
    {
        self.flags
    }

    /// Appends the column's descriptor to `dest`.
    pub fn write_to(&self, dest: &mut Vec<u8>)
        ensures
            final(dest)@ == old(dest)@ + descriptor_bytes(self@),
            self@.wf(),
    {
        proof {
            use_type_invariant(self);
        }
        let name = self.name.as_bytes();
        let ghost start = dest@;
        push_all(dest, name);
        push_fill(dest, 0, NAME_SLOT - name.len());
        dest.push(self.field_type.code());
        push_fill(dest, 0, 4);
        dest.push(self.length);
        dest.push(self.decimal_count);
        dest.push(self.flags.0);
        push_fill(dest, 0, 13);
        assert(dest@ =~= start + descriptor_bytes(self@));
    }

    /// The column that the 32 bytes of a descriptor declare.
    pub fn read_from(bytes: &[u8]) -> (r: Result<FieldInfo, Error>)
        requires
            bytes@.len() == DESCRIPTOR_SIZE,
        ensures
            outcome_field(r) == parse_descriptor(bytes@),
            r matches Ok(info) ==> info@.wf(),
    {
        let slot = vstd::slice::slice_subrange(bytes, 0, NAME_SLOT);
        let n = trimmed_end_len(slot, 0);
        let name = FieldName::from_bytes(vstd::slice::slice_subrange(slot, 0, n))?;
        let field_type = FieldType::try_from_code(bytes[11])?;
        if !field_type.accepts(bytes[16], bytes[17]) {
            return Err(Error::message(INVALID_WIDTH));
        }
        proof {
            use_type_invariant(&name);
        }
        Ok(
            FieldInfo {
                name,
                field_type,
                length: bytes[16],
                decimal_count: bytes[17],
                flags: FieldFlags(bytes[18]),
            },
        )
    }
}

} // verus!
