//! Reading and writing dBase tables (`.dbf`) and their memo companions
//! (`.dbt`, `.fpt`), as pure functions between bytes and typed records.
//!
//! The library never touches a file: tables and memo files come in and go out
//! as bytes, and every function says in its contract which bytes stand for
//! which values. Numbers are exact: a Numeric field holds a [`Decimal`], a
//! Double field the 64 bits of its value.
//!
//! # Reading
//!
//! [`read`] gives all the records of a table at once. A [`Reader`] gives them
//! one by one, each decoded when it is asked for, either as a [`Record`] of
//! names and values or, through [`ReadableRecord`], as a type of the caller
//! that takes its fields from a [`FieldIterator`] in the order of the schema.
//!
//! # Writing
//!
//! A [`TableWriterBuilder`] takes the columns one by one and refuses at once
//! what a table cannot hold. The [`TableWriter`] that it builds writes
//! records of plain values, or of any type that writes its fields to a
//! [`FieldWriter`] through [`WritableRecord`], and ends the table with the
//! count of records in the header and the end-of-file byte behind the last
//! record.
//!
//! # What the format leaves open
//!
//! * An unset value is a slot of spaces. A Character slot of spaces only is
//!   therefore read as unset, never as an empty text, and a text loses the
//!   spaces at its end.
//! * A Numeric or Float slot holds an optional sign, digits, and optionally
//!   a point and more digits; anything else, an exponent included, is
//!   malformed.
//! * A table is opened whether or not the memo file that its signature
//!   announces is there. It is missed when a Memo field is read, whatever
//!   the field refers to.
//! * Deleted records are handed out like the others, with their flag.
//!
//! # What is proved
//!
//! Besides the contract of each function: a value that is written to a field
//! reads back as the value that the field stores for it
//! ([`value_laws`]), a text that is added to a memo file is the text of its
//! block and leaves the others as they were ([`memo`]), a header that is
//! written parses as itself ([`header`]), and a table that is written reads
//! back as the rows that went in ([`table_laws`]). A type of the caller that
//! reads or writes its own records can say what it reads and writes
//! ([`ReadableRecord::reads`], [`WritableRecord::writes`]); what is proved of
//! the tables that it makes is proved from what it says.

use vstd::prelude::*;

pub mod bytes;
pub mod digits;
pub mod text;
pub mod date;
pub mod decimal;
pub mod schema;
pub mod memo;
pub mod value;
pub mod value_laws;
pub mod header;
pub mod convert;
pub mod record;
pub mod reading;
pub mod writing;
pub mod table;
pub mod table_laws;

pub use convert::{FromFieldValue, ToFieldValue};
pub use date::{Date, DateTime, Time};
pub use header::{Header, LastUpdate};
pub use decimal::Decimal;
pub use memo::{MemoFile, MemoKind};
pub use reading::{read, Reader, RecordIterator};
pub use record::{FieldIterator, NamedValue, ReadableRecord, Record};
pub use schema::{FieldFlags, FieldInfo, FieldName, FieldType};
pub use table::{StreamWriter, Table, TableWriter, TableWriterBuilder};
pub use value::FieldValue;
pub use writing::{FieldWriter, WritableRecord};

verus! {

/// `std::io::Error`, carried through the library as an opaque value.
#[verifier::external_type_specification]
#[verifier::external_body]
pub struct ExIoError(std::io::Error);

/// A value of one column type where a value of another was asked for.
#[derive(Debug, Clone, Copy, PartialEq, Eq, Structural)]
pub struct FieldConversionError {
    /// The column type that the target can be made from.
    pub expected: FieldType,
    /// The column type of the value that was found.
    pub actual: FieldType,
}

/// Everything that can go wrong while reading or writing a table.
#[derive(Debug)]
pub enum Error {
    /// Reading or writing failed. Within the library: an input ended before
    /// the layout that it announces was complete.
    IoError(std::io::Error),
    /// The text of a Numeric or Float slot is no decimal number; holds the text.
    ParseFloatError(Vec<u8>),
    /// The text of a block reference is no unsigned integer; holds the text.
    ParseIntError(Vec<u8>),
    /// A field descriptor carries a type code outside the known set.
    InvalidFieldType(char),
    /// A Date slot holds something that is no day of the calendar.
    InvalidDate,
    /// A field name takes more than the ten bytes of its slot.
    FieldNameTooLong,
    /// A Memo field had to be decoded and the table came without a memo file.
    MissingMemoFile,
    /// The memo file's header is not one that the library can work with.
    ErrorOpeningMemoFile(std::io::Error),
    /// A field was asked for as a type that its value cannot give.
    BadConversion(FieldConversionError),
    /// A field was read or written after the last one of the record.
    EndOfRecord,
    /// A record ended before every field of the schema had its value.
    NotEnoughFields,
    /// A value was written to a field of another type.
    BadFieldType { expected: FieldType, got: FieldType, field_name: String },
    /// Anything else, in words.
    Message(String),
}

/// What an [`Error`] says, without the opaque values that some carry.
pub enum Failure {
    Io,
    ParseFloat(Seq<u8>),
    ParseInt(Seq<u8>),
    InvalidFieldType(char),
    InvalidDate,
    FieldNameTooLong,
    MissingMemoFile,
    OpeningMemoFile,
    BadConversion(FieldConversionError),
    EndOfRecord,
    NotEnoughFields,
    BadFieldType { expected: FieldType, got: FieldType, field_name: Seq<char> },
    Message(Seq<char>),
}

impl View for Error {
    type V = Failure;

    open spec fn view(&self) -> Failure {
        match *self {
            Error::IoError(_) => Failure::Io,
            Error::ParseFloatError(text) => Failure::ParseFloat(text@),
            Error::ParseIntError(text) => Failure::ParseInt(text@),
            Error::InvalidFieldType(code) => Failure::InvalidFieldType(code),
            Error::InvalidDate => Failure::InvalidDate,
            Error::FieldNameTooLong => Failure::FieldNameTooLong,
            Error::MissingMemoFile => Failure::MissingMemoFile,
            Error::ErrorOpeningMemoFile(_) => Failure::OpeningMemoFile,
            Error::BadConversion(e) => Failure::BadConversion(e),
            Error::EndOfRecord => Failure::EndOfRecord,
            Error::NotEnoughFields => Failure::NotEnoughFields,
            Error::BadFieldType { expected, got, field_name } => Failure::BadFieldType {
                expected,
                got,
                field_name: field_name@,
            },
            Error::Message(text) => Failure::Message(text@),
        }
    }
}

impl From<std::io::Error> for Error {
    fn from(e: std::io::Error) -> (r: Error) {
        Error::IoError(e)
    }
}

impl vstd::std_specs::convert::FromSpecImpl<std::io::Error> for Error {
    open spec fn obeys_from_spec() -> bool {
        true
    }

    open spec fn from_spec(e: std::io::Error) -> Error {
        Error::IoError(e)
    }
}

impl From<FieldConversionError> for Error {
    fn from(e: FieldConversionError) -> (r: Error) {
        Error::BadConversion(e)
    }
}

impl vstd::std_specs::convert::FromSpecImpl<FieldConversionError> for Error {
    open spec fn obeys_from_spec() -> bool {
        true
    }

    open spec fn from_spec(e: FieldConversionError) -> Error {
        Error::BadConversion(e)
    }
}

/// Calls `std::io::Error::from` on `ErrorKind::UnexpectedEof`. Nothing is
/// claimed of the value: the library only hands it on.
#[verifier::external_body]
pub(crate) fn unexpected_eof() -> std::io::Error {
    std::io::Error::from(std::io::ErrorKind::UnexpectedEof)
}

/// Calls `std::io::Error::from` on `ErrorKind::InvalidData`. Nothing is
/// claimed of the value: the library only hands it on.
#[verifier::external_body]
pub(crate) fn invalid_data() -> std::io::Error {
    std::io::Error::from(std::io::ErrorKind::InvalidData)
}

impl Error {
    /// The error for an input that ends too early.
    pub fn truncated() -> (e: Error)
        ensures
            e@ == Failure::Io,
    {
        Error::IoError(unexpected_eof())
    }

    /// The error for a memo file whose header cannot be used.
    pub fn bad_memo_file() -> (e: Error)
        ensures
            e@ == Failure::OpeningMemoFile,
    {
        Error::ErrorOpeningMemoFile(invalid_data())
    }

    /// The error that says `text`.
    pub fn message(text: &str) -> (e: Error)
        ensures
            e@ == Failure::Message(text@),
    {
        Error::Message(text::owned(text))
    }

    /// What the error says, in words: the message of a message, and a fixed
    /// sentence for every other kind.
    pub fn description(&self) -> (text: &str)
        ensures
            text@ == describe(self@),
    {
        match self {
            Error::Message(message) => message.as_str(),
            Error::IoError(_) => "A std::io::Error occurred",
            Error::ParseFloatError(_) => "Failed to parse a float",
            Error::ParseIntError(_) => "Failed to parse an int",
            Error::InvalidFieldType(_) => "The field type is invalid",
            Error::InvalidDate => "The date is invalid",
            Error::FieldNameTooLong => "The Field name is too long to fit",
            Error::MissingMemoFile => "A memo file was expected but could not be found",
            Error::ErrorOpeningMemoFile(_) => "An error occurred when trying to open the memo file",
            Error::BadConversion(_) => "BadConversion",
            Error::EndOfRecord => "EndOfRecord",
            Error::NotEnoughFields => "Missing at least one field",
            Error::BadFieldType { .. } => "The Given type does not match the expected field type",
        }
    }
}

/// The sentence that stands for each kind of failure.
pub open spec fn describe(failure: Failure) -> Seq<char> {
    match failure {
        Failure::Message(message) => message,
        Failure::Io => "A std::io::Error occurred"@,
        Failure::ParseFloat(_) => "Failed to parse a float"@,
        Failure::ParseInt(_) => "Failed to parse an int"@,
        Failure::InvalidFieldType(_) => "The field type is invalid"@,
        Failure::InvalidDate => "The date is invalid"@,
        Failure::FieldNameTooLong => "The Field name is too long to fit"@,
        Failure::MissingMemoFile => "A memo file was expected but could not be found"@,
        Failure::OpeningMemoFile => "An error occurred when trying to open the memo file"@,
        Failure::BadConversion(_) => "BadConversion"@,
        Failure::EndOfRecord => "EndOfRecord"@,
        Failure::NotEnoughFields => "Missing at least one field"@,
        Failure::BadFieldType { .. } => "The Given type does not match the expected field type"@,
    }
}

} // verus!
