//! The values of a record and the slot that each takes in it: for every
//! column type, which bytes stand for which value.
//!
//! An unset value is a slot of spaces (of zeros for a binary block
//! reference). A Character slot of spaces only is therefore read as unset,
//! not as an empty text.

use vstd::prelude::*;
use vstd::utf8::encode_utf8;
use crate::bytes::{
    all_blank, copy_range, filled, i32_from_bits, i32_to_bits, i64_from_bits, i64_to_bits,
    le_bytes_u32, le_bytes_u64, le_u32, le_u64, push_all, push_fill, read_u32_le, read_u64_le,
    signed32, signed64, spaces, trim_blank, trim_end, trimmed_blank_bounds, trimmed_end_len,
    u32_le, u64_le, unsigned32, unsigned64, SPACE,
};
use crate::date::{is_table_date, Date, DateTime};
use crate::decimal::{decimal_text, parse_decimal, Decimal, DecimalModel};
use crate::decimal::{MINUS, POINT};
use crate::digits::{
    all_digits, decimal_digits, digits_value, fixed_digits, is_digit, lemma_digits_value_four,
    lemma_digits_value_two, lemma_four_digits, lemma_two_digits, lemma_u32_digits, parse_u32,
    push_decimal, ZERO,
};
use crate::bytes::lemma_trim_blank_empty;
use crate::memo::{MemoFile, MemoModel};
use crate::schema::{FieldInfo, FieldSpec, FieldType};
use crate::text::{ascii_chars, owned, text_from_bytes, text_of};
use crate::{Error, Failure};

verus! {

/// What is wrong with a value that takes more room than its field has.
pub const VALUE_TOO_WIDE: &'static str = "the value does not fit the width of its field";

/// What is wrong with a Logical slot that holds none of the known bytes.
pub const INVALID_LOGICAL: &'static str = "a Logical field holds a byte that stands for no value";

/// The value of one field of a record. `None` is a field that was never
/// set. A Double is held as the 64 bits of its IEEE 754 form, a Currency as
/// the count of ten-thousandths.
#[derive(Debug, Clone, PartialEq)]
pub enum FieldValue {
    Character(Option<String>),
    Numeric(Option<Decimal>),
    Float(Option<Decimal>),
    Logical(Option<bool>),
    Date(Option<Date>),
    DateTime(DateTime),
    Integer(i32),
    Double(u64),
    Currency(i64),
    Memo(Option<String>),
}

/// A value as plain values.
pub enum ValueModel {
    Character(Option<Seq<char>>),
    Numeric(Option<DecimalModel>),
    Float(Option<DecimalModel>),
    Logical(Option<bool>),
    Date(Option<Date>),
    DateTime(DateTime),
    Integer(i32),
    Double(u64),
    Currency(i64),
    Memo(Option<Seq<char>>),
}

/// An optional text as plain values.
pub open spec fn text_model(text: Option<String>) -> Option<Seq<char>> {
    match text {
        Some(t) => Some(t@),
        None => None,
    }
}

/// An optional number as plain values.
pub open spec fn decimal_model(number: Option<Decimal>) -> Option<DecimalModel> {
    match number {
        Some(d) => Some(d@),
        None => None,
    }
}

impl View for FieldValue {
    type V = ValueModel;

    open spec fn view(&self) -> ValueModel {
        match *self {
            FieldValue::Character(t) => ValueModel::Character(text_model(t)),
            FieldValue::Numeric(d) => ValueModel::Numeric(decimal_model(d)),
            FieldValue::Float(d) => ValueModel::Float(decimal_model(d)),
            FieldValue::Logical(b) => ValueModel::Logical(b),
            FieldValue::Date(d) => ValueModel::Date(d),
            FieldValue::DateTime(t) => ValueModel::DateTime(t),
            FieldValue::Integer(v) => ValueModel::Integer(v),
            FieldValue::Double(bits) => ValueModel::Double(bits),
            FieldValue::Currency(v) => ValueModel::Currency(v),
            FieldValue::Memo(t) => ValueModel::Memo(text_model(t)),
        }
    }
}

impl ValueModel {
    /// The column type that holds such a value.
    pub open spec fn field_type(self) -> FieldType {
        match self {
            ValueModel::Character(_) => FieldType::Character,
            ValueModel::Numeric(_) => FieldType::Numeric,
            ValueModel::Float(_) => FieldType::Float,
            ValueModel::Logical(_) => FieldType::Logical,
            ValueModel::Date(_) => FieldType::Date,
            ValueModel::DateTime(_) => FieldType::DateTime,
            ValueModel::Integer(_) => FieldType::Integer,
            ValueModel::Double(_) => FieldType::Double,
            ValueModel::Currency(_) => FieldType::Currency,
            ValueModel::Memo(_) => FieldType::Memo,
        }
    }

    /// Numbers are digits and dates are days of the calendar: what holds of
    /// every value that the library's own constructors made.
    pub open spec fn wf(self) -> bool {
        match self {
            ValueModel::Numeric(Some(d)) => d.wf(),
            ValueModel::Float(Some(d)) => d.wf(),
            ValueModel::Date(Some(d)) => d.wf(),
            _ => true,
        }
    }
}

/// The slot of a Character field: the text's bytes with spaces behind them.
pub open spec fn character_slot(text: Option<Seq<char>>, length: nat) -> Result<Seq<u8>, Failure> {
    match text {
        None => Ok(spaces(length)),
        Some(t) => {
            let bytes = encode_utf8(t);
            if bytes.len() > length {
                Err(Failure::Message(VALUE_TOO_WIDE@))
            } else {
                Ok(bytes + spaces((length - bytes.len()) as nat))
            }
        },
    }
}

/// The text in a Character slot: what stands before the spaces at its end,
/// and no text where nothing does.
pub open spec fn character_value(slot: Seq<u8>) -> Option<Seq<char>> {
    let bytes = trim_end(slot, SPACE);
    if bytes.len() == 0 {
        None
    } else {
        Some(text_of(bytes))
    }
}

/// The slot of a Numeric or Float field: the number with exactly
/// `decimals` digits after the point, and spaces in front of it.
pub open spec fn numeric_slot(number: Option<DecimalModel>, length: nat, decimals: nat) -> Result<
    Seq<u8>,
    Failure,
> {
    match number {
        None => Ok(spaces(length)),
        Some(d) => {
            let text = decimal_text(d.rescaled(decimals));
            if d.frac_digits.len() > decimals || text.len() > length {
                Err(Failure::Message(VALUE_TOO_WIDE@))
            } else {
                Ok(spaces((length - text.len()) as nat) + text)
            }
        },
    }
}

/// The number in a Numeric or Float slot: what stands between the blank
/// bytes, read as a decimal number; no number where nothing stands there.
pub open spec fn numeric_value(slot: Seq<u8>) -> Result<Option<DecimalModel>, Failure> {
    let text = trim_blank(slot);
    if text.len() == 0 {
        Ok(None)
    } else {
        match parse_decimal(text) {
            Some(d) => Ok(Some(d)),
            None => Err(Failure::ParseFloat(text)),
        }
    }
}

/// The byte of a Logical field.
pub open spec fn logical_slot(value: Option<bool>) -> Seq<u8> {
    match value {
        None => seq![SPACE],
        Some(true) => seq![0x54u8],
        Some(false) => seq![0x46u8],
    }
}

/// The value that the byte of a Logical field stands for: `T`, `t`, `Y`,
/// `y` for true, `F`, `f`, `N`, `n` for false, `?` and the space for unset.
pub open spec fn logical_value(code: u8) -> Result<Option<bool>, Failure> {
    if code == 0x54 || code == 0x74 || code == 0x59 || code == 0x79 {
        Ok(Some(true))
    } else if code == 0x46 || code == 0x66 || code == 0x4e || code == 0x6e {
        Ok(Some(false))
    } else if code == 0x3f || code == SPACE {
        Ok(None)
    } else {
        Err(Failure::Message(INVALID_LOGICAL@))
    }
}

/// The slot of a Date field: four digits of year, two of month, two of day.
pub open spec fn date_slot(date: Option<Date>) -> Seq<u8> {
    match date {
        None => spaces(8),
        Some(d) => fixed_digits(d.spec_year() as nat, 4) + fixed_digits(d.spec_month() as nat, 2)
            + fixed_digits(d.spec_day() as nat, 2),
    }
}

/// The date in a Date slot: none in a blank slot, the day that eight digits
/// name if the calendar has it, and a failure for anything else.
pub open spec fn date_value(slot: Seq<u8>) -> Result<Option<Date>, Failure>
    recommends
        slot.len() == 8,
{
    let year = digits_value(slot.subrange(0, 4)) as int;
    let month = digits_value(slot.subrange(4, 6)) as int;
    let day = digits_value(slot.subrange(6, 8)) as int;
    if all_blank(slot) {
        Ok(None)
    } else if all_digits(slot) && is_table_date(year, month, day) {
        Ok(Some(Date::of(year, month, day)))
    } else {
        Err(Failure::InvalidDate)
    }
}

/// The failure of a value that is offered to a field of another type.
pub open spec fn bad_field_type(f: FieldSpec, v: ValueModel) -> Failure {
    Failure::BadFieldType {
        expected: f.field_type,
        got: v.field_type(),
        field_name: ascii_chars(f.name),
    }
}

/// The slot that a value takes in a field that is no Memo field, or why it
/// cannot stand there: it is of another type, or it is too wide.
pub open spec fn plain_slot(f: FieldSpec, v: ValueModel) -> Result<Seq<u8>, Failure> {
    if f.field_type != v.field_type() {
        Err(bad_field_type(f, v))
    } else {
        match v {
            ValueModel::Character(t) => character_slot(t, f.length),
            ValueModel::Numeric(d) => numeric_slot(d, f.length, f.decimal_count),
            ValueModel::Float(d) => numeric_slot(d, f.length, f.decimal_count),
            ValueModel::Logical(b) => Ok(logical_slot(b)),
            ValueModel::Date(d) => Ok(date_slot(d)),
            ValueModel::DateTime(t) => Ok(
                le_bytes_u32(t.julian_day) + le_bytes_u32(t.milliseconds),
            ),
            ValueModel::Integer(i) => Ok(le_bytes_u32(unsigned32(i as int) as u32)),
            ValueModel::Double(bits) => Ok(le_bytes_u64(bits)),
            ValueModel::Currency(c) => Ok(le_bytes_u64(unsigned64(c as int) as u64)),
            ValueModel::Memo(_) => Err(bad_field_type(f, v)),
        }
    }
}

/// The value in the slot of a field that is no Memo field.
pub open spec fn plain_value(f: FieldSpec, slot: Seq<u8>) -> Result<ValueModel, Failure>
    recommends
        slot.len() == f.length,
        f.field_type != FieldType::Memo,
{
    match f.field_type {
        FieldType::Character => Ok(ValueModel::Character(character_value(slot))),
        FieldType::Numeric => match numeric_value(slot) {
            Ok(d) => Ok(ValueModel::Numeric(d)),
            Err(failure) => Err(failure),
        },
        FieldType::Float => match numeric_value(slot) {
            Ok(d) => Ok(ValueModel::Float(d)),
            Err(failure) => Err(failure),
        },
        FieldType::Logical => match logical_value(slot[0]) {
            Ok(b) => Ok(ValueModel::Logical(b)),
            Err(failure) => Err(failure),
        },
        FieldType::Date => match date_value(slot) {
            Ok(d) => Ok(ValueModel::Date(d)),
            Err(failure) => Err(failure),
        },
        FieldType::DateTime => Ok(
            ValueModel::DateTime(
                DateTime {
                    julian_day: le_u32(slot) as u32,
                    milliseconds: le_u32(slot.skip(4)) as u32,
                },
            ),
        ),
        FieldType::Integer => Ok(ValueModel::Integer(signed32(le_u32(slot)) as i32)),
        FieldType::Double => Ok(ValueModel::Double(le_u64(slot) as u64)),
        FieldType::Currency => Ok(ValueModel::Currency(signed64(le_u64(slot)) as i64)),
        FieldType::Memo => Err(Failure::MissingMemoFile),
    }
}

/// The slot of a Memo field that refers to block `index`, or to none: ten
/// bytes hold the number in digits with spaces in front, four bytes hold it
/// least significant byte first, and no block is spaces or zero.
pub open spec fn memo_ref_slot(length: nat, index: Option<u32>) -> Seq<u8> {
    if length == 4 {
        match index {
            Some(i) => le_bytes_u32(i),
            None => le_bytes_u32(0),
        }
    } else {
        match index {
            Some(i) => spaces((length - decimal_digits(i as nat).len()) as nat) + decimal_digits(
                i as nat,
            ),
            None => spaces(length),
        }
    }
}

/// The block that the slot of a Memo field refers to, if it refers to one. A
/// blank slot and the number zero refer to none.
pub open spec fn memo_ref(slot: Seq<u8>) -> Result<Option<u32>, Failure> {
    if slot.len() == 4 {
        if le_u32(slot) == 0 {
            Ok(None)
        } else {
            Ok(Some(le_u32(slot) as u32))
        }
    } else {
        let text = trim_blank(slot);
        if text.len() == 0 {
            Ok(None)
        } else if all_digits(text) && digits_value(text) <= u32::MAX {
            if digits_value(text) == 0 {
                Ok(None)
            } else {
                Ok(Some(digits_value(text) as u32))
            }
        } else {
            Err(Failure::ParseInt(text))
        }
    }
}

/// The value of a Memo field: the text of the block that its slot refers
/// to. Without a memo file there is no value to be had, whatever the slot
/// holds.
pub open spec fn memo_value(slot: Seq<u8>, memo: Option<MemoModel>) -> Result<
    ValueModel,
    Failure,
> {
    match memo {
        None => Err(Failure::MissingMemoFile),
        Some(m) => match memo_ref(slot) {
            Err(failure) => Err(failure),
            Ok(None) => Ok(ValueModel::Memo(None)),
            Ok(Some(index)) => match m.block_payload(index as nat) {
                None => Err(Failure::Io),
                Some(payload) => Ok(ValueModel::Memo(Some(text_of(payload)))),
            },
        },
    }
}

/// The value of a field, given its slot and the table's memo file.
pub open spec fn field_value(f: FieldSpec, slot: Seq<u8>, memo: Option<MemoModel>) -> Result<
    ValueModel,
    Failure,
>
    recommends
        slot.len() == f.length,
{
    if f.field_type == FieldType::Memo {
        memo_value(slot, memo)
    } else {
        plain_value(f, slot)
    }
}

/// What writing a value to a field gives: the slot, and the memo file as it
/// is afterwards. A text for a Memo field goes to the next free block of the
/// memo file, and the slot refers to it.
pub open spec fn field_written(f: FieldSpec, v: ValueModel, memo: Option<MemoModel>) -> Result<
    (Seq<u8>, Option<MemoModel>),
    Failure,
> {
    if f.field_type != v.field_type() {
        Err(bad_field_type(f, v))
    } else {
        match v {
            ValueModel::Memo(text) => match memo {
                None => Err(Failure::MissingMemoFile),
                Some(m) => match text {
                    None => Ok((memo_ref_slot(f.length, None), memo)),
                    Some(t) => match m.append_failure(encode_utf8(t)) {
                        Some(failure) => Err(failure),
                        None => Ok(
                            (
                                memo_ref_slot(f.length, Some(m.next_free as u32)),
                                Some(m.appended(encode_utf8(t))),
                            ),
                        ),
                    },
                },
            },
            _ => match plain_slot(f, v) {
                Ok(slot) => Ok((slot, memo)),
                Err(failure) => Err(failure),
            },
        }
    }
}

/// The result of reading a value, as contracts speak of it.
pub open spec fn outcome_value(r: Result<FieldValue, Error>) -> Result<ValueModel, Failure> {
    match r {
        Ok(v) => Ok(v@),
        Err(e) => Err(e@),
    }
}

/// The memo file of a table as plain values, if it has one.
pub open spec fn memo_model(memo: Option<MemoFile>) -> Option<MemoModel> {
    match memo {
        Some(m) => Some(m@),
        None => None,
    }
}

/// The memo file of a table as plain values, if it has one.
pub open spec fn borrowed_memo_model(memo: Option<&MemoFile>) -> Option<MemoModel> {
    match memo {
        Some(m) => Some(m@),
        None => None,
    }
}

/// Appends the slot of a Character field to `dest`.
pub fn encode_character(text: &Option<String>, length: usize, dest: &mut Vec<u8>) -> (r: Result<
    (),
    Error,
>)
    ensures
        match character_slot(text_model(*text), length as nat) {
            Ok(slot) => r is Ok && final(dest)@ == old(dest)@ + slot,
            Err(failure) => r matches Err(e) && e@ == failure && final(dest)@ == old(dest)@,
        },
{
    match text {
        None => {
            push_fill(dest, SPACE, length);
            Ok(())
        },
        Some(t) => {
            let bytes = t.as_str().as_bytes();
            if bytes.len() > length {
                return Err(Error::message(VALUE_TOO_WIDE));
            }
            let ghost start = dest@;
            push_all(dest, bytes);
            push_fill(dest, SPACE, length - bytes.len());
            assert(dest@ =~= start + (bytes@ + spaces((length - bytes@.len()) as nat)));
            Ok(())
        },
    }
}

/// The text in a Character slot.
pub fn decode_character(slot: &[u8]) -> (text: Option<String>)
    ensures
        text_model(text) == character_value(slot@),
{
    let n = trimmed_end_len(slot, SPACE);
    if n == 0 {
        None
    } else {
        assert(slot@.take(n as int) =~= slot@.subrange(0, n as int));
        Some(text_from_bytes(vstd::slice::slice_subrange(slot, 0, n)))
    }
}

/// Appends the slot of a Numeric or Float field to `dest`.
pub fn encode_numeric(
    number: &Option<Decimal>,
    length: usize,
    decimals: usize,
    dest: &mut Vec<u8>,
) -> (r: Result<(), Error>)
    requires
        length <= 255,
        decimals <= 255,
    ensures
        match numeric_slot(decimal_model(*number), length as nat, decimals as nat) {
            Ok(slot) => r is Ok && final(dest)@ == old(dest)@ + slot,
            Err(failure) => r matches Err(e) && e@ == failure && final(dest)@ == old(dest)@,
        },
{
    match number {
        None => {
            push_fill(dest, SPACE, length);
            Ok(())
        },
        Some(d) => {
            let int_digits = d.int_digits();
            let frac_digits = d.frac_digits();
            let negative = d.is_negative();
            let ghost text = decimal_text(d@.rescaled(decimals as nat));
            let ghost zeros = filled(ZERO, (decimals - frac_digits@.len()) as nat);
            if frac_digits.len() > decimals {
                return Err(Error::message(VALUE_TOO_WIDE));
            }
            proof {
                assert(d@.rescaled(decimals as nat).frac_digits.len() == decimals);
                assert(text.len() == (if negative {
                    1nat
                } else {
                    0nat
                }) + int_digits@.len() + (if decimals > 0 {
                    1 + decimals
                } else {
                    0
                }));
            }
            if int_digits.len() > length {
                return Err(Error::message(VALUE_TOO_WIDE));
            }
            let sign_len: usize = if negative {
                1
            } else {
                0
            };
            let tail_len: usize = if decimals > 0 {
                1 + decimals
            } else {
                0
            };
            let text_len: usize = sign_len + int_digits.len() + tail_len;
            if text_len > length {
                return Err(Error::message(VALUE_TOO_WIDE));
            }
            let ghost start = dest@;
            push_fill(dest, SPACE, length - text_len);
            if negative {
                dest.push(MINUS);
            }
            push_all(dest, int_digits);
            if decimals > 0 {
                dest.push(POINT);
                push_all(dest, frac_digits);
                push_fill(dest, ZERO, decimals - frac_digits.len());
            }
            assert(dest@ =~= start + (spaces((length - text.len()) as nat) + text));
            Ok(())
        },
    }
}

/// The result of reading a number, as contracts speak of it.
pub open spec fn outcome_decimal(r: Result<Option<Decimal>, Error>) -> Result<
    Option<DecimalModel>,
    Failure,
> {
    match r {
        Ok(d) => Ok(decimal_model(d)),
        Err(e) => Err(e@),
    }
}

/// The number in a Numeric or Float slot.
pub fn decode_numeric(slot: &[u8]) -> (r: Result<Option<Decimal>, Error>)
    ensures
        outcome_decimal(r) == numeric_value(slot@),
        r matches Ok(Some(d)) ==> d@.wf(),
{
    let (from, to) = trimmed_blank_bounds(slot);
    if from == to {
        return Ok(None);
    }
    let text = vstd::slice::slice_subrange(slot, from, to);
    match Decimal::parse(text) {
        Some(d) => Ok(Some(d)),
        None => Err(Error::ParseFloatError(copy_range(slot, from, to))),
    }
}

/// The byte of a Logical field.
pub fn encode_logical(value: Option<bool>) -> (code: u8)
    ensures
        seq![code] == logical_slot(value),
{
    let code: u8 = match value {
        None => SPACE,
        Some(true) => 0x54,
        Some(false) => 0x46,
    };
    assert(seq![code] =~= logical_slot(value));
    code
}

/// The value that the byte of a Logical field stands for.
pub fn decode_logical(code: u8) -> (r: Result<Option<bool>, Error>)
    ensures
        match logical_value(code) {
            Ok(b) => r == Ok::<Option<bool>, Error>(b),
            Err(failure) => r matches Err(e) && e@ == failure,
        },
{
    if code == 0x54 || code == 0x74 || code == 0x59 || code == 0x79 {
        Ok(Some(true))
    } else if code == 0x46 || code == 0x66 || code == 0x4e || code == 0x6e {
        Ok(Some(false))
    } else if code == 0x3f || code == SPACE {
        Ok(None)
    } else {
        Err(Error::message(INVALID_LOGICAL))
    }
}

/// Appends the slot of a Date field to `dest`.
pub fn encode_date(date: &Option<Date>, dest: &mut Vec<u8>)
    ensures
        final(dest)@ == old(dest)@ + date_slot(*date),
{
    match date {
        None => {
            push_fill(dest, SPACE, 8);
        },
        Some(d) => {
            let year = d.year();
            let month = d.month();
            let day = d.day();
            proof {
                lemma_four_digits(year as nat);
                lemma_two_digits(month as nat);
                lemma_two_digits(day as nat);
            }
            let ghost start = dest@;
            dest.push(ZERO + (year / 1000) as u8);
            dest.push(ZERO + ((year / 100) % 10) as u8);
            dest.push(ZERO + ((year / 10) % 10) as u8);
            dest.push(ZERO + (year % 10) as u8);
            dest.push(ZERO + (month / 10) as u8);
            dest.push(ZERO + (month % 10) as u8);
            dest.push(ZERO + (day / 10) as u8);
            dest.push(ZERO + (day % 10) as u8);
            assert(dest@ =~= start + date_slot(*date));
        },
    }
}

/// Eight bytes are digits exactly when the three parts of a date in them
/// are, and then the parts are small numbers.
pub proof fn lemma_date_digits(slot: Seq<u8>)
    requires
        slot.len() == 8,
    ensures
        all_digits(slot) == (all_digits(slot.subrange(0, 4)) && all_digits(slot.subrange(4, 6))
            && all_digits(slot.subrange(6, 8))),
        all_digits(slot) ==> digits_value(slot.subrange(0, 4)) <= 9999 && digits_value(
            slot.subrange(4, 6),
        ) <= 99 && digits_value(slot.subrange(6, 8)) <= 99,
{
    let a = slot.subrange(0, 4);
    let b = slot.subrange(4, 6);
    let c = slot.subrange(6, 8);
    if all_digits(a) && all_digits(b) && all_digits(c) {
        assert forall|i: int| 0 <= i < 8 implies is_digit(#[trigger] slot[i]) by {
            if i < 4 {
                assert(slot[i] == a[i]);
            } else if i < 6 {
                assert(slot[i] == b[i - 4]);
            } else {
                assert(slot[i] == c[i - 6]);
            }
        }
    }
    if all_digits(slot) {
        assert forall|i: int| 0 <= i < 4 implies is_digit(#[trigger] a[i]) by {
            assert(a[i] == slot[i]);
        }
        assert forall|i: int| 0 <= i < 2 implies is_digit(#[trigger] b[i]) by {
            assert(b[i] == slot[i + 4]);
        }
        assert forall|i: int| 0 <= i < 2 implies is_digit(#[trigger] c[i]) by {
            assert(c[i] == slot[i + 6]);
        }
        lemma_digits_value_four(a);
        lemma_digits_value_two(b);
        lemma_digits_value_two(c);
        assert(is_digit(a[0]) && is_digit(a[1]) && is_digit(a[2]) && is_digit(a[3]));
        assert(is_digit(b[0]) && is_digit(b[1]));
        assert(is_digit(c[0]) && is_digit(c[1]));
    }
}

/// The result of reading a date, as contracts speak of it.
pub open spec fn outcome_date(r: Result<Option<Date>, Error>) -> Result<Option<Date>, Failure> {
    match r {
        Ok(d) => Ok(d),
        Err(e) => Err(e@),
    }
}

/// The date in a Date slot.
pub fn decode_date(slot: &[u8]) -> (r: Result<Option<Date>, Error>)
    requires
        slot@.len() == 8,
    ensures
        outcome_date(r) == date_value(slot@),
        r matches Ok(Some(d)) ==> d.wf(),
{
    let (from, to) = trimmed_blank_bounds(slot);
    proof {
        lemma_trim_blank_empty(slot@);
        lemma_date_digits(slot@);
    }
    if from == to {
        return Ok(None);
    }
    let year = parse_u32(vstd::slice::slice_subrange(slot, 0, 4));
    let month = parse_u32(vstd::slice::slice_subrange(slot, 4, 6));
    let day = parse_u32(vstd::slice::slice_subrange(slot, 6, 8));
    match (year, month, day) {
        (Some(y), Some(m), Some(d)) => match Date::new(d, m, y) {
            Ok(date) => Ok(Some(date)),
            Err(e) => Err(e),
        },
        _ => Err(Error::InvalidDate),
    }
}

/// Appends the slot of a Memo field that refers to block `index`, or to
/// none.
pub fn encode_memo_ref(length: usize, index: Option<u32>, dest: &mut Vec<u8>)
    requires
        length == 4 || length == 10,
    ensures
        final(dest)@ == old(dest)@ + memo_ref_slot(length as nat, index),
{
    if length == 4 {
        let word = match index {
            Some(i) => u32_le(i),
            None => u32_le(0),
        };
        push_all(dest, word.as_slice());
    } else {
        match index {
            None => {
                push_fill(dest, SPACE, length);
            },
            Some(i) => {
                let mut digits: Vec<u8> = Vec::new();
                push_decimal(&mut digits, i as u64);
                proof {
                    lemma_u32_digits(i as nat);
                    assert(digits@ =~= decimal_digits(i as nat));
                }
                let ghost start = dest@;
                push_fill(dest, SPACE, length - digits.len());
                push_all(dest, digits.as_slice());
                assert(dest@ =~= start + memo_ref_slot(length as nat, index));
            },
        }
    }
}

/// The result of reading a block reference, as contracts speak of it.
pub open spec fn outcome_ref(r: Result<Option<u32>, Error>) -> Result<Option<u32>, Failure> {
    match r {
        Ok(index) => Ok(index),
        Err(e) => Err(e@),
    }
}

/// The block that the slot of a Memo field refers to.
pub fn decode_memo_ref(slot: &[u8]) -> (r: Result<Option<u32>, Error>)
    ensures
        outcome_ref(r) == memo_ref(slot@),
{
    if slot.len() == 4 {
        let index = read_u32_le(slot);
        if index == 0 {
            Ok(None)
        } else {
            Ok(Some(index))
        }
    } else {
        let (from, to) = trimmed_blank_bounds(slot);
        if from == to {
            return Ok(None);
        }
        match parse_u32(vstd::slice::slice_subrange(slot, from, to)) {
            Some(index) => if index == 0 {
                Ok(None)
            } else {
                Ok(Some(index))
            },
            None => Err(Error::ParseIntError(copy_range(slot, from, to))),
        }
    }
}

impl FieldValue {
    /// The column type that holds this value.
    pub fn field_type(&self) -> (field_type: FieldType)
        ensures
            field_type == self@.field_type(),
    {
        match self {
            FieldValue::Character(_) => FieldType::Character,
            FieldValue::Numeric(_) => FieldType::Numeric,
            FieldValue::Float(_) => FieldType::Float,
            FieldValue::Logical(_) => FieldType::Logical,
            FieldValue::Date(_) => FieldType::Date,
            FieldValue::DateTime(_) => FieldType::DateTime,
            FieldValue::Integer(_) => FieldType::Integer,
            FieldValue::Double(_) => FieldType::Double,
            FieldValue::Currency(_) => FieldType::Currency,
            FieldValue::Memo(_) => FieldType::Memo,
        }
    }

    /// The value in the slot of a field that is no Memo field.
    pub fn decode_plain(info: &FieldInfo, slot: &[u8]) -> (r: Result<FieldValue, Error>)
        requires
            slot@.len() == info@.length,
            info@.field_type != FieldType::Memo,
        ensures
            outcome_value(r) == plain_value(info@, slot@),
            r matches Ok(v) ==> v@.wf() && v@.field_type() == info@.field_type,
    {
        match info.field_type() {
            FieldType::Character => Ok(FieldValue::Character(decode_character(slot))),
            FieldType::Numeric => match decode_numeric(slot) {
                Ok(d) => Ok(FieldValue::Numeric(d)),
                Err(e) => Err(e),
            },
            FieldType::Float => match decode_numeric(slot) {
                Ok(d) => Ok(FieldValue::Float(d)),
                Err(e) => Err(e),
            },
            FieldType::Logical => match decode_logical(slot[0]) {
                Ok(b) => Ok(FieldValue::Logical(b)),
                Err(e) => Err(e),
            },
            FieldType::Date => match decode_date(slot) {
                Ok(d) => Ok(FieldValue::Date(d)),
                Err(e) => Err(e),
            },
            FieldType::DateTime => {
                let julian_day = read_u32_le(slot);
                let milliseconds = read_u32_le(vstd::slice::slice_subrange(slot, 4, 8));
                proof {
                    let a = slot@.subrange(4, 8);
                    let b = slot@.skip(4);
                    assert(a[0] == b[0] && a[1] == b[1] && a[2] == b[2] && a[3] == b[3]);
                }
                Ok(FieldValue::DateTime(DateTime { julian_day, milliseconds }))
            },
            FieldType::Integer => Ok(FieldValue::Integer(i32_from_bits(read_u32_le(slot)))),
            FieldType::Double => Ok(FieldValue::Double(read_u64_le(slot))),
            FieldType::Currency => Ok(FieldValue::Currency(i64_from_bits(read_u64_le(slot)))),
            FieldType::Memo => Err(Error::MissingMemoFile),
        }
    }

    /// The value in the slot of a field. The text of a Memo field comes
    /// from `memo`.
    pub fn decode(info: &FieldInfo, slot: &[u8], memo: Option<&MemoFile>) -> (r: Result<
        FieldValue,
        Error,
    >)
        requires
            slot@.len() == info@.length,
        ensures
            outcome_value(r) == field_value(info@, slot@, borrowed_memo_model(memo)),
            r matches Ok(v) ==> v@.wf() && v@.field_type() == info@.field_type,
    {
        match info.field_type() {
            FieldType::Memo => {
                let m = match memo {
                    Some(m) => m,
                    None => {
                        return Err(Error::MissingMemoFile);
                    },
                };
                match decode_memo_ref(slot)? {
                    None => Ok(FieldValue::Memo(None)),
                    Some(index) => {
                        let payload = m.read_block(index)?;
                        Ok(FieldValue::Memo(Some(text_from_bytes(payload.as_slice()))))
                    },
                }
            },
            _ => FieldValue::decode_plain(info, slot),
        }
    }

    /// Appends the slot that the value takes in a field that is no Memo
    /// field to `dest`, which is left as it was where the value cannot stand
    /// in the field.
    pub fn encode_plain(&self, info: &FieldInfo, dest: &mut Vec<u8>) -> (r: Result<(), Error>)
        ensures
            match plain_slot(info@, self@) {
                Ok(slot) => r is Ok && final(dest)@ == old(dest)@ + slot,
                Err(failure) => r matches Err(e) && e@ == failure && final(dest)@ == old(dest)@,
            },
    {
        let length = info.length() as usize;
        let decimals = info.decimal_count() as usize;
        if info.field_type() != self.field_type() {
            return Err(self.mismatch(info));
        }
        match self {
            FieldValue::Character(text) => encode_character(text, length, dest),
            FieldValue::Numeric(number) => encode_numeric(number, length, decimals, dest),
            FieldValue::Float(number) => encode_numeric(number, length, decimals, dest),
            FieldValue::Logical(value) => {
                dest.push(encode_logical(*value));
                assert(dest@ =~= old(dest)@ + logical_slot(*value));
                Ok(())
            },
            FieldValue::Date(date) => {
                encode_date(date, dest);
                Ok(())
            },
            FieldValue::DateTime(t) => {
                let day = u32_le(t.julian_day);
                let time = u32_le(t.milliseconds);
                push_all(dest, day.as_slice());
                push_all(dest, time.as_slice());
                assert(dest@ =~= old(dest)@ + (le_bytes_u32(t.julian_day) + le_bytes_u32(
                    t.milliseconds,
                )));
                Ok(())
            },
            FieldValue::Integer(v) => {
                let word = u32_le(i32_to_bits(*v));
                push_all(dest, word.as_slice());
                Ok(())
            },
            FieldValue::Double(bits) => {
                let word = u64_le(*bits);
                push_all(dest, word.as_slice());
                Ok(())
            },
            FieldValue::Currency(v) => {
                let word = u64_le(i64_to_bits(*v));
                push_all(dest, word.as_slice());
                Ok(())
            },
            FieldValue::Memo(_) => Err(self.mismatch(info)),
        }
    }

    /// The error of this value offered to the field `info`.
    fn mismatch(&self, info: &FieldInfo) -> (e: Error)
        ensures
            e@ == bad_field_type(info@, self@),
    {
        Error::BadFieldType {
            expected: info.field_type(),
            got: self.field_type(),
            field_name: owned(info.name()),
        }
    }

    /// Appends the slot that the value takes in the field to `dest`. The
    /// text of a Memo field goes to `memo`. Where the value cannot be
    /// written, `dest` and `memo` are left as they were.
    pub fn encode(&self, info: &FieldInfo, dest: &mut Vec<u8>, memo: &mut Option<MemoFile>) -> (r:
        Result<(), Error>)
        ensures
            *old(memo) matches Some(m) ==> m.wf(),
            *final(memo) matches Some(m) ==> m.wf(),
            match field_written(info@, self@, memo_model(*old(memo))) {
                Ok((slot, after)) => r is Ok && final(dest)@ == old(dest)@ + slot && memo_model(
                    *final(memo),
                ) == after,
                Err(failure) => r matches Err(e) && e@ == failure && final(dest)@ == old(dest)@
                    && memo_model(*final(memo)) == memo_model(*old(memo)),
            },
    {
        if info.field_type() != self.field_type() {
            match memo {
                Some(m) => {
                    m.check();
                },
                None => {},
            }
            return Err(self.mismatch(info));
        }
        match self {
            FieldValue::Memo(text) => {
                let length = info.length() as usize;
                match memo {
                    None => Err(Error::MissingMemoFile),
                    Some(m) => match text {
                        None => {
                            m.check();
                            encode_memo_ref(length, None, dest);
                            Ok(())
                        },
                        Some(t) => {
                            let index = m.append_block(t.as_str().as_bytes())?;
                            encode_memo_ref(length, Some(index), dest);
                            Ok(())
                        },
                    },
                }
            },
            _ => {
                match memo {
                    Some(m) => {
                        m.check();
                    },
                    None => {},
                }
                self.encode_plain(info, dest)
            },
        }
    }
}

} // verus!
