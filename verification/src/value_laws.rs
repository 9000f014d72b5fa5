//! What holds of the slot codecs: a value that is written to a field and
//! read again is the value that went in, for every column type.

use vstd::prelude::*;
use vstd::utf8::encode_utf8;
use crate::bytes::{
    filled, is_blank, le_bytes_u32, lemma_le_u32_round_trip, lemma_le_u64_round_trip,
    lemma_trim_blank_empty, lemma_trim_blank_padded, lemma_trim_end_ignores_padding,
    lemma_trim_end_padded, spaces, SPACE,
};
use crate::date::{lemma_date_parts, Date};
use crate::decimal::{decimal_text, lemma_decimal_text_parses, DecimalModel};
use crate::digits::{
    decimal_digits, fixed_digits, is_digit, lemma_decimal_digits_shape, lemma_four_digits,
    lemma_two_digits, lemma_u32_digits, ZERO,
};
use crate::memo::{lemma_append_then_read, MemoModel};
use crate::schema::FieldSpec;
use crate::text::lemma_text_round_trip;
use crate::value::{
    character_slot, character_value, date_slot, date_value, field_value, field_written,
    logical_slot, logical_value, memo_ref, memo_ref_slot, numeric_slot, numeric_value, plain_slot,
    plain_value, ValueModel, VALUE_TOO_WIDE,
};
use crate::Failure;

verus! {

/// The value that a field gives back for a value that was written to it. It
/// is the value itself, but for two things that a slot cannot keep: the
/// spaces at the end of a text (and so a text of spaces only, which comes
/// back unset), and the count of digits after the point, which becomes that
/// of the field.
pub open spec fn stored(f: FieldSpec, v: ValueModel) -> ValueModel {
    match v {
        ValueModel::Character(Some(t)) => ValueModel::Character(character_value(encode_utf8(t))),
        ValueModel::Numeric(Some(d)) => ValueModel::Numeric(Some(d.rescaled(f.decimal_count))),
        ValueModel::Float(Some(d)) => ValueModel::Float(Some(d.rescaled(f.decimal_count))),
        _ => v,
    }
}

/// Whether a value comes back from a field exactly as it went in: a text
/// that is not empty and does not end in a space, a number with as many
/// digits after the point as the field has, and any value of another type.
pub open spec fn kept_exactly(f: FieldSpec, v: ValueModel) -> bool {
    match v {
        ValueModel::Character(Some(t)) => encode_utf8(t).len() > 0 && encode_utf8(t).last()
            != SPACE,
        ValueModel::Numeric(Some(d)) => d.frac_digits.len() == f.decimal_count,
        ValueModel::Float(Some(d)) => d.frac_digits.len() == f.decimal_count,
        _ => true,
    }
}

/// A value that is kept exactly is stored as itself.
pub proof fn lemma_kept_exactly(f: FieldSpec, v: ValueModel)
    requires
        kept_exactly(f, v),
    ensures
        stored(f, v) == v,
{
    match v {
        ValueModel::Character(Some(t)) => {
            lemma_trim_end_padded(encode_utf8(t), SPACE, 0);
            assert(encode_utf8(t) + filled(SPACE, 0) =~= encode_utf8(t));
            lemma_text_round_trip(t);
        },
        ValueModel::Numeric(Some(d)) => {
            assert(d.frac_digits + filled(ZERO, 0) =~= d.frac_digits);
        },
        ValueModel::Float(Some(d)) => {
            assert(d.frac_digits + filled(ZERO, 0) =~= d.frac_digits);
        },
        _ => {},
    }
}

/// A text in a Character field: one that is shorter than the field, or just
/// as long, comes back without the spaces at its end, and so unchanged if it
/// has none and is not empty; one that is longer is refused.
pub proof fn lemma_character_round_trip(text: Seq<char>, length: nat)
    ensures
        encode_utf8(text).len() <= length ==> character_slot(Some(text), length) is Ok
            && character_slot(Some(text), length)->Ok_0.len() == length && character_value(
            character_slot(Some(text), length)->Ok_0,
        ) == character_value(encode_utf8(text)),
        encode_utf8(text).len() > length ==> character_slot(Some(text), length) == Err::<
            Seq<u8>,
            Failure,
        >(Failure::Message(VALUE_TOO_WIDE@)),
        encode_utf8(text).len() > 0 && encode_utf8(text).last() != SPACE ==> character_value(
            encode_utf8(text),
        ) == Some(text),
        character_value(character_slot(None, length)->Ok_0) == None::<Seq<char>>,
{
    let bytes = encode_utf8(text);
    if bytes.len() <= length {
        lemma_trim_end_ignores_padding(bytes, SPACE, (length - bytes.len()) as nat);
    }
    if bytes.len() > 0 && bytes.last() != SPACE {
        lemma_trim_end_padded(bytes, SPACE, 0);
        assert(bytes + filled(SPACE, 0) =~= bytes);
        lemma_text_round_trip(text);
    }
    lemma_trim_end_padded(Seq::<u8>::empty(), SPACE, length);
    assert(Seq::<u8>::empty() + spaces(length) =~= spaces(length));
}

/// True, false and unset each come back from a Logical field as they went
/// in.
pub proof fn lemma_logical_round_trip(value: Option<bool>)
    ensures
        logical_slot(value).len() == 1,
        logical_value(logical_slot(value)[0]) == Ok::<Option<bool>, Failure>(value),
{
}

/// A number comes back from a Numeric or Float field with the field's count
/// of digits after the point, which is the same number
/// ([`crate::decimal::lemma_rescaled_value`]), and unset comes back unset.
pub proof fn lemma_numeric_round_trip(number: Option<DecimalModel>, length: nat, decimals: nat)
    requires
        number matches Some(d) ==> d.wf(),
        numeric_slot(number, length, decimals) is Ok,
    ensures
        numeric_slot(number, length, decimals)->Ok_0.len() == length,
        numeric_value(numeric_slot(number, length, decimals)->Ok_0) == Ok::<
            Option<DecimalModel>,
            Failure,
        >(
            match number {
                Some(d) => Some(d.rescaled(decimals)),
                None => None,
            },
        ),
{
    let slot = numeric_slot(number, length, decimals)->Ok_0;
    match number {
        None => {
            lemma_trim_blank_empty(slot);
        },
        Some(d) => {
            let r = d.rescaled(decimals);
            let text = decimal_text(r);
            crate::decimal::lemma_rescaled_value(d, decimals);
            lemma_decimal_text_parses(r);
            lemma_trim_blank_padded((length - text.len()) as nat, text, 0);
            assert(spaces((length - text.len()) as nat) + text + spaces(0) =~= slot);
        },
    }
}

/// A date comes back from a Date field as it went in, and unset comes back
/// unset.
pub proof fn lemma_date_round_trip(date: Option<Date>)
    requires
        date matches Some(d) ==> d.wf(),
    ensures
        date_slot(date).len() == 8,
        date_value(date_slot(date)) == Ok::<Option<Date>, Failure>(date),
{
    let slot = date_slot(date);
    match date {
        None => {},
        Some(d) => {
            let y = d.spec_year() as nat;
            let m = d.spec_month() as nat;
            let dd = d.spec_day() as nat;
            lemma_four_digits(y);
            lemma_two_digits(m);
            lemma_two_digits(dd);
            lemma_date_parts(d);
            let a = fixed_digits(y, 4);
            let b = fixed_digits(m, 2);
            let c = fixed_digits(dd, 2);
            assert(slot == a + b + c);
            assert(slot.subrange(0, 4) =~= a);
            assert(slot.subrange(4, 6) =~= b);
            assert(slot.subrange(6, 8) =~= c);
            assert(is_digit(a[0]));
            assert(slot[0] == a[0]);
            assert(!is_blank(slot[0]));
            assert forall|i: int| 0 <= i < slot.len() implies is_digit(#[trigger] slot[i]) by {
                if i < 4 {
                    assert(slot[i] == a[i]);
                } else if i < 6 {
                    assert(slot[i] == b[i - 4]);
                } else {
                    assert(slot[i] == c[i - 6]);
                }
            }
        },
    }
}

/// Whatever can be written to a field that is no Memo field fills the field's
/// slot and comes back as the value that the field stores for it.
pub proof fn lemma_plain_round_trip(f: FieldSpec, v: ValueModel)
    requires
        f.wf(),
        v.wf(),
        plain_slot(f, v) is Ok,
    ensures
        plain_slot(f, v)->Ok_0.len() == f.length,
        plain_value(f, plain_slot(f, v)->Ok_0) == Ok::<ValueModel, Failure>(stored(f, v)),
{
    let slot = plain_slot(f, v)->Ok_0;
    match v {
        ValueModel::Character(t) => {
            match t {
                Some(text) => lemma_character_round_trip(text, f.length),
                None => lemma_character_round_trip(Seq::empty(), f.length),
            }
        },
        ValueModel::Numeric(d) => {
            lemma_numeric_round_trip(d, f.length, f.decimal_count);
        },
        ValueModel::Float(d) => {
            lemma_numeric_round_trip(d, f.length, f.decimal_count);
        },
        ValueModel::Logical(b) => {
            lemma_logical_round_trip(b);
        },
        ValueModel::Date(d) => {
            lemma_date_round_trip(d);
        },
        ValueModel::DateTime(t) => {
            lemma_le_u32_round_trip(t.julian_day);
            lemma_le_u32_round_trip(t.milliseconds);
            let a = le_bytes_u32(t.julian_day);
            let b = le_bytes_u32(t.milliseconds);
            assert(slot[0] == a[0] && slot[1] == a[1] && slot[2] == a[2] && slot[3] == a[3]);
            assert(slot.skip(4) =~= b);
        },
        ValueModel::Integer(i) => {
            lemma_le_u32_round_trip(crate::bytes::unsigned32(i as int) as u32);
        },
        ValueModel::Double(bits) => {
            lemma_le_u64_round_trip(bits);
        },
        ValueModel::Currency(c) => {
            lemma_le_u64_round_trip(crate::bytes::unsigned64(c as int) as u64);
        },
        ValueModel::Memo(_) => {},
    }
}

/// The slot of a Memo field refers to the block that was written to it.
pub proof fn lemma_memo_ref_round_trip(length: nat, index: Option<u32>)
    requires
        length == 4 || length == 10,
        index != Some(0u32),
    ensures
        memo_ref_slot(length, index).len() == length,
        memo_ref(memo_ref_slot(length, index)) == Ok::<Option<u32>, Failure>(index),
{
    let slot = memo_ref_slot(length, index);
    lemma_le_u32_round_trip(0);
    if length == 4 {
        match index {
            Some(i) => lemma_le_u32_round_trip(i),
            None => {},
        }
    } else {
        match index {
            None => {
                lemma_trim_blank_empty(slot);
            },
            Some(i) => {
                let digits = decimal_digits(i as nat);
                lemma_u32_digits(i as nat);
                lemma_decimal_digits_shape(i as nat);
                assert(is_digit(digits[0]) && is_digit(digits.last()));
                lemma_trim_blank_padded((length - digits.len()) as nat, digits, 0);
                assert(spaces((length - digits.len()) as nat) + digits + spaces(0) =~= slot);
            },
        }
    }
}

/// Whatever can be written to a field fills the field's slot, leaves the
/// memo file well formed, and comes back as the value that the field stores
/// for it.
pub proof fn lemma_field_round_trip(f: FieldSpec, v: ValueModel, memo: Option<MemoModel>)
    requires
        f.wf(),
        v.wf(),
        memo matches Some(m) ==> m.wf(),
        field_written(f, v, memo) is Ok,
    ensures
        ({
            let (slot, after) = field_written(f, v, memo)->Ok_0;
            &&& slot.len() == f.length
            &&& after is Some == memo is Some
            &&& (after matches Some(m) ==> m.wf())
            &&& field_value(f, slot, after) == Ok::<ValueModel, Failure>(stored(f, v))
        }),
{
    let (slot, after) = field_written(f, v, memo)->Ok_0;
    match v {
        ValueModel::Memo(text) => {
            let m = memo->Some_0;
            match text {
                None => {
                    lemma_memo_ref_round_trip(f.length, None);
                },
                Some(t) => {
                    let payload = encode_utf8(t);
                    lemma_append_then_read(m, payload);
                    lemma_memo_has_header(m);
                    lemma_memo_ref_round_trip(f.length, Some(m.next_free as u32));
                    lemma_text_round_trip(t);
                },
            }
        },
        _ => {
            lemma_plain_round_trip(f, v);
        },
    }
}

/// Whatever is written to a field takes as many bytes as the field is long,
/// and a memo file is there afterwards exactly if one was there before.
pub proof fn lemma_slot_length(f: FieldSpec, v: ValueModel, memo: Option<MemoModel>)
    requires
        f.wf(),
        memo matches Some(m) ==> m.wf(),
        field_written(f, v, memo) is Ok,
    ensures
        field_written(f, v, memo)->Ok_0.0.len() == f.length,
        (field_written(f, v, memo)->Ok_0.1 is Some) == (memo is Some),
        field_written(f, v, memo)->Ok_0.1 matches Some(m) ==> m.wf(),
{
    match v {
        ValueModel::Memo(text) => {
            let m = memo->Some_0;
            match text {
                None => {
                    lemma_memo_ref_round_trip(f.length, None);
                },
                Some(t) => {
                    lemma_append_then_read(m, encode_utf8(t));
                    lemma_memo_has_header(m);
                    lemma_memo_ref_round_trip(f.length, Some(m.next_free as u32));
                },
            }
        },
        ValueModel::Character(_) => {},
        ValueModel::Numeric(_) => {},
        ValueModel::Float(_) => {},
        ValueModel::Logical(_) => {},
        ValueModel::Date(Some(d)) => {
            crate::digits::lemma_fixed_digits_shape(d.spec_year() as nat, 4);
            crate::digits::lemma_fixed_digits_shape(d.spec_month() as nat, 2);
            crate::digits::lemma_fixed_digits_shape(d.spec_day() as nat, 2);
        },
        ValueModel::Date(None) => {},
        ValueModel::DateTime(_) => {},
        ValueModel::Integer(_) => {},
        ValueModel::Double(_) => {},
        ValueModel::Currency(_) => {},
    }
}

/// The next free block of a memo file lies behind the header.
pub proof fn lemma_memo_has_header(m: MemoModel)
    requires
        m.wf(),
    ensures
        m.next_free >= m.first_block(),
        m.next_free >= 1,
{
    crate::memo::lemma_blocks_for(crate::memo::HEADER_SIZE as nat, m.block_size);
    let first = m.first_block();
    if m.next_free < first {
        assert(m.next_free * m.block_size <= (first - 1) * m.block_size) by (nonlinear_arith)
            requires
                m.next_free <= first - 1,
        ;
        assert((first - 1) * m.block_size == first * m.block_size - m.block_size)
            by (nonlinear_arith);
    }
    if m.next_free == 0 {
        assert(m.next_free * m.block_size == 0);
    }
}

} // verus!
