//! Between the values of fields and the types that a program keeps them in.

use vstd::prelude::*;
use crate::date::{Date, DateTime};
use crate::decimal::Decimal;
use crate::schema::FieldType;
use crate::value::{decimal_model, text_model, FieldValue, ValueModel};
use crate::FieldConversionError;

verus! {

/// A type that the value of a field can be taken as.
pub trait FromFieldValue: Sized {
    /// The column type that a failure names as the one that was asked for.
    spec fn expected() -> FieldType;

    /// Whether a value can be taken as this type.
    spec fn convertible(value: ValueModel) -> bool;

    /// Whether `self` is what `value` is taken as.
    spec fn holds(&self, value: ValueModel) -> bool;

    fn from_field_value(value: FieldValue) -> (r: Result<Self, FieldConversionError>)
        ensures
            r.is_ok() == Self::convertible(value@),
            r matches Ok(target) ==> target.holds(value@),
            r matches Err(e) ==> e == (FieldConversionError {
                expected: Self::expected(),
                actual: value@.field_type(),
            }),
    ;
}

/// A type whose values can be written to a field.
pub trait ToFieldValue {
    /// The value of a field that `self` is written as.
    spec fn model(&self) -> ValueModel;

    fn to_field_value(&self) -> (value: FieldValue)
        ensures
            value@ == self.model(),
    ;
}

/// A copy of a text, if there is one.
pub fn clone_text(text: &Option<String>) -> (copy: Option<String>)
    ensures
        text_model(copy) == text_model(*text),
{
    match text {
        Some(t) => Some(t.clone()),
        None => None,
    }
}

/// A copy of a number, if there is one.
pub fn clone_decimal(number: &Option<Decimal>) -> (copy: Option<Decimal>)
    ensures
        decimal_model(copy) == decimal_model(*number),
{
    match number {
        Some(d) => Some(d.clone()),
        None => None,
    }
}

/// A copy of a value.
pub fn clone_value(value: &FieldValue) -> (copy: FieldValue)
    ensures
        copy@ == value@,
{
    match value {
        FieldValue::Character(t) => FieldValue::Character(clone_text(t)),
        FieldValue::Numeric(d) => FieldValue::Numeric(clone_decimal(d)),
        FieldValue::Float(d) => FieldValue::Float(clone_decimal(d)),
        FieldValue::Logical(b) => FieldValue::Logical(*b),
        FieldValue::Date(d) => FieldValue::Date(*d),
        FieldValue::DateTime(t) => FieldValue::DateTime(*t),
        FieldValue::Integer(v) => FieldValue::Integer(*v),
        FieldValue::Double(bits) => FieldValue::Double(*bits),
        FieldValue::Currency(v) => FieldValue::Currency(*v),
        FieldValue::Memo(t) => FieldValue::Memo(clone_text(t)),
    }
}

/// The failure of a value that was asked for as another type.
fn mismatch(expected: FieldType, value: &FieldValue) -> (e: FieldConversionError)
    ensures
        e == (FieldConversionError { expected, actual: value@.field_type() }),
{
    FieldConversionError { expected, actual: value.field_type() }
}

impl FromFieldValue for FieldValue {
    open spec fn expected() -> FieldType {
        FieldType::Character
    }

    open spec fn convertible(value: ValueModel) -> bool {
        true
    }

    open spec fn holds(&self, value: ValueModel) -> bool {
        self@ == value
    }

    fn from_field_value(value: FieldValue) -> (r: Result<Self, FieldConversionError>) {
        Ok(value)
    }
}

impl FromFieldValue for String {
    open spec fn expected() -> FieldType {
        FieldType::Character
    }

    /// A text that is set, of a Character or a Memo field.
    open spec fn convertible(value: ValueModel) -> bool {
        value matches ValueModel::Character(Some(_)) || value matches ValueModel::Memo(Some(_))
    }

    open spec fn holds(&self, value: ValueModel) -> bool {
        value == ValueModel::Character(Some(self@)) || value == ValueModel::Memo(Some(self@))
    }

    fn from_field_value(value: FieldValue) -> (r: Result<Self, FieldConversionError>) {
        match value {
            FieldValue::Character(Some(text)) => Ok(text),
            FieldValue::Memo(Some(text)) => Ok(text),
            other => Err(mismatch(FieldType::Character, &other)),
        }
    }
}

impl FromFieldValue for Option<String> {
    open spec fn expected() -> FieldType {
        FieldType::Character
    }

    /// A text, set or not, of a Character or a Memo field.
    open spec fn convertible(value: ValueModel) -> bool {
        value is Character || value is Memo
    }

    open spec fn holds(&self, value: ValueModel) -> bool {
        value == ValueModel::Character(text_model(*self)) || value == ValueModel::Memo(
            text_model(*self),
        )
    }

    fn from_field_value(value: FieldValue) -> (r: Result<Self, FieldConversionError>) {
        match value {
            FieldValue::Character(text) => Ok(text),
            FieldValue::Memo(text) => Ok(text),
            other => Err(mismatch(FieldType::Character, &other)),
        }
    }
}

impl FromFieldValue for bool {
    open spec fn expected() -> FieldType {
        FieldType::Logical
    }

    open spec fn convertible(value: ValueModel) -> bool {
        value matches ValueModel::Logical(Some(_))
    }

    open spec fn holds(&self, value: ValueModel) -> bool {
        value == ValueModel::Logical(Some(*self))
    }

    fn from_field_value(value: FieldValue) -> (r: Result<Self, FieldConversionError>) {
        match value {
            FieldValue::Logical(Some(b)) => Ok(b),
            other => Err(mismatch(FieldType::Logical, &other)),
        }
    }
}

impl FromFieldValue for Option<bool> {
    open spec fn expected() -> FieldType {
        FieldType::Logical
    }

    open spec fn convertible(value: ValueModel) -> bool {
        value is Logical
    }

    open spec fn holds(&self, value: ValueModel) -> bool {
        value == ValueModel::Logical(*self)
    }

    fn from_field_value(value: FieldValue) -> (r: Result<Self, FieldConversionError>) {
        match value {
            FieldValue::Logical(b) => Ok(b),
            other => Err(mismatch(FieldType::Logical, &other)),
        }
    }
}

impl FromFieldValue for Date {
    open spec fn expected() -> FieldType {
        FieldType::Date
    }

    open spec fn convertible(value: ValueModel) -> bool {
        value matches ValueModel::Date(Some(_))
    }

    open spec fn holds(&self, value: ValueModel) -> bool {
        value == ValueModel::Date(Some(*self))
    }

    fn from_field_value(value: FieldValue) -> (r: Result<Self, FieldConversionError>) {
        match value {
            FieldValue::Date(Some(d)) => Ok(d),
            other => Err(mismatch(FieldType::Date, &other)),
        }
    }
}

impl FromFieldValue for Option<Date> {
    open spec fn expected() -> FieldType {
        FieldType::Date
    }

    open spec fn convertible(value: ValueModel) -> bool {
        value is Date
    }

    open spec fn holds(&self, value: ValueModel) -> bool {
        value == ValueModel::Date(*self)
    }

    fn from_field_value(value: FieldValue) -> (r: Result<Self, FieldConversionError>) {
        match value {
            FieldValue::Date(d) => Ok(d),
            other => Err(mismatch(FieldType::Date, &other)),
        }
    }
}

impl FromFieldValue for Decimal {
    open spec fn expected() -> FieldType {
        FieldType::Numeric
    }

    /// A number that is set, of a Numeric or a Float field.
    open spec fn convertible(value: ValueModel) -> bool {
        value matches ValueModel::Numeric(Some(_)) || value matches ValueModel::Float(Some(_))
    }

    open spec fn holds(&self, value: ValueModel) -> bool {
        value == ValueModel::Numeric(Some(self@)) || value == ValueModel::Float(Some(self@))
    }

    fn from_field_value(value: FieldValue) -> (r: Result<Self, FieldConversionError>) {
        match value {
            FieldValue::Numeric(Some(d)) => Ok(d),
            FieldValue::Float(Some(d)) => Ok(d),
            other => Err(mismatch(FieldType::Numeric, &other)),
        }
    }
}

impl FromFieldValue for Option<Decimal> {
    open spec fn expected() -> FieldType {
        FieldType::Numeric
    }

    open spec fn convertible(value: ValueModel) -> bool {
        value is Numeric || value is Float
    }

    open spec fn holds(&self, value: ValueModel) -> bool {
        value == ValueModel::Numeric(decimal_model(*self)) || value == ValueModel::Float(
            decimal_model(*self),
        )
    }

    fn from_field_value(value: FieldValue) -> (r: Result<Self, FieldConversionError>) {
        match value {
            FieldValue::Numeric(d) => Ok(d),
            FieldValue::Float(d) => Ok(d),
            other => Err(mismatch(FieldType::Numeric, &other)),
        }
    }
}

impl FromFieldValue for i32 {
    open spec fn expected() -> FieldType {
        FieldType::Integer
    }

    open spec fn convertible(value: ValueModel) -> bool {
        value is Integer
    }

    open spec fn holds(&self, value: ValueModel) -> bool {
        value == ValueModel::Integer(*self)
    }

    fn from_field_value(value: FieldValue) -> (r: Result<Self, FieldConversionError>) {
        match value {
            FieldValue::Integer(v) => Ok(v),
            other => Err(mismatch(FieldType::Integer, &other)),
        }
    }
}

impl FromFieldValue for i64 {
    open spec fn expected() -> FieldType {
        FieldType::Currency
    }

    open spec fn convertible(value: ValueModel) -> bool {
        value is Currency
    }

    open spec fn holds(&self, value: ValueModel) -> bool {
        value == ValueModel::Currency(*self)
    }

    fn from_field_value(value: FieldValue) -> (r: Result<Self, FieldConversionError>) {
        match value {
            FieldValue::Currency(v) => Ok(v),
            other => Err(mismatch(FieldType::Currency, &other)),
        }
    }
}

impl FromFieldValue for u64 {
    open spec fn expected() -> FieldType {
        FieldType::Double
    }

    open spec fn convertible(value: ValueModel) -> bool {
        value is Double
    }

    open spec fn holds(&self, value: ValueModel) -> bool {
        value == ValueModel::Double(*self)
    }

    fn from_field_value(value: FieldValue) -> (r: Result<Self, FieldConversionError>) {
        match value {
            FieldValue::Double(bits) => Ok(bits),
            other => Err(mismatch(FieldType::Double, &other)),
        }
    }
}

impl FromFieldValue for DateTime {
    open spec fn expected() -> FieldType {
        FieldType::DateTime
    }

    open spec fn convertible(value: ValueModel) -> bool {
        value is DateTime
    }

    open spec fn holds(&self, value: ValueModel) -> bool {
        value == ValueModel::DateTime(*self)
    }

    fn from_field_value(value: FieldValue) -> (r: Result<Self, FieldConversionError>) {
        match value {
            FieldValue::DateTime(t) => Ok(t),
            other => Err(mismatch(FieldType::DateTime, &other)),
        }
    }
}

impl ToFieldValue for FieldValue {
    open spec fn model(&self) -> ValueModel {
        self@
    }

    fn to_field_value(&self) -> (value: FieldValue) {
        clone_value(self)
    }
}

impl ToFieldValue for String {
    open spec fn model(&self) -> ValueModel {
        ValueModel::Character(Some(self@))
    }

    fn to_field_value(&self) -> (value: FieldValue) {
        FieldValue::Character(Some(self.clone()))
    }
}

impl ToFieldValue for Option<String> {
    open spec fn model(&self) -> ValueModel {
        ValueModel::Character(text_model(*self))
    }

    fn to_field_value(&self) -> (value: FieldValue) {
        FieldValue::Character(clone_text(self))
    }
}

impl ToFieldValue for bool {
    open spec fn model(&self) -> ValueModel {
        ValueModel::Logical(Some(*self))
    }

    fn to_field_value(&self) -> (value: FieldValue) {
        FieldValue::Logical(Some(*self))
    }
}

impl ToFieldValue for Option<bool> {
    open spec fn model(&self) -> ValueModel {
        ValueModel::Logical(*self)
    }

    fn to_field_value(&self) -> (value: FieldValue) {
        FieldValue::Logical(*self)
    }
}

impl ToFieldValue for Date {
    open spec fn model(&self) -> ValueModel {
        ValueModel::Date(Some(*self))
    }

    fn to_field_value(&self) -> (value: FieldValue) {
        FieldValue::Date(Some(*self))
    }
}

impl ToFieldValue for Option<Date> {
    open spec fn model(&self) -> ValueModel {
        ValueModel::Date(*self)
    }

    fn to_field_value(&self) -> (value: FieldValue) {
        FieldValue::Date(*self)
    }
}

impl ToFieldValue for Decimal {
    open spec fn model(&self) -> ValueModel {
        ValueModel::Numeric(Some(self@))
    }

    fn to_field_value(&self) -> (value: FieldValue) {
        FieldValue::Numeric(Some(self.clone()))
    }
}

impl ToFieldValue for Option<Decimal> {
    open spec fn model(&self) -> ValueModel {
        ValueModel::Numeric(decimal_model(*self))
    }

    fn to_field_value(&self) -> (value: FieldValue) {
        FieldValue::Numeric(clone_decimal(self))
    }
}

impl ToFieldValue for i32 {
    open spec fn model(&self) -> ValueModel {
        ValueModel::Integer(*self)
    }

    fn to_field_value(&self) -> (value: FieldValue) {
        FieldValue::Integer(*self)
    }
}

impl ToFieldValue for i64 {
    open spec fn model(&self) -> ValueModel {
        ValueModel::Currency(*self)
    }

    fn to_field_value(&self) -> (value: FieldValue) {
        FieldValue::Currency(*self)
    }
}

impl ToFieldValue for u64 {
    open spec fn model(&self) -> ValueModel {
        ValueModel::Double(*self)
    }

    fn to_field_value(&self) -> (value: FieldValue) {
        FieldValue::Double(*self)
    }
}

impl ToFieldValue for DateTime {
    open spec fn model(&self) -> ValueModel {
        ValueModel::DateTime(*self)
    }

    fn to_field_value(&self) -> (value: FieldValue) {
        FieldValue::DateTime(*self)
    }
}

} // verus!
