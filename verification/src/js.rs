//! JavaScript values as the conversions of the canonical ABI read and write
//! them, and the conversions of primitives to and from them.

use vstd::prelude::*;

use crate::lift::AbiError;
use crate::val::{
    f64_bits_of_int, f64_bits_to_int, f64_is_negative, lemma_f64_bits_of_int,
    spec_f64_bits_of_int, spec_f64_bits_to_int, spec_f64_is_negative,
};

verus! {

/// A JavaScript value, as far as the conversions tell values apart.
#[derive(Debug, Clone, Copy, PartialEq, Eq)]
pub enum JsValue {
    /// `undefined`.
    Undefined,
    /// `null`.
    Null,
    /// A boolean.
    Bool(bool),
    /// A number, given by the bit pattern of its IEEE 754 double.
    Number(u64),
    /// A `BigInt` in the range of `i128`.
    BigInt(i128),
}

impl JsValue {
    /// The number holding exactly the integer `x`.
    pub fn from_int(x: i64) -> (r: JsValue)
        requires
            -0x1_0000_0000 < x < 0x1_0000_0000,
        ensures
            r == JsValue::Number(spec_f64_bits_of_int(x as int)),
    {
        JsValue::Number(f64_bits_of_int(x))
    }

    /// The bit pattern of the number, if the value is a number.
    pub fn as_f64_bits(&self) -> (r: Option<u64>)
        ensures
            r == match *self {
                JsValue::Number(bits) => Some(bits),
                _ => None::<u64>,
            },
    {
        match self {
            JsValue::Number(bits) => Some(*bits),
            _ => None,
        }
    }

    /// The value is `undefined` or `null`.
    pub fn is_nullish(&self) -> (r: bool)
        ensures
            r == (*self is Undefined || *self is Null),
    {
        match self {
            JsValue::Undefined => true,
            JsValue::Null => true,
            _ => false,
        }
    }
}

/// Conversion from a JavaScript value.
pub trait FromJsValue: Sized {
    /// The value that `value` converts to, or why it does not convert.
    spec fn spec_from_js_value(value: JsValue) -> Result<Self, AbiError>;

    /// Converts `value`.
    fn from_js_value(value: &JsValue) -> (r: Result<Self, AbiError>)
        ensures
            r == Self::spec_from_js_value(*value),
    ;
}

/// A number rounded toward zero and clamped to `lo..=hi`; anything else is
/// not converted.
pub open spec fn spec_number_to_int(value: JsValue, lo: int, hi: int) -> Result<int, AbiError> {
    match value {
        JsValue::Number(bits) => Ok(spec_f64_bits_to_int(bits, lo, hi)),
        _ => Err(AbiError::UnexpectedJsValue),
    }
}

/// A number rounded toward zero and clamped to `lo..=hi`.
fn number_to_int(value: &JsValue, lo: i64, hi: i64) -> (r: Result<i64, AbiError>)
    requires
        -0x1_0000_0000 < lo <= 0 <= hi < 0x1_0000_0000,
    ensures
        match r {
            Ok(v) => spec_number_to_int(*value, lo as int, hi as int) == Ok::<int, AbiError>(
                v as int,
            ),
            Err(e) => spec_number_to_int(*value, lo as int, hi as int) == Err::<int, AbiError>(e),
        },
{
    match value.as_f64_bits() {
        Some(bits) => Ok(f64_bits_to_int(bits, lo, hi)),
        None => Err(AbiError::UnexpectedJsValue),
    }
}

/// A number below zero is rounded toward zero, clamped to the signed range
/// of the same width and its bits read as unsigned; any other number is
/// rounded toward zero and clamped to `0..=umax`.
pub open spec fn spec_number_to_unsigned(value: JsValue, smin: int, smax: int, umax: int) -> Result<
    int,
    AbiError,
> {
    match value {
        JsValue::Number(bits) => if spec_f64_is_negative(bits) {
            let v = spec_f64_bits_to_int(bits, smin, smax);
            if v < 0 {
                Ok(v + umax + 1)
            } else {
                Ok(v)
            }
        } else {
            Ok(spec_f64_bits_to_int(bits, 0, umax))
        },
        _ => Err(AbiError::UnexpectedJsValue),
    }
}

/// A number converted as `spec_number_to_unsigned` says.
fn number_to_unsigned(value: &JsValue, smin: i64, smax: i64, umax: i64) -> (r: Result<
    i64,
    AbiError,
>)
    requires
        -0x1_0000_0000 < smin < 0 < smax < umax < 0x1_0000_0000,
        umax == smax - smin,
    ensures
        match r {
            Ok(v) => spec_number_to_unsigned(*value, smin as int, smax as int, umax as int)
                == Ok::<int, AbiError>(v as int),
            Err(e) => spec_number_to_unsigned(*value, smin as int, smax as int, umax as int)
                == Err::<int, AbiError>(e),
        },
{
    match value.as_f64_bits() {
        Some(bits) => if f64_is_negative(bits) {
            let v: i64 = f64_bits_to_int(bits, smin, smax);
            if v < 0 {
                Ok(v + umax + 1)
            } else {
                Ok(v)
            }
        } else {
            Ok(f64_bits_to_int(bits, 0, umax))
        },
        None => Err(AbiError::UnexpectedJsValue),
    }
}

/// A number rounded toward zero and clamped to the range of `i8`.
impl FromJsValue for i8 {
    open spec fn spec_from_js_value(value: JsValue) -> Result<i8, AbiError> {
        match spec_number_to_int(value, -0x80, 0x7f) {
            Ok(v) => Ok(v as i8),
            Err(e) => Err(e),
        }
    }

    fn from_js_value(value: &JsValue) -> (r: Result<i8, AbiError>) {
        let v: i64 = number_to_int(value, -0x80, 0x7f)?;
        Ok(v as i8)
    }
}

/// A number rounded toward zero and clamped to the range of `i16`.
impl FromJsValue for i16 {
    open spec fn spec_from_js_value(value: JsValue) -> Result<i16, AbiError> {
        match spec_number_to_int(value, -0x8000, 0x7fff) {
            Ok(v) => Ok(v as i16),
            Err(e) => Err(e),
        }
    }

    fn from_js_value(value: &JsValue) -> (r: Result<i16, AbiError>) {
        let v: i64 = number_to_int(value, -0x8000, 0x7fff)?;
        Ok(v as i16)
    }
}

/// A number rounded toward zero and clamped to the range of `i32`.
impl FromJsValue for i32 {
    open spec fn spec_from_js_value(value: JsValue) -> Result<i32, AbiError> {
        match spec_number_to_int(value, -0x8000_0000, 0x7fff_ffff) {
            Ok(v) => Ok(v as i32),
            Err(e) => Err(e),
        }
    }

    fn from_js_value(value: &JsValue) -> (r: Result<i32, AbiError>) {
        let v: i64 = number_to_int(value, -0x8000_0000, 0x7fff_ffff)?;
        Ok(v as i32)
    }
}

/// A number below zero as its `i8` bits, any other clamped to the range of `u8`.
impl FromJsValue for u8 {
    open spec fn spec_from_js_value(value: JsValue) -> Result<u8, AbiError> {
        match spec_number_to_unsigned(value, -0x80, 0x7f, 0xff) {
            Ok(v) => Ok(v as u8),
            Err(e) => Err(e),
        }
    }

    fn from_js_value(value: &JsValue) -> (r: Result<u8, AbiError>) {
        let v: i64 = number_to_unsigned(value, -0x80, 0x7f, 0xff)?;
        Ok(v as u8)
    }
}

/// A number below zero as its `i16` bits, any other clamped to the range of `u16`.
impl FromJsValue for u16 {
    open spec fn spec_from_js_value(value: JsValue) -> Result<u16, AbiError> {
        match spec_number_to_unsigned(value, -0x8000, 0x7fff, 0xffff) {
            Ok(v) => Ok(v as u16),
            Err(e) => Err(e),
        }
    }

    fn from_js_value(value: &JsValue) -> (r: Result<u16, AbiError>) {
        let v: i64 = number_to_unsigned(value, -0x8000, 0x7fff, 0xffff)?;
        Ok(v as u16)
    }
}

/// A number below zero as its `i32` bits, any other clamped to the range of `u32`.
impl FromJsValue for u32 {
    open spec fn spec_from_js_value(value: JsValue) -> Result<u32, AbiError> {
        match spec_number_to_unsigned(value, -0x8000_0000, 0x7fff_ffff, 0xffff_ffff) {
            Ok(v) => Ok(v as u32),
            Err(e) => Err(e),
        }
    }

    fn from_js_value(value: &JsValue) -> (r: Result<u32, AbiError>) {
        let v: i64 = number_to_unsigned(value, -0x8000_0000, 0x7fff_ffff, 0xffff_ffff)?;
        Ok(v as u32)
    }
}

/// A `BigInt` in the range of `i64`.
impl FromJsValue for i64 {
    open spec fn spec_from_js_value(value: JsValue) -> Result<i64, AbiError> {
        match value {
            JsValue::BigInt(b) => if i64::MIN <= b <= i64::MAX {
                Ok(b as i64)
            } else {
                Err(AbiError::UnexpectedJsValue)
            },
            _ => Err(AbiError::UnexpectedJsValue),
        }
    }

    fn from_js_value(value: &JsValue) -> (r: Result<i64, AbiError>) {
        match value {
            JsValue::BigInt(b) => if i64::MIN as i128 <= *b && *b <= i64::MAX as i128 {
                Ok(*b as i64)
            } else {
                Err(AbiError::UnexpectedJsValue)
            },
            _ => Err(AbiError::UnexpectedJsValue),
        }
    }
}

/// A `BigInt` in the range of `u64`, or one in the range of `i64` below zero
/// as its bits.
impl FromJsValue for u64 {
    open spec fn spec_from_js_value(value: JsValue) -> Result<u64, AbiError> {
        match value {
            JsValue::BigInt(b) => if 0 <= b <= u64::MAX {
                Ok(b as u64)
            } else if i64::MIN <= b < 0 {
                Ok((b + 0x1_0000_0000_0000_0000) as u64)
            } else {
                Err(AbiError::UnexpectedJsValue)
            },
            _ => Err(AbiError::UnexpectedJsValue),
        }
    }

    fn from_js_value(value: &JsValue) -> (r: Result<u64, AbiError>) {
        match value {
            JsValue::BigInt(b) => if 0 <= *b && *b <= u64::MAX as i128 {
                Ok(*b as u64)
            } else if i64::MIN as i128 <= *b && *b < 0 {
                Ok((*b + 0x1_0000_0000_0000_0000i128) as u64)
            } else {
                Err(AbiError::UnexpectedJsValue)
            },
            _ => Err(AbiError::UnexpectedJsValue),
        }
    }
}

/// A boolean.
impl FromJsValue for bool {
    open spec fn spec_from_js_value(value: JsValue) -> Result<bool, AbiError> {
        match value {
            JsValue::Bool(b) => Ok(b),
            _ => Err(AbiError::UnexpectedJsValue),
        }
    }

    fn from_js_value(value: &JsValue) -> (r: Result<bool, AbiError>) {
        match value {
            JsValue::Bool(b) => Ok(*b),
            _ => Err(AbiError::UnexpectedJsValue),
        }
    }
}

/// `undefined` or `null`.
impl FromJsValue for () {
    open spec fn spec_from_js_value(value: JsValue) -> Result<(), AbiError> {
        if value is Undefined || value is Null {
            Ok(())
        } else {
            Err(AbiError::UnexpectedJsValue)
        }
    }

    fn from_js_value(value: &JsValue) -> (r: Result<(), AbiError>) {
        if value.is_nullish() {
            Ok(())
        } else {
            Err(AbiError::UnexpectedJsValue)
        }
    }
}

/// `undefined` or `null` is `None`, anything else the value it converts to.
impl<T: FromJsValue> FromJsValue for Option<T> {
    open spec fn spec_from_js_value(value: JsValue) -> Result<Option<T>, AbiError> {
        if value is Undefined || value is Null {
            Ok(None)
        } else {
            match T::spec_from_js_value(value) {
                Ok(x) => Ok(Some(x)),
                Err(e) => Err(e),
            }
        }
    }

    fn from_js_value(value: &JsValue) -> (r: Result<Option<T>, AbiError>) {
        if value.is_nullish() {
            Ok(None)
        } else {
            let x = T::from_js_value(value)?;
            Ok(Some(x))
        }
    }
}

/// Conversion to a JavaScript value.
pub trait ToJsValue {
    /// The JavaScript value that `self` converts to.
    spec fn spec_to_js_value(&self) -> JsValue;

    /// Converts `self`.
    fn to_js_value(&self) -> (r: JsValue)
        ensures
            r == self.spec_to_js_value(),
    ;
}

/// The number equal to the integer.
impl ToJsValue for i32 {
    open spec fn spec_to_js_value(&self) -> JsValue {
        JsValue::Number(spec_f64_bits_of_int(*self as int))
    }

    fn to_js_value(&self) -> (r: JsValue) {
        let x: i64 = *self as i64;
        JsValue::from_int(x)
    }
}

/// The number equal to the integer.
impl ToJsValue for u32 {
    open spec fn spec_to_js_value(&self) -> JsValue {
        JsValue::Number(spec_f64_bits_of_int(*self as int))
    }

    fn to_js_value(&self) -> (r: JsValue) {
        let x: i64 = *self as i64;
        let r = JsValue::from_int(x);
        assert(r == self.spec_to_js_value());
        r
    }
}

/// A boolean.
impl ToJsValue for bool {
    open spec fn spec_to_js_value(&self) -> JsValue {
        JsValue::Bool(*self)
    }

    fn to_js_value(&self) -> (r: JsValue) {
        JsValue::Bool(*self)
    }
}

/// `undefined`.
impl ToJsValue for () {
    open spec fn spec_to_js_value(&self) -> JsValue {
        JsValue::Undefined
    }

    fn to_js_value(&self) -> (r: JsValue) {
        JsValue::Undefined
    }
}

/// A `u32` converted to a number converts back to itself.
pub proof fn lemma_u32_js_round_trip(x: u32)
    ensures
        u32::spec_from_js_value(x.spec_to_js_value()) == Ok::<u32, AbiError>(x),
{
    lemma_f64_bits_of_int(x as int, 0, 0xffff_ffff);
}

/// An `i32` converted to a number converts back to itself.
pub proof fn lemma_i32_js_round_trip(x: i32)
    ensures
        i32::spec_from_js_value(x.spec_to_js_value()) == Ok::<i32, AbiError>(x),
{
    lemma_f64_bits_of_int(x as int, i32::MIN as int, i32::MAX as int);
}

/// A `bool` converted to a JavaScript value converts back to itself.
pub proof fn lemma_bool_js_round_trip(x: bool)
    ensures
        bool::spec_from_js_value(x.spec_to_js_value()) == Ok::<bool, AbiError>(x),
{
}

} // verus!
