//! Conversion between Rust values and Rex's owned values: `IntoRex` turns a
//! Rust value into a `Value`, and `FromRex` reads a Rust value back out of a
//! `Value`, refusing a value of another kind.
//!
//! A vector of bytes is the one special case: it converts to and from a
//! byte string (`Value::Bytes`) rather than a list.

use vstd::prelude::*;

use crate::error::EngineError;
use crate::natives::same_text;
use crate::value::{mismatch_error, Value};

verus! {

/// Decodes a Rust value from Rex's owned representation.
pub trait FromRex: Sized {
    /// `r` is what decoding `v` gives.
    spec fn decodes(v: Value, r: Result<Self, EngineError>) -> bool;

    /// Whether a vector of this type is read from a byte string.
    spec fn vec_reads_bytes() -> bool;

    fn from_rex(value: Value) -> (r: Result<Self, EngineError>)
        ensures
            Self::decodes(value, r),
    ;

    fn reads_bytes() -> (b: bool)
        ensures
            b == Self::vec_reads_bytes(),
    ;
}

/// Encodes a Rust value into Rex's owned representation.
pub trait IntoRex: Sized {
    /// `r` is what encoding `x` gives.
    spec fn encodes(x: Self, r: Result<Value, EngineError>) -> bool;

    /// Whether a vector of this type is written as a byte string.
    spec fn vec_writes_bytes() -> bool;

    fn into_rex(self) -> (r: Result<Value, EngineError>)
        ensures
            Self::encodes(self, r),
    ;

    fn writes_bytes() -> (b: bool)
        ensures
            b == Self::vec_writes_bytes(),
    ;
}

/// A decoding result with its vector read as a sequence.
pub open spec fn seq_result<T>(r: Result<Vec<T>, EngineError>) -> Result<Seq<T>, EngineError> {
    match r {
        Ok(v) => Ok(v@),
        Err(e) => Err(e),
    }
}

/// Some decoding of `v` succeeds.
pub open spec fn decodes_ok<T: FromRex>(v: Value) -> bool {
    exists|t: T| #[trigger] T::decodes(v, Ok(t))
}

/// Some encoding of `x` succeeds.
pub open spec fn encodes_ok<T: IntoRex>(x: T) -> bool {
    exists|v: Value| #[trigger] T::encodes(x, Ok(v))
}

/// Decoding the items `items` one by one gives `r`: every decoded item, or
/// the error of an item that fails, every item before it decoding.
pub open spec fn items_decode<T: FromRex>(items: Seq<Value>, r: Result<Seq<T>, EngineError>) -> bool {
    match r {
        Ok(s) => s.len() == items.len() && forall|k: int| 0 <= k < items.len() ==> T::decodes(#[trigger] items[k], Ok(s[k])),
        Err(e) => exists|k: int| 0 <= k < items.len() && T::decodes(#[trigger] items[k], Err(e))
            && forall|j: int| 0 <= j < k ==> decodes_ok::<T>(#[trigger] items[j]),
    }
}

/// Encoding the values `xs` one by one gives `r`: every encoded value, or
/// the error of a value that fails, every value before it encoding.
pub open spec fn items_encode<T: IntoRex>(xs: Seq<T>, r: Result<Seq<Value>, EngineError>) -> bool {
    match r {
        Ok(s) => s.len() == xs.len() && forall|k: int| 0 <= k < xs.len() ==> T::encodes(#[trigger] xs[k], Ok(s[k])),
        Err(e) => exists|k: int| 0 <= k < xs.len() && T::encodes(#[trigger] xs[k], Err(e))
            && forall|j: int| 0 <= j < k ==> encodes_ok::<T>(#[trigger] xs[j]),
    }
}

/// The bytes `b` as `u8` values.
pub open spec fn byte_values(b: Seq<u8>) -> Seq<Value> {
    b.map_values(|x: u8| Value::U8(x))
}

/// Decodes the items `items` one by one, stopping at the first failure.
pub fn decode_items<T: FromRex>(items: Vec<Value>) -> (r: Result<Vec<T>, EngineError>)
    ensures
        items_decode(items@, seq_result(r)),
{
    let ghost vals = items@;
    let n = items.len();
    let mut pending = items;
    let mut rest: Vec<Value> = Vec::new();
    while pending.len() > 0
        invariant
            pending@.len() + rest@.len() == n,
            vals.len() == n,
            forall|k: int| 0 <= k < pending@.len() ==> #[trigger] pending@[k] == vals[k],
            forall|k: int| 0 <= k < rest@.len() ==> #[trigger] rest@[k] == vals[n - 1 - k],
        decreases pending@.len(),
    {
        match pending.pop() {
            Some(v) => rest.push(v),
            None => {},
        }
    }
    let mut out: Vec<T> = Vec::new();
    while rest.len() > 0
        invariant
            out@.len() + rest@.len() == n,
            vals.len() == n,
            vals == items@,
            forall|k: int| 0 <= k < rest@.len() ==> #[trigger] rest@[k] == vals[n - 1 - k],
            forall|k: int| 0 <= k < out@.len() ==> T::decodes(#[trigger] vals[k], Ok(out@[k])),
        decreases rest@.len(),
    {
        let ghost i = out@.len() as int;
        let item = match rest.pop() {
            Some(x) => x,
            None => {
                return Ok(out);
            },
        };
        proof {
            assert(item == vals[i]);
        }
        match T::from_rex(item) {
            Ok(t) => out.push(t),
            Err(e) => {
                proof {
                    assert(T::decodes(vals[i], Err(e)));
                    assert forall|j: int| 0 <= j < i implies decodes_ok::<T>(#[trigger] vals[j]) by {
                        assert(T::decodes(vals[j], Ok(out@[j])));
                    }
                    assert(0 <= i < vals.len());
                }
                return Err(e);
            },
        }
    }
    Ok(out)
}

/// Decodes the bytes `bytes` one by one as `u8` values.
pub fn decode_bytes<T: FromRex>(bytes: Vec<u8>) -> (r: Result<Vec<T>, EngineError>)
    ensures
        items_decode(byte_values(bytes@), seq_result(r)),
{
    let ghost vals = byte_values(bytes@);
    let mut out: Vec<T> = Vec::new();
    let mut i: usize = 0;
    while i < bytes.len()
        invariant
            0 <= i <= bytes@.len(),
            vals == byte_values(bytes@),
            out@.len() == i,
            forall|k: int| 0 <= k < i ==> T::decodes(#[trigger] vals[k], Ok(out@[k])),
        decreases bytes@.len() - i,
    {
        proof {
            assert(vals[i as int] == Value::U8(bytes@[i as int]));
        }
        match T::from_rex(Value::U8(bytes[i])) {
            Ok(t) => out.push(t),
            Err(e) => {
                proof {
                    assert forall|j: int| 0 <= j < i implies decodes_ok::<T>(#[trigger] vals[j]) by {
                        assert(T::decodes(vals[j], Ok(out@[j])));
                    }
                    assert(0 <= i < vals.len());
                }
                return Err(e);
            },
        }
        i += 1;
    }
    Ok(out)
}

/// Encodes the values `xs` one by one, stopping at the first failure.
pub fn encode_items<T: IntoRex>(xs: Vec<T>) -> (r: Result<Vec<Value>, EngineError>)
    ensures
        items_encode(xs@, seq_result(r)),
{
    let ghost vals = xs@;
    let n = xs.len();
    let mut pending = xs;
    let mut rest: Vec<T> = Vec::new();
    while pending.len() > 0
        invariant
            pending@.len() + rest@.len() == n,
            vals.len() == n,
            forall|k: int| 0 <= k < pending@.len() ==> #[trigger] pending@[k] == vals[k],
            forall|k: int| 0 <= k < rest@.len() ==> #[trigger] rest@[k] == vals[n - 1 - k],
        decreases pending@.len(),
    {
        match pending.pop() {
            Some(v) => rest.push(v),
            None => {},
        }
    }
    let mut out: Vec<Value> = Vec::new();
    while rest.len() > 0
        invariant
            out@.len() + rest@.len() == n,
            vals.len() == n,
            vals == xs@,
            forall|k: int| 0 <= k < rest@.len() ==> #[trigger] rest@[k] == vals[n - 1 - k],
            forall|k: int| 0 <= k < out@.len() ==> T::encodes(#[trigger] vals[k], Ok(out@[k])),
        decreases rest@.len(),
    {
        let ghost i = out@.len() as int;
        let item = match rest.pop() {
            Some(x) => x,
            None => {
                return Ok(out);
            },
        };
        proof {
            assert(item == vals[i]);
        }
        match item.into_rex() {
            Ok(v) => out.push(v),
            Err(e) => {
                proof {
                    assert(T::encodes(vals[i], Err(e)));
                    assert forall|j: int| 0 <= j < i implies encodes_ok::<T>(#[trigger] vals[j]) by {
                        assert(T::encodes(vals[j], Ok(out@[j])));
                    }
                    assert(0 <= i < vals.len());
                }
                return Err(e);
            },
        }
    }
    Ok(out)
}

/// The message of a byte vector whose items did not all encode as bytes.
pub open spec fn bytes_downcast_error() -> EngineError {
    EngineError::Internal("Vec<u8> TypeId downcast failed")
}

/// The bytes of encoded values that are all `u8` values.
pub open spec fn all_bytes(vals: Seq<Value>) -> Option<Seq<u8>> {
    if forall|k: int| 0 <= k < vals.len() ==> (#[trigger] vals[k]) is U8 {
        Some(vals.map_values(|v: Value| v->U8_0))
    } else {
        None
    }
}

/// Collects the bytes of encoded values, which must all be `u8` values.
fn collect_bytes(vals: &Vec<Value>) -> (r: Option<Vec<u8>>)
    ensures
        match all_bytes(vals@) {
            Some(b) => r matches Some(x) && x@ == b,
            None => r is None,
        },
{
    let mut out: Vec<u8> = Vec::new();
    let mut i: usize = 0;
    while i < vals.len()
        invariant
            0 <= i <= vals@.len(),
            out@.len() == i,
            forall|k: int| 0 <= k < i ==> (#[trigger] vals@[k]) is U8 && out@[k] == vals@[k]->U8_0,
        decreases vals@.len() - i,
    {
        match &vals[i] {
            Value::U8(b) => out.push(*b),
            _ => return None,
        }
        i += 1;
    }
    proof {
        assert(out@ =~= vals@.map_values(|v: Value| v->U8_0));
    }
    Some(out)
}

impl FromRex for bool {
    open spec fn decodes(v: Value, r: Result<bool, EngineError>) -> bool {
        match v {
            Value::Bool(x) => r == Ok::<bool, EngineError>(x),
            other => r == Err::<bool, EngineError>(mismatch_error("bool", other)),
        }
    }

    open spec fn vec_reads_bytes() -> bool {
        false
    }

    fn from_rex(value: Value) -> (r: Result<bool, EngineError>) {
        match value {
            Value::Bool(x) => Ok(x),
            other => Err(EngineError::NativeType { expected: "bool", got: other.value_type_name() }),
        }
    }

    fn reads_bytes() -> (b: bool) {
        false
    }
}

impl IntoRex for bool {
    open spec fn encodes(x: bool, r: Result<Value, EngineError>) -> bool {
        r == Ok::<Value, EngineError>(Value::Bool(x))
    }

    open spec fn vec_writes_bytes() -> bool {
        false
    }

    fn into_rex(self) -> (r: Result<Value, EngineError>) {
        Ok(Value::Bool(self))
    }

    fn writes_bytes() -> (b: bool) {
        false
    }
}

impl FromRex for u8 {
    open spec fn decodes(v: Value, r: Result<u8, EngineError>) -> bool {
        match v {
            Value::U8(x) => r == Ok::<u8, EngineError>(x),
            other => r == Err::<u8, EngineError>(mismatch_error("u8", other)),
        }
    }

    open spec fn vec_reads_bytes() -> bool {
        true
    }

    fn from_rex(value: Value) -> (r: Result<u8, EngineError>) {
        match value {
            Value::U8(x) => Ok(x),
            other => Err(EngineError::NativeType { expected: "u8", got: other.value_type_name() }),
        }
    }

    fn reads_bytes() -> (b: bool) {
        true
    }
}

impl IntoRex for u8 {
    open spec fn encodes(x: u8, r: Result<Value, EngineError>) -> bool {
        r == Ok::<Value, EngineError>(Value::U8(x))
    }

    open spec fn vec_writes_bytes() -> bool {
        true
    }

    fn into_rex(self) -> (r: Result<Value, EngineError>) {
        Ok(Value::U8(self))
    }

    fn writes_bytes() -> (b: bool) {
        true
    }
}

impl FromRex for u16 {
    open spec fn decodes(v: Value, r: Result<u16, EngineError>) -> bool {
        match v {
            Value::U16(x) => r == Ok::<u16, EngineError>(x),
            other => r == Err::<u16, EngineError>(mismatch_error("u16", other)),
        }
    }

    open spec fn vec_reads_bytes() -> bool {
        false
    }

    fn from_rex(value: Value) -> (r: Result<u16, EngineError>) {
        match value {
            Value::U16(x) => Ok(x),
            other => Err(EngineError::NativeType { expected: "u16", got: other.value_type_name() }),
        }
    }

    fn reads_bytes() -> (b: bool) {
        false
    }
}

impl IntoRex for u16 {
    open spec fn encodes(x: u16, r: Result<Value, EngineError>) -> bool {
        r == Ok::<Value, EngineError>(Value::U16(x))
    }

    open spec fn vec_writes_bytes() -> bool {
        false
    }

    fn into_rex(self) -> (r: Result<Value, EngineError>) {
        Ok(Value::U16(self))
    }

    fn writes_bytes() -> (b: bool) {
        false
    }
}

impl FromRex for u32 {
    open spec fn decodes(v: Value, r: Result<u32, EngineError>) -> bool {
        match v {
            Value::U32(x) => r == Ok::<u32, EngineError>(x),
            other => r == Err::<u32, EngineError>(mismatch_error("u32", other)),
        }
    }

    open spec fn vec_reads_bytes() -> bool {
        false
    }

    fn from_rex(value: Value) -> (r: Result<u32, EngineError>) {
        match value {
            Value::U32(x) => Ok(x),
            other => Err(EngineError::NativeType { expected: "u32", got: other.value_type_name() }),
        }
    }

    fn reads_bytes() -> (b: bool) {
        false
    }
}

impl IntoRex for u32 {
    open spec fn encodes(x: u32, r: Result<Value, EngineError>) -> bool {
        r == Ok::<Value, EngineError>(Value::U32(x))
    }

    open spec fn vec_writes_bytes() -> bool {
        false
    }

    fn into_rex(self) -> (r: Result<Value, EngineError>) {
        Ok(Value::U32(self))
    }

    fn writes_bytes() -> (b: bool) {
        false
    }
}

impl FromRex for u64 {
    open spec fn decodes(v: Value, r: Result<u64, EngineError>) -> bool {
        match v {
            Value::U64(x) => r == Ok::<u64, EngineError>(x),
            other => r == Err::<u64, EngineError>(mismatch_error("u64", other)),
        }
    }

    open spec fn vec_reads_bytes() -> bool {
        false
    }

    fn from_rex(value: Value) -> (r: Result<u64, EngineError>) {
        match value {
            Value::U64(x) => Ok(x),
            other => Err(EngineError::NativeType { expected: "u64", got: other.value_type_name() }),
        }
    }

    fn reads_bytes() -> (b: bool) {
        false
    }
}

impl IntoRex for u64 {
    open spec fn encodes(x: u64, r: Result<Value, EngineError>) -> bool {
        r == Ok::<Value, EngineError>(Value::U64(x))
    }

    open spec fn vec_writes_bytes() -> bool {
        false
    }

    fn into_rex(self) -> (r: Result<Value, EngineError>) {
        Ok(Value::U64(self))
    }

    fn writes_bytes() -> (b: bool) {
        false
    }
}

impl FromRex for i8 {
    open spec fn decodes(v: Value, r: Result<i8, EngineError>) -> bool {
        match v {
            Value::I8(x) => r == Ok::<i8, EngineError>(x),
            other => r == Err::<i8, EngineError>(mismatch_error("i8", other)),
        }
    }

    open spec fn vec_reads_bytes() -> bool {
        false
    }

    fn from_rex(value: Value) -> (r: Result<i8, EngineError>) {
        match value {
            Value::I8(x) => Ok(x),
            other => Err(EngineError::NativeType { expected: "i8", got: other.value_type_name() }),
        }
    }

    fn reads_bytes() -> (b: bool) {
        false
    }
}

impl IntoRex for i8 {
    open spec fn encodes(x: i8, r: Result<Value, EngineError>) -> bool {
        r == Ok::<Value, EngineError>(Value::I8(x))
    }

    open spec fn vec_writes_bytes() -> bool {
        false
    }

    fn into_rex(self) -> (r: Result<Value, EngineError>) {
        Ok(Value::I8(self))
    }

    fn writes_bytes() -> (b: bool) {
        false
    }
}

impl FromRex for i16 {
    open spec fn decodes(v: Value, r: Result<i16, EngineError>) -> bool {
        match v {
            Value::I16(x) => r == Ok::<i16, EngineError>(x),
            other => r == Err::<i16, EngineError>(mismatch_error("i16", other)),
        }
    }

    open spec fn vec_reads_bytes() -> bool {
        false
    }

    fn from_rex(value: Value) -> (r: Result<i16, EngineError>) {
        match value {
            Value::I16(x) => Ok(x),
            other => Err(EngineError::NativeType { expected: "i16", got: other.value_type_name() }),
        }
    }

    fn reads_bytes() -> (b: bool) {
        false
    }
}

impl IntoRex for i16 {
    open spec fn encodes(x: i16, r: Result<Value, EngineError>) -> bool {
        r == Ok::<Value, EngineError>(Value::I16(x))
    }

    open spec fn vec_writes_bytes() -> bool {
        false
    }

    fn into_rex(self) -> (r: Result<Value, EngineError>) {
        Ok(Value::I16(self))
    }

    fn writes_bytes() -> (b: bool) {
        false
    }
}

impl FromRex for i32 {
    open spec fn decodes(v: Value, r: Result<i32, EngineError>) -> bool {
        match v {
            Value::I32(x) => r == Ok::<i32, EngineError>(x),
            other => r == Err::<i32, EngineError>(mismatch_error("i32", other)),
        }
    }

    open spec fn vec_reads_bytes() -> bool {
        false
    }

    fn from_rex(value: Value) -> (r: Result<i32, EngineError>) {
        match value {
            Value::I32(x) => Ok(x),
            other => Err(EngineError::NativeType { expected: "i32", got: other.value_type_name() }),
        }
    }

    fn reads_bytes() -> (b: bool) {
        false
    }
}

impl IntoRex for i32 {
    open spec fn encodes(x: i32, r: Result<Value, EngineError>) -> bool {
        r == Ok::<Value, EngineError>(Value::I32(x))
    }

    open spec fn vec_writes_bytes() -> bool {
        false
    }

    fn into_rex(self) -> (r: Result<Value, EngineError>) {
        Ok(Value::I32(self))
    }

    fn writes_bytes() -> (b: bool) {
        false
    }
}

impl FromRex for i64 {
    open spec fn decodes(v: Value, r: Result<i64, EngineError>) -> bool {
        match v {
            Value::I64(x) => r == Ok::<i64, EngineError>(x),
            other => r == Err::<i64, EngineError>(mismatch_error("i64", other)),
        }
    }

    open spec fn vec_reads_bytes() -> bool {
        false
    }

    fn from_rex(value: Value) -> (r: Result<i64, EngineError>) {
        match value {
            Value::I64(x) => Ok(x),
            other => Err(EngineError::NativeType { expected: "i64", got: other.value_type_name() }),
        }
    }

    fn reads_bytes() -> (b: bool) {
        false
    }
}

impl IntoRex for i64 {
    open spec fn encodes(x: i64, r: Result<Value, EngineError>) -> bool {
        r == Ok::<Value, EngineError>(Value::I64(x))
    }

    open spec fn vec_writes_bytes() -> bool {
        false
    }

    fn into_rex(self) -> (r: Result<Value, EngineError>) {
        Ok(Value::I64(self))
    }

    fn writes_bytes() -> (b: bool) {
        false
    }
}

impl FromRex for String {
    open spec fn decodes(v: Value, r: Result<String, EngineError>) -> bool {
        match v {
            Value::String(x) => r == Ok::<String, EngineError>(x),
            other => r == Err::<String, EngineError>(mismatch_error("String", other)),
        }
    }

    open spec fn vec_reads_bytes() -> bool {
        false
    }

    fn from_rex(value: Value) -> (r: Result<String, EngineError>) {
        match value {
            Value::String(x) => Ok(x),
            other => Err(EngineError::NativeType { expected: "String", got: other.value_type_name() }),
        }
    }

    fn reads_bytes() -> (b: bool) {
        false
    }
}

impl IntoRex for String {
    open spec fn encodes(x: String, r: Result<Value, EngineError>) -> bool {
        r == Ok::<Value, EngineError>(Value::String(x))
    }

    open spec fn vec_writes_bytes() -> bool {
        false
    }

    fn into_rex(self) -> (r: Result<Value, EngineError>) {
        Ok(Value::String(self))
    }

    fn writes_bytes() -> (b: bool) {
        false
    }
}

impl<'a> IntoRex for &'a str {
    open spec fn encodes(x: &'a str, r: Result<Value, EngineError>) -> bool {
        r matches Ok(Value::String(s)) && s@ == x@
    }

    open spec fn vec_writes_bytes() -> bool {
        false
    }

    fn into_rex(self) -> (r: Result<Value, EngineError>) {
        Ok(Value::String(self.to_string()))
    }

    fn writes_bytes() -> (b: bool) {
        false
    }
}

impl FromRex for () {
    open spec fn decodes(v: Value, r: Result<(), EngineError>) -> bool {
        match v {
            Value::Tuple(items) => if items@.len() == 0 {
                r == Ok::<(), EngineError>(())
            } else {
                r == Err::<(), EngineError>(mismatch_error("unit", v))
            },
            other => r == Err::<(), EngineError>(mismatch_error("unit", other)),
        }
    }

    open spec fn vec_reads_bytes() -> bool {
        false
    }

    fn from_rex(value: Value) -> (r: Result<(), EngineError>) {
        match value {
            Value::Tuple(items) => if items.len() == 0 {
                Ok(())
            } else {
                Err(EngineError::NativeType { expected: "unit", got: "tuple" })
            },
            other => Err(EngineError::NativeType { expected: "unit", got: other.value_type_name() }),
        }
    }

    fn reads_bytes() -> (b: bool) {
        false
    }
}

impl IntoRex for () {
    open spec fn encodes(x: (), r: Result<Value, EngineError>) -> bool {
        r matches Ok(Value::Tuple(items)) && items@.len() == 0
    }

    open spec fn vec_writes_bytes() -> bool {
        false
    }

    fn into_rex(self) -> (r: Result<Value, EngineError>) {
        Ok(Value::Tuple(Vec::new()))
    }

    fn writes_bytes() -> (b: bool) {
        false
    }
}

impl<T: FromRex> FromRex for Vec<T> {
    open spec fn decodes(v: Value, r: Result<Vec<T>, EngineError>) -> bool {
        if T::vec_reads_bytes() {
            match v {
                Value::Bytes(b) => items_decode::<T>(byte_values(b@), seq_result(r)),
                other => r matches Err(e) && e == mismatch_error("bytes", other),
            }
        } else {
            match v {
                Value::List(items) => items_decode::<T>(items@, seq_result(r)),
                other => r matches Err(e) && e == mismatch_error("list", other),
            }
        }
    }

    open spec fn vec_reads_bytes() -> bool {
        false
    }

    fn from_rex(value: Value) -> (r: Result<Vec<T>, EngineError>) {
        if T::reads_bytes() {
            match value {
                Value::Bytes(b) => decode_bytes(b),
                other => Err(EngineError::NativeType { expected: "bytes", got: other.value_type_name() }),
            }
        } else {
            match value {
                Value::List(items) => decode_items(items),
                other => Err(EngineError::NativeType { expected: "list", got: other.value_type_name() }),
            }
        }
    }

    fn reads_bytes() -> (b: bool) {
        false
    }
}

impl<T: IntoRex> IntoRex for Vec<T> {
    open spec fn encodes(x: Vec<T>, r: Result<Value, EngineError>) -> bool {
        exists|enc: Result<Seq<Value>, EngineError>| #[trigger] items_encode(x@, enc) && match enc {
            Err(e) => r == Err::<Value, EngineError>(e),
            Ok(vals) => if T::vec_writes_bytes() {
                match all_bytes(vals) {
                    Some(b) => r matches Ok(Value::Bytes(bs)) && bs@ == b,
                    None => r == Err::<Value, EngineError>(bytes_downcast_error()),
                }
            } else {
                r matches Ok(Value::List(items)) && items@ == vals
            },
        }
    }

    open spec fn vec_writes_bytes() -> bool {
        false
    }

    fn into_rex(self) -> (r: Result<Value, EngineError>) {
        let ghost xs = self@;
        let enc = encode_items(self);
        proof {
            assert(items_encode(xs, seq_result(enc)));
        }
        match enc {
            Err(e) => Err(e),
            Ok(vals) => if T::writes_bytes() {
                match collect_bytes(&vals) {
                    Some(b) => Ok(Value::Bytes(b)),
                    None => Err(EngineError::Internal("Vec<u8> TypeId downcast failed")),
                }
            } else {
                Ok(Value::List(vals))
            },
        }
    }

    fn writes_bytes() -> (b: bool) {
        false
    }
}

impl<T: FromRex> FromRex for Option<T> {
    open spec fn decodes(v: Value, r: Result<Option<T>, EngineError>) -> bool {
        match v {
            Value::Adt(tag, args) => if tag@ == "Some"@ && args@.len() == 1 {
                exists|inner: Result<T, EngineError>| #[trigger] T::decodes(args@[0], inner) && match inner {
                    Ok(t) => r == Ok::<Option<T>, EngineError>(Some(t)),
                    Err(e) => r == Err::<Option<T>, EngineError>(e),
                }
            } else if tag@ == "None"@ && args@.len() == 0 {
                r == Ok::<Option<T>, EngineError>(None)
            } else {
                r == Err::<Option<T>, EngineError>(mismatch_error("option", v))
            },
            other => r == Err::<Option<T>, EngineError>(mismatch_error("option", other)),
        }
    }

    open spec fn vec_reads_bytes() -> bool {
        false
    }

    fn from_rex(value: Value) -> (r: Result<Option<T>, EngineError>) {
        match value {
            Value::Adt(tag, args) => {
                if same_text(tag.as_str(), "Some") && args.len() == 1 {
                    let mut args = args;
                    let inner = match args.pop() {
                        Some(x) => x,
                        None => return Err(EngineError::Internal("validated Some value had no argument")),
                    };
                    match T::from_rex(inner) {
                        Ok(t) => Ok(Some(t)),
                        Err(e) => Err(e),
                    }
                } else if same_text(tag.as_str(), "None") && args.len() == 0 {
                    Ok(None)
                } else {
                    Err(EngineError::NativeType { expected: "option", got: "adt" })
                }
            },
            other => Err(EngineError::NativeType { expected: "option", got: other.value_type_name() }),
        }
    }

    fn reads_bytes() -> (b: bool) {
        false
    }
}

impl<T: IntoRex> IntoRex for Option<T> {
    open spec fn encodes(x: Option<T>, r: Result<Value, EngineError>) -> bool {
        match x {
            Some(t) => exists|inner: Result<Value, EngineError>| #[trigger] T::encodes(t, inner) && match inner {
                Ok(v) => r matches Ok(Value::Adt(tag, args)) && tag@ == "Some"@ && args@ == seq![v],
                Err(e) => r == Err::<Value, EngineError>(e),
            },
            None => r matches Ok(Value::Adt(tag, args)) && tag@ == "None"@ && args@.len() == 0,
        }
    }

    open spec fn vec_writes_bytes() -> bool {
        false
    }

    fn into_rex(self) -> (r: Result<Value, EngineError>) {
        match self {
            Some(t) => match t.into_rex() {
                Ok(v) => {
                    let mut args: Vec<Value> = Vec::new();
                    args.push(v);
                    proof {
                        assert(args@ =~= seq![v]);
                    }
                    Ok(Value::Adt("Some".to_string(), args))
                },
                Err(e) => Err(e),
            },
            None => Ok(Value::Adt("None".to_string(), Vec::new())),
        }
    }

    fn writes_bytes() -> (b: bool) {
        false
    }
}

impl<T: FromRex, E: FromRex> FromRex for Result<T, E> {
    open spec fn decodes(v: Value, r: Result<Result<T, E>, EngineError>) -> bool {
        match v {
            Value::Adt(tag, args) => if tag@ == "Ok"@ && args@.len() == 1 {
                exists|inner: Result<T, EngineError>| #[trigger] T::decodes(args@[0], inner) && match inner {
                    Ok(t) => r == Ok::<Result<T, E>, EngineError>(Ok(t)),
                    Err(e) => r == Err::<Result<T, E>, EngineError>(e),
                }
            } else if tag@ == "Err"@ && args@.len() == 1 {
                exists|inner: Result<E, EngineError>| #[trigger] E::decodes(args@[0], inner) && match inner {
                    Ok(x) => r == Ok::<Result<T, E>, EngineError>(Err(x)),
                    Err(e) => r == Err::<Result<T, E>, EngineError>(e),
                }
            } else {
                r == Err::<Result<T, E>, EngineError>(mismatch_error("result", v))
            },
            other => r == Err::<Result<T, E>, EngineError>(mismatch_error("result", other)),
        }
    }

    open spec fn vec_reads_bytes() -> bool {
        false
    }

    fn from_rex(value: Value) -> (r: Result<Result<T, E>, EngineError>) {
        match value {
            Value::Adt(tag, args) => {
                if same_text(tag.as_str(), "Ok") && args.len() == 1 {
                    let mut args = args;
                    let inner = match args.pop() {
                        Some(x) => x,
                        None => return Err(EngineError::Internal("validated Ok value had no argument")),
                    };
                    match T::from_rex(inner) {
                        Ok(t) => Ok(Ok(t)),
                        Err(e) => Err(e),
                    }
                } else if same_text(tag.as_str(), "Err") && args.len() == 1 {
                    let mut args = args;
                    let inner = match args.pop() {
                        Some(x) => x,
                        None => return Err(EngineError::Internal("validated Err value had no argument")),
                    };
                    match E::from_rex(inner) {
                        Ok(x) => Ok(Err(x)),
                        Err(e) => Err(e),
                    }
                } else {
                    Err(EngineError::NativeType { expected: "result", got: "adt" })
                }
            },
            other => Err(EngineError::NativeType { expected: "result", got: other.value_type_name() }),
        }
    }

    fn reads_bytes() -> (b: bool) {
        false
    }
}

impl<T: IntoRex, E: IntoRex> IntoRex for Result<T, E> {
    open spec fn encodes(x: Result<T, E>, r: Result<Value, EngineError>) -> bool {
        match x {
            Ok(t) => exists|inner: Result<Value, EngineError>| #[trigger] T::encodes(t, inner) && match inner {
                Ok(v) => r matches Ok(Value::Adt(tag, args)) && tag@ == "Ok"@ && args@ == seq![v],
                Err(e) => r == Err::<Value, EngineError>(e),
            },
            Err(x) => exists|inner: Result<Value, EngineError>| #[trigger] E::encodes(x, inner) && match inner {
                Ok(v) => r matches Ok(Value::Adt(tag, args)) && tag@ == "Err"@ && args@ == seq![v],
                Err(e) => r == Err::<Value, EngineError>(e),
            },
        }
    }

    open spec fn vec_writes_bytes() -> bool {
        false
    }

    fn into_rex(self) -> (r: Result<Value, EngineError>) {
        match self {
            Ok(t) => match t.into_rex() {
                Ok(v) => {
                    let mut args: Vec<Value> = Vec::new();
                    args.push(v);
                    proof {
                        assert(args@ =~= seq![v]);
                    }
                    Ok(Value::Adt("Ok".to_string(), args))
                },
                Err(e) => Err(e),
            },
            Err(x) => match x.into_rex() {
                Ok(v) => {
                    let mut args: Vec<Value> = Vec::new();
                    args.push(v);
                    proof {
                        assert(args@ =~= seq![v]);
                    }
                    Ok(Value::Adt("Err".to_string(), args))
                },
                Err(e) => Err(e),
            },
        }
    }

    fn writes_bytes() -> (b: bool) {
        false
    }
}

impl<A0: FromRex> FromRex for (A0,) {
    open spec fn decodes(v: Value, r: Result<(A0,), EngineError>) -> bool {
        match v {
            Value::Tuple(items) => if items@.len() < 1 {
                r matches Err(EngineError::NativeType { expected, got }) && expected == "tuple" && got == "tuple with too few items"
            } else if items@.len() > 1 {
                r matches Err(EngineError::NativeType { expected, got }) && expected == "tuple" && got == "tuple with too many items"
            } else {
                exists|r0: Result<A0, EngineError>| #[trigger] A0::decodes(items@[0], r0) && match r0 {
    Err(e) => r == Err::<(A0,), EngineError>(e),
    Ok(x0) => r == Ok::<(A0,), EngineError>((x0,)),
}
            },
            other => r == Err::<(A0,), EngineError>(mismatch_error("tuple", other)),
        }
    }

    open spec fn vec_reads_bytes() -> bool {
        false
    }

    fn from_rex(value: Value) -> (r: Result<(A0,), EngineError>) {
        match value {
            Value::Tuple(items) => {
                if items.len() < 1 {
                    return Err(EngineError::NativeType { expected: "tuple", got: "tuple with too few items" });
                }
                if items.len() > 1 {
                    return Err(EngineError::NativeType { expected: "tuple", got: "tuple with too many items" });
                }
                let ghost iv = items@;
                let mut items = items;
                let item0 = match items.pop() {
                    Some(x) => x,
                    None => return Err(EngineError::NativeType { expected: "tuple", got: "tuple with too few items" }),
                };
                proof {
                    assert(item0 == iv[0]);
                }
                let x0 = match A0::from_rex(item0) {
                    Ok(x) => x,
                    Err(e) => return Err(e),
                };
                Ok((x0,))
            },
            other => Err(EngineError::NativeType { expected: "tuple", got: other.value_type_name() }),
        }
    }

    fn reads_bytes() -> (b: bool) {
        false
    }
}

impl<A0: IntoRex> IntoRex for (A0,) {
    open spec fn encodes(x: (A0,), r: Result<Value, EngineError>) -> bool {
        exists|r0: Result<Value, EngineError>| #[trigger] A0::encodes(x.0, r0) && match r0 {
    Err(e) => r == Err::<Value, EngineError>(e),
    Ok(v0) => r matches Ok(Value::Tuple(items)) && items@ == seq![v0],
}
    }

    open spec fn vec_writes_bytes() -> bool {
        false
    }

    fn into_rex(self) -> (r: Result<Value, EngineError>) {
        let v0 = match self.0.into_rex() {
            Ok(v) => v,
            Err(e) => return Err(e),
        };
        let mut items: Vec<Value> = Vec::new();
        items.push(v0);
        proof {
            assert(items@ =~= seq![v0]);
        }
        Ok(Value::Tuple(items))
    }

    fn writes_bytes() -> (b: bool) {
        false
    }
}

impl<A0: FromRex, A1: FromRex> FromRex for (A0, A1) {
    open spec fn decodes(v: Value, r: Result<(A0, A1), EngineError>) -> bool {
        match v {
            Value::Tuple(items) => if items@.len() < 2 {
                r matches Err(EngineError::NativeType { expected, got }) && expected == "tuple" && got == "tuple with too few items"
            } else if items@.len() > 2 {
                r matches Err(EngineError::NativeType { expected, got }) && expected == "tuple" && got == "tuple with too many items"
            } else {
                exists|r0: Result<A0, EngineError>| #[trigger] A0::decodes(items@[0], r0) && match r0 {
    Err(e) => r == Err::<(A0, A1), EngineError>(e),
    Ok(x0) => exists|r1: Result<A1, EngineError>| #[trigger] A1::decodes(items@[1], r1) && match r1 {
    Err(e) => r == Err::<(A0, A1), EngineError>(e),
    Ok(x1) => r == Ok::<(A0, A1), EngineError>((x0, x1)),
},
}
            },
            other => r == Err::<(A0, A1), EngineError>(mismatch_error("tuple", other)),
        }
    }

    open spec fn vec_reads_bytes() -> bool {
        false
    }

    fn from_rex(value: Value) -> (r: Result<(A0, A1), EngineError>) {
        match value {
            Value::Tuple(items) => {
                if items.len() < 2 {
                    return Err(EngineError::NativeType { expected: "tuple", got: "tuple with too few items" });
                }
                if items.len() > 2 {
                    return Err(EngineError::NativeType { expected: "tuple", got: "tuple with too many items" });
                }
                let ghost iv = items@;
                let mut items = items;
                let item1 = match items.pop() {
                    Some(x) => x,
                    None => return Err(EngineError::NativeType { expected: "tuple", got: "tuple with too few items" }),
                };
                let item0 = match items.pop() {
                    Some(x) => x,
                    None => return Err(EngineError::NativeType { expected: "tuple", got: "tuple with too few items" }),
                };
                proof {
                    assert(item0 == iv[0] && item1 == iv[1]);
                }
                let x0 = match A0::from_rex(item0) {
                    Ok(x) => x,
                    Err(e) => return Err(e),
                };
                let x1 = match A1::from_rex(item1) {
                    Ok(x) => x,
                    Err(e) => return Err(e),
                };
                Ok((x0, x1))
            },
            other => Err(EngineError::NativeType { expected: "tuple", got: other.value_type_name() }),
        }
    }

    fn reads_bytes() -> (b: bool) {
        false
    }
}

impl<A0: IntoRex, A1: IntoRex> IntoRex for (A0, A1) {
    open spec fn encodes(x: (A0, A1), r: Result<Value, EngineError>) -> bool {
        exists|r0: Result<Value, EngineError>| #[trigger] A0::encodes(x.0, r0) && match r0 {
    Err(e) => r == Err::<Value, EngineError>(e),
    Ok(v0) => exists|r1: Result<Value, EngineError>| #[trigger] A1::encodes(x.1, r1) && match r1 {
    Err(e) => r == Err::<Value, EngineError>(e),
    Ok(v1) => r matches Ok(Value::Tuple(items)) && items@ == seq![v0, v1],
},
}
    }

    open spec fn vec_writes_bytes() -> bool {
        false
    }

    fn into_rex(self) -> (r: Result<Value, EngineError>) {
        let v0 = match self.0.into_rex() {
            Ok(v) => v,
            Err(e) => return Err(e),
        };
        let v1 = match self.1.into_rex() {
            Ok(v) => v,
            Err(e) => return Err(e),
        };
        let mut items: Vec<Value> = Vec::new();
        items.push(v0);
        items.push(v1);
        proof {
            assert(items@ =~= seq![v0, v1]);
        }
        Ok(Value::Tuple(items))
    }

    fn writes_bytes() -> (b: bool) {
        false
    }
}

impl<A0: FromRex, A1: FromRex, A2: FromRex> FromRex for (A0, A1, A2) {
    open spec fn decodes(v: Value, r: Result<(A0, A1, A2), EngineError>) -> bool {
        match v {
            Value::Tuple(items) => if items@.len() < 3 {
                r matches Err(EngineError::NativeType { expected, got }) && expected == "tuple" && got == "tuple with too few items"
            } else if items@.len() > 3 {
                r matches Err(EngineError::NativeType { expected, got }) && expected == "tuple" && got == "tuple with too many items"
            } else {
                exists|r0: Result<A0, EngineError>| #[trigger] A0::decodes(items@[0], r0) && match r0 {
    Err(e) => r == Err::<(A0, A1, A2), EngineError>(e),
    Ok(x0) => exists|r1: Result<A1, EngineError>| #[trigger] A1::decodes(items@[1], r1) && match r1 {
    Err(e) => r == Err::<(A0, A1, A2), EngineError>(e),
    Ok(x1) => exists|r2: Result<A2, EngineError>| #[trigger] A2::decodes(items@[2], r2) && match r2 {
    Err(e) => r == Err::<(A0, A1, A2), EngineError>(e),
    Ok(x2) => r == Ok::<(A0, A1, A2), EngineError>((x0, x1, x2)),
},
},
}
            },
            other => r == Err::<(A0, A1, A2), EngineError>(mismatch_error("tuple", other)),
        }
    }

    open spec fn vec_reads_bytes() -> bool {
        false
    }

    fn from_rex(value: Value) -> (r: Result<(A0, A1, A2), EngineError>) {
        match value {
            Value::Tuple(items) => {
                if items.len() < 3 {
                    return Err(EngineError::NativeType { expected: "tuple", got: "tuple with too few items" });
                }
                if items.len() > 3 {
                    return Err(EngineError::NativeType { expected: "tuple", got: "tuple with too many items" });
                }
                let ghost iv = items@;
                let mut items = items;
                let item2 = match items.pop() {
                    Some(x) => x,
                    None => return Err(EngineError::NativeType { expected: "tuple", got: "tuple with too few items" }),
                };
                let item1 = match items.pop() {
                    Some(x) => x,
                    None => return Err(EngineError::NativeType { expected: "tuple", got: "tuple with too few items" }),
                };
                let item0 = match items.pop() {
                    Some(x) => x,
                    None => return Err(EngineError::NativeType { expected: "tuple", got: "tuple with too few items" }),
                };
                proof {
                    assert(item0 == iv[0] && item1 == iv[1] && item2 == iv[2]);
                }
                let x0 = match A0::from_rex(item0) {
                    Ok(x) => x,
                    Err(e) => return Err(e),
                };
                let x1 = match A1::from_rex(item1) {
                    Ok(x) => x,
                    Err(e) => return Err(e),
                };
                let x2 = match A2::from_rex(item2) {
                    Ok(x) => x,
                    Err(e) => return Err(e),
                };
                Ok((x0, x1, x2))
            },
            other => Err(EngineError::NativeType { expected: "tuple", got: other.value_type_name() }),
        }
    }

    fn reads_bytes() -> (b: bool) {
        false
    }
}

impl<A0: IntoRex, A1: IntoRex, A2: IntoRex> IntoRex for (A0, A1, A2) {
    open spec fn encodes(x: (A0, A1, A2), r: Result<Value, EngineError>) -> bool {
        exists|r0: Result<Value, EngineError>| #[trigger] A0::encodes(x.0, r0) && match r0 {
    Err(e) => r == Err::<Value, EngineError>(e),
    Ok(v0) => exists|r1: Result<Value, EngineError>| #[trigger] A1::encodes(x.1, r1) && match r1 {
    Err(e) => r == Err::<Value, EngineError>(e),
    Ok(v1) => exists|r2: Result<Value, EngineError>| #[trigger] A2::encodes(x.2, r2) && match r2 {
    Err(e) => r == Err::<Value, EngineError>(e),
    Ok(v2) => r matches Ok(Value::Tuple(items)) && items@ == seq![v0, v1, v2],
},
},
}
    }

    open spec fn vec_writes_bytes() -> bool {
        false
    }

    fn into_rex(self) -> (r: Result<Value, EngineError>) {
        let v0 = match self.0.into_rex() {
            Ok(v) => v,
            Err(e) => return Err(e),
        };
        let v1 = match self.1.into_rex() {
            Ok(v) => v,
            Err(e) => return Err(e),
        };
        let v2 = match self.2.into_rex() {
            Ok(v) => v,
            Err(e) => return Err(e),
        };
        let mut items: Vec<Value> = Vec::new();
        items.push(v0);
        items.push(v1);
        items.push(v2);
        proof {
            assert(items@ =~= seq![v0, v1, v2]);
        }
        Ok(Value::Tuple(items))
    }

    fn writes_bytes() -> (b: bool) {
        false
    }
}

impl<A0: FromRex, A1: FromRex, A2: FromRex, A3: FromRex> FromRex for (A0, A1, A2, A3) {
    open spec fn decodes(v: Value, r: Result<(A0, A1, A2, A3), EngineError>) -> bool {
        match v {
            Value::Tuple(items) => if items@.len() < 4 {
                r matches Err(EngineError::NativeType { expected, got }) && expected == "tuple" && got == "tuple with too few items"
            } else if items@.len() > 4 {
                r matches Err(EngineError::NativeType { expected, got }) && expected == "tuple" && got == "tuple with too many items"
            } else {
                exists|r0: Result<A0, EngineError>| #[trigger] A0::decodes(items@[0], r0) && match r0 {
    Err(e) => r == Err::<(A0, A1, A2, A3), EngineError>(e),
    Ok(x0) => exists|r1: Result<A1, EngineError>| #[trigger] A1::decodes(items@[1], r1) && match r1 {
    Err(e) => r == Err::<(A0, A1, A2, A3), EngineError>(e),
    Ok(x1) => exists|r2: Result<A2, EngineError>| #[trigger] A2::decodes(items@[2], r2) && match r2 {
    Err(e) => r == Err::<(A0, A1, A2, A3), EngineError>(e),
    Ok(x2) => exists|r3: Result<A3, EngineError>| #[trigger] A3::decodes(items@[3], r3) && match r3 {
    Err(e) => r == Err::<(A0, A1, A2, A3), EngineError>(e),
    Ok(x3) => r == Ok::<(A0, A1, A2, A3), EngineError>((x0, x1, x2, x3)),
},
},
},
}
            },
            other => r == Err::<(A0, A1, A2, A3), EngineError>(mismatch_error("tuple", other)),
        }
    }

    open spec fn vec_reads_bytes() -> bool {
        false
    }

    fn from_rex(value: Value) -> (r: Result<(A0, A1, A2, A3), EngineError>) {
        match value {
            Value::Tuple(items) => {
                if items.len() < 4 {
                    return Err(EngineError::NativeType { expected: "tuple", got: "tuple with too few items" });
                }
                if items.len() > 4 {
                    return Err(EngineError::NativeType { expected: "tuple", got: "tuple with too many items" });
                }
                let ghost iv = items@;
                let mut items = items;
                let item3 = match items.pop() {
                    Some(x) => x,
                    None => return Err(EngineError::NativeType { expected: "tuple", got: "tuple with too few items" }),
                };
                let item2 = match items.pop() {
                    Some(x) => x,
                    None => return Err(EngineError::NativeType { expected: "tuple", got: "tuple with too few items" }),
                };
                let item1 = match items.pop() {
                    Some(x) => x,
                    None => return Err(EngineError::NativeType { expected: "tuple", got: "tuple with too few items" }),
                };
                let item0 = match items.pop() {
                    Some(x) => x,
                    None => return Err(EngineError::NativeType { expected: "tuple", got: "tuple with too few items" }),
                };
                proof {
                    assert(item0 == iv[0] && item1 == iv[1] && item2 == iv[2] && item3 == iv[3]);
                }
                let x0 = match A0::from_rex(item0) {
                    Ok(x) => x,
                    Err(e) => return Err(e),
                };
                let x1 = match A1::from_rex(item1) {
                    Ok(x) => x,
                    Err(e) => return Err(e),
                };
                let x2 = match A2::from_rex(item2) {
                    Ok(x) => x,
                    Err(e) => return Err(e),
                };
                let x3 = match A3::from_rex(item3) {
                    Ok(x) => x,
                    Err(e) => return Err(e),
                };
                Ok((x0, x1, x2, x3))
            },
            other => Err(EngineError::NativeType { expected: "tuple", got: other.value_type_name() }),
        }
    }

    fn reads_bytes() -> (b: bool) {
        false
    }
}

impl<A0: IntoRex, A1: IntoRex, A2: IntoRex, A3: IntoRex> IntoRex for (A0, A1, A2, A3) {
    open spec fn encodes(x: (A0, A1, A2, A3), r: Result<Value, EngineError>) -> bool {
        exists|r0: Result<Value, EngineError>| #[trigger] A0::encodes(x.0, r0) && match r0 {
    Err(e) => r == Err::<Value, EngineError>(e),
    Ok(v0) => exists|r1: Result<Value, EngineError>| #[trigger] A1::encodes(x.1, r1) && match r1 {
    Err(e) => r == Err::<Value, EngineError>(e),
    Ok(v1) => exists|r2: Result<Value, EngineError>| #[trigger] A2::encodes(x.2, r2) && match r2 {
    Err(e) => r == Err::<Value, EngineError>(e),
    Ok(v2) => exists|r3: Result<Value, EngineError>| #[trigger] A3::encodes(x.3, r3) && match r3 {
    Err(e) => r == Err::<Value, EngineError>(e),
    Ok(v3) => r matches Ok(Value::Tuple(items)) && items@ == seq![v0, v1, v2, v3],
},
},
},
}
    }

    open spec fn vec_writes_bytes() -> bool {
        false
    }

    fn into_rex(self) -> (r: Result<Value, EngineError>) {
        let v0 = match self.0.into_rex() {
            Ok(v) => v,
            Err(e) => return Err(e),
        };
        let v1 = match self.1.into_rex() {
            Ok(v) => v,
            Err(e) => return Err(e),
        };
        let v2 = match self.2.into_rex() {
            Ok(v) => v,
            Err(e) => return Err(e),
        };
        let v3 = match self.3.into_rex() {
            Ok(v) => v,
            Err(e) => return Err(e),
        };
        let mut items: Vec<Value> = Vec::new();
        items.push(v0);
        items.push(v1);
        items.push(v2);
        items.push(v3);
        proof {
            assert(items@ =~= seq![v0, v1, v2, v3]);
        }
        Ok(Value::Tuple(items))
    }

    fn writes_bytes() -> (b: bool) {
        false
    }
}

impl<A0: FromRex, A1: FromRex, A2: FromRex, A3: FromRex, A4: FromRex> FromRex for (A0, A1, A2, A3, A4) {
    open spec fn decodes(v: Value, r: Result<(A0, A1, A2, A3, A4), EngineError>) -> bool {
        match v {
            Value::Tuple(items) => if items@.len() < 5 {
                r matches Err(EngineError::NativeType { expected, got }) && expected == "tuple" && got == "tuple with too few items"
            } else if items@.len() > 5 {
                r matches Err(EngineError::NativeType { expected, got }) && expected == "tuple" && got == "tuple with too many items"
            } else {
                exists|r0: Result<A0, EngineError>| #[trigger] A0::decodes(items@[0], r0) && match r0 {
    Err(e) => r == Err::<(A0, A1, A2, A3, A4), EngineError>(e),
    Ok(x0) => exists|r1: Result<A1, EngineError>| #[trigger] A1::decodes(items@[1], r1) && match r1 {
    Err(e) => r == Err::<(A0, A1, A2, A3, A4), EngineError>(e),
    Ok(x1) => exists|r2: Result<A2, EngineError>| #[trigger] A2::decodes(items@[2], r2) && match r2 {
    Err(e) => r == Err::<(A0, A1, A2, A3, A4), EngineError>(e),
    Ok(x2) => exists|r3: Result<A3, EngineError>| #[trigger] A3::decodes(items@[3], r3) && match r3 {
    Err(e) => r == Err::<(A0, A1, A2, A3, A4), EngineError>(e),
    Ok(x3) => exists|r4: Result<A4, EngineError>| #[trigger] A4::decodes(items@[4], r4) && match r4 {
    Err(e) => r == Err::<(A0, A1, A2, A3, A4), EngineError>(e),
    Ok(x4) => r == Ok::<(A0, A1, A2, A3, A4), EngineError>((x0, x1, x2, x3, x4)),
},
},
},
},
}
            },
            other => r == Err::<(A0, A1, A2, A3, A4), EngineError>(mismatch_error("tuple", other)),
        }
    }

    open spec fn vec_reads_bytes() -> bool {
        false
    }

    fn from_rex(value: Value) -> (r: Result<(A0, A1, A2, A3, A4), EngineError>) {
        match value {
            Value::Tuple(items) => {
                if items.len() < 5 {
                    return Err(EngineError::NativeType { expected: "tuple", got: "tuple with too few items" });
                }
                if items.len() > 5 {
                    return Err(EngineError::NativeType { expected: "tuple", got: "tuple with too many items" });
                }
                let ghost iv = items@;
                let mut items = items;
                let item4 = match items.pop() {
                    Some(x) => x,
                    None => return Err(EngineError::NativeType { expected: "tuple", got: "tuple with too few items" }),
                };
                let item3 = match items.pop() {
                    Some(x) => x,
                    None => return Err(EngineError::NativeType { expected: "tuple", got: "tuple with too few items" }),
                };
                let item2 = match items.pop() {
                    Some(x) => x,
                    None => return Err(EngineError::NativeType { expected: "tuple", got: "tuple with too few items" }),
                };
                let item1 = match items.pop() {
                    Some(x) => x,
                    None => return Err(EngineError::NativeType { expected: "tuple", got: "tuple with too few items" }),
                };
                let item0 = match items.pop() {
                    Some(x) => x,
                    None => return Err(EngineError::NativeType { expected: "tuple", got: "tuple with too few items" }),
                };
                proof {
                    assert(item0 == iv[0] && item1 == iv[1] && item2 == iv[2] && item3 == iv[3] && item4 == iv[4]);
                }
                let x0 = match A0::from_rex(item0) {
                    Ok(x) => x,
                    Err(e) => return Err(e),
                };
                let x1 = match A1::from_rex(item1) {
                    Ok(x) => x,
                    Err(e) => return Err(e),
                };
                let x2 = match A2::from_rex(item2) {
                    Ok(x) => x,
                    Err(e) => return Err(e),
                };
                let x3 = match A3::from_rex(item3) {
                    Ok(x) => x,
                    Err(e) => return Err(e),
                };
                let x4 = match A4::from_rex(item4) {
                    Ok(x) => x,
                    Err(e) => return Err(e),
                };
                Ok((x0, x1, x2, x3, x4))
            },
            other => Err(EngineError::NativeType { expected: "tuple", got: other.value_type_name() }),
        }
    }

    fn reads_bytes() -> (b: bool) {
        false
    }
}

impl<A0: IntoRex, A1: IntoRex, A2: IntoRex, A3: IntoRex, A4: IntoRex> IntoRex for (A0, A1, A2, A3, A4) {
    open spec fn encodes(x: (A0, A1, A2, A3, A4), r: Result<Value, EngineError>) -> bool {
        exists|r0: Result<Value, EngineError>| #[trigger] A0::encodes(x.0, r0) && match r0 {
    Err(e) => r == Err::<Value, EngineError>(e),
    Ok(v0) => exists|r1: Result<Value, EngineError>| #[trigger] A1::encodes(x.1, r1) && match r1 {
    Err(e) => r == Err::<Value, EngineError>(e),
    Ok(v1) => exists|r2: Result<Value, EngineError>| #[trigger] A2::encodes(x.2, r2) && match r2 {
    Err(e) => r == Err::<Value, EngineError>(e),
    Ok(v2) => exists|r3: Result<Value, EngineError>| #[trigger] A3::encodes(x.3, r3) && match r3 {
    Err(e) => r == Err::<Value, EngineError>(e),
    Ok(v3) => exists|r4: Result<Value, EngineError>| #[trigger] A4::encodes(x.4, r4) && match r4 {
    Err(e) => r == Err::<Value, EngineError>(e),
    Ok(v4) => r matches Ok(Value::Tuple(items)) && items@ == seq![v0, v1, v2, v3, v4],
},
},
},
},
}
    }

    open spec fn vec_writes_bytes() -> bool {
        false
    }

    fn into_rex(self) -> (r: Result<Value, EngineError>) {
        let v0 = match self.0.into_rex() {
            Ok(v) => v,
            Err(e) => return Err(e),
        };
        let v1 = match self.1.into_rex() {
            Ok(v) => v,
            Err(e) => return Err(e),
        };
        let v2 = match self.2.into_rex() {
            Ok(v) => v,
            Err(e) => return Err(e),
        };
        let v3 = match self.3.into_rex() {
            Ok(v) => v,
            Err(e) => return Err(e),
        };
        let v4 = match self.4.into_rex() {
            Ok(v) => v,
            Err(e) => return Err(e),
        };
        let mut items: Vec<Value> = Vec::new();
        items.push(v0);
        items.push(v1);
        items.push(v2);
        items.push(v3);
        items.push(v4);
        proof {
            assert(items@ =~= seq![v0, v1, v2, v3, v4]);
        }
        Ok(Value::Tuple(items))
    }

    fn writes_bytes() -> (b: bool) {
        false
    }
}

impl<A0: FromRex, A1: FromRex, A2: FromRex, A3: FromRex, A4: FromRex, A5: FromRex> FromRex for (A0, A1, A2, A3, A4, A5) {
    open spec fn decodes(v: Value, r: Result<(A0, A1, A2, A3, A4, A5), EngineError>) -> bool {
        match v {
            Value::Tuple(items) => if items@.len() < 6 {
                r matches Err(EngineError::NativeType { expected, got }) && expected == "tuple" && got == "tuple with too few items"
            } else if items@.len() > 6 {
                r matches Err(EngineError::NativeType { expected, got }) && expected == "tuple" && got == "tuple with too many items"
            } else {
                exists|r0: Result<A0, EngineError>| #[trigger] A0::decodes(items@[0], r0) && match r0 {
    Err(e) => r == Err::<(A0, A1, A2, A3, A4, A5), EngineError>(e),
    Ok(x0) => exists|r1: Result<A1, EngineError>| #[trigger] A1::decodes(items@[1], r1) && match r1 {
    Err(e) => r == Err::<(A0, A1, A2, A3, A4, A5), EngineError>(e),
    Ok(x1) => exists|r2: Result<A2, EngineError>| #[trigger] A2::decodes(items@[2], r2) && match r2 {
    Err(e) => r == Err::<(A0, A1, A2, A3, A4, A5), EngineError>(e),
    Ok(x2) => exists|r3: Result<A3, EngineError>| #[trigger] A3::decodes(items@[3], r3) && match r3 {
    Err(e) => r == Err::<(A0, A1, A2, A3, A4, A5), EngineError>(e),
    Ok(x3) => exists|r4: Result<A4, EngineError>| #[trigger] A4::decodes(items@[4], r4) && match r4 {
    Err(e) => r == Err::<(A0, A1, A2, A3, A4, A5), EngineError>(e),
    Ok(x4) => exists|r5: Result<A5, EngineError>| #[trigger] A5::decodes(items@[5], r5) && match r5 {
    Err(e) => r == Err::<(A0, A1, A2, A3, A4, A5), EngineError>(e),
    Ok(x5) => r == Ok::<(A0, A1, A2, A3, A4, A5), EngineError>((x0, x1, x2, x3, x4, x5)),
},
},
},
},
},
}
            },
            other => r == Err::<(A0, A1, A2, A3, A4, A5), EngineError>(mismatch_error("tuple", other)),
        }
    }

    open spec fn vec_reads_bytes() -> bool {
        false
    }

    fn from_rex(value: Value) -> (r: Result<(A0, A1, A2, A3, A4, A5), EngineError>) {
        match value {
            Value::Tuple(items) => {
                if items.len() < 6 {
                    return Err(EngineError::NativeType { expected: "tuple", got: "tuple with too few items" });
                }
                if items.len() > 6 {
                    return Err(EngineError::NativeType { expected: "tuple", got: "tuple with too many items" });
                }
                let ghost iv = items@;
                let mut items = items;
                let item5 = match items.pop() {
                    Some(x) => x,
                    None => return Err(EngineError::NativeType { expected: "tuple", got: "tuple with too few items" }),
                };
                let item4 = match items.pop() {
                    Some(x) => x,
                    None => return Err(EngineError::NativeType { expected: "tuple", got: "tuple with too few items" }),
                };
                let item3 = match items.pop() {
                    Some(x) => x,
                    None => return Err(EngineError::NativeType { expected: "tuple", got: "tuple with too few items" }),
                };
                let item2 = match items.pop() {
                    Some(x) => x,
                    None => return Err(EngineError::NativeType { expected: "tuple", got: "tuple with too few items" }),
                };
                let item1 = match items.pop() {
                    Some(x) => x,
                    None => return Err(EngineError::NativeType { expected: "tuple", got: "tuple with too few items" }),
                };
                let item0 = match items.pop() {
                    Some(x) => x,
                    None => return Err(EngineError::NativeType { expected: "tuple", got: "tuple with too few items" }),
                };
                proof {
                    assert(item0 == iv[0] && item1 == iv[1] && item2 == iv[2] && item3 == iv[3] && item4 == iv[4] && item5 == iv[5]);
                }
                let x0 = match A0::from_rex(item0) {
                    Ok(x) => x,
                    Err(e) => return Err(e),
                };
                let x1 = match A1::from_rex(item1) {
                    Ok(x) => x,
                    Err(e) => return Err(e),
                };
                let x2 = match A2::from_rex(item2) {
                    Ok(x) => x,
                    Err(e) => return Err(e),
                };
                let x3 = match A3::from_rex(item3) {
                    Ok(x) => x,
                    Err(e) => return Err(e),
                };
                let x4 = match A4::from_rex(item4) {
                    Ok(x) => x,
                    Err(e) => return Err(e),
                };
                let x5 = match A5::from_rex(item5) {
                    Ok(x) => x,
                    Err(e) => return Err(e),
                };
                Ok((x0, x1, x2, x3, x4, x5))
            },
            other => Err(EngineError::NativeType { expected: "tuple", got: other.value_type_name() }),
        }
    }

    fn reads_bytes() -> (b: bool) {
        false
    }
}

impl<A0: IntoRex, A1: IntoRex, A2: IntoRex, A3: IntoRex, A4: IntoRex, A5: IntoRex> IntoRex for (A0, A1, A2, A3, A4, A5) {
    open spec fn encodes(x: (A0, A1, A2, A3, A4, A5), r: Result<Value, EngineError>) -> bool {
        exists|r0: Result<Value, EngineError>| #[trigger] A0::encodes(x.0, r0) && match r0 {
    Err(e) => r == Err::<Value, EngineError>(e),
    Ok(v0) => exists|r1: Result<Value, EngineError>| #[trigger] A1::encodes(x.1, r1) && match r1 {
    Err(e) => r == Err::<Value, EngineError>(e),
    Ok(v1) => exists|r2: Result<Value, EngineError>| #[trigger] A2::encodes(x.2, r2) && match r2 {
    Err(e) => r == Err::<Value, EngineError>(e),
    Ok(v2) => exists|r3: Result<Value, EngineError>| #[trigger] A3::encodes(x.3, r3) && match r3 {
    Err(e) => r == Err::<Value, EngineError>(e),
    Ok(v3) => exists|r4: Result<Value, EngineError>| #[trigger] A4::encodes(x.4, r4) && match r4 {
    Err(e) => r == Err::<Value, EngineError>(e),
    Ok(v4) => exists|r5: Result<Value, EngineError>| #[trigger] A5::encodes(x.5, r5) && match r5 {
    Err(e) => r == Err::<Value, EngineError>(e),
    Ok(v5) => r matches Ok(Value::Tuple(items)) && items@ == seq![v0, v1, v2, v3, v4, v5],
},
},
},
},
},
}
    }

    open spec fn vec_writes_bytes() -> bool {
        false
    }

    fn into_rex(self) -> (r: Result<Value, EngineError>) {
        let v0 = match self.0.into_rex() {
            Ok(v) => v,
            Err(e) => return Err(e),
        };
        let v1 = match self.1.into_rex() {
            Ok(v) => v,
            Err(e) => return Err(e),
        };
        let v2 = match self.2.into_rex() {
            Ok(v) => v,
            Err(e) => return Err(e),
        };
        let v3 = match self.3.into_rex() {
            Ok(v) => v,
            Err(e) => return Err(e),
        };
        let v4 = match self.4.into_rex() {
            Ok(v) => v,
            Err(e) => return Err(e),
        };
        let v5 = match self.5.into_rex() {
            Ok(v) => v,
            Err(e) => return Err(e),
        };
        let mut items: Vec<Value> = Vec::new();
        items.push(v0);
        items.push(v1);
        items.push(v2);
        items.push(v3);
        items.push(v4);
        items.push(v5);
        proof {
            assert(items@ =~= seq![v0, v1, v2, v3, v4, v5]);
        }
        Ok(Value::Tuple(items))
    }

    fn writes_bytes() -> (b: bool) {
        false
    }
}

impl<A0: FromRex, A1: FromRex, A2: FromRex, A3: FromRex, A4: FromRex, A5: FromRex, A6: FromRex> FromRex for (A0, A1, A2, A3, A4, A5, A6) {
    open spec fn decodes(v: Value, r: Result<(A0, A1, A2, A3, A4, A5, A6), EngineError>) -> bool {
        match v {
            Value::Tuple(items) => if items@.len() < 7 {
                r matches Err(EngineError::NativeType { expected, got }) && expected == "tuple" && got == "tuple with too few items"
            } else if items@.len() > 7 {
                r matches Err(EngineError::NativeType { expected, got }) && expected == "tuple" && got == "tuple with too many items"
            } else {
                exists|r0: Result<A0, EngineError>| #[trigger] A0::decodes(items@[0], r0) && match r0 {
    Err(e) => r == Err::<(A0, A1, A2, A3, A4, A5, A6), EngineError>(e),
    Ok(x0) => exists|r1: Result<A1, EngineError>| #[trigger] A1::decodes(items@[1], r1) && match r1 {
    Err(e) => r == Err::<(A0, A1, A2, A3, A4, A5, A6), EngineError>(e),
    Ok(x1) => exists|r2: Result<A2, EngineError>| #[trigger] A2::decodes(items@[2], r2) && match r2 {
    Err(e) => r == Err::<(A0, A1, A2, A3, A4, A5, A6), EngineError>(e),
    Ok(x2) => exists|r3: Result<A3, EngineError>| #[trigger] A3::decodes(items@[3], r3) && match r3 {
    Err(e) => r == Err::<(A0, A1, A2, A3, A4, A5, A6), EngineError>(e),
    Ok(x3) => exists|r4: Result<A4, EngineError>| #[trigger] A4::decodes(items@[4], r4) && match r4 {
    Err(e) => r == Err::<(A0, A1, A2, A3, A4, A5, A6), EngineError>(e),
    Ok(x4) => exists|r5: Result<A5, EngineError>| #[trigger] A5::decodes(items@[5], r5) && match r5 {
    Err(e) => r == Err::<(A0, A1, A2, A3, A4, A5, A6), EngineError>(e),
    Ok(x5) => exists|r6: Result<A6, EngineError>| #[trigger] A6::decodes(items@[6], r6) && match r6 {
    Err(e) => r == Err::<(A0, A1, A2, A3, A4, A5, A6), EngineError>(e),
    Ok(x6) => r == Ok::<(A0, A1, A2, A3, A4, A5, A6), EngineError>((x0, x1, x2, x3, x4, x5, x6)),
},
},
},
},
},
},
}
            },
            other => r == Err::<(A0, A1, A2, A3, A4, A5, A6), EngineError>(mismatch_error("tuple", other)),
        }
    }

    open spec fn vec_reads_bytes() -> bool {
        false
    }

    fn from_rex(value: Value) -> (r: Result<(A0, A1, A2, A3, A4, A5, A6), EngineError>) {
        match value {
            Value::Tuple(items) => {
                if items.len() < 7 {
                    return Err(EngineError::NativeType { expected: "tuple", got: "tuple with too few items" });
                }
                if items.len() > 7 {
                    return Err(EngineError::NativeType { expected: "tuple", got: "tuple with too many items" });
                }
                let ghost iv = items@;
                let mut items = items;
                let item6 = match items.pop() {
                    Some(x) => x,
                    None => return Err(EngineError::NativeType { expected: "tuple", got: "tuple with too few items" }),
                };
                let item5 = match items.pop() {
                    Some(x) => x,
                    None => return Err(EngineError::NativeType { expected: "tuple", got: "tuple with too few items" }),
                };
                let item4 = match items.pop() {
                    Some(x) => x,
                    None => return Err(EngineError::NativeType { expected: "tuple", got: "tuple with too few items" }),
                };
                let item3 = match items.pop() {
                    Some(x) => x,
                    None => return Err(EngineError::NativeType { expected: "tuple", got: "tuple with too few items" }),
                };
                let item2 = match items.pop() {
                    Some(x) => x,
                    None => return Err(EngineError::NativeType { expected: "tuple", got: "tuple with too few items" }),
                };
                let item1 = match items.pop() {
                    Some(x) => x,
                    None => return Err(EngineError::NativeType { expected: "tuple", got: "tuple with too few items" }),
                };
                let item0 = match items.pop() {
                    Some(x) => x,
                    None => return Err(EngineError::NativeType { expected: "tuple", got: "tuple with too few items" }),
                };
                proof {
                    assert(item0 == iv[0] && item1 == iv[1] && item2 == iv[2] && item3 == iv[3] && item4 == iv[4] && item5 == iv[5] && item6 == iv[6]);
                }
                let x0 = match A0::from_rex(item0) {
                    Ok(x) => x,
                    Err(e) => return Err(e),
                };
                let x1 = match A1::from_rex(item1) {
                    Ok(x) => x,
                    Err(e) => return Err(e),
                };
                let x2 = match A2::from_rex(item2) {
                    Ok(x) => x,
                    Err(e) => return Err(e),
                };
                let x3 = match A3::from_rex(item3) {
                    Ok(x) => x,
                    Err(e) => return Err(e),
                };
                let x4 = match A4::from_rex(item4) {
                    Ok(x) => x,
                    Err(e) => return Err(e),
                };
                let x5 = match A5::from_rex(item5) {
                    Ok(x) => x,
                    Err(e) => return Err(e),
                };
                let x6 = match A6::from_rex(item6) {
                    Ok(x) => x,
                    Err(e) => return Err(e),
                };
                Ok((x0, x1, x2, x3, x4, x5, x6))
            },
            other => Err(EngineError::NativeType { expected: "tuple", got: other.value_type_name() }),
        }
    }

    fn reads_bytes() -> (b: bool) {
        false
    }
}

impl<A0: IntoRex, A1: IntoRex, A2: IntoRex, A3: IntoRex, A4: IntoRex, A5: IntoRex, A6: IntoRex> IntoRex for (A0, A1, A2, A3, A4, A5, A6) {
    open spec fn encodes(x: (A0, A1, A2, A3, A4, A5, A6), r: Result<Value, EngineError>) -> bool {
        exists|r0: Result<Value, EngineError>| #[trigger] A0::encodes(x.0, r0) && match r0 {
    Err(e) => r == Err::<Value, EngineError>(e),
    Ok(v0) => exists|r1: Result<Value, EngineError>| #[trigger] A1::encodes(x.1, r1) && match r1 {
    Err(e) => r == Err::<Value, EngineError>(e),
    Ok(v1) => exists|r2: Result<Value, EngineError>| #[trigger] A2::encodes(x.2, r2) && match r2 {
    Err(e) => r == Err::<Value, EngineError>(e),
    Ok(v2) => exists|r3: Result<Value, EngineError>| #[trigger] A3::encodes(x.3, r3) && match r3 {
    Err(e) => r == Err::<Value, EngineError>(e),
    Ok(v3) => exists|r4: Result<Value, EngineError>| #[trigger] A4::encodes(x.4, r4) && match r4 {
    Err(e) => r == Err::<Value, EngineError>(e),
    Ok(v4) => exists|r5: Result<Value, EngineError>| #[trigger] A5::encodes(x.5, r5) && match r5 {
    Err(e) => r == Err::<Value, EngineError>(e),
    Ok(v5) => exists|r6: Result<Value, EngineError>| #[trigger] A6::encodes(x.6, r6) && match r6 {
    Err(e) => r == Err::<Value, EngineError>(e),
    Ok(v6) => r matches Ok(Value::Tuple(items)) && items@ == seq![v0, v1, v2, v3, v4, v5, v6],
},
},
},
},
},
},
}
    }

    open spec fn vec_writes_bytes() -> bool {
        false
    }

    fn into_rex(self) -> (r: Result<Value, EngineError>) {
        let v0 = match self.0.into_rex() {
            Ok(v) => v,
            Err(e) => return Err(e),
        };
        let v1 = match self.1.into_rex() {
            Ok(v) => v,
            Err(e) => return Err(e),
        };
        let v2 = match self.2.into_rex() {
            Ok(v) => v,
            Err(e) => return Err(e),
        };
        let v3 = match self.3.into_rex() {
            Ok(v) => v,
            Err(e) => return Err(e),
        };
        let v4 = match self.4.into_rex() {
            Ok(v) => v,
            Err(e) => return Err(e),
        };
        let v5 = match self.5.into_rex() {
            Ok(v) => v,
            Err(e) => return Err(e),
        };
        let v6 = match self.6.into_rex() {
            Ok(v) => v,
            Err(e) => return Err(e),
        };
        let mut items: Vec<Value> = Vec::new();
        items.push(v0);
        items.push(v1);
        items.push(v2);
        items.push(v3);
        items.push(v4);
        items.push(v5);
        items.push(v6);
        proof {
            assert(items@ =~= seq![v0, v1, v2, v3, v4, v5, v6]);
        }
        Ok(Value::Tuple(items))
    }

    fn writes_bytes() -> (b: bool) {
        false
    }
}

impl<A0: FromRex, A1: FromRex, A2: FromRex, A3: FromRex, A4: FromRex, A5: FromRex, A6: FromRex, A7: FromRex> FromRex for (A0, A1, A2, A3, A4, A5, A6, A7) {
    open spec fn decodes(v: Value, r: Result<(A0, A1, A2, A3, A4, A5, A6, A7), EngineError>) -> bool {
        match v {
            Value::Tuple(items) => if items@.len() < 8 {
                r matches Err(EngineError::NativeType { expected, got }) && expected == "tuple" && got == "tuple with too few items"
            } else if items@.len() > 8 {
                r matches Err(EngineError::NativeType { expected, got }) && expected == "tuple" && got == "tuple with too many items"
            } else {
                exists|r0: Result<A0, EngineError>| #[trigger] A0::decodes(items@[0], r0) && match r0 {
    Err(e) => r == Err::<(A0, A1, A2, A3, A4, A5, A6, A7), EngineError>(e),
    Ok(x0) => exists|r1: Result<A1, EngineError>| #[trigger] A1::decodes(items@[1], r1) && match r1 {
    Err(e) => r == Err::<(A0, A1, A2, A3, A4, A5, A6, A7), EngineError>(e),
    Ok(x1) => exists|r2: Result<A2, EngineError>| #[trigger] A2::decodes(items@[2], r2) && match r2 {
    Err(e) => r == Err::<(A0, A1, A2, A3, A4, A5, A6, A7), EngineError>(e),
    Ok(x2) => exists|r3: Result<A3, EngineError>| #[trigger] A3::decodes(items@[3], r3) && match r3 {
    Err(e) => r == Err::<(A0, A1, A2, A3, A4, A5, A6, A7), EngineError>(e),
    Ok(x3) => exists|r4: Result<A4, EngineError>| #[trigger] A4::decodes(items@[4], r4) && match r4 {
    Err(e) => r == Err::<(A0, A1, A2, A3, A4, A5, A6, A7), EngineError>(e),
    Ok(x4) => exists|r5: Result<A5, EngineError>| #[trigger] A5::decodes(items@[5], r5) && match r5 {
    Err(e) => r == Err::<(A0, A1, A2, A3, A4, A5, A6, A7), EngineError>(e),
    Ok(x5) => exists|r6: Result<A6, EngineError>| #[trigger] A6::decodes(items@[6], r6) && match r6 {
    Err(e) => r == Err::<(A0, A1, A2, A3, A4, A5, A6, A7), EngineError>(e),
    Ok(x6) => exists|r7: Result<A7, EngineError>| #[trigger] A7::decodes(items@[7], r7) && match r7 {
    Err(e) => r == Err::<(A0, A1, A2, A3, A4, A5, A6, A7), EngineError>(e),
    Ok(x7) => r == Ok::<(A0, A1, A2, A3, A4, A5, A6, A7), EngineError>((x0, x1, x2, x3, x4, x5, x6, x7)),
},
},
},
},
},
},
},
}
            },
            other => r == Err::<(A0, A1, A2, A3, A4, A5, A6, A7), EngineError>(mismatch_error("tuple", other)),
        }
    }

    open spec fn vec_reads_bytes() -> bool {
        false
    }

    fn from_rex(value: Value) -> (r: Result<(A0, A1, A2, A3, A4, A5, A6, A7), EngineError>) {
        match value {
            Value::Tuple(items) => {
                if items.len() < 8 {
                    return Err(EngineError::NativeType { expected: "tuple", got: "tuple with too few items" });
                }
                if items.len() > 8 {
                    return Err(EngineError::NativeType { expected: "tuple", got: "tuple with too many items" });
                }
                let ghost iv = items@;
                let mut items = items;
                let item7 = match items.pop() {
                    Some(x) => x,
                    None => return Err(EngineError::NativeType { expected: "tuple", got: "tuple with too few items" }),
                };
                let item6 = match items.pop() {
                    Some(x) => x,
                    None => return Err(EngineError::NativeType { expected: "tuple", got: "tuple with too few items" }),
                };
                let item5 = match items.pop() {
                    Some(x) => x,
                    None => return Err(EngineError::NativeType { expected: "tuple", got: "tuple with too few items" }),
                };
                let item4 = match items.pop() {
                    Some(x) => x,
                    None => return Err(EngineError::NativeType { expected: "tuple", got: "tuple with too few items" }),
                };
                let item3 = match items.pop() {
                    Some(x) => x,
                    None => return Err(EngineError::NativeType { expected: "tuple", got: "tuple with too few items" }),
                };
                let item2 = match items.pop() {
                    Some(x) => x,
                    None => return Err(EngineError::NativeType { expected: "tuple", got: "tuple with too few items" }),
                };
                let item1 = match items.pop() {
                    Some(x) => x,
                    None => return Err(EngineError::NativeType { expected: "tuple", got: "tuple with too few items" }),
                };
                let item0 = match items.pop() {
                    Some(x) => x,
                    None => return Err(EngineError::NativeType { expected: "tuple", got: "tuple with too few items" }),
                };
                proof {
                    assert(item0 == iv[0] && item1 == iv[1] && item2 == iv[2] && item3 == iv[3] && item4 == iv[4] && item5 == iv[5] && item6 == iv[6] && item7 == iv[7]);
                }
                let x0 = match A0::from_rex(item0) {
                    Ok(x) => x,
                    Err(e) => return Err(e),
                };
                let x1 = match A1::from_rex(item1) {
                    Ok(x) => x,
                    Err(e) => return Err(e),
                };
                let x2 = match A2::from_rex(item2) {
                    Ok(x) => x,
                    Err(e) => return Err(e),
                };
                let x3 = match A3::from_rex(item3) {
                    Ok(x) => x,
                    Err(e) => return Err(e),
                };
                let x4 = match A4::from_rex(item4) {
                    Ok(x) => x,
                    Err(e) => return Err(e),
                };
                let x5 = match A5::from_rex(item5) {
                    Ok(x) => x,
                    Err(e) => return Err(e),
                };
                let x6 = match A6::from_rex(item6) {
                    Ok(x) => x,
                    Err(e) => return Err(e),
                };
                let x7 = match A7::from_rex(item7) {
                    Ok(x) => x,
                    Err(e) => return Err(e),
                };
                Ok((x0, x1, x2, x3, x4, x5, x6, x7))
            },
            other => Err(EngineError::NativeType { expected: "tuple", got: other.value_type_name() }),
        }
    }

    fn reads_bytes() -> (b: bool) {
        false
    }
}

impl<A0: IntoRex, A1: IntoRex, A2: IntoRex, A3: IntoRex, A4: IntoRex, A5: IntoRex, A6: IntoRex, A7: IntoRex> IntoRex for (A0, A1, A2, A3, A4, A5, A6, A7) {
    open spec fn encodes(x: (A0, A1, A2, A3, A4, A5, A6, A7), r: Result<Value, EngineError>) -> bool {
        exists|r0: Result<Value, EngineError>| #[trigger] A0::encodes(x.0, r0) && match r0 {
    Err(e) => r == Err::<Value, EngineError>(e),
    Ok(v0) => exists|r1: Result<Value, EngineError>| #[trigger] A1::encodes(x.1, r1) && match r1 {
    Err(e) => r == Err::<Value, EngineError>(e),
    Ok(v1) => exists|r2: Result<Value, EngineError>| #[trigger] A2::encodes(x.2, r2) && match r2 {
    Err(e) => r == Err::<Value, EngineError>(e),
    Ok(v2) => exists|r3: Result<Value, EngineError>| #[trigger] A3::encodes(x.3, r3) && match r3 {
    Err(e) => r == Err::<Value, EngineError>(e),
    Ok(v3) => exists|r4: Result<Value, EngineError>| #[trigger] A4::encodes(x.4, r4) && match r4 {
    Err(e) => r == Err::<Value, EngineError>(e),
    Ok(v4) => exists|r5: Result<Value, EngineError>| #[trigger] A5::encodes(x.5, r5) && match r5 {
    Err(e) => r == Err::<Value, EngineError>(e),
    Ok(v5) => exists|r6: Result<Value, EngineError>| #[trigger] A6::encodes(x.6, r6) && match r6 {
    Err(e) => r == Err::<Value, EngineError>(e),
    Ok(v6) => exists|r7: Result<Value, EngineError>| #[trigger] A7::encodes(x.7, r7) && match r7 {
    Err(e) => r == Err::<Value, EngineError>(e),
    Ok(v7) => r matches Ok(Value::Tuple(items)) && items@ == seq![v0, v1, v2, v3, v4, v5, v6, v7],
},
},
},
},
},
},
},
}
    }

    open spec fn vec_writes_bytes() -> bool {
        false
    }

    fn into_rex(self) -> (r: Result<Value, EngineError>) {
        let v0 = match self.0.into_rex() {
            Ok(v) => v,
            Err(e) => return Err(e),
        };
        let v1 = match self.1.into_rex() {
            Ok(v) => v,
            Err(e) => return Err(e),
        };
        let v2 = match self.2.into_rex() {
            Ok(v) => v,
            Err(e) => return Err(e),
        };
        let v3 = match self.3.into_rex() {
            Ok(v) => v,
            Err(e) => return Err(e),
        };
        let v4 = match self.4.into_rex() {
            Ok(v) => v,
            Err(e) => return Err(e),
        };
        let v5 = match self.5.into_rex() {
            Ok(v) => v,
            Err(e) => return Err(e),
        };
        let v6 = match self.6.into_rex() {
            Ok(v) => v,
            Err(e) => return Err(e),
        };
        let v7 = match self.7.into_rex() {
            Ok(v) => v,
            Err(e) => return Err(e),
        };
        let mut items: Vec<Value> = Vec::new();
        items.push(v0);
        items.push(v1);
        items.push(v2);
        items.push(v3);
        items.push(v4);
        items.push(v5);
        items.push(v6);
        items.push(v7);
        proof {
            assert(items@ =~= seq![v0, v1, v2, v3, v4, v5, v6, v7]);
        }
        Ok(Value::Tuple(items))
    }

    fn writes_bytes() -> (b: bool) {
        false
    }
}

impl Value {
    /// Decodes this value as the Rust type `T`.
    pub fn to_rust<T: FromRex>(self) -> (r: Result<T, EngineError>)
        ensures
            T::decodes(self, r),
    {
        T::from_rex(self)
    }
}


/// Encoding `x` always succeeds, and decoding what it gives yields `x`
/// again.
pub open spec fn round_trips<T: FromRex + IntoRex>(x: T) -> bool {
    forall|r: Result<Value, EngineError>| #[trigger] T::encodes(x, r) ==> (r matches Ok(v) && T::decodes(v, Ok(x)))
}

/// Booleans, integers and strings come back from a round trip unchanged.
pub proof fn law_scalars_round_trip(b: bool, u: u64, i: i64, s: String)
    ensures
        round_trips(b),
        round_trips(u),
        round_trips(i),
        round_trips(s),
{
}

/// Optional values come back from a round trip when their payload does.
pub proof fn law_option_round_trips<T: FromRex + IntoRex>(x: Option<T>)
    requires
        x matches Some(t) ==> round_trips(t),
    ensures
        round_trips(x),
{
    assert forall|r: Result<Value, EngineError>| #[trigger] <Option<T> as IntoRex>::encodes(x, r) implies (r matches Ok(v)
        && <Option<T> as FromRex>::decodes(v, Ok(x))) by {
        match x {
            Some(t) => {
                let inner = choose|inner: Result<Value, EngineError>| #[trigger] T::encodes(t, inner) && match inner {
                    Ok(v) => r matches Ok(Value::Adt(tag, args)) && tag@ == "Some"@ && args@ == seq![v],
                    Err(e) => r == Err::<Value, EngineError>(e),
                };
                assert(inner matches Ok(v) && T::decodes(v, Ok(t)));
                let v = inner->Ok_0;
                assert(r matches Ok(Value::Adt(tag, args)) && args@[0] == v);
            },
            None => {},
        }
    }
}

/// Results come back from a round trip when their payload does.
pub proof fn law_result_round_trips<T: FromRex + IntoRex, E: FromRex + IntoRex>(x: Result<T, E>)
    requires
        x matches Ok(t) ==> round_trips(t),
        x matches Err(e) ==> round_trips(e),
    ensures
        round_trips(x),
{
    assert forall|r: Result<Value, EngineError>| #[trigger] <Result<T, E> as IntoRex>::encodes(x, r) implies (r matches Ok(v)
        && <Result<T, E> as FromRex>::decodes(v, Ok(x))) by {
        reveal_strlit("Ok");
        reveal_strlit("Err");
        assert("Ok"@.len() != "Err"@.len());
        assert("Ok"@ != "Err"@);
        match x {
            Ok(t) => {
                let inner = choose|inner: Result<Value, EngineError>| #[trigger] T::encodes(t, inner) && match inner {
                    Ok(v) => r matches Ok(Value::Adt(tag, args)) && tag@ == "Ok"@ && args@ == seq![v],
                    Err(e) => r == Err::<Value, EngineError>(e),
                };
                assert(inner matches Ok(v) && T::decodes(v, Ok(t)));
                let v = inner->Ok_0;
                assert(r matches Ok(Value::Adt(tag, args)) && args@[0] == v);
            },
            Err(e) => {
                let inner = choose|inner: Result<Value, EngineError>| #[trigger] E::encodes(e, inner) && match inner {
                    Ok(v) => r matches Ok(Value::Adt(tag, args)) && tag@ == "Err"@ && args@ == seq![v],
                    Err(x) => r == Err::<Value, EngineError>(x),
                };
                assert(inner matches Ok(v) && E::decodes(v, Ok(e)));
                let v = inner->Ok_0;
                assert(r matches Ok(Value::Adt(tag, args)) && args@[0] == v);
            },
        }
    }
}

/// Pairs come back from a round trip when both halves do.
pub proof fn law_pair_round_trips<A0: FromRex + IntoRex, A1: FromRex + IntoRex>(x: (A0, A1))
    requires
        round_trips(x.0),
        round_trips(x.1),
    ensures
        round_trips(x),
{
    assert forall|r: Result<Value, EngineError>| #[trigger] <(A0, A1) as IntoRex>::encodes(x, r) implies r matches Ok(v)
        && <(A0, A1) as FromRex>::decodes(v, Ok(x)) by {
        let r0 = choose|r0: Result<Value, EngineError>| #[trigger] A0::encodes(x.0, r0) && match r0 {
            Err(e) => r == Err::<Value, EngineError>(e),
            Ok(v0) => exists|r1: Result<Value, EngineError>| #[trigger] A1::encodes(x.1, r1) && match r1 {
                Err(e) => r == Err::<Value, EngineError>(e),
                Ok(v1) => r matches Ok(Value::Tuple(items)) && items@ == seq![v0, v1],
            },
        };
        assert(r0 matches Ok(v0) && A0::decodes(v0, Ok(x.0)));
        let v0 = r0->Ok_0;
        let r1 = choose|r1: Result<Value, EngineError>| #[trigger] A1::encodes(x.1, r1) && match r1 {
            Err(e) => r == Err::<Value, EngineError>(e),
            Ok(v1) => r matches Ok(Value::Tuple(items)) && items@ == seq![v0, v1],
        };
        assert(r1 matches Ok(v1) && A1::decodes(v1, Ok(x.1)));
        let v1 = r1->Ok_0;
        assert(r matches Ok(Value::Tuple(items)) && items@[0] == v0 && items@[1] == v1);
    }
}

/// Vectors of values other than bytes come back from a round trip, as
/// lists, when each element does.
pub proof fn law_list_round_trips<T: FromRex + IntoRex>(x: Vec<T>)
    requires
        !T::vec_reads_bytes(),
        !T::vec_writes_bytes(),
        forall|k: int| 0 <= k < x@.len() ==> round_trips(#[trigger] x@[k]),
    ensures
        round_trips(x),
{
    assert forall|r: Result<Value, EngineError>| #[trigger] <Vec<T> as IntoRex>::encodes(x, r) implies (r matches Ok(v)
        && <Vec<T> as FromRex>::decodes(v, Ok(x))) by {
        let enc = choose|enc: Result<Seq<Value>, EngineError>| #[trigger] items_encode(x@, enc) && match enc {
            Err(e) => r == Err::<Value, EngineError>(e),
            Ok(vals) => if T::vec_writes_bytes() {
                match all_bytes(vals) {
                    Some(b) => r matches Ok(Value::Bytes(bs)) && bs@ == b,
                    None => r == Err::<Value, EngineError>(bytes_downcast_error()),
                }
            } else {
                r matches Ok(Value::List(items)) && items@ == vals
            },
        };
        match enc {
            Err(e) => {
                let k = choose|k: int| 0 <= k < x@.len() && T::encodes(#[trigger] x@[k], Err(e))
                    && forall|j: int| 0 <= j < k ==> encodes_ok::<T>(#[trigger] x@[j]);
                assert(round_trips(x@[k]));
                assert(false);
            },
            Ok(vals) => {
                assert forall|k: int| 0 <= k < vals.len() implies T::decodes(#[trigger] vals[k], Ok(x@[k])) by {
                    assert(T::encodes(x@[k], Ok(vals[k])));
                    assert(round_trips(x@[k]));
                }
                assert(items_decode::<T>(vals, Ok(x@)));
            },
        }
    }
}

/// Byte vectors come back from a round trip, as byte strings.
pub proof fn law_bytes_round_trip(x: Vec<u8>)
    ensures
        round_trips(x),
{
    assert forall|r: Result<Value, EngineError>| #[trigger] <Vec<u8> as IntoRex>::encodes(x, r) implies (r matches Ok(v)
        && <Vec<u8> as FromRex>::decodes(v, Ok(x))) by {
        let enc = choose|enc: Result<Seq<Value>, EngineError>| #[trigger] items_encode(x@, enc) && match enc {
            Err(e) => r == Err::<Value, EngineError>(e),
            Ok(vals) => match all_bytes(vals) {
                Some(b) => r matches Ok(Value::Bytes(bs)) && bs@ == b,
                None => r == Err::<Value, EngineError>(bytes_downcast_error()),
            },
        };
        match enc {
            Err(e) => {
                let k = choose|k: int| 0 <= k < x@.len() && <u8 as IntoRex>::encodes(#[trigger] x@[k], Err(e))
                    && forall|j: int| 0 <= j < k ==> encodes_ok::<u8>(#[trigger] x@[j]);
                assert(false);
            },
            Ok(vals) => {
                assert forall|k: int| 0 <= k < vals.len() implies (#[trigger] vals[k]) is U8 by {
                    assert(<u8 as IntoRex>::encodes(x@[k], Ok(vals[k])));
                }
                let b = all_bytes(vals)->Some_0;
                assert(b =~= x@) by {
                    assert forall|k: int| 0 <= k < b.len() implies b[k] == x@[k] by {
                        assert(<u8 as IntoRex>::encodes(x@[k], Ok(vals[k])));
                    }
                }
                assert forall|k: int| 0 <= k < x@.len() implies <u8 as FromRex>::decodes(#[trigger] byte_values(b)[k], Ok(x@[k])) by {
                }
                assert(items_decode::<u8>(byte_values(b), Ok(x@)));
            },
        }
    }
}

} // verus!
