//! Owned values exchanged with embedders.
//!
//! A `Value` holds no heap references: composites own their children.
//! Floating-point numbers are held as their IEEE-754 bits, a UUID as its
//! 128-bit number, a hash as its 32 bytes and a UTC time as seconds and
//! nanoseconds since the Unix epoch.

use vstd::prelude::*;

use crate::error::EngineError;
use crate::text::{chars_of, string_from_chars};

verus! {

/// How values are shown to people.
#[derive(Clone, Copy, Debug, PartialEq, Eq, Structural)]
pub struct ValueDisplayOptions {
    pub include_numeric_suffixes: bool,
    pub strip_internal_snippet_qualifiers: bool,
}

impl ValueDisplayOptions {
    /// Everything as it is: numeric suffixes shown, names unchanged.
    pub fn unsanitized() -> (o: Self)
        ensures
            o.include_numeric_suffixes,
            !o.strip_internal_snippet_qualifiers,
    {
        ValueDisplayOptions { include_numeric_suffixes: true, strip_internal_snippet_qualifiers: false }
    }

    /// As documentation shows values: no numeric suffixes, and constructors
    /// of snippet modules by their local name.
    pub fn docs() -> (o: Self)
        ensures
            !o.include_numeric_suffixes,
            o.strip_internal_snippet_qualifiers,
    {
        ValueDisplayOptions { include_numeric_suffixes: false, strip_internal_snippet_qualifiers: true }
    }
}

impl Default for ValueDisplayOptions {
    /// The documentation style.
    fn default() -> (o: Self)
        ensures
            !o.include_numeric_suffixes,
            o.strip_internal_snippet_qualifiers,
    {
        Self::docs()
    }
}

/// An owned Rex value.
#[derive(Debug)]
pub enum Value {
    Bool(bool),
    U8(u8),
    U16(u16),
    U32(u32),
    U64(u64),
    I8(i8),
    I16(i16),
    I32(i32),
    I64(i64),
    /// The bits of an `f32`.
    F32(u32),
    /// The bits of an `f64`.
    F64(u64),
    Char(char),
    String(String),
    /// A UUID as its 128-bit number.
    Uuid(u128),
    /// A BLAKE3 hash as its bytes.
    Hash([u8; 32]),
    /// A UTC time as seconds and nanoseconds since the Unix epoch.
    DateTime { secs: i64, nanos: u32 },
    Tuple(Vec<Value>),
    List(Vec<Value>),
    Bytes(Vec<u8>),
    /// Named fields, in key order.
    Dict(Vec<(String, Value)>),
    Adt(String, Vec<Value>),
}

/// The name of a value's kind.
pub open spec fn value_kind(v: Value) -> &'static str {
    match v {
        Value::Bool(_) => "Bool",
        Value::U8(_) => "u8",
        Value::U16(_) => "u16",
        Value::U32(_) => "u32",
        Value::U64(_) => "u64",
        Value::I8(_) => "i8",
        Value::I16(_) => "i16",
        Value::I32(_) => "i32",
        Value::I64(_) => "i64",
        Value::F32(_) => "f32",
        Value::F64(_) => "f64",
        Value::Char(_) => "Char",
        Value::String(_) => "String",
        Value::Uuid(_) => "UUID",
        Value::Hash(_) => "Hash",
        Value::DateTime { .. } => "DateTime",
        Value::Tuple(_) => "tuple",
        Value::List(_) => "list",
        Value::Bytes(_) => "bytes",
        Value::Dict(_) => "dict",
        Value::Adt(_, _) => "adt",
    }
}

/// The error for a value of another kind than `expected`.
pub open spec fn mismatch_error(expected: &'static str, v: Value) -> EngineError {
    EngineError::NativeType { expected, got: value_kind(v) }
}

impl Value {
    /// The name of this value's kind.
    pub fn value_type_name(&self) -> (n: &'static str)
        ensures
            n == value_kind(*self),
    {
        match self {
            Value::Bool(_) => "Bool",
            Value::U8(_) => "u8",
            Value::U16(_) => "u16",
            Value::U32(_) => "u32",
            Value::U64(_) => "u64",
            Value::I8(_) => "i8",
            Value::I16(_) => "i16",
            Value::I32(_) => "i32",
            Value::I64(_) => "i64",
            Value::F32(_) => "f32",
            Value::F64(_) => "f64",
            Value::Char(_) => "Char",
            Value::String(_) => "String",
            Value::Uuid(_) => "UUID",
            Value::Hash(_) => "Hash",
            Value::DateTime { .. } => "DateTime",
            Value::Tuple(_) => "tuple",
            Value::List(_) => "list",
            Value::Bytes(_) => "bytes",
            Value::Dict(_) => "dict",
            Value::Adt(_, _) => "adt",
        }
    }

    fn mismatch(&self, expected: &'static str) -> (e: EngineError)
        ensures
            e == mismatch_error(expected, *self),
    {
        EngineError::NativeType { expected, got: self.value_type_name() }
    }

    /// The boolean this value holds.
    pub fn as_bool(&self) -> (res: Result<bool, EngineError>)
        ensures
            match *self {
                Value::Bool(b) => res matches Ok(x) && x == b,
                other => res matches Err(e) && e == mismatch_error("bool", other),
            },
    {
        match self {
            Value::Bool(b) => Ok(*b),
            _ => Err(self.mismatch("bool")),
        }
    }

    /// The `u8` this value holds.
    pub fn as_u8(&self) -> (res: Result<u8, EngineError>)
        ensures
            match *self {
                Value::U8(b) => res matches Ok(x) && x == b,
                other => res matches Err(e) && e == mismatch_error("u8", other),
            },
    {
        match self {
            Value::U8(b) => Ok(*b),
            _ => Err(self.mismatch("u8")),
        }
    }

    /// The `u16` this value holds.
    pub fn as_u16(&self) -> (res: Result<u16, EngineError>)
        ensures
            match *self {
                Value::U16(b) => res matches Ok(x) && x == b,
                other => res matches Err(e) && e == mismatch_error("u16", other),
            },
    {
        match self {
            Value::U16(b) => Ok(*b),
            _ => Err(self.mismatch("u16")),
        }
    }

    /// The `u32` this value holds.
    pub fn as_u32(&self) -> (res: Result<u32, EngineError>)
        ensures
            match *self {
                Value::U32(b) => res matches Ok(x) && x == b,
                other => res matches Err(e) && e == mismatch_error("u32", other),
            },
    {
        match self {
            Value::U32(b) => Ok(*b),
            _ => Err(self.mismatch("u32")),
        }
    }

    /// The `u64` this value holds.
    pub fn as_u64(&self) -> (res: Result<u64, EngineError>)
        ensures
            match *self {
                Value::U64(b) => res matches Ok(x) && x == b,
                other => res matches Err(e) && e == mismatch_error("u64", other),
            },
    {
        match self {
            Value::U64(b) => Ok(*b),
            _ => Err(self.mismatch("u64")),
        }
    }

    /// The `i8` this value holds.
    pub fn as_i8(&self) -> (res: Result<i8, EngineError>)
        ensures
            match *self {
                Value::I8(b) => res matches Ok(x) && x == b,
                other => res matches Err(e) && e == mismatch_error("i8", other),
            },
    {
        match self {
            Value::I8(b) => Ok(*b),
            _ => Err(self.mismatch("i8")),
        }
    }

    /// The `i16` this value holds.
    pub fn as_i16(&self) -> (res: Result<i16, EngineError>)
        ensures
            match *self {
                Value::I16(b) => res matches Ok(x) && x == b,
                other => res matches Err(e) && e == mismatch_error("i16", other),
            },
    {
        match self {
            Value::I16(b) => Ok(*b),
            _ => Err(self.mismatch("i16")),
        }
    }

    /// The `i32` this value holds.
    pub fn as_i32(&self) -> (res: Result<i32, EngineError>)
        ensures
            match *self {
                Value::I32(b) => res matches Ok(x) && x == b,
                other => res matches Err(e) && e == mismatch_error("i32", other),
            },
    {
        match self {
            Value::I32(b) => Ok(*b),
            _ => Err(self.mismatch("i32")),
        }
    }

    /// The `i64` this value holds.
    pub fn as_i64(&self) -> (res: Result<i64, EngineError>)
        ensures
            match *self {
                Value::I64(b) => res matches Ok(x) && x == b,
                other => res matches Err(e) && e == mismatch_error("i64", other),
            },
    {
        match self {
            Value::I64(b) => Ok(*b),
            _ => Err(self.mismatch("i64")),
        }
    }

    /// The bits of the `f32` this value holds.
    pub fn as_f32_bits(&self) -> (res: Result<u32, EngineError>)
        ensures
            match *self {
                Value::F32(b) => res matches Ok(x) && x == b,
                other => res matches Err(e) && e == mismatch_error("f32", other),
            },
    {
        match self {
            Value::F32(b) => Ok(*b),
            _ => Err(self.mismatch("f32")),
        }
    }

    /// The bits of the `f64` this value holds.
    pub fn as_f64_bits(&self) -> (res: Result<u64, EngineError>)
        ensures
            match *self {
                Value::F64(b) => res matches Ok(x) && x == b,
                other => res matches Err(e) && e == mismatch_error("f64", other),
            },
    {
        match self {
            Value::F64(b) => Ok(*b),
            _ => Err(self.mismatch("f64")),
        }
    }

    /// The character this value holds.
    pub fn as_char(&self) -> (res: Result<char, EngineError>)
        ensures
            match *self {
                Value::Char(c) => res matches Ok(x) && x == c,
                other => res matches Err(e) && e == mismatch_error("char", other),
            },
    {
        match self {
            Value::Char(c) => Ok(*c),
            _ => Err(self.mismatch("char")),
        }
    }

    /// A copy of the string this value holds.
    pub fn as_string(&self) -> (res: Result<String, EngineError>)
        ensures
            match *self {
                Value::String(s) => res matches Ok(x) && x@ == s@,
                other => res matches Err(e) && e == mismatch_error("String", other),
            },
    {
        match self {
            Value::String(s) => Ok(s.clone()),
            _ => Err(self.mismatch("String")),
        }
    }

    /// The items of a tuple value.
    pub fn as_tuple(&self) -> (res: Result<&[Value], EngineError>)
        ensures
            match *self {
                Value::Tuple(items) => res matches Ok(x) && x@ == items@,
                other => res matches Err(e) && e == mismatch_error("tuple", other),
            },
    {
        match self {
            Value::Tuple(items) => Ok(items.as_slice()),
            _ => Err(self.mismatch("tuple")),
        }
    }

    /// The items of a list value.
    pub fn as_list(&self) -> (res: Result<&[Value], EngineError>)
        ensures
            match *self {
                Value::List(items) => res matches Ok(x) && x@ == items@,
                other => res matches Err(e) && e == mismatch_error("list", other),
            },
    {
        match self {
            Value::List(items) => Ok(items.as_slice()),
            _ => Err(self.mismatch("list")),
        }
    }

    /// The bytes of a byte-string value.
    pub fn as_bytes(&self) -> (res: Result<&[u8], EngineError>)
        ensures
            match *self {
                Value::Bytes(b) => res matches Ok(x) && x@ == b@,
                other => res matches Err(e) && e == mismatch_error("bytes", other),
            },
    {
        match self {
            Value::Bytes(b) => Ok(b.as_slice()),
            _ => Err(self.mismatch("bytes")),
        }
    }

    /// The fields of a dictionary value.
    pub fn as_dict(&self) -> (res: Result<&[(String, Value)], EngineError>)
        ensures
            match *self {
                Value::Dict(fields) => res matches Ok(x) && x@ == fields@,
                other => res matches Err(e) && e == mismatch_error("dict", other),
            },
    {
        match self {
            Value::Dict(fields) => Ok(fields.as_slice()),
            _ => Err(self.mismatch("dict")),
        }
    }
}

/// The part of a dotted name after its last `.` (the whole name where it
/// has none).
pub open spec fn local_name_spec(s: Seq<char>) -> Seq<char>
    decreases s.len(),
{
    if s.len() == 0 {
        s
    } else if s.last() == '.' {
        Seq::empty()
    } else {
        local_name_spec(s.drop_last()).push(s.last())
    }
}

/// The part of a dotted name after its last `.`.
pub fn local_name(name: &str) -> (res: String)
    ensures
        res@ == local_name_spec(name@),
{
    let chars = chars_of(name);
    let mut start: usize = 0;
    let mut i: usize = 0;
    while i < chars.len()
        invariant
            0 <= start <= i <= chars@.len(),
            chars@ == name@,
            local_name_spec(chars@.take(i as int)) == chars@.subrange(start as int, i as int),
        decreases chars@.len() - i,
    {
        proof {
            assert(chars@.take(i + 1).drop_last() =~= chars@.take(i as int));
        }
        if chars[i] == '.' {
            start = i + 1;
            proof {
                assert(chars@.subrange(start as int, i + 1) =~= Seq::<char>::empty());
            }
        } else {
            proof {
                assert(chars@.subrange(start as int, i + 1) =~= chars@.subrange(start as int, i as int).push(chars@[i as int]));
            }
        }
        i += 1;
    }
    let mut out: Vec<char> = Vec::new();
    let mut k: usize = start;
    while k < chars.len()
        invariant
            start <= k <= chars@.len(),
            out@ == chars@.subrange(start as int, k as int),
        decreases chars@.len() - k,
    {
        out.push(chars[k]);
        k += 1;
    }
    proof {
        assert(chars@.take(chars@.len() as int) =~= chars@);
    }
    string_from_chars(&out)
}

/// The characters of `@snippet`.
pub open spec fn snippet_marker() -> Seq<char> {
    seq!['@', 's', 'n', 'i', 'p', 'p', 'e', 't']
}

/// How a constructor's name is shown: a constructor of a snippet module by
/// its local name where the options ask for it, any other as it is.
pub open spec fn shown_adt_name(name: Seq<char>, options: ValueDisplayOptions) -> Seq<char> {
    if options.strip_internal_snippet_qualifiers && snippet_marker().is_prefix_of(name) {
        local_name_spec(name)
    } else {
        name
    }
}

/// The name under which a constructor is shown.
pub fn display_adt_name(name: &str, options: ValueDisplayOptions) -> (res: String)
    ensures
        res@ == shown_adt_name(name@, options),
{
    let chars = chars_of(name);
    let marker: Vec<char> = vec!['@', 's', 'n', 'i', 'p', 'p', 'e', 't'];
    let mut prefixed = chars.len() >= marker.len();
    let mut i: usize = 0;
    while prefixed && i < marker.len()
        invariant
            0 <= i <= marker@.len(),
            marker@ == snippet_marker(),
            chars@ == name@,
            prefixed ==> chars@.len() >= marker@.len() && forall|j: int| 0 <= j < i ==> chars@[j] == marker@[j],
            !prefixed ==> !snippet_marker().is_prefix_of(name@),
        decreases marker@.len() - i,
    {
        if chars[i] != marker[i] {
            prefixed = false;
            proof {
                if snippet_marker().is_prefix_of(name@) {
                    assert(name@[i as int] == snippet_marker()[i as int]);
                }
            }
        }
        i += 1;
    }
    proof {
        if prefixed {
            assert(chars@.subrange(0, marker@.len() as int) =~= marker@);
        }
    }
    if options.strip_internal_snippet_qualifiers && prefixed {
        local_name(name)
    } else {
        name.to_string()
    }
}

/// Where a conversion stands inside a value: the segments from the root,
/// such as `[1]` or `.name`.
#[derive(Debug)]
pub struct ConversionPath {
    segments: Vec<String>,
}

impl View for ConversionPath {
    type V = Seq<Seq<char>>;

    closed spec fn view(&self) -> Seq<Seq<char>> {
        self.segments@.map_values(|s: String| s@)
    }
}

/// The segments joined one after the other.
pub open spec fn concat_segments(s: Seq<Seq<char>>) -> Seq<char>
    decreases s.len(),
{
    if s.len() == 0 {
        Seq::empty()
    } else {
        concat_segments(s.drop_last()) + s.last()
    }
}

impl ConversionPath {
    /// The path of the value itself.
    pub fn root() -> (p: Self)
        ensures
            p@ == Seq::<Seq<char>>::empty(),
    {
        let p = ConversionPath { segments: Vec::new() };
        proof {
            assert(p@ =~= Seq::<Seq<char>>::empty());
        }
        p
    }

    /// The path of a part of the value at this path.
    pub fn child(&self, segment: String) -> (p: Self)
        ensures
            p@ == self@.push(segment@),
    {
        let mut segments: Vec<String> = Vec::new();
        let mut i: usize = 0;
        while i < self.segments.len()
            invariant
                0 <= i <= self.segments@.len(),
                segments@.map_values(|s: String| s@) == self.segments@.take(i as int).map_values(|s: String| s@),
            decreases self.segments@.len() - i,
        {
            segments.push(self.segments[i].clone());
            proof {
                assert(self.segments@.take(i + 1).map_values(|s: String| s@) =~= self.segments@.take(i as int).map_values(
                    |s: String| s@,
                ).push(self.segments@[i as int]@));
                assert(segments@.map_values(|s: String| s@) =~= self.segments@.take(i as int).map_values(
                    |s: String| s@,
                ).push(self.segments@[i as int]@));
            }
            i += 1;
        }
        let ghost before = segments@.map_values(|s: String| s@);
        segments.push(segment);
        let p = ConversionPath { segments };
        proof {
            assert(self.segments@.take(self.segments@.len() as int) =~= self.segments@);
            assert(p@ =~= before.push(segment@));
        }
        p
    }

    /// The path as text: `$` followed by the segments.
    pub fn to_string(&self) -> (s: String)
        ensures
            s@ == seq!['$'] + concat_segments(self@),
    {
        let ghost segs = self@;
        let mut out: Vec<char> = vec!['$'];
        let mut i: usize = 0;
        while i < self.segments.len()
            invariant
                0 <= i <= self.segments@.len(),
                segs == self@,
                segs.len() == self.segments@.len(),
                out@ == seq!['$'] + concat_segments(segs.take(i as int)),
            decreases self.segments@.len() - i,
        {
            let mut piece = chars_of(self.segments[i].as_str());
            proof {
                assert(segs.take(i + 1).drop_last() =~= segs.take(i as int));
                assert(segs[i as int] == self.segments@[i as int]@);
            }
            out.append(&mut piece);
            proof {
                assert(out@ =~= seq!['$'] + concat_segments(segs.take(i + 1)));
            }
            i += 1;
        }
        proof {
            assert(segs.take(segs.len() as int) =~= segs);
        }
        string_from_chars(&out)
    }
}

/// Moves the last `len` items of `items` out, in order; fewer than `len`
/// items is an error and leaves `items` as it was.
pub fn take_root_tail<T>(items: &mut Vec<T>, len: usize) -> (res: Result<Vec<T>, EngineError>)
    ensures
        if len <= old(items)@.len() {
            &&& res matches Ok(tail) && tail@ == old(items)@.subrange(old(items)@.len() - len, old(items)@.len() as int)
            &&& final(items)@ == old(items)@.subrange(0, old(items)@.len() - len)
        } else {
            res matches Err(e) && e == EngineError::Internal("conversion stack underflow") && final(items)@ == old(items)@
        },
{
    match items.len().checked_sub(len) {
        Some(start) => {
            let mut tail: Vec<T> = Vec::new();
            while items.len() > start
                invariant
                    start <= items@.len() <= old(items)@.len(),
                    start == old(items)@.len() - len,
                    items@ == old(items)@.subrange(0, items@.len() as int),
                    tail@ == old(items)@.subrange(items@.len() as int, old(items)@.len() as int).reverse(),
                decreases items@.len(),
            {
                let ghost before = items@;
                match items.pop() {
                    Some(x) => {
                        tail.push(x);
                        proof {
                            assert(items@ =~= old(items)@.subrange(0, items@.len() as int));
                            assert(tail@ =~= old(items)@.subrange(items@.len() as int, old(items)@.len() as int).reverse());
                        }
                    },
                    None => {},
                }
            }
            let mut out: Vec<T> = Vec::new();
            let ghost t = tail@;
            while tail.len() > 0
                invariant
                    tail@.len() + out@.len() == t.len(),
                    tail@ == t.subrange(0, tail@.len() as int),
                    out@ == t.subrange(tail@.len() as int, t.len() as int).reverse(),
                decreases tail@.len(),
            {
                match tail.pop() {
                    Some(x) => {
                        out.push(x);
                        proof {
                            assert(tail@ =~= t.subrange(0, tail@.len() as int));
                            assert(out@ =~= t.subrange(tail@.len() as int, t.len() as int).reverse());
                        }
                    },
                    None => {},
                }
            }
            proof {
                let s = old(items)@.subrange(start as int, old(items)@.len() as int);
                assert(t =~= s.reverse());
                assert(out@ =~= t.reverse());
                assert(out@ =~= s);
            }
            Ok(out)
        },
        None => Err(EngineError::Internal("conversion stack underflow")),
    }
}

/// The error for a value that could not be converted at `path`.
pub fn conversion_error(path: String, expected: String, got: String) -> (e: EngineError)
    ensures
        e matches EngineError::ValueConversion { path: p, expected: x, got: g } && p@ == path@ && x@ == expected@
            && g@ == got@,
{
    EngineError::ValueConversion { path, expected, got }
}

} // verus!
