//! Integer literals allocated at the type the checker inferred for them.
//!
//! A literal whose type is still an unresolved variable becomes an `i32`; a
//! literal of a builtin integer type becomes a value of that type when it
//! fits; a literal of any other type is an error.

use vstd::prelude::*;

use crate::cell::{CellView, RootedPtr};
use crate::error::EngineError;
use crate::heap::{rooted_alloc, Heap};

verus! {

/// The builtin integer types.
#[derive(Clone, Copy, Debug, PartialEq, Eq, Structural)]
pub enum IntKind {
    U8,
    U16,
    U32,
    U64,
    I8,
    I16,
    I32,
    I64,
}

/// The type a literal is allocated at: an unresolved type variable, a
/// builtin integer type, or another type, given by its printed form.
#[derive(Debug)]
pub enum LiteralType {
    Var,
    Int(IntKind),
    Other(String),
}

/// The name of an integer type.
pub open spec fn kind_name(k: IntKind) -> &'static str {
    match k {
        IntKind::U8 => "u8",
        IntKind::U16 => "u16",
        IntKind::U32 => "u32",
        IntKind::U64 => "u64",
        IntKind::I8 => "i8",
        IntKind::I16 => "i16",
        IntKind::I32 => "i32",
        IntKind::I64 => "i64",
    }
}

/// Whether `v` is a value of the integer type `k`.
pub open spec fn fits(k: IntKind, v: int) -> bool {
    match k {
        IntKind::U8 => 0 <= v <= u8::MAX,
        IntKind::U16 => 0 <= v <= u16::MAX,
        IntKind::U32 => 0 <= v <= u32::MAX,
        IntKind::U64 => 0 <= v <= u64::MAX,
        IntKind::I8 => i8::MIN <= v <= i8::MAX,
        IntKind::I16 => i16::MIN <= v <= i16::MAX,
        IntKind::I32 => i32::MIN <= v <= i32::MAX,
        IntKind::I64 => i64::MIN <= v <= i64::MAX,
    }
}

/// The object holding `v` at the integer type `k` (where it fits).
pub open spec fn int_cell(k: IntKind, v: int) -> CellView {
    match k {
        IntKind::U8 => CellView::U8(v as u8),
        IntKind::U16 => CellView::U16(v as u16),
        IntKind::U32 => CellView::U32(v as u32),
        IntKind::U64 => CellView::U64(v as u64),
        IntKind::I8 => CellView::I8(v as i8),
        IntKind::I16 => CellView::I16(v as i16),
        IntKind::I32 => CellView::I32(v as i32),
        IntKind::I64 => CellView::I64(v as i64),
    }
}

/// What allocating the literal `v` at `typ` does: the new object, or the
/// error for a literal that does not fit or a type that is not integral.
pub open spec fn literal_outcome(h0: Heap, h1: Heap, v: int, typ: LiteralType, res: Result<RootedPtr, EngineError>) -> bool {
    match typ {
        LiteralType::Other(t) => res matches Err(EngineError::NotIntegral { got }) && got@ == t@ && h1 == h0,
        _ => {
            let k = match typ {
                LiteralType::Int(k) => k,
                _ => IntKind::I32,
            };
            if fits(k, v) {
                rooted_alloc(h0, h1, int_cell(k, v), res)
            } else {
                res matches Err(EngineError::LiteralOutOfRange { expected, value }) && expected == kind_name(k)
                    && value == v && h1 == h0
            }
        },
    }
}

impl Heap {
    /// Allocates `value` as an integer of kind `k`, if it fits.
    fn alloc_int_of_kind(&mut self, k: IntKind, value: i128) -> (res: Result<RootedPtr, EngineError>)
        requires
            old(self).wf(),
        ensures
            final(self).wf(),
            if fits(k, value as int) {
                rooted_alloc(*old(self), *final(self), int_cell(k, value as int), res)
            } else {
                res matches Err(EngineError::LiteralOutOfRange { expected, value: v }) && expected == kind_name(k)
                    && v == value && *final(self) == *old(self)
            },
    {
        match k {
            IntKind::U8 => if 0 <= value && value <= 255 {
                self.alloc_root_u8(value as u8)
            } else {
                Err(EngineError::LiteralOutOfRange { expected: "u8", value })
            },
            IntKind::U16 => if 0 <= value && value <= 65535 {
                self.alloc_root_u16(value as u16)
            } else {
                Err(EngineError::LiteralOutOfRange { expected: "u16", value })
            },
            IntKind::U32 => if 0 <= value && value <= 4294967295 {
                self.alloc_root_u32(value as u32)
            } else {
                Err(EngineError::LiteralOutOfRange { expected: "u32", value })
            },
            IntKind::U64 => if 0 <= value && value <= 18446744073709551615 {
                self.alloc_root_u64(value as u64)
            } else {
                Err(EngineError::LiteralOutOfRange { expected: "u64", value })
            },
            IntKind::I8 => if -128 <= value && value <= 127 {
                self.alloc_root_i8(value as i8)
            } else {
                Err(EngineError::LiteralOutOfRange { expected: "i8", value })
            },
            IntKind::I16 => if -32768 <= value && value <= 32767 {
                self.alloc_root_i16(value as i16)
            } else {
                Err(EngineError::LiteralOutOfRange { expected: "i16", value })
            },
            IntKind::I32 => if -2147483648 <= value && value <= 2147483647 {
                self.alloc_root_i32(value as i32)
            } else {
                Err(EngineError::LiteralOutOfRange { expected: "i32", value })
            },
            IntKind::I64 => if -9223372036854775808 <= value && value <= 9223372036854775807 {
                self.alloc_root_i64(value as i64)
            } else {
                Err(EngineError::LiteralOutOfRange { expected: "i64", value })
            },
        }
    }

    fn alloc_literal_as(&mut self, value: i128, typ: &LiteralType) -> (res: Result<RootedPtr, EngineError>)
        requires
            old(self).wf(),
        ensures
            final(self).wf(),
            literal_outcome(*old(self), *final(self), value as int, *typ, res),
    {
        match typ {
            LiteralType::Var => self.alloc_int_of_kind(IntKind::I32, value),
            LiteralType::Int(k) => self.alloc_int_of_kind(*k, value),
            LiteralType::Other(t) => Err(EngineError::NotIntegral { got: t.clone() }),
        }
    }

    /// Allocates a non-negative integer literal at its inferred type.
    pub fn alloc_uint_literal_as(&mut self, value: u64, typ: &LiteralType) -> (res: Result<RootedPtr, EngineError>)
        requires
            old(self).wf(),
        ensures
            final(self).wf(),
            literal_outcome(*old(self), *final(self), value as int, *typ, res),
    {
        self.alloc_literal_as(value as i128, typ)
    }

    /// Allocates a signed integer literal at its inferred type.
    pub fn alloc_int_literal_as(&mut self, value: i64, typ: &LiteralType) -> (res: Result<RootedPtr, EngineError>)
        requires
            old(self).wf(),
        ensures
            final(self).wf(),
            literal_outcome(*old(self), *final(self), value as int, *typ, res),
    {
        self.alloc_literal_as(value as i128, typ)
    }
}

} // verus!
