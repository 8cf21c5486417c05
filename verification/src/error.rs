//! Errors raised by the runtime core.

use vstd::prelude::*;

use crate::types::RuntimeType;

verus! {

/// What went wrong with a child result that an evaluation frame received.
#[derive(Clone, Copy, Debug, PartialEq, Eq, Structural)]
pub enum FrameFault {
    /// The result came from a frame that is not one of the children.
    UnknownChild,
    /// The child had already delivered its result.
    DuplicateResult,
    /// The head child had already delivered its result.
    DuplicateHead,
    /// An argument child had already delivered its result.
    DuplicateArgument,
    /// An argument child's result slot does not exist.
    ArgumentSlotOutOfBounds,
    /// The child's result slot does not exist.
    SlotOutOfBounds,
    /// More results arrived than the frame was waiting for.
    ExcessResult,
    /// The frame finished while a result was still missing.
    MissingResult,
    /// The frame does not match the kind of its expression.
    KindMismatch,
    /// The frame was not waiting for any child result.
    UnexpectedChild,
}

/// An error of the module system.
#[derive(Debug)]
pub enum ModuleError {
    /// The engine was built without an importer that may load modules.
    ImportsDisabled { module_name: String },
    /// An imported name is already a name of the importing module.
    ImportNameConflictsWithLocal { module: String, name: String },
    /// Two imports bind the same name.
    DuplicateImportedName { name: String },
    /// An import names something that the module does not export.
    MissingExport { module: String, export: String },
}

/// An error of the heap, list, or module code.
#[derive(Debug)]
pub enum EngineError {
    /// A value had another runtime kind than the operation needs.
    NativeType { expected: &'static str, got: &'static str },
    /// A heap pointer names no live object of this heap.
    InvalidPointer { heap_id: u64, slot: u32, generation: u64 },
    /// A heap pointer belongs to another heap.
    WrongHeapPointer { pointer_heap_id: u64, heap_id: u64, slot: u32, generation: u64 },
    /// The heap has as many slots as a pointer can index.
    HeapExhausted,
    /// The heap has collected as many times as its epoch counter can count.
    CollectionCountExhausted,
    /// A list slice whose start lies after its end.
    InvalidListSlice { start: usize, end: usize },
    /// A list slice reaching past its backing data.
    IndexOutOfBounds { index: i32, len: usize },
    /// An index past the end of a list.
    ListItemOutOfBounds,
    /// A list longer than `usize` can count.
    ListLengthOverflow,
    /// A broken internal expectation, with its description.
    Internal(&'static str),
    /// A frame of the given kind received a child result it cannot take.
    Frame { kind: &'static str, fault: FrameFault },
    /// An integer literal that does not fit the integer type it has.
    LiteralOutOfRange { expected: &'static str, value: i128 },
    /// A literal whose type is not integral, given by its printed form.
    NotIntegral { got: String },
    /// A value whose type the value alone does not show, by what it is.
    UnknownType(String),
    /// Elements of one list or dictionary have different types.
    TypeMismatch { expected: RuntimeType, got: RuntimeType },
    /// A slice reaches outside its (binary or pointer) backing data.
    InvalidSliceBounds { binary: bool, len: usize, start: usize, end: usize },
    /// A reduction over an empty sequence that needs at least one element.
    EmptySequence,
    /// A module could not be loaded.
    Module(ModuleError),
    /// A value could not be converted at the given path.
    ValueConversion { path: String, expected: String, got: String },
    /// A field projection on a value that has no such field, naming what
    /// kind of value it is.
    UnknownField { field: String, value: &'static str },
    /// The inputs given to a program's main function do not match its
    /// signature: the names it expects and was not given, and the names it
    /// was given and does not expect, each in name order.
    MainInputMismatch { missing: Vec<String>, extra: Vec<String> },
    /// An expression that the evaluator cannot run on the values it got,
    /// such as a record update on a value that is not a record.
    UnsupportedExpr,
}

impl EngineError {
    /// A short description of what kind of error this is.
    pub fn summary(&self) -> (s: &'static str)
        ensures
            s == error_summary(*self),
    {
        match self {
            EngineError::NativeType { .. } => "native type mismatch",
            EngineError::InvalidPointer { .. } => "invalid heap pointer",
            EngineError::WrongHeapPointer { .. } => "heap pointer from another heap",
            EngineError::HeapExhausted => "heap exhausted",
            EngineError::CollectionCountExhausted => "collection count exhausted",
            EngineError::InvalidListSlice { .. } => "invalid list slice",
            EngineError::IndexOutOfBounds { .. } => "index out of bounds",
            EngineError::ListItemOutOfBounds => "list item index out of bounds",
            EngineError::ListLengthOverflow => "list length overflow",
            EngineError::Internal(_) => "internal error",
            EngineError::Frame { .. } => "unexpected frame result",
            EngineError::LiteralOutOfRange { .. } => "literal out of range",
            EngineError::NotIntegral { .. } => "literal type is not integral",
            EngineError::UnknownType(_) => "unknown type",
            EngineError::TypeMismatch { .. } => "type mismatch",
            EngineError::InvalidSliceBounds { .. } => "invalid list slice bounds",
            EngineError::EmptySequence => "empty sequence",
            EngineError::Module(_) => "module error",
            EngineError::ValueConversion { .. } => "value conversion failed",
            EngineError::UnknownField { .. } => "unknown field",
            EngineError::UnsupportedExpr => "unsupported expression",
            EngineError::MainInputMismatch { .. } => "main input mismatch",
        }
    }
}

/// A short description of each kind of error.
pub open spec fn error_summary(e: EngineError) -> &'static str {
    match e {
        EngineError::NativeType { .. } => "native type mismatch",
        EngineError::InvalidPointer { .. } => "invalid heap pointer",
        EngineError::WrongHeapPointer { .. } => "heap pointer from another heap",
        EngineError::HeapExhausted => "heap exhausted",
        EngineError::CollectionCountExhausted => "collection count exhausted",
        EngineError::InvalidListSlice { .. } => "invalid list slice",
        EngineError::IndexOutOfBounds { .. } => "index out of bounds",
        EngineError::ListItemOutOfBounds => "list item index out of bounds",
        EngineError::ListLengthOverflow => "list length overflow",
        EngineError::Internal(_) => "internal error",
        EngineError::Frame { .. } => "unexpected frame result",
        EngineError::LiteralOutOfRange { .. } => "literal out of range",
        EngineError::NotIntegral { .. } => "literal type is not integral",
        EngineError::UnknownType(_) => "unknown type",
        EngineError::TypeMismatch { .. } => "type mismatch",
        EngineError::InvalidSliceBounds { .. } => "invalid list slice bounds",
        EngineError::EmptySequence => "empty sequence",
        EngineError::Module(_) => "module error",
        EngineError::ValueConversion { .. } => "value conversion failed",
        EngineError::UnknownField { .. } => "unknown field",
        EngineError::UnsupportedExpr => "unsupported expression",
        EngineError::MainInputMismatch { .. } => "main input mismatch",
    }
}

} // verus!
