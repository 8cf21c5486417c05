//! Runtime core of the Rex workflow language: module identities and keys,
//! the single-owner value heap with its copying collector, list
//! representations, the evaluator work queue, and owned host values.

pub mod text;
pub mod module_id;
pub mod gc_order;
pub mod error;
pub mod cell;
pub mod heap;
pub mod scope;
pub mod lists;
pub mod module_types;
pub mod scheduler;
pub mod frames;
pub mod natives;
pub mod value;
pub mod literals;
pub mod types;
pub mod sequences;
pub mod unary;
pub mod tasks;
pub mod fields;
pub mod dicts;
pub mod dict_natives;
pub mod host;
pub mod rex_convert;
pub mod main_inputs;
pub mod exports;
pub mod conv_types;
pub mod value_export;
pub mod value_import;
pub mod content_hash;
pub mod patterns;
pub mod imports;
