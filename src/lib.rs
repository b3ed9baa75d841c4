//! Collections that hand out handles which stay valid while the collection
//! keeps growing: storage is organised in fixed-capacity chunks that are only
//! ever appended, never moved or rewritten.
//!
//! - `AppendOnlyVec`: a sequence that grows by whole segments.
//! - `LazyArray`: a fixed number of slots, each written at most once.
//! - `SymbolTable`: a string interner whose `Symbol`s compare by identity.
//!
//! Each module states the laws its collection obeys as proof functions.

pub mod append_only_vec;
pub mod lazy_array;
pub mod symbol_table;
mod text_index;

pub use crate::append_only_vec::{AppendOnlyVec, SEGMENT_CAPACITY};
pub use crate::lazy_array::LazyArray;
pub use crate::symbol_table::{Symbol, SymbolTable, LARGE_SYMBOL_THRESHOLD, PAGE_CAPACITY};
