//! Core engine of a line-oriented text editor in the tradition of `ed`.
//!
//! The library keeps a document as an ordered sequence of lines, parses the
//! compact `ed`-like command language (addresses, selections, flags), and
//! applies the editing operations with verified bounds checking and
//! selection-update semantics.  Terminal handling and file I/O live outside
//! the library; callers hand in plain line vectors and get plain values back.

pub mod buffer;
pub mod cmd;
pub mod doc_fmt;
pub mod error;
pub mod parse_expressions;
pub mod parse_flags;
pub mod parse_path;
pub mod parse_selection;
pub mod printing;
pub mod substitute;
pub mod re;
pub mod text;

use vstd::prelude::*;

verus! {

} // verus!
