//! The stable error kinds that every fallible operation of the engine
//! returns.  Callers branch on the kind; rendering a message is left to the
//! surrounding program.

use vstd::prelude::*;

verus! {

/// Everything that can go wrong inside the editor core, as a stable kind.
#[derive(Clone, Copy, Debug, PartialEq, Eq, Structural)]
pub enum EdError {
    /// An index or the end of a selection lies beyond the buffer length.
    IndexTooBig,
    /// A selection is empty or inverted (`start >= end`).
    SelectionEmpty,
    /// The destination of a move lies strictly inside the moved range.
    MoveIntoSelf,
    /// A regex pattern failed to compile.
    InvalidRegex,
    /// An address could not be parsed, or a selection had two separators.
    IndexParse,
    /// No command character was found in the input.
    NoCommand,
    /// A command character was found but is not a known command.
    UndefinedCommand,
    /// A selection was given to a command that takes none.
    SelectionForbidden,
    /// Quit or replace was requested while the buffer has unsaved changes.
    UnsavedChanges,
    /// A substitution expression had fewer parts than required.
    ExpressionTooShort,
    /// A flag character outside the permitted set was given.
    UndefinedFlag,
    /// A flag character was given twice.
    DuplicateFlag,
    /// File access failed: permission denied.
    PermissionDenied,
    /// File access failed: not found.
    NotFound,
    /// File access failed for another reason.
    UnknownIo,
}

} // verus!
