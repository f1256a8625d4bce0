//! The handoff to the renderer: the core produces a resolved selection and
//! flags, the surrounding program draws them.  These two types carry that
//! interface: what to print, and what a print reported back.

use vstd::prelude::*;

verus! {

/// What a renderer reports after printing: the height of the print and
/// where it left the cursor, measured from the bottom left.
pub struct PrintData {
    pub height: u16,
    pub cursor_x: u16,
    pub cursor_y: u16,
}

/// How a selection is to be printed.
pub struct PrintConf {
    /// Prefix character at the start of every line, before any numbering.
    pub prefix: Option<char>,
    /// Position (x, y in the text) to leave the cursor at.
    pub cursor: Option<(usize, usize)>,
    /// Line index of the first printed line, for numbering.
    pub start_line: usize,
    /// Print a line number at the start of every line.
    pub numbered: bool,
    /// Print in literal mode, line ends made visible.
    pub literal: bool,
    /// Print a separator before the text.
    pub separator: bool,
}

impl PrintConf {
    /// The plain configuration: no prefix, no cursor, just the flags the
    /// command carried.
    pub fn new(start_line: usize, numbered: bool, literal: bool) -> (r: PrintConf)
        ensures
            r.prefix is None,
            r.cursor is None,
            r.start_line == start_line,
            r.numbered == numbered,
            r.literal == literal,
            !r.separator,
    {
        PrintConf {
            prefix: None,
            cursor: None,
            start_line,
            numbered,
            literal,
            separator: false,
        }
    }
}

} // verus!
