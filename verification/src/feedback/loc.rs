//! Location primitives: a cursor (line and column), a span between two
//! cursors, and a tagged location that diagnostics and tokens carry.

use vstd::prelude::*;

use crate::intern::IntStr;
use crate::source::SourceID;

verus! {

/// A location attached to a diagnostic reference: a single point in a source
/// unit, a span in a source unit, or a built-in item with no file.
#[derive(Debug, Clone, Copy, PartialEq, Eq, Structural)]
pub enum Loc {
    FilePos(SourceID, Cursor),
    FileSpan(SourceID, Span),
    Builtin(IntStr),
}

/// A pair of cursors delimiting a lexeme or a diagnostic reference.
#[derive(Debug, Clone, Copy, PartialEq, Eq, Structural)]
pub struct Span {
    pub first_pos: Cursor,
    pub last_pos: Cursor,
}

/// A position in a source unit: line and column, both 0-based internally
/// and 1-based on display.
#[derive(Debug, Clone, Copy, PartialEq, Eq, Structural)]
pub struct Cursor {
    pub line_index: i32,
    pub column_index: i32,
}

impl Span {
    pub fn new(first_pos: Cursor, last_pos: Cursor) -> (s: Span)
        ensures
            s.first_pos == first_pos,
            s.last_pos == last_pos,
    {
        Span { first_pos, last_pos }
    }

    pub fn first(self) -> (c: Cursor)
        ensures
            c == self.first_pos,
    {
        self.first_pos
    }

    pub fn last(self) -> (c: Cursor)
        ensures
            c == self.last_pos,
    {
        self.last_pos
    }
}

impl Cursor {
    pub fn new(line_index: i32, column_index: i32) -> (c: Cursor)
        ensures
            c.line_index == line_index,
            c.column_index == column_index,
    {
        Cursor { line_index, column_index }
    }

    /// The 1-based line number shown to a user.
    pub fn line(self) -> (l: i32)
        requires
            self.line_index < i32::MAX,
        ensures
            l == 1 + self.line_index,
    {
        1 + self.line_index
    }

    /// The 1-based column number shown to a user.
    pub fn column(self) -> (c: i32)
        requires
            self.column_index < i32::MAX,
        ensures
            c == 1 + self.column_index,
    {
        1 + self.column_index
    }
}

} // verus!
