//! Feedback plumbing: a letterbox that collects reports above a severity
//! threshold, and the display-oriented location model that the top-level
//! error type points into.

use vstd::prelude::*;

pub mod error;

verus! {

pub const SEVERITY_ERROR: i32 = 5;

pub const SEVERITY_WARNING: i32 = 4;

pub const SEVERITY_INFO: i32 = 3;

pub const SEVERITY_DEBUG: i32 = 2;

pub const SEVERITY_TRACE: i32 = 1;

/// Owns the letterbox that reports are posted to.
pub struct FeedbackManager {
    lb: Letterbox,
}

impl FeedbackManager {
    pub closed spec fn letterbox(&self) -> Letterbox {
        self.lb
    }

    pub fn new() -> (m: FeedbackManager)
        ensures
            m.letterbox().letters() == Seq::<Letter>::empty(),
            m.letterbox().threshold_value() == SEVERITY_INFO,
    {
        FeedbackManager { lb: Letterbox::new() }
    }
}

/// Collects letters whose severity reaches the configured threshold.
pub struct Letterbox {
    letters: Vec<Letter>,
    threshold: i32,
}

/// One posted report, kept as prepared message text.
pub struct Letter {
    message: String,
}

impl Letter {
    pub closed spec fn message_view(&self) -> Seq<char> {
        self.message@
    }

    pub fn new(message: String) -> (l: Letter)
        ensures
            l.message_view() == message@,
    {
        Letter { message }
    }

    /// The stored text, for the presentation step to print.
    pub fn message(&self) -> (m: &String)
        ensures
            m@ == self.message_view(),
    {
        &self.message
    }
}

impl Letterbox {
    pub closed spec fn letters(&self) -> Seq<Letter> {
        self.letters@
    }

    pub closed spec fn threshold_value(&self) -> int {
        self.threshold as int
    }

    pub fn new() -> (lb: Letterbox)
        ensures
            lb.letters() == Seq::<Letter>::empty(),
            lb.threshold_value() == SEVERITY_INFO,
    {
        Letterbox::new_with_threshold(SEVERITY_INFO)
    }

    fn new_with_threshold(threshold: i32) -> (lb: Letterbox)
        ensures
            lb.letters() == Seq::<Letter>::empty(),
            lb.threshold_value() == threshold,
    {
        Letterbox { letters: Vec::new(), threshold }
    }

    /// Keeps the letter exactly when its severity reaches the threshold.
    pub fn post(&mut self, severity: i32, letter: Letter)
        ensures
            severity >= old(self).threshold_value() ==> final(self).letters() == old(self).letters().push(letter),
            severity < old(self).threshold_value() ==> final(self).letters() == old(self).letters(),
            final(self).threshold_value() == old(self).threshold_value(),
    {
        if severity >= self.threshold {
            self.letters.push(letter)
        }
    }

    pub fn letter_count(&self) -> (n: usize)
        ensures
            n == self.letters().len(),
    {
        self.letters.len()
    }
}

/// A location within one registered file.
#[derive(Debug, Clone, Copy, PartialEq, Eq, Structural)]
pub struct FileLoc {
    pub file_id: usize,
    pub loc: Loc,
}

/// A display-oriented location: a span or a single position.
#[derive(Debug, Clone, Copy, PartialEq, Eq, Structural)]
pub enum Loc {
    SpanLoc(Span),
    PosLoc(Pos),
}

impl Loc {
    /// The whole-file location: a zero-width span at the origin.
    pub fn new_filewide() -> (l: Loc)
        ensures
            l == Loc::SpanLoc(
                Span {
                    beg: Pos { line_index: 0, column_index: 0 },
                    end: Pos { line_index: 0, column_index: 0 },
                },
            ),
    {
        Loc::SpanLoc(Span::new(Pos::new(0, 0), Pos::new(0, 0)))
    }
}

/// A pair of display positions.
#[derive(Debug, Clone, Copy, PartialEq, Eq, Structural)]
pub struct Span {
    pub beg: Pos,
    pub end: Pos,
}

impl Span {
    pub fn new(beg: Pos, end: Pos) -> (s: Span)
        ensures
            s.beg == beg,
            s.end == end,
    {
        Span { beg, end }
    }
}

/// A display position: 0-based line and column indices.
#[derive(Debug, Clone, Copy, PartialEq, Eq, Structural)]
pub struct Pos {
    pub line_index: usize,
    pub column_index: usize,
}

impl Pos {
    pub fn new(line_index: usize, column_index: usize) -> (p: Pos)
        ensures
            p.line_index == line_index,
            p.column_index == column_index,
    {
        Pos { line_index, column_index }
    }

    pub fn new_default() -> (p: Pos)
        ensures
            p.line_index == 0,
            p.column_index == 0,
    {
        Pos { line_index: 0, column_index: 0 }
    }
}

} // verus!
