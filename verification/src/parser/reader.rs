//! The character reader: owns the decoded character sequence of one source
//! unit and tracks a line/column cursor. The cursor always reflects the
//! position immediately before the next unconsumed character.

use vstd::prelude::*;
use vstd::string::*;

use crate::fb::error::Error;
use crate::fb::error::Message;
use crate::feedback::loc::Cursor;
use crate::feedback::loc::Loc;
use crate::source::SourceID;

verus! {

/// The line index of the position right after the first `n` characters of
/// `text`: line breaks are counted at each line feed; a carriage return by
/// itself moves nothing (it is only ever consumed as part of `\r\n`).
pub open spec fn line_of(text: Seq<char>, n: int) -> int
    decreases n,
{
    if n <= 0 {
        0
    } else if text[n - 1] == '\n' {
        line_of(text, n - 1) + 1
    } else {
        line_of(text, n - 1)
    }
}

/// The column index of the position right after the first `n` characters of
/// `text`: reset by a line feed, unchanged by a carriage return, advanced by
/// anything else.
pub open spec fn col_of(text: Seq<char>, n: int) -> int
    decreases n,
{
    if n <= 0 {
        0
    } else if text[n - 1] == '\n' {
        0
    } else if text[n - 1] == '\r' {
        col_of(text, n - 1)
    } else {
        col_of(text, n - 1) + 1
    }
}

pub proof fn lemma_line_col_bounds(text: Seq<char>, n: int)
    ensures
        0 <= line_of(text, n),
        0 <= col_of(text, n),
        line_of(text, n) <= if n >= 0 { n } else { 0 },
        col_of(text, n) <= if n >= 0 { n } else { 0 },
    decreases n,
{
    if n > 0 {
        lemma_line_col_bounds(text, n - 1);
    }
}

/// The cursor value at character position `p` of `text`.
pub open spec fn cursor_at(text: Seq<char>, p: int) -> Cursor {
    Cursor { line_index: line_of(text, p) as i32, column_index: col_of(text, p) as i32 }
}

/// Where one successful `skip` from position `p` lands: `\r\n` advances as
/// one line break, everything else advances one character, end of input
/// stays put.
pub open spec fn skip_step(text: Seq<char>, p: int) -> int {
    if p >= text.len() {
        p
    } else if text[p] == '\r' && p + 1 < text.len() && text[p + 1] == '\n' {
        p + 2
    } else {
        p + 1
    }
}

/// Whether a `skip` at position `p` reports a diagnostic: a carriage return
/// not immediately followed by a line feed.
pub open spec fn skip_fails(text: Seq<char>, p: int) -> bool {
    p < text.len() && text[p] == '\r' && !(p + 1 < text.len() && text[p + 1] == '\n')
}

/// The character reader for one source unit.
pub struct Reader {
    source_chars: Vec<char>,
    line_index: i32,
    column_index: i32,
    offset: usize,
    source_id: SourceID,
}

impl Reader {
    /// The decoded characters of the source unit.
    pub closed spec fn text(&self) -> Seq<char> {
        self.source_chars@
    }

    /// The position immediately before the next unconsumed character.
    pub closed spec fn pos(&self) -> int {
        self.offset as int
    }

    pub closed spec fn src_id(&self) -> SourceID {
        self.source_id
    }

    /// Whether a character remains to be consumed.
    pub open spec fn has_next(&self) -> bool {
        self.pos() < self.text().len()
    }

    /// The next unconsumed character.
    pub open spec fn next_char(&self) -> char
        recommends
            self.has_next(),
    {
        self.text()[self.pos()]
    }

    /// The cursor matches the consumed prefix, and the text is short enough
    /// for every line and column index to fit its display arithmetic.
    pub open spec fn wf(&self) -> bool {
        &&& 0 <= self.pos() <= self.text().len()
        &&& self.text().len() <= 0x7FFF_FFFE
        &&& self.cursor_ok()
    }

    /// The stored line and column indices agree with the consumed prefix.
    pub closed spec fn cursor_ok(&self) -> bool {
        &&& self.line_index as int == line_of(self.text(), self.pos())
        &&& self.column_index as int == col_of(self.text(), self.pos())
    }

    pub fn new(source_id: SourceID, source_text: String) -> (r: Reader)
        requires
            source_text@.len() <= 0x7FFF_FFFE,
        ensures
            r.wf(),
            r.text() == source_text@,
            r.pos() == 0,
            r.src_id() == source_id,
    {
        let text_ref = source_text.as_str();
        let n = text_ref.unicode_len();
        let mut source_chars: Vec<char> = Vec::new();
        let mut i: usize = 0;
        while i < n
            invariant
                n == text_ref@.len(),
                0 <= i <= n,
                source_chars@ == text_ref@.subrange(0, i as int),
            decreases n - i,
        {
            source_chars.push(text_ref.get_char(i));
            proof {
                assert(source_chars@ =~= text_ref@.subrange(0, i + 1));
            }
            i += 1;
        }
        proof {
            assert(source_chars@ =~= source_text@);
        }
        Reader { source_chars, line_index: 0, column_index: 0, offset: 0, source_id }
    }

    pub fn source(&self) -> (s: SourceID)
        ensures
            s == self.src_id(),
    {
        self.source_id
    }

    pub fn peek(&self) -> (r: Option<char>)
        ensures
            r == if self.has_next() {
                Some(self.next_char())
            } else {
                None::<char>
            },
    {
        if self.offset < self.source_chars.len() {
            Some(self.source_chars[self.offset])
        } else {
            None
        }
    }

    /// Advances one logical character: `\r\n` and `\n` both advance as one
    /// line break resetting the column; a lone carriage return is a
    /// diagnostic; at end of input this is a no-op.
    pub fn skip(&mut self) -> (r: Result<(), Error>)
        requires
            old(self).wf(),
        ensures
            final(self).wf(),
            final(self).text() == old(self).text(),
            final(self).src_id() == old(self).src_id(),
            final(self).pos() == skip_step(old(self).text(), old(self).pos()),
            r is Ok <==> !skip_fails(old(self).text(), old(self).pos()),
            r matches Err(e) ==> cr_diagnostic(e, old(self).src_id(), old(self).text(), old(self).pos() + 1),
    {
        proof {
            lemma_line_col_bounds(self.text(), self.pos() + 1);
            lemma_line_col_bounds(self.text(), self.pos() + 2);
        }
        if let Some(peek1) = self.peek() {
            if peek1 == '\r' {
                self.offset += 1;
                if let Some(peek2) = self.peek() {
                    if peek2 == '\n' {
                        self.offset += 1;
                        self.line_index += 1;
                        self.column_index = 0;
                        return Ok(());
                    }
                }
                let msg = Message::new(
                    String::from_str("Invalid text file: CR without LF immediately after"),
                ).with_ref(
                    String::from_str("CR occurs here"),
                    Loc::FilePos(self.source_id, self.cursor()),
                );
                return Err(Error::new().with_message(msg));
            } else if peek1 == '\n' {
                self.offset += 1;
                self.line_index += 1;
                self.column_index = 0;
            } else {
                self.offset += 1;
                self.column_index += 1;
            }
            Ok(())
        } else {
            Ok(())
        }
    }

    /// Consumes the next character exactly when it equals `c`.
    pub fn match_char(&mut self, c: char) -> (r: Result<bool, Error>)
        requires
            old(self).wf(),
        ensures
            final(self).wf(),
            final(self).text() == old(self).text(),
            final(self).src_id() == old(self).src_id(),
            ({
                let hit = old(self).has_next() && old(self).next_char() == c;
                match r {
                    Ok(b) => {
                        &&& b == hit
                        &&& !skip_fails(old(self).text(), old(self).pos()) || !hit
                        &&& final(self).pos() == if hit {
                            skip_step(old(self).text(), old(self).pos())
                        } else {
                            old(self).pos()
                        }
                    },
                    Err(e) => {
                        &&& hit
                        &&& skip_fails(old(self).text(), old(self).pos())
                        &&& final(self).pos() == old(self).pos() + 1
                        &&& cr_diagnostic(e, old(self).src_id(), old(self).text(), old(self).pos() + 1)
                    },
                }
            }),
    {
        if let Some(peek) = self.peek() {
            if peek == c {
                self.skip()?;
                return Ok(true);
            }
        }
        Ok(false)
    }

    /// Consumes the next character exactly when the predicate accepts it.
    pub fn match_char_if<F: Fn(char) -> bool>(&mut self, cp: F) -> (r: Result<bool, Error>)
        requires
            old(self).wf(),
            forall|c: char| #[trigger] cp.requires((c,)),
        ensures
            final(self).wf(),
            final(self).text() == old(self).text(),
            final(self).src_id() == old(self).src_id(),
            match r {
                Ok(b) => {
                    &&& b ==> old(self).has_next() && call_ensures(
                        cp,
                        (old(self).next_char(),),
                        true,
                    ) && !skip_fails(old(self).text(), old(self).pos()) && final(self).pos()
                        == skip_step(old(self).text(), old(self).pos())
                    &&& !b ==> final(self).pos() == old(self).pos() && (!old(self).has_next()
                        || call_ensures(cp, (old(self).next_char(),), false))
                },
                Err(e) => {
                    &&& old(self).has_next()
                    &&& call_ensures(cp, (old(self).next_char(),), true)
                    &&& skip_fails(old(self).text(), old(self).pos())
                    &&& final(self).pos() == old(self).pos() + 1
                    &&& cr_diagnostic(e, old(self).src_id(), old(self).text(), old(self).pos() + 1)
                },
            },
    {
        if let Some(peek) = self.peek() {
            if cp(peek) {
                self.skip()?;
                return Ok(true);
            }
        }
        Ok(false)
    }

    pub fn at_eof(&self) -> (r: bool)
        ensures
            r == !self.has_next(),
    {
        if let Some(_) = self.peek() {
            false
        } else {
            true
        }
    }

    pub fn cursor(&self) -> (c: Cursor)
        requires
            self.wf(),
        ensures
            c == cursor_at(self.text(), self.pos()),
    {
        Cursor::new(self.line_index, self.column_index)
    }
}

/// The shape of the lone-carriage-return diagnostic: one message, one
/// reference, pointing at the position right after the offending character.
pub open spec fn cr_diagnostic(e: Error, src: SourceID, text: Seq<char>, p: int) -> bool {
    &&& e.messages().len() == 1
    &&& e.messages()[0].text_view() == "Invalid text file: CR without LF immediately after"@
    &&& e.messages()[0].refs() == seq![("CR occurs here"@, Loc::FilePos(src, cursor_at(text, p)))]
}

} // verus!
