//! The lexer: a pull-based token producer over the character reader,
//! synthesizing end-of-line, indent and dedent tokens from line structure
//! (suppressed inside brackets), with an internal FIFO queue so one scan
//! step may yield several tokens.

use vstd::prelude::*;
use vstd::string::*;

use std::collections::VecDeque;

use crate::fb::error::Error;
use crate::fb::error::Message;
use crate::feedback::loc::Cursor;
use crate::feedback::loc::Loc;
use crate::feedback::loc::Span;
use crate::intern::IntStr;
use crate::intern::Manager;
use crate::intern::interned_id;
use crate::intern::interned_table;
use crate::intern::lemma_interned_table_extends;
use crate::parser::chars::append_str_chars;
use crate::parser::chars::dec_chars;
use crate::parser::chars::dec_digit;
use crate::parser::chars::hex_digit;
use crate::parser::chars::is_dec_digit;
use crate::parser::chars::is_dec_digit_or_underscore;
use crate::parser::chars::is_hex_digit_or_underscore;
use crate::parser::chars::is_space_char;
use crate::parser::chars::is_word_char;
use crate::parser::chars::is_word_start_char;
use crate::parser::chars::push_dec_chars;
use crate::parser::chars::string_from_chars;
use crate::parser::chars::word_char;
use crate::parser::chars::word_start_char;
use crate::parser::model::cmt_err;
use crate::parser::model::cmt_stop;
use crate::parser::model::dcount;
use crate::parser::model::dec_run_end;
use crate::parser::model::escape_of;
use crate::parser::model::hex_run_end;
use crate::parser::model::icount;
use crate::parser::model::ind_end;
use crate::parser::model::indent_width_at;
use crate::parser::model::is_value_word;
use crate::parser::model::is_value_word_from;
use crate::parser::model::keyword_info;
use crate::parser::model::lemma_cmt_stop_bounds;
use crate::parser::model::lemma_dec_run_end;
use crate::parser::model::lemma_hex_run_end;
use crate::parser::model::lemma_ind_end;
use crate::parser::model::lemma_word_end;
use crate::parser::model::open_bracket_info;
use crate::parser::model::close_bracket_info;
use crate::parser::model::lemma_count_push;
use crate::parser::model::lemma_count_nonneg;
use crate::parser::model::lemma_popped_stack;
use crate::parser::model::lemma_skip_comment_err;
use crate::parser::model::lemma_skip_end_bounds;
use crate::parser::model::lemma_skip_end_stop;
use crate::parser::model::lemma_skip_through_comment;
use crate::parser::model::scan_ok;
use crate::parser::model::scan_toks;
use crate::parser::model::state_done;
use crate::parser::model::state_errs;
use crate::parser::model::state_wf;
use crate::parser::model::step_errs_at;
use crate::parser::model::step_next;
use crate::parser::model::step_toks;
use crate::parser::model::with_keywords;
use crate::parser::model::ScanState;
use crate::parser::token::token_view;
use crate::parser::token::views_of;
use crate::parser::token::lemma_views_of;
use crate::parser::token::TokenView;
use crate::parser::model::num_end;
use crate::parser::model::num_errs;
use crate::parser::model::num_exponent;
use crate::parser::model::num_has_frac;
use crate::parser::model::num_int_end;
use crate::parser::model::num_is_float;
use crate::parser::model::num_is_hex;
use crate::parser::model::num_mant_end;
use crate::parser::model::num_mantissa;
use crate::parser::model::popped_stack;
use crate::parser::model::punct_info;
use crate::parser::model::punct_len;
use crate::parser::model::skip_end;
use crate::parser::model::skip_err;
use crate::parser::model::stack_step;
use crate::parser::model::stack_step_errs;
use crate::parser::model::stack_wf;
use crate::parser::model::step_dedents;
use crate::parser::model::step_indents;
use crate::parser::model::str_content;
use crate::parser::model::width_of;
use crate::parser::model::str_end;
use crate::parser::model::str_errs;
use crate::parser::model::str_hits_eof;
use crate::parser::model::str_fail_at;
use crate::parser::model::step_diag_rel;
use crate::parser::model::fail_state;
use crate::parser::reader::cr_diagnostic;
use crate::parser::model::word_end;
use crate::parser::model::word_info;
use crate::parser::reader::Reader;
use crate::parser::reader::cursor_at;
use crate::parser::token::IntegerFormat;
use crate::parser::token::Token;
use crate::parser::token::TokenInfo;
use crate::source::SourceID;

verus! {

/// Where the lexer's cursor stands: before the first token, on a lookahead
/// token, or past the last one.
pub enum CursorState {
    StartOfFile,
    EndOfFile,
    InFile(Token),
}

/// The lexer for one source unit. It owns the interner for the duration of
/// the scan; `interner` and `into_interner` give it back.
pub struct Lexer {
    reader: Reader,
    intern_manager: Manager,
    cursor_state: CursorState,
    token_queue: VecDeque<Token>,
    indent_width_stack: Vec<u64>,
    matching_token_pair_expectation_stack: Vec<(Span, char)>,
    keyword_ids: Vec<IntStr>,
    tab_width_in_spaces: i32,
    served_indent_count: Ghost<int>,
    served_dedent_count: Ghost<int>,
}

impl Lexer {
    // -----------------------------------------------------------------------
    // Views
    // -----------------------------------------------------------------------
    pub closed spec fn text(&self) -> Seq<char> {
        self.reader.text()
    }

    pub closed spec fn pos(&self) -> int {
        self.reader.pos()
    }

    pub closed spec fn src(&self) -> SourceID {
        self.reader.src_id()
    }

    pub closed spec fn queue(&self) -> Seq<Token> {
        self.token_queue@
    }

    pub closed spec fn indents(&self) -> Seq<u64> {
        self.indent_width_stack@
    }

    pub closed spec fn brackets(&self) -> Seq<(Span, char)> {
        self.matching_token_pair_expectation_stack@
    }

    pub closed spec fn state(&self) -> CursorState {
        self.cursor_state
    }

    pub closed spec fn interned(&self) -> Seq<Seq<char>> {
        self.intern_manager.strings()
    }

    pub closed spec fn tab_width(&self) -> int {
        self.tab_width_in_spaces as int
    }

    /// Indent tokens handed to the caller so far.
    pub closed spec fn served_indents(&self) -> int {
        self.served_indent_count@
    }

    /// Dedent tokens handed to the caller so far.
    pub closed spec fn served_dedents(&self) -> int {
        self.served_dedent_count@
    }

    /// The current lookahead token, if the cursor is on one.
    pub open spec fn peek_spec(&self) -> Option<Token> {
        match self.state() {
            CursorState::InFile(t) => Some(t),
            _ => None,
        }
    }

    pub open spec fn state_rank(&self) -> int {
        match self.state() {
            CursorState::StartOfFile => 2,
            CursorState::InFile(_) => 1,
            CursorState::EndOfFile => 0,
        }
    }

    // -----------------------------------------------------------------------
    // Invariants
    // -----------------------------------------------------------------------
    /// One keyword table entry: the handle is valid and names the keyword.
    spec fn kw_entry(&self, k: int, w: Seq<char>) -> bool {
        &&& 0 <= self.keyword_ids@[k].sid() < self.interned().len()
        &&& self.interned()[self.keyword_ids@[k].sid()] == w
    }

    spec fn kw_map_ok(&self) -> bool {
        &&& self.keyword_ids@.len() == 6
        &&& self.kw_entry(0, "self"@)
        &&& self.kw_entry(1, "Self"@)
        &&& self.kw_entry(2, "in"@)
        &&& self.kw_entry(3, "mut"@)
        &&& self.kw_entry(4, "weak"@)
        &&& self.kw_entry(5, "use"@)
    }

    /// The structural invariant: reader, interner, keyword table and indent
    /// stack are each well formed.
    spec fn swf(&self) -> bool {
        &&& self.reader.wf()
        &&& self.intern_manager.wf()
        &&& self.kw_map_ok()
        &&& stack_wf(self.indents())
        &&& self.tab_width_in_spaces >= 0
        &&& (self.state() is EndOfFile ==> self.queue().len() == 0 && self.indents().len() == 1
            && self.brackets().len() == 0 && self.pos() == self.text().len())
    }

    /// Indent and dedent tokens not yet handed out: those queued plus the
    /// lookahead slot.
    spec fn pend_indents(&self) -> int {
        icount(self.queue()) + match self.state() {
            CursorState::InFile(t) => if t.info is Indent {
                1int
            } else {
                0int
            },
            _ => 0,
        }
    }

    spec fn pend_dedents(&self) -> int {
        dcount(self.queue()) + match self.state() {
            CursorState::InFile(t) => if t.info is Dedent {
                1int
            } else {
                0int
            },
            _ => 0,
        }
    }

    /// The balance accounting: indents handed out or pending exceed dedents
    /// handed out or pending by exactly the open indentation levels.
    spec fn balance_ok(&self) -> bool {
        self.served_indents() + self.pend_indents() == self.served_dedents()
            + self.pend_dedents() + self.indents().len() - 1
    }

    /// The lexer's public well-formedness.
    pub closed spec fn wf(&self) -> bool {
        self.swf() && self.balance_ok()
    }

    // -----------------------------------------------------------------------
    // Small helpers
    // -----------------------------------------------------------------------
    /// The span from `first_pos` to the current cursor.
    fn span(&self, first_pos: Cursor) -> (s: Span)
        requires
            self.swf(),
        ensures
            s == (Span { first_pos, last_pos: cursor_at(self.text(), self.pos()) }),
    {
        Span::new(first_pos, self.reader.cursor())
    }

    fn enqueue_token(&mut self, token: Token)
        requires
            old(self).swf(),
            !(old(self).state() is EndOfFile),
        ensures
            final(self).swf(),
            *final(self) == (Lexer { token_queue: final(self).token_queue, ..*old(self) }),
            final(self).queue() == old(self).queue().push(token),
    {
        self.token_queue.push_back(token);
    }

    fn dequeue_token(&mut self) -> (r: Option<Token>)
        requires
            old(self).swf(),
        ensures
            final(self).swf(),
            *final(self) == (Lexer { token_queue: final(self).token_queue, ..*old(self) }),
            match r {
                Some(t) => old(self).queue().len() > 0 && t == old(self).queue()[0] && final(self).queue() == old(self).queue().drop_first(),
                None => old(self).queue().len() == 0 && final(self).queue() == old(self).queue(),
            },
    {
        let r = self.token_queue.pop_front();
        proof {
            if old(self).queue().len() > 0 {
                assert(self.queue() =~= old(self).queue().drop_first());
            }
        }
        r
    }

    /// Builds the keyword table, interning each reserved word once.
    fn new_keyword_map(intern_manager: &mut Manager) -> (ids: Vec<IntStr>)
        requires
            old(intern_manager).wf(),
        ensures
            final(intern_manager).wf(),
            final(intern_manager).strings() == with_keywords(old(intern_manager).strings()),
            old(intern_manager).strings().len() <= final(intern_manager).strings().len(),
            forall|j: int|
                0 <= j < old(intern_manager).strings().len() ==> final(intern_manager).strings()[j] == old(intern_manager).strings()[j],
            ids@.len() == 6,
            kw_ids_ok(ids@, final(intern_manager).strings()),
    {
        let mut ids: Vec<IntStr> = Vec::new();
        let i0 = intern_manager.intern(String::from_str("self"));
        let ghost t0 = intern_manager.strings();
        let i1 = intern_manager.intern(String::from_str("Self"));
        let ghost t1 = intern_manager.strings();
        let i2 = intern_manager.intern(String::from_str("in"));
        let ghost t2 = intern_manager.strings();
        let i3 = intern_manager.intern(String::from_str("mut"));
        let ghost t3 = intern_manager.strings();
        let i4 = intern_manager.intern(String::from_str("weak"));
        let ghost t4 = intern_manager.strings();
        let i5 = intern_manager.intern(String::from_str("use"));
        ids.push(i0);
        ids.push(i1);
        ids.push(i2);
        ids.push(i3);
        ids.push(i4);
        ids.push(i5);
        proof {
            lemma_interned_table_extends(t0, "Self"@);
            lemma_interned_table_extends(t1, "in"@);
            lemma_interned_table_extends(t2, "mut"@);
            lemma_interned_table_extends(t3, "weak"@);
            lemma_interned_table_extends(t4, "use"@);
            lemma_interned_table_extends(old(intern_manager).strings(), "self"@);
        }
        ids
    }

    /// Looks a word's handle up in the keyword table.
    fn keyword_lookup(&self, id: IntStr, ghost_word: Ghost<Seq<char>>) -> (r: Option<TokenInfo>)
        requires
            self.swf(),
            0 <= id.sid() < self.interned().len(),
            self.interned()[id.sid()] == ghost_word@,
        ensures
            r == keyword_info(ghost_word@),
    {
        let w: Ghost<Seq<char>> = ghost_word;
        if id.eq_id(&self.keyword_ids[0]) {
            proof {
                assert(self.interned()[id.sid()] == "self"@);
            }
            Some(TokenInfo::ValueSelfKeyword)
        } else if id.eq_id(&self.keyword_ids[1]) {
            Some(TokenInfo::TypeSelfKeyword)
        } else if id.eq_id(&self.keyword_ids[2]) {
            Some(TokenInfo::InKeyword)
        } else if id.eq_id(&self.keyword_ids[3]) {
            Some(TokenInfo::MutKeyword)
        } else if id.eq_id(&self.keyword_ids[4]) {
            Some(TokenInfo::WeakKeyword)
        } else if id.eq_id(&self.keyword_ids[5]) {
            Some(TokenInfo::UseKeyword)
        } else {
            proof {
                let tab = self.interned();
                assert forall|k: int| 0 <= k < 6 implies tab[self.keyword_ids@[k].sid()]
                    != w@ by {
                    assert(id.sid() != self.keyword_ids@[k].sid());
                }
            }
            None
        }
    }
}

impl Lexer {
    // -----------------------------------------------------------------------
    // Frames: what a scanning helper leaves untouched
    // -----------------------------------------------------------------------
    /// Text, source, tab width, cursor state and served counts unchanged.
    spec fn keeps_ctx(&self, post: &Lexer) -> bool {
        &&& post.text() == self.text()
        &&& post.src() == self.src()
        &&& post.tab_width() == self.tab_width()
        &&& post.state() == self.state()
        &&& post.served_indents() == self.served_indents()
        &&& post.served_dedents() == self.served_dedents()
    }

    /// Queue, both stacks and the interner unchanged.
    spec fn keeps_stacks(&self, post: &Lexer) -> bool {
        &&& post.queue() == self.queue()
        &&& post.indents() == self.indents()
        &&& post.brackets() == self.brackets()
        &&& post.interned() == self.interned()
    }

    // -----------------------------------------------------------------------
    // Scan-step priority 1: spaces, tabs, comments, bracketed newlines
    // -----------------------------------------------------------------------
    /// Reads a `#` comment body up to — not including — the terminating
    /// newline.
    fn skip_any_bytes_until_newline(&mut self) -> (r: Result<(), Error>)
        requires
            old(self).swf(),
        ensures
            final(self).swf(),
            old(self).keeps_ctx(final(self)),
            old(self).keeps_stacks(final(self)),
            final(self).pos() >= old(self).pos(),
            match r {
                Ok(()) => !cmt_err(old(self).text(), old(self).pos()) && final(self).pos()
                    == cmt_stop(old(self).text(), old(self).pos()),
                Err(_) => cmt_err(old(self).text(), old(self).pos()),
            },
    {
        let ghost text = self.text();
        let ghost p0 = self.pos();
        let mut stopped = false;
        while !stopped
            invariant
                self.swf(),
                old(self).keeps_ctx(&self),
                old(self).keeps_stacks(&self),
                p0 == old(self).pos(),
                text == old(self).text(),
                p0 <= self.pos() <= text.len(),
                text == self.text(),
                cmt_stop(text, self.pos()) == cmt_stop(text, p0),
                cmt_err(text, self.pos()) == cmt_err(text, p0),
                stopped ==> self.pos() == cmt_stop(text, p0) && !cmt_err(text, p0),
            decreases text.len() - self.pos(), if stopped {
                0int
            } else {
                1int
            },
        {
            let not_newline = |c: char| -> (r: bool)
                ensures
                    r == (c != '\n'),
                {
                    c != '\n'
                };
            let more = self.reader.match_char_if(not_newline)?;
            if !more {
                stopped = true;
            }
        }
        Ok(())
    }

    /// Skips spaces, tabs and `#` line comments; while a bracket is
    /// pending, interior newlines are skipped too.
    fn skip_any_spaces_and_line_comments(&mut self) -> (r: Result<(), Error>)
        requires
            old(self).swf(),
        ensures
            final(self).swf(),
            old(self).keeps_ctx(final(self)),
            old(self).keeps_stacks(final(self)),
            final(self).pos() >= old(self).pos(),
            ({
                let b = old(self).brackets().len() > 0;
                match r {
                    Ok(()) => !skip_err(old(self).text(), old(self).pos(), b, false) && final(self).pos() == skip_end(old(self).text(), old(self).pos(), b, false),
                    Err(_) => skip_err(old(self).text(), old(self).pos(), b, false),
                }
            }),
    {
        let ghost text = self.text();
        let ghost p0 = self.pos();
        let ghost b = old(self).brackets().len() > 0;
        let mut stopped = false;
        while !stopped
            invariant
                self.swf(),
                old(self).keeps_ctx(&self),
                old(self).keeps_stacks(&self),
                b == (self.brackets().len() > 0),
                p0 == old(self).pos(),
                text == old(self).text(),
                p0 <= self.pos() <= text.len(),
                text == self.text(),
                skip_end(text, self.pos(), b, false) == skip_end(text, p0, b, false),
                skip_err(text, self.pos(), b, false) == skip_err(text, p0, b, false),
                stopped ==> self.pos() == skip_end(text, p0, b, false) && !skip_err(
                    text,
                    p0,
                    b,
                    false,
                ),
            decreases text.len() - self.pos(), if stopped {
                0int
            } else {
                1int
            },
        {
            let ghost p = self.pos();
            if self.reader.match_char(' ')? {
            } else if self.reader.match_char('\t')? {
            } else if self.reader.match_char('#')? {
                proof {
                    assert(skip_end(text, p, b, false) == skip_end(text, p + 1, b, true));
                }
                let ghost pc = self.pos();
                match self.skip_any_bytes_until_newline() {
                    Ok(()) => {
                        proof {
                            lemma_skip_through_comment(text, pc, b);
                        }
                    },
                    Err(e) => {
                        proof {
                            lemma_skip_comment_err(text, pc, b);
                        }
                        return Err(e);
                    },
                }
                if self.matching_token_pair_expectation_stack.len() == 0 {
                    proof {
                        lemma_cmt_stop_bounds(text, pc);
                    }
                    stopped = true;
                }
            } else if self.matching_token_pair_expectation_stack.len() > 0 && self.reader
                .match_char('\n')? {
            } else {
                stopped = true;
            }
        }
        Ok(())
    }

    // -----------------------------------------------------------------------
    // Scan-step priority 4: punctuation and operators, longest match first
    // -----------------------------------------------------------------------
    fn scan_punctuation(&mut self) -> (r: Result<Option<Token>, Error>)
        requires
            old(self).swf(),
        ensures
            final(self).swf(),
            old(self).keeps_ctx(final(self)),
            old(self).keeps_stacks(final(self)),
            r is Ok,
            final(self).pos() >= old(self).pos(),
            match r {
                Ok(opt) => match opt {
                    None => punct_len(old(self).text(), old(self).pos()) == 0 && final(self).pos()
                        == old(self).pos(),
                    Some(t) => {
                        &&& punct_len(old(self).text(), old(self).pos()) > 0
                        &&& final(self).pos() == old(self).pos() + punct_len(
                            old(self).text(),
                            old(self).pos(),
                        )
                        &&& t == (Token {
                            span: Span {
                                first_pos: cursor_at(old(self).text(), old(self).pos()),
                                last_pos: cursor_at(old(self).text(), final(self).pos()),
                            },
                            info: punct_info(old(self).text(), old(self).pos()),
                        })
                    },
                },
                Err(_) => false,
            },
    {
        let first_pos = self.reader.cursor();
        if self.reader.match_char('.')? {
            return Ok(Some(Token::new(self.span(first_pos), TokenInfo::Period)));
        }
        if self.reader.match_char(',')? {
            return Ok(Some(Token::new(self.span(first_pos), TokenInfo::Comma)));
        }
        if self.reader.match_char(':')? {
            if self.reader.match_char('=')? {
                return Ok(Some(Token::new(self.span(first_pos), TokenInfo::Update)));
            } else {
                return Ok(Some(Token::new(self.span(first_pos), TokenInfo::Colon)));
            }
        }
        if self.reader.match_char('<')? {
            if self.reader.match_char('<')? {
                return Ok(Some(Token::new(self.span(first_pos), TokenInfo::LeftShift)));
            } else if self.reader.match_char('=')? {
                return Ok(Some(Token::new(self.span(first_pos), TokenInfo::LessThanOrEquals)));
            } else {
                return Ok(Some(Token::new(self.span(first_pos), TokenInfo::LessThan)));
            }
        }
        if self.reader.match_char('>')? {
            if self.reader.match_char('>')? {
                return Ok(Some(Token::new(self.span(first_pos), TokenInfo::RightShift)));
            } else if self.reader.match_char('=')? {
                return Ok(Some(Token::new(self.span(first_pos), TokenInfo::GreaterThanOrEquals)));
            } else {
                return Ok(Some(Token::new(self.span(first_pos), TokenInfo::GreaterThan)));
            }
        }
        if self.reader.match_char('=')? {
            if self.reader.match_char('=')? {
                return Ok(Some(Token::new(self.span(first_pos), TokenInfo::Equals)));
            } else {
                return Ok(Some(Token::new(self.span(first_pos), TokenInfo::Assign)));
            }
        }
        if self.reader.match_char('!')? {
            if self.reader.match_char('=')? {
                return Ok(Some(Token::new(self.span(first_pos), TokenInfo::NotEquals)));
            } else {
                return Ok(Some(Token::new(self.span(first_pos), TokenInfo::ExclamationPoint)));
            }
        }
        if self.reader.match_char('*')? {
            return Ok(Some(Token::new(self.span(first_pos), TokenInfo::Asterisk)));
        }
        if self.reader.match_char('/')? {
            if self.reader.match_char('/')? {
                return Ok(Some(Token::new(self.span(first_pos), TokenInfo::Quotient)));
            } else {
                return Ok(Some(Token::new(self.span(first_pos), TokenInfo::Divide)));
            }
        }
        if self.reader.match_char('%')? {
            return Ok(Some(Token::new(self.span(first_pos), TokenInfo::Modulo)));
        }
        if self.reader.match_char('+')? {
            return Ok(Some(Token::new(self.span(first_pos), TokenInfo::Plus)));
        }
        if self.reader.match_char('-')? {
            return Ok(Some(Token::new(self.span(first_pos), TokenInfo::Minus)));
        }
        if self.reader.match_char('&')? {
            if self.reader.match_char('&')? {
                return Ok(Some(Token::new(self.span(first_pos), TokenInfo::LogicalAnd)));
            } else {
                return Ok(Some(Token::new(self.span(first_pos), TokenInfo::BitwiseAnd)));
            }
        }
        if self.reader.match_char('|')? {
            if self.reader.match_char('|')? {
                return Ok(Some(Token::new(self.span(first_pos), TokenInfo::LogicalOr)));
            } else {
                return Ok(Some(Token::new(self.span(first_pos), TokenInfo::BitwiseOr)));
            }
        }
        if self.reader.match_char('^')? {
            return Ok(Some(Token::new(self.span(first_pos), TokenInfo::BitwiseXOr)));
        }
        Ok(None)
    }

    // -----------------------------------------------------------------------
    // Scan-step priority 3: brackets
    // -----------------------------------------------------------------------
    fn try_scan_opening_char(
        &mut self,
        opening_char: char,
        opening_token_info: TokenInfo,
        closing_char: char,
    ) -> (r: Result<Option<Token>, Error>)
        requires
            old(self).swf(),
            !(old(self).state() is EndOfFile),
            opening_char != '\r',
        ensures
            final(self).swf(),
            old(self).keeps_ctx(final(self)),
            final(self).queue() == old(self).queue(),
            final(self).indents() == old(self).indents(),
            final(self).interned() == old(self).interned(),
            r is Ok,
            final(self).pos() >= old(self).pos(),
            match r {
                Ok(opt) => match opt {
                    None => {
                        &&& !(old(self).pos() < old(self).text().len() && old(self).text()[old(self).pos()] == opening_char)
                        &&& final(self).pos() == old(self).pos()
                        &&& final(self).brackets() == old(self).brackets()
                    },
                    Some(t) => {
                        &&& old(self).pos() < old(self).text().len()
                        &&& old(self).text()[old(self).pos()] == opening_char
                        &&& final(self).pos() == old(self).pos() + 1
                        &&& t == (Token {
                            span: Span {
                                first_pos: cursor_at(old(self).text(), old(self).pos()),
                                last_pos: cursor_at(old(self).text(), old(self).pos() + 1),
                            },
                            info: opening_token_info,
                        })
                        &&& final(self).brackets() == old(self).brackets().push(
                            (t.spec_span(), closing_char),
                        )
                    },
                },
                Err(_) => false,
            },
    {
        let first_pos = self.reader.cursor();
        if self.reader.match_char(opening_char)? {
            let sp = self.span(first_pos);
            self.matching_token_pair_expectation_stack.push((sp, closing_char));
            Ok(Some(Token::new(sp, opening_token_info)))
        } else {
            Ok(None)
        }
    }

    fn try_scan_closing_char(
        &mut self,
        closing_char: char,
        closing_token_info: TokenInfo,
        opening_char: char,
    ) -> (r: Result<Option<Token>, Error>)
        requires
            old(self).swf(),
            !(old(self).state() is EndOfFile),
            closing_char != '\r',
        ensures
            final(self).swf(),
            old(self).keeps_ctx(final(self)),
            final(self).queue() == old(self).queue(),
            final(self).indents() == old(self).indents(),
            final(self).interned() == old(self).interned(),
            final(self).pos() >= old(self).pos(),
            ({
                let text = old(self).text();
                let p = old(self).pos();
                let hit = p < text.len() && text[p] == closing_char;
                let sp = Span { first_pos: cursor_at(text, p), last_pos: cursor_at(text, p + 1) };
                match r {
                    Ok(opt) => match opt {
                        None => !hit && final(self).pos() == p && final(self).brackets() == old(self).brackets(),
                        Some(t) => {
                            &&& hit
                            &&& old(self).brackets().len() > 0
                            &&& old(self).brackets().last().1 == closing_char
                            &&& final(self).brackets() == old(self).brackets().drop_last()
                            &&& final(self).pos() == p + 1
                            &&& t == (Token { span: sp, info: closing_token_info })
                        },
                    },
                    Err(e) => {
                        &&& hit
                        &&& final(self).pos() == p + 1
                        &&& e.messages().len() == 1
                        &&& if old(self).brackets().len() == 0 {
                            &&& final(self).brackets() == old(self).brackets()
                            &&& e.messages()[0].text_view() == "Before '"@ + seq![closing_char]
                                + "', expected complementary '"@ + seq![opening_char] + "'"@
                            &&& e.messages()[0].refs() == seq![
                                ("see"@, Loc::FileSpan(old(self).src(), sp)),
                            ]
                        } else {
                            &&& old(self).brackets().last().1 != closing_char
                            &&& final(self).brackets() == old(self).brackets().drop_last()
                            &&& e.messages()[0].text_view() == "Before '"@ + seq![closing_char]
                                + "', expected '"@ + seq![old(self).brackets().last().1] + "'"@
                            &&& e.messages()[0].refs() == seq![
                                (
                                    "opened here"@,
                                    Loc::FileSpan(old(self).src(), old(self).brackets().last().0),
                                ),
                                ("see"@, Loc::FileSpan(old(self).src(), sp)),
                            ]
                        }
                    },
                }
            }),
    {
        let first_pos = self.reader.cursor();
        if self.reader.match_char(closing_char)? {
            let sp = self.span(first_pos);
            match self.matching_token_pair_expectation_stack.pop() {
                Some((opening_paren_span, expected_char)) => {
                    if closing_char == expected_char {
                        Ok(Some(Token::new(sp, closing_token_info)))
                    } else {
                        let mut text_chars: Vec<char> = Vec::new();
                        append_str_chars(&mut text_chars, "Before '");
                        text_chars.push(closing_char);
                        append_str_chars(&mut text_chars, "', expected '");
                        text_chars.push(expected_char);
                        append_str_chars(&mut text_chars, "'");
                        let msg = Message::new(string_from_chars(&text_chars)).with_ref(
                            String::from_str("opened here"),
                            Loc::FileSpan(self.reader.source(), opening_paren_span),
                        ).with_ref(
                            String::from_str("see"),
                            Loc::FileSpan(self.reader.source(), sp),
                        );
                        proof {
                            assert(text_chars@ =~= "Before '"@ + seq![closing_char]
                                + "', expected '"@ + seq![expected_char] + "'"@);
                        }
                        Err(Error::new().with_message(msg))
                    }
                },
                None => {
                    let mut text_chars: Vec<char> = Vec::new();
                    append_str_chars(&mut text_chars, "Before '");
                    text_chars.push(closing_char);
                    append_str_chars(&mut text_chars, "', expected complementary '");
                    text_chars.push(opening_char);
                    append_str_chars(&mut text_chars, "'");
                    let msg = Message::new(string_from_chars(&text_chars)).with_ref(
                        String::from_str("see"),
                        Loc::FileSpan(self.reader.source(), sp),
                    );
                    proof {
                        assert(text_chars@ =~= "Before '"@ + seq![closing_char]
                            + "', expected complementary '"@ + seq![opening_char] + "'"@);
                    }
                    Err(Error::new().with_message(msg))
                },
            }
        } else {
            Ok(None)
        }
    }

    fn try_scan_paren_bracket_brace(&mut self) -> (r: Result<Option<Token>, Error>)
        requires
            old(self).swf(),
            !(old(self).state() is EndOfFile),
        ensures
            final(self).swf(),
            old(self).keeps_ctx(final(self)),
            final(self).queue() == old(self).queue(),
            final(self).indents() == old(self).indents(),
            final(self).interned() == old(self).interned(),
            final(self).pos() >= old(self).pos(),
            ({
                let text = old(self).text();
                let p = old(self).pos();
                let sp = Span { first_pos: cursor_at(text, p), last_pos: cursor_at(text, p + 1) };
                match r {
                    Ok(opt) => match opt {
                        None => {
                            &&& final(self).pos() == p
                            &&& final(self).brackets() == old(self).brackets()
                            &&& !(p < text.len() && (open_bracket_info(text[p]) is Some
                                || close_bracket_info(text[p]) is Some))
                        },
                        Some(t) => {
                            &&& p < text.len()
                            &&& final(self).pos() == p + 1
                            &&& t.spec_span() == sp
                            &&& match open_bracket_info(text[p]) {
                                Some((info, cc)) => t.spec_info() == info && final(self).brackets()
                                    == old(self).brackets().push((sp, cc)),
                                None => {
                                    &&& close_bracket_info(text[p]) matches Some((info, _))
                                        && t.spec_info() == info
                                    &&& old(self).brackets().len() > 0
                                    &&& old(self).brackets().last().1 == text[p]
                                    &&& final(self).brackets() == old(self).brackets().drop_last()
                                },
                            }
                        },
                    },
                    Err(e) => {
                        &&& p < text.len()
                        &&& close_bracket_info(text[p]) is Some
                        &&& (old(self).brackets().len() == 0 || old(self).brackets().last().1
                            != text[p])
                        &&& e.messages().len() == 1
                        &&& if old(self).brackets().len() == 0 {
                            &&& e.messages()[0].text_view() == "Before '"@ + seq![text[p]]
                                + "', expected complementary '"@ + seq![
                                close_bracket_info(text[p]).unwrap().1,
                            ] + "'"@
                            &&& e.messages()[0].refs() == seq![
                                ("see"@, Loc::FileSpan(old(self).src(), sp)),
                            ]
                        } else {
                            &&& e.messages()[0].text_view() == "Before '"@ + seq![text[p]]
                                + "', expected '"@ + seq![old(self).brackets().last().1] + "'"@
                            &&& e.messages()[0].refs() == seq![
                                (
                                    "opened here"@,
                                    Loc::FileSpan(old(self).src(), old(self).brackets().last().0),
                                ),
                                ("see"@, Loc::FileSpan(old(self).src(), sp)),
                            ]
                        }
                    },
                }
            }),
    {
        if let Some(token) = self.try_scan_opening_char('(', TokenInfo::LeftParenthesis, ')')? {
            return Ok(Some(token));
        }
        if let Some(token) = self.try_scan_opening_char('[', TokenInfo::LeftSquareBracket, ']')? {
            return Ok(Some(token));
        }
        if let Some(token) = self.try_scan_opening_char('{', TokenInfo::LeftCurlyBrace, '}')? {
            return Ok(Some(token));
        }
        if let Some(token) = self.try_scan_closing_char(')', TokenInfo::RightParenthesis, '(')? {
            return Ok(Some(token));
        }
        if let Some(token) = self.try_scan_closing_char(']', TokenInfo::RightSquareBracket, '[')? {
            return Ok(Some(token));
        }
        if let Some(token) = self.try_scan_closing_char('}', TokenInfo::RightCurlyBrace, '{')? {
            return Ok(Some(token));
        }
        Ok(None)
    }
}

impl Lexer {
    // -----------------------------------------------------------------------
    // Scan-step priority 5: identifiers and keywords
    // -----------------------------------------------------------------------
    /// Scanning left to right, the first cased letter decides the
    /// classification; a word with no cased letter is a value identifier.
    fn is_value_identifier_chars(chars: &Vec<char>) -> (r: bool)
        ensures
            r == is_value_word(chars@),
    {
        let n = chars.len();
        let mut i: usize = 0;
        while i < n
            invariant
                n == chars@.len(),
                0 <= i <= n,
                is_value_word(chars@) == is_value_word_from(chars@, i as int),
            decreases n - i,
        {
            if crate::parser::chars::ascii_upper(chars[i]) {
                return false;
            }
            if crate::parser::chars::ascii_lower(chars[i]) {
                return true;
            }
            i += 1;
        }
        true
    }

    /// Interns the scanned word and classifies it: keyword table hit first,
    /// else value or type identifier by the first cased letter.
    fn new_word_token(&mut self, first_pos: Cursor, id_chars: Vec<char>) -> (t: Token)
        requires
            old(self).swf(),
        ensures
            final(self).swf(),
            old(self).keeps_ctx(final(self)),
            final(self).pos() == old(self).pos(),
            final(self).queue() == old(self).queue(),
            final(self).indents() == old(self).indents(),
            final(self).brackets() == old(self).brackets(),
            final(self).interned() == interned_table(old(self).interned(), id_chars@),
            0 <= interned_id(old(self).interned(), id_chars@) <= usize::MAX,
            t.spec_span() == (Span {
                first_pos,
                last_pos: cursor_at(old(self).text(), old(self).pos()),
            }),
            t.spec_info() == word_info(
                id_chars@,
                (IntStr { id: interned_id(old(self).interned(), id_chars@) as usize }),
            ),
    {
        let ghost w = id_chars@;
        let id_is_value = Self::is_value_identifier_chars(&id_chars);
        let id_string = string_from_chars(&id_chars);
        let id_intstr = self.intern_manager.intern(id_string);
        proof {
            lemma_interned_table_extends(old(self).interned(), w);
        }
        let kw = self.keyword_lookup(id_intstr, Ghost(w));
        let info = match kw {
            Some(kw_token_info) => kw_token_info,
            None => if id_is_value {
                TokenInfo::ValueIdentifier(id_intstr)
            } else {
                TokenInfo::TypeIdentifier(id_intstr)
            },
        };
        Token::new(self.span(first_pos), info)
    }

    fn scan_word(&mut self) -> (r: Result<Option<Token>, Error>)
        requires
            old(self).swf(),
        ensures
            final(self).swf(),
            old(self).keeps_ctx(final(self)),
            final(self).queue() == old(self).queue(),
            final(self).indents() == old(self).indents(),
            final(self).brackets() == old(self).brackets(),
            r is Ok,
            final(self).pos() >= old(self).pos(),
            ({
                let text = old(self).text();
                let p = old(self).pos();
                match r {
                    Ok(opt) => match opt {
                        None => {
                            &&& !(p < text.len() && is_word_start_char(text[p]))
                            &&& final(self).pos() == p
                            &&& final(self).interned() == old(self).interned()
                        },
                        Some(t) => {
                            let e = word_end(text, p);
                            let w = text.subrange(p, e);
                            &&& p < text.len() && is_word_start_char(text[p])
                            &&& 0 <= interned_id(old(self).interned(), w) <= usize::MAX
                            &&& final(self).pos() == e > p
                            &&& final(self).interned() == interned_table(old(self).interned(), w)
                            &&& t.spec_span() == (Span {
                                first_pos: cursor_at(text, p),
                                last_pos: cursor_at(text, e),
                            })
                            &&& t.spec_info() == word_info(
                                w,
                                (IntStr { id: interned_id(old(self).interned(), w) as usize }),
                            )
                        },
                    },
                    Err(_) => false,
                }
            }),
    {
        let ghost text = self.text();
        let ghost p0 = self.pos();
        let first_pos = self.reader.cursor();
        let opt_first_char = self.reader.peek();
        let is_start = |c: char| -> (r: bool)
            ensures
                r == is_word_start_char(c),
            {
                word_start_char(c)
            };
        if self.reader.match_char_if(is_start)? {
            proof {
                lemma_word_end(text, p0);
            }
            let first_char = if let Some(c) = opt_first_char {
                c
            } else {
                proof {
                    assert(false);
                }
                ' '
            };
            let mut chars: Vec<char> = Vec::new();
            chars.push(first_char);
            proof {
                assert(chars@ =~= text.subrange(p0, p0 + 1));
            }
            let mut stopped = false;
            while !stopped
                invariant
                    self.swf(),
                    old(self).keeps_ctx(&self),
                    old(self).keeps_stacks(&self),
                    text == old(self).text(),
                    p0 == old(self).pos(),
                    text == self.text(),
                    p0 + 1 <= self.pos() <= text.len(),
                    chars@ == text.subrange(p0, self.pos()),
                    word_end(text, self.pos()) == word_end(text, p0),
                    forall|j: int| p0 <= j < self.pos() ==> is_word_char(text[j]),
                    stopped ==> self.pos() == word_end(text, p0),
                decreases text.len() - self.pos(), if stopped {
                    0int
                } else {
                    1int
                },
            {
                let ghost cur = self.pos();
                let opt_later_char = self.reader.peek();
                let is_cont = |c: char| -> (r: bool)
                    ensures
                        r == is_word_char(c),
                    {
                        word_char(c)
                    };
                if self.reader.match_char_if(is_cont)? {
                    proof {
                        lemma_word_end(text, cur);
                    }
                    let later_char = if let Some(c) = opt_later_char {
                        c
                    } else {
                        proof {
                            assert(false);
                        }
                        ' '
                    };
                    chars.push(later_char);
                    proof {
                        assert(chars@ =~= text.subrange(p0, cur + 1));
                    }
                } else {
                    proof {
                        lemma_word_end(text, cur);
                    }
                    stopped = true;
                }
            }
            Ok(Some(self.new_word_token(first_pos, chars)))
        } else {
            Ok(None)
        }
    }
}

impl Lexer {
    // -----------------------------------------------------------------------
    // Scan-step priority 6: numeric literals
    // -----------------------------------------------------------------------
    /// Reads a run of hexadecimal digits and underscores.
    fn scan_hex_int_chunk(&mut self) -> (r: Result<Vec<char>, Error>)
        requires
            old(self).swf(),
        ensures
            final(self).swf(),
            old(self).keeps_ctx(final(self)),
            old(self).keeps_stacks(final(self)),
            final(self).pos() >= old(self).pos(),
            match r {
                Ok(v) => final(self).pos() == hex_run_end(old(self).text(), old(self).pos()) && v@
                    == old(self).text().subrange(old(self).pos(), final(self).pos()),
                Err(_) => false,
            },
    {
        let ghost text = self.text();
        let ghost p0 = self.pos();
        let mut chunk: Vec<char> = Vec::new();
        proof {
            assert(chunk@ =~= text.subrange(p0, p0));
        }
        let mut stopped = false;
        while !stopped
            invariant
                self.swf(),
                old(self).keeps_ctx(&self),
                old(self).keeps_stacks(&self),
                text == old(self).text(),
                p0 == old(self).pos(),
                text == self.text(),
                p0 <= self.pos() <= text.len(),
                chunk@ == text.subrange(p0, self.pos()),
                hex_run_end(text, self.pos()) == hex_run_end(text, p0),
                stopped ==> self.pos() == hex_run_end(text, p0),
            decreases text.len() - self.pos(), if stopped {
                0int
            } else {
                1int
            },
        {
            let ghost cur = self.pos();
            let opt_chunk_char = self.reader.peek();
            let is_hex_ext = |c: char| -> (r: bool)
                ensures
                    r == is_hex_digit_or_underscore(c),
                {
                    hex_digit(c) || c == '_'
                };
            if self.reader.match_char_if(is_hex_ext)? {
                proof {
                    lemma_hex_run_end(text, cur);
                }
                let later_char = if let Some(c) = opt_chunk_char {
                    c
                } else {
                    proof {
                        assert(false);
                    }
                    ' '
                };
                chunk.push(later_char);
                proof {
                    assert(chunk@ =~= text.subrange(p0, cur + 1));
                }
            } else {
                proof {
                    lemma_hex_run_end(text, cur);
                }
                stopped = true;
            }
        }
        Ok(chunk)
    }

    /// Reads a run of decimal digits and underscores, with an optional
    /// already-consumed first character prepended.
    fn scan_decimal_int_chunk(&mut self, opt_first_char: Option<char>) -> (r: Result<
        Vec<char>,
        Error,
    >)
        requires
            old(self).swf(),
        ensures
            final(self).swf(),
            old(self).keeps_ctx(final(self)),
            old(self).keeps_stacks(final(self)),
            final(self).pos() >= old(self).pos(),
            match r {
                Ok(v) => final(self).pos() == dec_run_end(old(self).text(), old(self).pos()) && v@
                    == (match opt_first_char {
                    Some(c) => seq![c],
                    None => Seq::<char>::empty(),
                }) + old(self).text().subrange(old(self).pos(), final(self).pos()),
                Err(_) => false,
            },
    {
        let ghost text = self.text();
        let ghost p0 = self.pos();
        let ghost lead = match opt_first_char {
            Some(c) => seq![c],
            None => Seq::<char>::empty(),
        };
        let mut chunk: Vec<char> = Vec::new();
        if let Some(first_char) = opt_first_char {
            chunk.push(first_char);
        }
        proof {
            assert(chunk@ =~= lead + text.subrange(p0, p0));
        }
        let mut stopped = false;
        while !stopped
            invariant
                self.swf(),
                old(self).keeps_ctx(&self),
                old(self).keeps_stacks(&self),
                text == old(self).text(),
                p0 == old(self).pos(),
                lead == (match opt_first_char {
                    Some(c) => seq![c],
                    None => Seq::<char>::empty(),
                }),
                text == self.text(),
                p0 <= self.pos() <= text.len(),
                chunk@ == lead + text.subrange(p0, self.pos()),
                dec_run_end(text, self.pos()) == dec_run_end(text, p0),
                stopped ==> self.pos() == dec_run_end(text, p0),
            decreases text.len() - self.pos(), if stopped {
                0int
            } else {
                1int
            },
        {
            let ghost cur = self.pos();
            let opt_chunk_char = self.reader.peek();
            let is_dec_ext = |c: char| -> (r: bool)
                ensures
                    r == is_dec_digit_or_underscore(c),
                {
                    dec_digit(c) || c == '_'
                };
            if self.reader.match_char_if(is_dec_ext)? {
                proof {
                    lemma_dec_run_end(text, cur);
                }
                let later_char = if let Some(c) = opt_chunk_char {
                    c
                } else {
                    proof {
                        assert(false);
                    }
                    ' '
                };
                chunk.push(later_char);
                proof {
                    assert(chunk@ =~= lead + text.subrange(p0, cur + 1));
                }
            } else {
                proof {
                    lemma_dec_run_end(text, cur);
                }
                stopped = true;
            }
        }
        Ok(chunk)
    }

    /// Reads the exponent after `e`/`E`: an optional minus, then a run of
    /// decimal digits that must be non-empty.
    fn scan_number_exponent_suffix(&mut self, mantissa: &Vec<char>) -> (r: Result<
        Vec<char>,
        Error,
    >)
        requires
            old(self).swf(),
        ensures
            final(self).swf(),
            old(self).keeps_ctx(final(self)),
            old(self).keeps_stacks(final(self)),
            final(self).pos() >= old(self).pos(),
            ({
                let text = old(self).text();
                let p = old(self).pos();
                let neg = p < text.len() && text[p] == '-';
                let ds = p + if neg {
                    1int
                } else {
                    0int
                };
                let e = dec_run_end(text, ds);
                match r {
                    Ok(v) => {
                        &&& e > ds
                        &&& final(self).pos() == e
                        &&& v@ == (if neg {
                            seq!['-']
                        } else {
                            Seq::<char>::empty()
                        }) + text.subrange(ds, e)
                    },
                    Err(err) => {
                        &&& e == ds
                        &&& final(self).pos() == ds
                        &&& err.messages().len() == 1
                        &&& err.messages()[0].text_view()
                            == "Expected valid exponent after 'e/E' exponent in float literal"@
                        &&& err.messages()[0].refs() == seq![
                            (
                                "See incomplete literal '"@ + mantissa@ + "': "@,
                                Loc::FilePos(old(self).src(), cursor_at(text, p)),
                            ),
                        ]
                    },
                }
            }),
    {
        let start_of_suffix_pos = self.reader.cursor();
        let exponent_has_neg_prefix = self.reader.match_char('-')?;
        proof {
            lemma_dec_run_end(self.text(), self.pos());
        }
        let exponent_int = self.scan_decimal_int_chunk(None)?;
        if exponent_int.len() == 0 {
            let mut desc_chars: Vec<char> = Vec::new();
            append_str_chars(&mut desc_chars, "See incomplete literal '");
            let mut i: usize = 0;
            let n = mantissa.len();
            while i < n
                invariant
                    n == mantissa@.len(),
                    0 <= i <= n,
                    desc_chars@ == "See incomplete literal '"@ + mantissa@.subrange(0, i as int),
                decreases n - i,
            {
                desc_chars.push(mantissa[i]);
                proof {
                    assert(desc_chars@ =~= "See incomplete literal '"@ + mantissa@.subrange(
                        0,
                        i + 1,
                    ));
                }
                i += 1;
            }
            append_str_chars(&mut desc_chars, "': ");
            proof {
                assert(mantissa@.subrange(0, mantissa@.len() as int) =~= mantissa@);
                assert(desc_chars@ =~= "See incomplete literal '"@ + mantissa@ + "': "@);
            }
            let message = Message::new(
                String::from_str("Expected valid exponent after 'e/E' exponent in float literal"),
            ).with_ref(
                string_from_chars(&desc_chars),
                Loc::FilePos(self.reader.source(), start_of_suffix_pos),
            );
            return Err(Error::new().with_message(message));
        }
        if exponent_has_neg_prefix {
            let mut neg_exponent_int: Vec<char> = Vec::new();
            neg_exponent_int.push('-');
            let mut rest = exponent_int;
            let ghost rest0 = rest@;
            neg_exponent_int.append(&mut rest);
            proof {
                assert(neg_exponent_int@ =~= seq!['-'] + rest0);
            }
            Ok(neg_exponent_int)
        } else {
            Ok(exponent_int)
        }
    }

    fn scan_nonempty_hex_number(&mut self, first_pos: Cursor) -> (r: Result<Token, Error>)
        requires
            old(self).swf(),
            old(self).pos() >= 2,
            num_is_hex(old(self).text(), old(self).pos() - 2),
            first_pos == cursor_at(old(self).text(), old(self).pos() - 2),
        ensures
            final(self).swf(),
            old(self).keeps_ctx(final(self)),
            old(self).keeps_stacks(final(self)),
            final(self).pos() >= old(self).pos(),
            ({
                let text = old(self).text();
                let q = old(self).pos() - 2;
                match r {
                    Ok(t) => {
                        &&& final(self).pos() == num_end(text, q)
                        &&& t.spec_span() == (Span {
                            first_pos,
                            last_pos: cursor_at(text, num_end(text, q)),
                        })
                        &&& t.spec_info() matches TokenInfo::LiteralInteger(s, f) && s@
                            == num_mantissa(text, q) && f == IntegerFormat::Hexadecimal
                    },
                    Err(_) => false,
                }
            }),
    {
        let hex_chunk = self.scan_hex_int_chunk()?;
        let hex_int_mantissa = string_from_chars(&hex_chunk);
        Ok(
            Token::new(
                self.span(first_pos),
                TokenInfo::LiteralInteger(hex_int_mantissa, IntegerFormat::Hexadecimal),
            ),
        )
    }

    fn scan_nonempty_decimal_number(&mut self, first_pos: Cursor, first_char: char) -> (r: Result<
        Token,
        Error,
    >)
        requires
            old(self).swf(),
            old(self).pos() >= 1,
            old(self).pos() <= old(self).text().len(),
            old(self).text()[old(self).pos() - 1] == first_char,
            is_dec_digit(first_char),
            !num_is_hex(old(self).text(), old(self).pos() - 1),
            first_pos == cursor_at(old(self).text(), old(self).pos() - 1),
        ensures
            final(self).swf(),
            old(self).keeps_ctx(final(self)),
            old(self).keeps_stacks(final(self)),
            final(self).pos() >= old(self).pos(),
            ({
                let text = old(self).text();
                let q = old(self).pos() - 1;
                match r {
                    Ok(t) => {
                        &&& !num_errs(text, q)
                        &&& final(self).pos() == num_end(text, q)
                        &&& t.spec_span() == (Span {
                            first_pos,
                            last_pos: cursor_at(text, num_end(text, q)),
                        })
                        &&& if num_is_float(text, q) {
                            &&& t.spec_info() matches TokenInfo::LiteralFloat {
                                mantissa,
                                exponent,
                            } && mantissa@ == num_mantissa(text, q) && (match (
                                exponent,
                                num_exponent(text, q),
                            ) {
                                (Some(xs), Some(xv)) => xs@ == xv,
                                (None, None) => true,
                                _ => false,
                            })
                        } else {
                            t.spec_info() matches TokenInfo::LiteralInteger(s, f) && s@
                                == num_mantissa(text, q) && f == IntegerFormat::Decimal
                        }
                    },
                    Err(e) => {
                        &&& num_errs(text, q)
                        &&& e.messages().len() == 1
                        &&& e.messages()[0].text_view()
                            == "Expected valid exponent after 'e/E' exponent in float literal"@
                        &&& e.messages()[0].refs() == seq![
                            (
                                "See incomplete literal '"@ + num_mantissa(text, q) + "': "@,
                                Loc::FilePos(
                                    old(self).src(),
                                    cursor_at(text, num_mant_end(text, q) + 1),
                                ),
                            ),
                        ]
                    },
                }
            }),
    {
        let ghost text = self.text();
        let ghost q = self.pos() - 1;
        proof {
            lemma_dec_run_end(text, q);
        }
        let mut is_float = false;
        let mut mantissa = self.scan_decimal_int_chunk(Some(first_char))?;
        proof {
            assert(mantissa@ =~= text.subrange(q, num_int_end(text, q)));
        }
        if self.reader.match_char('.')? {
            let ghost e1 = num_int_end(text, q);
            proof {
                lemma_dec_run_end(text, e1 + 1);
            }
            let mut post_point_int = self.scan_decimal_int_chunk(None)?;
            is_float = true;
            mantissa.push('.');
            let ghost frac = post_point_int@;
            mantissa.append(&mut post_point_int);
            proof {
                assert(num_has_frac(text, q));
                assert(mantissa@ =~= text.subrange(q, num_mant_end(text, q)));
            }
        }
        let ghost me = num_mant_end(text, q);
        proof {
            assert(self.pos() == me);
            assert(mantissa@ == num_mantissa(text, q));
        }
        let is_exp_marker = |c: char| -> (r: bool)
            ensures
                r == (c == 'e' || c == 'E'),
            {
                c == 'e' || c == 'E'
            };
        let opt_exponent: Option<Vec<char>> = if self.reader.match_char_if(is_exp_marker)? {
            is_float = true;
            Some(self.scan_number_exponent_suffix(&mantissa)?)
        } else {
            None
        };
        let token_info = if is_float {
            let exponent_string = match opt_exponent {
                Some(exp_chars) => Some(string_from_chars(&exp_chars)),
                None => None,
            };
            TokenInfo::LiteralFloat {
                mantissa: string_from_chars(&mantissa),
                exponent: exponent_string,
            }
        } else {
            TokenInfo::LiteralInteger(string_from_chars(&mantissa), IntegerFormat::Decimal)
        };
        Ok(Token::new(self.span(first_pos), token_info))
    }

    fn scan_nonempty_number(&mut self, first_pos: Cursor, first_char: char) -> (r: Result<
        Token,
        Error,
    >)
        requires
            old(self).swf(),
            old(self).pos() >= 1,
            old(self).pos() <= old(self).text().len(),
            old(self).text()[old(self).pos() - 1] == first_char,
            is_dec_digit(first_char),
            first_pos == cursor_at(old(self).text(), old(self).pos() - 1),
        ensures
            final(self).swf(),
            old(self).keeps_ctx(final(self)),
            old(self).keeps_stacks(final(self)),
            final(self).pos() >= old(self).pos(),
            ({
                let text = old(self).text();
                let q = old(self).pos() - 1;
                match r {
                    Ok(t) => {
                        &&& !num_errs(text, q)
                        &&& final(self).pos() == num_end(text, q)
                        &&& t.spec_span() == (Span {
                            first_pos,
                            last_pos: cursor_at(text, num_end(text, q)),
                        })
                        &&& if num_is_hex(text, q) {
                            t.spec_info() matches TokenInfo::LiteralInteger(s, f) && s@
                                == num_mantissa(text, q) && f == IntegerFormat::Hexadecimal
                        } else if num_is_float(text, q) {
                            &&& t.spec_info() matches TokenInfo::LiteralFloat {
                                mantissa,
                                exponent,
                            } && mantissa@ == num_mantissa(text, q) && (match (
                                exponent,
                                num_exponent(text, q),
                            ) {
                                (Some(xs), Some(xv)) => xs@ == xv,
                                (None, None) => true,
                                _ => false,
                            })
                        } else {
                            t.spec_info() matches TokenInfo::LiteralInteger(s, f) && s@
                                == num_mantissa(text, q) && f == IntegerFormat::Decimal
                        }
                    },
                    Err(e) => {
                        &&& num_errs(text, q)
                        &&& e.messages().len() == 1
                        &&& e.messages()[0].text_view()
                            == "Expected valid exponent after 'e/E' exponent in float literal"@
                        &&& e.messages()[0].refs() == seq![
                            (
                                "See incomplete literal '"@ + num_mantissa(text, q) + "': "@,
                                Loc::FilePos(
                                    old(self).src(),
                                    cursor_at(text, num_mant_end(text, q) + 1),
                                ),
                            ),
                        ]
                    },
                }
            }),
    {
        let ghost text = self.text();
        let ghost q = self.pos() - 1;
        let is_hex_marker = |c: char| -> (r: bool)
            ensures
                r == (c == 'x' || c == 'X'),
            {
                c == 'x' || c == 'X'
            };
        let is_hex_number = first_char == '0' && self.reader.match_char_if(is_hex_marker)?;
        if is_hex_number {
            self.scan_nonempty_hex_number(first_pos)
        } else {
            self.scan_nonempty_decimal_number(first_pos, first_char)
        }
    }

    fn scan_number(&mut self) -> (r: Result<Option<Token>, Error>)
        requires
            old(self).swf(),
        ensures
            final(self).swf(),
            old(self).keeps_ctx(final(self)),
            old(self).keeps_stacks(final(self)),
            final(self).pos() >= old(self).pos(),
            ({
                let text = old(self).text();
                let q = old(self).pos();
                match r {
                    Ok(opt) => match opt {
                        None => {
                            &&& !(q < text.len() && is_dec_digit(text[q]))
                            &&& final(self).pos() == q
                        },
                        Some(t) => {
                            &&& q < text.len() && is_dec_digit(text[q])
                            &&& !num_errs(text, q)
                            &&& final(self).pos() == num_end(text, q) > q
                            &&& t.spec_span() == (Span {
                                first_pos: cursor_at(text, q),
                                last_pos: cursor_at(text, num_end(text, q)),
                            })
                            &&& if num_is_hex(text, q) {
                                t.spec_info() matches TokenInfo::LiteralInteger(s, f) && s@
                                    == num_mantissa(text, q) && f == IntegerFormat::Hexadecimal
                            } else if num_is_float(text, q) {
                                &&& t.spec_info() matches TokenInfo::LiteralFloat {
                                    mantissa,
                                    exponent,
                                } && mantissa@ == num_mantissa(text, q) && (match (
                                    exponent,
                                    num_exponent(text, q),
                                ) {
                                    (Some(xs), Some(xv)) => xs@ == xv,
                                    (None, None) => true,
                                    _ => false,
                                })
                            } else {
                                t.spec_info() matches TokenInfo::LiteralInteger(s, f) && s@
                                    == num_mantissa(text, q) && f == IntegerFormat::Decimal
                            }
                        },
                    },
                    Err(e) => {
                        &&& q < text.len() && is_dec_digit(text[q])
                        &&& num_errs(text, q)
                        &&& e.messages().len() == 1
                        &&& e.messages()[0].text_view()
                            == "Expected valid exponent after 'e/E' exponent in float literal"@
                        &&& e.messages()[0].refs() == seq![
                            (
                                "See incomplete literal '"@ + num_mantissa(text, q) + "': "@,
                                Loc::FilePos(
                                    old(self).src(),
                                    cursor_at(text, num_mant_end(text, q) + 1),
                                ),
                            ),
                        ]
                    },
                }
            }),
    {
        let first_pos = self.reader.cursor();
        let opt_first_char = self.reader.peek();
        let is_digit_start = |c: char| -> (r: bool)
            ensures
                r == is_dec_digit(c),
            {
                dec_digit(c)
            };
        if self.reader.match_char_if(is_digit_start)? {
            let first_char = if let Some(c) = opt_first_char {
                c
            } else {
                proof {
                    assert(false);
                }
                ' '
            };
            match self.scan_nonempty_number(first_pos, first_char) {
                Ok(t) => Ok(Some(t)),
                Err(e) => Err(e),
            }
        } else {
            Ok(None)
        }
    }
}


impl Lexer {
    // -----------------------------------------------------------------------
    // Scan-step priority 7: string literals
    // -----------------------------------------------------------------------
    /// Reads the one character after a backslash and decodes the escape;
    /// a character outside the fixed set, or end of input, is a diagnostic
    /// naming the offending character (or end of input).
    fn scan_escape_sequence_suffix(&mut self, peek_pos: Cursor) -> (r: Result<char, Error>)
        requires
            old(self).swf(),
        ensures
            final(self).swf(),
            old(self).keeps_ctx(final(self)),
            old(self).keeps_stacks(final(self)),
            final(self).pos() >= old(self).pos(),
            ({
                let text = old(self).text();
                let p = old(self).pos();
                match r {
                    Ok(c) => {
                        &&& p < text.len()
                        &&& escape_of(text[p]) == Some(c)
                        &&& final(self).pos() == p + 1
                    },
                    Err(e) => {
                        &&& !(p < text.len() && escape_of(text[p]) is Some)
                        &&& final(self).pos() == p
                        &&& e.messages().len() == 1
                        &&& e.messages()[0].text_view()
                            == "Invalid escape sequence: after '\\', expected a valid escape character, not '"@
                            + (if p < text.len() {
                            seq![text[p]]
                        } else {
                            "EOF"@
                        }) + "'"@
                        &&& e.messages()[0].refs() == seq![
                            ("see..."@, Loc::FilePos(old(self).src(), peek_pos)),
                        ]
                    },
                }
            }),
    {
        if self.reader.match_char('"')? {
            Ok('"')
        } else if self.reader.match_char('n')? {
            Ok('\n')
        } else if self.reader.match_char('r')? {
            Ok('\r')
        } else if self.reader.match_char('t')? {
            Ok('\t')
        } else if self.reader.match_char('a')? {
            Ok('\u{7}')
        } else {
            let mut text_chars: Vec<char> = Vec::new();
            append_str_chars(
                &mut text_chars,
                "Invalid escape sequence: after '\\', expected a valid escape character, not '",
            );
            match self.reader.peek() {
                Some(first_char) => {
                    text_chars.push(first_char);
                },
                None => {
                    append_str_chars(&mut text_chars, "EOF");
                },
            }
            append_str_chars(&mut text_chars, "'");
            proof {
                let p = old(self).pos();
                let text = old(self).text();
                assert(text_chars@ =~= "Invalid escape sequence: after '\\', expected a valid escape character, not '"@
                    + (if p < text.len() {
                    seq![text[p]]
                } else {
                    "EOF"@
                }) + "'"@);
            }
            Err(
                Error::new().with_message(
                    Message::new(string_from_chars(&text_chars)).with_ref(
                        String::from_str("see..."),
                        Loc::FilePos(self.reader.source(), peek_pos),
                    ),
                ),
            )
        }
    }

    fn scan_string_literal(&mut self) -> (r: Result<Option<Token>, Error>)
        requires
            old(self).swf(),
        ensures
            final(self).swf(),
            old(self).keeps_ctx(final(self)),
            old(self).keeps_stacks(final(self)),
            final(self).pos() >= old(self).pos(),
            ({
                let text = old(self).text();
                let p = old(self).pos();
                let hit = p < text.len() && text[p] == '"';
                match r {
                    Ok(opt) => match opt {
                        None => !hit && final(self).pos() == p,
                        Some(t) => {
                            &&& hit
                            &&& !str_errs(text, p + 1)
                            &&& final(self).pos() == str_end(text, p + 1) > p
                            &&& t.spec_span() == (Span {
                                first_pos: cursor_at(text, p),
                                last_pos: cursor_at(text, str_end(text, p + 1)),
                            })
                            &&& t.spec_info() matches TokenInfo::LiteralString(s) && s@
                                == str_content(text, p + 1)
                        },
                    },
                    Err(e) => {
                        &&& hit
                        &&& str_errs(text, p + 1)
                        &&& (str_hits_eof(text, p + 1) ==> e.messages().len() == 1
                            && e.messages()[0].text_view()
                            == "Unterminated string literal: end of input before closing quote"@
                            && e.messages()[0].refs() == seq![
                            (
                                "string opened here"@,
                                Loc::FilePos(old(self).src(), cursor_at(text, p)),
                            ),
                        ])
                        &&& (!str_hits_eof(text, p + 1) ==> ({
                            let f = str_fail_at(text, p + 1);
                            if text[f] == '\\' {
                                &&& e.messages().len() == 1
                                &&& e.messages()[0].text_view()
                                    == "Invalid escape sequence: after '\\', expected a valid escape character, not '"@
                                    + (if f + 1 < text.len() {
                                    seq![text[f + 1]]
                                } else {
                                    "EOF"@
                                }) + "'"@
                                &&& e.messages()[0].refs() == seq![
                                    ("see..."@, Loc::FilePos(old(self).src(), cursor_at(text, f))),
                                ]
                            } else {
                                cr_diagnostic(e, old(self).src(), text, f + 1)
                            }
                        }))
                    },
                }
            }),
    {
        let ghost text = self.text();
        let first_pos = self.reader.cursor();
        if self.reader.match_char('"')? {
            let ghost p1 = self.pos();
            let mut literal_content: Vec<char> = Vec::new();
            let mut terminated = false;
            let mut stopped = false;
            while !stopped
                invariant
                    self.swf(),
                    old(self).keeps_ctx(&self),
                    old(self).keeps_stacks(&self),
                    text == old(self).text(),
                    text == self.text(),
                    p1 == old(self).pos() + 1,
                    old(self).pos() < text.len(),
                    text[old(self).pos()] == '"',
                    p1 <= self.pos() <= text.len(),
                    !stopped ==> str_errs(text, self.pos()) == str_errs(text, p1),
                    !stopped ==> str_hits_eof(text, self.pos()) == str_hits_eof(text, p1),
                    !stopped ==> str_fail_at(text, self.pos()) == str_fail_at(text, p1),
                    !stopped ==> str_end(text, self.pos()) == str_end(text, p1),
                    !stopped ==> str_content(text, p1) == literal_content@ + str_content(
                        text,
                        self.pos(),
                    ),
                    !stopped ==> !terminated,
                    stopped && terminated ==> !str_errs(text, p1) && self.pos() == str_end(
                        text,
                        p1,
                    ) && literal_content@ == str_content(text, p1),
                    stopped && !terminated ==> self.pos() >= text.len() && str_errs(text, p1)
                        && str_hits_eof(text, p1),
                decreases text.len() - self.pos(), if stopped {
                    0int
                } else {
                    1int
                },
            {
                let glyph_pos = self.reader.cursor();
                let opt_peek_char = self.reader.peek();
                match opt_peek_char {
                    Some(peek_char) => {
                        if self.reader.match_char('\\')? {
                            match self.scan_escape_sequence_suffix(glyph_pos) {
                                Ok(escaped_char) => {
                                    literal_content.push(escaped_char);
                                },
                                Err(e) => {
                                    return Err(e);
                                },
                            }
                        } else if self.reader.match_char('"')? {
                            terminated = true;
                            stopped = true;
                        } else {
                            literal_content.push(peek_char);
                            match self.reader.skip() {
                                Ok(()) => {},
                                Err(e) => {
                                    return Err(e);
                                },
                            }
                        }
                    },
                    None => {
                        stopped = true;
                    },
                }
            }
            if terminated {
                Ok(
                    Some(
                        Token::new(
                            self.span(first_pos),
                            TokenInfo::LiteralString(string_from_chars(&literal_content)),
                        ),
                    ),
                )
            } else {
                let msg = Message::new(
                    String::from_str("Unterminated string literal: end of input before closing quote"),
                ).with_ref(
                    String::from_str("string opened here"),
                    Loc::FilePos(self.reader.source(), first_pos),
                );
                Err(Error::new().with_message(msg))
            }
        } else {
            Ok(None)
        }
    }

    // -----------------------------------------------------------------------
    // Scan-step priority 8: line endings, indentation, dedents
    // -----------------------------------------------------------------------
    /// Counts the spaces and tabs after a newline: a space is one column,
    /// a tab the configured tab width.
    fn scan_indent_whitespace(&mut self) -> (r: Result<u64, Error>)
        requires
            old(self).swf(),
        ensures
            final(self).swf(),
            old(self).keeps_ctx(final(self)),
            old(self).keeps_stacks(final(self)),
            final(self).pos() >= old(self).pos(),
            match r {
                Ok(w) => {
                    &&& final(self).pos() == ind_end(old(self).text(), old(self).pos())
                    &&& w as int == indent_width_at(
                        old(self).text(),
                        old(self).pos(),
                        old(self).tab_width(),
                    )
                },
                Err(_) => false,
            },
    {
        let ghost text = self.text();
        let ghost p0 = self.pos();
        let ghost tab = self.tab_width() as int;
        let tab_w: u64 = self.tab_width_in_spaces as u64;
        let mut indent_width: u64 = 0;
        let mut stopped = false;
        while !stopped
            invariant
                self.swf(),
                old(self).keeps_ctx(&self),
                old(self).keeps_stacks(&self),
                text == old(self).text(),
                p0 == old(self).pos(),
                tab == old(self).tab_width(),
                tab_w as int == tab,
                0 <= tab <= 0x7FFF_FFFF,
                text == self.text(),
                p0 <= self.pos() <= text.len(),
                ind_end(text, self.pos()) == ind_end(text, p0),
                indent_width as int == width_of(text.subrange(p0, self.pos()), tab),
                indent_width as int <= (self.pos() - p0) * (tab + 1),
                stopped ==> self.pos() == ind_end(text, p0),
            decreases text.len() - self.pos(), if stopped {
                0int
            } else {
                1int
            },
        {
            let ghost cur = self.pos();
            let ghost w_pre = indent_width as int;
            match self.reader.peek() {
                Some(peek_char) => {
                    if peek_char == ' ' || peek_char == '\t' {
                        proof {
                            lemma_ind_end(text, cur);
                            assert((cur - p0) * (tab + 1) + (tab + 1) == (cur + 1 - p0) * (tab
                                + 1)) by (nonlinear_arith);
                            assert((cur - p0) * (tab + 1) <= 0x7FFF_FFFE * 0x8000_0000int)
                                by (nonlinear_arith)
                                requires
                                    0 <= cur - p0 <= 0x7FFF_FFFE,
                                    0 <= tab + 1 <= 0x8000_0000int,
                            ;
                        }
                        match self.reader.skip() {
                            Ok(()) => {},
                            Err(e) => {
                                proof {
                                    assert(false);
                                }
                                return Err(e);
                            },
                        }
                        if peek_char == '\t' {
                            indent_width = indent_width + tab_w;
                        } else {
                            indent_width = indent_width + 1;
                        }
                        proof {
                            assert(text.subrange(p0, cur + 1).drop_last() =~= text.subrange(
                                p0,
                                cur,
                            ));
                            assert(indent_width as int == width_of(
                                text.subrange(p0, self.pos()),
                                tab,
                            ));
                        }
                    } else {
                        proof {
                            lemma_ind_end(text, cur);
                        }
                        stopped = true;
                    }
                },
                None => {
                    proof {
                        lemma_ind_end(text, cur);
                    }
                    stopped = true;
                },
            }
        }
        proof {
            assert(indent_width as int == indent_width_at(text, p0, tab));
        }
        Ok(indent_width)
    }

    /// Consumes one newline (outside brackets) and synthesizes the line
    /// structure: one end-of-line token, then dedents or an indent so the
    /// stack mirrors the new width; a width strictly between two stack
    /// levels is a diagnostic.
    fn scan_multiple_line_ending_tokens(&mut self) -> (r: Result<Option<()>, Error>)
        requires
            old(self).swf(),
            !(old(self).state() is EndOfFile),
        ensures
            final(self).swf(),
            old(self).keeps_ctx(final(self)),
            final(self).brackets() == old(self).brackets(),
            final(self).interned() == old(self).interned(),
            final(self).pos() >= old(self).pos(),
            icount(final(self).queue()) - dcount(final(self).queue()) - final(self).indents().len()
                == icount(old(self).queue()) - dcount(old(self).queue()) - old(self).indents().len(),
            ({
                let text = old(self).text();
                let p = old(self).pos();
                let hit = p < text.len() && text[p] == '\n';
                let m1 = p + 1;
                let e = ind_end(text, m1);
                let w = indent_width_at(text, m1, old(self).tab_width()) as u64;
                let eol = Token {
                    span: Span { first_pos: cursor_at(text, p), last_pos: cursor_at(text, m1) },
                    info: TokenInfo::EndOfLine,
                };
                let dtok = Token {
                    span: Span { first_pos: cursor_at(text, p), last_pos: cursor_at(text, e) },
                    info: TokenInfo::Dedent,
                };
                let itok = Token {
                    span: Span { first_pos: cursor_at(text, m1), last_pos: cursor_at(text, e) },
                    info: TokenInfo::Indent,
                };
                let dedents = Seq::new(step_dedents(old(self).indents(), w) as nat, |i: int| dtok);
                match r {
                    Ok(opt) => match opt {
                        None => {
                            &&& final(self).queue() == old(self).queue()
                            &&& final(self).indents() == old(self).indents()
                            &&& if hit && old(self).brackets().len() > 0 {
                                final(self).pos() == m1
                            } else {
                                !hit && final(self).pos() == p
                            }
                        },
                        Some(_) => {
                            &&& hit
                            &&& old(self).brackets().len() == 0
                            &&& !stack_step_errs(old(self).indents(), w)
                            &&& final(self).pos() == e > p
                            &&& final(self).indents() == stack_step(old(self).indents(), w)
                            &&& final(self).queue() == old(self).queue().push(eol) + dedents + (
                            if step_indents(old(self).indents(), w) == 1 {
                                seq![itok]
                            } else {
                                Seq::<Token>::empty()
                            })
                        },
                    },
                    Err(err) => {
                        &&& hit
                        &&& old(self).brackets().len() == 0
                        &&& stack_step_errs(old(self).indents(), w)
                        &&& final(self).pos() == e > p
                        &&& final(self).indents() == popped_stack(old(self).indents(), w)
                        &&& final(self).queue() == old(self).queue().push(eol) + dedents
                        &&& err.messages().len() == 1
                        &&& err.messages()[0].text_view() == "Invalid indent: got block at depth "@
                            + dec_chars(w as nat) + " spaces, but expected depth "@ + dec_chars(
                            popped_stack(old(self).indents(), w).last() as nat,
                        ) + " spaces"@
                        &&& err.messages()[0].refs() == seq![
                            (
                                "indentation whitespace here"@,
                                Loc::FileSpan(
                                    old(self).src(),
                                    Span {
                                        first_pos: cursor_at(text, m1),
                                        last_pos: cursor_at(text, e),
                                    },
                                ),
                            ),
                        ]
                    },
                }
            }),
    {
        let ghost text = self.text();
        let ghost p = self.pos();
        let pre_eol_pos = self.reader.cursor();
        if self.reader.match_char('\n')? {
            let post_eol_pos = self.reader.cursor();
            if self.matching_token_pair_expectation_stack.len() > 0 {
                return Ok(None);
            }
            let this_indent_width = self.scan_indent_whitespace()?;
            let ghost st0 = self.indents();
            let ghost w = this_indent_width;
            let last_indent_width = self.indent_width_stack[self.indent_width_stack.len() - 1];
            let eol_token = Token::new(Span::new(pre_eol_pos, post_eol_pos), TokenInfo::EndOfLine);
            self.enqueue_token(eol_token);
            let ghost q1 = self.queue();
            proof {
                lemma_count_push(old(self).queue(), eol_token);
            }
            if this_indent_width < last_indent_width {
                let ghost e = self.pos();
                let ghost cap = st0.len();
                let mut popped: usize = 0;
                while self.indent_width_stack[self.indent_width_stack.len() - 1]
                    > this_indent_width
                    invariant
                        self.swf(),
                        !(self.state() is EndOfFile),
                        old(self).keeps_ctx(&self),
                        text == old(self).text(),
                        text == self.text(),
                        p == old(self).pos(),
                        pre_eol_pos == cursor_at(text, p),
                        e == self.pos(),
                        st0 == old(self).indents(),
                        w == this_indent_width,
                        stack_wf(st0),
                        cap == st0.len() <= usize::MAX,
                        self.brackets() == old(self).brackets(),
                        self.interned() == old(self).interned(),
                        1 <= self.indents().len() <= st0.len(),
                        self.indents() == st0.subrange(0, self.indents().len() as int),
                        popped == st0.len() - self.indents().len(),
                        popped_stack(st0, w) == popped_stack(self.indents(), w),
                        self.queue() == q1 + Seq::new(popped as nat, |i: int| (Token {
                            span: Span {
                                first_pos: cursor_at(text, p),
                                last_pos: cursor_at(text, e),
                            },
                            info: TokenInfo::Dedent,
                        })),
                        icount(self.queue()) - dcount(self.queue()) - self.indents().len()
                            == icount(q1) - dcount(q1) - st0.len(),
                    decreases self.indents().len(),
                {
                    proof {
                        assert(stack_wf(self.indents()));
                        assert(self.indents().last() > w);
                        if self.indents().len() == 1 {
                            assert(self.indents().last() == self.indents()[0]);
                            assert(false);
                        }
                    }
                    self.indent_width_stack.pop();
                    let dedent_token = Token::new(self.span(pre_eol_pos), TokenInfo::Dedent);
                    let ghost q_pre = self.queue();
                    self.enqueue_token(dedent_token);
                    proof {
                        lemma_count_push(q_pre, dedent_token);
                    }
                    popped = popped + 1;
                    proof {
                        assert(self.indents() =~= st0.subrange(0, self.indents().len() as int));
                        assert(self.queue() =~= q1 + Seq::new(popped as nat, |i: int| (Token {
                            span: Span {
                                first_pos: cursor_at(text, p),
                                last_pos: cursor_at(text, e),
                            },
                            info: TokenInfo::Dedent,
                        })));
                    }
                }
                proof {
                    assert(popped_stack(self.indents(), w) == self.indents());
                    lemma_popped_stack(st0, w);
                }
                let expected_indent_width = self.indent_width_stack[self.indent_width_stack.len()
                    - 1];
                if this_indent_width != expected_indent_width {
                    let mut text_chars: Vec<char> = Vec::new();
                    append_str_chars(&mut text_chars, "Invalid indent: got block at depth ");
                    push_dec_chars(this_indent_width, &mut text_chars);
                    append_str_chars(&mut text_chars, " spaces, but expected depth ");
                    push_dec_chars(expected_indent_width, &mut text_chars);
                    append_str_chars(&mut text_chars, " spaces");
                    proof {
                        assert(text_chars@ =~= "Invalid indent: got block at depth "@ + dec_chars(
                            w as nat,
                        ) + " spaces, but expected depth "@ + dec_chars(
                            popped_stack(st0, w).last() as nat,
                        ) + " spaces"@);
                    }
                    let error = Error::new().with_message(
                        Message::new(string_from_chars(&text_chars)).with_ref(
                            String::from_str("indentation whitespace here"),
                            Loc::FileSpan(self.reader.source(), self.span(post_eol_pos)),
                        ),
                    );
                    return Err(error);
                }
            } else if this_indent_width > last_indent_width {
                self.indent_width_stack.push(this_indent_width);
                let indent_token = Token::new(self.span(post_eol_pos), TokenInfo::Indent);
                let ghost q_pre = self.queue();
                self.enqueue_token(indent_token);
                proof {
                    lemma_count_push(q_pre, indent_token);
                    assert(self.indents() =~= stack_step(st0, w));
                }
            }
            proof {
                let m1 = p + 1;
                let e = ind_end(text, m1);
                let eol = (Token {
                    span: Span { first_pos: cursor_at(text, p), last_pos: cursor_at(text, m1) },
                    info: TokenInfo::EndOfLine,
                });
                let dtok = (Token {
                    span: Span { first_pos: cursor_at(text, p), last_pos: cursor_at(text, e) },
                    info: TokenInfo::Dedent,
                });
                let itok = (Token {
                    span: Span { first_pos: cursor_at(text, m1), last_pos: cursor_at(text, e) },
                    info: TokenInfo::Indent,
                });
                let dedents = Seq::new(step_dedents(st0, w) as nat, |i: int| dtok);
                if w < st0.last() {
                    assert(self.queue() =~= old(self).queue().push(eol) + dedents
                        + Seq::<Token>::empty());
                } else if w > st0.last() {
                    assert(self.queue() =~= old(self).queue().push(eol) + dedents + seq![itok]);
                } else {
                    assert(self.queue() =~= old(self).queue().push(eol) + dedents
                        + Seq::<Token>::empty());
                }
            }
            Ok(Some(()))
        } else {
            Ok(None)
        }
    }
}

impl Lexer {
    /// Whether the next scan step from the current state reports a
    /// diagnostic.
    pub closed spec fn step_errs(&self) -> bool {
        step_errs_at(self.text(), self.pos(), self.brackets(), self.indents(), self.tab_width())
    }

    /// The scan state the lexer stands in: everything past the tokens it
    /// already queued or handed out.
    pub closed spec fn model_state(&self) -> ScanState {
        ScanState {
            text: self.text(),
            pos: self.pos(),
            brackets: self.brackets(),
            indents: self.indents(),
            interner: self.interned(),
            tab: self.tab_width(),
        }
    }

    /// The token stream still to come out of this lexer: the lookahead,
    /// the queued tokens, and what the rest of the text yields.
    pub closed spec fn remaining(&self) -> Seq<TokenView> {
        (match self.state() {
            CursorState::InFile(t) => seq![token_view(t)],
            _ => Seq::<TokenView>::empty(),
        }) + views_of(self.queue()) + scan_toks(self.model_state())
    }

    /// Whether the rest of this scan runs to exhaustion without a
    /// diagnostic.
    pub closed spec fn remaining_ok(&self) -> bool {
        scan_ok(self.model_state())
    }

    pub open spec fn tok_ind(t: Token) -> int {
        if t.info is Indent {
            1
        } else {
            0
        }
    }

    pub open spec fn tok_ded(t: Token) -> int {
        if t.info is Dedent {
            1
        } else {
            0
        }
    }

    pub open spec fn opt_ind(o: Option<Token>) -> int {
        match o {
            Some(t) => Self::tok_ind(t),
            None => 0,
        }
    }

    pub open spec fn opt_ded(o: Option<Token>) -> int {
        match o {
            Some(t) => Self::tok_ded(t),
            None => 0,
        }
    }

    // -----------------------------------------------------------------------
    // Scan-step priority 2: end of input
    // -----------------------------------------------------------------------
    /// At end of input with the indentation unwound: every opened pairing
    /// must have been closed, else one message per unmatched opener,
    /// most recent first.
    fn check_on_eof(&mut self) -> (r: Result<(), Error>)
        requires
            old(self).swf(),
        ensures
            final(self).swf(),
            old(self).keeps_ctx(final(self)),
            final(self).pos() == old(self).pos(),
            final(self).queue() == old(self).queue(),
            final(self).indents() == old(self).indents(),
            final(self).interned() == old(self).interned(),
            r is Ok <==> old(self).brackets().len() == 0,
            r is Ok ==> final(self).brackets() == old(self).brackets(),
            ({
                let br = old(self).brackets();
                match r {
                    Ok(()) => true,
                    Err(e) => {
                        &&& final(self).brackets().len() == 0
                        &&& e.messages().len() == br.len()
                        &&& forall|i: int|
                            0 <= i < br.len() ==> e.messages()[i].text_view()
                                == "Before EOF, expected '"@ + seq![br[br.len() - 1 - i].1]
                                + "' to match opening token"@
                        &&& forall|i: int|
                            0 <= i < br.len() ==> e.messages()[i].refs() == seq![
                                (
                                    "opening token here..."@,
                                    Loc::FileSpan(old(self).src(), br[br.len() - 1 - i].0),
                                ),
                            ]
                    },
                }
            }),
    {
        if self.matching_token_pair_expectation_stack.len() == 0 {
            return Ok(());
        }
        let ghost br0 = self.brackets();
        let mut error = Error::new();
        while self.matching_token_pair_expectation_stack.len() > 0
            invariant
                self.swf(),
                old(self).keeps_ctx(&self),
                self.pos() == old(self).pos(),
                self.queue() == old(self).queue(),
                self.indents() == old(self).indents(),
                self.interned() == old(self).interned(),
                br0 == old(self).brackets(),
                self.brackets() == br0.subrange(0, self.brackets().len() as int),
                error.messages().len() == br0.len() - self.brackets().len(),
                forall|i: int|
                    0 <= i < error.messages().len() ==> error.messages()[i].text_view()
                        == "Before EOF, expected '"@ + seq![br0[br0.len() - 1 - i].1]
                        + "' to match opening token"@,
                forall|i: int|
                    0 <= i < error.messages().len() ==> error.messages()[i].refs() == seq![
                        (
                            "opening token here..."@,
                            Loc::FileSpan(old(self).src(), br0[br0.len() - 1 - i].0),
                        ),
                    ],
            decreases self.brackets().len(),
        {
            let popped = self.matching_token_pair_expectation_stack.pop();
            match popped {
                Some((opening_span, closing_char)) => {
                    let mut text_chars: Vec<char> = Vec::new();
                    append_str_chars(&mut text_chars, "Before EOF, expected '");
                    text_chars.push(closing_char);
                    append_str_chars(&mut text_chars, "' to match opening token");
                    proof {
                        assert(text_chars@ =~= "Before EOF, expected '"@ + seq![closing_char]
                            + "' to match opening token"@);
                    }
                    let msg = Message::new(string_from_chars(&text_chars)).with_ref(
                        String::from_str("opening token here..."),
                        Loc::FileSpan(self.reader.source(), opening_span),
                    );
                    error = error.with_message(msg);
                    proof {
                        assert(self.brackets() =~= br0.subrange(0, self.brackets().len() as int));
                    }
                },
                None => {
                    proof {
                        assert(false);
                    }
                },
            }
        }
        Err(error)
    }

    // -----------------------------------------------------------------------
    // One scan step
    // -----------------------------------------------------------------------
    /// Runs one scan step: skips blanks and comments, then recognizes the
    /// next lexeme and enqueues its token or tokens. Returns false exactly
    /// when input is exhausted with all brackets closed and indentation
    /// unwound.
    #[verifier::rlimit(80)]
    fn replenish_token_queue(&mut self) -> (r: Result<bool, Error>)
        requires
            old(self).swf(),
            !(old(self).state() is EndOfFile),
            old(self).queue().len() == 0,
        ensures
            final(self).swf(),
            old(self).keeps_ctx(final(self)),
            final(self).pos() >= old(self).pos(),
            final(self).pos() == old(self).pos() ==> final(self).indents().len() <= old(self).indents().len(),
            final(self).pos() == old(self).pos() && final(self).indents().len() == old(self).indents().len() ==> final(self).queue().len() <= old(self).queue().len(),
            icount(final(self).queue()) - dcount(final(self).queue()) - final(self).indents().len()
                == icount(old(self).queue()) - dcount(old(self).queue()) - old(self).indents().len(),
            crate::intern::table_extends(old(self).interned(), final(self).interned()),
            r is Err <==> old(self).step_errs(),
            ({
                let s0 = old(self).model_state();
                match r {
                    Ok(true) => {
                        &&& state_wf(s0) && !state_errs(s0) && !state_done(s0)
                        &&& views_of(final(self).queue()) == step_toks(s0)
                        &&& final(self).model_state() == step_next(s0)
                    },
                    Ok(false) => state_wf(s0) && !state_errs(s0) && state_done(s0),
                    Err(e) => step_diag_rel(s0, old(self).src(), e),
                }
            }),
            match r {
                Ok(true) => final(self).queue().len() > 0 && (final(self).pos() > old(self).pos()
                    || final(self).indents().len() < old(self).indents().len()),
                Ok(false) => {
                    &&& final(self).pos() == old(self).text().len()
                    &&& final(self).queue().len() == 0
                    &&& final(self).indents().len() == 1
                    &&& final(self).brackets().len() == 0
                    &&& final(self).interned() == old(self).interned()
                },
                Err(_) => true,
            },
    {
        let ghost s0 = old(self).model_state();
        let ghost text = self.text();
        let ghost p0 = self.pos();
        let ghost b0 = self.brackets().len() > 0;
        self.skip_any_spaces_and_line_comments()?;
        let ghost m = self.pos();
        proof {
            lemma_skip_end_bounds(text, p0, b0, false);
            lemma_skip_end_stop(text, p0, b0, false);
        }
        if self.reader.at_eof() {
            if self.indent_width_stack.len() == 1 {
                self.check_on_eof()?;
                return Ok(false);
            } else {
                let ghost st0 = self.indents();
                let ghost q0 = self.queue();
                let eof_pos = self.reader.cursor();
                let eof_span = self.span(eof_pos);
                let eol_token = Token::new(eof_span, TokenInfo::EndOfLine);
                self.enqueue_token(eol_token);
                proof {
                    lemma_count_push(q0, eol_token);
                }
                let ghost q1 = self.queue();
                let mut unwound: usize = 0;
                while self.indent_width_stack.len() > 1
                    invariant
                        self.swf(),
                        !(self.state() is EndOfFile),
                        old(self).keeps_ctx(&self),
                        text == self.text(),
                        m == self.pos(),
                        eof_span == (Span {
                            first_pos: cursor_at(text, m),
                            last_pos: cursor_at(text, m),
                        }),
                        st0 == old(self).indents(),
                        stack_wf(st0),
                        self.brackets() == old(self).brackets(),
                        self.interned() == old(self).interned(),
                        1 <= self.indents().len() <= st0.len() <= usize::MAX,
                        self.indents() == st0.subrange(0, self.indents().len() as int),
                        unwound == st0.len() - self.indents().len(),
                        self.queue() == q1 + Seq::new(unwound as nat, |i: int| (Token {
                            span: eof_span,
                            info: TokenInfo::Dedent,
                        })),
                        q1 == q0.push(eol_token),
                        q0 == old(self).queue(),
                        icount(self.queue()) - dcount(self.queue()) - self.indents().len()
                            == icount(q0) - dcount(q0) - st0.len(),
                    decreases self.indents().len(),
                {
                    let dedent_token = Token::new(eof_span, TokenInfo::Dedent);
                    let ghost q_pre = self.queue();
                    self.enqueue_token(dedent_token);
                    self.indent_width_stack.pop();
                    proof {
                        lemma_count_push(q_pre, dedent_token);
                    }
                    unwound = unwound + 1;
                    proof {
                        assert(self.indents() =~= st0.subrange(0, self.indents().len() as int));
                        assert(self.queue() =~= q1 + Seq::new(unwound as nat, |i: int| (Token {
                            span: eof_span,
                            info: TokenInfo::Dedent,
                        })));
                    }
                }
                proof {
                    assert(self.indents() =~= seq![0u64]);
                    assert(views_of(self.queue()) =~= step_toks(s0));
                    assert(self.model_state() =~= step_next(s0));
                }
                return Ok(true);
            }
        }
        if let Some(token) = self.try_scan_paren_bracket_brace()? {
            let ghost q_pre = self.queue();
            self.enqueue_token(token);
            proof {
                lemma_count_push(q_pre, token);
                assert(views_of(self.queue()) =~= step_toks(s0));
                assert(self.model_state() =~= step_next(s0));
            }
            return Ok(true);
        }
        if let Some(token) = self.scan_punctuation()? {
            let ghost q_pre = self.queue();
            self.enqueue_token(token);
            proof {
                lemma_count_push(q_pre, token);
                assert(views_of(self.queue()) =~= step_toks(s0));
                assert(self.model_state() =~= step_next(s0));
            }
            return Ok(true);
        }
        if let Some(token) = self.scan_word()? {
            let ghost q_pre = self.queue();
            self.enqueue_token(token);
            proof {
                lemma_count_push(q_pre, token);
                assert(views_of(self.queue()) =~= step_toks(s0));
                assert(self.model_state() =~= step_next(s0));
            }
            return Ok(true);
        }
        if let Some(token) = self.scan_number()? {
            let ghost q_pre = self.queue();
            self.enqueue_token(token);
            proof {
                lemma_count_push(q_pre, token);
                assert(views_of(self.queue()) =~= step_toks(s0));
                assert(self.model_state() =~= step_next(s0));
            }
            return Ok(true);
        }
        if let Some(token) = self.scan_string_literal()? {
            let ghost q_pre = self.queue();
            self.enqueue_token(token);
            proof {
                lemma_count_push(q_pre, token);
                assert(views_of(self.queue()) =~= step_toks(s0));
                assert(self.model_state() =~= step_next(s0));
            }
            return Ok(true);
        }
        if let Some(()) = self.scan_multiple_line_ending_tokens()? {
            proof {
                assert(views_of(self.queue()) =~= step_toks(s0));
                assert(self.model_state() =~= step_next(s0));
            }
            return Ok(true);
        }
        let mut text_chars: Vec<char> = Vec::new();
        append_str_chars(&mut text_chars, "Character '");
        match self.reader.peek() {
            Some(surprise_char) => {
                text_chars.push(surprise_char);
            },
            None => {
                proof {
                    assert(false);
                }
            },
        }
        append_str_chars(&mut text_chars, "' came as a total surprise");
        proof {
            assert(text_chars@ =~= "Character '"@ + seq![text[m]] + "' came as a total surprise"@);
        }
        let msg = Message::new(string_from_chars(&text_chars)).with_ref(
            String::from_str("see"),
            Loc::FilePos(self.reader.source(), self.reader.cursor()),
        );
        Err(Error::new().with_message(msg))
    }

    // -----------------------------------------------------------------------
    // The pull interface
    // -----------------------------------------------------------------------
    fn get_next_state(&mut self) -> (r: Result<CursorState, Error>)
        requires
            old(self).swf(),
            !(old(self).state() is EndOfFile),
        ensures
            final(self).swf(),
            old(self).keeps_ctx(final(self)),
            crate::intern::table_extends(old(self).interned(), final(self).interned()),
            final(self).pos() >= old(self).pos(),
            final(self).pos() == old(self).pos() ==> final(self).indents().len() <= old(self).indents().len(),
            final(self).pos() == old(self).pos() && final(self).indents().len() == old(self).indents().len() ==> final(self).queue().len() <= old(self).queue().len(),
            r is Err <==> old(self).queue().len() == 0 && old(self).step_errs(),
            ({
                let mv0 = views_of(old(self).queue()) + scan_toks(old(self).model_state());
                match r {
                    Ok(ns) => {
                        &&& (ns matches CursorState::InFile(t) ==> seq![token_view(t)] + views_of(
                            final(self).queue(),
                        ) + scan_toks(final(self).model_state()) == mv0 && scan_ok(
                            final(self).model_state(),
                        ) == scan_ok(old(self).model_state()))
                        &&& (ns is EndOfFile ==> mv0 == Seq::<TokenView>::empty() && scan_toks(
                            final(self).model_state(),
                        ) == Seq::<TokenView>::empty() && scan_ok(old(self).model_state())
                            && scan_ok(final(self).model_state()))
                        &&& (!scan_ok(final(self).model_state()) ==> fail_state(
                            final(self).model_state(),
                        ) == fail_state(old(self).model_state()))
                    },
                    Err(e) => !scan_ok(old(self).model_state()) && step_diag_rel(
                        old(self).model_state(),
                        old(self).src(),
                        e,
                    ),
                }
            }),
            match r {
                Ok(ns) => {
                    &&& !(ns is StartOfFile)
                    &&& (ns matches CursorState::InFile(t) ==> icount(final(self).queue())
                        + Self::tok_ind(t) - dcount(final(self).queue()) - Self::tok_ded(t)
                        - final(self).indents().len() == icount(old(self).queue()) - dcount(
                        old(self).queue(),
                    ) - old(self).indents().len())
                    &&& (ns is EndOfFile ==> final(self).queue().len() == 0 && final(self).indents().len() == 1 && final(self).brackets().len() == 0 && icount(
                        old(self).queue(),
                    ) - dcount(old(self).queue()) - old(self).indents().len() == -1)
                    &&& (ns is EndOfFile ==> final(self).pos() == final(self).text().len())
                    &&& (final(self).pos() == old(self).pos() && final(self).indents().len()
                        == old(self).indents().len() && final(self).queue().len() == old(self).queue().len() ==> ns is EndOfFile)
                },
                Err(_) => final(self).queue().len() >= old(self).queue().len() && icount(
                    final(self).queue(),
                ) - dcount(final(self).queue()) - final(self).indents().len() == icount(
                    old(self).queue(),
                ) - dcount(old(self).queue()) - old(self).indents().len(),
            },
    {
        let ghost s0 = self.model_state();
        let ghost q0 = self.queue();
        if let Some(next_token) = self.dequeue_token() {
            proof {
                lemma_views_of(q0);
                lemma_views_of(self.queue());
                assert(seq![token_view(next_token)] + views_of(self.queue()) =~= views_of(q0));
                assert(seq![token_view(next_token)] + views_of(self.queue()) + scan_toks(
                    self.model_state(),
                ) =~= views_of(q0) + scan_toks(s0));
            }
            return Ok(CursorState::InFile(next_token));
        }
        let replenished = self.replenish_token_queue()?;
        if replenished {
            let ghost q1 = self.queue();
            match self.dequeue_token() {
                Some(next_token) => {
                    proof {
                        assert(scan_toks(s0) =~= step_toks(s0) + scan_toks(step_next(s0)));
                        assert(scan_ok(s0) == scan_ok(step_next(s0)));
                        lemma_views_of(q1);
                        lemma_views_of(self.queue());
                        assert(seq![token_view(next_token)] + views_of(self.queue()) =~= views_of(
                            q1,
                        ));
                        assert(views_of(q0) =~= Seq::<TokenView>::empty());
                        assert(seq![token_view(next_token)] + views_of(self.queue()) + scan_toks(
                            self.model_state(),
                        ) =~= views_of(q0) + scan_toks(s0));
                    }
                    return Ok(CursorState::InFile(next_token));
                },
                None => {
                    proof {
                        assert(false);
                    }
                },
            }
        }
        proof {
            assert(scan_toks(s0) =~= Seq::<TokenView>::empty());
            assert(views_of(q0) =~= Seq::<TokenView>::empty());
            assert(views_of(q0) + scan_toks(s0) =~= Seq::<TokenView>::empty());
            assert(state_done(self.model_state()));
            assert(scan_toks(self.model_state()) =~= Seq::<TokenView>::empty());
        }
        Ok(CursorState::EndOfFile)
    }

    fn try_advance_impl(&mut self) -> (r: Result<Option<Token>, Error>)
        requires
            old(self).wf(),
        ensures
            final(self).wf(),
            final(self).text() == old(self).text(),
            final(self).src() == old(self).src(),
            final(self).tab_width() == old(self).tab_width(),
            crate::intern::table_extends(old(self).interned(), final(self).interned()),
            final(self).pos() >= old(self).pos(),
            final(self).pos() == old(self).pos() ==> final(self).indents().len() <= old(self).indents().len(),
            final(self).pos() == old(self).pos() && final(self).indents().len() == old(self).indents().len() ==> final(self).queue().len() <= old(self).queue().len(),
            final(self).pos() == old(self).pos() && final(self).indents().len() == old(self).indents().len() && final(self).queue().len() == old(self).queue().len() ==> final(self).state_rank() <= old(self).state_rank(),
            r is Err <==> !(old(self).state() is EndOfFile) && old(self).queue().len() == 0 && old(self).step_errs(),
            match r {
                Ok(opt) => {
                    &&& opt == old(self).peek_spec()
                    &&& final(self).served_indents() == old(self).served_indents()
                        + Self::opt_ind(opt)
                    &&& final(self).served_dedents() == old(self).served_dedents()
                        + Self::opt_ded(opt)
                    &&& !(final(self).state() is StartOfFile)
                    &&& (old(self).state() is EndOfFile ==> final(self).state() is EndOfFile
                        && final(self).pos() == old(self).pos())
                    &&& (opt is Some ==> final(self).pos() > old(self).pos() || final(self).indents().len() < old(self).indents().len() || final(self).queue().len()
                        < old(self).queue().len() || final(self).state_rank() < old(self).state_rank())
                    &&& (opt matches Some(t) ==> old(self).remaining().len() > 0 && token_view(t)
                        == old(self).remaining()[0] && final(self).remaining() == old(
                        self,
                    ).remaining().drop_first())
                    &&& (opt is None ==> final(self).remaining() == old(self).remaining() && (!(
                    old(self).state() is StartOfFile) ==> old(self).remaining().len() == 0))
                    &&& final(self).remaining_ok() == old(self).remaining_ok()
                    &&& (!final(self).remaining_ok() ==> fail_state(final(self).model_state())
                        == fail_state(old(self).model_state()))
                },
                Err(e) => {
                    &&& final(self).state() == old(self).state()
                    &&& final(self).served_indents() == old(self).served_indents()
                    &&& final(self).served_dedents() == old(self).served_dedents()
                    &&& !old(self).remaining_ok()
                    &&& step_diag_rel(old(self).model_state(), old(self).src(), e)
                },
            },
    {
        let at_end = matches!(self.cursor_state, CursorState::EndOfFile);
        let next_state = if at_end {
            CursorState::EndOfFile
        } else {
            self.get_next_state()?
        };
        let mut prev = next_state;
        core::mem::swap(&mut prev, &mut self.cursor_state);
        proof {
            if at_end {
                assert(state_done(old(self).model_state()));
                assert(scan_toks(old(self).model_state()) =~= Seq::<TokenView>::empty());
                assert(views_of(old(self).queue()) =~= Seq::<TokenView>::empty());
                assert(self.remaining() =~= old(self).remaining());
                assert(old(self).remaining() =~= Seq::<TokenView>::empty());
            } else {
                match &prev {
                    CursorState::InFile(t0) => {
                        assert(old(self).remaining() =~= seq![token_view(*t0)] + (views_of(
                            old(self).queue(),
                        ) + scan_toks(old(self).model_state())));
                        match &self.cursor_state {
                            CursorState::InFile(t1) => {
                                assert(self.remaining() =~= seq![token_view(*t1)] + views_of(
                                    self.queue(),
                                ) + scan_toks(self.model_state()));
                                assert(self.remaining() =~= old(self).remaining().drop_first());
                            },
                            CursorState::EndOfFile => {
                                assert(views_of(self.queue()) =~= Seq::<TokenView>::empty());
                                assert(self.remaining() =~= Seq::<TokenView>::empty());
                                assert(self.remaining() =~= old(self).remaining().drop_first());
                            },
                            CursorState::StartOfFile => {
                                assert(false);
                            },
                        }
                    },
                    CursorState::StartOfFile => {
                        assert(old(self).remaining() =~= views_of(old(self).queue()) + scan_toks(
                            old(self).model_state(),
                        ));
                        match &self.cursor_state {
                            CursorState::InFile(t1) => {
                                assert(self.remaining() =~= seq![token_view(*t1)] + views_of(
                                    self.queue(),
                                ) + scan_toks(self.model_state()));
                                assert(self.remaining() =~= old(self).remaining());
                            },
                            CursorState::EndOfFile => {
                                assert(views_of(self.queue()) =~= Seq::<TokenView>::empty());
                                assert(self.remaining() =~= Seq::<TokenView>::empty());
                                assert(self.remaining() =~= old(self).remaining());
                            },
                            CursorState::StartOfFile => {
                                assert(false);
                            },
                        }
                    },
                    CursorState::EndOfFile => {
                        assert(false);
                    },
                }
            }
        }
        match prev {
            CursorState::StartOfFile => Ok(None),
            CursorState::EndOfFile => Ok(None),
            CursorState::InFile(old_token) => {
                self.served_indent_count = Ghost(
                    self.served_indent_count@ + Self::tok_ind(old_token),
                );
                self.served_dedent_count = Ghost(
                    self.served_dedent_count@ + Self::tok_ded(old_token),
                );
                Ok(Some(old_token))
            },
        }
    }
}

impl Lexer {
    // -----------------------------------------------------------------------
    // Public interface
    // -----------------------------------------------------------------------
    /// Builds a lexer over one source unit and pre-fills the one-token
    /// lookahead, so the first token (if any) is immediately inspectable
    /// through `peek`. A diagnostic during that first scan step is returned
    /// rather than swallowed.
    pub fn new(
        intern_manager: Manager,
        source_id: SourceID,
        source_text: String,
        tab_width_in_spaces: i32,
    ) -> (r: Result<Lexer, Error>)
        requires
            intern_manager.wf(),
            source_text@.len() <= 0x7FFF_FFFE,
            tab_width_in_spaces >= 0,
        ensures
            ({
                let init = (ScanState {
                    text: source_text@,
                    pos: 0,
                    brackets: Seq::<(Span, char)>::empty(),
                    indents: seq![0u64],
                    interner: with_keywords(intern_manager.strings()),
                    tab: tab_width_in_spaces as int,
                });
                match r {
                    Ok(l) => {
                        &&& l.remaining() == scan_toks(init)
                        &&& (l.remaining_ok() <==> scan_ok(init))
                        &&& (match l.peek_spec() {
                            Some(t) => l.remaining().len() > 0 && token_view(t)
                                == l.remaining()[0],
                            None => l.remaining().len() == 0,
                        })
                        &&& (l.state() is EndOfFile <==> l.remaining().len() == 0)
                        &&& (l.state() is EndOfFile ==> l.queue().len() == 0 && l.indents()
                            == seq![0u64] && l.brackets().len() == 0)
                        &&& (!l.remaining_ok() ==> fail_state(l.model_state()) == fail_state(init))
                    },
                    Err(e) => step_diag_rel(init, source_id, e),
                }
            }),
            match r {
                Ok(l) => {
                    &&& l.wf()
                    &&& l.text() == source_text@
                    &&& l.src() == source_id
                    &&& l.tab_width() == tab_width_in_spaces as int
                    &&& l.served_indents() == 0
                    &&& l.served_dedents() == 0
                    &&& !(l.state() is StartOfFile)
                    &&& crate::intern::table_extends(intern_manager.strings(), l.interned())
                    &&& !step_errs_at(
                        source_text@,
                        0,
                        Seq::<(Span, char)>::empty(),
                        seq![0u64],
                        tab_width_in_spaces as int,
                    )
                },
                Err(_) => step_errs_at(
                    source_text@,
                    0,
                    Seq::<(Span, char)>::empty(),
                    seq![0u64],
                    tab_width_in_spaces as int,
                ),
            },
    {
        let ghost tab00 = intern_manager.strings();
        let mut mgr = intern_manager;
        let keyword_ids = Lexer::new_keyword_map(&mut mgr);
        proof {
            assert(mgr.strings() == with_keywords(tab00));
        }
        let reader = Reader::new(source_id, source_text);
        let mut indent_width_stack: Vec<u64> = Vec::new();
        indent_width_stack.push(0);
        let mut lexer = Lexer {
            reader,
            intern_manager: mgr,
            cursor_state: CursorState::StartOfFile,
            token_queue: VecDeque::new(),
            indent_width_stack,
            matching_token_pair_expectation_stack: Vec::new(),
            keyword_ids,
            tab_width_in_spaces,
            served_indent_count: Ghost(0int),
            served_dedent_count: Ghost(0int),
        };
        proof {
            assert(lexer.indents() =~= seq![0u64]);
            assert(lexer.queue() =~= Seq::<Token>::empty());
            assert(lexer.brackets() =~= Seq::<(Span, char)>::empty());
            assert(lexer.wf());
            assert(lexer.model_state() =~= (ScanState {
                text: source_text@,
                pos: 0,
                brackets: Seq::<(Span, char)>::empty(),
                indents: seq![0u64],
                interner: with_keywords(intern_manager.strings()),
                tab: tab_width_in_spaces as int,
            }));
            assert(views_of(lexer.queue()) =~= Seq::<TokenView>::empty());
            assert(lexer.remaining() =~= scan_toks(lexer.model_state()));
        }
        match lexer.try_advance_impl() {
            Ok(_) => {
                proof {
                    match &lexer.cursor_state {
                        CursorState::InFile(t) => {
                            assert(lexer.remaining() =~= seq![token_view(*t)] + views_of(
                                lexer.queue(),
                            ) + scan_toks(lexer.model_state()));
                        },
                        CursorState::EndOfFile => {
                            assert(views_of(lexer.queue()) =~= Seq::<TokenView>::empty());
                            assert(state_done(lexer.model_state()));
                            assert(scan_toks(lexer.model_state()) =~= Seq::<TokenView>::empty());
                            assert(lexer.remaining() =~= Seq::<TokenView>::empty());
                            assert(lexer.indents() =~= seq![0u64]);
                        },
                        CursorState::StartOfFile => {
                            assert(false);
                        },
                    }
                }
                Ok(lexer)
            },
            Err(e) => Err(e),
        }
    }

    /// The current lookahead token, without consuming it. Stable across
    /// repeated calls with no intervening `advance`.
    pub fn peek(&self) -> (r: Option<&Token>)
        ensures
            match r {
                Some(t) => self.peek_spec() == Some(*t),
                None => self.peek_spec() is None,
            },
    {
        match &self.cursor_state {
            CursorState::InFile(token) => Some(token),
            _ => None,
        }
    }

    /// Consumes and returns the current lookahead token — the head of the
    /// remaining token stream; the next token (if any) becomes inspectable
    /// via `peek`. Must not be called past end of input.
    pub fn advance(&mut self) -> (r: Result<Token, Error>)
        requires
            old(self).wf(),
            old(self).peek_spec() is Some,
        ensures
            final(self).wf(),
            final(self).text() == old(self).text(),
            final(self).src() == old(self).src(),
            final(self).tab_width() == old(self).tab_width(),
            crate::intern::table_extends(old(self).interned(), final(self).interned()),
            r is Err <==> old(self).queue().len() == 0 && old(self).step_errs(),
            old(self).remaining_ok() ==> r is Ok,
            match r {
                Ok(t) => {
                    &&& Some(t) == old(self).peek_spec()
                    &&& old(self).remaining().len() > 0
                    &&& token_view(t) == old(self).remaining()[0]
                    &&& final(self).remaining() == old(self).remaining().drop_first()
                    &&& final(self).remaining_ok() == old(self).remaining_ok()
                    &&& (!final(self).remaining_ok() ==> fail_state(final(self).model_state())
                        == fail_state(old(self).model_state()))
                    &&& final(self).served_indents() == old(self).served_indents() + Self::tok_ind(
                        t,
                    )
                    &&& final(self).served_dedents() == old(self).served_dedents() + Self::tok_ded(
                        t,
                    )
                    &&& !(final(self).state() is StartOfFile)
                },
                Err(e) => final(self).state() == old(self).state() && final(self).served_indents() == old(self).served_indents() && final(self).served_dedents()
                    == old(self).served_dedents() && !old(self).remaining_ok() && step_diag_rel(
                    old(self).model_state(),
                    old(self).src(),
                    e,
                ),
            },
    {
        match self.try_advance_impl() {
            Ok(opt) => match opt {
                Some(t) => Ok(t),
                None => {
                    proof {
                        assert(false);
                    }
                    Err(Error::new())
                },
            },
            Err(e) => Err(e),
        }
    }

    /// Like `advance`, but returns nothing instead of failing at end of
    /// input.
    pub fn try_advance(&mut self) -> (r: Result<Option<Token>, Error>)
        requires
            old(self).wf(),
        ensures
            final(self).wf(),
            final(self).text() == old(self).text(),
            final(self).src() == old(self).src(),
            final(self).tab_width() == old(self).tab_width(),
            crate::intern::table_extends(old(self).interned(), final(self).interned()),
            final(self).pos() >= old(self).pos(),
            final(self).pos() == old(self).pos() ==> final(self).indents().len() <= old(self).indents().len(),
            final(self).pos() == old(self).pos() && final(self).indents().len() == old(self).indents().len() ==> final(self).queue().len() <= old(self).queue().len(),
            final(self).pos() == old(self).pos() && final(self).indents().len() == old(self).indents().len() && final(self).queue().len() == old(self).queue().len() ==> final(self).state_rank() <= old(self).state_rank(),
            r is Err <==> !(old(self).state() is EndOfFile) && old(self).queue().len() == 0 && old(self).step_errs(),
            old(self).remaining_ok() ==> r is Ok,
            match r {
                Ok(opt) => {
                    &&& opt == old(self).peek_spec()
                    &&& (opt matches Some(t) ==> old(self).remaining().len() > 0 && token_view(t)
                        == old(self).remaining()[0] && final(self).remaining() == old(
                        self,
                    ).remaining().drop_first())
                    &&& (opt is None ==> final(self).remaining() == old(self).remaining() && (!(
                    old(self).state() is StartOfFile) ==> old(self).remaining().len() == 0))
                    &&& final(self).remaining_ok() == old(self).remaining_ok()
                    &&& final(self).served_indents() == old(self).served_indents()
                        + Self::opt_ind(opt)
                    &&& final(self).served_dedents() == old(self).served_dedents()
                        + Self::opt_ded(opt)
                    &&& !(final(self).state() is StartOfFile)
                    &&& (old(self).state() is EndOfFile ==> final(self).state() is EndOfFile)
                    &&& (!final(self).remaining_ok() ==> fail_state(final(self).model_state())
                        == fail_state(old(self).model_state()))
                    &&& (opt is Some ==> final(self).pos() > old(self).pos() || final(self).indents().len() < old(self).indents().len() || final(self).queue().len()
                        < old(self).queue().len() || final(self).state_rank() < old(self).state_rank())
                },
                Err(e) => final(self).state() == old(self).state() && final(self).served_indents() == old(self).served_indents() && final(self).served_dedents()
                    == old(self).served_dedents() && !old(self).remaining_ok() && step_diag_rel(
                    old(self).model_state(),
                    old(self).src(),
                    e,
                ),
            },
    {
        self.try_advance_impl()
    }

    /// Consumes the lookahead token exactly when the predicate accepts it.
    pub fn match_token<F: Fn(&Token) -> bool>(&mut self, token_predicate: F) -> (r: Result<
        Option<Token>,
        Error,
    >)
        requires
            old(self).wf(),
            forall|t: Token| #[trigger] token_predicate.requires((&t,)),
        ensures
            final(self).wf(),
            final(self).text() == old(self).text(),
            final(self).src() == old(self).src(),
            final(self).tab_width() == old(self).tab_width(),
            crate::intern::table_extends(old(self).interned(), final(self).interned()),
            match r {
                Ok(opt) => match opt {
                    Some(t) => {
                        &&& old(self).peek_spec() == Some(t)
                        &&& call_ensures(token_predicate, (&t,), true)
                        &&& old(self).remaining().len() > 0
                        &&& token_view(t) == old(self).remaining()[0]
                        &&& final(self).remaining() == old(self).remaining().drop_first()
                        &&& final(self).remaining_ok() == old(self).remaining_ok()
                    },
                    None => *final(self) == *old(self) && (old(self).peek_spec() is None || (
                    old(self).peek_spec() matches Some(pt) && call_ensures(
                        token_predicate,
                        (&pt,),
                        false,
                    ))),
                },
                Err(e) => old(self).queue().len() == 0 && old(self).step_errs() && !old(
                    self,
                ).remaining_ok() && final(self).state() == old(self).state() && step_diag_rel(
                    old(self).model_state(),
                    old(self).src(),
                    e,
                ),
            },
    {
        match self.peek() {
            Some(peek_token) => {
                if token_predicate(peek_token) {
                    match self.advance() {
                        Ok(t) => Ok(Some(t)),
                        Err(e) => Err(e),
                    }
                } else {
                    Ok(None)
                }
            },
            None => Ok(None),
        }
    }

    /// Scans to end of input, returning exactly the remaining token
    /// sequence the text yields, or the first diagnostic; it succeeds
    /// precisely when no remaining scan step reports one. On success the
    /// indent and dedent tokens of a whole scan balance exactly.
    pub fn scan_all_remaining_tokens(&mut self) -> (r: Result<Vec<Token>, Error>)
        requires
            old(self).wf(),
            !(old(self).state() is StartOfFile),
        ensures
            final(self).wf(),
            final(self).text() == old(self).text(),
            final(self).src() == old(self).src(),
            final(self).tab_width() == old(self).tab_width(),
            crate::intern::table_extends(old(self).interned(), final(self).interned()),
            r is Ok <==> old(self).remaining_ok(),
            match r {
                Ok(v) => {
                    &&& views_of(v@) == old(self).remaining()
                    &&& final(self).state() is EndOfFile
                    &&& final(self).peek_spec() is None
                    &&& final(self).served_indents() == old(self).served_indents() + icount(v@)
                    &&& final(self).served_dedents() == old(self).served_dedents() + dcount(v@)
                    &&& (old(self).served_indents() == 0 && old(self).served_dedents() == 0
                        ==> icount(v@) == dcount(v@))
                },
                Err(e) => step_diag_rel(
                    fail_state(old(self).model_state()),
                    old(self).src(),
                    e,
                ),
            },
    {
        let mut output: Vec<Token> = Vec::new();
        let mut going = true;
        while going
            invariant
                self.wf(),
                self.text() == old(self).text(),
                self.src() == old(self).src(),
                self.tab_width() == old(self).tab_width(),
                crate::intern::table_extends(old(self).interned(), self.interned()),
                !(self.state() is StartOfFile),
                self.served_indents() == old(self).served_indents() + icount(output@),
                self.served_dedents() == old(self).served_dedents() + dcount(output@),
                views_of(output@) + self.remaining() == old(self).remaining(),
                self.remaining_ok() == old(self).remaining_ok(),
                !self.remaining_ok() ==> fail_state(self.model_state()) == fail_state(
                    old(self).model_state(),
                ),
                !going ==> self.state() is EndOfFile,
            decreases self.text().len() - self.pos(), self.indents().len(), self.queue().len(),
                self.state_rank(), if going {
                1int
            } else {
                0int
            },
        {
            match self.try_advance() {
                Ok(opt) => match opt {
                    Some(token) => {
                        let ghost out0 = output@;
                        output.push(token);
                        proof {
                            lemma_count_push(out0, token);
                            lemma_views_of(out0);
                            lemma_views_of(output@);
                            assert(views_of(output@) =~= views_of(out0).push(token_view(token)));
                            assert(views_of(output@) + self.remaining() =~= old(self).remaining());
                        }
                    },
                    None => {
                        going = false;
                    },
                },
                Err(e) => {
                    return Err(e);
                },
            }
        }
        proof {
            lemma_count_nonneg(output@);
            assert(self.remaining() =~= Seq::<TokenView>::empty());
            assert(views_of(output@) =~= old(self).remaining());
        }
        Ok(output)
    }

    /// A shared reference to the interner, for resolving identifier handles.
    pub fn interner(&self) -> (m: &Manager)
        requires
            self.wf(),
        ensures
            m.wf(),
            m.strings() == self.interned(),
    {
        &self.intern_manager
    }

    /// Hands the interner back when scanning is over.
    pub fn into_interner(self) -> (m: Manager)
        requires
            self.wf(),
        ensures
            m.wf(),
            m.strings() == self.interned(),
    {
        self.intern_manager
    }
}

/// The keyword table invariant, free-standing so the constructor can state
/// it before the lexer exists.
pub(crate) open spec fn kw_ids_ok(ids: Seq<IntStr>, tab: Seq<Seq<char>>) -> bool {
    &&& ids.len() == 6
    &&& kw_id_entry(ids, tab, 0, "self"@)
    &&& kw_id_entry(ids, tab, 1, "Self"@)
    &&& kw_id_entry(ids, tab, 2, "in"@)
    &&& kw_id_entry(ids, tab, 3, "mut"@)
    &&& kw_id_entry(ids, tab, 4, "weak"@)
    &&& kw_id_entry(ids, tab, 5, "use"@)
}

pub(crate) open spec fn kw_id_entry(ids: Seq<IntStr>, tab: Seq<Seq<char>>, k: int, w: Seq<char>) -> bool {
    &&& 0 <= ids[k].sid() < tab.len()
    &&& tab[ids[k].sid()] == w
}

} // verus!
