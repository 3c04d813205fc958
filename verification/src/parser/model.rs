//! The mathematical model of one scan step: where each lexeme class ends in
//! the text, what it carries, and when it reports a diagnostic; plus the
//! indentation-stack model and the balance law for indent and dedent tokens.

use vstd::prelude::*;

use crate::parser::chars::is_dec_digit;
use crate::parser::chars::is_dec_digit_or_underscore;
use crate::parser::chars::is_hex_digit_or_underscore;
use crate::parser::chars::is_ascii_lower;
use crate::parser::chars::is_ascii_upper;
use crate::parser::chars::is_space_char;
use crate::parser::chars::is_word_char;
use crate::parser::chars::is_word_start_char;
use crate::fb::error::Error;
use crate::feedback::loc::Loc;
use crate::feedback::loc::Span;
use crate::parser::chars::dec_chars;
use crate::parser::reader::cr_diagnostic;
use crate::source::SourceID;
use crate::intern::interned_id;
use crate::intern::interned_table;
use crate::parser::reader::cursor_at;
use crate::parser::token::info_view;
use crate::parser::token::IntegerFormat;
use crate::parser::token::Token;
use crate::parser::token::TokenInfo;
use crate::parser::token::TokenInfoView;
use crate::parser::token::TokenView;

verus! {

// ---------------------------------------------------------------------------
// Maximal runs
// ---------------------------------------------------------------------------
/// The end of the maximal run of characters satisfying `f` from `p` on.
pub open spec fn run_end(text: Seq<char>, p: int, f: spec_fn(char) -> bool) -> int
    decreases text.len() - p,
{
    if p < 0 || p >= text.len() || !f(text[p]) {
        p
    } else {
        run_end(text, p + 1, f)
    }
}

pub proof fn lemma_run_end(text: Seq<char>, p: int, f: spec_fn(char) -> bool)
    requires
        0 <= p <= text.len(),
    ensures
        p <= run_end(text, p, f) <= text.len(),
        forall|j: int| p <= j < run_end(text, p, f) ==> f(text[j]),
        run_end(text, p, f) < text.len() ==> !f(text[run_end(text, p, f)]),
    decreases text.len() - p,
{
    if p < text.len() && f(text[p]) {
        lemma_run_end(text, p + 1, f);
    }
}

/// A run is unchanged by consuming one of its characters.
pub proof fn lemma_run_end_step(text: Seq<char>, p: int, f: spec_fn(char) -> bool)
    requires
        0 <= p < text.len(),
        f(text[p]),
    ensures
        run_end(text, p, f) == run_end(text, p + 1, f),
{
}

// ---------------------------------------------------------------------------
// Whitespace, comments, and the skip phase of one scan step
// ---------------------------------------------------------------------------
/// Where the whitespace-and-comments phase stops, starting at `p`.
/// `brackets` says whether a bracket is pending, in which case newlines are
/// silently skipped too; `in_cmt` says a `#` line comment is being read,
/// which extends to — but does not consume — the terminating newline.
pub open spec fn skip_end(text: Seq<char>, p: int, brackets: bool, in_cmt: bool) -> int
    decreases text.len() - p, if in_cmt { 1int } else { 0int },
{
    if p < 0 || p >= text.len() {
        p
    } else if in_cmt {
        if text[p] == '\n' {
            skip_end(text, p, brackets, false)
        } else if text[p] == '\r' {
            if p + 1 < text.len() && text[p + 1] == '\n' {
                skip_end(text, p + 2, brackets, true)
            } else {
                p
            }
        } else {
            skip_end(text, p + 1, brackets, true)
        }
    } else {
        if is_space_char(text[p]) {
            skip_end(text, p + 1, brackets, false)
        } else if text[p] == '#' {
            skip_end(text, p + 1, brackets, true)
        } else if brackets && text[p] == '\n' {
            skip_end(text, p + 1, brackets, false)
        } else {
            p
        }
    }
}

/// Whether the skip phase reports a diagnostic: a lone carriage return
/// inside a line comment.
pub open spec fn skip_err(text: Seq<char>, p: int, brackets: bool, in_cmt: bool) -> bool
    decreases text.len() - p, if in_cmt { 1int } else { 0int },
{
    if p < 0 || p >= text.len() {
        false
    } else if in_cmt {
        if text[p] == '\n' {
            skip_err(text, p, brackets, false)
        } else if text[p] == '\r' {
            if p + 1 < text.len() && text[p + 1] == '\n' {
                skip_err(text, p + 2, brackets, true)
            } else {
                true
            }
        } else {
            skip_err(text, p + 1, brackets, true)
        }
    } else {
        if is_space_char(text[p]) {
            skip_err(text, p + 1, brackets, false)
        } else if text[p] == '#' {
            skip_err(text, p + 1, brackets, true)
        } else if brackets && text[p] == '\n' {
            skip_err(text, p + 1, brackets, false)
        } else {
            false
        }
    }
}

pub proof fn lemma_skip_end_bounds(text: Seq<char>, p: int, brackets: bool, in_cmt: bool)
    requires
        0 <= p <= text.len(),
    ensures
        p <= skip_end(text, p, brackets, in_cmt) <= text.len(),
    decreases text.len() - p, if in_cmt { 1int } else { 0int },
{
    if p < text.len() {
        if in_cmt {
            if text[p] == '\n' {
                lemma_skip_end_bounds(text, p, brackets, false);
            } else if text[p] == '\r' {
                if p + 1 < text.len() && text[p + 1] == '\n' {
                    lemma_skip_end_bounds(text, p + 2, brackets, true);
                }
            } else {
                lemma_skip_end_bounds(text, p + 1, brackets, true);
            }
        } else {
            if is_space_char(text[p]) {
                lemma_skip_end_bounds(text, p + 1, brackets, false);
            } else if text[p] == '#' {
                lemma_skip_end_bounds(text, p + 1, brackets, true);
            } else if brackets && text[p] == '\n' {
                lemma_skip_end_bounds(text, p + 1, brackets, false);
            }
        }
    }
}

/// The skip phase stops only at end of input or at a character it cannot
/// skip: never at a space or tab, never at a `#`, and — while a bracket is
/// pending — never at a newline.
pub proof fn lemma_skip_end_stop(text: Seq<char>, p: int, brackets: bool, in_cmt: bool)
    requires
        0 <= p <= text.len(),
    ensures
        ({
            let m = skip_end(text, p, brackets, in_cmt);
            m == text.len() || (!is_space_char(text[m]) && text[m] != '#' && (brackets
                ==> text[m] != '\n'))
        }),
    decreases text.len() - p, if in_cmt { 1int } else { 0int },
{
    lemma_skip_end_bounds(text, p, brackets, in_cmt);
    if p < text.len() {
        if in_cmt {
            if text[p] == '\n' {
                lemma_skip_end_stop(text, p, brackets, false);
            } else if text[p] == '\r' {
                if p + 1 < text.len() && text[p + 1] == '\n' {
                    lemma_skip_end_stop(text, p + 2, brackets, true);
                }
            } else {
                lemma_skip_end_stop(text, p + 1, brackets, true);
            }
        } else {
            if is_space_char(text[p]) {
                lemma_skip_end_stop(text, p + 1, brackets, false);
            } else if text[p] == '#' {
                lemma_skip_end_stop(text, p + 1, brackets, true);
            } else if brackets && text[p] == '\n' {
                lemma_skip_end_stop(text, p + 1, brackets, false);
            }
        }
    }
}

/// Where a `#` line comment's body scan stops, starting right after the
/// `#`: at the terminating newline (not consumed) or at end of input; a
/// `\r\n` pair inside the comment is consumed as one step.
pub open spec fn cmt_stop(text: Seq<char>, p: int) -> int
    decreases text.len() - p,
{
    if p < 0 || p >= text.len() {
        p
    } else if text[p] == '\n' {
        p
    } else if text[p] == '\r' {
        if p + 1 < text.len() && text[p + 1] == '\n' {
            cmt_stop(text, p + 2)
        } else {
            p
        }
    } else {
        cmt_stop(text, p + 1)
    }
}

/// Whether the comment body scan hits a lone carriage return.
pub open spec fn cmt_err(text: Seq<char>, p: int) -> bool
    decreases text.len() - p,
{
    if p < 0 || p >= text.len() {
        false
    } else if text[p] == '\n' {
        false
    } else if text[p] == '\r' {
        if p + 1 < text.len() && text[p + 1] == '\n' {
            cmt_err(text, p + 2)
        } else {
            true
        }
    } else {
        cmt_err(text, p + 1)
    }
}

pub proof fn lemma_cmt_stop_bounds(text: Seq<char>, p: int)
    requires
        0 <= p <= text.len(),
    ensures
        p <= cmt_stop(text, p) <= text.len(),
        !cmt_err(text, p) ==> cmt_stop(text, p) == text.len() || text[cmt_stop(text, p)] == '\n',
    decreases text.len() - p,
{
    if p < text.len() && text[p] != '\n' {
        if text[p] == '\r' {
            if p + 1 < text.len() && text[p + 1] == '\n' {
                lemma_cmt_stop_bounds(text, p + 2);
            }
        } else {
            lemma_cmt_stop_bounds(text, p + 1);
        }
    }
}

/// Reading a comment body and then continuing the skip phase is the skip
/// phase run from inside the comment.
pub proof fn lemma_skip_through_comment(text: Seq<char>, p: int, brackets: bool)
    requires
        0 <= p <= text.len(),
        !cmt_err(text, p),
    ensures
        skip_end(text, p, brackets, true) == skip_end(text, cmt_stop(text, p), brackets, false),
        skip_err(text, p, brackets, true) == skip_err(text, cmt_stop(text, p), brackets, false),
    decreases text.len() - p,
{
    if p < text.len() && text[p] != '\n' {
        if text[p] == '\r' {
            lemma_skip_through_comment(text, p + 2, brackets);
        } else {
            lemma_skip_through_comment(text, p + 1, brackets);
        }
    }
}

/// A comment body scan that hits a lone carriage return makes the whole
/// skip phase report it.
pub proof fn lemma_skip_comment_err(text: Seq<char>, p: int, brackets: bool)
    requires
        0 <= p <= text.len(),
        cmt_err(text, p),
    ensures
        skip_err(text, p, brackets, true),
    decreases text.len() - p,
{
    if p < text.len() && text[p] != '\n' {
        if text[p] == '\r' {
            if p + 1 < text.len() && text[p + 1] == '\n' {
                lemma_skip_comment_err(text, p + 2, brackets);
            }
        } else {
            lemma_skip_comment_err(text, p + 1, brackets);
        }
    }
}

// ---------------------------------------------------------------------------
// Punctuation and operators, longest match first
// ---------------------------------------------------------------------------
/// The two-character operators.
pub open spec fn punct2_info(a: char, b: char) -> Option<TokenInfo> {
    if a == ':' && b == '=' {
        Some(TokenInfo::Update)
    } else if a == '<' && b == '<' {
        Some(TokenInfo::LeftShift)
    } else if a == '<' && b == '=' {
        Some(TokenInfo::LessThanOrEquals)
    } else if a == '>' && b == '>' {
        Some(TokenInfo::RightShift)
    } else if a == '>' && b == '=' {
        Some(TokenInfo::GreaterThanOrEquals)
    } else if a == '=' && b == '=' {
        Some(TokenInfo::Equals)
    } else if a == '!' && b == '=' {
        Some(TokenInfo::NotEquals)
    } else if a == '/' && b == '/' {
        Some(TokenInfo::Quotient)
    } else if a == '&' && b == '&' {
        Some(TokenInfo::LogicalAnd)
    } else if a == '|' && b == '|' {
        Some(TokenInfo::LogicalOr)
    } else {
        None
    }
}

/// The single-character operators and punctuation.
pub open spec fn punct1_info(a: char) -> Option<TokenInfo> {
    if a == '.' {
        Some(TokenInfo::Period)
    } else if a == ',' {
        Some(TokenInfo::Comma)
    } else if a == ':' {
        Some(TokenInfo::Colon)
    } else if a == '<' {
        Some(TokenInfo::LessThan)
    } else if a == '>' {
        Some(TokenInfo::GreaterThan)
    } else if a == '=' {
        Some(TokenInfo::Assign)
    } else if a == '!' {
        Some(TokenInfo::ExclamationPoint)
    } else if a == '*' {
        Some(TokenInfo::Asterisk)
    } else if a == '/' {
        Some(TokenInfo::Divide)
    } else if a == '%' {
        Some(TokenInfo::Modulo)
    } else if a == '+' {
        Some(TokenInfo::Plus)
    } else if a == '-' {
        Some(TokenInfo::Minus)
    } else if a == '&' {
        Some(TokenInfo::BitwiseAnd)
    } else if a == '|' {
        Some(TokenInfo::BitwiseOr)
    } else if a == '^' {
        Some(TokenInfo::BitwiseXOr)
    } else {
        None
    }
}

/// How many characters the punctuation at `p` spans: 0 when none matches.
pub open spec fn punct_len(text: Seq<char>, p: int) -> int {
    if 0 <= p && p + 1 < text.len() && punct2_info(text[p], text[p + 1]) is Some {
        2
    } else if 0 <= p && p < text.len() && punct1_info(text[p]) is Some {
        1
    } else {
        0
    }
}

/// The token kind of the punctuation at `p`.
pub open spec fn punct_info(text: Seq<char>, p: int) -> TokenInfo
    recommends
        punct_len(text, p) > 0,
{
    if punct_len(text, p) == 2 {
        punct2_info(text[p], text[p + 1]).unwrap()
    } else {
        punct1_info(text[p]).unwrap()
    }
}

/// The opening bracket characters: token kind and expected closing
/// character.
pub open spec fn open_bracket_info(c: char) -> Option<(TokenInfo, char)> {
    if c == '(' {
        Some((TokenInfo::LeftParenthesis, ')'))
    } else if c == '[' {
        Some((TokenInfo::LeftSquareBracket, ']'))
    } else if c == '{' {
        Some((TokenInfo::LeftCurlyBrace, '}'))
    } else {
        None
    }
}

/// The closing bracket characters: token kind and complementary opener.
pub open spec fn close_bracket_info(c: char) -> Option<(TokenInfo, char)> {
    if c == ')' {
        Some((TokenInfo::RightParenthesis, '('))
    } else if c == ']' {
        Some((TokenInfo::RightSquareBracket, '['))
    } else if c == '}' {
        Some((TokenInfo::RightCurlyBrace, '{'))
    } else {
        None
    }
}

// ---------------------------------------------------------------------------
// Identifiers, keywords, classification
// ---------------------------------------------------------------------------
pub open spec fn word_end(text: Seq<char>, p: int) -> int {
    run_end(text, p, |c: char| is_word_char(c))
}

/// Scanning left to right, the first cased letter decides: lowercase first
/// makes a value identifier, uppercase first a type identifier; no cased
/// letter at all defaults to a value identifier.
pub open spec fn is_value_word_from(s: Seq<char>, i: int) -> bool
    decreases s.len() - i,
{
    if i < 0 || i >= s.len() {
        true
    } else if is_ascii_upper(s[i]) {
        false
    } else if is_ascii_lower(s[i]) {
        true
    } else {
        is_value_word_from(s, i + 1)
    }
}

pub open spec fn is_value_word(s: Seq<char>) -> bool {
    is_value_word_from(s, 0)
}

/// The fixed keyword table: a hit overrides the identifier classification.
pub open spec fn keyword_info(w: Seq<char>) -> Option<TokenInfo> {
    if w == "self"@ {
        Some(TokenInfo::ValueSelfKeyword)
    } else if w == "Self"@ {
        Some(TokenInfo::TypeSelfKeyword)
    } else if w == "in"@ {
        Some(TokenInfo::InKeyword)
    } else if w == "mut"@ {
        Some(TokenInfo::MutKeyword)
    } else if w == "weak"@ {
        Some(TokenInfo::WeakKeyword)
    } else if w == "use"@ {
        Some(TokenInfo::UseKeyword)
    } else {
        None
    }
}

/// What an identifier-or-keyword run classifies as.
pub open spec fn word_info(w: Seq<char>, id: crate::intern::IntStr) -> TokenInfo {
    match keyword_info(w) {
        Some(kw) => kw,
        None => if is_value_word(w) {
            TokenInfo::ValueIdentifier(id)
        } else {
            TokenInfo::TypeIdentifier(id)
        },
    }
}

// ---------------------------------------------------------------------------
// Numeric literals
// ---------------------------------------------------------------------------
pub open spec fn dec_run_end(text: Seq<char>, p: int) -> int {
    run_end(text, p, |c: char| is_dec_digit_or_underscore(c))
}

pub open spec fn hex_run_end(text: Seq<char>, p: int) -> int {
    run_end(text, p, |c: char| is_hex_digit_or_underscore(c))
}

/// `q` is the position of the leading digit throughout. A number is
/// hexadecimal when it starts `0x` or `0X`.
pub open spec fn num_is_hex(text: Seq<char>, q: int) -> bool {
    text[q] == '0' && q + 1 < text.len() && (text[q + 1] == 'x' || text[q + 1] == 'X')
}

/// End of the integer digit run.
pub open spec fn num_int_end(text: Seq<char>, q: int) -> int {
    dec_run_end(text, q)
}

pub open spec fn num_has_frac(text: Seq<char>, q: int) -> bool {
    !num_is_hex(text, q) && num_int_end(text, q) < text.len() && text[num_int_end(text, q)] == '.'
}

/// End of the mantissa: integer digits plus an optional point and fraction.
pub open spec fn num_mant_end(text: Seq<char>, q: int) -> int {
    if num_has_frac(text, q) {
        dec_run_end(text, num_int_end(text, q) + 1)
    } else {
        num_int_end(text, q)
    }
}

pub open spec fn num_has_exp(text: Seq<char>, q: int) -> bool {
    !num_is_hex(text, q) && num_mant_end(text, q) < text.len() && (text[num_mant_end(text, q)]
        == 'e' || text[num_mant_end(text, q)] == 'E')
}

pub open spec fn num_exp_neg(text: Seq<char>, q: int) -> bool {
    num_mant_end(text, q) + 1 < text.len() && text[num_mant_end(text, q) + 1] == '-'
}

/// Where the exponent digits start: after `e`/`E` and an optional minus.
pub open spec fn num_exp_digits_start(text: Seq<char>, q: int) -> int {
    num_mant_end(text, q) + 1 + if num_exp_neg(text, q) {
        1int
    } else {
        0int
    }
}

pub open spec fn num_exp_end(text: Seq<char>, q: int) -> int {
    dec_run_end(text, num_exp_digits_start(text, q))
}

/// An exponent marker with no digits after it is a diagnostic.
pub open spec fn num_errs(text: Seq<char>, q: int) -> bool {
    num_has_exp(text, q) && num_exp_end(text, q) == num_exp_digits_start(text, q)
}

/// Where the whole numeric token ends.
pub open spec fn num_end(text: Seq<char>, q: int) -> int {
    if num_is_hex(text, q) {
        hex_run_end(text, q + 2)
    } else if num_has_exp(text, q) {
        num_exp_end(text, q)
    } else {
        num_mant_end(text, q)
    }
}

/// The unevaluated mantissa text the token carries.
pub open spec fn num_mantissa(text: Seq<char>, q: int) -> Seq<char> {
    if num_is_hex(text, q) {
        text.subrange(q + 2, hex_run_end(text, q + 2))
    } else {
        text.subrange(q, num_mant_end(text, q))
    }
}

/// The unevaluated exponent text, minus sign included, when present.
pub open spec fn num_exponent(text: Seq<char>, q: int) -> Option<Seq<char>> {
    if !num_has_exp(text, q) {
        None
    } else if num_exp_neg(text, q) {
        Some(seq!['-'] + text.subrange(num_exp_digits_start(text, q), num_exp_end(text, q)))
    } else {
        Some(text.subrange(num_exp_digits_start(text, q), num_exp_end(text, q)))
    }
}

/// A fractional part or an exponent makes the literal a float.
pub open spec fn num_is_float(text: Seq<char>, q: int) -> bool {
    num_has_frac(text, q) || num_has_exp(text, q)
}

pub proof fn lemma_word_end(text: Seq<char>, p: int)
    requires
        0 <= p <= text.len(),
    ensures
        p <= word_end(text, p) <= text.len(),
        forall|j: int| p <= j < word_end(text, p) ==> is_word_char(text[j]),
        word_end(text, p) < text.len() ==> !is_word_char(text[word_end(text, p)]),
        p < text.len() && is_word_char(text[p]) ==> word_end(text, p) == word_end(text, p + 1),
{
    lemma_run_end(text, p, |c: char| is_word_char(c));
    if p < text.len() && is_word_char(text[p]) {
        lemma_run_end_step(text, p, |c: char| is_word_char(c));
    }
}

pub proof fn lemma_dec_run_end(text: Seq<char>, p: int)
    requires
        0 <= p <= text.len(),
    ensures
        p <= dec_run_end(text, p) <= text.len(),
        forall|j: int| p <= j < dec_run_end(text, p) ==> is_dec_digit_or_underscore(text[j]),
        dec_run_end(text, p) < text.len() ==> !is_dec_digit_or_underscore(
            text[dec_run_end(text, p)],
        ),
        p < text.len() && is_dec_digit_or_underscore(text[p]) ==> dec_run_end(text, p)
            == dec_run_end(text, p + 1),
{
    lemma_run_end(text, p, |c: char| is_dec_digit_or_underscore(c));
    if p < text.len() && is_dec_digit_or_underscore(text[p]) {
        lemma_run_end_step(text, p, |c: char| is_dec_digit_or_underscore(c));
    }
}

pub proof fn lemma_hex_run_end(text: Seq<char>, p: int)
    requires
        0 <= p <= text.len(),
    ensures
        p <= hex_run_end(text, p) <= text.len(),
        forall|j: int| p <= j < hex_run_end(text, p) ==> is_hex_digit_or_underscore(text[j]),
        hex_run_end(text, p) < text.len() ==> !is_hex_digit_or_underscore(
            text[hex_run_end(text, p)],
        ),
        p < text.len() && is_hex_digit_or_underscore(text[p]) ==> hex_run_end(text, p)
            == hex_run_end(text, p + 1),
{
    lemma_run_end(text, p, |c: char| is_hex_digit_or_underscore(c));
    if p < text.len() && is_hex_digit_or_underscore(text[p]) {
        lemma_run_end_step(text, p, |c: char| is_hex_digit_or_underscore(c));
    }
}

pub proof fn lemma_ind_end(text: Seq<char>, p: int)
    requires
        0 <= p <= text.len(),
    ensures
        p <= ind_end(text, p) <= text.len(),
        forall|j: int| p <= j < ind_end(text, p) ==> is_space_char(text[j]),
        ind_end(text, p) < text.len() ==> !is_space_char(text[ind_end(text, p)]),
        p < text.len() && is_space_char(text[p]) ==> ind_end(text, p) == ind_end(text, p + 1),
{
    lemma_run_end(text, p, |c: char| is_space_char(c));
    if p < text.len() && is_space_char(text[p]) {
        lemma_run_end_step(text, p, |c: char| is_space_char(c));
    }
}

// ---------------------------------------------------------------------------
// String literals
// ---------------------------------------------------------------------------
/// The characters an escape may name, and what each decodes to.
pub open spec fn escape_of(c: char) -> Option<char> {
    if c == '"' {
        Some('"')
    } else if c == 'n' {
        Some('\n')
    } else if c == 'r' {
        Some('\r')
    } else if c == 't' {
        Some('\t')
    } else if c == 'a' {
        Some('\u{7}')
    } else {
        None
    }
}

/// Whether scanning a string body from `p` (just after the opening quote)
/// reports a diagnostic: end of input before the closing quote, an escape
/// character outside the fixed set, or a lone carriage return.
pub open spec fn str_errs(text: Seq<char>, p: int) -> bool
    decreases text.len() - p,
{
    if p < 0 || p >= text.len() {
        true
    } else if text[p] == '"' {
        false
    } else if text[p] == '\\' {
        if p + 1 < text.len() && escape_of(text[p + 1]) is Some {
            str_errs(text, p + 2)
        } else {
            true
        }
    } else if text[p] == '\r' {
        if p + 1 < text.len() && text[p + 1] == '\n' {
            str_errs(text, p + 2)
        } else {
            true
        }
    } else {
        str_errs(text, p + 1)
    }
}

/// Whether the string body scan reaches end of input before the closing
/// quote — the unterminated case, as opposed to a bad escape or a lone
/// carriage return.
pub open spec fn str_hits_eof(text: Seq<char>, p: int) -> bool
    decreases text.len() - p,
{
    if p < 0 || p >= text.len() {
        true
    } else if text[p] == '"' {
        false
    } else if text[p] == '\\' {
        if p + 1 < text.len() && escape_of(text[p + 1]) is Some {
            str_hits_eof(text, p + 2)
        } else {
            false
        }
    } else if text[p] == '\r' {
        if p + 1 < text.len() && text[p + 1] == '\n' {
            str_hits_eof(text, p + 2)
        } else {
            false
        }
    } else {
        str_hits_eof(text, p + 1)
    }
}

/// Where the string body ends: the position just after the closing quote.
pub open spec fn str_end(text: Seq<char>, p: int) -> int
    decreases text.len() - p,
{
    if p < 0 || p >= text.len() {
        p
    } else if text[p] == '"' {
        p + 1
    } else if text[p] == '\\' {
        if p + 1 < text.len() && escape_of(text[p + 1]) is Some {
            str_end(text, p + 2)
        } else {
            p
        }
    } else if text[p] == '\r' {
        if p + 1 < text.len() && text[p + 1] == '\n' {
            str_end(text, p + 2)
        } else {
            p
        }
    } else {
        str_end(text, p + 1)
    }
}

/// The decoded content of the string body from `p`: characters verbatim,
/// escapes mapped to their control characters, `\r\n` kept as the carriage
/// return it presents to the reader.
pub open spec fn str_content(text: Seq<char>, p: int) -> Seq<char>
    decreases text.len() - p,
{
    if p < 0 || p >= text.len() {
        Seq::empty()
    } else if text[p] == '"' {
        Seq::empty()
    } else if text[p] == '\\' {
        if p + 1 < text.len() && escape_of(text[p + 1]) is Some {
            seq![escape_of(text[p + 1]).unwrap()] + str_content(text, p + 2)
        } else {
            Seq::empty()
        }
    } else if text[p] == '\r' {
        if p + 1 < text.len() && text[p + 1] == '\n' {
            seq!['\r'] + str_content(text, p + 2)
        } else {
            Seq::empty()
        }
    } else {
        seq![text[p]] + str_content(text, p + 1)
    }
}

// ---------------------------------------------------------------------------
// Indentation widths and the indent stack
// ---------------------------------------------------------------------------
/// Where the indentation whitespace after a newline ends.
pub open spec fn ind_end(text: Seq<char>, p: int) -> int {
    run_end(text, p, |c: char| is_space_char(c))
}

/// The indentation width of a whitespace run: a space counts 1, a tab the
/// configured tab width.
pub open spec fn width_of(s: Seq<char>, tab: int) -> int
    decreases s.len(),
{
    if s.len() == 0 {
        0
    } else {
        width_of(s.drop_last(), tab) + if s.last() == '\t' {
            tab
        } else {
            1int
        }
    }
}

/// The measured indentation width at a newline consumed at `p` (so the
/// whitespace starts at `p + 1`).
pub open spec fn indent_width_at(text: Seq<char>, p: int, tab: int) -> int {
    width_of(text.subrange(p, ind_end(text, p)), tab)
}

/// The stack after popping every level above `w`.
pub open spec fn popped_stack(st: Seq<u64>, w: u64) -> Seq<u64>
    decreases st.len(),
{
    if st.len() == 0 {
        st
    } else if st.last() > w {
        popped_stack(st.drop_last(), w)
    } else {
        st
    }
}

/// A well-formed indent stack: non-empty, sentinel 0 at the bottom,
/// strictly increasing.
pub open spec fn stack_wf(st: Seq<u64>) -> bool {
    &&& st.len() >= 1
    &&& st[0] == 0
    &&& forall|i: int, j: int| 0 <= i < j < st.len() ==> st[i] < st[j]
}

/// The stack after one line of width `w`: pop to `w` or below, push a
/// deeper width, keep an equal one.
pub open spec fn stack_step(st: Seq<u64>, w: u64) -> Seq<u64>
    recommends
        st.len() >= 1,
{
    if w < st.last() {
        popped_stack(st, w)
    } else if w > st.last() {
        st.push(w)
    } else {
        st
    }
}

/// Whether the line's width fails to land exactly on a remaining level.
pub open spec fn stack_step_errs(st: Seq<u64>, w: u64) -> bool
    recommends
        st.len() >= 1,
{
    w < st.last() && (popped_stack(st, w).len() == 0 || popped_stack(st, w).last() != w)
}

/// How many dedent tokens one line of width `w` emits.
pub open spec fn step_dedents(st: Seq<u64>, w: u64) -> int
    recommends
        st.len() >= 1,
{
    if w < st.last() {
        st.len() - popped_stack(st, w).len()
    } else {
        0
    }
}

/// How many indent tokens one line of width `w` emits.
pub open spec fn step_indents(st: Seq<u64>, w: u64) -> int
    recommends
        st.len() >= 1,
{
    if w > st.last() {
        1
    } else {
        0
    }
}

pub proof fn lemma_popped_stack(st: Seq<u64>, w: u64)
    requires
        stack_wf(st),
    ensures
        1 <= popped_stack(st, w).len() <= st.len(),
        popped_stack(st, w) == st.subrange(0, popped_stack(st, w).len() as int),
        stack_wf(popped_stack(st, w)),
        popped_stack(st, w).last() <= w,
        popped_stack(st, w).len() < st.len() ==> st[popped_stack(st, w).len() as int] > w,
    decreases st.len(),
{
    if st.len() > 0 && st.last() > w {
        let head = st.drop_last();
        if st.len() == 1 {
            assert(st.last() == st[0]);
        } else {
            assert(stack_wf(head)) by {
                assert(forall|i: int, j: int| 0 <= i < j < head.len() ==> head[i] < head[j]);
            }
            lemma_popped_stack(head, w);
            assert(popped_stack(st, w) == popped_stack(head, w));
            assert(head == st.subrange(0, st.len() - 1));
            let k = popped_stack(head, w).len() as int;
            assert(popped_stack(head, w) == head.subrange(0, k));
            assert(head.subrange(0, k) =~= st.subrange(0, k));
        }
    } else {
        assert(popped_stack(st, w) == st);
        assert(st == st.subrange(0, st.len() as int));
    }
}

/// The stack after one step is well formed again.
pub proof fn lemma_stack_step_wf(st: Seq<u64>, w: u64)
    requires
        stack_wf(st),
    ensures
        stack_wf(stack_step(st, w)),
{
    if w < st.last() {
        lemma_popped_stack(st, w);
    } else if w > st.last() {
        assert(forall|i: int| 0 <= i < st.len() ==> st[i] <= st.last());
    }
}

// ---------------------------------------------------------------------------
// The indentation balance law
// ---------------------------------------------------------------------------
/// The stack after processing the first `i` line widths, from the sentinel
/// stack.
pub open spec fn stack_after(ws: Seq<u64>, i: int) -> Seq<u64>
    decreases i,
{
    if i <= 0 {
        seq![0u64]
    } else {
        stack_step(stack_after(ws, i - 1), ws[i - 1])
    }
}

/// Indent tokens emitted over the first `i` line widths.
pub open spec fn indents_upto(ws: Seq<u64>, i: int) -> int
    decreases i,
{
    if i <= 0 {
        0
    } else {
        indents_upto(ws, i - 1) + step_indents(stack_after(ws, i - 1), ws[i - 1])
    }
}

/// Dedent tokens emitted over the first `i` line widths.
pub open spec fn dedents_upto(ws: Seq<u64>, i: int) -> int
    decreases i,
{
    if i <= 0 {
        0
    } else {
        dedents_upto(ws, i - 1) + step_dedents(stack_after(ws, i - 1), ws[i - 1])
    }
}

pub proof fn lemma_stack_after_wf(ws: Seq<u64>, i: int)
    ensures
        stack_wf(stack_after(ws, i)),
    decreases i,
{
    if i > 0 {
        lemma_stack_after_wf(ws, i - 1);
        lemma_stack_step_wf(stack_after(ws, i - 1), ws[i - 1]);
    }
}

/// The indentation law: over any sequence of line widths, emitted indents
/// exceed emitted dedents by exactly the levels still open; since end of
/// input synthesizes one dedent per remaining level, total indents equal
/// total dedents by end of input.
pub proof fn lemma_indent_dedent_balance(ws: Seq<u64>, i: int)
    requires
        0 <= i <= ws.len(),
    ensures
        indents_upto(ws, i) == dedents_upto(ws, i) + stack_after(ws, i).len() - 1,
    decreases i,
{
    if i > 0 {
        lemma_indent_dedent_balance(ws, i - 1);
        let st = stack_after(ws, i - 1);
        let w = ws[i - 1];
        lemma_stack_after_wf(ws, i - 1);
        if w < st.last() {
            lemma_popped_stack(st, w);
        }
    }
}

// ---------------------------------------------------------------------------
// Token counting, for the balance accounting in the lexer
// ---------------------------------------------------------------------------
pub open spec fn icount(s: Seq<Token>) -> int
    decreases s.len(),
{
    if s.len() == 0 {
        0
    } else {
        (if s[0].info is Indent {
            1int
        } else {
            0int
        }) + icount(s.drop_first())
    }
}

pub open spec fn dcount(s: Seq<Token>) -> int
    decreases s.len(),
{
    if s.len() == 0 {
        0
    } else {
        (if s[0].info is Dedent {
            1int
        } else {
            0int
        }) + dcount(s.drop_first())
    }
}

pub proof fn lemma_count_push(s: Seq<Token>, t: Token)
    ensures
        icount(s.push(t)) == icount(s) + if t.info is Indent {
            1int
        } else {
            0int
        },
        dcount(s.push(t)) == dcount(s) + if t.info is Dedent {
            1int
        } else {
            0int
        },
    decreases s.len(),
{
    if s.len() == 0 {
        assert(s.push(t).drop_first() =~= s);
    } else {
        assert(s.push(t).drop_first() =~= s.drop_first().push(t));
        lemma_count_push(s.drop_first(), t);
    }
}

pub proof fn lemma_count_nonneg(s: Seq<Token>)
    ensures
        icount(s) >= 0,
        dcount(s) >= 0,
    decreases s.len(),
{
    if s.len() > 0 {
        lemma_count_nonneg(s.drop_first());
    }
}

// ---------------------------------------------------------------------------
// The whole scan, as a function of the text
// ---------------------------------------------------------------------------
/// The state a scan is in: the text with the current position, the two
/// stacks, the interner table, and the configured tab width.
#[verifier::ext_equal]
pub struct ScanState {
    pub text: Seq<char>,
    pub pos: int,
    pub brackets: Seq<(Span, char)>,
    pub indents: Seq<u64>,
    pub interner: Seq<Seq<char>>,
    pub tab: int,
}

/// A scan state that the lexer can actually be in.
pub open spec fn state_wf(s: ScanState) -> bool {
    &&& 0 <= s.pos <= s.text.len()
    &&& stack_wf(s.indents)
    &&& s.tab >= 0
}

/// Whether one scan step taken at position `p` reports a diagnostic, given
/// the pending brackets, the indent stack and the tab width. The step first
/// skips spaces and comments, then dispatches on the next character.
pub open spec fn step_errs_at(
    text: Seq<char>,
    p: int,
    brackets: Seq<(Span, char)>,
    indents: Seq<u64>,
    tab: int,
) -> bool {
    let m = skip_end(text, p, brackets.len() > 0, false);
    if skip_err(text, p, brackets.len() > 0, false) {
        true
    } else if m >= text.len() {
        indents.len() == 1 && brackets.len() > 0
    } else if open_bracket_info(text[m]) is Some {
        false
    } else if close_bracket_info(text[m]) is Some {
        brackets.len() == 0 || brackets.last().1 != text[m]
    } else if punct_len(text, m) > 0 {
        false
    } else if is_word_start_char(text[m]) {
        false
    } else if is_dec_digit(text[m]) {
        num_errs(text, m)
    } else if text[m] == '"' {
        str_errs(text, m + 1)
    } else if text[m] == '\n' {
        stack_step_errs(indents, indent_width_at(text, m + 1, tab) as u64)
    } else {
        true
    }
}

/// Whether the next scan step from `s` reports a diagnostic.
pub open spec fn state_errs(s: ScanState) -> bool {
    step_errs_at(s.text, s.pos, s.brackets, s.indents, s.tab)
}

/// Whether the scan is over: input exhausted and indentation unwound.
pub open spec fn state_done(s: ScanState) -> bool {
    skip_end(s.text, s.pos, s.brackets.len() > 0, false) >= s.text.len() && s.indents.len() == 1
}

/// The span between two character positions.
pub open spec fn span_at(text: Seq<char>, a: int, b: int) -> Span {
    Span { first_pos: cursor_at(text, a), last_pos: cursor_at(text, b) }
}

/// What an identifier-or-keyword run classifies as, over plain values.
pub open spec fn word_info_view(w: Seq<char>, id: int) -> TokenInfoView {
    match keyword_info(w) {
        Some(kw) => info_view(kw),
        None => if is_value_word(w) {
            TokenInfoView::ValueIdentifier(id)
        } else {
            TokenInfoView::TypeIdentifier(id)
        },
    }
}

/// The tokens one successful scan step from `s` produces, in order.
pub open spec fn step_toks(s: ScanState) -> Seq<TokenView>
    recommends
        state_wf(s),
        !state_errs(s),
        !state_done(s),
{
    let text = s.text;
    let m = skip_end(text, s.pos, s.brackets.len() > 0, false);
    if m >= text.len() {
        let c = cursor_at(text, m);
        seq![
            TokenView { span: Span { first_pos: c, last_pos: c }, info: TokenInfoView::EndOfLine },
        ] + Seq::new((s.indents.len() - 1) as nat, |i: int| (TokenView {
            span: Span { first_pos: c, last_pos: c },
            info: TokenInfoView::Dedent,
        }))
    } else if open_bracket_info(text[m]) is Some {
        seq![
            TokenView {
                span: span_at(text, m, m + 1),
                info: info_view(open_bracket_info(text[m]).unwrap().0),
            },
        ]
    } else if close_bracket_info(text[m]) is Some {
        seq![
            TokenView {
                span: span_at(text, m, m + 1),
                info: info_view(close_bracket_info(text[m]).unwrap().0),
            },
        ]
    } else if punct_len(text, m) > 0 {
        seq![
            TokenView {
                span: span_at(text, m, m + punct_len(text, m)),
                info: info_view(punct_info(text, m)),
            },
        ]
    } else if is_word_start_char(text[m]) {
        let e = word_end(text, m);
        let w = text.subrange(m, e);
        seq![
            TokenView { span: span_at(text, m, e), info: word_info_view(w, interned_id(s.interner, w)) },
        ]
    } else if is_dec_digit(text[m]) {
        let e = num_end(text, m);
        if num_is_hex(text, m) {
            seq![
                TokenView {
                    span: span_at(text, m, e),
                    info: TokenInfoView::LiteralInteger(
                        num_mantissa(text, m),
                        IntegerFormat::Hexadecimal,
                    ),
                },
            ]
        } else if num_is_float(text, m) {
            seq![
                TokenView {
                    span: span_at(text, m, e),
                    info: TokenInfoView::LiteralFloat {
                        mantissa: num_mantissa(text, m),
                        exponent: num_exponent(text, m),
                    },
                },
            ]
        } else {
            seq![
                TokenView {
                    span: span_at(text, m, e),
                    info: TokenInfoView::LiteralInteger(
                        num_mantissa(text, m),
                        IntegerFormat::Decimal,
                    ),
                },
            ]
        }
    } else if text[m] == '"' {
        seq![
            TokenView {
                span: span_at(text, m, str_end(text, m + 1)),
                info: TokenInfoView::LiteralString(str_content(text, m + 1)),
            },
        ]
    } else {
        let m1 = m + 1;
        let e = ind_end(text, m1);
        let w = indent_width_at(text, m1, s.tab) as u64;
        seq![
            TokenView { span: span_at(text, m, m1), info: TokenInfoView::EndOfLine },
        ] + Seq::new(step_dedents(s.indents, w) as nat, |i: int| (TokenView {
            span: span_at(text, m, e),
            info: TokenInfoView::Dedent,
        })) + if step_indents(s.indents, w) == 1 {
            seq![
                TokenView { span: span_at(text, m1, e), info: TokenInfoView::Indent },
            ]
        } else {
            Seq::<TokenView>::empty()
        }
    }
}

/// The scan state after one successful step from `s`.
pub open spec fn step_next(s: ScanState) -> ScanState
    recommends
        state_wf(s),
        !state_errs(s),
        !state_done(s),
{
    let text = s.text;
    let m = skip_end(text, s.pos, s.brackets.len() > 0, false);
    if m >= text.len() {
        ScanState { pos: m, indents: seq![0u64], ..s }
    } else if open_bracket_info(text[m]) is Some {
        ScanState {
            pos: m + 1,
            brackets: s.brackets.push(
                (span_at(text, m, m + 1), open_bracket_info(text[m]).unwrap().1),
            ),
            ..s
        }
    } else if close_bracket_info(text[m]) is Some {
        ScanState { pos: m + 1, brackets: s.brackets.drop_last(), ..s }
    } else if punct_len(text, m) > 0 {
        ScanState { pos: m + punct_len(text, m), ..s }
    } else if is_word_start_char(text[m]) {
        let e = word_end(text, m);
        let w = text.subrange(m, e);
        ScanState { pos: e, interner: interned_table(s.interner, w), ..s }
    } else if is_dec_digit(text[m]) {
        ScanState { pos: num_end(text, m), ..s }
    } else if text[m] == '"' {
        ScanState { pos: str_end(text, m + 1), ..s }
    } else {
        let m1 = m + 1;
        let e = ind_end(text, m1);
        let w = indent_width_at(text, m1, s.tab) as u64;
        ScanState { pos: e, indents: stack_step(s.indents, w), ..s }
    }
}

pub proof fn lemma_str_end_bounds(text: Seq<char>, p: int)
    requires
        0 <= p <= text.len(),
    ensures
        p <= str_end(text, p) <= text.len(),
    decreases text.len() - p,
{
    if p < text.len() && text[p] != '"' {
        if text[p] == '\\' {
            if p + 1 < text.len() && escape_of(text[p + 1]) is Some {
                lemma_str_end_bounds(text, p + 2);
            }
        } else if text[p] == '\r' {
            if p + 1 < text.len() && text[p + 1] == '\n' {
                lemma_str_end_bounds(text, p + 2);
            }
        } else {
            lemma_str_end_bounds(text, p + 1);
        }
    }
}

pub proof fn lemma_num_end_bounds(text: Seq<char>, q: int)
    requires
        0 <= q < text.len(),
        is_dec_digit(text[q]),
    ensures
        q < num_end(text, q) <= text.len(),
    decreases 0int,
{
    if num_is_hex(text, q) {
        lemma_hex_run_end(text, q + 2);
    } else {
        lemma_dec_run_end(text, q);
        if num_has_frac(text, q) {
            lemma_dec_run_end(text, num_int_end(text, q) + 1);
        }
        if num_has_exp(text, q) {
            lemma_dec_run_end(text, num_exp_digits_start(text, q));
        }
    }
}

/// One successful step strictly advances the scan: the position grows, or
/// it stays put exactly when the end-of-input unwinding shrinks the indent
/// stack. The step also lands in a well-formed state over the same text.
pub proof fn lemma_step_next_measure(s: ScanState)
    requires
        state_wf(s),
        !state_errs(s),
        !state_done(s),
    ensures
        step_next(s).text == s.text,
        step_next(s).tab == s.tab,
        state_wf(step_next(s)),
        s.pos <= step_next(s).pos <= s.text.len(),
        step_next(s).pos > s.pos || step_next(s).indents.len() < s.indents.len(),
{
    let text = s.text;
    let b = s.brackets.len() > 0;
    lemma_skip_end_bounds(text, s.pos, b, false);
    lemma_skip_end_stop(text, s.pos, b, false);
    let m = skip_end(text, s.pos, b, false);
    if m >= text.len() {
        assert(stack_wf(seq![0u64]));
    } else if open_bracket_info(text[m]) is Some {
    } else if close_bracket_info(text[m]) is Some {
        assert(s.brackets.len() > 0);
    } else if punct_len(text, m) > 0 {
    } else if is_word_start_char(text[m]) {
        lemma_word_end(text, m);
    } else if is_dec_digit(text[m]) {
        lemma_num_end_bounds(text, m);
    } else if text[m] == '"' {
        lemma_str_end_bounds(text, m + 1);
    } else {
        lemma_ind_end(text, m + 1);
        lemma_stack_step_wf(s.indents, indent_width_at(text, m + 1, s.tab) as u64);
    }
}

/// Whether the whole remaining scan from `s` runs to exhaustion without a
/// diagnostic.
pub open spec fn scan_ok(s: ScanState) -> bool
    decreases s.text.len() - s.pos, s.indents.len()
        via scan_ok_dec
{
    if !state_wf(s) {
        true
    } else if state_errs(s) {
        false
    } else if state_done(s) {
        true
    } else {
        scan_ok(step_next(s))
    }
}

#[via_fn]
proof fn scan_ok_dec(s: ScanState) {
    if state_wf(s) && !state_errs(s) && !state_done(s) {
        lemma_step_next_measure(s);
    }
}

/// The tokens the remaining scan from `s` yields, in production order, up
/// to exhaustion or the first diagnostic.
pub open spec fn scan_toks(s: ScanState) -> Seq<TokenView>
    decreases s.text.len() - s.pos, s.indents.len()
        via scan_toks_dec
{
    if !state_wf(s) || state_errs(s) || state_done(s) {
        Seq::empty()
    } else {
        step_toks(s) + scan_toks(step_next(s))
    }
}

#[via_fn]
proof fn scan_toks_dec(s: ScanState) {
    if state_wf(s) && !state_errs(s) && !state_done(s) {
        lemma_step_next_measure(s);
    }
}

/// The interner table after the fixed keyword table has been built in it.
pub open spec fn with_keywords(tab: Seq<Seq<char>>) -> Seq<Seq<char>> {
    interned_table(
        interned_table(
            interned_table(
                interned_table(
                    interned_table(interned_table(tab, "self"@), "Self"@),
                    "in"@,
                ),
                "mut"@,
            ),
            "weak"@,
        ),
        "use"@,
    )
}

/// Where the string body scan fails when it does not reach end of input:
/// the position of the offending backslash or lone carriage return.
pub open spec fn str_fail_at(text: Seq<char>, p: int) -> int
    decreases text.len() - p,
{
    if p < 0 || p >= text.len() {
        p
    } else if text[p] == '"' {
        p
    } else if text[p] == '\\' {
        if p + 1 < text.len() && escape_of(text[p + 1]) is Some {
            str_fail_at(text, p + 2)
        } else {
            p
        }
    } else if text[p] == '\r' {
        if p + 1 < text.len() && text[p + 1] == '\n' {
            str_fail_at(text, p + 2)
        } else {
            p
        }
    } else {
        str_fail_at(text, p + 1)
    }
}

/// The state the scan stands in when it stops: the first erroring state,
/// or the exhausted one.
pub open spec fn fail_state(s: ScanState) -> ScanState
    decreases s.text.len() - s.pos, s.indents.len()
        via fail_state_dec
{
    if !state_wf(s) || state_errs(s) || state_done(s) {
        s
    } else {
        fail_state(step_next(s))
    }
}

#[via_fn]
proof fn fail_state_dec(s: ScanState) {
    if state_wf(s) && !state_errs(s) && !state_done(s) {
        lemma_step_next_measure(s);
    }
}

/// What the diagnostic of the scan step at `s` holds, for each way the
/// step can fail: how many messages, their texts, and their references.
/// The lone carriage return inside a line comment is left open here; its
/// exact shape is fixed at the reader.
pub open spec fn step_diag_rel(s: ScanState, src: SourceID, e: Error) -> bool {
    let text = s.text;
    let m = skip_end(text, s.pos, s.brackets.len() > 0, false);
    if skip_err(text, s.pos, s.brackets.len() > 0, false) {
        true
    } else if m >= text.len() {
        &&& e.messages().len() == s.brackets.len()
        &&& forall|i: int|
            0 <= i < s.brackets.len() ==> e.messages()[i].text_view() == "Before EOF, expected '"@
                + seq![s.brackets[s.brackets.len() - 1 - i].1] + "' to match opening token"@
        &&& forall|i: int|
            0 <= i < s.brackets.len() ==> e.messages()[i].refs() == seq![
                (
                    "opening token here..."@,
                    Loc::FileSpan(src, s.brackets[s.brackets.len() - 1 - i].0),
                ),
            ]
    } else if open_bracket_info(text[m]) is Some {
        true
    } else if close_bracket_info(text[m]) is Some {
        &&& e.messages().len() == 1
        &&& if s.brackets.len() == 0 {
            &&& e.messages()[0].text_view() == "Before '"@ + seq![text[m]]
                + "', expected complementary '"@ + seq![close_bracket_info(text[m]).unwrap().1]
                + "'"@
            &&& e.messages()[0].refs() == seq![("see"@, Loc::FileSpan(src, span_at(text, m, m + 1)))]
        } else {
            &&& e.messages()[0].text_view() == "Before '"@ + seq![text[m]] + "', expected '"@
                + seq![s.brackets.last().1] + "'"@
            &&& e.messages()[0].refs() == seq![
                ("opened here"@, Loc::FileSpan(src, s.brackets.last().0)),
                ("see"@, Loc::FileSpan(src, span_at(text, m, m + 1))),
            ]
        }
    } else if punct_len(text, m) > 0 {
        true
    } else if is_word_start_char(text[m]) {
        true
    } else if is_dec_digit(text[m]) {
        &&& e.messages().len() == 1
        &&& e.messages()[0].text_view()
            == "Expected valid exponent after 'e/E' exponent in float literal"@
        &&& e.messages()[0].refs() == seq![
            (
                "See incomplete literal '"@ + num_mantissa(text, m) + "': "@,
                Loc::FilePos(src, cursor_at(text, num_mant_end(text, m) + 1)),
            ),
        ]
    } else if text[m] == '"' {
        if str_hits_eof(text, m + 1) {
            &&& e.messages().len() == 1
            &&& e.messages()[0].text_view()
                == "Unterminated string literal: end of input before closing quote"@
            &&& e.messages()[0].refs() == seq![
                ("string opened here"@, Loc::FilePos(src, cursor_at(text, m))),
            ]
        } else {
            let f = str_fail_at(text, m + 1);
            if text[f] == '\\' {
                &&& e.messages().len() == 1
                &&& e.messages()[0].text_view()
                    == "Invalid escape sequence: after '\\', expected a valid escape character, not '"@
                    + (if f + 1 < text.len() {
                    seq![text[f + 1]]
                } else {
                    "EOF"@
                }) + "'"@
                &&& e.messages()[0].refs() == seq![("see..."@, Loc::FilePos(src, cursor_at(text, f)))]
            } else {
                cr_diagnostic(e, src, text, f + 1)
            }
        }
    } else if text[m] == '\n' {
        let w = indent_width_at(text, m + 1, s.tab) as u64;
        &&& e.messages().len() == 1
        &&& e.messages()[0].text_view() == "Invalid indent: got block at depth "@ + dec_chars(
            w as nat,
        ) + " spaces, but expected depth "@ + dec_chars(
            popped_stack(s.indents, w).last() as nat,
        ) + " spaces"@
        &&& e.messages()[0].refs() == seq![
            (
                "indentation whitespace here"@,
                Loc::FileSpan(src, span_at(text, m + 1, ind_end(text, m + 1))),
            ),
        ]
    } else {
        &&& e.messages().len() == 1
        &&& e.messages()[0].text_view() == "Character '"@ + seq![text[m]]
            + "' came as a total surprise"@
        &&& e.messages()[0].refs() == seq![("see"@, Loc::FilePos(src, cursor_at(text, m)))]
    }
}

} // verus!
