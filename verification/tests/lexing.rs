use lexfront::fb::error::Error;
use lexfront::intern::Manager;
use lexfront::parser::lexer::Lexer;
use lexfront::parser::token::IntegerFormat;
use lexfront::parser::token::Token;
use lexfront::parser::token::TokenInfo;
use lexfront::source;

fn make_lexer(text: &str) -> Result<Lexer, Error> {
    let mut sources = source::Manager::new();
    let sid = sources.add(String::from("memory:unit"));
    Lexer::new(Manager::new(), sid, String::from(text), 4)
}

fn lex(text: &str) -> Result<(Vec<Token>, Lexer), Error> {
    let mut lexer = make_lexer(text)?;
    let tokens = lexer.scan_all_remaining_tokens()?;
    Ok((tokens, lexer))
}


fn lex_err(text: &str) -> Error {
    match lex(text) {
        Ok(_) => panic!("expected a diagnostic for {:?}", text),
        Err(e) => e,
    }
}

fn kinds(tokens: &[Token]) -> Vec<TokenInfo> {
    let mut v: Vec<TokenInfo> = Vec::new();
    for t in tokens {
        v.push(t.info().clone());
    }
    v
}

fn count_kind(tokens: &[Token], want_indent: bool) -> usize {
    let mut n: usize = 0;
    for t in tokens {
        let hit = match t.info() {
            TokenInfo::Indent => want_indent,
            TokenInfo::Dedent => !want_indent,
            _ => false,
        };
        if hit {
            n += 1;
        }
    }
    n
}

#[test]
fn balanced_consistent_input_scans_clean() {
    let src = "x = (1 + 2) * [3, 4]\nif y:\n    a\n    b\nz\n";
    let r = lex(src);
    assert!(r.is_ok());
}

#[test]
fn indents_and_dedents_balance() {
    let (tokens, _) = lex("a\n  b\n    c").unwrap();
    assert_eq!(count_kind(&tokens, true), count_kind(&tokens, false));
    let (tokens2, _) = lex("a\n  b\n    c\n  d\ne\n").unwrap();
    assert_eq!(count_kind(&tokens2, true), count_kind(&tokens2, false));
}

#[test]
fn end_of_input_unwinds_open_blocks() {
    let (tokens, _) = lex("a\n  b\n    c").unwrap();
    let ks = kinds(&tokens);
    // a EOL Indent b EOL Indent c EOL Dedent Dedent
    assert_eq!(ks.len(), 10);
    assert!(matches!(ks[6], TokenInfo::ValueIdentifier(_)));
    assert_eq!(ks[7], TokenInfo::EndOfLine);
    assert_eq!(ks[8], TokenInfo::Dedent);
    assert_eq!(ks[9], TokenInfo::Dedent);
}

#[test]
fn tabs_use_configured_width() {
    // One tab at width 4, then four spaces: the same depth, no diagnostic.
    let r = lex("a\n\tb\n    c\nd");
    assert!(r.is_ok());
}

#[test]
fn indent_mismatch_is_a_diagnostic() {
    let e = lex_err("a\n    b\n  c");
    assert_eq!(e.message_count(), 1);
    let text = e.message(0).text().clone();
    assert!(text.contains("depth 2"));
    assert!(text.contains("expected depth 0"));
}

#[test]
fn well_formed_brackets_make_no_diagnostic() {
    let r = lex("([{}])()[]\n");
    assert!(r.is_ok());
}

#[test]
fn swapped_bracket_pair_reports_both_spans() {
    let e = lex_err("(]");
    assert_eq!(e.message_count(), 1);
    let m = e.message(0);
    assert!(m.text().contains("']'"));
    assert_eq!(m.ref_count(), 2);
    assert_eq!(m.ref_desc(0), "opened here");
    assert_eq!(m.ref_desc(1), "see");
}

#[test]
fn extraneous_closer_is_a_diagnostic() {
    let e = lex_err(")");
    assert_eq!(e.message_count(), 1);
    assert!(e.message(0).text().contains("complementary"));
}

#[test]
fn unmatched_openers_reported_most_recent_first() {
    let e = lex_err("([");
    assert_eq!(e.message_count(), 2);
    assert!(e.message(0).text().contains("']'"));
    assert!(e.message(1).text().contains("')'"));
}

#[test]
fn brackets_suppress_line_structure() {
    let (tokens, _) = lex("(\n  a\n)").unwrap();
    let ks = kinds(&tokens);
    assert_eq!(ks.len(), 3);
    assert_eq!(ks[0], TokenInfo::LeftParenthesis);
    assert!(matches!(ks[1], TokenInfo::ValueIdentifier(_)));
    assert_eq!(ks[2], TokenInfo::RightParenthesis);
}

#[test]
fn hex_literal_keeps_digit_text_and_base() {
    let (tokens, _) = lex("0x1A_2b").unwrap();
    assert_eq!(
        *tokens[0].info(),
        TokenInfo::LiteralInteger(String::from("1A_2b"), IntegerFormat::Hexadecimal)
    );
}

#[test]
fn float_literal_keeps_mantissa_and_exponent_text() {
    let (tokens, _) = lex("3.14e-2").unwrap();
    assert_eq!(
        *tokens[0].info(),
        TokenInfo::LiteralFloat {
            mantissa: String::from("3.14"),
            exponent: Some(String::from("-2")),
        }
    );
}

#[test]
fn decimal_integer_and_plain_float() {
    let (tokens, _) = lex("42 10_000 2.5 1e9").unwrap();
    assert_eq!(
        *tokens[0].info(),
        TokenInfo::LiteralInteger(String::from("42"), IntegerFormat::Decimal)
    );
    assert_eq!(
        *tokens[1].info(),
        TokenInfo::LiteralInteger(String::from("10_000"), IntegerFormat::Decimal)
    );
    assert_eq!(
        *tokens[2].info(),
        TokenInfo::LiteralFloat { mantissa: String::from("2.5"), exponent: None }
    );
    assert_eq!(
        *tokens[3].info(),
        TokenInfo::LiteralFloat { mantissa: String::from("1"), exponent: Some(String::from("9")) }
    );
}

#[test]
fn missing_exponent_digits_is_a_diagnostic() {
    let e = lex_err("3e");
    assert_eq!(e.message_count(), 1);
    assert!(e.message(0).text().contains("exponent"));
    assert!(lex("3e-").is_err());
}

#[test]
fn identifier_classification_follows_first_cased_letter() {
    let (tokens, lexer) = lex("value _private mostlyLower Type HTTPServer _ _9").unwrap();
    let interner = lexer.interner();
    let expect = [
        ("value", true),
        ("_private", true),
        ("mostlyLower", true),
        ("Type", false),
        ("HTTPServer", false),
        ("_", true),
        ("_9", true),
    ];
    for (i, (text, is_value)) in expect.iter().enumerate() {
        match tokens[i].info() {
            TokenInfo::ValueIdentifier(id) => {
                assert!(*is_value, "{} should be a value identifier", text);
                assert_eq!(interner.lookup(*id), String::from(*text));
            },
            TokenInfo::TypeIdentifier(id) => {
                assert!(!*is_value, "{} should be a type identifier", text);
                assert_eq!(interner.lookup(*id), String::from(*text));
            },
            other => panic!("unexpected token for {}: {:?}", text, other),
        }
    }
}

#[test]
fn keywords_override_identifier_classification() {
    let (tokens, _) = lex("self Self in mut weak use selfish").unwrap();
    let ks = kinds(&tokens);
    assert_eq!(ks[0], TokenInfo::ValueSelfKeyword);
    assert_eq!(ks[1], TokenInfo::TypeSelfKeyword);
    assert_eq!(ks[2], TokenInfo::InKeyword);
    assert_eq!(ks[3], TokenInfo::MutKeyword);
    assert_eq!(ks[4], TokenInfo::WeakKeyword);
    assert_eq!(ks[5], TokenInfo::UseKeyword);
    assert!(matches!(ks[6], TokenInfo::ValueIdentifier(_)));
}

#[test]
fn string_escapes_decode() {
    let (tokens, _) = lex("\"a\\n\\tb\"").unwrap();
    assert_eq!(*tokens[0].info(), TokenInfo::LiteralString(String::from("a\n\tb")));
    let (tokens2, _) = lex("\"\\\"\\r\\a\"").unwrap();
    assert_eq!(*tokens2[0].info(), TokenInfo::LiteralString(String::from("\"\r\u{7}")));
}

#[test]
fn invalid_escape_names_the_character() {
    let e = lex_err("\"\\q\"");
    assert_eq!(e.message_count(), 1);
    assert!(e.message(0).text().contains("'q'"));
}

#[test]
fn unterminated_string_is_a_diagnostic() {
    assert!(lex("\"abc").is_err());
    assert!(lex("\"abc\\").is_err());
}

#[test]
fn punctuation_longest_match_first() {
    let (tokens, _) = lex(":= == != <= >= << >> // && || : = < > / & | . , * % + - ! ^").unwrap();
    let ks = kinds(&tokens);
    let expected = [
        TokenInfo::Update,
        TokenInfo::Equals,
        TokenInfo::NotEquals,
        TokenInfo::LessThanOrEquals,
        TokenInfo::GreaterThanOrEquals,
        TokenInfo::LeftShift,
        TokenInfo::RightShift,
        TokenInfo::Quotient,
        TokenInfo::LogicalAnd,
        TokenInfo::LogicalOr,
        TokenInfo::Colon,
        TokenInfo::Assign,
        TokenInfo::LessThan,
        TokenInfo::GreaterThan,
        TokenInfo::Divide,
        TokenInfo::BitwiseAnd,
        TokenInfo::BitwiseOr,
        TokenInfo::Period,
        TokenInfo::Comma,
        TokenInfo::Asterisk,
        TokenInfo::Modulo,
        TokenInfo::Plus,
        TokenInfo::Minus,
        TokenInfo::ExclamationPoint,
        TokenInfo::BitwiseXOr,
    ];
    for (i, want) in expected.iter().enumerate() {
        assert_eq!(ks[i], *want, "operator {} mismatched", i);
    }
}

#[test]
fn comments_run_to_end_of_line_but_keep_the_newline() {
    let (tokens, _) = lex("a # trailing words\nb").unwrap();
    let ks = kinds(&tokens);
    assert_eq!(ks.len(), 3);
    assert!(matches!(ks[0], TokenInfo::ValueIdentifier(_)));
    assert_eq!(ks[1], TokenInfo::EndOfLine);
    assert!(matches!(ks[2], TokenInfo::ValueIdentifier(_)));
}

#[test]
fn unexpected_character_is_a_diagnostic() {
    let e = lex_err("a @ b");
    assert_eq!(e.message_count(), 1);
    assert!(e.message(0).text().contains("'@'"));
    assert!(e.message(0).text().contains("surprise"));
}

#[test]
fn peek_matches_what_advance_returns() {
    let mut lexer = make_lexer("alpha + beta").unwrap();
    for _ in 0..5 {
        let peek1 = lexer.peek().cloned();
        let peek2 = lexer.peek().cloned();
        assert_eq!(peek1, peek2);
        match peek1 {
            Some(expected) => {
                let got = lexer.advance().unwrap();
                assert_eq!(got, expected);
            },
            None => break,
        }
    }
    assert!(lexer.peek().is_none());
}

#[test]
fn try_advance_returns_none_at_end_of_input() {
    let mut lexer = make_lexer("x").unwrap();
    let first = lexer.try_advance().unwrap();
    assert!(first.is_some());
    assert!(lexer.try_advance().unwrap().is_none());
    assert!(lexer.try_advance().unwrap().is_none());
}

#[test]
fn match_token_consumes_only_on_a_hit() {
    let mut lexer = make_lexer("alpha + beta").unwrap();
    let miss = lexer.match_token(|t| matches!(t.info(), TokenInfo::Plus)).unwrap();
    assert!(miss.is_none());
    let hit = lexer.match_token(|t| matches!(t.info(), TokenInfo::ValueIdentifier(_))).unwrap();
    assert!(hit.is_some());
    let now_plus = lexer.match_token(|t| matches!(t.info(), TokenInfo::Plus)).unwrap();
    assert!(now_plus.is_some());
}

#[test]
fn token_spans_are_cursor_pairs() {
    let (tokens, _) = lex("ab\n  cd").unwrap();
    let first = tokens[0].loc();
    assert_eq!(first.first().line(), 1);
    assert_eq!(first.first().column(), 1);
    assert_eq!(first.last().line(), 1);
    assert_eq!(first.last().column(), 3);
    // "cd" sits on line 2, after two spaces of indentation.
    let cd = tokens
        .iter()
        .find(|t| t.loc().first().line() == 2 && matches!(t.info(), TokenInfo::ValueIdentifier(_)))
        .unwrap();
    assert_eq!(cd.loc().first().column(), 3);
}

#[test]
fn empty_input_yields_no_tokens() {
    let (tokens, _) = lex("").unwrap();
    assert!(tokens.is_empty());
    let (tokens2, _) = lex("   # only a comment").unwrap();
    assert!(tokens2.is_empty());
}

#[test]
fn hex_prefix_with_no_digits_keeps_empty_text() {
    let (tokens, _) = lex("0x").unwrap();
    assert_eq!(
        *tokens[0].info(),
        TokenInfo::LiteralInteger(String::from(""), IntegerFormat::Hexadecimal)
    );
}

#[test]
fn interning_is_shared_across_the_scan() {
    let (tokens, lexer) = lex("twin other twin").unwrap();
    let first = match tokens[0].info() {
        TokenInfo::ValueIdentifier(id) => *id,
        _ => panic!("expected identifier"),
    };
    let third = match tokens[2].info() {
        TokenInfo::ValueIdentifier(id) => *id,
        _ => panic!("expected identifier"),
    };
    assert_eq!(first, third);
    assert_eq!(lexer.into_interner().lookup(first), String::from("twin"));
}

#[test]
fn construction_reports_a_first_step_diagnostic() {
    let e = match make_lexer("@") {
        Ok(_) => panic!("construction should report the unexpected character"),
        Err(e) => e,
    };
    assert_eq!(e.message_count(), 1);
    assert!(e.message(0).text().contains("surprise"));
}

#[test]
fn parser_context_takes_the_token_stream() {
    let (tokens, _) = lex("a + b").unwrap();
    let _ctx = lexfront::parser::parser::ParserContext::new(tokens);
}

#[test]
fn escape_at_end_of_input_names_eof() {
    let e = lex_err("\"ab\\");
    assert_eq!(e.message_count(), 1);
    assert!(e.message(0).text().contains("EOF"));
}

#[test]
fn indent_diagnostic_points_at_the_whitespace() {
    let e = lex_err("a\n    b\n  c");
    let m = e.message(0);
    assert_eq!(m.ref_count(), 1);
    assert_eq!(m.ref_desc(0), "indentation whitespace here");
}

#[test]
fn match_token_at_end_of_input_returns_none() {
    let mut lexer = make_lexer("").unwrap();
    let r = lexer.match_token(|_| true).unwrap();
    assert!(r.is_none());
}

#[test]
fn zero_tab_width_counts_only_spaces() {
    let mut sources = lexfront::source::Manager::new();
    let sid = sources.add(String::from("memory:unit"));
    let mut lexer = Lexer::new(Manager::new(), sid, String::from("a\n\tb\nc"), 0).unwrap();
    // A tab at width 0 adds no depth, so no indent tokens appear.
    let tokens = lexer.scan_all_remaining_tokens().unwrap();
    for t in &tokens {
        assert!(!matches!(t.info(), TokenInfo::Indent));
    }
}
