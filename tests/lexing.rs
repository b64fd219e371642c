use tape::atoms::{Atom, AtomParser};
use tape::error::{Level, ParseError};
use tape::numbers::Natural;
use tape::tokens::{parse_tokens, Token, TokenKind};
use tape::utils::Span;

fn lex(source: &str) -> (Vec<Token>, Vec<ParseError>) {
    let mut errors = Vec::new();
    let tokens = parse_tokens(source, &mut errors);
    (tokens, errors)
}

fn ids(errors: &[ParseError]) -> Vec<&'static str> {
    errors.iter().map(|e| e.id).collect()
}

#[test]
fn single_punctuation_gives_one_token_spanning_it() {
    let cases = [
        ("{", TokenKind::BraceOpen),
        ("}", TokenKind::BraceClose),
        ("<", TokenKind::TagOpen),
        (">", TokenKind::TagClose),
        ("(", TokenKind::ParenOpen),
        (")", TokenKind::ParenClose),
        ("[", TokenKind::BracketOpen),
        ("]", TokenKind::BracketClose),
        (":", TokenKind::Colon),
        ("=", TokenKind::EqualSign),
        (".", TokenKind::Dot),
        (",", TokenKind::Comma),
        ("@", TokenKind::At),
    ];
    for (source, kind) in cases {
        let (tokens, errors) = lex(source);
        assert_eq!(tokens, vec![Token { kind, span: Span { start: 0, end: 1 } }], "{}", source);
        assert!(errors.is_empty());
    }
}

#[test]
fn lone_minus_is_minus() {
    let (tokens, errors) = lex("-");
    assert_eq!(tokens, vec![Token { kind: TokenKind::Minus, span: Span { start: 0, end: 1 } }]);
    assert!(errors.is_empty());
}

#[test]
fn minus_and_angle_make_one_arrow() {
    let (tokens, errors) = lex("->");
    assert_eq!(tokens, vec![Token { kind: TokenKind::Arrow, span: Span { start: 0, end: 2 } }]);
    assert!(errors.is_empty());
}

#[test]
fn minus_then_space_then_angle_is_not_an_arrow() {
    let (tokens, _) = lex("- >");
    let kinds: Vec<TokenKind> = tokens.into_iter().map(|t| t.kind).collect();
    assert_eq!(kinds, vec![TokenKind::Minus, TokenKind::TagClose]);
}

#[test]
fn thirty_digits_stay_exact() {
    let digits = "123456789012345678901234567890";
    let (tokens, errors) = lex(digits);
    assert!(errors.is_empty());
    assert_eq!(tokens.len(), 1);
    assert_eq!(tokens[0].span, Span { start: 0, end: 30 });
    match &tokens[0].kind {
        TokenKind::Number(n) => {
            assert_eq!(n.to_text(), digits);
            assert_eq!(n.to_u64(), None);
            let exact: num::BigUint = digits.parse().unwrap();
            let read: num::BigUint = n.to_text().parse().unwrap();
            assert_eq!(read, exact);
        }
        other => panic!("expected a number, got {:?}", other),
    }
}

#[test]
fn number_that_fits_converts() {
    let n = Natural::from_digits(vec!['0', '4', '2']);
    assert_eq!(n.to_u64(), Some(42));
    assert_eq!(n.to_text(), "042");
    let max = Natural::from_digits("18446744073709551615".chars().collect());
    assert_eq!(max.to_u64(), Some(u64::MAX));
    let over = Natural::from_digits("18446744073709551616".chars().collect());
    assert_eq!(over.to_u64(), None);
}

#[test]
fn string_escapes_are_decoded() {
    let (tokens, errors) = lex(r#""hi\"there""#);
    assert!(errors.is_empty());
    assert_eq!(tokens[0].kind, TokenKind::String("hi\"there".to_string()));
    let (tokens, errors) = lex(r#""line1\nline2""#);
    assert!(errors.is_empty());
    assert_eq!(tokens[0].kind, TokenKind::String("line1\nline2".to_string()));
    let (tokens, errors) = lex(r#""a\"b\\c\nd""#);
    assert!(errors.is_empty());
    assert_eq!(tokens[0].kind, TokenKind::String("a\"b\\c\nd".to_string()));
    assert_eq!(tokens[0].span, Span { start: 0, end: 12 });
}

#[test]
fn invalid_escape_is_an_error_and_kept() {
    let (tokens, errors) = lex(r#""a\qb""#);
    assert_eq!(tokens[0].kind, TokenKind::String("aqb".to_string()));
    assert_eq!(ids(&errors), vec!["invalid_escaping_in_string"]);
    assert_eq!(errors[0].level, Level::Error);
    assert_eq!(errors[0].span, Span { start: 2, end: 3 });
}

#[test]
fn newline_in_string_skips_indentation() {
    let (tokens, errors) = lex("\"ab\n    cd\"");
    assert_eq!(tokens[0].kind, TokenKind::String("abcd".to_string()));
    assert_eq!(ids(&errors), vec!["newline_in_string"]);
    assert_eq!(errors[0].level, Level::Error);
    assert_eq!(errors[0].span, Span { start: 3, end: 3 });
}

#[test]
fn unterminated_string_is_fatal() {
    let (tokens, errors) = lex("x \"abc");
    assert_eq!(tokens.len(), 1);
    assert_eq!(ids(&errors), vec!["unterminated_string"]);
    assert_eq!(errors[0].level, Level::Fatal);
    assert_eq!(errors[0].span, Span { start: 2, end: 6 });
}

#[test]
fn comment_without_space_warns() {
    let (tokens, errors) = lex("//no space");
    assert_eq!(tokens, vec![Token {
        kind: TokenKind::Comment("no space".to_string()),
        span: Span { start: 0, end: 10 },
    }]);
    assert_eq!(ids(&errors), vec!["no_space_after_double_slash"]);
    assert_eq!(errors[0].level, Level::Warning);
    assert_eq!(errors[0].span, Span { start: 0, end: 2 });
}

#[test]
fn comment_text_ends_at_line_end() {
    let (tokens, errors) = lex("// Hi there.\nword");
    assert!(errors.is_empty());
    assert_eq!(tokens[0].kind, TokenKind::Comment("Hi there.".to_string()));
    assert_eq!(tokens[1].kind, TokenKind::Word("word".to_string()));
    assert_eq!(tokens[1].span, Span { start: 13, end: 17 });
}

#[test]
fn lonely_slash_is_fatal() {
    let (tokens, errors) = lex("a / b");
    assert_eq!(tokens.len(), 2);
    assert_eq!(tokens[1].kind, TokenKind::Comment("b".to_string()));
    assert_eq!(tokens[1].span, Span { start: 2, end: 5 });
    assert_eq!(ids(&errors), vec!["lonely_slash"]);
    assert_eq!(errors[0].level, Level::Fatal);
    assert_eq!(errors[0].span, Span { start: 2, end: 3 });
}

#[test]
fn lone_slash_at_end_still_gives_a_comment() {
    let (tokens, errors) = lex("/");
    assert_eq!(tokens, vec![Token { kind: TokenKind::Comment(String::new()), span: Span { start: 0, end: 1 } }]);
    assert_eq!(ids(&errors), vec!["lonely_slash"]);
}

#[test]
fn unsupported_character_is_fatal_and_dropped() {
    let (tokens, errors) = lex("a ; b");
    let kinds: Vec<TokenKind> = tokens.into_iter().map(|t| t.kind).collect();
    assert_eq!(kinds, vec![TokenKind::Word("a".to_string()), TokenKind::Word("b".to_string())]);
    assert_eq!(ids(&errors), vec!["unsupported_character"]);
    assert_eq!(errors[0].span, Span { start: 2, end: 3 });
}

#[test]
fn unsupported_character_span_covers_all_its_bytes() {
    let (_, errors) = lex("a \u{a7} b");
    assert_eq!(ids(&errors), vec!["unsupported_character"]);
    assert_eq!(errors[0].span, Span { start: 2, end: 4 });
}

#[test]
fn spans_count_bytes_not_characters() {
    let (tokens, errors) = lex("\"é\" x");
    assert!(errors.is_empty());
    assert_eq!(tokens[0].kind, TokenKind::String("é".to_string()));
    assert_eq!(tokens[0].span, Span { start: 0, end: 4 });
    assert_eq!(tokens[1].span, Span { start: 5, end: 6 });
}

#[test]
fn kebab_words_are_one_word() {
    let (tokens, _) = lex("my-package_2");
    assert_eq!(tokens, vec![Token {
        kind: TokenKind::Word("my-package_2".to_string()),
        span: Span { start: 0, end: 12 },
    }]);
}

#[test]
fn plus_is_an_atom() {
    let (tokens, _) = lex("+");
    assert_eq!(tokens[0].kind, TokenKind::Plus);
}

#[test]
fn empty_source_gives_nothing() {
    let (tokens, errors) = lex("");
    assert!(tokens.is_empty());
    assert!(errors.is_empty());
}

#[test]
fn atom_parser_reports_into_its_own_sink() {
    let mut parser = AtomParser::from_source("{ 7 }");
    let atoms = parser.parse();
    let data: Vec<Atom> = atoms.iter().map(|a| a.data.clone()).collect();
    assert_eq!(data.len(), 3);
    assert_eq!(data[0], Atom::BraceOpen);
    assert_eq!(atoms[1].position, Span { start: 2, end: 3 });
    assert!(parser.is_done());
    assert!(parser.take_errors().is_empty());
}

#[test]
fn lexing_appends_to_existing_errors() {
    let mut errors = vec![ParseError::expected_comma(Span { start: 0, end: 0 })];
    let _ = parse_tokens("?", &mut errors);
    assert_eq!(errors[1].span, Span { start: 0, end: 1 });
    assert_eq!(ids(&errors), vec!["expected_comma", "unsupported_character"]);
}
