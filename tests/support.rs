use tape::atoms::{Atom, AtomParser, Positioned};
use tape::cursor::{CursorParser, MatchActions};
use tape::error::{DecideIfAbortParsing, Level, ParseError};
use tape::numbers::Natural;
use tape::organisms::{AddedAnnotation, Comment, Decorations, DeprecatedAnnotation, Identifier, Keyword, StringLiteral, Version};
use tape::tokens::TokenParser;
use tape::utils::{IntoString, Single, Span};

fn span(start: usize, end: usize) -> Span {
    Span { start, end }
}

#[test]
fn character_diagnostics_have_their_spans_and_levels() {
    let e = ParseError::newline_in_string(7);
    assert_eq!((e.id, e.level, e.span), ("newline_in_string", Level::Error, span(7, 7)));
    assert_eq!(e.suggestions.len(), 2);
    assert_eq!(e.suggestions[0], "To make a string contain a newline character, just use '\\n'.");
    assert!(e.personalized_suggestions.is_empty());
    let e = ParseError::invalid_escaping_in_string(7);
    assert_eq!((e.id, e.level, e.span), ("invalid_escaping_in_string", Level::Error, span(6, 7)));
    let e = ParseError::unterminated_string(span(3, 9));
    assert_eq!((e.id, e.level, e.span), ("unterminated_string", Level::Fatal, span(3, 9)));
    let e = ParseError::lonely_slash(4);
    assert_eq!((e.id, e.level, e.span), ("lonely_slash", Level::Fatal, span(4, 5)));
    let e = ParseError::no_space_after_double_slash(4);
    assert_eq!((e.id, e.level, e.span), ("no_space_after_double_slash", Level::Warning, span(2, 4)));
    let e = ParseError::unsupported_character(span(4, 5));
    assert_eq!((e.id, e.level, e.span), ("unsupported_character", Level::Fatal, span(4, 5)));
    let e = ParseError::lonely_plus(4);
    assert_eq!((e.id, e.level, e.span), ("lonely_plus", Level::Fatal, span(4, 4)));
    let e = ParseError::lonely_minus(4);
    assert_eq!((e.id, e.level, e.span), ("lonely_minus", Level::Fatal, span(4, 4)));
    let e = ParseError::expected_patch_version(span(1, 5));
    assert_eq!((e.id, e.level, e.span), ("expected_patch_version", Level::Error, span(1, 5)));
}

#[test]
fn syntax_diagnostics_have_their_keys_and_levels() {
    let s = span(1, 2);
    let cases = [
        (ParseError::expected_package_statement(s), "expected_package_statement", Level::Fatal),
        (ParseError::expected_struct_field_type(s), "expected_struct_field_type", Level::Error),
        (ParseError::expected_value_name(s), "expected_val_name", Level::Error),
        (ParseError::expected_source(s), "expected_source", Level::Fatal),
        (ParseError::expected_use_keyword(s), "expected_use_keyword", Level::Fatal),
        (ParseError::expected_import(s), "expected_import", Level::Fatal),
        (ParseError::expected_definition(s), "expected_definition", Level::Fatal),
        (ParseError::expected_definition_after_decoration(s), "expected_definition_after_decoration", Level::Fatal),
        (ParseError::expected_annotation(s), "expected_annotation", Level::Fatal),
        (ParseError::expected_opening_parenthesis(s), "expected_opening_parenthesis", Level::Fatal),
        (ParseError::expected_version(s), "expected_version", Level::Fatal),
        (ParseError::expected_closing_parenthesis(s), "expected_closing_parenthesis", Level::Fatal),
        (ParseError::expected_deprecation_reason(s), "expected_deprecation_reason", Level::Fatal),
        (ParseError::expected_comma(s), "expected_comma", Level::Fatal),
        (ParseError::expected_major_version_number(s), "expected_major_version_number", Level::Fatal),
        (ParseError::expected_minor_version_number(s), "expected_minor_version_number", Level::Fatal),
        (ParseError::expected_patch_version_number(s), "expected_patch_version_number", Level::Fatal),
        (ParseError::expected_dot(s), "expected_dot", Level::Fatal),
        (ParseError::expected_struct_name(s), "expected_struct_name", Level::Fatal),
        (ParseError::expected_opening_brace(s), "expected_opening_brace", Level::Fatal),
        (ParseError::expected_colon(s), "expected_colon", Level::Fatal),
        (ParseError::expected_field_type(s), "expected_field_type", Level::Fatal),
        (ParseError::expected_enum_name(s), "expected_enum_name", Level::Fatal),
    ];
    for (e, id, level) in cases {
        assert_eq!((e.id, e.level, e.span), (id, level, s));
    }
}

#[test]
fn pair_diagnostics_cover_both() {
    let first = Comment { text: "a".to_string(), span: span(0, 4) };
    let second = Comment { text: "b".to_string(), span: span(10, 14) };
    let e = ParseError::multiple_comments(&first, &second);
    assert_eq!((e.id, e.level, e.span), ("multiple_comments", Level::Error, span(0, 14)));
    let version = Version { major: 1, minor: 0, patch: 0, span: span(7, 12) };
    let a = AddedAnnotation { version: version.clone(), span: span(0, 13) };
    let b = AddedAnnotation { version: version.clone(), span: span(20, 33) };
    let e = ParseError::multiple_added_annotations(&a, &b);
    assert_eq!((e.id, e.level, e.span), ("multiple_added_annotations", Level::Error, span(0, 33)));
    let reason = StringLiteral { string: "r".to_string(), span: span(14, 17) };
    let c = DeprecatedAnnotation { version: version.clone(), reason: reason.clone(), span: span(0, 18) };
    let d = DeprecatedAnnotation { version, reason, span: span(20, 38) };
    let e = ParseError::multiple_deprecated_annotations(&c, &d);
    assert_eq!((e.id, e.span), ("multiple_deprecated_annotations", span(0, 38)));
    let name = Identifier { name: "removed".to_string(), span: span(1, 8) };
    let e = ParseError::unknown_annotation(&name);
    assert_eq!((e.id, e.level, e.span), ("unknown_annotation", Level::Fatal, span(1, 8)));
}

#[test]
fn version_too_big_names_the_number() {
    let n = Natural::from_digits("99999999999999999999".chars().collect());
    let e = ParseError::version_too_big(span(3, 23), &n);
    assert_eq!((e.id, e.level, e.span), ("version_too_big", Level::Error, span(3, 23)));
    assert_eq!(
        e.description,
        "The major, minor and patch version can each only be a 64-bit unsigned integer. \
         Because 99999999999999999999 > 18446744073709551615 = 2^64 - 1, this version is invalid."
    );
}

#[test]
fn abort_only_on_fatal() {
    let mut errors = vec![ParseError::no_space_after_double_slash(2), ParseError::newline_in_string(1)];
    assert!(!errors.should_abort_parsing());
    errors.push(ParseError::lonely_slash(0));
    assert!(errors.should_abort_parsing());
    assert!(!Vec::<ParseError>::new().should_abort_parsing());
}

#[test]
fn levels_are_ordered() {
    assert!(Level::Warning < Level::Error && Level::Error < Level::Fatal);
    assert_eq!(Level::Warning.severity(), 0);
    assert_eq!(Level::Fatal.severity(), 2);
    assert!(Level::Fatal.is_fatal());
    assert!(!Level::Error.is_fatal());
}

#[test]
fn cursor_peeks_without_moving() {
    let cursor = CursorParser::from(vec![1, 2, 3], Vec::new());
    assert_eq!(cursor.peek(), Some(&1));
    assert_eq!(cursor.peek_n(2), Some(&3));
    assert_eq!(cursor.peek_n(3), None);
    assert_eq!(cursor.cursor(), 0);
    assert_eq!(cursor.peek_map(|x| x * 10), Some(10));
}

#[test]
fn cursor_advances_and_stops_at_the_end() {
    let mut cursor = CursorParser::from(vec!['a', 'b'], Vec::new());
    assert_eq!(cursor.advance(), Some('a'));
    assert_eq!(cursor.cursor(), 1);
    assert_eq!(cursor.advance(), Some('b'));
    assert!(cursor.is_done());
    assert_eq!(cursor.advance(), None);
    assert_eq!(cursor.cursor(), 2);
}

#[test]
fn cursor_advance_if_only_on_match() {
    let mut cursor = CursorParser::from(vec![5, 6], Vec::new());
    assert_eq!(cursor.advance_if(|x| *x == 6), None);
    assert_eq!(cursor.cursor(), 0);
    assert_eq!(cursor.advance_if(|x| *x == 5), Some(5));
    assert_eq!(cursor.advance_if_map(|x| if *x == 6 { Some("six") } else { None }), Some("six"));
    assert!(cursor.is_done());
}

#[test]
fn cursor_advance_while_takes_the_run() {
    let mut cursor = CursorParser::from(vec![1, 3, 5, 6, 7], Vec::new());
    assert_eq!(cursor.advance_while(|x| x % 2 == 1), vec![1, 3, 5]);
    assert_eq!(cursor.cursor(), 3);
    assert_eq!(cursor.advance_while_with_initial(|x| *x > 100, vec![0]), vec![0]);
    assert_eq!(cursor.advance_n(3), vec![Some(6), Some(7), None]);
    assert_eq!(cursor.cursor(), 5);
    assert!(cursor.is_done());
}

#[test]
fn cursor_collects_diagnostics() {
    let mut cursor = CursorParser::from(vec![1], vec![ParseError::lonely_plus(0)]);
    cursor.register(ParseError::lonely_minus(1));
    let errors = cursor.take_errors();
    assert_eq!(errors.len(), 2);
    assert_eq!(errors[1].id, "lonely_minus");
    assert!(cursor.take_errors().is_empty());
    assert_eq!(cursor.peek(), Some(&1));
}

#[test]
fn no_match_runs_the_action() {
    assert_eq!(None::<u8>.on_no_match(|| 4), Some(4));
    assert_eq!(Some(1).on_no_match(|| 4), None);
}

#[test]
fn single_and_into_string() {
    assert_eq!([7].single(), Some(&7));
    assert_eq!([7, 8].single(), None);
    assert_eq!(Vec::<u8>::new().as_slice().single(), None);
    assert_eq!(vec!['a', 'é', 'c'].into_string(), "aéc");
}

#[test]
fn keywords_spell_themselves() {
    assert_eq!(Keyword::Package.text(), "package");
    assert_eq!(Keyword::From.text(), "from");
    assert_eq!(Keyword::Use.text(), "use");
    assert_eq!(Keyword::Struct.text(), "struct");
    assert_eq!(Keyword::Enum.text(), "enum");
    assert_eq!(Keyword::Alias.text(), "alias");
    assert_eq!(Keyword::Val.text(), "val");
}

#[test]
fn decorations_emptiness() {
    let empty = Decorations { comment: None, added: None, deprecated: None };
    assert!(empty.is_empty());
    let commented = Decorations {
        comment: Some(Comment { text: "x".to_string(), span: span(0, 4) }),
        added: None,
        deprecated: None,
    };
    assert!(!commented.is_empty());
}

#[test]
fn token_stage_keeps_atoms_and_spans() {
    let mut atoms = AtomParser::from_source("a:");
    let positioned = atoms.parse();
    let mut tokens = TokenParser::from_atoms(positioned);
    let first: Option<&Positioned<Atom>> = tokens.peek();
    assert_eq!(first.unwrap().data, Atom::Word("a".to_string()));
    let run = tokens.advance_while(|p| matches!(p.data, Atom::Word(_)));
    assert_eq!(run.len(), 1);
    tokens.register(ParseError::lonely_plus(0));
    let rest = tokens.parse();
    assert_eq!(rest.len(), 1);
    assert_eq!(rest[0].span, span(1, 2));
    assert!(tokens.advance().is_none());
}

#[test]
fn atom_parser_steps() {
    let mut parser = AtomParser::from_source("ab c");
    assert_eq!(parser.peek(), Some(&'a'));
    assert_eq!(parser.advance(), Some('a'));
    assert_eq!(parser.offset(), 1);
    assert_eq!(parser.advance_while(|c| *c != ' '), vec!['b']);
    parser.register(ParseError::lonely_plus(0));
    assert_eq!(parser.take_errors().len(), 1);
}
