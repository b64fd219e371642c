use tape::error::{DecideIfAbortParsing, Level, ParseError};
use tape::organisms::{Definition, Literal, Parser, TapeFile};
use tape::pipeline::parse_with_diagnostics;
use tape::tokens::parse_tokens;
use tape::utils::Span;

fn ids(errors: &[ParseError]) -> Vec<&'static str> {
    errors.iter().map(|e| e.id).collect()
}

const POINT: &str = "package example\nstruct Point {\n    x: Int\n    y: Int\n}\n";

#[test]
fn struct_end_to_end() {
    let (file, errors) = parse_with_diagnostics(POINT);
    assert!(errors.is_empty(), "{:?}", errors);
    let file = file.unwrap();
    assert_eq!(file.package_name.name, "example");
    assert!(file.imports.is_empty());
    assert_eq!(file.definitions.len(), 1);
    match &file.definitions[0] {
        Definition::Struct(s) => {
            assert_eq!(s.name.name.name, "Point");
            assert!(s.name.generics.is_empty());
            assert_eq!(s.fields.len(), 2);
            assert_eq!(s.fields[0].name.name, "x");
            assert_eq!(s.fields[0].field_type.name.name, "Int");
            assert!(s.fields[0].field_type.generics.is_empty());
            assert!(s.fields[0].default.is_none());
            assert_eq!(s.fields[1].name.name, "y");
            assert_eq!(s.fields[1].field_type.name.name, "Int");
            assert!(s.fields[1].default.is_none());
        }
        other => panic!("expected a struct, got {:?}", other),
    }
}

#[test]
fn struct_spans_nest() {
    let file = TapeFile::parse(POINT).unwrap();
    assert_eq!(file.package_name.span, Span { start: 8, end: 15 });
    match &file.definitions[0] {
        Definition::Struct(s) => {
            assert_eq!(s.span, Span { start: 16, end: 54 });
            assert_eq!(s.name.span, Span { start: 23, end: 28 });
            assert_eq!(s.fields[0].span, Span { start: 35, end: 41 });
            assert_eq!(s.fields[0].name.span, Span { start: 35, end: 36 });
            assert_eq!(s.fields[0].field_type.span, Span { start: 38, end: 41 });
            assert_eq!(s.fields[1].span, Span { start: 46, end: 52 });
            assert!(s.fields[0].span.end <= s.fields[1].span.start);
            assert!(s.fields[1].span.end <= s.span.end);
        }
        other => panic!("expected a struct, got {:?}", other),
    }
}

#[test]
fn deprecated_annotation_end_to_end() {
    let source = "package example\n@deprecated(1.2.3, \"use Point2 instead\")\nstruct Point {\n    x: Int\n}\n";
    let (file, errors) = parse_with_diagnostics(source);
    assert!(errors.is_empty(), "{:?}", errors);
    let file = file.unwrap();
    match &file.definitions[0] {
        Definition::Struct(s) => {
            let deprecated = s.decorations.deprecated.as_ref().unwrap();
            assert_eq!(
                (deprecated.version.major, deprecated.version.minor, deprecated.version.patch),
                (1, 2, 3)
            );
            assert_eq!(deprecated.reason.string, "use Point2 instead");
            assert!(s.decorations.added.is_none());
            assert!(s.decorations.comment.is_none());
            assert_eq!(deprecated.span, Span { start: 16, end: 56 });
            assert_eq!(deprecated.version.span, Span { start: 28, end: 33 });
            assert_eq!(s.span.start, 16);
        }
        other => panic!("expected a struct, got {:?}", other),
    }
}

#[test]
fn unterminated_string_fails_the_parse() {
    let result = TapeFile::parse("package foo\nval x: Int = \"unterminated");
    let failure = result.err().unwrap();
    assert_eq!(ids(&failure.errors), vec!["unterminated_string"]);
    assert_eq!(failure.errors[0].level, Level::Fatal);
}

#[test]
fn parsing_twice_gives_the_same_result() {
    let source = "// The file.\npackage demo\nfrom other use A, B\n@added(1.0.0)\nenum E {\n  A -> Int\n  B\n}\nval v: Int = 3 bad";
    let (first, first_errors) = parse_with_diagnostics(source);
    let (second, second_errors) = parse_with_diagnostics(source);
    assert_eq!(first, second);
    assert_eq!(first_errors, second_errors);
    assert!(!first_errors.is_empty());
}

#[test]
fn empty_source_needs_a_package() {
    let failure = TapeFile::parse("").err().unwrap();
    assert_eq!(ids(&failure.errors), vec!["expected_package_statement"]);
    assert!(failure.errors.should_abort_parsing());
}

#[test]
fn full_file() {
    let source = "// Shapes.\npackage shapes\nfrom geometry use Point, Line\nfrom colors use Rgb\n\n// A shape.\n@added(1.0.0)\nstruct Shape<T> {\n    // Its name.\n    name: String = \"un\" \"named\"\n    points: List<Point>\n    weight: Map<String, List<T>> = -12\n    ratio: Float = 2.05\n}\n\nenum Kind {\n    Round\n    Angular -> Int\n}\n\nalias Shapes<T> = List<Shape<T>>\nval answer: Int = 42\n";
    let (file, errors) = parse_with_diagnostics(source);
    assert!(errors.is_empty(), "{:?}", errors);
    let file = file.unwrap();
    assert_eq!(file.comment.as_ref().unwrap().text, "Shapes.");
    assert_eq!(file.package_name.name, "shapes");
    assert_eq!(file.imports.len(), 2);
    assert_eq!(file.imports[0].source.name, "geometry");
    let names: Vec<&str> = file.imports[0].imports.iter().map(|i| i.name.as_str()).collect();
    assert_eq!(names, vec!["Point", "Line"]);
    assert_eq!(file.definitions.len(), 4);
    match &file.definitions[0] {
        Definition::Struct(s) => {
            assert_eq!(s.decorations.comment.as_ref().unwrap().text, "A shape.");
            let added = s.decorations.added.as_ref().unwrap();
            assert_eq!((added.version.major, added.version.minor, added.version.patch), (1, 0, 0));
            assert_eq!(s.name.generics[0].name, "T");
            assert_eq!(s.fields.len(), 4);
            assert_eq!(s.fields[0].decorations.comment.as_ref().unwrap().text, "Its name.");
            match s.fields[0].default.as_ref().unwrap() {
                Literal::String(l) => assert_eq!(l.string, "unnamed"),
                other => panic!("expected a string, got {:?}", other),
            }
            assert_eq!(s.fields[1].field_type.generics[0].name.name, "Point");
            let weight = &s.fields[2].field_type;
            assert_eq!(weight.name.name, "Map");
            assert_eq!(weight.generics.len(), 2);
            assert_eq!(weight.generics[1].generics[0].name.name, "T");
            match s.fields[2].default.as_ref().unwrap() {
                Literal::Integer(l) => {
                    assert!(l.negative);
                    assert_eq!(l.magnitude.to_u64(), Some(12));
                }
                other => panic!("expected an integer, got {:?}", other),
            }
            match s.fields[3].default.as_ref().unwrap() {
                Literal::Float(l) => {
                    assert!(!l.negative);
                    assert_eq!(l.before_dot.to_text(), "2");
                    assert_eq!(l.after_dot.to_text(), "05");
                }
                other => panic!("expected a float, got {:?}", other),
            }
        }
        other => panic!("expected a struct, got {:?}", other),
    }
    match &file.definitions[1] {
        Definition::Enum(e) => {
            assert_eq!(e.name.name, "Kind");
            assert_eq!(e.variants.len(), 2);
            assert!(e.variants[0].associated_type.is_none());
            assert_eq!(e.variants[1].associated_type.as_ref().unwrap().name.name, "Int");
        }
        other => panic!("expected an enum, got {:?}", other),
    }
    match &file.definitions[2] {
        Definition::Alias(a) => {
            assert_eq!(a.name.name.name, "Shapes");
            assert_eq!(a.aliased_type.generics[0].generics[0].name.name, "T");
        }
        other => panic!("expected an alias, got {:?}", other),
    }
    match &file.definitions[3] {
        Definition::Value(v) => {
            assert_eq!(v.name.name, "answer");
            match &v.literal {
                Literal::Integer(l) => assert_eq!(l.magnitude.to_u64(), Some(42)),
                other => panic!("expected an integer, got {:?}", other),
            }
        }
        other => panic!("expected a value, got {:?}", other),
    }
}

#[test]
fn keywords_are_names_elsewhere() {
    let source = "package p\nstruct Range {\n    from: Int\n    struct: Int\n}\n";
    let (file, errors) = parse_with_diagnostics(source);
    assert!(errors.is_empty(), "{:?}", errors);
    match &file.unwrap().definitions[0] {
        Definition::Struct(s) => {
            assert_eq!(s.fields[0].name.name, "from");
            assert_eq!(s.fields[1].name.name, "struct");
        }
        other => panic!("expected a struct, got {:?}", other),
    }
}

#[test]
fn second_comment_is_reported_and_wins() {
    let source = "package p\n// one\n@added(1.0.0)\n// two\nstruct A {}\n";
    let (file, errors) = parse_with_diagnostics(source);
    assert_eq!(ids(&errors), vec!["multiple_comments"]);
    assert_eq!(errors[0].level, Level::Error);
    match &file.unwrap().definitions[0] {
        Definition::Struct(s) => assert_eq!(s.decorations.comment.as_ref().unwrap().text, "two"),
        other => panic!("expected a struct, got {:?}", other),
    }
}

#[test]
fn second_added_annotation_is_reported_and_wins() {
    let source = "package p\n@added(1.0.0)\n@added(2.0.0)\nstruct A {}\n";
    let (file, errors) = parse_with_diagnostics(source);
    assert_eq!(ids(&errors), vec!["multiple_added_annotations"]);
    match &file.unwrap().definitions[0] {
        Definition::Struct(s) => assert_eq!(s.decorations.added.as_ref().unwrap().version.major, 2),
        other => panic!("expected a struct, got {:?}", other),
    }
}

#[test]
fn second_deprecated_annotation_is_reported() {
    let source = "package p\n@deprecated(1.0.0, \"a\")\n@deprecated(2.0.0, \"b\")\nstruct A {}\n";
    let (_, errors) = parse_with_diagnostics(source);
    assert_eq!(ids(&errors), vec!["multiple_deprecated_annotations"]);
}

#[test]
fn version_too_big_is_reported_and_replaced() {
    let source = "package p\n@added(18446744073709551616.0.1)\nstruct A {}\n";
    let (file, errors) = parse_with_diagnostics(source);
    assert_eq!(ids(&errors), vec!["version_too_big"]);
    assert_eq!(errors[0].level, Level::Error);
    assert!(errors[0].description.contains("18446744073709551616 > 18446744073709551615"));
    match &file.unwrap().definitions[0] {
        Definition::Struct(s) => {
            let added = s.decorations.added.as_ref().unwrap();
            assert_eq!((added.version.major, added.version.minor, added.version.patch), (0, 0, 1));
        }
        other => panic!("expected a struct, got {:?}", other),
    }
}

fn first_error(source: &str) -> ParseError {
    let (file, errors) = parse_with_diagnostics(source);
    assert!(file.is_none() || errors.iter().all(|e| e.level != Level::Fatal));
    errors.into_iter().next().expect("a diagnostic")
}

#[test]
fn annotation_errors() {
    assert_eq!(first_error("package p\n@ (1.0.0) struct A {}").id, "expected_annotation");
    assert_eq!(first_error("package p\n@struct A {}").id, "unknown_annotation");
    assert_eq!(first_error("package p\n@removed(1.0.0) struct A {}").id, "unknown_annotation");
    assert_eq!(first_error("package p\n@added 1.0.0 struct A {}").id, "expected_opening_parenthesis");
    assert_eq!(first_error("package p\n@added(x) struct A {}").id, "expected_version");
    assert_eq!(first_error("package p\n@added(1.0.0 struct A {}").id, "expected_closing_parenthesis");
    assert_eq!(first_error("package p\n@deprecated(1.0.0) struct A {}").id, "expected_comma");
    assert_eq!(first_error("package p\n@deprecated(1.0.0, x) struct A {}").id, "expected_deprecation_reason");
    assert_eq!(first_error("package p\n@added(1 0) struct A {}").id, "expected_dot");
    assert_eq!(first_error("package p\n@added(1.x) struct A {}").id, "expected_minor_version_number");
    assert_eq!(first_error("package p\n@added(1.0.) struct A {}").id, "expected_patch_version_number");
}

#[test]
fn annotation_error_span() {
    let e = first_error("package p\n@added(1.0.0 struct A {}");
    assert_eq!(e.level, Level::Fatal);
    assert_eq!(e.span, Span { start: 10, end: 22 });
}

#[test]
fn definition_errors() {
    assert_eq!(first_error("package p\nstruct {}").id, "expected_struct_name");
    assert_eq!(first_error("package p\nstruct A x: Int }").id, "expected_opening_brace");
    assert_eq!(first_error("package p\nstruct A { x: Int").id, "expected_closing_brace");
    assert_eq!(first_error("package p\nstruct A { x Int }").id, "expected_colon");
    assert_eq!(first_error("package p\nstruct A { x: }").id, "expected_field_type");
    assert_eq!(first_error("package p\nstruct A { 7 }").id, "expected_field");
    assert_eq!(first_error("package p\nstruct A { x: Int = }").id, "expected_literal");
    assert_eq!(first_error("package p\nenum {}").id, "expected_enum_name");
    assert_eq!(first_error("package p\nenum E { 7 }").id, "expected_variant");
    assert_eq!(first_error("package p\nenum E { A -> }").id, "expected_variant_type");
    assert_eq!(first_error("package p\nalias = Int").id, "expected_alias_name");
    assert_eq!(first_error("package p\nalias A Int").id, "expected_equal_sign");
    assert_eq!(first_error("package p\nalias A =").id, "expected_aliased_type");
    assert_eq!(first_error("package p\nalias A<> = Int").id, "expected_type_parameter");
    assert_eq!(first_error("package p\nalias A<T = Int").id, "expected_closing_angle");
    assert_eq!(first_error("package p\nalias A = List<>").id, "expected_type_argument");
    assert_eq!(first_error("package p\nval x Int = 1").id, "expected_colon");
    assert_eq!(first_error("package p\nval x: = 1").id, "expected_value_type");
    assert_eq!(first_error("package p\nval x: Int 1").id, "expected_equal_sign");
    assert_eq!(first_error("package p\nval x: Int = - x").id, "lonely_minus");
    assert_eq!(first_error("package p\n}").id, "expected_definition");
    assert_eq!(first_error("package p\n// dangling").id, "expected_definition_after_decoration");
}

#[test]
fn missing_value_name_is_an_error_and_drops_the_value() {
    let (file, errors) = parse_with_diagnostics("package p\nval : Int = 1\nstruct A {}");
    assert_eq!(ids(&errors), vec!["expected_val_name"]);
    assert_eq!(errors[0].level, Level::Error);
    assert_eq!(file.unwrap().definitions.len(), 1);
}

#[test]
fn import_errors() {
    assert_eq!(first_error("package p\nfrom 7 use A").id, "expected_source");
    assert_eq!(first_error("package p\nfrom use A").id, "expected_use_keyword");
    assert_eq!(first_error("package p\nfrom q A").id, "expected_use_keyword");
    assert_eq!(first_error("package p\nfrom q use").id, "expected_import");
    assert_eq!(first_error("package p\nfrom q use A,").id, "expected_import");
}

#[test]
fn recovery_goes_on_to_the_next_definition() {
    let source = "package p\nstruct A { x Int y: Int }\nstruct B { z: Int }\n";
    let (file, errors) = parse_with_diagnostics(source);
    assert!(file.is_none());
    assert_eq!(ids(&errors), vec!["expected_colon"]);
    let source = "package p\n= = =\nstruct B { z: Int }\nenum C { D }";
    let (_, errors) = parse_with_diagnostics(source);
    assert_eq!(ids(&errors), vec!["expected_definition"]);
}

#[test]
fn lexer_failure_stops_before_syntax() {
    let failure = TapeFile::parse("package p\nstruct A { x: Int ; }").err().unwrap();
    assert_eq!(ids(&failure.errors), vec!["unsupported_character"]);
}

#[test]
fn warnings_do_not_fail_the_parse() {
    let (file, errors) = parse_with_diagnostics("//x\npackage p\n");
    assert!(file.is_some());
    assert_eq!(ids(&errors), vec!["no_space_after_double_slash"]);
    assert_eq!(file.unwrap().comment.unwrap().text, "x");
}

#[test]
fn parser_runs_on_tokens() {
    let mut errors = Vec::new();
    let tokens = parse_tokens("// Top.\n// Second.\npackage p\nfrom q use A\nalias B = A", &mut errors);
    assert!(errors.is_empty());
    let mut parser = Parser::from_tokens(tokens);
    let file = parser.parse().unwrap();
    assert_eq!(file.comment.unwrap().text, "Top.\nSecond.");
    assert_eq!(file.imports.len(), 1);
    assert_eq!(file.definitions.len(), 1);
    assert!(parser.is_done());
    assert!(parser.take_errors().is_empty());
}

#[test]
fn from_str_parses() {
    let file: TapeFile = "package p\nval x: Int = 1".parse().unwrap();
    assert_eq!(file.definitions.len(), 1);
    let failure = "struct A {}".parse::<TapeFile>().err().unwrap();
    assert_eq!(ids(&failure.errors), vec!["expected_package_statement"]);
}

#[test]
fn annotation_and_import_spans_are_exact() {
    let source = "package p\nfrom json use Json, Something\n@added(1.2.3)\nstruct A {}\n";
    let (file, errors) = parse_with_diagnostics(source);
    assert!(errors.is_empty(), "{:?}", errors);
    let file = file.unwrap();
    let import = &file.imports[0];
    assert_eq!(import.source.name, "json");
    assert_eq!(import.imports[1].name, "Something");
    assert_eq!(import.span, Span { start: 10, end: 39 });
    match &file.definitions[0] {
        Definition::Struct(s) => {
            let added = s.decorations.added.as_ref().unwrap();
            assert_eq!(added.span, Span { start: 40, end: 53 });
            assert_eq!(added.version.span, Span { start: 47, end: 52 });
        }
        other => panic!("expected a struct, got {:?}", other),
    }
}

#[test]
fn adjacent_strings_join_with_exact_span() {
    let (file, errors) = parse_with_diagnostics("package p\nval s: String = \"ab\" \"cd\"\n");
    assert!(errors.is_empty());
    match &file.unwrap().definitions[0] {
        Definition::Value(v) => match &v.literal {
            Literal::String(l) => {
                assert_eq!(l.string, "abcd");
                assert_eq!(l.span, Span { start: 26, end: 35 });
            }
            other => panic!("expected a string, got {:?}", other),
        },
        other => panic!("expected a value, got {:?}", other),
    }
}

#[test]
fn value_field_and_enum_spans_are_exact() {
    let source = "package p\nval answer: Int = 42\nstruct S {\n    x: Int\n}\nenum Json { Leaf Number -> Float64 }";
    let (file, errors) = parse_with_diagnostics(source);
    assert!(errors.is_empty(), "{:?}", errors);
    let file = file.unwrap();
    match &file.definitions[0] {
        Definition::Value(v) => {
            assert_eq!(v.span, Span { start: 10, end: 30 });
            assert!(v.value_type.generics.is_empty());
            match &v.literal {
                Literal::Integer(l) => assert_eq!(l.span, Span { start: 28, end: 30 }),
                other => panic!("expected an integer, got {:?}", other),
            }
        }
        other => panic!("expected a value, got {:?}", other),
    }
    match &file.definitions[1] {
        Definition::Struct(s) => assert_eq!(s.fields[0].span, Span { start: 46, end: 52 }),
        other => panic!("expected a struct, got {:?}", other),
    }
    match &file.definitions[2] {
        Definition::Enum(e) => {
            assert_eq!(e.span, Span { start: 55, end: 91 });
            let t = e.variants[1].associated_type.as_ref().unwrap();
            assert_eq!(t.name.name, "Float64");
            assert!(t.generics.is_empty());
        }
        other => panic!("expected an enum, got {:?}", other),
    }
}
