//! Diagnostics: a catalog of constructors, one per kind of problem, each with a
//! stable key, a level and a span.

use crate::numbers::Natural;
use crate::organisms::{AddedAnnotation, Comment, DeprecatedAnnotation, Identifier};
use crate::utils::Span;
use vstd::prelude::*;

verus! {

/// How serious a diagnostic is. The order is `Warning < Error < Fatal`.
#[derive(Clone, Copy, Debug, PartialEq, Eq, PartialOrd, Ord, Hash, Structural)]
pub enum Level {
    /// Useful to know, but the parse is still correct.
    Warning,
    /// A local defect was patched; parsing continues on a best-effort basis.
    Error,
    /// The enclosing construct is abandoned; the pipeline stops after this stage.
    Fatal,
}

impl Level {
    /// The position of the level in the order `Warning < Error < Fatal`.
    pub open spec fn rank(self) -> nat {
        match self {
            Level::Warning => 0,
            Level::Error => 1,
            Level::Fatal => 2,
        }
    }

    pub fn severity(&self) -> (r: u8)
        ensures
            r == self.rank(),
    {
        match self {
            Level::Warning => 0,
            Level::Error => 1,
            Level::Fatal => 2,
        }
    }

    pub fn is_fatal(&self) -> (r: bool)
        ensures
            r == (self.rank() >= Level::Fatal.rank()),
    {
        self.severity() >= 2
    }
}

/// A diagnostic: what went wrong, where, and what to do about it.
#[derive(Debug, PartialEq, Eq)]
pub struct ParseError {
    /// A stable key that identifies the kind of problem.
    pub id: &'static str,
    pub level: Level,
    pub summary: &'static str,
    pub description: String,
    pub suggestions: Vec<&'static str>,
    pub personalized_suggestions: Vec<String>,
    pub span: Span,
}

/// What contracts say of a diagnostic: its key, its level and its span.
pub struct ErrorView {
    pub id: Seq<char>,
    pub level: Level,
    pub span: Span,
}

impl View for ParseError {
    type V = ErrorView;

    open spec fn view(&self) -> ErrorView {
        ErrorView { id: self.id@, level: self.level, span: self.span }
    }
}

pub open spec fn error_view(id: &str, level: Level, span: Span) -> ErrorView {
    ErrorView { id: id@, level, span }
}

/// The views of a sequence of diagnostics.
pub open spec fn views(errors: Seq<ParseError>) -> Seq<ErrorView> {
    errors.map_values(|e: ParseError| e@)
}

pub proof fn lemma_views_push(errors: Seq<ParseError>, e: ParseError)
    ensures
        views(errors.push(e)) == views(errors).push(e@),
{
    assert(views(errors.push(e)) =~= views(errors).push(e@));
}

/// `after` is `before` with one diagnostic added: `id`, at `level`, over `span`.
pub open spec fn reported(
    before: Seq<ParseError>,
    after: Seq<ParseError>,
    id: &str,
    level: Level,
    span: Span,
) -> bool {
    views(after) == views(before).push(error_view(id, level, span))
}

/// Whether some diagnostic of `errors` is fatal or worse.
pub open spec fn has_fatal(errors: Seq<ErrorView>) -> bool {
    exists|i: int| 0 <= i < errors.len() && errors[i].level.rank() >= Level::Fatal.rank()
}

pub trait DecideIfAbortParsing {
    spec fn aborts(&self) -> bool;

    /// Whether the diagnostics collected so far require the pipeline to stop.
    fn should_abort_parsing(&self) -> (r: bool)
        ensures
            r == self.aborts(),
    ;
}

impl DecideIfAbortParsing for Vec<ParseError> {
    open spec fn aborts(&self) -> bool {
        has_fatal(views(self@))
    }

    fn should_abort_parsing(&self) -> (r: bool) {
        let mut i: usize = 0;
        while i < self.len()
            invariant
                i <= self.len(),
                forall|j: int| 0 <= j < i ==> !(#[trigger] self@[j]).level.is_fatal_spec(),
            decreases self.len() - i,
        {
            if self[i].level.is_fatal() {
                assert(views(self@)[i as int].level.rank() >= 2);
                return true;
            }
            i = i + 1;
        }
        assert forall|j: int| 0 <= j < self@.len() implies !(#[trigger] views(self@)[j]).level.is_fatal_spec() by {
            assert(!self@[j].level.is_fatal_spec());
        }
        false
    }
}

impl Level {
    pub open spec fn is_fatal_spec(self) -> bool {
        self.rank() >= Level::Fatal.rank()
    }
}

fn text(s: &str) -> (r: String)
    ensures
        r@ == s@,
{
    s.to_string()
}

impl ParseError {
    fn build(
        id: &'static str,
        level: Level,
        summary: &'static str,
        description: &str,
        suggestions: Vec<&'static str>,
        span: Span,
    ) -> (r: ParseError)
        ensures
            r.id == id,
            r.level == level,
            r.summary == summary,
            r.description@ == description@,
            r.suggestions == suggestions,
            r.personalized_suggestions@.len() == 0,
            r.span == span,
    {
        ParseError {
            id,
            level,
            summary,
            description: text(description),
            suggestions,
            personalized_suggestions: Vec::new(),
            span,
        }
    }

    // Raised while reading characters.
    pub fn newline_in_string(newline_position: usize) -> (r: Self)
        ensures
            r@ == error_view(
                "newline_in_string",
                Level::Error,
                Span { start: newline_position, end: newline_position },
            ),
            r.summary@ == "There's a newline character in a string."@,
            r.description@ == "Newlines in strings aren't directly supported, because it makes it less \
                obvious whether spaces from the indentation are included or not."@,
            r.suggestions@.len() == 2,
            r.suggestions@[0]@ == "To make a string contain a newline character, just use '\\n'."@,
            r.suggestions@[1]@ == "To break the string across multiple lines for formatting reasons, just put a new \
                string in the next line; adjacent strings are automatically concatenated. For \
                example, \"ab\" \"cd\" is equivalent to \"abcd\"."@,
    {
        ParseError::build(
            "newline_in_string",
            Level::Error,
            "There's a newline character in a string.",
            "Newlines in strings aren't directly supported, because it makes it less \
                obvious whether spaces from the indentation are included or not.",
            vec![
                "To make a string contain a newline character, just use '\\n'.",
                "To break the string across multiple lines for formatting reasons, just put a new \
                string in the next line; adjacent strings are automatically concatenated. For \
                example, \"ab\" \"cd\" is equivalent to \"abcd\".",
            ],
            Span::new(newline_position, newline_position),
        )
    }

    pub fn invalid_escaping_in_string(escaped_char_position: usize) -> (r: Self)
        requires
            escaped_char_position >= 1,
        ensures
            r@ == error_view("invalid_escaping_in_string", Level::Error, Span { start: (escaped_char_position - 1) as usize, end: escaped_char_position }),
            r.summary@ == "This character cannot be escaped."@,
            r.description@ == "This escape sequence doesn't exist. Escape only backslashes ('\\\\'), double quotes ('\\\"'), and newlines ('\\n')."@,
            r.suggestions@.len() == 1,
            r.suggestions@[0]@ == "Remove the backslash."@,
    {
        ParseError::build(
            "invalid_escaping_in_string",
            Level::Error,
            "This character cannot be escaped.",
            "This escape sequence doesn't exist. Escape only backslashes ('\\\\'), double quotes ('\\\"'), and newlines ('\\n').",
            vec!["Remove the backslash."],
            Span::new(escaped_char_position - 1, escaped_char_position),
        )
    }

    pub fn unterminated_string(string_span: Span) -> (r: Self)
        ensures
            r@ == error_view("unterminated_string", Level::Fatal, string_span),
            r.summary@ == "This string isn't terminated."@,
            r.description@ == "Strings need to be terminated with a '\"'."@,
            r.suggestions@.len() == 1,
            r.suggestions@[0]@ == "Add a '\"' at the end of the string."@,
    {
        ParseError::build(
            "unterminated_string",
            Level::Fatal,
            "This string isn't terminated.",
            "Strings need to be terminated with a '\"'.",
            vec!["Add a '\"' at the end of the string."],
            string_span,
        )
    }

    pub fn lonely_slash(slash_position: usize) -> (r: Self)
        requires
            slash_position < usize::MAX,
        ensures
            r@ == error_view("lonely_slash", Level::Fatal, Span { start: slash_position, end: (slash_position + 1) as usize }),
            r.summary@ == "This is a single slash."@,
            r.description@ == "By design, tape isn't turing complete, so it doesn't need operands like + or /."@,
            r.suggestions@.len() == 1,
            r.suggestions@[0]@ == "If you tried to start a comment, use a double slash like this: '// Some comment.'"@,
    {
        ParseError::build(
            "lonely_slash",
            Level::Fatal,
            "This is a single slash.",
            "By design, tape isn't turing complete, so it doesn't need operands like + or /.",
            vec!["If you tried to start a comment, use a double slash like this: '// Some comment.'"],
            Span::new(slash_position, slash_position + 1),
        )
    }

    pub fn no_space_after_double_slash(missing_space_position: usize) -> (r: Self)
        requires
            missing_space_position >= 2,
        ensures
            r@ == error_view("no_space_after_double_slash", Level::Warning, Span { start: (missing_space_position - 2) as usize, end: missing_space_position }),
            r.summary@ == "There's no space after the double slash."@,
            r.description@ == "Having a space after the double slash makes the comment more readable."@,
            r.suggestions@.len() == 1,
            r.suggestions@[0]@ == "Add a space."@,
    {
        ParseError::build(
            "no_space_after_double_slash",
            Level::Warning,
            "There's no space after the double slash.",
            "Having a space after the double slash makes the comment more readable.",
            vec!["Add a space."],
            Span::new(missing_space_position - 2, missing_space_position),
        )
    }

    pub fn unsupported_character(char_span: Span) -> (r: Self)
        ensures
            r@ == error_view("unsupported_character", Level::Fatal, char_span),
            r.summary@ == "This is an unsupported character."@,
            r.description@ == "Identifiers may only contain letters, numbers, underscores and hyphens. Note that you can use any unicode characters in comments and strings."@,
            r.suggestions@.len() == 1,
            r.suggestions@[0]@ == "Remove this character."@,
    {
        ParseError::build(
            "unsupported_character",
            Level::Fatal,
            "This is an unsupported character.",
            "Identifiers may only contain letters, numbers, underscores and hyphens. Note that you can use any unicode characters in comments and strings.",
            vec!["Remove this character."],
            char_span,
        )
    }

    pub fn lonely_plus(plus_position: usize) -> (r: Self)
        ensures
            r@ == error_view("lonely_plus", Level::Fatal, Span { start: plus_position, end: plus_position }),
            r.summary@ == "There's a lonely '+' standing around in the wild."@,
            r.description@ == "By design, tape isn't turing complete, so it doesn't need operands like + or *. Plus signs may only occur in versions to indicate build numbers, like in 1.2.3+6."@,
            r.suggestions@.len() == 1,
            r.suggestions@[0]@ == "If you attempted to not change the sign of a number, just omit the '+'."@,
    {
        ParseError::build(
            "lonely_plus",
            Level::Fatal,
            "There's a lonely '+' standing around in the wild.",
            "By design, tape isn't turing complete, so it doesn't need operands like + or *. Plus signs may only occur in versions to indicate build numbers, like in 1.2.3+6.",
            vec!["If you attempted to not change the sign of a number, just omit the '+'."],
            Span::new(plus_position, plus_position),
        )
    }

    pub fn lonely_minus(minus_position: usize) -> (r: Self)
        ensures
            r@ == error_view("lonely_minus", Level::Fatal, Span { start: minus_position, end: minus_position }),
            r.summary@ == "There's a lonely minus standing around in the wild."@,
            r.description@ == "By design, tape isn't turing complete, so it doesn't need operands like * or - (except maybe for negating numbers)."@,
            r.suggestions@.len() == 2,
            r.suggestions@[0]@ == "If you attempted to negate a number, remove anything between the minus and the number."@,
            r.suggestions@[1]@ == "Maybe you started typing an arrow ('->') and forgot about it? Then just add the missing '>'."@,
    {
        ParseError::build(
            "lonely_minus",
            Level::Fatal,
            "There's a lonely minus standing around in the wild.",
            "By design, tape isn't turing complete, so it doesn't need operands like * or - (except maybe for negating numbers).",
            vec!["If you attempted to negate a number, remove anything between the minus and the number.", "Maybe you started typing an arrow ('->') and forgot about it? Then just add the missing '>'."],
            Span::new(minus_position, minus_position),
        )
    }

    pub fn expected_patch_version(version_position: Span) -> (r: Self)
        ensures
            r@ == error_view("expected_patch_version", Level::Error, version_position),
            r.summary@ == "Expected patch version of a semantic version."@,
            r.description@ == "Semantic versions consist of three version numbers: A major version, a minor version, and a patch version. You didn't provide a patch version though."@,
            r.suggestions@.len() == 2,
            r.suggestions@[0]@ == "If this is supposed to be a semantic version, just add the patch version number."@,
            r.suggestions@[1]@ == "If this should be a floating point number, remove the last dot."@,
    {
        ParseError::build(
            "expected_patch_version",
            Level::Error,
            "Expected patch version of a semantic version.",
            "Semantic versions consist of three version numbers: A major version, a minor version, and a patch version. You didn't provide a patch version though.",
            vec!["If this is supposed to be a semantic version, just add the patch version number.", "If this should be a floating point number, remove the last dot."],
            version_position,
        )
    }

    pub fn expected_package_statement(span: Span) -> (r: Self)
        ensures
            r@ == error_view("expected_package_statement", Level::Fatal, span),
            r.summary@ == "Expected a package statement."@,
            r.description@ == "Every tape file starts with a package statement like 'package example', optionally preceded by a comment."@,
            r.suggestions@.len() == 1,
            r.suggestions@[0]@ == "Add a package statement at the top of the file."@,
    {
        ParseError::build(
            "expected_package_statement",
            Level::Fatal,
            "Expected a package statement.",
            "Every tape file starts with a package statement like 'package example', optionally preceded by a comment.",
            vec!["Add a package statement at the top of the file."],
            span,
        )
    }

    pub fn expected_struct_field_type(non_type_position: Span) -> (r: Self)
        ensures
            r@ == error_view("expected_struct_field_type", Level::Error, non_type_position),
            r.summary@ == "Expected type of the struct field."@,
            r.description@ == "You started a struct field but didn't provide a type."@,
            r.suggestions@.len() == 1,
            r.suggestions@[0]@ == "Add a type."@,
    {
        ParseError::build(
            "expected_struct_field_type",
            Level::Error,
            "Expected type of the struct field.",
            "You started a struct field but didn't provide a type.",
            vec!["Add a type."],
            non_type_position,
        )
    }

    pub fn expected_value_name(span: Span) -> (r: Self)
        ensures
            r@ == error_view("expected_val_name", Level::Error, span),
            r.summary@ == "Expected name of a value."@,
            r.description@ == "You started a `val` statement but no name for the value was found."@,
            r.suggestions@.len() == 1,
            r.suggestions@[0]@ == "Add a name."@,
    {
        ParseError::build(
            "expected_val_name",
            Level::Error,
            "Expected name of a value.",
            "You started a `val` statement but no name for the value was found.",
            vec!["Add a name."],
            span,
        )
    }

    pub fn expected_source(span: Span) -> (r: Self)
        ensures
            r@ == error_view("expected_source", Level::Fatal, span),
            r.summary@ == "Expected the package to import from."@,
            r.description@ == "After 'from', name the package that the types come from, like in 'from json use Json'."@,
            r.suggestions@.len() == 1,
            r.suggestions@[0]@ == "Add the name of a package."@,
    {
        ParseError::build(
            "expected_source",
            Level::Fatal,
            "Expected the package to import from.",
            "After 'from', name the package that the types come from, like in 'from json use Json'.",
            vec!["Add the name of a package."],
            span,
        )
    }

    pub fn expected_use_keyword(span: Span) -> (r: Self)
        ensures
            r@ == error_view("expected_use_keyword", Level::Fatal, span),
            r.summary@ == "Expected the keyword 'use'."@,
            r.description@ == "An import names a package and then, after 'use', the types that it imports."@,
            r.suggestions@.len() == 1,
            r.suggestions@[0]@ == "Add 'use' followed by the imported types."@,
    {
        ParseError::build(
            "expected_use_keyword",
            Level::Fatal,
            "Expected the keyword 'use'.",
            "An import names a package and then, after 'use', the types that it imports.",
            vec!["Add 'use' followed by the imported types."],
            span,
        )
    }

    pub fn expected_import(span: Span) -> (r: Self)
        ensures
            r@ == error_view("expected_import", Level::Fatal, span),
            r.summary@ == "Expected the name of an imported type."@,
            r.description@ == "After 'use' and after each comma of an import, a type name follows."@,
            r.suggestions@.len() == 1,
            r.suggestions@[0]@ == "Add the name of a type."@,
    {
        ParseError::build(
            "expected_import",
            Level::Fatal,
            "Expected the name of an imported type.",
            "After 'use' and after each comma of an import, a type name follows.",
            vec!["Add the name of a type."],
            span,
        )
    }

    pub fn expected_definition(span: Span) -> (r: Self)
        ensures
            r@ == error_view("expected_definition", Level::Fatal, span),
            r.summary@ == "Expected a definition."@,
            r.description@ == "At this point a struct, enum, alias or val definition was expected."@,
            r.suggestions@.len() == 1,
            r.suggestions@[0]@ == "Start a definition with 'struct', 'enum', 'alias' or 'val'."@,
    {
        ParseError::build(
            "expected_definition",
            Level::Fatal,
            "Expected a definition.",
            "At this point a struct, enum, alias or val definition was expected.",
            vec!["Start a definition with 'struct', 'enum', 'alias' or 'val'."],
            span,
        )
    }

    pub fn expected_definition_after_decoration(span: Span) -> (r: Self)
        ensures
            r@ == error_view("expected_definition_after_decoration", Level::Fatal, span),
            r.summary@ == "Expected a definition after this comment or annotation."@,
            r.description@ == "Comments and annotations describe the definition that follows them, but the file ends here."@,
            r.suggestions@.len() == 1,
            r.suggestions@[0]@ == "Add a definition or remove the comment or annotation."@,
    {
        ParseError::build(
            "expected_definition_after_decoration",
            Level::Fatal,
            "Expected a definition after this comment or annotation.",
            "Comments and annotations describe the definition that follows them, but the file ends here.",
            vec!["Add a definition or remove the comment or annotation."],
            span,
        )
    }

    pub fn expected_annotation(span: Span) -> (r: Self)
        ensures
            r@ == error_view("expected_annotation", Level::Fatal, span),
            r.summary@ == "Expected the name of an annotation."@,
            r.description@ == "An '@' starts an annotation like '@added(1.0.0)'."@,
            r.suggestions@.len() == 1,
            r.suggestions@[0]@ == "Add 'added' or 'deprecated' after the '@'."@,
    {
        ParseError::build(
            "expected_annotation",
            Level::Fatal,
            "Expected the name of an annotation.",
            "An '@' starts an annotation like '@added(1.0.0)'.",
            vec!["Add 'added' or 'deprecated' after the '@'."],
            span,
        )
    }

    pub fn expected_opening_parenthesis(span: Span) -> (r: Self)
        ensures
            r@ == error_view("expected_opening_parenthesis", Level::Fatal, span),
            r.summary@ == "Expected an opening parenthesis."@,
            r.description@ == "The arguments of an annotation are enclosed in parentheses."@,
            r.suggestions@.len() == 1,
            r.suggestions@[0]@ == "Add a '('."@,
    {
        ParseError::build(
            "expected_opening_parenthesis",
            Level::Fatal,
            "Expected an opening parenthesis.",
            "The arguments of an annotation are enclosed in parentheses.",
            vec!["Add a '('."],
            span,
        )
    }

    pub fn expected_version(span: Span) -> (r: Self)
        ensures
            r@ == error_view("expected_version", Level::Fatal, span),
            r.summary@ == "Expected a version."@,
            r.description@ == "Annotations take a semantic version like 1.2.3 as their first argument."@,
            r.suggestions@.len() == 1,
            r.suggestions@[0]@ == "Add a version."@,
    {
        ParseError::build(
            "expected_version",
            Level::Fatal,
            "Expected a version.",
            "Annotations take a semantic version like 1.2.3 as their first argument.",
            vec!["Add a version."],
            span,
        )
    }

    pub fn expected_closing_parenthesis(span: Span) -> (r: Self)
        ensures
            r@ == error_view("expected_closing_parenthesis", Level::Fatal, span),
            r.summary@ == "Expected a closing parenthesis."@,
            r.description@ == "The arguments of an annotation are enclosed in parentheses."@,
            r.suggestions@.len() == 1,
            r.suggestions@[0]@ == "Add a ')'."@,
    {
        ParseError::build(
            "expected_closing_parenthesis",
            Level::Fatal,
            "Expected a closing parenthesis.",
            "The arguments of an annotation are enclosed in parentheses.",
            vec!["Add a ')'."],
            span,
        )
    }

    pub fn expected_deprecation_reason(span: Span) -> (r: Self)
        ensures
            r@ == error_view("expected_deprecation_reason", Level::Fatal, span),
            r.summary@ == "Expected the reason of the deprecation."@,
            r.description@ == "'@deprecated' takes a version and a string that says why, like '@deprecated(1.2.3, \"Use Other instead.\")'."@,
            r.suggestions@.len() == 1,
            r.suggestions@[0]@ == "Add a string."@,
    {
        ParseError::build(
            "expected_deprecation_reason",
            Level::Fatal,
            "Expected the reason of the deprecation.",
            "'@deprecated' takes a version and a string that says why, like '@deprecated(1.2.3, \"Use Other instead.\")'.",
            vec!["Add a string."],
            span,
        )
    }

    pub fn expected_comma(span: Span) -> (r: Self)
        ensures
            r@ == error_view("expected_comma", Level::Fatal, span),
            r.summary@ == "Expected a comma."@,
            r.description@ == "The arguments of an annotation are separated by commas."@,
            r.suggestions@.len() == 1,
            r.suggestions@[0]@ == "Add a ','."@,
    {
        ParseError::build(
            "expected_comma",
            Level::Fatal,
            "Expected a comma.",
            "The arguments of an annotation are separated by commas.",
            vec!["Add a ','."],
            span,
        )
    }

    pub fn expected_major_version_number(span: Span) -> (r: Self)
        ensures
            r@ == error_view("expected_major_version_number", Level::Fatal, span),
            r.summary@ == "Expected the major version number."@,
            r.description@ == "Semantic versions consist of three version numbers separated by dots."@,
            r.suggestions@.len() == 1,
            r.suggestions@[0]@ == "Add the major version number."@,
    {
        ParseError::build(
            "expected_major_version_number",
            Level::Fatal,
            "Expected the major version number.",
            "Semantic versions consist of three version numbers separated by dots.",
            vec!["Add the major version number."],
            span,
        )
    }

    pub fn expected_minor_version_number(span: Span) -> (r: Self)
        ensures
            r@ == error_view("expected_minor_version_number", Level::Fatal, span),
            r.summary@ == "Expected the minor version number."@,
            r.description@ == "Semantic versions consist of three version numbers separated by dots."@,
            r.suggestions@.len() == 1,
            r.suggestions@[0]@ == "Add the minor version number."@,
    {
        ParseError::build(
            "expected_minor_version_number",
            Level::Fatal,
            "Expected the minor version number.",
            "Semantic versions consist of three version numbers separated by dots.",
            vec!["Add the minor version number."],
            span,
        )
    }

    pub fn expected_patch_version_number(span: Span) -> (r: Self)
        ensures
            r@ == error_view("expected_patch_version_number", Level::Fatal, span),
            r.summary@ == "Expected the patch version number."@,
            r.description@ == "Semantic versions consist of three version numbers separated by dots."@,
            r.suggestions@.len() == 1,
            r.suggestions@[0]@ == "Add the patch version number."@,
    {
        ParseError::build(
            "expected_patch_version_number",
            Level::Fatal,
            "Expected the patch version number.",
            "Semantic versions consist of three version numbers separated by dots.",
            vec!["Add the patch version number."],
            span,
        )
    }

    pub fn expected_dot(span: Span) -> (r: Self)
        ensures
            r@ == error_view("expected_dot", Level::Fatal, span),
            r.summary@ == "Expected a dot."@,
            r.description@ == "The numbers of a semantic version are separated by dots."@,
            r.suggestions@.len() == 1,
            r.suggestions@[0]@ == "Add a '.'."@,
    {
        ParseError::build(
            "expected_dot",
            Level::Fatal,
            "Expected a dot.",
            "The numbers of a semantic version are separated by dots.",
            vec!["Add a '.'."],
            span,
        )
    }

    pub fn expected_struct_name(span: Span) -> (r: Self)
        ensures
            r@ == error_view("expected_struct_name", Level::Fatal, span),
            r.summary@ == "Expected the name of the struct."@,
            r.description@ == "After 'struct', the name of the struct follows."@,
            r.suggestions@.len() == 1,
            r.suggestions@[0]@ == "Add a name."@,
    {
        ParseError::build(
            "expected_struct_name",
            Level::Fatal,
            "Expected the name of the struct.",
            "After 'struct', the name of the struct follows.",
            vec!["Add a name."],
            span,
        )
    }

    pub fn expected_opening_brace(span: Span) -> (r: Self)
        ensures
            r@ == error_view("expected_opening_brace", Level::Fatal, span),
            r.summary@ == "Expected an opening brace."@,
            r.description@ == "The body of a struct or enum is enclosed in braces."@,
            r.suggestions@.len() == 1,
            r.suggestions@[0]@ == "Add a '{'."@,
    {
        ParseError::build(
            "expected_opening_brace",
            Level::Fatal,
            "Expected an opening brace.",
            "The body of a struct or enum is enclosed in braces.",
            vec!["Add a '{'."],
            span,
        )
    }

    pub fn expected_closing_brace(span: Span) -> (r: Self)
        ensures
            r@ == error_view("expected_closing_brace", Level::Fatal, span),
            r.summary@ == "Expected a closing brace."@,
            r.description@ == "The body of a struct or enum is enclosed in braces, but the file ends before the closing one."@,
            r.suggestions@.len() == 1,
            r.suggestions@[0]@ == "Add a '}'."@,
    {
        ParseError::build(
            "expected_closing_brace",
            Level::Fatal,
            "Expected a closing brace.",
            "The body of a struct or enum is enclosed in braces, but the file ends before the closing one.",
            vec!["Add a '}'."],
            span,
        )
    }

    pub fn expected_colon(span: Span) -> (r: Self)
        ensures
            r@ == error_view("expected_colon", Level::Fatal, span),
            r.summary@ == "Expected a colon."@,
            r.description@ == "A name and its type are separated by a colon, like in 'name: String'."@,
            r.suggestions@.len() == 1,
            r.suggestions@[0]@ == "Add a ':'."@,
    {
        ParseError::build(
            "expected_colon",
            Level::Fatal,
            "Expected a colon.",
            "A name and its type are separated by a colon, like in 'name: String'.",
            vec!["Add a ':'."],
            span,
        )
    }

    pub fn expected_field_type(span: Span) -> (r: Self)
        ensures
            r@ == error_view("expected_field_type", Level::Fatal, span),
            r.summary@ == "Expected the type of the field."@,
            r.description@ == "A struct field has a type after its colon."@,
            r.suggestions@.len() == 1,
            r.suggestions@[0]@ == "Add a type."@,
    {
        ParseError::build(
            "expected_field_type",
            Level::Fatal,
            "Expected the type of the field.",
            "A struct field has a type after its colon.",
            vec!["Add a type."],
            span,
        )
    }

    pub fn expected_field(span: Span) -> (r: Self)
        ensures
            r@ == error_view("expected_field", Level::Fatal, span),
            r.summary@ == "Expected a struct field."@,
            r.description@ == "The body of a struct holds fields like 'name: String'."@,
            r.suggestions@.len() == 1,
            r.suggestions@[0]@ == "Add a field name or close the struct."@,
    {
        ParseError::build(
            "expected_field",
            Level::Fatal,
            "Expected a struct field.",
            "The body of a struct holds fields like 'name: String'.",
            vec!["Add a field name or close the struct."],
            span,
        )
    }

    pub fn expected_enum_name(span: Span) -> (r: Self)
        ensures
            r@ == error_view("expected_enum_name", Level::Fatal, span),
            r.summary@ == "Expected the name of the enum."@,
            r.description@ == "After 'enum', the name of the enum follows."@,
            r.suggestions@.len() == 1,
            r.suggestions@[0]@ == "Add a name."@,
    {
        ParseError::build(
            "expected_enum_name",
            Level::Fatal,
            "Expected the name of the enum.",
            "After 'enum', the name of the enum follows.",
            vec!["Add a name."],
            span,
        )
    }

    pub fn expected_variant(span: Span) -> (r: Self)
        ensures
            r@ == error_view("expected_variant", Level::Fatal, span),
            r.summary@ == "Expected an enum variant."@,
            r.description@ == "The body of an enum holds variants like 'Number -> Int'."@,
            r.suggestions@.len() == 1,
            r.suggestions@[0]@ == "Add a variant name or close the enum."@,
    {
        ParseError::build(
            "expected_variant",
            Level::Fatal,
            "Expected an enum variant.",
            "The body of an enum holds variants like 'Number -> Int'.",
            vec!["Add a variant name or close the enum."],
            span,
        )
    }

    pub fn expected_variant_type(span: Span) -> (r: Self)
        ensures
            r@ == error_view("expected_variant_type", Level::Fatal, span),
            r.summary@ == "Expected the type associated with the variant."@,
            r.description@ == "An arrow after a variant is followed by the type that the variant holds."@,
            r.suggestions@.len() == 1,
            r.suggestions@[0]@ == "Add a type or remove the arrow."@,
    {
        ParseError::build(
            "expected_variant_type",
            Level::Fatal,
            "Expected the type associated with the variant.",
            "An arrow after a variant is followed by the type that the variant holds.",
            vec!["Add a type or remove the arrow."],
            span,
        )
    }

    pub fn expected_alias_name(span: Span) -> (r: Self)
        ensures
            r@ == error_view("expected_alias_name", Level::Fatal, span),
            r.summary@ == "Expected the name of the alias."@,
            r.description@ == "After 'alias', the name of the new type follows."@,
            r.suggestions@.len() == 1,
            r.suggestions@[0]@ == "Add a name."@,
    {
        ParseError::build(
            "expected_alias_name",
            Level::Fatal,
            "Expected the name of the alias.",
            "After 'alias', the name of the new type follows.",
            vec!["Add a name."],
            span,
        )
    }

    pub fn expected_equal_sign(span: Span) -> (r: Self)
        ensures
            r@ == error_view("expected_equal_sign", Level::Fatal, span),
            r.summary@ == "Expected an equal sign."@,
            r.description@ == "Aliases and values are defined with an '=', like in 'alias Id = Int'."@,
            r.suggestions@.len() == 1,
            r.suggestions@[0]@ == "Add a '='."@,
    {
        ParseError::build(
            "expected_equal_sign",
            Level::Fatal,
            "Expected an equal sign.",
            "Aliases and values are defined with an '=', like in 'alias Id = Int'.",
            vec!["Add a '='."],
            span,
        )
    }

    pub fn expected_aliased_type(span: Span) -> (r: Self)
        ensures
            r@ == error_view("expected_aliased_type", Level::Fatal, span),
            r.summary@ == "Expected the aliased type."@,
            r.description@ == "An alias names another type after its equal sign."@,
            r.suggestions@.len() == 1,
            r.suggestions@[0]@ == "Add a type."@,
    {
        ParseError::build(
            "expected_aliased_type",
            Level::Fatal,
            "Expected the aliased type.",
            "An alias names another type after its equal sign.",
            vec!["Add a type."],
            span,
        )
    }

    pub fn expected_value_type(span: Span) -> (r: Self)
        ensures
            r@ == error_view("expected_value_type", Level::Fatal, span),
            r.summary@ == "Expected the type of the value."@,
            r.description@ == "A value has a type after its colon, like in 'val answer: Int = 42'."@,
            r.suggestions@.len() == 1,
            r.suggestions@[0]@ == "Add a type."@,
    {
        ParseError::build(
            "expected_value_type",
            Level::Fatal,
            "Expected the type of the value.",
            "A value has a type after its colon, like in 'val answer: Int = 42'.",
            vec!["Add a type."],
            span,
        )
    }

    pub fn expected_literal(span: Span) -> (r: Self)
        ensures
            r@ == error_view("expected_literal", Level::Fatal, span),
            r.summary@ == "Expected a literal."@,
            r.description@ == "Values and defaults are string, integer or float literals."@,
            r.suggestions@.len() == 1,
            r.suggestions@[0]@ == "Add a literal."@,
    {
        ParseError::build(
            "expected_literal",
            Level::Fatal,
            "Expected a literal.",
            "Values and defaults are string, integer or float literals.",
            vec!["Add a literal."],
            span,
        )
    }

    pub fn expected_type_parameter(span: Span) -> (r: Self)
        ensures
            r@ == error_view("expected_type_parameter", Level::Fatal, span),
            r.summary@ == "Expected the name of a type parameter."@,
            r.description@ == "Type parameters are names between '<' and '>', separated by commas."@,
            r.suggestions@.len() == 1,
            r.suggestions@[0]@ == "Add a name."@,
    {
        ParseError::build(
            "expected_type_parameter",
            Level::Fatal,
            "Expected the name of a type parameter.",
            "Type parameters are names between '<' and '>', separated by commas.",
            vec!["Add a name."],
            span,
        )
    }

    pub fn expected_type_argument(span: Span) -> (r: Self)
        ensures
            r@ == error_view("expected_type_argument", Level::Fatal, span),
            r.summary@ == "Expected a type argument."@,
            r.description@ == "Type arguments are types between '<' and '>', separated by commas."@,
            r.suggestions@.len() == 1,
            r.suggestions@[0]@ == "Add a type."@,
    {
        ParseError::build(
            "expected_type_argument",
            Level::Fatal,
            "Expected a type argument.",
            "Type arguments are types between '<' and '>', separated by commas.",
            vec!["Add a type."],
            span,
        )
    }

    pub fn expected_closing_angle(span: Span) -> (r: Self)
        ensures
            r@ == error_view("expected_closing_angle", Level::Fatal, span),
            r.summary@ == "Expected a closing angle bracket."@,
            r.description@ == "Type parameters and arguments are enclosed in '<' and '>'."@,
            r.suggestions@.len() == 1,
            r.suggestions@[0]@ == "Add a '>'."@,
    {
        ParseError::build(
            "expected_closing_angle",
            Level::Fatal,
            "Expected a closing angle bracket.",
            "Type parameters and arguments are enclosed in '<' and '>'.",
            vec!["Add a '>'."],
            span,
        )
    }

    pub fn multiple_comments(first: &Comment, second: &Comment) -> (r: Self)
        requires
            first.span.start <= second.span.end,
        ensures
            r@ == error_view(
                "multiple_comments",
                Level::Error,
                Span { start: first.span.start, end: second.span.end },
            ),
            r.summary@ == "There are two comments in a row."@,
            r.description@ == "A definition, field or variant is described by one comment; only the later one is kept."@,
            r.suggestions@.len() == 1,
            r.suggestions@[0]@ == "Merge the comments."@,
    {
        ParseError::build(
            "multiple_comments",
            Level::Error,
            "There are two comments in a row.",
            "A definition, field or variant is described by one comment; only the later one is kept.",
            vec!["Merge the comments."],
            Span::new(first.span.start, second.span.end),
        )
    }

    pub fn unknown_annotation(name: &Identifier) -> (r: Self)
        ensures
            r@ == error_view("unknown_annotation", Level::Fatal, name.span),
            r.summary@ == "This annotation doesn't exist."@,
            r.description@ == "The annotations are '@added(version)' and '@deprecated(version, reason)'."@,
            r.suggestions@.len() == 1,
            r.suggestions@[0]@ == "Use '@added' or '@deprecated'."@,
    {
        ParseError::build(
            "unknown_annotation",
            Level::Fatal,
            "This annotation doesn't exist.",
            "The annotations are '@added(version)' and '@deprecated(version, reason)'.",
            vec!["Use '@added' or '@deprecated'."],
            name.span,
        )
    }

    pub fn multiple_added_annotations(first: &AddedAnnotation, second: &AddedAnnotation) -> (r: Self)
        requires
            first.span.start <= second.span.end,
        ensures
            r@ == error_view(
                "multiple_added_annotations",
                Level::Error,
                Span { start: first.span.start, end: second.span.end },
            ),
            r.summary@ == "There are two '@added' annotations."@,
            r.description@ == "Something is added only once; only the later annotation is kept."@,
            r.suggestions@.len() == 1,
            r.suggestions@[0]@ == "Remove one of the annotations."@,
    {
        ParseError::build(
            "multiple_added_annotations",
            Level::Error,
            "There are two '@added' annotations.",
            "Something is added only once; only the later annotation is kept.",
            vec!["Remove one of the annotations."],
            Span::new(first.span.start, second.span.end),
        )
    }

    pub fn multiple_deprecated_annotations(
        first: &DeprecatedAnnotation,
        second: &DeprecatedAnnotation,
    ) -> (r: Self)
        requires
            first.span.start <= second.span.end,
        ensures
            r@ == error_view(
                "multiple_deprecated_annotations",
                Level::Error,
                Span { start: first.span.start, end: second.span.end },
            ),
            r.summary@ == "There are two '@deprecated' annotations."@,
            r.description@ == "Something is deprecated only once; only the later annotation is kept."@,
            r.suggestions@.len() == 1,
            r.suggestions@[0]@ == "Remove one of the annotations."@,
    {
        ParseError::build(
            "multiple_deprecated_annotations",
            Level::Error,
            "There are two '@deprecated' annotations.",
            "Something is deprecated only once; only the later annotation is kept.",
            vec!["Remove one of the annotations."],
            Span::new(first.span.start, second.span.end),
        )
    }

    /// The message names the offending number.
    pub fn version_too_big(version_position: Span, version: &Natural) -> (r: Self)
        ensures
            r@ == error_view("version_too_big", Level::Error, version_position),
            r.summary@ == "The version number is too big."@,
            r.suggestions@.len() == 1,
            r.suggestions@[0]@ == "Use version numbers that fit into 64 bits."@,
            r.description@ == "The major, minor and patch version can each only be a 64-bit \
                unsigned integer. Because "@ + version.text() + " > 18446744073709551615 = 2^64 - 1, \
                this version is invalid."@,
    {
        let mut description = text(
            "The major, minor and patch version can each only be a 64-bit \
                unsigned integer. Because ",
        );
        let digits = version.to_text();
        description.append(digits.as_str());
        description.append(" > 18446744073709551615 = 2^64 - 1, \
                this version is invalid.");
        ParseError {
            id: "version_too_big",
            level: Level::Error,
            summary: "The version number is too big.",
            description,
            suggestions: vec!["Use version numbers that fit into 64 bits."],
            personalized_suggestions: Vec::new(),
            span: version_position,
        }
    }
}

} // verus!
