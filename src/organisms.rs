//! The syntax tree and the recursive-descent parser that builds it from tokens.
//! Every node's children lie within its span, and siblings never overlap.

use crate::atoms::AtomView;
use crate::cursor::CursorParser;
use crate::error::{has_fatal, reported, views, Level, ParseError};
use crate::numbers::decimal_value;
use crate::grammar::{
    added_shape, alias_len, deprecated_len, lone_deprecated, argument_start, arguments_count, too_big_reports, too_big_report, definition_start, definitions_part, digits_of, field_start, fields_count, variant_start, variants_count, arguments_len, definition_len, definitions_shape, deprecated_shape,
    enum_len, field_len, fields_len, file_shape, import_len, imports_count, imports_shape,
    imports_taken, is_comment, is_string, is_word, joined, lemma_definition_len_bound,
    lemma_field_len_bound, lemma_literal_len_bound, lemma_parameters_len_bound,
    lemma_run_len_bound, lemma_type_len_bound, lemma_variant_len_bound, lines, literal_len,
    names_len, package_follows, parameters_len, run_len, struct_len, token_text,
    type_definition_len, type_len, value_len, variant_len, variants_len, version_of,
    version_fits, version_part, version_shape,
};
use crate::numbers::Natural;
use crate::tokens::{bounded, ordered, token_views, Token, TokenKind};
use crate::utils::{Case, Span};
use vstd::prelude::*;

verus! {

/// `s` is a proper range within `[lo, hi]`.
pub open spec fn inside(s: Span, lo: int, hi: int) -> bool {
    lo <= s.start && s.start <= s.end && s.end <= hi
}

/// Neither span reaches into the other.
pub open spec fn apart(a: Span, b: Span) -> bool {
    a.end <= b.start || b.end <= a.start
}

#[derive(Debug, Clone, PartialEq, Eq)]
pub struct Identifier {
    pub name: String,
    pub span: Span,
}

#[derive(Debug, Clone, PartialEq, Eq)]
pub struct Comment {
    pub text: String,
    pub span: Span,
}

#[derive(Debug, Clone, PartialEq, Eq)]
pub struct Version {
    pub major: u64,
    pub minor: u64,
    pub patch: u64,
    pub span: Span,
}

#[derive(Debug, Clone, PartialEq, Eq)]
pub struct StringLiteral {
    pub string: String,
    pub span: Span,
}

#[derive(Debug, Clone, PartialEq, Eq)]
pub struct AddedAnnotation {
    pub version: Version,
    pub span: Span,
}

impl AddedAnnotation {
    pub open spec fn wf(&self) -> bool {
        inside(self.version.span, self.span.start as int, self.span.end as int)
    }
}

#[derive(Debug, Clone, PartialEq, Eq)]
pub struct DeprecatedAnnotation {
    pub version: Version,
    pub reason: StringLiteral,
    pub span: Span,
}

impl DeprecatedAnnotation {
    /// The annotation is the well-formed `@deprecated(...)` that `ts` starts with.
    pub open spec fn spelled_by(&self, ts: Seq<Token>) -> bool {
        let n = run_len(ts.skip(9), |t: Token| is_string(t)) as int;
        &&& (self.version.major, self.version.minor, self.version.patch) == version_of(ts.skip(3))
        &&& self.reason.string@ == joined(ts.skip(9), n)
        &&& self.span == (Span { start: ts[0].span.start, end: ts[9 + n].span.end })
    }

    pub open spec fn wf(&self) -> bool {
        &&& inside(self.version.span, self.span.start as int, self.reason.span.start as int)
        &&& inside(self.reason.span, self.version.span.end as int, self.span.end as int)
    }
}

#[derive(Debug, Clone, PartialEq, Eq)]
pub enum Annotation {
    Added(AddedAnnotation),
    Deprecated(DeprecatedAnnotation),
}

impl Annotation {
    pub open spec fn span(&self) -> Span {
        match self {
            Annotation::Added(a) => a.span,
            Annotation::Deprecated(d) => d.span,
        }
    }

    pub open spec fn wf(&self) -> bool {
        match self {
            Annotation::Added(a) => a.wf(),
            Annotation::Deprecated(d) => d.wf(),
        }
    }
}

/// One number of a version, with where it stands.
struct VersionNumber {
    number: u64,
    span: Span,
}

/// The comment and annotations in front of a definition, a field or a variant.
#[derive(Debug, Clone, PartialEq, Eq)]
pub struct Decorations {
    pub comment: Option<Comment>,
    pub added: Option<AddedAnnotation>,
    pub deprecated: Option<DeprecatedAnnotation>,
}

impl Decorations {
    /// Each part lies within `[lo, hi]`, and no two parts overlap.
    pub open spec fn wf_within(&self, lo: int, hi: int) -> bool {
        &&& (self.comment matches Some(c) ==> inside(c.span, lo, hi))
        &&& (self.added matches Some(a) ==> a.wf() && inside(a.span, lo, hi))
        &&& (self.deprecated matches Some(d) ==> d.wf() && inside(d.span, lo, hi))
        &&& (self.comment matches Some(c) ==> (self.added matches Some(a) ==> apart(c.span, a.span)))
        &&& (self.comment matches Some(c) ==> (self.deprecated matches Some(d) ==> apart(
            c.span,
            d.span,
        )))
        &&& (self.added matches Some(a) ==> (self.deprecated matches Some(d) ==> apart(
            a.span,
            d.span,
        )))
    }

    pub open spec fn empty(&self) -> bool {
        self.comment is None && self.added is None && self.deprecated is None
    }

    pub fn is_empty(&self) -> (r: bool)
        ensures
            r == self.empty(),
    {
        self.comment.is_none() && self.added.is_none() && self.deprecated.is_none()
    }
}

/// The name of a type being defined, with its type parameters.
#[derive(Debug, Clone, PartialEq, Eq)]
pub struct TypeDefinition {
    pub name: Identifier,
    pub generics: Vec<Identifier>,
    pub span: Span,
}

impl TypeDefinition {
    /// The name and type parameters are the ones that the tokens at the front of `ts` spell.
    #[verifier::opaque]
    pub open spec fn spelled_by(&self, ts: Seq<Token>) -> bool {
        &&& ts[0].kind@ == AtomView::Word(self.name.name@)
        &&& self.name.span == ts[0].span
        &&& self.span == (Span {
            start: ts[0].span.start,
            end: ts[type_definition_len(ts)->0 - 1].span.end,
        })
        &&& if ts.len() > 1 && ts[1].kind@ == AtomView::TagOpen {
            &&& self.generics@.len() * 2 == parameters_len(ts.skip(2))->0
            &&& forall|j: int|
                0 <= j < self.generics@.len() ==> ts[2 + 2 * j].kind@ == AtomView::Word(
                    (#[trigger] self.generics@[j]).name@,
                )
        } else {
            self.generics@.len() == 0
        }
    }

    pub open spec fn wf(&self) -> bool {
        &&& inside(self.name.span, self.span.start as int, self.span.end as int)
        &&& forall|i: int|
            0 <= i < self.generics@.len() ==> inside(
                (#[trigger] self.generics@[i]).span,
                self.name.span.end as int,
                self.span.end as int,
            )
        &&& forall|i: int, j: int|
            0 <= i < j < self.generics@.len() ==> (#[trigger] self.generics@[i]).span.end
                <= (#[trigger] self.generics@[j]).span.start
    }
}

/// A reference to a type, with its type arguments.
#[derive(Debug, PartialEq, Eq)]
pub struct Type {
    pub name: Identifier,
    pub generics: Vec<Type>,
    pub span: Span,
}

impl Type {
    /// The type is the one that the tokens at the front of `ts` spell, with the
    /// span from its first to its last token.
    #[verifier::opaque]
    pub open spec fn spelled_by(&self, ts: Seq<Token>) -> bool
        decreases self,
    {
        let n = type_len(ts)->0 as int;
        let args = ts.skip(2);
        &&& ts[0].kind@ == AtomView::Word(self.name.name@)
        &&& self.name.span == ts[0].span
        &&& self.span == (Span { start: ts[0].span.start, end: ts[n - 1].span.end })
        &&& if ts.len() > 1 && ts[1].kind@ == AtomView::TagOpen {
            &&& self.generics@.len() == arguments_count(args)
            &&& forall|j: int|
                0 <= j < self.generics@.len() ==> (#[trigger] self.generics@[j]).spelled_by(
                    args.skip(argument_start(args, j)),
                )
        } else {
            self.generics@.len() == 0
        }
    }

    pub open spec fn wf(&self) -> bool
        decreases self,
    {
        &&& inside(self.name.span, self.span.start as int, self.span.end as int)
        &&& forall|i: int|
            0 <= i < self.generics@.len() ==> (#[trigger] self.generics@[i]).wf() && inside(
                self.generics@[i].span,
                self.name.span.end as int,
                self.span.end as int,
            )
        &&& forall|i: int, j: int|
            0 <= i < j < self.generics@.len() ==> (#[trigger] self.generics@[i]).span.end
                <= (#[trigger] self.generics@[j]).span.start
    }
}

#[derive(Debug, Clone, PartialEq, Eq)]
pub struct IntegerLiteral {
    pub negative: bool,
    pub magnitude: Natural,
    pub span: Span,
}

impl IntegerLiteral {
    pub open spec fn value(&self) -> int {
        if self.negative {
            -(self.magnitude.value() as int)
        } else {
            self.magnitude.value() as int
        }
    }
}

#[derive(Debug, Clone, PartialEq, Eq)]
pub struct FloatLiteral {
    pub negative: bool,
    pub before_dot: Natural,
    pub after_dot: Natural,
    pub span: Span,
}

#[derive(Debug, Clone, PartialEq, Eq)]
pub enum Literal {
    String(StringLiteral),
    Integer(IntegerLiteral),
    Float(FloatLiteral),
}

impl Literal {
    /// The literal is the one that the tokens `ts` spell.
    pub open spec fn spelled_by(&self, ts: Seq<Token>) -> bool {
        &&& literal_len(ts) is Some
        &&& self.span() == (Span {
            start: ts[0].span.start,
            end: ts[literal_len(ts)->0 - 1].span.end,
        })
        &&& self.spelled_kind(ts)
    }

    /// The kind and the value of the literal are the ones that `ts` spells.
    pub open spec fn spelled_kind(&self, ts: Seq<Token>) -> bool {
        match self {
            Literal::String(l) => ts.len() > 0 && ts[0].kind@ is String && l.string@ == joined(
                ts,
                run_len(ts, |t: Token| is_string(t)) as int,
            ),
            Literal::Integer(l) => {
                let o = if l.negative {
                    1int
                } else {
                    0int
                };
                &&& literal_len(ts) == Some((o + 1) as nat)
                &&& l.negative <==> (ts.len() > 0 && ts[0].kind@ == AtomView::Minus)
                &&& ts[o].kind@ == AtomView::Number(l.magnitude.text())
            },
            Literal::Float(f) => {
                let o = if f.negative {
                    1int
                } else {
                    0int
                };
                &&& literal_len(ts) == Some((o + 3) as nat)
                &&& f.negative <==> (ts.len() > 0 && ts[0].kind@ == AtomView::Minus)
                &&& ts[o].kind@ == AtomView::Number(f.before_dot.text())
                &&& ts[o + 1].kind@ == AtomView::Dot
                &&& ts[o + 2].kind@ == AtomView::Number(f.after_dot.text())
            },
        }
    }

    pub open spec fn span(&self) -> Span {
        match self {
            Literal::String(l) => l.span,
            Literal::Integer(l) => l.span,
            Literal::Float(l) => l.span,
        }
    }
}

#[derive(Debug, PartialEq, Eq)]
pub struct Field {
    pub decorations: Decorations,
    pub name: Identifier,
    pub field_type: Type,
    pub default: Option<Literal>,
    pub span: Span,
}

impl Field {
    pub open spec fn wf(&self) -> bool {
        &&& self.decorations.wf_within(self.span.start as int, self.name.span.start as int)
        &&& inside(self.name.span, self.span.start as int, self.span.end as int)
        &&& self.field_type.wf()
        &&& inside(self.field_type.span, self.name.span.end as int, self.span.end as int)
        &&& (self.default matches Some(l) ==> inside(
            l.span(),
            self.field_type.span.end as int,
            self.span.end as int,
        ))
    }
}

impl Field {
    /// The field is the undecorated one that the tokens `ts` spell.
    #[verifier::opaque]
    pub open spec fn spelled_by(&self, ts: Seq<Token>) -> bool {
        let n = type_len(ts.skip(2))->0 as int;
        &&& self.decorations.empty()
        &&& ts[0].kind@ == AtomView::Word(self.name.name@)
        &&& self.name.span == ts[0].span
        &&& self.field_type.spelled_by(ts.skip(2))
        &&& (self.default is Some <==> (2 + n < ts.len() && ts[2 + n].kind@ == AtomView::EqualSign))
        &&& (self.default matches Some(l) ==> l.spelled_by(ts.skip(3 + n)))
        &&& self.span == (Span {
            start: ts[0].span.start,
            end: ts[field_len(ts)->0 - 1].span.end,
        })
    }
}

#[derive(Debug, PartialEq, Eq)]
pub struct Struct {
    pub decorations: Decorations,
    pub name: TypeDefinition,
    pub fields: Vec<Field>,
    pub span: Span,
}

impl Struct {
    /// The struct is the one that the tokens `ts` spell, where no member is decorated.
    pub open spec fn spelled_by(&self, ts: Seq<Token>) -> bool {
        let body = ts.skip(2 + type_definition_len(ts.skip(1))->0 as int);
        &&& ts[1].kind@ == AtomView::Word(self.name.name.name@)
        &&& self.name.spelled_by(ts.skip(1))
        &&& self.span.end == ts[struct_len(ts)->0 - 1].span.end
        &&& self.fields@.len() == fields_count(body)
        &&& forall|j: int|
            0 <= j < self.fields@.len() ==> (#[trigger] self.fields@[j]).spelled_by(
                body.skip(field_start(body, j)),
            )
    }

    pub open spec fn wf(&self) -> bool {
        &&& self.decorations.wf_within(self.span.start as int, self.name.span.start as int)
        &&& self.name.wf()
        &&& inside(self.name.span, self.span.start as int, self.span.end as int)
        &&& forall|i: int|
            0 <= i < self.fields@.len() ==> (#[trigger] self.fields@[i]).wf() && inside(
                self.fields@[i].span,
                self.name.span.end as int,
                self.span.end as int,
            )
        &&& forall|i: int, j: int|
            0 <= i < j < self.fields@.len() ==> (#[trigger] self.fields@[i]).span.end
                <= (#[trigger] self.fields@[j]).span.start
    }
}

#[derive(Debug, PartialEq, Eq)]
pub struct Variant {
    pub decorations: Decorations,
    pub name: Identifier,
    pub associated_type: Option<Type>,
    pub span: Span,
}

impl Variant {
    pub open spec fn wf(&self) -> bool {
        &&& self.decorations.wf_within(self.span.start as int, self.name.span.start as int)
        &&& inside(self.name.span, self.span.start as int, self.span.end as int)
        &&& (self.associated_type matches Some(t) ==> t.wf() && inside(
            t.span,
            self.name.span.end as int,
            self.span.end as int,
        ))
    }
}

impl Variant {
    /// The variant is the undecorated one that the tokens `ts` spell.
    pub open spec fn spelled_by(&self, ts: Seq<Token>) -> bool {
        &&& self.decorations.empty()
        &&& ts[0].kind@ == AtomView::Word(self.name.name@)
        &&& self.name.span == ts[0].span
        &&& (self.associated_type is Some <==> (ts.len() > 1 && ts[1].kind@ == AtomView::Arrow))
        &&& (self.associated_type matches Some(t) ==> t.spelled_by(ts.skip(2)))
        &&& self.span == (Span {
            start: ts[0].span.start,
            end: ts[variant_len(ts)->0 - 1].span.end,
        })
    }
}

#[derive(Debug, PartialEq, Eq)]
pub struct Enum {
    pub decorations: Decorations,
    pub name: Identifier,
    pub variants: Vec<Variant>,
    pub span: Span,
}

impl Enum {
    /// The enum is the one that the tokens `ts` spell, where no variant is decorated.
    pub open spec fn spelled_by(&self, ts: Seq<Token>) -> bool {
        let body = ts.skip(3);
        &&& ts[1].kind@ == AtomView::Word(self.name.name@)
        &&& self.name.span == ts[1].span
        &&& self.span == (Span { start: ts[0].span.start, end: ts[enum_len(ts)->0 - 1].span.end })
        &&& self.variants@.len() == variants_count(body)
        &&& forall|j: int|
            0 <= j < self.variants@.len() ==> (#[trigger] self.variants@[j]).spelled_by(
                body.skip(variant_start(body, j)),
            )
    }

    pub open spec fn wf(&self) -> bool {
        &&& self.decorations.wf_within(self.span.start as int, self.name.span.start as int)
        &&& inside(self.name.span, self.span.start as int, self.span.end as int)
        &&& forall|i: int|
            0 <= i < self.variants@.len() ==> (#[trigger] self.variants@[i]).wf() && inside(
                self.variants@[i].span,
                self.name.span.end as int,
                self.span.end as int,
            )
        &&& forall|i: int, j: int|
            0 <= i < j < self.variants@.len() ==> (#[trigger] self.variants@[i]).span.end
                <= (#[trigger] self.variants@[j]).span.start
    }
}

#[derive(Debug, PartialEq, Eq)]
pub struct Alias {
    pub decorations: Decorations,
    pub name: TypeDefinition,
    pub aliased_type: Type,
    pub span: Span,
}

impl Alias {
    /// The alias is the undecorated one that the tokens `ts` spell.
    pub open spec fn spelled_by(&self, ts: Seq<Token>) -> bool {
        let n = type_definition_len(ts.skip(1))->0 as int;
        &&& self.decorations.empty()
        &&& ts[1].kind@ == AtomView::Word(self.name.name.name@)
        &&& self.name.spelled_by(ts.skip(1))
        &&& self.aliased_type.spelled_by(ts.skip(2 + n))
        &&& self.span == (Span { start: ts[0].span.start, end: ts[alias_len(ts)->0 - 1].span.end })
    }

    pub open spec fn wf(&self) -> bool {
        &&& self.decorations.wf_within(self.span.start as int, self.name.span.start as int)
        &&& self.name.wf()
        &&& inside(self.name.span, self.span.start as int, self.span.end as int)
        &&& self.aliased_type.wf()
        &&& inside(self.aliased_type.span, self.name.span.end as int, self.span.end as int)
    }
}

#[derive(Debug, PartialEq, Eq)]
pub struct Value {
    pub decorations: Decorations,
    pub name: Identifier,
    pub value_type: Type,
    pub literal: Literal,
    pub span: Span,
}

impl Value {
    /// The value is the undecorated one that the tokens `ts` spell.
    pub open spec fn spelled_by(&self, ts: Seq<Token>) -> bool {
        let n = type_len(ts.skip(3))->0 as int;
        &&& self.decorations.empty()
        &&& ts[1].kind@ == AtomView::Word(self.name.name@)
        &&& self.name.span == ts[1].span
        &&& self.value_type.spelled_by(ts.skip(3))
        &&& self.literal.spelled_by(ts.skip(4 + n))
        &&& self.span == (Span { start: ts[0].span.start, end: ts[value_len(ts)->0 - 1].span.end })
    }

    pub open spec fn wf(&self) -> bool {
        &&& self.decorations.wf_within(self.span.start as int, self.name.span.start as int)
        &&& inside(self.name.span, self.span.start as int, self.span.end as int)
        &&& self.value_type.wf()
        &&& inside(self.value_type.span, self.name.span.end as int, self.span.end as int)
        &&& inside(self.literal.span(), self.value_type.span.end as int, self.span.end as int)
    }
}

#[derive(Debug, PartialEq, Eq)]
pub enum Definition {
    Struct(Struct),
    Enum(Enum),
    Alias(Alias),
    Value(Value),
}

impl Definition {
    /// The definition is the undecorated one that the tokens `ts` spell.
    #[verifier::opaque]
    pub open spec fn spelled_by(&self, ts: Seq<Token>) -> bool {
        match self {
            Definition::Struct(d) => {
                let m = deprecated_len(ts);
                &&& d.span.start == ts[0].span.start
                &&& if struct_len(ts) is Some {
                    d.decorations.empty() && d.spelled_by(ts)
                } else {
                    &&& lone_deprecated(ts) && struct_len(ts.skip(m)) is Some
                    &&& d.spelled_by(ts.skip(m))
                    &&& d.decorations.comment is None && d.decorations.added is None
                    &&& d.decorations.deprecated matches Some(x) && x.spelled_by(ts)
                }
            },
            Definition::Enum(d) => enum_len(ts) is Some && d.decorations.empty() && d.spelled_by(ts),
            Definition::Alias(d) => alias_len(ts) is Some && d.spelled_by(ts),
            Definition::Value(d) => value_len(ts) is Some && d.spelled_by(ts),
        }
    }

    pub open spec fn span(&self) -> Span {
        match self {
            Definition::Struct(d) => d.span,
            Definition::Enum(d) => d.span,
            Definition::Alias(d) => d.span,
            Definition::Value(d) => d.span,
        }
    }

    #[verifier::opaque]
    pub open spec fn wf(&self) -> bool {
        match self {
            Definition::Struct(d) => d.wf(),
            Definition::Enum(d) => d.wf(),
            Definition::Alias(d) => d.wf(),
            Definition::Value(d) => d.wf(),
        }
    }
}

#[derive(Debug, Clone, PartialEq, Eq)]
pub struct Import {
    pub source: Identifier,
    pub imports: Vec<Identifier>,
    pub span: Span,
}

impl Import {
    pub open spec fn wf(&self) -> bool {
        &&& inside(self.source.span, self.span.start as int, self.span.end as int)
        &&& forall|i: int|
            0 <= i < self.imports@.len() ==> inside(
                (#[trigger] self.imports@[i]).span,
                self.source.span.end as int,
                self.span.end as int,
            )
        &&& forall|i: int, j: int|
            0 <= i < j < self.imports@.len() ==> (#[trigger] self.imports@[i]).span.end
                <= (#[trigger] self.imports@[j]).span.start
    }
}

/// A parsed tape file.
#[derive(Debug, PartialEq, Eq)]
pub struct TapeFile {
    pub comment: Option<Comment>,
    pub package_name: Identifier,
    pub imports: Vec<Import>,
    pub definitions: Vec<Definition>,
}

impl TapeFile {
    /// Every node's children lie within its span, and siblings do not overlap.
    pub open spec fn wf(&self) -> bool {
        &&& (self.comment matches Some(c) ==> inside(c.span, 0, self.package_name.span.start as int))
        &&& self.package_name.span.start <= self.package_name.span.end
        &&& forall|i: int|
            0 <= i < self.imports@.len() ==> (#[trigger] self.imports@[i]).wf()
                && self.package_name.span.end <= self.imports@[i].span.start
        &&& forall|i: int, j: int|
            0 <= i < j < self.imports@.len() ==> (#[trigger] self.imports@[i]).span.end
                <= (#[trigger] self.imports@[j]).span.start
        &&& forall|i: int|
            0 <= i < self.definitions@.len() ==> (#[trigger] self.definitions@[i]).wf()
                && self.package_name.span.end <= self.definitions@[i].span().start
        &&& forall|i: int, j: int|
            0 <= i < self.imports@.len() && 0 <= j < self.definitions@.len() ==> (
            #[trigger] self.imports@[i]).span.end <= (#[trigger] self.definitions@[j]).span().start
        &&& forall|i: int, j: int|
            0 <= i < j < self.definitions@.len() ==> (#[trigger] self.definitions@[i]).span().end
                <= (#[trigger] self.definitions@[j]).span().start
    }
}

impl TapeFile {
    /// No span reaches past `hi`.
    pub open spec fn ends_by(&self, hi: int) -> bool {
        &&& (self.comment matches Some(c) ==> c.span.end <= hi)
        &&& self.package_name.span.end <= hi
        &&& forall|i: int| 0 <= i < self.imports@.len() ==> (#[trigger] self.imports@[i]).span.end <= hi
        &&& forall|i: int|
            0 <= i < self.definitions@.len() ==> (#[trigger] self.definitions@[i]).span().end <= hi
    }
}

/// Words that open a construct where they stand first.
#[derive(Clone, Copy, Debug, PartialEq, Eq, Structural)]
pub enum Keyword {
    Package,
    From,
    Use,
    Struct,
    Enum,
    Alias,
    Val,
}

impl Keyword {
    pub open spec fn spelling(self) -> Seq<char> {
        match self {
            Keyword::Package => "package"@,
            Keyword::From => "from"@,
            Keyword::Use => "use"@,
            Keyword::Struct => "struct"@,
            Keyword::Enum => "enum"@,
            Keyword::Alias => "alias"@,
            Keyword::Val => "val"@,
        }
    }

    pub fn text(&self) -> (r: &'static str)
        ensures
            r@ == self.spelling(),
    {
        match self {
            Keyword::Package => "package",
            Keyword::From => "from",
            Keyword::Use => "use",
            Keyword::Struct => "struct",
            Keyword::Enum => "enum",
            Keyword::Alias => "alias",
            Keyword::Val => "val",
        }
    }
}

/// Whether the kinds are the same, for kinds that carry no data.
fn same_kind(a: &TokenKind, b: &TokenKind) -> (r: bool)
    requires
        !(b is Number || b is String || b is Comment || b is Word),
    ensures
        r == (a@ == b@),
{
    match (a, b) {
        (TokenKind::BraceOpen, TokenKind::BraceOpen) => true,
        (TokenKind::BraceClose, TokenKind::BraceClose) => true,
        (TokenKind::TagOpen, TokenKind::TagOpen) => true,
        (TokenKind::TagClose, TokenKind::TagClose) => true,
        (TokenKind::ParenOpen, TokenKind::ParenOpen) => true,
        (TokenKind::ParenClose, TokenKind::ParenClose) => true,
        (TokenKind::BracketOpen, TokenKind::BracketOpen) => true,
        (TokenKind::BracketClose, TokenKind::BracketClose) => true,
        (TokenKind::Colon, TokenKind::Colon) => true,
        (TokenKind::EqualSign, TokenKind::EqualSign) => true,
        (TokenKind::Dot, TokenKind::Dot) => true,
        (TokenKind::Comma, TokenKind::Comma) => true,
        (TokenKind::At, TokenKind::At) => true,
        (TokenKind::Arrow, TokenKind::Arrow) => true,
        (TokenKind::Plus, TokenKind::Plus) => true,
        (TokenKind::Minus, TokenKind::Minus) => true,
        _ => false,
    }
}

/// The syntax stage: reads tokens by recursive descent and builds the tree.
pub struct Parser {
    tokens: CursorParser<Token>,
    /// Where the last consumed token ends.
    last_end: usize,
    /// Where the last of all tokens ends.
    limit: usize,
}

/// `b` came from `a` by consuming tokens from the front.
pub open spec fn progressed(a: Parser, b: Parser) -> bool {
    &&& b.wf()
    &&& b.limit() == a.limit()
    &&& b.remaining().len() <= a.remaining().len()
    &&& a.last_end() <= b.last_end()
    &&& a.floor() <= b.floor()
    &&& b.last_end() <= b.floor()
    &&& (b.remaining().len() < a.remaining().len() ==> a.floor() <= b.last_end())
}

impl Parser {
    pub closed spec fn remaining(&self) -> Seq<Token> {
        self.tokens.remaining()
    }

    pub closed spec fn diagnostics(&self) -> Seq<ParseError> {
        self.tokens.diagnostics()
    }

    pub closed spec fn last_end(&self) -> int {
        self.last_end as int
    }

    /// Where the last of all tokens ends: no span reaches past it.
    pub closed spec fn limit(&self) -> int {
        self.limit as int
    }

    /// Where the next token starts; at the end, where the last one ended.
    pub open spec fn floor(&self) -> int {
        if self.remaining().len() > 0 {
            self.remaining()[0].span.start as int
        } else {
            self.last_end()
        }
    }

    pub closed spec fn wf(&self) -> bool {
        &&& self.tokens.wf()
        &&& ordered(token_views(self.tokens.remaining()))
        &&& bounded(token_views(self.tokens.remaining()), 0, self.limit as int)
        &&& self.last_end <= self.limit
        &&& (self.tokens.remaining().len() > 0 ==> self.last_end
            <= self.tokens.remaining()[0].span.start)
    }

    /// The parser over `tokens`, which must come in order.
    pub fn from_tokens(tokens: Vec<Token>) -> (r: Parser)
        requires
            ordered(token_views(tokens@)),
        ensures
            r.wf(),
            r.remaining() == tokens@,
            r.last_end() == 0,
            r.diagnostics().len() == 0,
            bounded(token_views(tokens@), 0, r.limit()),
            tokens@.len() == 0 ==> r.limit() == 0,
            tokens@.len() > 0 ==> r.limit() == tokens@.last().span.end,
    {
        let limit = if tokens.len() == 0 {
            0
        } else {
            tokens[tokens.len() - 1].span.end
        };
        proof {
            let tv = token_views(tokens@);
            assert forall|i: int| 0 <= i < tv.len() implies 0 <= (#[trigger] tv[i]).1.start
                && tv[i].1.end <= limit by {
                assert(tv[i] == tokens@[i]@);
                assert(tv[tv.len() - 1] == tokens@[tokens@.len() - 1]@);
                if i < tv.len() - 1 {
                    assert(tv[i].1.end <= tv[tv.len() - 1].1.start);
                }
            }
        }
        Parser { tokens: CursorParser::from(tokens, Vec::new()), last_end: 0, limit }
    }

    pub fn is_done(&self) -> (r: bool)
        requires
            self.wf(),
        ensures
            r == (self.remaining().len() == 0),
    {
        self.tokens.is_done()
    }

    pub fn register(&mut self, error: ParseError)
        requires
            old(self).wf(),
        ensures
            progressed(*old(self), *final(self)),
            final(self).remaining() == old(self).remaining(),
            final(self).last_end() == old(self).last_end(),
            final(self).diagnostics() == old(self).diagnostics().push(error),
    {
        self.tokens.register(error);
    }

    /// Hands the diagnostics over, leaving none behind.
    pub fn take_errors(&mut self) -> (r: Vec<ParseError>)
        requires
            old(self).wf(),
        ensures
            progressed(*old(self), *final(self)),
            r@ == old(self).diagnostics(),
    {
        self.tokens.take_errors()
    }

    pub fn peek(&self) -> (r: Option<&Token>)
        ensures
            r is Some <==> self.remaining().len() > 0,
            r is Some ==> *r->0 == self.remaining()[0],
    {
        self.tokens.peek()
    }

    pub fn peek_n(&self, k: usize) -> (r: Option<&Token>)
        ensures
            r is Some <==> k < self.remaining().len(),
            r is Some ==> *r->0 == self.remaining()[k as int],
    {
        self.tokens.peek_n(k)
    }

    pub fn floor_offset(&self) -> (r: usize)
        requires
            self.wf(),
        ensures
            r == self.floor(),
    {
        match self.peek() {
            Some(t) => t.span.start,
            None => self.last_end,
        }
    }

    /// The span to blame for something missing here.
    pub fn here(&self) -> (r: Span)
        requires
            self.wf(),
        ensures
            self.remaining().len() > 0 ==> r == self.remaining()[0].span,
            self.remaining().len() == 0 ==> r == (Span { start: self.last_end() as usize, end: self.last_end() as usize }),
    {
        match self.peek() {
            Some(t) => t.span,
            None => Span::new(self.last_end, self.last_end),
        }
    }

    /// Consumes the next token and returns it.
    pub fn advance(&mut self) -> (r: Option<Token>)
        requires
            old(self).wf(),
        ensures
            progressed(*old(self), *final(self)),
            final(self).diagnostics() == old(self).diagnostics(),
            old(self).remaining().len() > 0 ==> {
                &&& r == Some(old(self).remaining()[0])
                &&& final(self).remaining() == old(self).remaining().drop_first()
                &&& final(self).last_end() == old(self).remaining()[0].span.end
            },
            old(self).remaining().len() == 0 ==> {
                &&& r is None
                &&& final(self).remaining() == old(self).remaining()
                &&& final(self).last_end() == old(self).last_end()
            },
    {
        let ghost rem = self.remaining();
        let r = self.tokens.advance();
        match &r {
            Some(t) => {
                proof {
                    let tv = token_views(rem);
                    assert(tv[0] == rem[0]@);
                    assert(token_views(self.tokens.remaining()) =~= tv.drop_first());
                    assert(bounded(token_views(self.tokens.remaining()), 0, self.limit as int)) by {
                        assert forall|i: int|
                            0 <= i < tv.drop_first().len() implies 0 <= (
                            #[trigger] tv.drop_first()[i]).1.start && tv.drop_first()[i].1.end
                            <= self.limit by {
                            assert(tv.drop_first()[i] == tv[i + 1]);
                        }
                    }
                    if rem.len() > 1 {
                        assert(tv[1] == rem[1]@);
                    }
                }
                self.last_end = t.span.end;
            },
            None => {},
        }
        r
    }

    /// Consumes the next token where its kind is `kind`, a kind that carries no data.
    pub fn expect(&mut self, kind: TokenKind) -> (r: Option<Token>)
        requires
            old(self).wf(),
            !(kind is Number || kind is String || kind is Comment || kind is Word),
        ensures
            progressed(*old(self), *final(self)),
            final(self).diagnostics() == old(self).diagnostics(),
            r is Some <==> (old(self).remaining().len() > 0 && old(self).remaining()[0].kind@
                == kind@),
            r is Some ==> {
                &&& r->0 == old(self).remaining()[0]
                &&& final(self).remaining() == old(self).remaining().drop_first()
                &&& final(self).last_end() == r->0.span.end
            },
            r is None ==> final(self).remaining() == old(self).remaining() && final(self).last_end()
                == old(self).last_end(),
    {
        let matches = match self.peek() {
            Some(t) => same_kind(&t.kind, &kind),
            None => false,
        };
        if matches {
            self.advance()
        } else {
            None
        }
    }

    /// Consumes the next token where it is the word `keyword`.
    pub fn expect_keyword(&mut self, keyword: Keyword) -> (r: Option<Token>)
        requires
            old(self).wf(),
        ensures
            progressed(*old(self), *final(self)),
            final(self).diagnostics() == old(self).diagnostics(),
            r is Some <==> (old(self).remaining().len() > 0 && is_word(
                old(self).remaining()[0],
                keyword.spelling(),
            )),
            r is Some ==> {
                &&& r->0 == old(self).remaining()[0]
                &&& final(self).remaining() == old(self).remaining().drop_first()
                &&& final(self).last_end() == r->0.span.end
            },
            r is None ==> final(self).remaining() == old(self).remaining() && final(self).last_end()
                == old(self).last_end(),
    {
        let text = keyword.text().to_string();
        let matches = match self.peek() {
            Some(t) => match &t.kind {
                TokenKind::Word(w) => *w == text,
                _ => false,
            },
            None => false,
        };
        if matches {
            self.advance()
        } else {
            None
        }
    }

    /// Whether the next token is the word `keyword`.
    pub fn at_keyword(&self, keyword: Keyword) -> (r: bool)
        ensures
            r == (self.remaining().len() > 0 && is_word(self.remaining()[0], keyword.spelling())),
    {
        let text = keyword.text().to_string();
        match self.peek() {
            Some(t) => match &t.kind {
                TokenKind::Word(w) => *w == text,
                _ => false,
            },
            None => false,
        }
    }

    /// Reads an identifier: a word, whatever it spells.
    pub fn parse_identifier(&mut self, case: Option<Case>) -> (r: Option<Identifier>)
        requires
            old(self).wf(),
        ensures
            progressed(*old(self), *final(self)),
            final(self).diagnostics() == old(self).diagnostics(),
            r is Some <==> (old(self).remaining().len() > 0 && old(self).remaining()[0].kind is Word),
            r is Some ==> {
                &&& old(self).remaining()[0].kind@ == AtomView::Word(r->0.name@)
                &&& r->0.span == old(self).remaining()[0].span
                &&& final(self).last_end() == r->0.span.end
                &&& final(self).remaining() == old(self).remaining().drop_first()
                &&& inside(r->0.span, old(self).floor(), final(self).last_end())
            },
            r is None ==> final(self).remaining() == old(self).remaining() && final(self).last_end()
                == old(self).last_end(),
    {
        let is_word = match self.peek() {
            Some(t) => matches!(t.kind, TokenKind::Word(_)),
            None => false,
        };
        if !is_word {
            return None;
        }
        let ghost rem = self.remaining();
        proof {
            assert(token_views(rem)[0] == rem[0]@);
        }
        let token = self.advance().unwrap();
        match token.kind {
            TokenKind::Word(name) => Some(Identifier { name, span: token.span }),
            _ => None,
        }
    }

    pub fn next_is_comment(&self) -> (r: bool)
        ensures
            r == (self.remaining().len() > 0 && is_comment(self.remaining()[0])),
    {
        match self.peek() {
            Some(t) => matches!(t.kind, TokenKind::Comment(_)),
            None => false,
        }
    }

    pub fn next_is_string(&self) -> (r: bool)
        ensures
            r == (self.remaining().len() > 0 && self.remaining()[0].kind is String),
    {
        match self.peek() {
            Some(t) => matches!(t.kind, TokenKind::String(_)),
            None => false,
        }
    }

    /// Reads a comment: one or more comment tokens in a row, one line each.
    fn parse_comment(&mut self) -> (r: Option<Comment>)
        requires
            old(self).wf(),
        ensures
            ({
                let n = run_len(old(self).remaining(), |t: Token| is_comment(t)) as int;
                &&& progressed(*old(self), *final(self))
                &&& final(self).diagnostics() == old(self).diagnostics()
                &&& final(self).remaining() == old(self).remaining().skip(n)
                &&& r is Some <==> n > 0
                &&& r is Some ==> r->0.text@ == lines(old(self).remaining(), n)
                &&& r is Some ==> inside(r->0.span, old(self).floor(), final(self).last_end())
                    && final(self).remaining().len() < old(self).remaining().len()
            }),
    {
        let ghost all = self.remaining();
        if !self.next_is_comment() {
            assert(all.skip(0) =~= all);
            return None;
        }
        let start = self.floor_offset();
        let mut text = String::new();
        let token = self.advance().unwrap();
        if let TokenKind::Comment(line) = token.kind {
            text.append(line.as_str());
        }
        let ghost mut k: int = 1;
        proof {
            assert(token_views(all)[0] == all[0]@);
            assert(all.skip(1) =~= all.drop_first());
            assert(lines(all, 1) == token_text(all[0]));
        }
        while self.next_is_comment()
            invariant
                progressed(*old(self), *self),
                self.diagnostics() == old(self).diagnostics(),
                all == old(self).remaining(),
                start == old(self).floor(),
                start <= self.last_end(),
                self.remaining().len() < old(self).remaining().len(),
                1 <= k <= all.len(),
                self.remaining() == all.skip(k),
                run_len(all, |t: Token| is_comment(t)) == k + run_len(self.remaining(), |t: Token| is_comment(t)),
                text@ == lines(all, k),
            decreases self.remaining().len(),
        {
            let ghost rest = self.remaining();
            let token = self.advance().unwrap();
            if let TokenKind::Comment(line) = token.kind {
                crate::utils::push_char(&mut text, '\n');
                text.append(line.as_str());
            }
            proof {
                assert(is_comment(rest[0]));
                assert(rest[0] == all[k]);
                assert(all.skip(k).drop_first() =~= all.skip(k + 1));
                assert(run_len(rest, |t: Token| is_comment(t)) == 1 + run_len(rest.drop_first(), |t: Token| is_comment(t)));
                k = k + 1;
            }
        }
        Some(Comment { text, span: Span::new(start, self.last_end) })
    }

    /// Reads a string literal: one or more string tokens in a row, joined.
    fn parse_string(&mut self) -> (r: Option<StringLiteral>)
        requires
            old(self).wf(),
        ensures
            ({
                let n = run_len(old(self).remaining(), |t: Token| is_string(t)) as int;
                &&& progressed(*old(self), *final(self))
                &&& final(self).diagnostics() == old(self).diagnostics()
                &&& final(self).remaining() == old(self).remaining().skip(n)
                &&& r is Some <==> n > 0
                &&& r is Some ==> r->0.string@ == joined(old(self).remaining(), n)
                &&& r is Some ==> r->0.span == (Span {
                    start: old(self).remaining()[0].span.start,
                    end: old(self).remaining()[n - 1].span.end,
                })
                &&& r is Some ==> final(self).last_end() == r->0.span.end
                &&& r is Some ==> inside(r->0.span, old(self).floor(), final(self).last_end())
                    && final(self).remaining().len() < old(self).remaining().len()
            }),
    {
        let ghost all = self.remaining();
        if !self.next_is_string() {
            assert(all.skip(0) =~= all);
            return None;
        }
        let start = self.floor_offset();
        let mut string = String::new();
        let token = self.advance().unwrap();
        if let TokenKind::String(part) = token.kind {
            string.append(part.as_str());
        }
        let ghost mut k: int = 1;
        proof {
            assert(token_views(all)[0] == all[0]@);
            assert(all.skip(1) =~= all.drop_first());
            assert(joined(all, 0) == Seq::<char>::empty());
            assert(string@ =~= joined(all, 1));
        }
        while self.next_is_string()
            invariant
                progressed(*old(self), *self),
                self.diagnostics() == old(self).diagnostics(),
                all == old(self).remaining(),
                start == old(self).floor(),
                start <= self.last_end(),
                self.remaining().len() < old(self).remaining().len(),
                1 <= k <= all.len(),
                self.remaining() == all.skip(k),
                run_len(all, |t: Token| is_string(t)) == k + run_len(self.remaining(), |t: Token| is_string(t)),
                string@ == joined(all, k),
                self.last_end() == all[k - 1].span.end,
            decreases self.remaining().len(),
        {
            let ghost rest = self.remaining();
            let token = self.advance().unwrap();
            if let TokenKind::String(part) = token.kind {
                string.append(part.as_str());
            }
            proof {
                assert(is_string(rest[0]));
                assert(rest[0] == all[k]);
                assert(all.skip(k).drop_first() =~= all.skip(k + 1));
                assert(run_len(rest, |t: Token| is_string(t)) == 1 + run_len(rest.drop_first(), |t: Token| is_string(t)));
                k = k + 1;
            }
        }
        Some(StringLiteral { string, span: Span::new(start, self.last_end) })
    }

    /// Reads one number of a version; one too big for 64 bits is reported and read as zero.
    fn parse_version_number(&mut self) -> (r: Option<VersionNumber>)
        requires
            old(self).wf(),
        ensures
            progressed(*old(self), *final(self)),
            r is Some <==> (old(self).remaining().len() > 0 && old(self).remaining()[0].kind is Number),
            r is Some ==> {
                &&& old(self).remaining()[0].kind@ matches AtomView::Number(d) && r->0.number
                    == version_part(d)
                &&& r->0.span == old(self).remaining()[0].span
                &&& final(self).last_end() == r->0.span.end
                &&& final(self).remaining() == old(self).remaining().drop_first()
                &&& final(self).last_end() == r->0.span.end
            },
            r is None ==> final(self).remaining() == old(self).remaining() && final(self).diagnostics()
                == old(self).diagnostics(),
            r is Some ==> (decimal_value(digits_of(old(self).remaining()[0])) <= u64::MAX
                ==> final(self).diagnostics() == old(self).diagnostics()),
            r is Some ==> views(final(self).diagnostics()) == views(old(self).diagnostics())
                + too_big_report(old(self).remaining()[0]),
            r is Some ==> (decimal_value(digits_of(old(self).remaining()[0])) > u64::MAX ==> reported(
                old(self).diagnostics(),
                final(self).diagnostics(),
                "version_too_big",
                Level::Error,
                r->0.span,
            )),
    {
        let is_number = match self.peek() {
            Some(t) => matches!(t.kind, TokenKind::Number(_)),
            None => false,
        };
        if !is_number {
            return None;
        }
        let token = self.advance().unwrap();
        match token.kind {
            TokenKind::Number(n) => {
                let number = match n.to_u64() {
                    Some(v) => v,
                    None => {
                        let e = ParseError::version_too_big(token.span, &n);
                        let ghost before = self.diagnostics();
                        self.register(e);
                        proof {
                            crate::error::lemma_views_push(before, e);
                        }
                        0
                    },
                };
                Some(VersionNumber { number, span: token.span })
            },
            _ => None,
        }
    }

    /// Reads a version `major.minor.patch`. Where no number comes first, nothing is
    /// consumed or reported.
    #[verifier::rlimit(40)]
    fn parse_version(&mut self) -> (r: Option<Version>)
        requires
            old(self).wf(),
        ensures
            progressed(*old(self), *final(self)),
            r is Some ==> {
                &&& inside(r->0.span, old(self).floor(), final(self).last_end())
                &&& final(self).remaining().len() < old(self).remaining().len()
                &&& old(self).remaining().len() >= 5
                &&& old(self).remaining()[0].kind@ matches AtomView::Number(d) && r->0.major
                    == version_part(d)
                &&& old(self).remaining()[1].kind@ == AtomView::Dot
                &&& old(self).remaining()[2].kind@ matches AtomView::Number(d) && r->0.minor
                    == version_part(d)
                &&& old(self).remaining()[3].kind@ == AtomView::Dot
                &&& old(self).remaining()[4].kind@ matches AtomView::Number(d) && r->0.patch
                    == version_part(d)
            },
            (old(self).remaining().len() == 0 || !(old(self).remaining()[0].kind is Number)) ==> r is None
                && final(self).remaining() == old(self).remaining(),
            r is Some <==> version_shape(old(self).remaining()),
            r is Some ==> r->0.span == (Span {
                start: old(self).remaining()[0].span.start,
                end: old(self).remaining()[4].span.end,
            }),
            version_shape(old(self).remaining()) && version_fits(old(self).remaining())
                ==> final(self).diagnostics() == old(self).diagnostics(),
            version_shape(old(self).remaining()) ==> views(final(self).diagnostics()) == views(
                old(self).diagnostics(),
            ) + too_big_reports(old(self).remaining()),
            r is Some ==> {
                &&& (r->0.major, r->0.minor, r->0.patch) == version_of(old(self).remaining())
                &&& final(self).remaining() == old(self).remaining().skip(5)
            },
    {
        let ghost v0 = views(self.diagnostics());
        let ghost rem = self.remaining();
        let major = match self.parse_version_number() {
            Some(n) => n,
            None => return None,
        };
        proof {
            assert(self.remaining() =~= rem.skip(1));
        }
        if self.expect(TokenKind::Dot).is_none() {
            let here = self.here();
            self.register(ParseError::expected_dot(here));
            return None;
        }
        proof {
            assert(self.remaining() =~= rem.skip(2));
        }
        let minor = match self.parse_version_number() {
            Some(n) => n,
            None => {
                let here = self.here();
                self.register(ParseError::expected_minor_version_number(here));
                return None;
            },
        };
        proof {
            assert(self.remaining() =~= rem.skip(3));
        }
        if self.expect(TokenKind::Dot).is_none() {
            let here = self.here();
            self.register(ParseError::expected_dot(here));
            return None;
        }
        proof {
            assert(self.remaining() =~= rem.skip(4));
        }
        let patch = match self.parse_version_number() {
            Some(n) => n,
            None => {
                let here = self.here();
                self.register(ParseError::expected_patch_version_number(here));
                return None;
            },
        };
        proof {
            assert(self.remaining() =~= rem.skip(5));
            assert(token_views(rem)[0] == rem[0]@);
            assert(rem.skip(2)[0] == rem[2] && rem.skip(4)[0] == rem[4]);
            assert(views(self.diagnostics()) =~= v0 + too_big_reports(rem));
        }
        Some(
            Version {
                major: major.number,
                minor: minor.number,
                patch: patch.number,
                span: Span::new(major.span.start, patch.span.end),
            },
        )
    }

    pub fn next_is(&self, kind: TokenKind) -> (r: bool)
        requires
            !(kind is Number || kind is String || kind is Comment || kind is Word),
        ensures
            r == (self.remaining().len() > 0 && self.remaining()[0].kind@ == kind@),
    {
        match self.peek() {
            Some(t) => same_kind(&t.kind, &kind),
            None => false,
        }
    }

    pub fn next_is_number(&self) -> (r: bool)
        ensures
            r == (self.remaining().len() > 0 && self.remaining()[0].kind is Number),
    {
        match self.peek() {
            Some(t) => matches!(t.kind, TokenKind::Number(_)),
            None => false,
        }
    }

    /// Reads an annotation, `@added(version)` or `@deprecated(version, "reason")`,
    /// whose `@` is next. One that deviates is reported and dropped.
    #[verifier::rlimit(40)]
    fn parse_annotation(&mut self) -> (r: Option<Annotation>)
        requires
            old(self).wf(),
            old(self).remaining().len() > 0,
            old(self).remaining()[0].kind@ == AtomView::At,
        ensures
            progressed(*old(self), *final(self)),
            final(self).remaining().len() < old(self).remaining().len(),
            r is Some ==> r->0.wf() && inside(r->0.span(), old(self).floor(), final(self).last_end()),
            ({
                let ts = old(self).remaining();
                let d0 = old(self).diagnostics();
                let d1 = final(self).diagnostics();
                let n = run_len(ts.skip(9), |t: Token| is_string(t)) as int;
                let named = ts.len() > 1 && (is_word(ts[1], "added"@) || is_word(ts[1], "deprecated"@));
                let opened = named && ts.len() > 2 && ts[2].kind@ == AtomView::ParenOpen;
                let versioned = opened && version_shape(ts.skip(3)) && version_fits(ts.skip(3));
                let comma = versioned && is_word(ts[1], "deprecated"@) && ts.len() > 8 && ts[8].kind@
                    == AtomView::Comma;
                &&& r matches Some(Annotation::Added(a)) ==> a.span == (Span {
                    start: ts[0].span.start,
                    end: ts[8].span.end,
                }) && a.version.span == (Span { start: ts[3].span.start, end: ts[7].span.end })
                &&& r matches Some(Annotation::Deprecated(d)) ==> d.span == (Span {
                    start: ts[0].span.start,
                    end: ts[9 + n].span.end,
                }) && d.version.span == (Span { start: ts[3].span.start, end: ts[7].span.end })
                    && d.reason.span == (Span { start: ts[9].span.start, end: ts[8 + n].span.end })
                &&& (added_shape(ts) || deprecated_shape(ts)) && version_fits(ts.skip(3)) ==> d1 == d0
                &&& !(ts.len() > 1 && ts[1].kind@ is Word) ==> reported(
                    d0,
                    d1,
                    "expected_annotation",
                    Level::Fatal,
                    ts[0].span,
                )
                &&& ts.len() > 1 && ts[1].kind@ is Word && !named ==> reported(
                    d0,
                    d1,
                    "unknown_annotation",
                    Level::Fatal,
                    ts[1].span,
                )
                &&& named && !opened ==> reported(
                    d0,
                    d1,
                    "expected_opening_parenthesis",
                    Level::Fatal,
                    Span { start: ts[0].span.start, end: ts[1].span.end },
                )
                &&& opened && !(ts.len() > 3 && ts[3].kind@ is Number) ==> reported(
                    d0,
                    d1,
                    "expected_version",
                    Level::Fatal,
                    Span { start: ts[0].span.start, end: ts[2].span.end },
                )
                &&& versioned && is_word(ts[1], "added"@) && !(ts.len() > 8 && ts[8].kind@
                    == AtomView::ParenClose) ==> reported(
                    d0,
                    d1,
                    "expected_closing_parenthesis",
                    Level::Fatal,
                    Span { start: ts[0].span.start, end: ts[7].span.end },
                )
                &&& versioned && is_word(ts[1], "deprecated"@) && !comma ==> reported(
                    d0,
                    d1,
                    "expected_comma",
                    Level::Fatal,
                    Span { start: ts[0].span.start, end: ts[7].span.end },
                )
                &&& comma && n == 0 ==> reported(
                    d0,
                    d1,
                    "expected_deprecation_reason",
                    Level::Fatal,
                    Span { start: ts[0].span.start, end: ts[8].span.end },
                )
                &&& comma && n > 0 && !(ts.len() > 9 + n && ts[9 + n].kind@ == AtomView::ParenClose)
                    ==> reported(
                    d0,
                    d1,
                    "expected_closing_parenthesis",
                    Level::Fatal,
                    Span { start: ts[0].span.start, end: ts[8 + n].span.end },
                )
            }),
            (r matches Some(Annotation::Added(_))) <==> added_shape(old(self).remaining()),
            r matches Some(Annotation::Added(a)) ==> {
                &&& (a.version.major, a.version.minor, a.version.patch) == version_of(
                    old(self).remaining().skip(3),
                )
                &&& final(self).remaining() == old(self).remaining().skip(9)
            },
            (r matches Some(Annotation::Deprecated(_))) <==> deprecated_shape(old(self).remaining()),
            r matches Some(Annotation::Deprecated(d)) ==> {
                let n = run_len(old(self).remaining().skip(9), |t: Token| is_string(t)) as int;
                &&& (d.version.major, d.version.minor, d.version.patch) == version_of(
                    old(self).remaining().skip(3),
                )
                &&& d.reason.string@ == joined(old(self).remaining().skip(9), n)
                &&& final(self).remaining() == old(self).remaining().skip(10 + n)
            },
    {
        let ghost ts = self.remaining();
        proof {
            reveal_strlit("added");
            reveal_strlit("deprecated");
            assert("added"@.len() != "deprecated"@.len());
        }
        let at = self.advance().unwrap();
        proof {
            assert(self.remaining() =~= ts.skip(1));
        }
        let name = match self.parse_identifier(Some(Case::Dromedar)) {
            Some(name) => name,
            None => {
                let e = ParseError::expected_annotation(at.span);
                let ghost before = self.diagnostics();
                self.register(e);
                proof {
                    crate::error::lemma_views_push(before, e);
                }
                return None;
            },
        };
        proof {
            assert(self.remaining() =~= ts.skip(2));
        }
        let added = name.name == "added".to_string();
        let deprecated = name.name == "deprecated".to_string();
        if !added && !deprecated {
            let e = ParseError::unknown_annotation(&name);
            let ghost before = self.diagnostics();
            self.register(e);
            proof {
                crate::error::lemma_views_push(before, e);
            }
            return None;
        }
        let paren_open = match self.expect(TokenKind::ParenOpen) {
            Some(token) => token,
            None => {
                let e = ParseError::expected_opening_parenthesis(Span::new(at.span.start, name.span.end));
                let ghost before = self.diagnostics();
                self.register(e);
                proof {
                    crate::error::lemma_views_push(before, e);
                }
                return None;
            },
        };
        proof {
            assert(self.remaining() =~= ts.skip(3));
        }
        if !self.next_is_number() {
            let e = ParseError::expected_version(Span::new(at.span.start, paren_open.span.end));
            let ghost before = self.diagnostics();
            self.register(e);
            proof {
                crate::error::lemma_views_push(before, e);
            }
            return None;
        }
        let version = match self.parse_version() {
            Some(version) => version,
            None => return None,
        };
        proof {
            assert(ts.skip(3)[0] == ts[3] && ts.skip(3)[4] == ts[7]);
        }
        proof {
            assert(self.remaining() =~= ts.skip(8));
            assert(ts.skip(3).skip(5) =~= ts.skip(8));
        }
        if added {
            let paren_close = match self.expect(TokenKind::ParenClose) {
                Some(token) => token,
                None => {
                    let e = ParseError::expected_closing_parenthesis(
                            Span::new(at.span.start, version.span.end),
                        );
                    let ghost before = self.diagnostics();
                    self.register(e);
                    proof {
                        crate::error::lemma_views_push(before, e);
                    }
                    return None;
                },
            };
            return Some(
                Annotation::Added(
                    AddedAnnotation {
                        version,
                        span: Span::new(at.span.start, paren_close.span.end),
                    },
                ),
            );
        }
        let comma = match self.expect(TokenKind::Comma) {
            Some(token) => token,
            None => {
                let e = ParseError::expected_comma(Span::new(at.span.start, version.span.end));
                let ghost before = self.diagnostics();
                self.register(e);
                proof {
                    crate::error::lemma_views_push(before, e);
                }
                return None;
            },
        };
        proof {
            assert(self.remaining() =~= ts.skip(9));
        }
        let reason = match self.parse_string() {
            Some(reason) => reason,
            None => {
                let e = ParseError::expected_deprecation_reason(Span::new(at.span.start, comma.span.end));
                let ghost before = self.diagnostics();
                self.register(e);
                proof {
                    crate::error::lemma_views_push(before, e);
                }
                return None;
            },
        };
        proof {
            let n = run_len(ts.skip(9), |t: Token| is_string(t)) as int;
            lemma_run_len_bound(ts.skip(9), |t: Token| is_string(t));
            assert(ts.skip(9)[0] == ts[9] && ts.skip(9)[n - 1] == ts[8 + n]);
            assert(self.remaining() =~= ts.skip(9 + n));
            if self.remaining().len() > 0 {
                assert(self.remaining()[0] == ts[9 + n]);
            }
        }
        let paren_close = match self.expect(TokenKind::ParenClose) {
            Some(token) => token,
            None => {
                let e = ParseError::expected_closing_parenthesis(Span::new(at.span.start, reason.span.end));
                let ghost before = self.diagnostics();
                self.register(e);
                proof {
                    crate::error::lemma_views_push(before, e);
                }
                return None;
            },
        };
        Some(
            Annotation::Deprecated(
                DeprecatedAnnotation {
                    version,
                    reason,
                    span: Span::new(at.span.start, paren_close.span.end),
                },
            ),
        )
    }

    /// Reads the comment and the annotations in front of a definition, a field or
    /// a variant. A second one of a kind is reported, and the later one is kept.
    #[verifier::rlimit(40)]
    fn parse_decorations(&mut self) -> (r: Decorations)
        requires
            old(self).wf(),
        ensures
            lone_deprecated(old(self).remaining()) ==> ({
                let ts = old(self).remaining();
                let n = run_len(ts.skip(9), |t: Token| is_string(t)) as int;
                &&& r.comment is None && r.added is None
                &&& r.deprecated matches Some(d) && d.spelled_by(ts)
                &&& final(self).remaining() == ts.skip(deprecated_len(ts))
                &&& final(self).diagnostics() == old(self).diagnostics()
            }),
            ({
                let ts = old(self).remaining();
                let pair = added_shape(ts) && version_fits(ts.skip(3)) && added_shape(ts.skip(9))
                    && version_fits(ts.skip(12)) && ts.len() > 18 && !is_comment(ts[18])
                    && ts[18].kind@ != AtomView::At;
                pair ==> {
                    &&& r.added matches Some(a) && (a.version.major, a.version.minor, a.version.patch)
                        == version_of(ts.skip(12))
                    &&& r.comment is None && r.deprecated is None
                    &&& final(self).remaining() == ts.skip(18)
                    &&& reported(
                        old(self).diagnostics(),
                        final(self).diagnostics(),
                        "multiple_added_annotations",
                        Level::Error,
                        Span { start: ts[0].span.start, end: ts[17].span.end },
                    )
                }
            }),
            (old(self).remaining().len() == 0 || !(is_comment(old(self).remaining()[0]) || old(
                self,
            ).remaining()[0].kind@ == AtomView::At)) ==> final(self).diagnostics() == old(
                self,
            ).diagnostics(),
            progressed(*old(self), *final(self)),
            r.wf_within(old(self).floor(), final(self).last_end()),
            final(self).remaining().len() == old(self).remaining().len() ==> r.empty()
                && final(self).remaining() == old(self).remaining(),
            final(self).remaining().len() > 0 ==> !is_comment(final(self).remaining()[0])
                && final(self).remaining()[0].kind@ != AtomView::At,
            (old(self).remaining().len() == 0 || !(is_comment(old(self).remaining()[0]) || old(
                self,
            ).remaining()[0].kind@ == AtomView::At)) ==> r.empty() && final(self).remaining()
                == old(self).remaining(),
            old(self).remaining().len() > 0 && is_comment(old(self).remaining()[0]) ==> r.comment is Some,
            added_shape(old(self).remaining()) ==> r.added is Some,
            deprecated_shape(old(self).remaining()) ==> r.deprecated is Some,
    {
        let mut comment: Option<Comment> = None;
        let mut added: Option<AddedAnnotation> = None;
        let mut deprecated: Option<DeprecatedAnnotation> = None;
        let ghost ts = self.remaining();
        let ghost pair = added_shape(ts) && version_fits(ts.skip(3)) && added_shape(ts.skip(9))
            && version_fits(ts.skip(12)) && ts.len() > 18 && !is_comment(ts[18]) && ts[18].kind@
            != AtomView::At;
        let ghost d0 = self.diagnostics();
        while self.next_is_comment() || self.next_is(TokenKind::At)
            invariant
                progressed(*old(self), *self),
                ts == old(self).remaining(),
                d0 == old(self).diagnostics(),
                pair == (added_shape(ts) && version_fits(ts.skip(3)) && added_shape(ts.skip(9))
                    && version_fits(ts.skip(12)) && ts.len() > 18 && !is_comment(ts[18])
                    && ts[18].kind@ != AtomView::At),
                pair ==> self.remaining() == ts || self.remaining() == ts.skip(9)
                    || self.remaining() == ts.skip(18),
                lone_deprecated(ts) ==> self.remaining() == ts || self.remaining() == ts.skip(
                    deprecated_len(ts),
                ),
                lone_deprecated(ts) && self.remaining() == ts ==> added is None && comment is None
                    && deprecated is None && self.diagnostics() == d0,
                lone_deprecated(ts) && self.remaining() == ts.skip(deprecated_len(ts)) ==> ({
                    let n = run_len(ts.skip(9), |t: Token| is_string(t)) as int;
                    &&& comment is None && added is None
                    &&& deprecated matches Some(d) && (d.version.major, d.version.minor, d.version.patch)
                        == version_of(ts.skip(3)) && d.reason.string@ == joined(ts.skip(9), n)
                        && d.span == (Span { start: ts[0].span.start, end: ts[9 + n].span.end })
                    &&& self.diagnostics() == d0
                }),
                pair && self.remaining() == ts ==> added is None && comment is None
                    && deprecated is None && self.diagnostics() == d0,
                pair && self.remaining() == ts.skip(9) ==> comment is None && deprecated is None
                    && self.diagnostics() == d0 && (added matches Some(a) && a.span == (Span {
                    start: ts[0].span.start,
                    end: ts[8].span.end,
                })),
                pair && self.remaining() == ts.skip(18) ==> comment is None && deprecated is None
                    && (added matches Some(a) && (a.version.major, a.version.minor, a.version.patch)
                    == version_of(ts.skip(12))) && reported(
                    d0,
                    self.diagnostics(),
                    "multiple_added_annotations",
                    Level::Error,
                    Span { start: ts[0].span.start, end: ts[17].span.end },
                ),
                (Decorations { comment, added, deprecated }).wf_within(
                    old(self).floor(),
                    self.last_end(),
                ),
                self.remaining().len() == old(self).remaining().len() ==> (Decorations {
                    comment,
                    added,
                    deprecated,
                }).empty() && self.remaining() == old(self).remaining(),
                (old(self).remaining().len() == 0 || !(is_comment(old(self).remaining()[0]) || old(
                    self,
                ).remaining()[0].kind@ == AtomView::At)) ==> self.remaining() == old(
                    self,
                ).remaining() && self.diagnostics() == old(self).diagnostics(),
                self.remaining().len() < old(self).remaining().len() ==> {
                    &&& (old(self).remaining().len() > 0 && is_comment(old(self).remaining()[0])
                        ==> comment is Some)
                    &&& (added_shape(old(self).remaining()) ==> added is Some)
                    &&& (deprecated_shape(old(self).remaining()) ==> deprecated is Some)
                },
            decreases self.remaining().len(),
        {
            let ghost rest = self.remaining();
            proof {
                if lone_deprecated(ts) {
                    lemma_run_len_bound(ts.skip(9), |t: Token| is_string(t));
                    assert(ts.skip(deprecated_len(ts))[0] == ts[deprecated_len(ts)]);
                    assert(ts.skip(deprecated_len(ts)).len() < ts.len());
                }
                if pair {
                    assert(ts.skip(9).skip(9) =~= ts.skip(18));
                    assert(ts.skip(9).skip(3) =~= ts.skip(12));
                    assert(ts.skip(9)[8] == ts[17]);
                    assert(ts.skip(9)[0] == ts[9]);
                    assert(ts.skip(18)[0] == ts[18]);
                }
            }
            if self.next_is_comment() {
                let new_comment = self.parse_comment().unwrap();
                match &comment {
                    Some(c) => self.register(ParseError::multiple_comments(c, &new_comment)),
                    None => {},
                }
                comment = Some(new_comment);
            } else {
                match self.parse_annotation() {
                    Some(Annotation::Added(a)) => {
                        match &added {
                            Some(prev) => {
                                let e = ParseError::multiple_added_annotations(prev, &a);
                                let ghost before = self.diagnostics();
                                self.register(e);
                                proof {
                                    crate::error::lemma_views_push(before, e);
                                }
                            },
                            None => {},
                        }
                        added = Some(a);
                    },
                    Some(Annotation::Deprecated(d)) => {
                        match &deprecated {
                            Some(prev) => self.register(
                                ParseError::multiple_deprecated_annotations(prev, &d),
                            ),
                            None => {},
                        }
                        deprecated = Some(d);
                    },
                    None => {},
                }
            }
        }
        Decorations { comment, added, deprecated }
    }

    /// Reads a type: a name, then type arguments between `<` and `>`, where they follow.
    #[verifier::rlimit(40)]
    fn parse_type(&mut self) -> (r: Option<Type>)
        requires
            old(self).wf(),
        ensures
            type_len(old(self).remaining()) is Some ==> r->0.spelled_by(old(self).remaining())
                && final(self).last_end() == r->0.span.end && r->0.span == (Span {
                start: old(self).remaining()[0].span.start,
                end: old(self).remaining()[type_len(old(self).remaining())->0 - 1].span.end,
            }),
            type_len(old(self).remaining()) is Some ==> final(self).diagnostics() == old(
                self,
            ).diagnostics(),
            progressed(*old(self), *final(self)),
            r is Some ==> r->0.wf() && inside(r->0.span, old(self).floor(), final(self).last_end())
                && final(self).remaining().len() < old(self).remaining().len(),
            r is Some ==> old(self).remaining()[0].kind@ == AtomView::Word(r->0.name.name@),
            (old(self).remaining().len() == 0 || !(old(self).remaining()[0].kind is Word)) ==> r is None
                && final(self).remaining() == old(self).remaining(),
            r is Some <==> type_len(old(self).remaining()) is Some,
            r is Some ==> final(self).remaining() == old(self).remaining().skip(
                type_len(old(self).remaining())->0 as int,
            ),
        decreases old(self).remaining().len(),
    {
        proof {
            reveal(Type::spelled_by);
        }
        let ghost all = self.remaining();
        let name = match self.parse_identifier(None) {
            Some(name) => name,
            None => return None,
        };
        proof {
            assert(self.remaining() =~= all.skip(1));
        }
        let mut generics: Vec<Type> = Vec::new();
        if self.expect(TokenKind::TagOpen).is_some() {
            let mut closed = false;
            let ghost mut used: int = 0;
            proof {
                assert(self.remaining() =~= all.skip(2));
            }
            while !closed
                invariant
                    all == old(self).remaining(),
                    all.len() > 1 && all[0].kind is Word && all[1].kind@ == AtomView::TagOpen,
                    0 <= used,
                    2 + used <= all.len(),
                    self.remaining() == all.skip(2 + used),
                    closed ==> arguments_len(all.skip(2)) == Some(used as nat),
                    type_len(all) is Some ==> self.diagnostics() == old(self).diagnostics(),
                    type_len(all) is Some ==> used == argument_start(all.skip(2), generics@.len() as int),
                    type_len(all) is Some && !closed ==> arguments_count(all.skip(2)) == generics@.len()
                        + arguments_count(self.remaining()),
                    type_len(all) is Some && closed ==> arguments_count(all.skip(2)) == generics@.len()
                        && self.last_end() == all[1 + used].span.end,
                    type_len(all) is Some ==> forall|j: int|
                        0 <= j < generics@.len() ==> (#[trigger] generics@[j]).spelled_by(
                            all.skip(2).skip(argument_start(all.skip(2), j)),
                        ),
                    name.span == all[0].span && all[0].kind@ == AtomView::Word(name.name@),
                    !closed ==> arguments_len(all.skip(2)) == (match arguments_len(self.remaining()) {
                        Some(m) => Some((used + m) as nat),
                        None => None::<nat>,
                    }),
                    progressed(*old(self), *self),
                    self.remaining().len() < old(self).remaining().len(),
                    old(self).remaining().len() > 0 && old(self).remaining()[0].kind is Word,
                    inside(name.span, old(self).floor(), self.last_end()),
                    forall|i: int|
                        0 <= i < generics@.len() ==> (#[trigger] generics@[i]).wf() && inside(
                            generics@[i].span,
                            name.span.end as int,
                            self.last_end(),
                        ),
                    forall|i: int, j: int|
                        0 <= i < j < generics@.len() ==> (#[trigger] generics@[i]).span.end <= (
                        #[trigger] generics@[j]).span.start,
                decreases self.remaining().len(), if closed {
                    0int
                } else {
                    1int
                },
            {
                let ghost rest = self.remaining();
                match self.parse_type() {
                    Some(t) => generics.push(t),
                    None => {
                        let here = self.here();
                        self.register(ParseError::expected_type_argument(here));
                        return None;
                    },
                }
                let ghost n = type_len(rest)->0 as int;
                proof {
                    lemma_type_len_bound(rest);
                    assert(self.remaining() =~= all.skip(2 + used + n));
                    if self.remaining().len() > 0 {
                        assert(self.remaining()[0] == rest[n]);
                    }
                }
                proof {
                    if type_len(all) is Some {
                        assert(rest == all.skip(2).skip(argument_start(all.skip(2), generics@.len() - 1)));
                        assert(argument_start(all.skip(2), generics@.len() as int) == used + n + 1);
                    }
                }
                if self.expect(TokenKind::Comma).is_none() {
                    if self.expect(TokenKind::TagClose).is_some() {
                        closed = true;
                        proof {
                            used = used + n + 1;
                            assert(all[1 + used] == rest[n]);
                        }
                    } else {
                        let here = self.here();
                        self.register(ParseError::expected_closing_angle(here));
                        return None;
                    }
                } else {
                    proof {
                        assert(rest.skip(n + 1) =~= self.remaining());
                        used = used + n + 1;
                    }
                }
                proof {
                    assert(self.remaining() =~= all.skip(2 + used));
                }
            }
            proof {
                assert(all.skip(2 + used) =~= all.skip((arguments_len(all.skip(2))->0 + 2) as int));
            }
        } else {
            proof {
                if all.len() > 1 {
                    assert(all[1] == all.skip(1)[0]);
                }
            }
        }
        let span = Span::new(name.span.start, self.last_end);
        Some(Type { name, generics, span })
    }

    /// Reads the name of a type being defined, with its type parameters.
    #[verifier::rlimit(40)]
    fn parse_type_definition(&mut self) -> (r: Option<TypeDefinition>)
        requires
            old(self).wf(),
        ensures
            type_definition_len(old(self).remaining()) is Some ==> r->0.spelled_by(old(self).remaining())
                && final(self).last_end() == r->0.span.end && r->0.span == (Span {
                start: old(self).remaining()[0].span.start,
                end: old(self).remaining()[type_definition_len(old(self).remaining())->0 - 1].span.end,
            }),
            type_definition_len(old(self).remaining()) is Some ==> final(self).diagnostics() == old(
                self,
            ).diagnostics(),
            progressed(*old(self), *final(self)),
            r is Some ==> r->0.wf() && inside(r->0.span, old(self).floor(), final(self).last_end())
                && final(self).remaining().len() < old(self).remaining().len(),
            r is Some ==> old(self).remaining()[0].kind@ == AtomView::Word(r->0.name.name@),
            (old(self).remaining().len() == 0 || !(old(self).remaining()[0].kind is Word)) ==> r is None
                && final(self).remaining() == old(self).remaining(),
            r is Some <==> type_definition_len(old(self).remaining()) is Some,
            r is Some ==> final(self).remaining() == old(self).remaining().skip(
                type_definition_len(old(self).remaining())->0 as int,
            ),
    {
        proof {
            reveal(TypeDefinition::spelled_by);
        }
        let ghost all = self.remaining();
        let name = match self.parse_identifier(Some(Case::Camel)) {
            Some(name) => name,
            None => return None,
        };
        proof {
            assert(self.remaining() =~= all.skip(1));
        }
        let mut generics: Vec<Identifier> = Vec::new();
        if self.expect(TokenKind::TagOpen).is_some() {
            let mut closed = false;
            let ghost mut used: int = 0;
            proof {
                assert(self.remaining() =~= all.skip(2));
            }
            while !closed
                invariant
                    all == old(self).remaining(),
                    all.len() > 1 && all[0].kind is Word && all[1].kind@ == AtomView::TagOpen,
                    0 <= used,
                    2 + used <= all.len(),
                    self.remaining() == all.skip(2 + used),
                    closed ==> parameters_len(all.skip(2)) == Some(used as nat),
                    type_definition_len(all) is Some ==> self.diagnostics() == old(
                        self,
                    ).diagnostics(),
                    used == 2 * generics@.len(),
                    closed ==> self.last_end() == all[1 + used].span.end,
                    forall|j: int|
                        0 <= j < generics@.len() ==> all[2 + 2 * j].kind@ == AtomView::Word(
                            (#[trigger] generics@[j]).name@,
                        ),
                    name.span == all[0].span && all[0].kind@ == AtomView::Word(name.name@),
                    !closed ==> parameters_len(all.skip(2)) == (match parameters_len(
                        self.remaining(),
                    ) {
                        Some(m) => Some((used + m) as nat),
                        None => None::<nat>,
                    }),
                    progressed(*old(self), *self),
                    self.remaining().len() < old(self).remaining().len(),
                    old(self).remaining().len() > 0 && old(self).remaining()[0].kind is Word,
                    inside(name.span, old(self).floor(), self.last_end()),
                    forall|i: int|
                        0 <= i < generics@.len() ==> inside(
                            (#[trigger] generics@[i]).span,
                            name.span.end as int,
                            self.last_end(),
                        ),
                    forall|i: int, j: int|
                        0 <= i < j < generics@.len() ==> (#[trigger] generics@[i]).span.end <= (
                        #[trigger] generics@[j]).span.start,
                decreases self.remaining().len(), if closed {
                    0int
                } else {
                    1int
                },
            {
                let ghost rest = self.remaining();
                match self.parse_identifier(None) {
                    Some(t) => generics.push(t),
                    None => {
                        let here = self.here();
                        self.register(ParseError::expected_type_parameter(here));
                        return None;
                    },
                }
                proof {
                    assert(self.remaining() =~= all.skip(3 + used));
                    assert(rest[0] == all[2 + used]);
                    if self.remaining().len() > 0 {
                        assert(self.remaining()[0] == rest[1]);
                    }
                }
                if self.expect(TokenKind::Comma).is_none() {
                    if self.expect(TokenKind::TagClose).is_some() {
                        closed = true;
                        proof {
                            used = used + 2;
                        }
                    } else {
                        let here = self.here();
                        self.register(ParseError::expected_closing_angle(here));
                        return None;
                    }
                } else {
                    proof {
                        assert(rest.skip(2) =~= self.remaining());
                        used = used + 2;
                    }
                }
                proof {
                    assert(self.remaining() =~= all.skip(2 + used));
                }
            }
            proof {
                assert(all.skip(2 + used) =~= all.skip(
                    (parameters_len(all.skip(2))->0 + 2) as int,
                ));
            }
        } else {
            proof {
                if all.len() > 1 {
                    assert(all[1] == all.skip(1)[0]);
                }
            }
        }
        let span = Span::new(name.span.start, self.last_end);
        Some(TypeDefinition { name, generics, span })
    }

    /// Reads a literal: a string, or an integer or float with an optional minus.
    #[verifier::rlimit(40)]
    fn parse_literal(&mut self) -> (r: Option<Literal>)
        requires
            old(self).wf(),
        ensures
            r is Some ==> final(self).last_end() == r->0.span().end,
            r is Some ==> r->0.span().start == old(self).floor() && r->0.span().end == final(self).last_end(),
            r is Some ==> r->0.spelled_by(old(self).remaining()),
            literal_len(old(self).remaining()) is Some ==> final(self).diagnostics() == old(
                self,
            ).diagnostics(),
            progressed(*old(self), *final(self)),
            r is Some ==> inside(r->0.span(), old(self).floor(), final(self).last_end())
                && final(self).remaining().len() < old(self).remaining().len(),
            (old(self).remaining().len() == 0 || !(old(self).remaining()[0].kind is String
                || old(self).remaining()[0].kind is Number || old(self).remaining()[0].kind
                is Minus)) ==> r is None && final(self).remaining() == old(self).remaining(),
            old(self).remaining().len() > 0 && old(self).remaining()[0].kind is String ==> (
            r matches Some(Literal::String(l)) && l.string@ == joined(
                old(self).remaining(),
                run_len(old(self).remaining(), |t: Token| is_string(t)) as int,
            )),
            old(self).remaining().len() > 0 && old(self).remaining()[0].kind is Number ==> r is Some,
            r is Some <==> literal_len(old(self).remaining()) is Some,
            r is Some ==> final(self).remaining() == old(self).remaining().skip(
                literal_len(old(self).remaining())->0 as int,
            ),
            old(self).remaining().len() > 1 && old(self).remaining()[0].kind is Minus && old(
                self,
            ).remaining()[1].kind is Number ==> r is Some,
            r matches Some(Literal::Integer(l)) ==> {
                let o = if l.negative {
                    1int
                } else {
                    0int
                };
                &&& l.negative <==> old(self).remaining()[0].kind is Minus
                &&& old(self).remaining()[o].kind@ == AtomView::Number(l.magnitude.text())
            },
            r matches Some(Literal::Float(f)) ==> {
                let o = if f.negative {
                    1int
                } else {
                    0int
                };
                &&& f.negative <==> old(self).remaining()[0].kind is Minus
                &&& old(self).remaining()[o].kind@ == AtomView::Number(f.before_dot.text())
                &&& old(self).remaining()[o + 1].kind@ == AtomView::Dot
                &&& old(self).remaining()[o + 2].kind@ == AtomView::Number(f.after_dot.text())
            },
    {
        let ghost all = self.remaining();
        if self.next_is_string() {
            return match self.parse_string() {
                Some(s) => Some(Literal::String(s)),
                None => None,
            };
        }
        proof {
            if all.len() > 0 && all[0].kind is Minus && all.len() > 1 {
                assert(all.drop_first()[0] == all[1]);
            }
        }
        let start = self.floor_offset();
        let negative = self.next_is(TokenKind::Minus);
        if negative {
            let number_follows = match self.peek_n(1) {
                Some(t) => matches!(t.kind, TokenKind::Number(_)),
                None => false,
            };
            self.advance();
            if !number_follows {
                self.register(ParseError::lonely_minus(start));
                return None;
            }
        }
        if !self.next_is_number() {
            return None;
        }
        let ghost o: int = if negative {
            1
        } else {
            0
        };
        proof {
            if negative {
                assert(self.remaining() == all.drop_first());
            }
            assert(self.remaining()[0] == all[o]);
        }
        let integer_part = match self.advance().unwrap().kind {
            TokenKind::Number(n) => n,
            _ => return None,
        };
        proof {
            assert(self.remaining() =~= all.skip(o + 1));
        }
        proof {
            if self.remaining().len() > 0 {
                assert(self.remaining()[0] == all[o + 1]);
            }
            if self.remaining().len() > 1 {
                assert(self.remaining()[1] == all[o + 2]);
            }
        }
        let fraction_follows = self.next_is(TokenKind::Dot) && match self.peek_n(1) {
            Some(t) => matches!(t.kind, TokenKind::Number(_)),
            None => false,
        };
        if fraction_follows {
            proof {
                assert(self.remaining()[0] == all[o + 1]);
                assert(self.remaining()[1] == all[o + 2]);
            }
            self.advance();
            let fraction = match self.advance().unwrap().kind {
                TokenKind::Number(n) => n,
                _ => return None,
            };
            proof {
                assert(self.remaining() =~= all.skip(o + 3));
            }
            return Some(
                Literal::Float(
                    FloatLiteral {
                        negative,
                        before_dot: integer_part,
                        after_dot: fraction,
                        span: Span::new(start, self.last_end),
                    },
                ),
            );
        }
        Some(
            Literal::Integer(
                IntegerLiteral {
                    negative,
                    magnitude: integer_part,
                    span: Span::new(start, self.last_end),
                },
            ),
        )
    }

    pub fn remaining_len(&self) -> (r: usize)
        ensures
            r == self.remaining().len(),
    {
        self.tokens.remaining_len()
    }

    pub fn next_is_word(&self) -> (r: bool)
        ensures
            r == (self.remaining().len() > 0 && self.remaining()[0].kind is Word),
    {
        match self.peek() {
            Some(t) => matches!(t.kind, TokenKind::Word(_)),
            None => false,
        }
    }

    /// Whether the next token can start an import or a definition.
    pub fn at_item(&self) -> (r: bool)
        ensures
            r == (self.remaining().len() > 0 && (is_word(self.remaining()[0], Keyword::From.spelling())
                || is_word(self.remaining()[0], Keyword::Struct.spelling()) || is_word(
                self.remaining()[0],
                Keyword::Enum.spelling(),
            ) || is_word(self.remaining()[0], Keyword::Alias.spelling()) || is_word(
                self.remaining()[0],
                Keyword::Val.spelling(),
            ) || self.remaining()[0].kind@ == AtomView::At || is_comment(self.remaining()[0]))),
    {
        self.at_keyword(Keyword::From) || self.at_keyword(Keyword::Struct) || self.at_keyword(
            Keyword::Enum,
        ) || self.at_keyword(Keyword::Alias) || self.at_keyword(Keyword::Val) || self.next_is(
            TokenKind::At,
        ) || self.next_is_comment()
    }

    /// Recovers from a broken construct at the top level: skips tokens up to the
    /// next one that can start an import or a definition.
    fn skip_to_item(&mut self)
        requires
            old(self).wf(),
        ensures
            progressed(*old(self), *final(self)),
    {
        while !self.is_done() && !self.at_item()
            invariant
                progressed(*old(self), *self),
            decreases self.remaining().len(),
        {
            self.advance();
        }
    }

    /// Recovers from a broken member of a body: skips tokens through the brace
    /// that closes the body, or to the end.
    fn skip_body(&mut self)
        requires
            old(self).wf(),
        ensures
            progressed(*old(self), *final(self)),
    {
        let mut depth: usize = 1;
        while depth > 0 && !self.is_done()
            invariant
                progressed(*old(self), *self),
            decreases self.remaining().len(),
        {
            let token = self.advance().unwrap();
            match token.kind {
                TokenKind::BraceOpen => {
                    if depth < usize::MAX {
                        depth = depth + 1;
                    }
                },
                TokenKind::BraceClose => {
                    depth = depth - 1;
                },
                _ => {},
            }
        }
    }

    /// Reads a struct field `name: Type`, with an optional `= literal` default.
    #[verifier::rlimit(40)]
    fn parse_field(&mut self, decorations: Decorations, start: usize) -> (r: Option<Field>)
        requires
            old(self).wf(),
            start <= old(self).floor(),
            decorations.wf_within(start as int, old(self).floor()),
        ensures
            field_len(old(self).remaining()) is Some && decorations.empty() && start == old(self).floor()
                ==> r->0.spelled_by(old(self).remaining()) && final(self).last_end() == r->0.span.end,
            r is Some ==> r->0.decorations == decorations && r->0.span.start == start
                && r->0.span.end == final(self).last_end(),
            r is Some ==> old(self).remaining()[2].kind@ == AtomView::Word(
                r->0.field_type.name.name@,
            ),
            r is Some ==> ({
                let n = type_len(old(self).remaining().skip(2))->0 as int;
                r->0.default is Some <==> (2 + n < old(self).remaining().len() && old(
                    self,
                ).remaining()[2 + n].kind@ == AtomView::EqualSign)
            }),
            field_len(old(self).remaining()) is Some ==> final(self).diagnostics() == old(
                self,
            ).diagnostics(),
            progressed(*old(self), *final(self)),
            r is Some <==> field_len(old(self).remaining()) is Some,
            r is Some ==> final(self).remaining() == old(self).remaining().skip(
                field_len(old(self).remaining())->0 as int,
            ),
            r is Some ==> old(self).remaining()[0].kind@ == AtomView::Word(r->0.name.name@),
            r is Some ==> r->0.wf() && inside(r->0.span, start as int, final(self).last_end())
                && final(self).remaining().len() < old(self).remaining().len(),
    {
        proof {
            reveal(Field::spelled_by);
        }
        let ghost all = self.remaining();
        let name = match self.parse_identifier(Some(Case::Snake)) {
            Some(name) => name,
            None => return None,
        };
        proof {
            assert(self.remaining() =~= all.skip(1));
        }
        if self.expect(TokenKind::Colon).is_none() {
            let here = self.here();
            self.register(ParseError::expected_colon(here));
            return None;
        }
        proof {
            assert(self.remaining() =~= all.skip(2));
        }
        let field_type = match self.parse_type() {
            Some(t) => t,
            None => {
                let here = self.here();
                self.register(ParseError::expected_field_type(here));
                return None;
            },
        };
        let ghost n = type_len(all.skip(2))->0 as int;
        proof {
            lemma_type_len_bound(all.skip(2));
            assert(self.remaining() =~= all.skip(2 + n));
            if self.remaining().len() > 0 {
                assert(self.remaining()[0] == all[2 + n]);
            }
        }
        let default = if self.expect(TokenKind::EqualSign).is_some() {
            proof {
                assert(self.remaining() =~= all.skip(3 + n));
            }
            match self.parse_literal() {
                Some(literal) => Some(literal),
                None => {
                    let here = self.here();
                    self.register(ParseError::expected_literal(here));
                    return None;
                },
            }
        } else {
            None
        };
        proof {
            if default is Some {
                let m = literal_len(all.skip(3 + n))->0 as int;
                lemma_literal_len_bound(all.skip(3 + n));
                assert(self.remaining() =~= all.skip(3 + n + m));
            }
        }
        let span = Span::new(start, self.last_end);
        Some(Field { decorations, name, field_type, default, span })
    }

    /// Reads an enum variant `Name`, with an optional `-> Type`.
    fn parse_variant(&mut self, decorations: Decorations, start: usize) -> (r: Option<Variant>)
        requires
            old(self).wf(),
            start <= old(self).floor(),
            decorations.wf_within(start as int, old(self).floor()),
        ensures
            variant_len(old(self).remaining()) is Some && decorations.empty() && start == old(self).floor()
                ==> r->0.spelled_by(old(self).remaining()) && final(self).last_end() == r->0.span.end,
            r is Some ==> r->0.decorations == decorations && r->0.span.start == start
                && r->0.span.end == final(self).last_end(),
            r is Some ==> (r->0.associated_type is Some <==> (old(self).remaining().len() > 1 && old(
                self,
            ).remaining()[1].kind@ == AtomView::Arrow)),
            r matches Some(v) ==> (v.associated_type matches Some(t)
                ==> old(self).remaining()[2].kind@ == AtomView::Word(t.name.name@)),
            variant_len(old(self).remaining()) is Some ==> final(self).diagnostics() == old(
                self,
            ).diagnostics(),
            progressed(*old(self), *final(self)),
            r is Some <==> variant_len(old(self).remaining()) is Some,
            r is Some ==> final(self).remaining() == old(self).remaining().skip(
                variant_len(old(self).remaining())->0 as int,
            ),
            r is Some ==> old(self).remaining()[0].kind@ == AtomView::Word(r->0.name.name@),
            r is Some ==> r->0.wf() && inside(r->0.span, start as int, final(self).last_end())
                && final(self).remaining().len() < old(self).remaining().len(),
    {
        let ghost all = self.remaining();
        let name = match self.parse_identifier(Some(Case::Camel)) {
            Some(name) => name,
            None => return None,
        };
        proof {
            assert(self.remaining() =~= all.skip(1));
            if all.len() > 1 {
                assert(self.remaining()[0] == all[1]);
            }
        }
        let associated_type = if self.expect(TokenKind::Arrow).is_some() {
            proof {
                assert(self.remaining() =~= all.skip(2));
            }
            match self.parse_type() {
                Some(t) => Some(t),
                None => {
                    let here = self.here();
                    self.register(ParseError::expected_variant_type(here));
                    return None;
                },
            }
        } else {
            None
        };
        proof {
            if associated_type is Some {
                let n = type_len(all.skip(2))->0 as int;
                lemma_type_len_bound(all.skip(2));
                assert(self.remaining() =~= all.skip(2 + n));
            }
        }
        let span = Span::new(start, self.last_end);
        Some(Variant { decorations, name, associated_type, span })
    }

    /// Reads `struct Name<T, ...> { fields }`.
    #[verifier::rlimit(80)]
    fn parse_struct(&mut self, decorations: Decorations, start: usize) -> (r: Option<Struct>)
        requires
            old(self).wf(),
            start <= old(self).floor(),
            decorations.wf_within(start as int, old(self).floor()),
        ensures
            struct_len(old(self).remaining()) is Some ==> r->0.spelled_by(
                old(self).remaining(),
            ) && final(self).last_end() == r->0.span.end,
            r is Some ==> r->0.decorations == decorations && r->0.span.start == start
                && r->0.span.end == final(self).last_end(),
            !(old(self).remaining().len() > 0 && is_word(
                old(self).remaining()[0],
                Keyword::Struct.spelling(),
            )) ==> r is None && final(self).remaining() == old(self).remaining() && final(self).diagnostics() == old(self).diagnostics(),
            struct_len(old(self).remaining()) is Some ==> final(self).diagnostics() == old(
                self,
            ).diagnostics(),
            progressed(*old(self), *final(self)),
            struct_len(old(self).remaining()) is Some ==> r is Some && final(self).remaining() == old(
                self,
            ).remaining().skip(struct_len(old(self).remaining())->0 as int),
            r is Some ==> r->0.wf() && inside(r->0.span, start as int, final(self).last_end())
                && final(self).remaining().len() < old(self).remaining().len(),
            r is Some ==> old(self).remaining().len() > 1 && is_word(
                old(self).remaining()[0],
                Keyword::Struct.spelling(),
            ) && old(self).remaining()[1].kind@ == AtomView::Word(r->0.name.name.name@),
    {
        let ghost all = self.remaining();
        let ghost shaped = struct_len(all) is Some;
        proof {
            reveal_strlit("struct");
        }
        if self.expect_keyword(Keyword::Struct).is_none() {
            return None;
        }
        proof {
            assert(self.remaining() =~= all.skip(1));
        }
        let name = match self.parse_type_definition() {
            Some(name) => name,
            None => {
                let here = self.here();
                self.register(ParseError::expected_struct_name(here));
                return None;
            },
        };
        let ghost n = type_definition_len(all.skip(1))->0 as int;
        proof {
            let ts = all.skip(1);
            if ts.len() > 1 && ts[1].kind@ == AtomView::TagOpen {
                lemma_parameters_len_bound(ts.skip(2));
            }
            if shaped {
                assert(self.remaining() =~= all.skip(1 + n));
                assert(self.remaining()[0] == all[1 + n]);
            }
        }
        if self.expect(TokenKind::BraceOpen).is_none() {
            let here = self.here();
            self.register(ParseError::expected_opening_brace(here));
            return None;
        }
        let mut fields: Vec<Field> = Vec::new();
        let mut closed = false;
        let ghost body_tokens = all.skip(2 + n);
        let ghost mut used: int = 0;
        proof {
            if shaped {
                assert(self.remaining() =~= body_tokens);
            }
        }
        while !closed
            invariant
                all == old(self).remaining(),
                shaped == (struct_len(all) is Some),
                all.len() > 0 && is_word(all[0], Keyword::Struct.spelling()),
                shaped ==> body_tokens == all.skip(2 + n) && fields_len(body_tokens) is Some,
                shaped ==> 0 <= used <= body_tokens.len() && self.remaining() == body_tokens.skip(
                    used,
                ),
                shaped && !closed ==> fields_len(self.remaining()) is Some && fields_len(
                    body_tokens,
                )->0 == used + fields_len(self.remaining())->0,
                shaped && closed ==> fields_len(body_tokens)->0 == used,
                shaped && !closed ==> used == field_start(body_tokens, fields@.len() as int),
                shaped && !closed ==> fields_count(body_tokens) == fields@.len() + fields_count(
                    self.remaining(),
                ),
                shaped && closed ==> fields_count(body_tokens) == fields@.len() && used >= 1
                    && self.last_end() == body_tokens[used - 1].span.end,
                shaped ==> forall|j: int|
                    0 <= j < fields@.len() ==> (#[trigger] fields@[j]).spelled_by(
                        body_tokens.skip(field_start(body_tokens, j)),
                    ),
                shaped ==> all[1].kind@ == AtomView::Word(name.name.name@),
                shaped ==> self.diagnostics() == old(self).diagnostics(),
                progressed(*old(self), *self),
                self.remaining().len() < old(self).remaining().len(),
                start <= old(self).floor(),
                decorations.wf_within(start as int, old(self).floor()),
                name.wf(),
                inside(name.span, old(self).floor(), self.last_end()),
                forall|i: int|
                    0 <= i < fields@.len() ==> (#[trigger] fields@[i]).wf() && inside(
                        fields@[i].span,
                        name.span.end as int,
                        self.last_end(),
                    ),
                forall|i: int, j: int|
                    0 <= i < j < fields@.len() ==> (#[trigger] fields@[i]).span.end <= (
                    #[trigger] fields@[j]).span.start,
            decreases self.remaining().len(), if closed {
                0int
            } else {
                1int
            },
        {
            let ghost rest = self.remaining();
            if self.expect(TokenKind::BraceClose).is_some() {
                closed = true;
                proof {
                    if shaped {
                        used = used + 1;
                        assert(self.remaining() =~= body_tokens.skip(used));
                    }
                }
            } else if self.is_done() {
                let here = self.here();
                self.register(ParseError::expected_closing_brace(here));
                return None;
            } else {
                let member_start = self.floor_offset();
                let field_decorations = self.parse_decorations();
                if !self.next_is_word() {
                    let here = self.here();
                    self.register(ParseError::expected_field(here));
                    self.skip_body();
                    return None;
                }
                match self.parse_field(field_decorations, member_start) {
                    Some(field) => fields.push(field),
                    None => {
                        self.skip_body();
                        return None;
                    },
                }
                proof {
                    if shaped {
                        let k = field_len(rest)->0 as int;
                        lemma_field_len_bound(rest);
                        assert(self.remaining() =~= body_tokens.skip(used + k));
                        assert(rest == body_tokens.skip(field_start(body_tokens, fields@.len() - 1)));
                        assert(field_start(body_tokens, fields@.len() as int) == used + k);
                        assert(fields_count(rest) == 1 + fields_count(rest.skip(k)));
                        used = used + k;
                    }
                }
            }
        }
        proof {
            if shaped {
                assert(self.remaining() =~= all.skip(2 + n + used));
            }
        }
        let span = Span::new(start, self.last_end);
        Some(Struct { decorations, name, fields, span })
    }

    /// Reads `enum Name { variants }`.
    #[verifier::rlimit(80)]
    fn parse_enum(&mut self, decorations: Decorations, start: usize) -> (r: Option<Enum>)
        requires
            old(self).wf(),
            start <= old(self).floor(),
            decorations.wf_within(start as int, old(self).floor()),
        ensures
            enum_len(old(self).remaining()) is Some && start == old(self).floor() ==> r->0.spelled_by(
                old(self).remaining(),
            ) && final(self).last_end() == r->0.span.end,
            r is Some ==> r->0.decorations == decorations && r->0.span.start == start
                && r->0.span.end == final(self).last_end(),
            !(old(self).remaining().len() > 0 && is_word(
                old(self).remaining()[0],
                Keyword::Enum.spelling(),
            )) ==> r is None && final(self).remaining() == old(self).remaining() && final(self).diagnostics() == old(self).diagnostics(),
            enum_len(old(self).remaining()) is Some ==> final(self).diagnostics() == old(
                self,
            ).diagnostics(),
            progressed(*old(self), *final(self)),
            enum_len(old(self).remaining()) is Some ==> r is Some && final(self).remaining() == old(
                self,
            ).remaining().skip(enum_len(old(self).remaining())->0 as int),
            r is Some ==> r->0.wf() && inside(r->0.span, start as int, final(self).last_end())
                && final(self).remaining().len() < old(self).remaining().len(),
            r is Some ==> old(self).remaining().len() > 1 && is_word(
                old(self).remaining()[0],
                Keyword::Enum.spelling(),
            ) && old(self).remaining()[1].kind@ == AtomView::Word(r->0.name.name@),
    {
        let ghost all = self.remaining();
        let ghost shaped = enum_len(all) is Some;
        proof {
            reveal_strlit("enum");
        }
        if self.expect_keyword(Keyword::Enum).is_none() {
            return None;
        }
        proof {
            assert(self.remaining() =~= all.skip(1));
        }
        let name = match self.parse_identifier(Some(Case::Camel)) {
            Some(name) => name,
            None => {
                let here = self.here();
                self.register(ParseError::expected_enum_name(here));
                return None;
            },
        };
        proof {
            assert(self.remaining() =~= all.skip(2));
        }
        if self.expect(TokenKind::BraceOpen).is_none() {
            let here = self.here();
            self.register(ParseError::expected_opening_brace(here));
            return None;
        }
        let mut variants: Vec<Variant> = Vec::new();
        let mut closed = false;
        let ghost body_tokens = all.skip(3);
        let ghost mut used: int = 0;
        proof {
            if shaped {
                assert(self.remaining() =~= body_tokens);
            }
        }
        while !closed
            invariant
                all == old(self).remaining(),
                shaped == (enum_len(all) is Some),
                all.len() > 0 && is_word(all[0], Keyword::Enum.spelling()),
                shaped ==> body_tokens == all.skip(3) && variants_len(body_tokens) is Some,
                shaped ==> 0 <= used <= body_tokens.len() && self.remaining() == body_tokens.skip(
                    used,
                ),
                shaped && !closed ==> variants_len(self.remaining()) is Some && variants_len(
                    body_tokens,
                )->0 == used + variants_len(self.remaining())->0,
                shaped && closed ==> variants_len(body_tokens)->0 == used,
                shaped && !closed ==> used == variant_start(body_tokens, variants@.len() as int),
                shaped && !closed ==> variants_count(body_tokens) == variants@.len() + variants_count(
                    self.remaining(),
                ),
                shaped && closed ==> variants_count(body_tokens) == variants@.len() && used >= 1
                    && self.last_end() == body_tokens[used - 1].span.end,
                shaped ==> name.span == all[1].span,
                shaped ==> forall|j: int|
                    0 <= j < variants@.len() ==> (#[trigger] variants@[j]).spelled_by(
                        body_tokens.skip(variant_start(body_tokens, j)),
                    ),
                shaped ==> all[1].kind@ == AtomView::Word(name.name@),
                shaped ==> self.diagnostics() == old(self).diagnostics(),
                progressed(*old(self), *self),
                self.remaining().len() < old(self).remaining().len(),
                start <= old(self).floor(),
                decorations.wf_within(start as int, old(self).floor()),
                inside(name.span, old(self).floor(), self.last_end()),
                forall|i: int|
                    0 <= i < variants@.len() ==> (#[trigger] variants@[i]).wf() && inside(
                        variants@[i].span,
                        name.span.end as int,
                        self.last_end(),
                    ),
                forall|i: int, j: int|
                    0 <= i < j < variants@.len() ==> (#[trigger] variants@[i]).span.end <= (
                    #[trigger] variants@[j]).span.start,
            decreases self.remaining().len(), if closed {
                0int
            } else {
                1int
            },
        {
            let ghost rest = self.remaining();
            if self.expect(TokenKind::BraceClose).is_some() {
                closed = true;
                proof {
                    if shaped {
                        used = used + 1;
                        assert(self.remaining() =~= body_tokens.skip(used));
                    }
                }
            } else if self.is_done() {
                let here = self.here();
                self.register(ParseError::expected_closing_brace(here));
                return None;
            } else {
                let member_start = self.floor_offset();
                let variant_decorations = self.parse_decorations();
                if !self.next_is_word() {
                    let here = self.here();
                    self.register(ParseError::expected_variant(here));
                    self.skip_body();
                    return None;
                }
                match self.parse_variant(variant_decorations, member_start) {
                    Some(variant) => variants.push(variant),
                    None => {
                        self.skip_body();
                        return None;
                    },
                }
                proof {
                    if shaped {
                        let k = variant_len(rest)->0 as int;
                        lemma_variant_len_bound(rest);
                        assert(self.remaining() =~= body_tokens.skip(used + k));
                        assert(rest == body_tokens.skip(
                            variant_start(body_tokens, variants@.len() - 1),
                        ));
                        assert(variant_start(body_tokens, variants@.len() as int) == used + k);
                        assert(variants_count(rest) == 1 + variants_count(rest.skip(k)));
                        used = used + k;
                    }
                }
            }
        }
        proof {
            if shaped {
                assert(self.remaining() =~= all.skip(3 + used));
            }
        }
        let span = Span::new(start, self.last_end);
        Some(Enum { decorations, name, variants, span })
    }

    /// Reads `alias Name<T, ...> = Type`.
    #[verifier::rlimit(40)]
    fn parse_alias(&mut self, decorations: Decorations, start: usize) -> (r: Option<Alias>)
        requires
            old(self).wf(),
            start <= old(self).floor(),
            decorations.wf_within(start as int, old(self).floor()),
        ensures
            alias_len(old(self).remaining()) is Some && decorations.empty() && start == old(self).floor()
                ==> r->0.spelled_by(old(self).remaining()) && final(self).last_end() == r->0.span.end,
            r is Some ==> r->0.decorations == decorations && r->0.span.start == start
                && r->0.span.end == final(self).last_end(),
            !(old(self).remaining().len() > 0 && is_word(
                old(self).remaining()[0],
                Keyword::Alias.spelling(),
            )) ==> r is None && final(self).remaining() == old(self).remaining() && final(self).diagnostics() == old(self).diagnostics(),
            alias_len(old(self).remaining()) is Some ==> final(self).diagnostics() == old(
                self,
            ).diagnostics(),
            progressed(*old(self), *final(self)),
            r is Some <==> alias_len(old(self).remaining()) is Some,
            r is Some ==> final(self).remaining() == old(self).remaining().skip(
                alias_len(old(self).remaining())->0 as int,
            ),
            r is Some ==> r->0.wf() && inside(r->0.span, start as int, final(self).last_end())
                && final(self).remaining().len() < old(self).remaining().len(),
            r is Some ==> old(self).remaining().len() > 1 && is_word(
                old(self).remaining()[0],
                Keyword::Alias.spelling(),
            ) && old(self).remaining()[1].kind@ == AtomView::Word(r->0.name.name.name@),
    {
        let ghost all = self.remaining();
        proof {
            reveal_strlit("alias");
        }
        if self.expect_keyword(Keyword::Alias).is_none() {
            return None;
        }
        proof {
            assert(self.remaining() =~= all.skip(1));
        }
        let name = match self.parse_type_definition() {
            Some(name) => name,
            None => {
                let here = self.here();
                self.register(ParseError::expected_alias_name(here));
                return None;
            },
        };
        let ghost n = type_definition_len(all.skip(1))->0 as int;
        proof {
            let ts = all.skip(1);
            if ts.len() > 1 && ts[1].kind@ == AtomView::TagOpen {
                lemma_parameters_len_bound(ts.skip(2));
            }
            assert(self.remaining() =~= all.skip(1 + n));
            if self.remaining().len() > 0 {
                assert(self.remaining()[0] == all[1 + n]);
            }
        }
        if self.expect(TokenKind::EqualSign).is_none() {
            let here = self.here();
            self.register(ParseError::expected_equal_sign(here));
            return None;
        }
        proof {
            assert(self.remaining() =~= all.skip(2 + n));
        }
        let aliased_type = match self.parse_type() {
            Some(t) => t,
            None => {
                let here = self.here();
                self.register(ParseError::expected_aliased_type(here));
                return None;
            },
        };
        proof {
            let m = type_len(all.skip(2 + n))->0 as int;
            lemma_type_len_bound(all.skip(2 + n));
            assert(self.remaining() =~= all.skip(2 + n + m));
        }
        let span = Span::new(start, self.last_end);
        Some(Alias { decorations, name, aliased_type, span })
    }

    /// Reads `val name: Type = literal`.
    #[verifier::rlimit(40)]
    fn parse_value(&mut self, decorations: Decorations, start: usize) -> (r: Option<Value>)
        requires
            old(self).wf(),
            start <= old(self).floor(),
            decorations.wf_within(start as int, old(self).floor()),
        ensures
            value_len(old(self).remaining()) is Some && decorations.empty() && start == old(self).floor()
                ==> r->0.spelled_by(old(self).remaining()) && final(self).last_end() == r->0.span.end,
            r is Some ==> r->0.decorations == decorations && r->0.span.start == start
                && r->0.span.end == final(self).last_end(),
            !(old(self).remaining().len() > 0 && is_word(
                old(self).remaining()[0],
                Keyword::Val.spelling(),
            )) ==> r is None && final(self).remaining() == old(self).remaining() && final(self).diagnostics() == old(self).diagnostics(),
            value_len(old(self).remaining()) is Some ==> final(self).diagnostics() == old(
                self,
            ).diagnostics(),
            progressed(*old(self), *final(self)),
            r is Some <==> value_len(old(self).remaining()) is Some,
            r is Some ==> final(self).remaining() == old(self).remaining().skip(
                value_len(old(self).remaining())->0 as int,
            ),
            r is Some ==> r->0.wf() && inside(r->0.span, start as int, final(self).last_end())
                && final(self).remaining().len() < old(self).remaining().len(),
            r is Some ==> old(self).remaining().len() > 1 && is_word(
                old(self).remaining()[0],
                Keyword::Val.spelling(),
            ) && old(self).remaining()[1].kind@ == AtomView::Word(r->0.name.name@),
    {
        let ghost all = self.remaining();
        proof {
            reveal_strlit("val");
        }
        if self.expect_keyword(Keyword::Val).is_none() {
            return None;
        }
        proof {
            assert(self.remaining() =~= all.skip(1));
        }
        let name = match self.parse_identifier(Some(Case::Dromedar)) {
            Some(name) => name,
            None => {
                let here = self.here();
                self.register(ParseError::expected_value_name(here));
                return None;
            },
        };
        proof {
            assert(self.remaining() =~= all.skip(2));
        }
        if self.expect(TokenKind::Colon).is_none() {
            let here = self.here();
            self.register(ParseError::expected_colon(here));
            return None;
        }
        proof {
            assert(self.remaining() =~= all.skip(3));
        }
        let value_type = match self.parse_type() {
            Some(t) => t,
            None => {
                let here = self.here();
                self.register(ParseError::expected_value_type(here));
                return None;
            },
        };
        let ghost n = type_len(all.skip(3))->0 as int;
        proof {
            lemma_type_len_bound(all.skip(3));
            assert(self.remaining() =~= all.skip(3 + n));
            if self.remaining().len() > 0 {
                assert(self.remaining()[0] == all[3 + n]);
            }
        }
        if self.expect(TokenKind::EqualSign).is_none() {
            let here = self.here();
            self.register(ParseError::expected_equal_sign(here));
            return None;
        }
        proof {
            assert(self.remaining() =~= all.skip(4 + n));
        }
        let literal = match self.parse_literal() {
            Some(literal) => literal,
            None => {
                let here = self.here();
                self.register(ParseError::expected_literal(here));
                return None;
            },
        };
        proof {
            let m = literal_len(all.skip(4 + n))->0 as int;
            lemma_literal_len_bound(all.skip(4 + n));
            assert(self.remaining() =~= all.skip(4 + n + m));
        }
        let span = Span::new(start, self.last_end);
        Some(Value { decorations, name, value_type, literal, span })
    }

    /// Reads a decorated definition of a struct, an enum, an alias or a value.
    #[verifier::rlimit(40)]
    fn parse_definition(&mut self) -> (r: Option<Definition>)
        requires
            old(self).wf(),
        ensures
            ({
                let ts = old(self).remaining();
                let m = deprecated_len(ts);
                lone_deprecated(ts) && struct_len(ts.skip(m)) is Some ==> {
                    &&& r matches Some(Definition::Struct(st))
                    &&& st.spelled_by(ts.skip(m))
                    &&& st.span.start == ts[0].span.start
                    &&& st.decorations.comment is None && st.decorations.added is None
                    &&& st.decorations.deprecated matches Some(d) && d.spelled_by(ts)
                }
            }),
            definition_len(old(self).remaining()) is Some ==> r->0.spelled_by(old(self).remaining()),
            ({
                let ts = old(self).remaining();
                let other = ts.len() > 0 && !is_comment(ts[0]) && ts[0].kind@ != AtomView::At
                    && !is_word(ts[0], Keyword::Struct.spelling()) && !is_word(
                    ts[0],
                    Keyword::Enum.spelling(),
                ) && !is_word(ts[0], Keyword::Alias.spelling()) && !is_word(
                    ts[0],
                    Keyword::Val.spelling(),
                );
                other ==> r is None && final(self).remaining() == ts.drop_first() && reported(
                    old(self).diagnostics(),
                    final(self).diagnostics(),
                    "expected_definition",
                    Level::Fatal,
                    ts[0].span,
                )
            }),
            definition_len(old(self).remaining()) is Some ==> final(self).diagnostics() == old(
                self,
            ).diagnostics(),
            progressed(*old(self), *final(self)),
            definition_len(old(self).remaining()) is Some ==> r is Some && final(self).remaining()
                == old(self).remaining().skip(definition_len(old(self).remaining())->0 as int),
            r is Some ==> r->0.wf() && inside(r->0.span(), old(self).floor(), final(self).last_end())
                && final(self).remaining().len() < old(self).remaining().len(),
    {
        let ghost all = self.remaining();
        proof {
            reveal(Definition::spelled_by);
            reveal(Definition::wf);
            reveal_strlit("struct");
            reveal_strlit("enum");
            reveal_strlit("alias");
            reveal_strlit("val");
            reveal_strlit("package");
            reveal_strlit("from");
            reveal_strlit("use");
            assert("struct"@.len() == 6 && "enum"@.len() == 4 && "alias"@.len() == 5 && "val"@.len()
                == 3);
            if struct_len(all) is Some || enum_len(all) is Some || alias_len(all) is Some || value_len(
                all,
            ) is Some {
                assert(all[0].kind is Word);
            }
            if lone_deprecated(all) {
                lemma_run_len_bound(all.skip(9), |t: Token| is_string(t));
            }
        }
        let start = self.floor_offset();
        let decorations = self.parse_decorations();
        proof {
            if lone_deprecated(all) && struct_len(all.skip(deprecated_len(all))) is Some {
                let m = deprecated_len(all);
                let sl = struct_len(all.skip(m))->0 as int;
                lemma_definition_len_bound(all.skip(m));
                assert(all.skip(m).skip(sl) =~= all.skip(m + sl));
            }
        }
        if self.at_keyword(Keyword::Struct) {
            return match self.parse_struct(decorations, start) {
                Some(d) => Some(Definition::Struct(d)),
                None => None,
            };
        }
        if self.at_keyword(Keyword::Enum) {
            return match self.parse_enum(decorations, start) {
                Some(d) => Some(Definition::Enum(d)),
                None => None,
            };
        }
        if self.at_keyword(Keyword::Alias) {
            return match self.parse_alias(decorations, start) {
                Some(d) => Some(Definition::Alias(d)),
                None => None,
            };
        }
        if self.at_keyword(Keyword::Val) {
            return match self.parse_value(decorations, start) {
                Some(d) => Some(Definition::Value(d)),
                None => None,
            };
        }
        if self.is_done() {
            if !decorations.is_empty() {
                let span = Span::new(start, self.last_end);
                self.register(ParseError::expected_definition_after_decoration(span));
            }
        } else {
            let here = self.here();
            let e = ParseError::expected_definition(here);
            let ghost before = self.diagnostics();
            self.register(e);
            proof {
                crate::error::lemma_views_push(before, e);
            }
            self.advance();
        }
        None
    }

    /// Reads `from source use Name, ...`.
    #[verifier::rlimit(40)]
    fn parse_import(&mut self) -> (r: Option<Import>)
        requires
            old(self).wf(),
        ensures
            r is Some ==> final(self).last_end() == old(self).remaining()[import_len(
                old(self).remaining(),
            )->0 - 1].span.end,
            r is Some ==> old(self).remaining()[1].kind@ == AtomView::Word(r->0.source.name@),
            r is Some ==> r->0.span.start == old(self).remaining()[0].span.start && r->0.span.end
                == final(self).last_end(),
            r is Some ==> r->0.imports@.len() * 2 == names_len(old(self).remaining().skip(3))->0 + 1,
            r is Some ==> forall|i: int|
                0 <= i < r->0.imports@.len() ==> old(self).remaining()[3 + 2 * i].kind@
                    == AtomView::Word((#[trigger] r->0.imports@[i]).name@),
            import_len(old(self).remaining()) is Some ==> final(self).diagnostics() == old(
                self,
            ).diagnostics(),
            progressed(*old(self), *final(self)),
            r is Some <==> import_len(old(self).remaining()) is Some,
            r is Some ==> final(self).remaining() == old(self).remaining().skip(
                import_len(old(self).remaining())->0 as int,
            ),
            r is Some ==> r->0.wf() && inside(r->0.span, old(self).floor(), final(self).last_end()),
            (old(self).remaining().len() > 0 && is_word(
                old(self).remaining()[0],
                Keyword::From.spelling(),
            )) ==> final(self).remaining().len() < old(self).remaining().len(),
    {
        let ghost all = self.remaining();
        proof {
            reveal_strlit("from");
            reveal_strlit("use");
        }
        let from_keyword = match self.expect_keyword(Keyword::From) {
            Some(token) => token,
            None => return None,
        };
        proof {
            assert(self.remaining() =~= all.skip(1));
        }
        let source = match self.parse_identifier(Some(Case::Kebab)) {
            Some(source) => source,
            None => {
                self.register(ParseError::expected_source(from_keyword.span));
                return None;
            },
        };
        proof {
            assert(self.remaining() =~= all.skip(2));
        }
        let use_keyword = match self.expect_keyword(Keyword::Use) {
            Some(token) => token,
            None => {
                self.register(
                    ParseError::expected_use_keyword(
                        Span::new(from_keyword.span.start, source.span.end),
                    ),
                );
                return None;
            },
        };
        proof {
            assert(self.remaining() =~= all.skip(3));
        }
        let first = match self.parse_identifier(None) {
            Some(name) => name,
            None => {
                self.register(ParseError::expected_import(use_keyword.span));
                return None;
            },
        };
        proof {
            assert(all.skip(3)[0] == all[3]);
            assert(all.skip(1)[0] == all[1]);
            assert(all[0] == old(self).remaining()[0]);
        }
        let mut imports: Vec<Identifier> = Vec::new();
        imports.push(first);
        let ghost mut used: int = 1;
        proof {
            assert(self.remaining() =~= all.skip(4));
            let ts = all.skip(3);
            if ts.len() > 1 {
                assert(ts[1] == self.remaining()[0]);
                assert(ts.skip(2) =~= self.remaining().skip(1));
            }
        }
        while self.next_is(TokenKind::Comma)
            invariant
                all == old(self).remaining(),
                1 <= used,
                3 + used <= all.len(),
                self.remaining() == all.skip(3 + used),
                all[3 + used - 1].kind is Word,
                import_len(all) is Some ==> self.diagnostics() == old(self).diagnostics(),
                used == 2 * imports@.len() - 1,
                self.last_end() == all[3 + used - 1].span.end,
                imports@.len() >= 1,
                all[1].kind@ == AtomView::Word(source.name@),
                from_keyword.span.start == all[0].span.start,
                forall|i: int|
                    0 <= i < imports@.len() ==> all[3 + 2 * i].kind@ == AtomView::Word(
                        (#[trigger] imports@[i]).name@,
                    ),
                names_len(all.skip(3)) == (if self.remaining().len() > 0 && self.remaining()[0].kind@
                    == AtomView::Comma {
                    match names_len(self.remaining().skip(1)) {
                        Some(m) => Some((used + 1 + m) as nat),
                        None => None::<nat>,
                    }
                } else {
                    Some(used as nat)
                }),
                progressed(*old(self), *self),
                self.remaining().len() < old(self).remaining().len(),
                from_keyword.span.start == old(self).floor(),
                inside(source.span, old(self).floor(), self.last_end()),
                forall|i: int|
                    0 <= i < imports@.len() ==> inside(
                        (#[trigger] imports@[i]).span,
                        source.span.end as int,
                        self.last_end(),
                    ),
                forall|i: int, j: int|
                    0 <= i < j < imports@.len() ==> (#[trigger] imports@[i]).span.end <= (
                    #[trigger] imports@[j]).span.start,
            decreases self.remaining().len(),
        {
            let ghost rest = self.remaining();
            self.advance();
            let ghost r1 = self.remaining();
            proof {
                assert(self.remaining() =~= rest.skip(1));
            }
            match self.parse_identifier(None) {
                Some(name) => imports.push(name),
                None => {
                    let here = self.here();
                    self.register(ParseError::expected_import(here));
                    return None;
                },
            }
            proof {
                assert(r1[0] == all[3 + used + 1]);
                assert(self.remaining() =~= all.skip(3 + used + 2));
                assert(rest.skip(1).skip(1) =~= self.remaining());
                if r1.len() > 1 {
                    assert(r1[1] == self.remaining()[0]);
                    assert(r1.skip(2) =~= self.remaining().skip(1));
                }
                used = used + 2;
            }
        }
        proof {
            assert(self.remaining() =~= all.skip(3 + used));
        }
        let span = Span::new(from_keyword.span.start, self.last_end);
        Some(Import { source, imports, span })
    }

    /// Reads `package name`.
    fn parse_package(&mut self) -> (r: Option<Identifier>)
        requires
            old(self).wf(),
        ensures
            progressed(*old(self), *final(self)),
            final(self).diagnostics() == old(self).diagnostics(),
            r is Some <==> (old(self).remaining().len() > 1 && is_word(
                old(self).remaining()[0],
                "package"@,
            ) && old(self).remaining()[1].kind is Word),
            r is Some ==> old(self).remaining()[1].kind@ == AtomView::Word(r->0.name@),
            r is Some ==> inside(r->0.span, old(self).floor(), final(self).last_end())
                && final(self).remaining() == old(self).remaining().skip(2),
    {
        let ghost all = self.remaining();
        if self.expect_keyword(Keyword::Package).is_none() {
            return None;
        }
        let r = self.parse_identifier(Some(Case::Kebab));
        proof {
            if r is Some {
                assert(self.remaining() =~= all.skip(2));
            }
        }
        r
    }

    /// Reads the imports: as long as `from` is next. A broken one is reported
    /// and skipped.
    #[verifier::rlimit(40)]
    fn parse_imports(&mut self) -> (r: Vec<Import>)
        requires
            old(self).wf(),
        ensures
            imports_shape(old(self).remaining()) is Some ==> final(self).diagnostics() == old(
                self,
            ).diagnostics(),
            progressed(*old(self), *final(self)),
            forall|i: int|
                0 <= i < r@.len() ==> (#[trigger] r@[i]).wf() && old(self).floor()
                    <= r@[i].span.start && r@[i].span.end <= final(self).last_end(),
            forall|i: int, j: int|
                0 <= i < j < r@.len() ==> (#[trigger] r@[i]).span.end <= (
                #[trigger] r@[j]).span.start,
            imports_shape(old(self).remaining()) is Some ==> {
                &&& r@.len() == imports_count(old(self).remaining())
                &&& final(self).remaining() == old(self).remaining().skip(
                    imports_taken(old(self).remaining()) as int,
                )
            },
    {
        let ghost all = self.remaining();
        let ghost shaped = imports_shape(all) is Some;
        let ghost mut used: int = 0;
        proof {
            reveal_strlit("from");
            assert(all.skip(0) =~= all);
        }
        let mut imports: Vec<Import> = Vec::new();
        while self.at_keyword(Keyword::From)
            invariant
                all == old(self).remaining(),
                shaped == (imports_shape(all) is Some),
                progressed(*old(self), *self),
                forall|i: int|
                    0 <= i < imports@.len() ==> (#[trigger] imports@[i]).wf() && old(self).floor()
                        <= imports@[i].span.start && imports@[i].span.end <= self.last_end(),
                forall|i: int, j: int|
                    0 <= i < j < imports@.len() ==> (#[trigger] imports@[i]).span.end <= (
                    #[trigger] imports@[j]).span.start,
                shaped ==> 0 <= used <= all.len() && self.remaining() == all.skip(used),
                shaped ==> self.diagnostics() == old(self).diagnostics(),
                shaped ==> imports_shape(self.remaining()) is Some && imports_taken(all) == used
                    + imports_taken(self.remaining()) && imports_count(all) == imports@.len()
                    + imports_count(self.remaining()),
            decreases self.remaining().len(),
        {
            let ghost rest = self.remaining();
            match self.parse_import() {
                Some(import) => imports.push(import),
                None => self.skip_to_item(),
            }
            proof {
                if shaped {
                    let n = import_len(rest)->0 as int;
                    assert(self.remaining() =~= all.skip(used + n));
                    used = used + n;
                }
            }
        }
        proof {
            if shaped {
                assert(imports_shape(self.remaining()) == Some((0nat, 0nat)));
            }
        }
        imports
    }

    /// Reads one definition, where one is left. After a broken one, reading skips
    /// to the next token that can start a definition, consuming at least one token.
    #[verifier::rlimit(40)]
    fn parse_next_definition(&mut self) -> (r: Option<Definition>)
        requires
            old(self).wf(),
            old(self).remaining().len() > 0,
        ensures
            progressed(*old(self), *final(self)),
            final(self).remaining().len() < old(self).remaining().len(),
            r is Some ==> r->0.wf() && inside(r->0.span(), old(self).floor(), final(self).last_end()),
            definition_len(old(self).remaining()) is Some ==> {
                &&& r is Some
                &&& r->0.spelled_by(old(self).remaining())
                &&& final(self).remaining() == old(self).remaining().skip(
                    definition_len(old(self).remaining())->0 as int,
                )
                &&& final(self).diagnostics() == old(self).diagnostics()
            },
    {
        let before = self.remaining_len();
        match self.parse_definition() {
            Some(definition) => Some(definition),
            None => {
                if self.remaining_len() == before {
                    self.advance();
                }
                self.skip_to_item();
                None
            },
        }
    }

    /// Reads definitions to the end. After a broken one, reading goes on at the
    /// next token that can start a definition.
    #[verifier::rlimit(40)]
    fn parse_definitions(&mut self) -> (r: Vec<Definition>)
        requires
            old(self).wf(),
        ensures
            definitions_shape(old(self).remaining()) is Some ==> forall|i: int|
                0 <= i < r@.len() ==> (#[trigger] r@[i]).spelled_by(
                    old(self).remaining().skip(definition_start(old(self).remaining(), i)),
                ),
            definitions_shape(old(self).remaining()) is Some ==> final(self).diagnostics() == old(
                self,
            ).diagnostics(),
            progressed(*old(self), *final(self)),
            forall|i: int|
                0 <= i < r@.len() ==> (#[trigger] r@[i]).wf() && old(self).floor()
                    <= r@[i].span().start && r@[i].span().end <= final(self).last_end(),
            forall|i: int, j: int|
                0 <= i < j < r@.len() ==> (#[trigger] r@[i]).span().end <= (
                #[trigger] r@[j]).span().start,
            definitions_shape(old(self).remaining()) matches Some(d) ==> r@.len() == d,
    {
        let ghost all = self.remaining();
        let ghost shaped = definitions_shape(all) is Some;
        let mut definitions: Vec<Definition> = Vec::new();
        while !self.is_done()
            invariant
                all == old(self).remaining(),
                shaped == (definitions_shape(all) is Some),
                progressed(*old(self), *self),
                forall|i: int|
                    0 <= i < definitions@.len() ==> (#[trigger] definitions@[i]).wf() && old(
                        self,
                    ).floor() <= definitions@[i].span().start && definitions@[i].span().end
                        <= self.last_end(),
                forall|i: int, j: int|
                    0 <= i < j < definitions@.len() ==> (#[trigger] definitions@[i]).span().end <= (
                    #[trigger] definitions@[j]).span().start,
                shaped ==> self.diagnostics() == old(self).diagnostics(),
                shaped ==> self.remaining() == all.skip(
                    definition_start(all, definitions@.len() as int),
                ),
                shaped ==> 0 <= definition_start(all, definitions@.len() as int) <= all.len(),
                shaped ==> forall|i: int|
                    0 <= i < definitions@.len() ==> (#[trigger] definitions@[i]).spelled_by(
                        all.skip(definition_start(all, i)),
                    ),
                shaped ==> definitions_shape(self.remaining()) is Some && definitions_shape(all)->0
                    == definitions@.len() + definitions_shape(self.remaining())->0,
            decreases self.remaining().len(),
        {
            let ghost rest = self.remaining();
            match self.parse_next_definition() {
                Some(definition) => definitions.push(definition),
                None => {},
            }
            proof {
                if shaped {
                    lemma_definition_len_bound(rest);
                    let ds = definition_start(all, definitions@.len() - 1);
                    let n = definition_len(rest)->0 as int;
                    assert(definition_start(all, definitions@.len() as int) == ds + n);
                    assert(self.remaining() =~= all.skip(ds + n));
                }
            }
        }
        proof {
            if shaped {
                assert(all.skip(0) =~= all);
            }
        }
        definitions
    }

    /// Reads a whole file: an optional comment, the package statement, the
    /// imports and the definitions. Without a package statement there is no file.
    #[verifier::rlimit(40)]
    pub fn parse(&mut self) -> (r: Option<TapeFile>)
        requires
            old(self).wf(),
        ensures
            ({
                let n = run_len(old(self).remaining(), |t: Token| is_comment(t)) as int;
                &&& progressed(*old(self), *final(self))
                &&& r is Some <==> package_follows(old(self).remaining())
                &&& r is Some ==> r->0.wf()
                &&& r is Some ==> r->0.ends_by(old(self).limit())
                &&& r is Some ==> (r->0.comment is Some <==> n > 0)
                &&& r is Some ==> (r->0.comment matches Some(c) ==> c.text@ == lines(
                    old(self).remaining(),
                    n,
                ))
                &&& r is Some ==> old(self).remaining()[n + 1].kind@ == AtomView::Word(
                    r->0.package_name.name@,
                )
                &&& r is None ==> has_fatal(views(final(self).diagnostics()))
                &&& file_shape(old(self).remaining()) matches Some((i, d)) ==> {
                    &&& r is Some
                    &&& forall|j: int|
                        0 <= j < r->0.definitions@.len() ==> (#[trigger] r->0.definitions@[j]).spelled_by(
                            definitions_part(old(self).remaining()).skip(
                                definition_start(definitions_part(old(self).remaining()), j),
                            ),
                        )
                    &&& final(self).diagnostics() == old(self).diagnostics()
                    &&& r->0.imports@.len() == i
                    &&& r->0.definitions@.len() == d
                }
            }),
    {
        let ghost all = self.remaining();
        let comment = self.parse_comment();
        proof {
            let n = run_len(all, |t: Token| is_comment(t)) as int;
            lemma_run_len_bound(all, |t: Token| is_comment(t));
            if self.remaining().len() > 1 {
                assert(self.remaining()[0] == all[n]);
                assert(self.remaining()[1] == all[n + 1]);
            }
        }
        let package_name = match self.parse_package() {
            Some(name) => name,
            None => {
                let here = self.here();
                let e = ParseError::expected_package_statement(here);
                let ghost before = self.diagnostics();
                self.register(e);
                proof {
                    crate::error::lemma_views_push(before, e);
                    assert(views(self.diagnostics())[before.len() as int] == e@);
                }
                return None;
            },
        };
        proof {
            let n = run_len(all, |t: Token| is_comment(t)) as int;
            assert(self.remaining() =~= all.skip(n + 2));
        }
        let imports = self.parse_imports();
        proof {
            let n = run_len(all, |t: Token| is_comment(t)) as int;
            if file_shape(all) is Some {
                let c = imports_taken(all.skip(n + 2)) as int;
                assert(self.remaining() =~= all.skip(n + 2 + c));
            }
        }
        let definitions = self.parse_definitions();
        Some(TapeFile { comment, package_name, imports, definitions })
    }
}

} // verus!
