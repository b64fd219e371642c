//! The shapes of token sequences that the syntax stage accepts, as spec
//! functions: how many tokens each construct takes where it is well formed.

use crate::atoms::AtomView;
use crate::numbers::decimal_value;
use crate::tokens::{Token, TokenKind};
use vstd::prelude::*;

verus! {

pub open spec fn is_comment(t: Token) -> bool {
    t.kind@ is Comment
}

pub open spec fn is_word(t: Token, w: Seq<char>) -> bool {
    t.kind@ == AtomView::Word(w)
}

pub open spec fn is_string(t: Token) -> bool {
    t.kind@ is String
}

/// How many tokens at the front of `ts` satisfy `p`.
pub open spec fn run_len(ts: Seq<Token>, p: spec_fn(Token) -> bool) -> nat
    decreases ts.len(),
{
    if ts.len() > 0 && p(ts[0]) {
        1 + run_len(ts.drop_first(), p)
    } else {
        0
    }
}

pub proof fn lemma_run_len_bound(ts: Seq<Token>, p: spec_fn(Token) -> bool)
    ensures
        run_len(ts, p) <= ts.len(),
        run_len(ts, p) < ts.len() ==> !p(ts[run_len(ts, p) as int]),
    decreases ts.len(),
{
    if ts.len() > 0 && p(ts[0]) {
        lemma_run_len_bound(ts.drop_first(), p);
        let n = run_len(ts.drop_first(), p);
        if n < ts.drop_first().len() {
            assert(ts.drop_first()[n as int] == ts[n as int + 1]);
        }
    }
}

/// The text that a comment or string token carries.
pub open spec fn token_text(t: Token) -> Seq<char> {
    match t.kind@ {
        AtomView::Comment(s) => s,
        AtomView::String(s) => s,
        _ => Seq::empty(),
    }
}

/// The texts of the first `n` tokens, one line each.
pub open spec fn lines(ts: Seq<Token>, n: int) -> Seq<char>
    decreases n,
{
    if n <= 0 {
        Seq::empty()
    } else if n == 1 {
        token_text(ts[0])
    } else {
        lines(ts, n - 1) + seq!['\n'] + token_text(ts[n - 1])
    }
}

/// The texts of the first `n` tokens, joined.
pub open spec fn joined(ts: Seq<Token>, n: int) -> Seq<char>
    decreases n,
{
    if n <= 0 {
        Seq::empty()
    } else {
        joined(ts, n - 1) + token_text(ts[n - 1])
    }
}

/// After the comments at the front, `package` and a name follow.
pub open spec fn package_follows(ts: Seq<Token>) -> bool {
    let k = run_len(ts, |t: Token| is_comment(t)) as int;
    &&& ts.len() > k + 1
    &&& is_word(ts[k], "package"@)
    &&& ts[k + 1].kind@ is Word
}

/// What a version number stands for: its value, or zero where that does not fit into 64 bits.
pub open spec fn version_part(digits: Seq<char>) -> u64 {
    if decimal_value(digits) <= u64::MAX {
        decimal_value(digits) as u64
    } else {
        0
    }
}

/// How many tokens the type at the front of `ts` takes: a name, then type
/// arguments between `<` and `>`, where a `<` follows. `None` where no type stands there.
pub open spec fn type_len(ts: Seq<Token>) -> Option<nat>
    decreases ts.len(), 0int,
{
    if ts.len() == 0 || !(ts[0].kind@ is Word) {
        None
    } else if ts.len() > 1 && ts[1].kind@ == AtomView::TagOpen {
        match arguments_len(ts.skip(2)) {
            Some(m) => Some(m + 2),
            None => None,
        }
    } else {
        Some(1)
    }
}

/// How many tokens `T, U, ... >` takes at the front of `ts`.
pub open spec fn arguments_len(ts: Seq<Token>) -> Option<nat>
    decreases ts.len(), 1int,
{
    match type_len(ts) {
        None => None,
        Some(n) => {
            if n < ts.len() && ts[n as int].kind@ == AtomView::TagClose {
                Some(n + 1)
            } else if n < ts.len() && ts[n as int].kind@ == AtomView::Comma {
                match arguments_len(ts.skip(n as int + 1)) {
                    Some(m) => Some(n + 1 + m),
                    None => None,
                }
            } else {
                None
            }
        }
    }
}

/// Where the `j`-th type argument starts in `T, U, ... >`.
pub open spec fn argument_start(ts: Seq<Token>, j: int) -> int
    decreases j,
{
    if j <= 0 {
        0
    } else {
        let p = argument_start(ts, j - 1);
        p + type_len(ts.skip(p))->0 + 1
    }
}

/// How many type arguments `T, U, ... >` at the front of `ts` holds.
pub open spec fn arguments_count(ts: Seq<Token>) -> nat
    decreases ts.len(),
{
    match type_len(ts) {
        Some(n) => {
            if n < ts.len() && ts[n as int].kind@ == AtomView::TagClose {
                1
            } else if n < ts.len() && ts[n as int].kind@ == AtomView::Comma {
                1 + arguments_count(ts.skip(n as int + 1))
            } else {
                0
            }
        },
        None => 0,
    }
}

pub proof fn lemma_type_len_bound(ts: Seq<Token>)
    ensures
        type_len(ts) matches Some(n) ==> 1 <= n <= ts.len(),
    decreases ts.len(), 0int,
{
    if ts.len() > 1 && ts[0].kind@ is Word && ts[1].kind@ == AtomView::TagOpen {
        lemma_arguments_len_bound(ts.skip(2));
    }
}

pub proof fn lemma_arguments_len_bound(ts: Seq<Token>)
    ensures
        arguments_len(ts) matches Some(n) ==> 1 <= n <= ts.len(),
    decreases ts.len(), 1int,
{
    lemma_type_len_bound(ts);
    if let Some(n) = type_len(ts) {
        if n < ts.len() && ts[n as int].kind@ == AtomView::Comma {
            lemma_arguments_len_bound(ts.skip(n as int + 1));
        }
    }
}

/// How many tokens the literal at the front of `ts` takes: a run of strings, or
/// a number with an optional minus and an optional fraction.
pub open spec fn literal_len(ts: Seq<Token>) -> Option<nat> {
    let o: int = if ts.len() > 0 && ts[0].kind@ is Minus {
        1
    } else {
        0
    };
    if ts.len() > 0 && ts[0].kind@ is String {
        Some(run_len(ts, |t: Token| is_string(t)))
    } else if ts.len() > o && ts[o].kind@ is Number {
        if ts.len() > o + 2 && ts[o + 1].kind@ == AtomView::Dot && ts[o + 2].kind@ is Number {
            Some((o + 3) as nat)
        } else {
            Some((o + 1) as nat)
        }
    } else {
        None
    }
}

/// How many tokens `val name: Type = literal` takes at the front of `ts`.
pub open spec fn value_len(ts: Seq<Token>) -> Option<nat> {
    if ts.len() > 3 && is_word(ts[0], "val"@) && ts[1].kind@ is Word && ts[2].kind@
        == AtomView::Colon {
        match type_len(ts.skip(3)) {
            Some(n) => {
                if 3 + n < ts.len() && ts[3 + n as int].kind@ == AtomView::EqualSign {
                    match literal_len(ts.skip(4 + n as int)) {
                        Some(m) => Some(4 + n + m),
                        None => None,
                    }
                } else {
                    None
                }
            },
            None => None,
        }
    } else {
        None
    }
}

pub proof fn lemma_literal_len_bound(ts: Seq<Token>)
    ensures
        literal_len(ts) matches Some(n) ==> 1 <= n <= ts.len(),
{
    if ts.len() > 0 && ts[0].kind@ is String {
        lemma_run_len_bound(ts, |t: Token| is_string(t));
        assert(run_len(ts, |t: Token| is_string(t)) >= 1) by {
            reveal_with_fuel(run_len, 2);
        }
    }
}

/// How many tokens `T, U, ... >` takes at the front of `ts`, for type parameters.
pub open spec fn parameters_len(ts: Seq<Token>) -> Option<nat>
    decreases ts.len(),
{
    if ts.len() == 0 || !(ts[0].kind@ is Word) {
        None
    } else if ts.len() > 1 && ts[1].kind@ == AtomView::TagClose {
        Some(2)
    } else if ts.len() > 1 && ts[1].kind@ == AtomView::Comma {
        match parameters_len(ts.skip(2)) {
            Some(m) => Some(m + 2),
            None => None,
        }
    } else {
        None
    }
}

pub proof fn lemma_parameters_len_bound(ts: Seq<Token>)
    ensures
        parameters_len(ts) matches Some(n) ==> 2 <= n <= ts.len(),
    decreases ts.len(),
{
    if ts.len() > 1 && ts[0].kind@ is Word && ts[1].kind@ == AtomView::Comma {
        lemma_parameters_len_bound(ts.skip(2));
    }
}

/// How many tokens the name of a type being defined, with its type parameters,
/// takes at the front of `ts`.
pub open spec fn type_definition_len(ts: Seq<Token>) -> Option<nat> {
    if ts.len() == 0 || !(ts[0].kind@ is Word) {
        None
    } else if ts.len() > 1 && ts[1].kind@ == AtomView::TagOpen {
        match parameters_len(ts.skip(2)) {
            Some(m) => Some(m + 2),
            None => None,
        }
    } else {
        Some(1)
    }
}

/// How many tokens `alias Name<T, ...> = Type` takes at the front of `ts`.
pub open spec fn alias_len(ts: Seq<Token>) -> Option<nat> {
    if ts.len() > 0 && is_word(ts[0], "alias"@) {
        match type_definition_len(ts.skip(1)) {
            Some(n) => {
                if 1 + n < ts.len() && ts[1 + n as int].kind@ == AtomView::EqualSign {
                    match type_len(ts.skip(2 + n as int)) {
                        Some(m) => Some(2 + n + m),
                        None => None,
                    }
                } else {
                    None
                }
            },
            None => None,
        }
    } else {
        None
    }
}

/// How many tokens `Name, Name, ...` takes at the front of `ts`.
pub open spec fn names_len(ts: Seq<Token>) -> Option<nat>
    decreases ts.len(),
{
    if ts.len() == 0 || !(ts[0].kind@ is Word) {
        None
    } else if ts.len() > 1 && ts[1].kind@ == AtomView::Comma {
        match names_len(ts.skip(2)) {
            Some(m) => Some(m + 2),
            None => None,
        }
    } else {
        Some(1)
    }
}

/// How many tokens `from source use Name, ...` takes at the front of `ts`.
pub open spec fn import_len(ts: Seq<Token>) -> Option<nat> {
    if ts.len() > 2 && is_word(ts[0], "from"@) && ts[1].kind@ is Word && is_word(ts[2], "use"@) {
        match names_len(ts.skip(3)) {
            Some(m) => Some(m + 3),
            None => None,
        }
    } else {
        None
    }
}

/// How many tokens the field `name: Type`, with an optional `= literal`, takes
/// at the front of `ts`.
pub open spec fn field_len(ts: Seq<Token>) -> Option<nat> {
    if ts.len() > 1 && ts[0].kind@ is Word && ts[1].kind@ == AtomView::Colon {
        match type_len(ts.skip(2)) {
            Some(n) => {
                if 2 + n < ts.len() && ts[2 + n as int].kind@ == AtomView::EqualSign {
                    match literal_len(ts.skip(3 + n as int)) {
                        Some(m) => Some(3 + n + m),
                        None => None,
                    }
                } else {
                    Some(2 + n)
                }
            },
            None => None,
        }
    } else {
        None
    }
}

/// How many tokens the variant `Name`, with an optional `-> Type`, takes at the front of `ts`.
pub open spec fn variant_len(ts: Seq<Token>) -> Option<nat> {
    if ts.len() == 0 || !(ts[0].kind@ is Word) {
        None
    } else if ts.len() > 1 && ts[1].kind@ == AtomView::Arrow {
        match type_len(ts.skip(2)) {
            Some(n) => Some(2 + n),
            None => None,
        }
    } else {
        Some(1)
    }
}

pub proof fn lemma_field_len_bound(ts: Seq<Token>)
    ensures
        field_len(ts) matches Some(n) ==> 2 <= n <= ts.len(),
{
    if ts.len() > 1 {
        lemma_type_len_bound(ts.skip(2));
        if let Some(n) = type_len(ts.skip(2)) {
            if 2 + n < ts.len() {
                lemma_literal_len_bound(ts.skip(3 + n as int));
            }
        }
    }
}

pub proof fn lemma_variant_len_bound(ts: Seq<Token>)
    ensures
        variant_len(ts) matches Some(n) ==> 1 <= n <= ts.len(),
{
    if ts.len() > 1 {
        lemma_type_len_bound(ts.skip(2));
    }
}

/// How many tokens undecorated fields and the closing `}` take at the front of `ts`.
pub open spec fn fields_len(ts: Seq<Token>) -> Option<nat>
    decreases ts.len(),
{
    if ts.len() > 0 && ts[0].kind@ == AtomView::BraceClose {
        Some(1)
    } else {
        match field_len(ts) {
            Some(n) => {
                if 0 < n <= ts.len() {
                    match fields_len(ts.skip(n as int)) {
                        Some(m) => Some(n + m),
                        None => None,
                    }
                } else {
                    None
                }
            },
            None => None,
        }
    }
}

/// How many tokens undecorated variants and the closing `}` take at the front of `ts`.
pub open spec fn variants_len(ts: Seq<Token>) -> Option<nat>
    decreases ts.len(),
{
    if ts.len() > 0 && ts[0].kind@ == AtomView::BraceClose {
        Some(1)
    } else {
        match variant_len(ts) {
            Some(n) => {
                if 0 < n <= ts.len() {
                    match variants_len(ts.skip(n as int)) {
                        Some(m) => Some(n + m),
                        None => None,
                    }
                } else {
                    None
                }
            },
            None => None,
        }
    }
}

/// Where the `j`-th field starts in a body that `fields_len` accepts.
pub open spec fn field_start(ts: Seq<Token>, j: int) -> int
    decreases j,
{
    if j <= 0 {
        0
    } else {
        let p = field_start(ts, j - 1);
        p + field_len(ts.skip(p))->0
    }
}

/// How many fields a body that `fields_len` accepts holds.
pub open spec fn fields_count(ts: Seq<Token>) -> nat
    decreases ts.len(),
{
    if ts.len() > 0 && ts[0].kind@ == AtomView::BraceClose {
        0
    } else {
        match field_len(ts) {
            Some(n) => {
                if 0 < n <= ts.len() {
                    1 + fields_count(ts.skip(n as int))
                } else {
                    0
                }
            },
            None => 0,
        }
    }
}

/// Where the `j`-th variant starts in a body that `variants_len` accepts.
pub open spec fn variant_start(ts: Seq<Token>, j: int) -> int
    decreases j,
{
    if j <= 0 {
        0
    } else {
        let p = variant_start(ts, j - 1);
        p + variant_len(ts.skip(p))->0
    }
}

/// How many variants a body that `variants_len` accepts holds.
pub open spec fn variants_count(ts: Seq<Token>) -> nat
    decreases ts.len(),
{
    if ts.len() > 0 && ts[0].kind@ == AtomView::BraceClose {
        0
    } else {
        match variant_len(ts) {
            Some(n) => {
                if 0 < n <= ts.len() {
                    1 + variants_count(ts.skip(n as int))
                } else {
                    0
                }
            },
            None => 0,
        }
    }
}

/// How many tokens `struct Name<T, ...> { fields }` takes at the front of `ts`,
/// where no field carries a comment or an annotation.
pub open spec fn struct_len(ts: Seq<Token>) -> Option<nat> {
    if ts.len() > 0 && is_word(ts[0], "struct"@) {
        match type_definition_len(ts.skip(1)) {
            Some(n) => {
                if 1 + n < ts.len() && ts[1 + n as int].kind@ == AtomView::BraceOpen {
                    match fields_len(ts.skip(2 + n as int)) {
                        Some(m) => Some(2 + n + m),
                        None => None,
                    }
                } else {
                    None
                }
            },
            None => None,
        }
    } else {
        None
    }
}

/// How many tokens `enum Name { variants }` takes at the front of `ts`, where no
/// variant carries a comment or an annotation.
pub open spec fn enum_len(ts: Seq<Token>) -> Option<nat> {
    if ts.len() > 2 && is_word(ts[0], "enum"@) && ts[1].kind@ is Word && ts[2].kind@
        == AtomView::BraceOpen {
        match variants_len(ts.skip(3)) {
            Some(m) => Some(3 + m),
            None => None,
        }
    } else {
        None
    }
}

/// How many tokens the definition at the front of `ts` takes, where its members
/// carry no comment or annotation and it carries none, or, for a struct, one
/// well-formed `@deprecated(...)`.
pub open spec fn definition_len(ts: Seq<Token>) -> Option<nat> {
    if struct_len(ts) is Some {
        struct_len(ts)
    } else if enum_len(ts) is Some {
        enum_len(ts)
    } else if alias_len(ts) is Some {
        alias_len(ts)
    } else if value_len(ts) is Some {
        value_len(ts)
    } else if lone_deprecated(ts) && struct_len(ts.skip(deprecated_len(ts))) is Some {
        Some((deprecated_len(ts) + struct_len(ts.skip(deprecated_len(ts)))->0) as nat)
    } else {
        None
    }
}

pub proof fn lemma_definition_len_bound(ts: Seq<Token>)
    ensures
        definition_len(ts) matches Some(n) ==> 1 <= n <= ts.len(),
    decreases ts.len(),
{
    if definition_len(ts) is Some && struct_len(ts) is None && enum_len(ts) is None && alias_len(ts)
        is None && value_len(ts) is None {
        let m = deprecated_len(ts);
        lemma_definition_len_bound(ts.skip(m));
    }
    if let Some(n) = definition_len(ts) {
        if struct_len(ts) is Some {
            let d = type_definition_len(ts.skip(1))->0 as int;
            let b = ts.skip(1);
            if b.len() > 1 && b[1].kind@ == AtomView::TagOpen {
                lemma_parameters_len_bound(b.skip(2));
            }
            lemma_fields_len_bound(ts.skip(2 + d));
        } else if enum_len(ts) is Some {
            lemma_variants_len_bound(ts.skip(3));
        } else if alias_len(ts) is Some {
            let d = type_definition_len(ts.skip(1))->0 as int;
            let b = ts.skip(1);
            if b.len() > 1 && b[1].kind@ == AtomView::TagOpen {
                lemma_parameters_len_bound(b.skip(2));
            }
            lemma_type_len_bound(ts.skip(2 + d));
        } else {
            let t = type_len(ts.skip(3))->0 as int;
            lemma_type_len_bound(ts.skip(3));
            lemma_literal_len_bound(ts.skip(4 + t));
        }
    }
}

pub proof fn lemma_fields_len_bound(ts: Seq<Token>)
    ensures
        fields_len(ts) matches Some(n) ==> 1 <= n <= ts.len(),
    decreases ts.len(),
{
    if !(ts.len() > 0 && ts[0].kind@ == AtomView::BraceClose) {
        if let Some(n) = field_len(ts) {
            if 0 < n <= ts.len() {
                lemma_fields_len_bound(ts.skip(n as int));
            }
        }
    }
}

pub proof fn lemma_variants_len_bound(ts: Seq<Token>)
    ensures
        variants_len(ts) matches Some(n) ==> 1 <= n <= ts.len(),
    decreases ts.len(),
{
    if !(ts.len() > 0 && ts[0].kind@ == AtomView::BraceClose) {
        if let Some(n) = variant_len(ts) {
            if 0 < n <= ts.len() {
                lemma_variants_len_bound(ts.skip(n as int));
            }
        }
    }
}

/// The imports at the front of `ts`: how many tokens they take, and how many there are.
pub open spec fn imports_shape(ts: Seq<Token>) -> Option<(nat, nat)>
    decreases ts.len(),
{
    if ts.len() > 0 && is_word(ts[0], "from"@) {
        match import_len(ts) {
            Some(n) => {
                if 0 < n <= ts.len() {
                    match imports_shape(ts.skip(n as int)) {
                        Some((c, k)) => Some((c + n, k + 1)),
                        None => None,
                    }
                } else {
                    None
                }
            },
            None => None,
        }
    } else {
        Some((0, 0))
    }
}

/// How many tokens the imports at the front of `ts` take.
pub open spec fn imports_taken(ts: Seq<Token>) -> nat {
    match imports_shape(ts) {
        Some((c, _)) => c,
        None => 0,
    }
}

/// How many imports stand at the front of `ts`.
pub open spec fn imports_count(ts: Seq<Token>) -> nat {
    match imports_shape(ts) {
        Some((_, k)) => k,
        None => 0,
    }
}

/// How many definitions `ts` holds, where it is nothing but undecorated definitions.
pub open spec fn definitions_shape(ts: Seq<Token>) -> Option<nat>
    decreases ts.len(),
{
    if ts.len() == 0 {
        Some(0)
    } else {
        match definition_len(ts) {
            Some(n) => {
                if 0 < n <= ts.len() {
                    match definitions_shape(ts.skip(n as int)) {
                        Some(k) => Some(k + 1),
                        None => None,
                    }
                } else {
                    None
                }
            },
            None => None,
        }
    }
}

/// Where the `i`-th definition starts in a sequence that `definitions_shape` accepts.
pub open spec fn definition_start(ts: Seq<Token>, i: int) -> int
    decreases i,
{
    if i <= 0 {
        0
    } else {
        let p = definition_start(ts, i - 1);
        p + definition_len(ts.skip(p))->0
    }
}

/// The tokens of a file after its comments, package statement and imports.
pub open spec fn definitions_part(ts: Seq<Token>) -> Seq<Token> {
    let k = run_len(ts, |t: Token| is_comment(t)) as int;
    ts.skip(k + 2 + imports_taken(ts.skip(k + 2)))
}

/// A whole file of comments, a package statement, imports and undecorated
/// definitions: how many imports and definitions it has.
pub open spec fn file_shape(ts: Seq<Token>) -> Option<(nat, nat)> {
    let k = run_len(ts, |t: Token| is_comment(t)) as int;
    if package_follows(ts) {
        match imports_shape(ts.skip(k + 2)) {
            Some((c, i)) => {
                if c <= ts.len() - (k + 2) {
                    match definitions_shape(ts.skip(k + 2 + c)) {
                        Some(d) => Some((i, d)),
                        None => None,
                    }
                } else {
                    None
                }
            },
            None => None,
        }
    } else {
        None
    }
}

/// The digits that a number token carries.
pub open spec fn digits_of(t: Token) -> Seq<char> {
    match t.kind@ {
        AtomView::Number(d) => d,
        _ => Seq::empty(),
    }
}

/// `major.minor.patch` at the front of `ts`.
pub open spec fn version_shape(ts: Seq<Token>) -> bool {
    &&& ts.len() >= 5
    &&& ts[0].kind@ is Number
    &&& ts[1].kind@ == AtomView::Dot
    &&& ts[2].kind@ is Number
    &&& ts[3].kind@ == AtomView::Dot
    &&& ts[4].kind@ is Number
}

/// The numbers of the version at the front of `ts`.
pub open spec fn version_of(ts: Seq<Token>) -> (u64, u64, u64) {
    (version_part(digits_of(ts[0])), version_part(digits_of(ts[2])), version_part(digits_of(ts[4])))
}

/// Each number of the version at the front of `ts` fits into 64 bits.
pub open spec fn version_fits(ts: Seq<Token>) -> bool {
    &&& decimal_value(digits_of(ts[0])) <= u64::MAX
    &&& decimal_value(digits_of(ts[2])) <= u64::MAX
    &&& decimal_value(digits_of(ts[4])) <= u64::MAX
}

/// The report owed for a version number token that does not fit into 64 bits.
pub open spec fn too_big_report(t: Token) -> Seq<crate::error::ErrorView> {
    if decimal_value(digits_of(t)) > u64::MAX {
        seq![
            crate::error::error_view("version_too_big", crate::error::Level::Error, t.span),
        ]
    } else {
        Seq::empty()
    }
}

/// The reports owed for the version at the front of `ts`, number by number.
pub open spec fn too_big_reports(ts: Seq<Token>) -> Seq<crate::error::ErrorView> {
    too_big_report(ts[0]) + too_big_report(ts[2]) + too_big_report(ts[4])
}

/// `@added(major.minor.patch)` at the front of `ts`.
pub open spec fn added_shape(ts: Seq<Token>) -> bool {
    &&& ts.len() >= 9
    &&& ts[0].kind@ == AtomView::At
    &&& is_word(ts[1], "added"@)
    &&& ts[2].kind@ == AtomView::ParenOpen
    &&& version_shape(ts.skip(3))
    &&& ts[8].kind@ == AtomView::ParenClose
}

/// How many tokens a well-formed `@deprecated(...)` at the front of `ts` takes.
pub open spec fn deprecated_len(ts: Seq<Token>) -> int {
    10 + run_len(ts.skip(9), |t: Token| is_string(t)) as int
}

/// A single well-formed `@deprecated(...)` whose numbers fit, followed by a token
/// that neither a comment nor an annotation is.
pub open spec fn lone_deprecated(ts: Seq<Token>) -> bool {
    let m = deprecated_len(ts);
    &&& deprecated_shape(ts)
    &&& version_fits(ts.skip(3))
    &&& ts.len() > m
    &&& !is_comment(ts[m])
    &&& ts[m].kind@ != AtomView::At
}

/// `@deprecated(major.minor.patch, "reason" ...)` at the front of `ts`.
pub open spec fn deprecated_shape(ts: Seq<Token>) -> bool {
    let n = run_len(ts.skip(9), |t: Token| is_string(t)) as int;
    &&& ts.len() >= 9
    &&& ts[0].kind@ == AtomView::At
    &&& is_word(ts[1], "deprecated"@)
    &&& ts[2].kind@ == AtomView::ParenOpen
    &&& version_shape(ts.skip(3))
    &&& ts[8].kind@ == AtomView::Comma
    &&& n > 0
    &&& ts.len() > 9 + n
    &&& ts[9 + n].kind@ == AtomView::ParenClose
}

/// Two token sequences whose kinds agree, token by token.
pub open spec fn same_kinds(a: Seq<Token>, b: Seq<Token>) -> bool {
    &&& a.len() == b.len()
    &&& forall|i: int| 0 <= i < a.len() ==> (#[trigger] a[i]).kind@ == b[i].kind@
}

pub proof fn lemma_same_kinds_of_views(a: Seq<Token>, b: Seq<Token>)
    requires
        crate::tokens::token_views(a) == crate::tokens::token_views(b),
    ensures
        same_kinds(a, b),
{
    assert(a.len() == crate::tokens::token_views(a).len());
    assert forall|i: int| 0 <= i < a.len() implies (#[trigger] a[i]).kind@ == b[i].kind@ by {
        assert(crate::tokens::token_views(a)[i] == a[i]@);
        assert(crate::tokens::token_views(b)[i] == b[i]@);
    }
}

pub proof fn lemma_same_kinds_skip(a: Seq<Token>, b: Seq<Token>, n: int)
    requires
        same_kinds(a, b),
        0 <= n <= a.len(),
    ensures
        same_kinds(a.skip(n), b.skip(n)),
{
    assert forall|i: int| 0 <= i < a.skip(n).len() implies (#[trigger] a.skip(n)[i]).kind@ == b.skip(
        n,
    )[i].kind@ by {
        assert(a.skip(n)[i] == a[n + i]);
        assert(b.skip(n)[i] == b[n + i]);
    }
}

pub proof fn lemma_run_len_same(a: Seq<Token>, b: Seq<Token>, p: spec_fn(Token) -> bool)
    requires
        same_kinds(a, b),
        forall|t: Token, u: Token| t.kind@ == u.kind@ ==> p(t) == p(u),
    ensures
        run_len(a, p) == run_len(b, p),
    decreases a.len(),
{
    if a.len() > 0 {
        assert(a[0].kind@ == b[0].kind@);
        lemma_same_kinds_skip(a, b, 1);
        assert(a.skip(1) =~= a.drop_first());
        assert(b.skip(1) =~= b.drop_first());
        lemma_run_len_same(a.drop_first(), b.drop_first(), p);
    }
}

pub proof fn lemma_type_len_same(a: Seq<Token>, b: Seq<Token>)
    requires
        same_kinds(a, b),
    ensures
        type_len(a) == type_len(b),
    decreases a.len(), 0int,
{
    if a.len() > 1 {
        assert(a[0].kind@ == b[0].kind@ && a[1].kind@ == b[1].kind@);
        lemma_same_kinds_skip(a, b, 2);
        lemma_arguments_len_same(a.skip(2), b.skip(2));
    } else if a.len() > 0 {
        assert(a[0].kind@ == b[0].kind@);
    }
}

proof fn lemma_arguments_len_same(a: Seq<Token>, b: Seq<Token>)
    requires
        same_kinds(a, b),
    ensures
        arguments_len(a) == arguments_len(b),
    decreases a.len(), 1int,
{
    lemma_type_len_same(a, b);
    if let Some(n) = type_len(a) {
        if n < a.len() {
            assert(a[n as int].kind@ == b[n as int].kind@);
            lemma_same_kinds_skip(a, b, n as int + 1);
            lemma_arguments_len_same(a.skip(n as int + 1), b.skip(n as int + 1));
        }
    }
}

pub proof fn lemma_literal_len_same(a: Seq<Token>, b: Seq<Token>)
    requires
        same_kinds(a, b),
    ensures
        literal_len(a) == literal_len(b),
{
    lemma_run_len_same(a, b, |t: Token| is_string(t));
    if a.len() > 0 {
        assert(a[0].kind@ == b[0].kind@);
    }
    if a.len() > 1 {
        assert(a[1].kind@ == b[1].kind@);
    }
    if a.len() > 2 {
        assert(a[2].kind@ == b[2].kind@);
    }
    if a.len() > 3 {
        assert(a[3].kind@ == b[3].kind@);
    }
}

proof fn lemma_parameters_len_same(a: Seq<Token>, b: Seq<Token>)
    requires
        same_kinds(a, b),
    ensures
        parameters_len(a) == parameters_len(b),
    decreases a.len(),
{
    if a.len() > 1 {
        assert(a[0].kind@ == b[0].kind@ && a[1].kind@ == b[1].kind@);
        lemma_same_kinds_skip(a, b, 2);
        lemma_parameters_len_same(a.skip(2), b.skip(2));
    } else if a.len() > 0 {
        assert(a[0].kind@ == b[0].kind@);
    }
}

proof fn lemma_names_len_same(a: Seq<Token>, b: Seq<Token>)
    requires
        same_kinds(a, b),
    ensures
        names_len(a) == names_len(b),
    decreases a.len(),
{
    if a.len() > 1 {
        assert(a[0].kind@ == b[0].kind@ && a[1].kind@ == b[1].kind@);
        lemma_same_kinds_skip(a, b, 2);
        lemma_names_len_same(a.skip(2), b.skip(2));
    } else if a.len() > 0 {
        assert(a[0].kind@ == b[0].kind@);
    }
}

pub proof fn lemma_type_definition_len_same(a: Seq<Token>, b: Seq<Token>)
    requires
        same_kinds(a, b),
    ensures
        type_definition_len(a) == type_definition_len(b),
{
    if a.len() > 1 {
        assert(a[0].kind@ == b[0].kind@ && a[1].kind@ == b[1].kind@);
        lemma_same_kinds_skip(a, b, 2);
        lemma_parameters_len_same(a.skip(2), b.skip(2));
    } else if a.len() > 0 {
        assert(a[0].kind@ == b[0].kind@);
    }
}

pub proof fn lemma_field_len_same(a: Seq<Token>, b: Seq<Token>)
    requires
        same_kinds(a, b),
    ensures
        field_len(a) == field_len(b),
{
    if a.len() > 1 {
        assert(a[0].kind@ == b[0].kind@ && a[1].kind@ == b[1].kind@);
        lemma_same_kinds_skip(a, b, 2);
        lemma_type_len_same(a.skip(2), b.skip(2));
        if let Some(n) = type_len(a.skip(2)) {
            if 2 + n < a.len() {
                assert(a[2 + n as int].kind@ == b[2 + n as int].kind@);
                lemma_same_kinds_skip(a, b, 3 + n as int);
                lemma_literal_len_same(a.skip(3 + n as int), b.skip(3 + n as int));
            }
        }
    }
}

pub proof fn lemma_variant_len_same(a: Seq<Token>, b: Seq<Token>)
    requires
        same_kinds(a, b),
    ensures
        variant_len(a) == variant_len(b),
{
    if a.len() > 1 {
        assert(a[0].kind@ == b[0].kind@ && a[1].kind@ == b[1].kind@);
        lemma_same_kinds_skip(a, b, 2);
        lemma_type_len_same(a.skip(2), b.skip(2));
    } else if a.len() > 0 {
        assert(a[0].kind@ == b[0].kind@);
    }
}

pub proof fn lemma_fields_len_same(a: Seq<Token>, b: Seq<Token>)
    requires
        same_kinds(a, b),
    ensures
        fields_len(a) == fields_len(b),
    decreases a.len(),
{
    if a.len() > 0 {
        assert(a[0].kind@ == b[0].kind@);
    }
    lemma_field_len_same(a, b);
    if let Some(n) = field_len(a) {
        if 0 < n <= a.len() {
            lemma_same_kinds_skip(a, b, n as int);
            lemma_fields_len_same(a.skip(n as int), b.skip(n as int));
        }
    }
}

pub proof fn lemma_variants_len_same(a: Seq<Token>, b: Seq<Token>)
    requires
        same_kinds(a, b),
    ensures
        variants_len(a) == variants_len(b),
    decreases a.len(),
{
    if a.len() > 0 {
        assert(a[0].kind@ == b[0].kind@);
    }
    lemma_variant_len_same(a, b);
    if let Some(n) = variant_len(a) {
        if 0 < n <= a.len() {
            lemma_same_kinds_skip(a, b, n as int);
            lemma_variants_len_same(a.skip(n as int), b.skip(n as int));
        }
    }
}

pub proof fn lemma_definition_len_same(a: Seq<Token>, b: Seq<Token>)
    requires
        same_kinds(a, b),
    ensures
        definition_len(a) == definition_len(b),
        struct_len(a) == struct_len(b),
        enum_len(a) == enum_len(b),
        alias_len(a) == alias_len(b),
        value_len(a) == value_len(b),
    decreases a.len(),
{
    if a.len() > 9 {
        lemma_same_kinds_skip(a, b, 9);
        lemma_run_len_same(a.skip(9), b.skip(9), |t: Token| is_string(t));
        lemma_same_kinds_skip(a, b, 3);
        let v = a.skip(3);
        assert(v[0].kind@ == b.skip(3)[0].kind@ && v[1].kind@ == b.skip(3)[1].kind@ && v[2].kind@
            == b.skip(3)[2].kind@ && v[3].kind@ == b.skip(3)[3].kind@ && v[4].kind@ == b.skip(
            3,
        )[4].kind@);
        assert(a[0].kind@ == b[0].kind@ && a[1].kind@ == b[1].kind@ && a[2].kind@ == b[2].kind@
            && a[8].kind@ == b[8].kind@);
        let m = deprecated_len(a);
        lemma_run_len_bound(a.skip(9), |t: Token| is_string(t));
        if m < a.len() {
            assert(a[m].kind@ == b[m].kind@);
            lemma_same_kinds_skip(a, b, m);
            lemma_definition_len_same(a.skip(m), b.skip(m));
        }
        let n = m - 10;
        if 9 + n < a.len() {
            assert(a[9 + n].kind@ == b[9 + n].kind@);
        }
    }
    if a.len() > 0 {
        assert(a[0].kind@ == b[0].kind@);
        lemma_same_kinds_skip(a, b, 1);
        lemma_type_definition_len_same(a.skip(1), b.skip(1));
        if let Some(n) = type_definition_len(a.skip(1)) {
            if 1 + n < a.len() {
                assert(a[1 + n as int].kind@ == b[1 + n as int].kind@);
                lemma_same_kinds_skip(a, b, 2 + n as int);
                lemma_fields_len_same(a.skip(2 + n as int), b.skip(2 + n as int));
                lemma_type_len_same(a.skip(2 + n as int), b.skip(2 + n as int));
            }
        }
    }
    if a.len() > 2 {
        assert(a[1].kind@ == b[1].kind@ && a[2].kind@ == b[2].kind@);
        lemma_same_kinds_skip(a, b, 3);
        lemma_variants_len_same(a.skip(3), b.skip(3));
        lemma_type_len_same(a.skip(3), b.skip(3));
        if let Some(n) = type_len(a.skip(3)) {
            if 3 + n < a.len() {
                assert(a[3 + n as int].kind@ == b[3 + n as int].kind@);
                lemma_same_kinds_skip(a, b, 4 + n as int);
                lemma_literal_len_same(a.skip(4 + n as int), b.skip(4 + n as int));
            }
        }
    }
}

pub proof fn lemma_imports_shape_same(a: Seq<Token>, b: Seq<Token>)
    requires
        same_kinds(a, b),
    ensures
        imports_shape(a) == imports_shape(b),
    decreases a.len(),
{
    if a.len() > 2 {
        assert(a[0].kind@ == b[0].kind@ && a[1].kind@ == b[1].kind@ && a[2].kind@ == b[2].kind@);
        lemma_same_kinds_skip(a, b, 3);
        lemma_names_len_same(a.skip(3), b.skip(3));
        if let Some(n) = import_len(a) {
            if 0 < n <= a.len() {
                lemma_same_kinds_skip(a, b, n as int);
                lemma_imports_shape_same(a.skip(n as int), b.skip(n as int));
            }
        }
    } else if a.len() > 0 {
        assert(a[0].kind@ == b[0].kind@);
    }
}

pub proof fn lemma_definitions_shape_same(a: Seq<Token>, b: Seq<Token>)
    requires
        same_kinds(a, b),
    ensures
        definitions_shape(a) == definitions_shape(b),
    decreases a.len(),
{
    lemma_definition_len_same(a, b);
    if let Some(n) = definition_len(a) {
        if 0 < n <= a.len() {
            lemma_same_kinds_skip(a, b, n as int);
            lemma_definitions_shape_same(a.skip(n as int), b.skip(n as int));
        }
    }
}

/// Whether a file is well formed depends on its token views alone.
pub proof fn lemma_file_shape_same(a: Seq<Token>, b: Seq<Token>)
    requires
        crate::tokens::token_views(a) == crate::tokens::token_views(b),
    ensures
        file_shape(a) == file_shape(b),
        package_follows(a) == package_follows(b),
{
    lemma_same_kinds_of_views(a, b);
    lemma_run_len_same(a, b, |t: Token| is_comment(t));
    let k = run_len(a, |t: Token| is_comment(t)) as int;
    lemma_run_len_bound(a, |t: Token| is_comment(t));
    if a.len() > k + 1 {
        assert(a[k].kind@ == b[k].kind@ && a[k + 1].kind@ == b[k + 1].kind@);
    }
    if k + 2 <= a.len() {
        lemma_same_kinds_skip(a, b, k + 2);
        lemma_imports_shape_same(a.skip(k + 2), b.skip(k + 2));
        if let Some((c, i)) = imports_shape(a.skip(k + 2)) {
            if c <= a.len() - (k + 2) {
                lemma_same_kinds_skip(a, b, k + 2 + c);
                lemma_definitions_shape_same(a.skip(k + 2 + c), b.skip(k + 2 + c));
            }
        }
    }
}

} // verus!
