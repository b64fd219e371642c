//! The first stage: source characters become positioned atoms. `lex` states
//! exactly which atoms and which diagnostics a source text gives.

use crate::cursor::CursorParser;
use crate::error::{error_view, views, ErrorView, Level, ParseError};
use crate::numbers::{all_digits, Natural};
use crate::utils::{
    byte_len, is_decimal_digit, is_digit, is_whitespace, is_word_char, lemma_byte_len_encoding,
    lemma_offset_monotonic, lemma_offset_step, offset, utf8_width, whitespace, is_word, IntoString,
    Span,
};
use vstd::prelude::*;
use vstd::std_specs::iter::IteratorSpec;

verus! {

/// The smallest unit above characters: punctuation, a run of digits, a string,
/// a comment or a word.
#[derive(Debug, Clone, PartialEq, Eq)]
pub enum Atom {
    /// `{`
    BraceOpen,
    /// `}`
    BraceClose,
    /// `<`
    TagOpen,
    /// `>`
    TagClose,
    /// `(`
    ParenOpen,
    /// `)`
    ParenClose,
    /// `[`
    BracketOpen,
    /// `]`
    BracketClose,
    /// `:`
    Colon,
    /// `=`
    EqualSign,
    /// `.`
    Dot,
    /// `,`
    Comma,
    /// `@`
    At,
    /// `->`
    Arrow,
    /// `+`, only used in versions
    Plus,
    /// `-`, only used before a number
    Minus,
    /// A run of decimal digits, e.g. `5` or `141847320417234732`.
    Number(Natural),
    /// A string with its escapes resolved.
    String(String),
    /// The text of a line comment after `// `.
    Comment(String),
    /// A word: a keyword or an identifier.
    Word(String),
}

pub enum AtomView {
    BraceOpen,
    BraceClose,
    TagOpen,
    TagClose,
    ParenOpen,
    ParenClose,
    BracketOpen,
    BracketClose,
    Colon,
    EqualSign,
    Dot,
    Comma,
    At,
    Arrow,
    Plus,
    Minus,
    /// The digits as written.
    Number(Seq<char>),
    String(Seq<char>),
    Comment(Seq<char>),
    Word(Seq<char>),
}

impl View for Atom {
    type V = AtomView;

    open spec fn view(&self) -> AtomView {
        match self {
            Atom::BraceOpen => AtomView::BraceOpen,
            Atom::BraceClose => AtomView::BraceClose,
            Atom::TagOpen => AtomView::TagOpen,
            Atom::TagClose => AtomView::TagClose,
            Atom::ParenOpen => AtomView::ParenOpen,
            Atom::ParenClose => AtomView::ParenClose,
            Atom::BracketOpen => AtomView::BracketOpen,
            Atom::BracketClose => AtomView::BracketClose,
            Atom::Colon => AtomView::Colon,
            Atom::EqualSign => AtomView::EqualSign,
            Atom::Dot => AtomView::Dot,
            Atom::Comma => AtomView::Comma,
            Atom::At => AtomView::At,
            Atom::Arrow => AtomView::Arrow,
            Atom::Plus => AtomView::Plus,
            Atom::Minus => AtomView::Minus,
            Atom::Number(n) => AtomView::Number(n.text()),
            Atom::String(s) => AtomView::String(s@),
            Atom::Comment(s) => AtomView::Comment(s@),
            Atom::Word(s) => AtomView::Word(s@),
        }
    }
}

/// A value together with the bytes of the source that it stands for.
#[derive(Debug, Clone, PartialEq, Eq)]
pub struct Positioned<T> {
    pub data: T,
    pub position: Span,
}

impl View for Positioned<Atom> {
    type V = (AtomView, Span);

    open spec fn view(&self) -> (AtomView, Span) {
        (self.data@, self.position)
    }
}

pub open spec fn atom_views(atoms: Seq<Positioned<Atom>>) -> Seq<(AtomView, Span)> {
    atoms.map_values(|a: Positioned<Atom>| a@)
}

/// Where the run of characters that satisfy `p` from index `j` on ends.
pub open spec fn run_end(cs: Seq<char>, j: int, p: spec_fn(char) -> bool) -> int
    decreases cs.len() - j,
{
    if j >= cs.len() || !p(cs[j]) {
        j
    } else {
        run_end(cs, j + 1, p)
    }
}

pub proof fn lemma_run_end(cs: Seq<char>, j: int, p: spec_fn(char) -> bool)
    requires
        0 <= j <= cs.len(),
    ensures
        j <= run_end(cs, j, p) <= cs.len(),
        forall|i: int| j <= i < run_end(cs, j, p) ==> p(#[trigger] cs[i]),
        run_end(cs, j, p) < cs.len() ==> !p(cs[run_end(cs, j, p)]),
    decreases cs.len() - j,
{
    if j < cs.len() && p(cs[j]) {
        lemma_run_end(cs, j + 1, p);
    }
}

/// A run that no satisfying character continues is the run that `run_end` gives.
pub proof fn lemma_run_end_unique(cs: Seq<char>, j: int, k: int, p: spec_fn(char) -> bool)
    requires
        0 <= j <= k <= cs.len(),
        forall|i: int| j <= i < k ==> p(#[trigger] cs[i]),
        k < cs.len() ==> !p(cs[k]),
    ensures
        run_end(cs, j, p) == k,
    decreases k - j,
{
    if j < k {
        lemma_run_end_unique(cs, j + 1, k, p);
    }
}

/// What one step of the lexer produces at a position, what it reports, and where it stops.
pub struct Scan {
    pub atom: Option<AtomView>,
    pub errors: Seq<ErrorView>,
    pub next: int,
}

pub open spec fn point(p: int) -> Span {
    Span { start: p as usize, end: p as usize }
}

pub open spec fn span_of(start: int, end: int) -> Span {
    Span { start: start as usize, end: end as usize }
}

pub open spec fn punctuation(c: char) -> Option<AtomView> {
    if c == '{' {
        Some(AtomView::BraceOpen)
    } else if c == '}' {
        Some(AtomView::BraceClose)
    } else if c == '<' {
        Some(AtomView::TagOpen)
    } else if c == '>' {
        Some(AtomView::TagClose)
    } else if c == '(' {
        Some(AtomView::ParenOpen)
    } else if c == ')' {
        Some(AtomView::ParenClose)
    } else if c == '[' {
        Some(AtomView::BracketOpen)
    } else if c == ']' {
        Some(AtomView::BracketClose)
    } else if c == ':' {
        Some(AtomView::Colon)
    } else if c == '=' {
        Some(AtomView::EqualSign)
    } else if c == '.' {
        Some(AtomView::Dot)
    } else if c == ',' {
        Some(AtomView::Comma)
    } else if c == '@' {
        Some(AtomView::At)
    } else if c == '+' {
        Some(AtomView::Plus)
    } else {
        None
    }
}

/// Where a string is, character by character: after a backslash, skipping the
/// white space that follows a line break, or neither.
#[derive(Clone, Copy, PartialEq, Eq, Structural)]
pub enum StringMode {
    Plain,
    Escaped,
    Skipping,
}

/// Reads the rest of a string whose opening quote is at `quote`, from index `j`
/// on, with `text` read and `errors` reported so far.
pub open spec fn scan_string(
    cs: Seq<char>,
    quote: int,
    j: int,
    mode: StringMode,
    text: Seq<char>,
    errors: Seq<ErrorView>,
) -> Scan
    decreases cs.len() - j, if mode == StringMode::Skipping {
        1int
    } else {
        0int
    },
{
    if j >= cs.len() {
        Scan {
            atom: None,
            errors: errors.push(
                error_view(
                    "unterminated_string",
                    Level::Fatal,
                    span_of(offset(cs, quote) as int, offset(cs, cs.len() as int) as int),
                ),
            ),
            next: cs.len() as int,
        }
    } else {
        let c = cs[j];
        match mode {
            StringMode::Skipping => {
                if is_whitespace(c) {
                    scan_string(cs, quote, j + 1, StringMode::Skipping, text, errors)
                } else {
                    scan_string(cs, quote, j, StringMode::Plain, text, errors)
                }
            },
            StringMode::Plain => {
                if c == '\\' {
                    scan_string(cs, quote, j + 1, StringMode::Escaped, text, errors)
                } else if c == '"' {
                    Scan { atom: Some(AtomView::String(text)), errors, next: j + 1 }
                } else if c == '\n' {
                    scan_string(
                        cs,
                        quote,
                        j + 1,
                        StringMode::Skipping,
                        text,
                        errors.push(
                            error_view("newline_in_string", Level::Error, point(offset(cs, j) as int)),
                        ),
                    )
                } else {
                    scan_string(cs, quote, j + 1, StringMode::Plain, text.push(c), errors)
                }
            },
            StringMode::Escaped => {
                if c == '\\' || c == '"' {
                    scan_string(cs, quote, j + 1, StringMode::Plain, text.push(c), errors)
                } else if c == 'n' {
                    scan_string(cs, quote, j + 1, StringMode::Plain, text.push('\n'), errors)
                } else if c == '\n' {
                    scan_string(
                        cs,
                        quote,
                        j + 1,
                        StringMode::Skipping,
                        text,
                        errors.push(
                            error_view("newline_in_string", Level::Error, point(offset(cs, j) as int)),
                        ),
                    )
                } else {
                    scan_string(
                        cs,
                        quote,
                        j + 1,
                        StringMode::Plain,
                        text.push(c),
                        errors.push(
                            error_view(
                                "invalid_escaping_in_string",
                                Level::Error,
                                span_of(offset(cs, j) - 1, offset(cs, j) as int),
                            ),
                        ),
                    )
                }
            },
        }
    }
}

pub proof fn lemma_scan_string_next(
    cs: Seq<char>,
    quote: int,
    j: int,
    mode: StringMode,
    text: Seq<char>,
    errors: Seq<ErrorView>,
)
    requires
        0 <= j <= cs.len(),
    ensures
        j <= scan_string(cs, quote, j, mode, text, errors).next <= cs.len(),
    decreases cs.len() - j, if mode == StringMode::Skipping {
        1int
    } else {
        0int
    },
{
    if j < cs.len() {
        let c = cs[j];
        match mode {
            StringMode::Skipping => {
                if is_whitespace(c) {
                    lemma_scan_string_next(cs, quote, j + 1, StringMode::Skipping, text, errors);
                } else {
                    lemma_scan_string_next(cs, quote, j, StringMode::Plain, text, errors);
                }
            },
            StringMode::Plain => {
                if c == '\\' {
                    lemma_scan_string_next(cs, quote, j + 1, StringMode::Escaped, text, errors);
                } else if c == '"' {
                } else if c == '\n' {
                    lemma_scan_string_next(
                        cs,
                        quote,
                        j + 1,
                        StringMode::Skipping,
                        text,
                        errors.push(
                            error_view("newline_in_string", Level::Error, point(offset(cs, j) as int)),
                        ),
                    );
                } else {
                    lemma_scan_string_next(cs, quote, j + 1, StringMode::Plain, text.push(c), errors);
                }
            },
            StringMode::Escaped => {
                if c == '\\' || c == '"' {
                    lemma_scan_string_next(cs, quote, j + 1, StringMode::Plain, text.push(c), errors);
                } else if c == 'n' {
                    lemma_scan_string_next(
                        cs,
                        quote,
                        j + 1,
                        StringMode::Plain,
                        text.push('\n'),
                        errors,
                    );
                } else if c == '\n' {
                    lemma_scan_string_next(
                        cs,
                        quote,
                        j + 1,
                        StringMode::Skipping,
                        text,
                        errors.push(
                            error_view("newline_in_string", Level::Error, point(offset(cs, j) as int)),
                        ),
                    );
                } else {
                    lemma_scan_string_next(
                        cs,
                        quote,
                        j + 1,
                        StringMode::Plain,
                        text.push(c),
                        errors.push(
                            error_view(
                                "invalid_escaping_in_string",
                                Level::Error,
                                span_of(offset(cs, j) - 1, offset(cs, j) as int),
                            ),
                        ),
                    );
                }
            },
        }
    }
}

pub open spec fn is_not_newline(c: char) -> bool {
    c != '\n'
}

/// Reads a comment whose text starts at index `j`, with `errors` reported.
pub open spec fn scan_comment_text(cs: Seq<char>, j: int, errors: Seq<ErrorView>) -> Scan {
    let e = run_end(cs, j, |c: char| is_not_newline(c));
    Scan { atom: Some(AtomView::Comment(cs.subrange(j, e))), errors, next: e }
}

/// One step of the lexer at index `i`, where a character is.
pub open spec fn scan(cs: Seq<char>, i: int) -> Scan {
    let c = cs[i];
    if is_whitespace(c) {
        Scan { atom: None, errors: seq![], next: i + 1 }
    } else if punctuation(c) is Some {
        Scan { atom: punctuation(c), errors: seq![], next: i + 1 }
    } else if c == '-' {
        if i + 1 < cs.len() && cs[i + 1] == '>' {
            Scan { atom: Some(AtomView::Arrow), errors: seq![], next: i + 2 }
        } else {
            Scan { atom: Some(AtomView::Minus), errors: seq![], next: i + 1 }
        }
    } else if is_decimal_digit(c) {
        let e = run_end(cs, i + 1, |c: char| is_decimal_digit(c));
        Scan { atom: Some(AtomView::Number(cs.subrange(i, e))), errors: seq![], next: e }
    } else if c == '"' {
        scan_string(cs, i, i + 1, StringMode::Plain, seq![], seq![])
    } else if c == '/' {
        if i + 1 < cs.len() && cs[i + 1] == '/' {
            if i + 2 < cs.len() && cs[i + 2] == ' ' {
                scan_comment_text(cs, i + 3, seq![])
            } else {
                scan_comment_text(
                    cs,
                    i + 2,
                    seq![
                        error_view(
                            "no_space_after_double_slash",
                            Level::Warning,
                            span_of(offset(cs, i) as int, offset(cs, i + 2) as int),
                        ),
                    ],
                )
            }
        } else {
            let errors = seq![
                error_view(
                    "lonely_slash",
                    Level::Fatal,
                    span_of(offset(cs, i) as int, offset(cs, i) as int + 1),
                ),
            ];
            if i + 1 < cs.len() && cs[i + 1] == ' ' {
                scan_comment_text(cs, i + 2, errors)
            } else {
                scan_comment_text(cs, i + 1, errors)
            }
        }
    } else if is_word_char(c) {
        let e = run_end(cs, i + 1, |c: char| is_word_char(c));
        Scan { atom: Some(AtomView::Word(cs.subrange(i, e))), errors: seq![], next: e }
    } else {
        Scan {
            atom: None,
            errors: seq![
                error_view(
                    "unsupported_character",
                    Level::Fatal,
                    span_of(offset(cs, i) as int, offset(cs, i + 1) as int),
                ),
            ],
            next: i + 1,
        }
    }
}

/// The atoms, with their byte spans, and the diagnostics of lexing `cs` from index `i` on.
pub open spec fn lex_from(cs: Seq<char>, i: int) -> (Seq<(AtomView, Span)>, Seq<ErrorView>)
    decreases cs.len() - i,
{
    if i < 0 || i >= cs.len() {
        (seq![], seq![])
    } else {
        let sc = scan(cs, i);
        if sc.next <= i || sc.next > cs.len() {
            (seq![], seq![])
        } else {
            let rest = lex_from(cs, sc.next);
            let here = match sc.atom {
                Some(a) => seq![(a, span_of(offset(cs, i) as int, offset(cs, sc.next) as int))],
                None => seq![],
            };
            (here + rest.0, sc.errors + rest.1)
        }
    }
}

/// The atoms and the diagnostics of lexing the characters `cs`.
pub open spec fn lex(cs: Seq<char>) -> (Seq<(AtomView, Span)>, Seq<ErrorView>) {
    lex_from(cs, 0)
}

fn punctuation_atom(c: char) -> (r: Option<Atom>)
    ensures
        r is Some <==> punctuation(c) is Some,
        r is Some ==> punctuation(c) == Some(r->0@),
{
    match c {
        '{' => Some(Atom::BraceOpen),
        '}' => Some(Atom::BraceClose),
        '<' => Some(Atom::TagOpen),
        '>' => Some(Atom::TagClose),
        '(' => Some(Atom::ParenOpen),
        ')' => Some(Atom::ParenClose),
        '[' => Some(Atom::BracketOpen),
        ']' => Some(Atom::BracketClose),
        ':' => Some(Atom::Colon),
        '=' => Some(Atom::EqualSign),
        '.' => Some(Atom::Dot),
        ',' => Some(Atom::Comma),
        '@' => Some(Atom::At),
        '+' => Some(Atom::Plus),
        _ => None,
    }
}

fn not_newline(c: &char) -> (b: bool)
    ensures
        b == is_not_newline(*c),
{
    *c != '\n'
}

fn digit_ref(c: &char) -> (b: bool)
    ensures
        b == is_decimal_digit(*c),
{
    is_digit(*c)
}

fn word_char_ref(c: &char) -> (b: bool)
    ensures
        b == is_word_char(*c),
{
    is_word(*c)
}

/// The characters of `source`, in order.
fn chars_of(source: &str) -> (r: Vec<char>)
    ensures
        r@ == source@,
{
    broadcast use vstd::string::axiom_spec_iter, vstd::string::next_postcondition;

    let mut r: Vec<char> = Vec::new();
    let mut it = source.chars();
    assert(IteratorSpec::remaining(&it) == source@);
    loop
        invariant
            r@ + IteratorSpec::remaining(&it) == source@,
        decreases source@.len() - r@.len(),
    {
        let ghost before = IteratorSpec::remaining(&it);
        match it.next() {
            Some(c) => {
                r.push(c);
                assert(r@ + IteratorSpec::remaining(&it) =~= source@);
            },
            None => {
                assert(r@ =~= source@);
                return r;
            },
        }
    }
}

/// Turns the characters of a source text into positioned atoms.
pub struct AtomParser {
    chars: CursorParser<char>,
    /// The byte offset of the position.
    offset: usize,
    source: Ghost<Seq<char>>,
}

impl AtomParser {
    /// The characters of the whole source text.
    pub closed spec fn source(&self) -> Seq<char> {
        self.source@
    }

    /// How many characters have been consumed.
    pub closed spec fn pos(&self) -> int {
        self.chars.position() as int
    }

    pub closed spec fn diagnostics(&self) -> Seq<ParseError> {
        self.chars.diagnostics()
    }

    pub closed spec fn wf(&self) -> bool {
        &&& self.chars.wf()
        &&& self.chars.position() <= self.source@.len()
        &&& self.chars.remaining() == self.source@.skip(self.chars.position() as int)
        &&& self.offset == offset(self.source@, self.chars.position() as int)
        &&& byte_len(self.source@) <= usize::MAX
    }

    pub fn from_source(source: &str) -> (r: AtomParser)
        ensures
            r.wf(),
            r.source() == source@,
            r.pos() == 0,
            r.diagnostics().len() == 0,
            byte_len(source@) <= usize::MAX,
    {
        let chars = chars_of(source);
        let n: usize = source.as_bytes().len();
        proof {
            assert(byte_len(Seq::<char>::empty()) == 0);
            lemma_byte_len_encoding(source@);
            assert(source@.skip(0) =~= source@);
            assert(source@.take(0) =~= Seq::<char>::empty());
        }
        AtomParser {
            chars: CursorParser::from(chars, Vec::new()),
            offset: 0,
            source: Ghost(source@),
        }
    }

    pub fn is_done(&self) -> (r: bool)
        requires
            self.wf(),
        ensures
            r == (self.pos() >= self.source().len()),
    {
        self.chars.is_done()
    }

    /// The byte offset of the position.
    pub fn offset(&self) -> (r: usize)
        requires
            self.wf(),
        ensures
            r == offset(self.source(), self.pos()),
    {
        self.offset
    }

    /// Hands the diagnostics over, leaving none behind.
    pub fn take_errors(&mut self) -> (r: Vec<ParseError>)
        requires
            old(self).wf(),
        ensures
            final(self).wf(),
            final(self).source() == old(self).source(),
            final(self).pos() == old(self).pos(),
            r@ == old(self).diagnostics(),
            final(self).diagnostics().len() == 0,
    {
        self.chars.take_errors()
    }

    pub fn register(&mut self, error: ParseError)
        requires
            old(self).wf(),
        ensures
            final(self).wf(),
            final(self).source() == old(self).source(),
            final(self).pos() == old(self).pos(),
            final(self).diagnostics() == old(self).diagnostics().push(error),
    {
        self.chars.register(error);
    }

    pub fn peek(&self) -> (r: Option<&char>)
        requires
            self.wf(),
        ensures
            r is Some <==> self.pos() < self.source().len(),
            r is Some ==> *r->0 == self.source()[self.pos()],
    {
        self.chars.peek()
    }

    /// Consumes the next character and returns it.
    pub fn advance(&mut self) -> (r: Option<char>)
        requires
            old(self).wf(),
        ensures
            final(self).wf(),
            final(self).source() == old(self).source(),
            final(self).diagnostics() == old(self).diagnostics(),
            old(self).pos() < old(self).source().len() ==> {
                &&& r == Some(old(self).source()[old(self).pos()])
                &&& final(self).pos() == old(self).pos() + 1
            },
            old(self).pos() >= old(self).source().len() ==> {
                &&& r is None
                &&& final(self).pos() == old(self).pos()
            },
    {
        let ghost src = self.source@;
        let ghost i = self.pos();
        let c = self.chars.advance();
        match c {
            Some(ch) => {
                proof {
                    lemma_offset_step(src, i);
                    lemma_offset_monotonic(src, i + 1, src.len() as int);
                    assert(src.take(src.len() as int) =~= src);
                    assert(src.skip(i).drop_first() =~= src.skip(i + 1));
                }
                self.offset = self.offset + utf8_width(ch);
            },
            None => {},
        }
        c
    }

    /// Consumes characters while `predicate` holds, and adds them to the end of `initial`.
    pub fn advance_while_with_initial<P>(&mut self, predicate: P, initial: Vec<char>) -> (r: Vec<
        char,
    >) where P: Fn(&char) -> bool
        requires
            old(self).wf(),
            forall|x: &char| #[trigger] predicate.requires((x,)),
        ensures
            final(self).wf(),
            final(self).source() == old(self).source(),
            final(self).diagnostics() == old(self).diagnostics(),
            old(self).pos() <= final(self).pos() <= old(self).source().len(),
            r@ == initial@ + old(self).source().subrange(old(self).pos(), final(self).pos()),
            forall|i: int|
                old(self).pos() <= i < final(self).pos() ==> predicate.ensures(
                    (&#[trigger] old(self).source()[i],),
                    true,
                ),
            final(self).pos() < old(self).source().len() ==> predicate.ensures(
                (&old(self).source()[final(self).pos()],),
                false,
            ),
    {
        let ghost src = self.source@;
        let ghost p0 = self.pos();
        let mut r = initial;
        loop
            invariant
                self.wf(),
                self.source() == src,
                self.diagnostics() == old(self).diagnostics(),
                p0 == old(self).pos(),
                src == old(self).source(),
                p0 <= self.pos() <= src.len(),
                r@ == initial@ + src.subrange(p0, self.pos()),
                forall|x: &char| #[trigger] predicate.requires((x,)),
                forall|i: int|
                    p0 <= i < self.pos() ==> predicate.ensures((&#[trigger] src[i],), true),
            decreases src.len() - self.pos(),
        {
            let next = match self.peek() {
                Some(c) => Some(*c),
                None => None,
            };
            match next {
                Some(c) => {
                    if predicate(&c) {
                        let ghost i = self.pos();
                        self.advance();
                        r.push(c);
                        assert(src.subrange(p0, i + 1) =~= src.subrange(p0, i).push(c));
                        assert(r@ =~= initial@ + src.subrange(p0, self.pos()));
                    } else {
                        return r;
                    }
                },
                None => {
                    return r;
                },
            }
        }
    }

    /// Consumes characters while `predicate` holds, and returns them.
    pub fn advance_while<P>(&mut self, predicate: P) -> (r: Vec<char>) where P: Fn(&char) -> bool
        requires
            old(self).wf(),
            forall|x: &char| #[trigger] predicate.requires((x,)),
        ensures
            final(self).wf(),
            final(self).source() == old(self).source(),
            final(self).diagnostics() == old(self).diagnostics(),
            old(self).pos() <= final(self).pos() <= old(self).source().len(),
            r@ == old(self).source().subrange(old(self).pos(), final(self).pos()),
            forall|i: int|
                old(self).pos() <= i < final(self).pos() ==> predicate.ensures(
                    (&#[trigger] old(self).source()[i],),
                    true,
                ),
            final(self).pos() < old(self).source().len() ==> predicate.ensures(
                (&old(self).source()[final(self).pos()],),
                false,
            ),
    {
        let r = self.advance_while_with_initial(predicate, Vec::new());
        assert(r@ =~= old(self).source().subrange(old(self).pos(), self.pos()));
        r
    }

    /// Reads the rest of a string whose opening quote was the last character consumed.
    #[verifier::rlimit(40)]
    fn parse_string(&mut self) -> (r: Option<String>)
        requires
            old(self).wf(),
            1 <= old(self).pos() <= old(self).source().len(),
            old(self).source()[old(self).pos() - 1] == '"',
        ensures
            ({
                let sc = scan_string(
                    old(self).source(),
                    old(self).pos() - 1,
                    old(self).pos(),
                    StringMode::Plain,
                    seq![],
                    seq![],
                );
                &&& final(self).wf()
                &&& final(self).source() == old(self).source()
                &&& final(self).pos() == sc.next
                &&& r is Some <==> sc.atom is Some
                &&& r is Some ==> sc.atom == Some(AtomView::String(r->0@))
                &&& views(final(self).diagnostics()) == views(old(self).diagnostics()) + sc.errors
            }),
    {
        let ghost src = self.source@;
        let ghost quote = self.pos() - 1;
        let ghost d0 = views(self.diagnostics());
        let ghost target = scan_string(src, quote, quote + 1, StringMode::Plain, seq![], seq![]);
        proof {
            lemma_offset_step(src, quote);
        }
        let start_offset = self.offset - 1;
        let mut text = String::new();
        let mut mode = StringMode::Plain;
        let ghost mut errs: Seq<ErrorView> = seq![];
        loop
            invariant
                self.wf(),
                self.source() == src,
                src == old(self).source(),
                quote == old(self).pos() - 1,
                0 <= quote < self.pos() <= src.len(),
                src[quote] == '"',
                start_offset == offset(src, quote),
                d0 == views(old(self).diagnostics()),
                target == scan_string(src, quote, quote + 1, StringMode::Plain, seq![], seq![]),
                scan_string(src, quote, self.pos(), mode, text@, errs) == target,
                views(self.diagnostics()) == d0 + errs,
            decreases src.len() - self.pos(), if mode == StringMode::Skipping {
                1int
            } else {
                0int
            },
        {
            let ghost j = self.pos();
            let ghost old_diags = self.diagnostics();
            let before = self.offset;
            proof {
                lemma_offset_step(src, quote);
                lemma_offset_monotonic(src, quote + 1, j);
                assert(src.take(src.len() as int) =~= src);
            }
            if mode == StringMode::Skipping {
                let skip = match self.peek() {
                    Some(c) => whitespace(*c),
                    None => false,
                };
                if skip {
                    self.advance();
                } else {
                    mode = StringMode::Plain;
                }
            } else {
                match self.advance() {
                    None => {
                        let e = ParseError::unterminated_string(Span::new(start_offset, self.offset));
                        self.register(e);
                        proof {
                            crate::error::lemma_views_push(old_diags, e);
                            errs = errs.push(e@);
                            assert(views(self.diagnostics()) =~= d0 + errs);
                        }
                        return None;
                    },
                    Some(c) => {
                        if mode == StringMode::Plain {
                            if c == '\\' {
                                mode = StringMode::Escaped;
                            } else if c == '"' {
                                return Some(text);
                            } else if c == '\n' {
                                let e = ParseError::newline_in_string(before);
                                self.register(e);
                                proof {
                                    crate::error::lemma_views_push(old_diags, e);
                                    errs = errs.push(e@);
                                    assert(views(self.diagnostics()) =~= d0 + errs);
                                }
                                mode = StringMode::Skipping;
                            } else {
                                crate::utils::push_char(&mut text, c);
                            }
                        } else {
                            if c == '\\' || c == '"' {
                                crate::utils::push_char(&mut text, c);
                                mode = StringMode::Plain;
                            } else if c == 'n' {
                                crate::utils::push_char(&mut text, '\n');
                                mode = StringMode::Plain;
                            } else if c == '\n' {
                                let e = ParseError::newline_in_string(before);
                                self.register(e);
                                proof {
                                    crate::error::lemma_views_push(old_diags, e);
                                    errs = errs.push(e@);
                                    assert(views(self.diagnostics()) =~= d0 + errs);
                                }
                                mode = StringMode::Skipping;
                            } else {
                                let e = ParseError::invalid_escaping_in_string(before);
                                self.register(e);
                                proof {
                                    crate::error::lemma_views_push(old_diags, e);
                                    errs = errs.push(e@);
                                    assert(views(self.diagnostics()) =~= d0 + errs);
                                }
                                crate::utils::push_char(&mut text, c);
                                mode = StringMode::Plain;
                            }
                        }
                    },
                }
            }
        }
    }

    /// Reads a comment whose first slash was the last character consumed.
    fn parse_comment(&mut self) -> (r: Option<String>)
        requires
            old(self).wf(),
            1 <= old(self).pos() <= old(self).source().len(),
            old(self).source()[old(self).pos() - 1] == '/',
        ensures
            ({
                let sc = scan(old(self).source(), old(self).pos() - 1);
                &&& final(self).wf()
                &&& final(self).source() == old(self).source()
                &&& final(self).pos() == sc.next
                &&& r is Some <==> sc.atom is Some
                &&& r is Some ==> sc.atom == Some(AtomView::Comment(r->0@))
                &&& views(final(self).diagnostics()) == views(old(self).diagnostics()) + sc.errors
            }),
    {
        let ghost src = self.source@;
        let ghost i = self.pos() - 1;
        let ghost d0 = views(self.diagnostics());
        proof {
            lemma_offset_step(src, i);
            lemma_offset_monotonic(src, i + 1, src.len() as int);
            assert(src.take(src.len() as int) =~= src);
        }
        let slash = self.offset - 1;
        let second_slash = match self.peek() {
            Some(c) => *c == '/',
            None => false,
        };
        let ghost errs: Seq<ErrorView>;
        if !second_slash {
            // A single slash is reported, and the rest of the line is read as
            // a comment all the same.
            let e = ParseError::lonely_slash(slash);
            self.register(e);
            let space = match self.peek() {
                Some(c) => *c == ' ',
                None => false,
            };
            if space {
                self.advance();
            }
            proof {
                errs = seq![e@];
                assert(views(self.diagnostics()) =~= d0 + errs);
            }
        } else {
            self.advance();
            proof {
                lemma_offset_step(src, i + 1);
            }
            let space = match self.peek() {
                Some(c) => *c == ' ',
                None => false,
            };
            if space {
                self.advance();
                proof {
                    errs = seq![];
                    assert(views(self.diagnostics()) =~= d0 + errs);
                }
            } else {
                let e = ParseError::no_space_after_double_slash(self.offset);
                self.register(e);
                proof {
                    errs = seq![e@];
                    assert(views(self.diagnostics()) =~= d0 + errs);
                }
            }
        }
        let ghost j = self.pos();
        let text = self.advance_while(
            not_newline,
        );
        proof {
            lemma_run_end_unique(src, j, self.pos(), |c: char| is_not_newline(c));
        }
        Some(text.into_string())
    }

    /// Reads the rest of a number whose first digit was the last character consumed.
    fn parse_number(&mut self, first_digit: char) -> (r: Natural)
        requires
            old(self).wf(),
            1 <= old(self).pos() <= old(self).source().len(),
            old(self).source()[old(self).pos() - 1] == first_digit,
            is_decimal_digit(first_digit),
        ensures
            final(self).wf(),
            final(self).source() == old(self).source(),
            final(self).diagnostics() == old(self).diagnostics(),
            final(self).pos() == run_end(
                old(self).source(),
                old(self).pos(),
                |c: char| is_decimal_digit(c),
            ),
            r.text() == old(self).source().subrange(old(self).pos() - 1, final(self).pos()),
    {
        let ghost src = self.source();
        let ghost i = self.pos() - 1;
        let digits = self.advance_while_with_initial(digit_ref, vec![first_digit]);
        proof {
            lemma_run_end_unique(src, i + 1, self.pos(), |c: char| is_decimal_digit(c));
            assert(digits@ =~= src.subrange(i, self.pos()));
            assert forall|k: int| 0 <= k < digits@.len() implies is_decimal_digit(
                #[trigger] digits@[k],
            ) by {
                if k > 0 {
                    assert(digits@[k] == src[i + k]);
                }
            }
        }
        Natural::from_digits(digits)
    }

    /// Reads the rest of a word whose first character was the last character consumed.
    fn parse_word(&mut self, first_char: char) -> (r: String)
        requires
            old(self).wf(),
            1 <= old(self).pos() <= old(self).source().len(),
            old(self).source()[old(self).pos() - 1] == first_char,
        ensures
            final(self).wf(),
            final(self).source() == old(self).source(),
            final(self).diagnostics() == old(self).diagnostics(),
            final(self).pos() == run_end(
                old(self).source(),
                old(self).pos(),
                |c: char| is_word_char(c),
            ),
            r@ == old(self).source().subrange(old(self).pos() - 1, final(self).pos()),
    {
        let ghost src = self.source();
        let ghost i = self.pos() - 1;
        let word = self.advance_while_with_initial(word_char_ref, vec![first_char]);
        proof {
            lemma_run_end_unique(src, i + 1, self.pos(), |c: char| is_word_char(c));
            assert(word@ =~= src.subrange(i, self.pos()));
        }
        word.into_string()
    }

    /// Reads the next atom, where a character is left; whitespace and faulty
    /// characters give none.
    #[verifier::rlimit(40)]
    fn parse_atom(&mut self) -> (r: Option<Atom>)
        requires
            old(self).wf(),
            old(self).pos() < old(self).source().len(),
        ensures
            ({
                let sc = scan(old(self).source(), old(self).pos());
                &&& final(self).wf()
                &&& final(self).source() == old(self).source()
                &&& final(self).pos() == sc.next
                &&& old(self).pos() < final(self).pos()
                &&& r is Some <==> sc.atom is Some
                &&& r is Some ==> sc.atom == Some(r->0@)
                &&& views(final(self).diagnostics()) == views(old(self).diagnostics()) + sc.errors
            }),
    {
        let ghost src = self.source@;
        let ghost i = self.pos();
        let ghost d0 = views(self.diagnostics());
        let start = self.offset;
        proof {
            lemma_offset_step(src, i);
            lemma_offset_monotonic(src, i + 1, src.len() as int);
            assert(src.take(src.len() as int) =~= src);
        }
        let c = self.advance().unwrap();
        if whitespace(c) {
            assert(d0 + seq![] =~= d0);
            return None;
        }
        match punctuation_atom(c) {
            Some(a) => {
                assert(d0 + seq![] =~= d0);
                return Some(a);
            },
            None => {},
        }
        assert(d0 + seq![] =~= d0);
        if c == '-' {
            let arrow = match self.peek() {
                Some(n) => *n == '>',
                None => false,
            };
            if arrow {
                self.advance();
                return Some(Atom::Arrow);
            } else {
                return Some(Atom::Minus);
            }
        }
        if is_digit(c) {
            proof {
                lemma_run_end(src, i + 1, |c: char| is_decimal_digit(c));
            }
            return Some(Atom::Number(self.parse_number(c)));
        }
        if c == '"' {
            proof {
                lemma_scan_string_next(src, i, i + 1, StringMode::Plain, seq![], seq![]);
            }
            return match self.parse_string() {
                Some(s) => Some(Atom::String(s)),
                None => None,
            };
        }
        if c == '/' {
            proof {
                lemma_run_end(src, i + 1, |c: char| is_not_newline(c));
                if i + 2 <= src.len() {
                    lemma_run_end(src, i + 2, |c: char| is_not_newline(c));
                }
                if i + 3 <= src.len() {
                    lemma_run_end(src, i + 3, |c: char| is_not_newline(c));
                }
            }
            return match self.parse_comment() {
                Some(s) => Some(Atom::Comment(s)),
                None => None,
            };
        }
        if is_word(c) {
            proof {
                lemma_run_end(src, i + 1, |c: char| is_word_char(c));
            }
            return Some(Atom::Word(self.parse_word(c)));
        }
        let e = ParseError::unsupported_character(Span::new(start, self.offset));
        self.register(e);
        assert(views(self.diagnostics()) =~= d0 + seq![e@]);
        None
    }

    /// Reads every atom that is left, with the byte span of each.
    #[verifier::rlimit(40)]
    pub fn parse(&mut self) -> (r: Vec<Positioned<Atom>>)
        requires
            old(self).wf(),
        ensures
            final(self).wf(),
            final(self).source() == old(self).source(),
            final(self).pos() == old(self).source().len(),
            atom_views(r@) == lex_from(old(self).source(), old(self).pos()).0,
            views(final(self).diagnostics()) == views(old(self).diagnostics()) + lex_from(
                old(self).source(),
                old(self).pos(),
            ).1,
    {
        let ghost src = self.source@;
        let ghost p0 = self.pos();
        let ghost d0 = views(self.diagnostics());
        let mut atoms: Vec<Positioned<Atom>> = Vec::new();
        while !self.is_done()
            invariant
                self.wf(),
                self.source() == src,
                src == old(self).source(),
                p0 == old(self).pos(),
                d0 == views(old(self).diagnostics()),
                p0 <= self.pos() <= src.len(),
                atom_views(atoms@) + lex_from(src, self.pos()).0 == lex_from(src, p0).0,
                views(self.diagnostics()) + lex_from(src, self.pos()).1 == d0 + lex_from(
                    src,
                    p0,
                ).1,
            decreases src.len() - self.pos(),
        {
            let ghost i = self.pos();
            let ghost before = views(self.diagnostics());
            let start = self.offset;
            let maybe = self.parse_atom();
            let end = self.offset;
            let ghost rest = lex_from(src, self.pos());
            let ghost sc = scan(src, i);
            assert(lex_from(src, i).1 == sc.errors + rest.1);
            assert(views(self.diagnostics()) + rest.1 =~= before + lex_from(src, i).1);
            match maybe {
                Some(atom) => {
                    let ghost prev = atom_views(atoms@);
                    atoms.push(Positioned { data: atom, position: Span::new(start, end) });
                    assert(atom_views(atoms@) =~= prev.push((sc.atom->0, span_of(start as int, end as int))));
                    assert(lex_from(src, i).0 =~= seq![(sc.atom->0, span_of(start as int, end as int))] + rest.0);
                    assert(atom_views(atoms@) + rest.0 =~= prev + lex_from(src, i).0);
                },
                None => {
                    assert(lex_from(src, i).0 =~= rest.0);
                },
            }
        }
        assert(atom_views(atoms@) =~= atom_views(atoms@) + lex_from(src, self.pos()).0);
        assert(views(self.diagnostics()) =~= views(self.diagnostics()) + lex_from(src, self.pos()).1);
        atoms
    }
}

/// Characters below 0x80 take one byte each.
pub proof fn lemma_ascii_byte_len(cs: Seq<char>)
    requires
        forall|i: int| 0 <= i < cs.len() ==> (#[trigger] cs[i] as u32) < 0x80,
    ensures
        byte_len(cs) == cs.len(),
    decreases cs.len(),
{
    if cs.len() > 0 {
        assert(forall|i: int| 0 <= i < cs.drop_last().len() ==> cs.drop_last()[i] == cs[i]);
        lemma_ascii_byte_len(cs.drop_last());
        assert((cs.last() as u32) < 0x80);
    }
}

proof fn lemma_ascii_offsets(cs: Seq<char>, i: int)
    requires
        forall|k: int| 0 <= k < cs.len() ==> (#[trigger] cs[k] as u32) < 0x80,
        0 <= i <= cs.len(),
    ensures
        offset(cs, i) == i,
{
    assert forall|k: int| 0 <= k < cs.take(i).len() implies (#[trigger] cs.take(i)[k] as u32)
        < 0x80 by {
        assert(cs.take(i)[k] == cs[k]);
    }
    lemma_ascii_byte_len(cs.take(i));
}

/// A single punctuation character lexes to one atom of its kind that spans it,
/// with nothing reported.
pub proof fn lemma_lex_punctuation(c: char)
    requires
        punctuation(c) is Some,
    ensures
        lex(seq![c]) == (seq![(punctuation(c)->0, span_of(0, 1))], Seq::<ErrorView>::empty()),
{
    let cs = seq![c];
    lemma_ascii_offsets(cs, 0);
    lemma_ascii_offsets(cs, 1);
    assert(lex_from(cs, 1) == (Seq::<(AtomView, Span)>::empty(), Seq::<ErrorView>::empty()));
    assert(lex(cs).0 =~= seq![(punctuation(c)->0, span_of(0, 1))]);
    assert(lex(cs).1 =~= Seq::<ErrorView>::empty());
}

/// A lone `-` lexes to `Minus`, and `->` to one `Arrow` that spans both characters.
pub proof fn lemma_lex_arrow()
    ensures
        lex(seq!['-']) == (seq![(AtomView::Minus, span_of(0, 1))], Seq::<ErrorView>::empty()),
        lex(seq!['-', '>']) == (seq![(AtomView::Arrow, span_of(0, 2))], Seq::<ErrorView>::empty()),
{
    let minus = seq!['-'];
    lemma_ascii_offsets(minus, 0);
    lemma_ascii_offsets(minus, 1);
    assert(lex_from(minus, 1) == (Seq::<(AtomView, Span)>::empty(), Seq::<ErrorView>::empty()));
    assert(lex(minus).0 =~= seq![(AtomView::Minus, span_of(0, 1))]);
    assert(lex(minus).1 =~= Seq::<ErrorView>::empty());
    let arrow = seq!['-', '>'];
    lemma_ascii_offsets(arrow, 0);
    lemma_ascii_offsets(arrow, 2);
    assert(lex_from(arrow, 2) == (Seq::<(AtomView, Span)>::empty(), Seq::<ErrorView>::empty()));
    assert(lex(arrow).0 =~= seq![(AtomView::Arrow, span_of(0, 2))]);
    assert(lex(arrow).1 =~= Seq::<ErrorView>::empty());
}

/// A run of decimal digits of any length lexes to one `Number` atom that holds
/// every digit, so its value is the exact integer the digits spell.
pub proof fn lemma_lex_digits(digits: Seq<char>)
    requires
        digits.len() > 0,
        all_digits(digits),
    ensures
        lex(digits) == (
            seq![(AtomView::Number(digits), span_of(0, digits.len() as int))],
            Seq::<ErrorView>::empty(),
        ),
{
    assert forall|k: int| 0 <= k < digits.len() implies (#[trigger] digits[k] as u32) < 0x80 by {
        assert(is_decimal_digit(digits[k]));
    }
    lemma_ascii_offsets(digits, 0);
    lemma_ascii_offsets(digits, digits.len() as int);
    assert(is_decimal_digit(digits[0]));
    assert forall|i: int| 1 <= i < digits.len() implies is_decimal_digit(#[trigger] digits[i]) by {
        assert(is_decimal_digit(digits[i]));
    }
    lemma_run_end_unique(digits, 1, digits.len() as int, |c: char| is_decimal_digit(c));
    assert(digits.subrange(0, digits.len() as int) =~= digits);
    assert(lex_from(digits, digits.len() as int) == (
        Seq::<(AtomView, Span)>::empty(),
        Seq::<ErrorView>::empty(),
    ));
    assert(lex(digits).0 =~= seq![(AtomView::Number(digits), span_of(0, digits.len() as int))]);
    assert(lex(digits).1 =~= Seq::<ErrorView>::empty());
}

} // verus!
