//! The second stage: atoms become tokens with the same spans.

use crate::atoms::{atom_views, lex, lex_from, scan, span_of, AtomParser, AtomView, Positioned, Atom};
use crate::cursor::CursorParser;
use crate::error::{views, ParseError};
use crate::numbers::Natural;
use crate::utils::{byte_len, lemma_offset_monotonic, offset, Span};
use vstd::prelude::*;

verus! {

/// A positioned unit of the source that the syntax stage reads.
#[derive(Debug, Clone, PartialEq, Eq)]
pub struct Token {
    pub kind: TokenKind,
    pub span: Span,
}

#[derive(Debug, Clone, PartialEq, Eq)]
pub enum TokenKind {
    /// `{`
    BraceOpen,
    /// `}`
    BraceClose,
    /// `<`
    TagOpen,
    /// `>`
    TagClose,
    /// `(`
    ParenOpen,
    /// `)`
    ParenClose,
    /// `[`
    BracketOpen,
    /// `]`
    BracketClose,
    /// `:`
    Colon,
    /// `=`
    EqualSign,
    /// `.`
    Dot,
    /// `,`
    Comma,
    /// `@`
    At,
    /// `->`
    Arrow,
    /// `+`, only used in versions
    Plus,
    /// `-`, only used before a number
    Minus,
    /// A run of decimal digits, e.g. `5` or `141847320417234732`.
    Number(Natural),
    /// A string with its escapes resolved.
    String(String),
    /// The text of a line comment.
    Comment(String),
    /// A word: a keyword or an identifier.
    Word(String),
}

impl View for TokenKind {
    type V = AtomView;

    open spec fn view(&self) -> AtomView {
        match self {
            TokenKind::BraceOpen => AtomView::BraceOpen,
            TokenKind::BraceClose => AtomView::BraceClose,
            TokenKind::TagOpen => AtomView::TagOpen,
            TokenKind::TagClose => AtomView::TagClose,
            TokenKind::ParenOpen => AtomView::ParenOpen,
            TokenKind::ParenClose => AtomView::ParenClose,
            TokenKind::BracketOpen => AtomView::BracketOpen,
            TokenKind::BracketClose => AtomView::BracketClose,
            TokenKind::Colon => AtomView::Colon,
            TokenKind::EqualSign => AtomView::EqualSign,
            TokenKind::Dot => AtomView::Dot,
            TokenKind::Comma => AtomView::Comma,
            TokenKind::At => AtomView::At,
            TokenKind::Arrow => AtomView::Arrow,
            TokenKind::Plus => AtomView::Plus,
            TokenKind::Minus => AtomView::Minus,
            TokenKind::Number(n) => AtomView::Number(n.text()),
            TokenKind::String(s) => AtomView::String(s@),
            TokenKind::Comment(s) => AtomView::Comment(s@),
            TokenKind::Word(s) => AtomView::Word(s@),
        }
    }
}

impl View for Token {
    type V = (AtomView, Span);

    open spec fn view(&self) -> (AtomView, Span) {
        (self.kind@, self.span)
    }
}

pub open spec fn token_views(tokens: Seq<Token>) -> Seq<(AtomView, Span)> {
    tokens.map_values(|t: Token| t@)
}

/// Each span is a proper range, and each ends before the next one starts.
pub open spec fn ordered(spans: Seq<(AtomView, Span)>) -> bool {
    &&& forall|i: int| 0 <= i < spans.len() ==> (#[trigger] spans[i]).1.start <= spans[i].1.end
    &&& forall|i: int, j: int|
        0 <= i < j < spans.len() ==> (#[trigger] spans[i]).1.end <= (#[trigger] spans[j]).1.start
}

/// Every span lies within `[lo, hi]`.
pub open spec fn bounded(spans: Seq<(AtomView, Span)>, lo: int, hi: int) -> bool {
    forall|i: int| 0 <= i < spans.len() ==> lo <= (#[trigger] spans[i]).1.start && spans[i].1.end <= hi
}

/// The atoms of a source text come in order, without overlapping, within its bytes.
pub proof fn lemma_lex_ordered(cs: Seq<char>, i: int)
    requires
        0 <= i <= cs.len(),
        byte_len(cs) <= usize::MAX,
    ensures
        ordered(lex_from(cs, i).0),
        bounded(lex_from(cs, i).0, offset(cs, i) as int, byte_len(cs) as int),
    decreases cs.len() - i,
{
    assert(cs.take(cs.len() as int) =~= cs);
    if i < cs.len() {
        let sc = scan(cs, i);
        if sc.next > i && sc.next <= cs.len() {
            lemma_lex_ordered(cs, sc.next);
            lemma_offset_monotonic(cs, i, sc.next);
            lemma_offset_monotonic(cs, sc.next, cs.len() as int);
            let rest = lex_from(cs, sc.next);
            match sc.atom {
                Some(a) => {
                    let here = seq![(a, span_of(offset(cs, i) as int, offset(cs, sc.next) as int))];
                    let all = here + rest.0;
                    assert(all == lex_from(cs, i).0);
                    assert forall|x: int, y: int| 0 <= x < y < all.len() implies (
                    #[trigger] all[x]).1.end <= (#[trigger] all[y]).1.start by {
                        if x > 0 {
                            assert(all[x] == rest.0[x - 1]);
                            assert(all[y] == rest.0[y - 1]);
                        } else {
                            assert(all[y] == rest.0[y - 1]);
                        }
                    }
                    assert forall|x: int| 0 <= x < all.len() implies offset(cs, i) <= (
                    #[trigger] all[x]).1.start && all[x].1.end <= byte_len(cs) && all[x].1.start
                        <= all[x].1.end by {
                        if x > 0 {
                            assert(all[x] == rest.0[x - 1]);
                        }
                    }
                },
                None => {
                    assert(lex_from(cs, i).0 =~= rest.0);
                },
            }
        }
    }
}

fn token_kind(atom: Atom) -> (r: TokenKind)
    ensures
        r@ == atom@,
{
    match atom {
        Atom::BraceOpen => TokenKind::BraceOpen,
        Atom::BraceClose => TokenKind::BraceClose,
        Atom::TagOpen => TokenKind::TagOpen,
        Atom::TagClose => TokenKind::TagClose,
        Atom::ParenOpen => TokenKind::ParenOpen,
        Atom::ParenClose => TokenKind::ParenClose,
        Atom::BracketOpen => TokenKind::BracketOpen,
        Atom::BracketClose => TokenKind::BracketClose,
        Atom::Colon => TokenKind::Colon,
        Atom::EqualSign => TokenKind::EqualSign,
        Atom::Dot => TokenKind::Dot,
        Atom::Comma => TokenKind::Comma,
        Atom::At => TokenKind::At,
        Atom::Arrow => TokenKind::Arrow,
        Atom::Plus => TokenKind::Plus,
        Atom::Minus => TokenKind::Minus,
        Atom::Number(n) => TokenKind::Number(n),
        Atom::String(s) => TokenKind::String(s),
        Atom::Comment(s) => TokenKind::Comment(s),
        Atom::Word(s) => TokenKind::Word(s),
    }
}

/// Turns positioned atoms into tokens, one for one.
pub struct TokenParser {
    atoms: CursorParser<Positioned<Atom>>,
}

impl TokenParser {
    pub closed spec fn remaining(&self) -> Seq<Positioned<Atom>> {
        self.atoms.remaining()
    }

    pub closed spec fn diagnostics(&self) -> Seq<ParseError> {
        self.atoms.diagnostics()
    }

    pub closed spec fn wf(&self) -> bool {
        self.atoms.wf()
    }

    pub fn from_atoms(atoms: Vec<Positioned<Atom>>) -> (r: TokenParser)
        ensures
            r.wf(),
            r.remaining() == atoms@,
            r.diagnostics().len() == 0,
    {
        TokenParser { atoms: CursorParser::from(atoms, Vec::new()) }
    }

    pub fn advance(&mut self) -> (r: Option<Positioned<Atom>>)
        requires
            old(self).wf(),
        ensures
            final(self).wf(),
            final(self).diagnostics() == old(self).diagnostics(),
            old(self).remaining().len() > 0 ==> r == Some(old(self).remaining()[0])
                && final(self).remaining() == old(self).remaining().drop_first(),
            old(self).remaining().len() == 0 ==> r is None && final(self).remaining() == old(
                self,
            ).remaining(),
    {
        self.atoms.advance()
    }

    /// Consumes atoms while `predicate` holds, and returns them.
    pub fn advance_while<P>(&mut self, predicate: P) -> (r: Vec<Positioned<Atom>>) where
        P: Fn(&Positioned<Atom>) -> bool,

        requires
            old(self).wf(),
            forall|x: &Positioned<Atom>| #[trigger] predicate.requires((x,)),
        ensures
            final(self).wf(),
            final(self).diagnostics() == old(self).diagnostics(),
            r@.len() <= old(self).remaining().len(),
            r@ == old(self).remaining().take(r@.len() as int),
            final(self).remaining() == old(self).remaining().skip(r@.len() as int),
            forall|i: int| 0 <= i < r@.len() ==> predicate.ensures((&#[trigger] r@[i],), true),
            r@.len() < old(self).remaining().len() ==> predicate.ensures(
                (&old(self).remaining()[r@.len() as int],),
                false,
            ),
    {
        self.atoms.advance_while(predicate)
    }

    pub fn register(&mut self, error: ParseError)
        requires
            old(self).wf(),
        ensures
            final(self).wf(),
            final(self).remaining() == old(self).remaining(),
            final(self).diagnostics() == old(self).diagnostics().push(error),
    {
        self.atoms.register(error)
    }

    pub fn peek(&self) -> (r: Option<&Positioned<Atom>>)
        ensures
            r is Some <==> self.remaining().len() > 0,
            r is Some ==> *r->0 == self.remaining()[0],
    {
        self.atoms.peek()
    }

    /// Turns every atom that is left into a token with the same span.
    pub fn parse(&mut self) -> (r: Vec<Token>)
        requires
            old(self).wf(),
        ensures
            final(self).wf(),
            final(self).remaining().len() == 0,
            final(self).diagnostics() == old(self).diagnostics(),
            token_views(r@) == atom_views(old(self).remaining()),
    {
        let ghost all = self.remaining();
        let mut tokens: Vec<Token> = Vec::new();
        loop
            invariant
                self.wf(),
                self.diagnostics() == old(self).diagnostics(),
                all == old(self).remaining(),
                token_views(tokens@) + atom_views(self.remaining()) == atom_views(all),
            decreases self.remaining().len(),
        {
            let ghost rest = self.remaining();
            match self.advance() {
                Some(atom) => {
                    let ghost prev = token_views(tokens@);
                    let span = atom.position;
                    tokens.push(Token { kind: token_kind(atom.data), span });
                    assert(atom_views(rest) =~= seq![atom@] + atom_views(self.remaining()));
                    assert(token_views(tokens@) =~= prev.push(atom@));
                    assert(token_views(tokens@) + atom_views(self.remaining()) =~= prev
                        + atom_views(rest));
                },
                None => {
                    assert(token_views(tokens@) =~= token_views(tokens@) + atom_views(
                        self.remaining(),
                    ));
                    return tokens;
                },
            }
        }
    }
}

/// Lexes `source` into tokens, and adds what lexing reports to `error_registry`.
pub fn parse_tokens(source: &str, error_registry: &mut Vec<ParseError>) -> (r: Vec<Token>)
    ensures
        token_views(r@) == lex(source@).0,
        views(final(error_registry)@) == views(old(error_registry)@) + lex(source@).1,
        ordered(token_views(r@)),
        bounded(token_views(r@), 0, byte_len(source@) as int),
{
    let mut atoms = AtomParser::from_source(source);
    let positioned = atoms.parse();
    let mut parser = TokenParser::from_atoms(positioned);
    let tokens = parser.parse();
    let mut errors = atoms.take_errors();
    let ghost before = views(error_registry@);
    let ghost added = views(errors@);
    error_registry.append(&mut errors);
    proof {
        assert(views(error_registry@) =~= before + added);
        lemma_lex_ordered(source@, 0);
        assert(source@.take(0) =~= Seq::<char>::empty());
        assert(byte_len(Seq::<char>::empty()) == 0);
    }
    tokens
}

/// Lexing depends on the source text alone: two runs on the same text give the
/// same tokens and report the same diagnostics.
pub proof fn lemma_lexing_repeatable(
    source: Seq<char>,
    first: Seq<Token>,
    second: Seq<Token>,
    first_errors: Seq<ParseError>,
    second_errors: Seq<ParseError>,
)
    requires
        token_views(first) == lex(source).0,
        token_views(second) == lex(source).0,
        views(first_errors) == lex(source).1,
        views(second_errors) == lex(source).1,
    ensures
        token_views(first) == token_views(second),
        views(first_errors) == views(second_errors),
{
}

} // verus!
