//! Runs the stages one after the other and stops after one that reports
//! something fatal.

use crate::atoms::lex;
use crate::error::{has_fatal, views, DecideIfAbortParsing, ParseError};
use crate::organisms::{Parser, TapeFile};
use crate::atoms::AtomView;
use crate::grammar::{
    definition_start, definitions_part, file_shape, is_comment, lemma_file_shape_same, run_len,
};
use crate::tokens::{parse_tokens, token_views, Token};
use crate::utils::byte_len;
use vstd::prelude::*;

verus! {

/// Why a source text did not parse: every diagnostic, in the order found.
#[derive(Debug)]
pub struct TapeParseFailure {
    pub errors: Vec<ParseError>,
}

/// Runs the stages on `source`: lexing, then, unless that reported something
/// fatal, the syntax stage. Returns the file, where nothing fatal was reported,
/// and every diagnostic.
pub fn parse_with_diagnostics(source: &str) -> (r: (Option<TapeFile>, Vec<ParseError>))
    ensures
        views(r.1@).len() >= lex(source@).1.len(),
        views(r.1@).take(lex(source@).1.len() as int) == lex(source@).1,
        has_fatal(lex(source@).1) ==> r.0 is None && views(r.1@) == lex(source@).1,
        r.0 is Some <==> !has_fatal(views(r.1@)),
        r.0 is Some ==> r.0->0.wf(),
        r.0 is Some ==> r.0->0.ends_by(byte_len(source@) as int),
        forall|ts: Seq<Token>|
            token_views(ts) == lex(source@).0 && #[trigger] file_shape(ts) is Some && !has_fatal(
                lex(source@).1,
            ) ==> r.0 is Some && views(r.1@) == lex(source@).1,
        exists|ts: Seq<Token>|
            token_views(ts) == lex(source@).0 && (#[trigger] file_shape(ts) is Some && !has_fatal(
                lex(source@).1,
            ) ==> well_formed_file(r.0, ts)),
{
    let mut errors: Vec<ParseError> = Vec::new();
    let tokens = parse_tokens(source, &mut errors);
    assert(views(errors@) =~= lex(source@).1);
    if errors.should_abort_parsing() {
        proof {
            assert(token_views(tokens@) == lex(source@).0 && (file_shape(tokens@) is Some
                && !has_fatal(lex(source@).1) ==> well_formed_file(None, tokens@)));
        }
        return (None, errors);
    }
    proof {
        if tokens@.len() > 0 {
            assert(token_views(tokens@)[tokens@.len() - 1] == tokens@.last()@);
        }
    }
    let ghost lexed_tokens = tokens@;
    let mut parser = Parser::from_tokens(tokens);
    let file = parser.parse();
    let mut syntax_errors = parser.take_errors();
    proof {
        assert forall|ts: Seq<Token>|
            token_views(ts) == lex(source@).0 && #[trigger] file_shape(ts) is Some implies file_shape(
            lexed_tokens,
        ) is Some by {
            lemma_file_shape_same(ts, lexed_tokens);
        }
    }
    let ghost lexed = errors@;
    let ghost later = syntax_errors@;
    errors.append(&mut syntax_errors);
    proof {
        assert(views(errors@) =~= views(lexed) + views(later));
        if file_shape(lexed_tokens) is Some {
            assert(views(errors@) =~= views(lexed));
        }
        assert(views(errors@).take(views(lexed).len() as int) =~= views(lexed));
        if file is None {
            let k = choose|k: int|
                0 <= k < views(later).len() && views(later)[k].level.rank()
                    >= crate::error::Level::Fatal.rank();
            assert(views(errors@)[views(lexed).len() + k] == views(later)[k]);
        }
    }
    proof {
        assert(token_views(lexed_tokens) == lex(source@).0 && (file_shape(lexed_tokens) is Some
            && !has_fatal(lex(source@).1) ==> well_formed_file(file, lexed_tokens)));
    }
    if errors.should_abort_parsing() {
        return (None, errors);
    }
    (file, errors)
}

/// `file` is the file that the well-formed tokens `ts` spell: every import and
/// definition kept, each definition with the kind, name, members and literal
/// that its tokens give.
pub open spec fn well_formed_file(file: Option<TapeFile>, ts: Seq<Token>) -> bool {
    let part = definitions_part(ts);
    &&& file matches Some(f)
    &&& file_shape(ts) == Some((f.imports@.len() as nat, f.definitions@.len() as nat))
    &&& forall|j: int|
        0 <= j < f.definitions@.len() ==> (#[trigger] f.definitions@[j]).spelled_by(
            part.skip(definition_start(part, j)),
        )
    &&& ts[run_len(ts, |t: Token| is_comment(t)) as int + 1].kind@ == AtomView::Word(
        f.package_name.name@,
    )
}

impl TapeFile {
    /// Parses `source`; fails, with every diagnostic, where one of them is fatal.
    pub fn parse(source: &str) -> (r: Result<TapeFile, TapeParseFailure>)
        ensures
            r is Ok ==> r->Ok_0.wf(),
            r is Ok ==> r->Ok_0.ends_by(byte_len(source@) as int),
            r is Ok ==> !has_fatal(lex(source@).1),
            exists|all: Seq<crate::error::ErrorView>|
                all.len() >= lex(source@).1.len() && all.take(lex(source@).1.len() as int) == lex(
                    source@,
                ).1 && (r is Ok <==> !has_fatal(all)) && (r is Err ==> views(r->Err_0.errors@)
                    == #[trigger] all.take(all.len() as int)),
            r is Err ==> views(r->Err_0.errors@).len() >= lex(source@).1.len() && views(
                r->Err_0.errors@,
            ).take(lex(source@).1.len() as int) == lex(source@).1,
            forall|ts: Seq<Token>|
                token_views(ts) == lex(source@).0 && #[trigger] file_shape(ts) is Some && !has_fatal(
                    lex(source@).1,
                ) ==> r is Ok,
            exists|ts: Seq<Token>|
                token_views(ts) == lex(source@).0 && (#[trigger] file_shape(ts) is Some && !has_fatal(
                    lex(source@).1,
                ) ==> well_formed_file(
                    match r {
                        Ok(f) => Some(f),
                        Err(_) => None,
                    },
                    ts,
                )),
            r is Err ==> has_fatal(views(r->Err_0.errors@)),
            has_fatal(lex(source@).1) ==> r is Err && views(r->Err_0.errors@) == lex(source@).1,
    {
        let (file, errors) = parse_with_diagnostics(source);
        proof {
            let ts = choose|ts: Seq<Token>|
                token_views(ts) == lex(source@).0 && (#[trigger] file_shape(ts) is Some
                    && !has_fatal(lex(source@).1) ==> well_formed_file(file, ts));
            assert(token_views(ts) == lex(source@).0 && (file_shape(ts) is Some && !has_fatal(
                lex(source@).1,
            ) ==> well_formed_file(file, ts)));
        }
        proof {
            let all = views(errors@);
            assert(all.take(all.len() as int) =~= all);
        }
        match file {
            Some(file) => Ok(file),
            None => Err(TapeParseFailure { errors }),
        }
    }
}

impl std::str::FromStr for TapeFile {
    type Err = TapeParseFailure;

    fn from_str(source: &str) -> Result<TapeFile, TapeParseFailure> {
        TapeFile::parse(source)
    }
}

} // verus!
