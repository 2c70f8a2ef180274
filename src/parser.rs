use vstd::prelude::*;

use crate::errors::Error;
use crate::filters::{Filter, FilterModel};
use crate::lexer::{lex, lexed_as, reports, tokens_view, Lexer, LexFailure, Token, TokenView};
use crate::pipeline::{models, Pipeline};
use crate::table::NameTable;

verus! {

pub const EMPTY_QUERY: &'static str = "query cannot be empty";
pub const DOES_NOT_START_WITH_SOURCE: &'static str = "query must start with source";
pub const MULTIPLE_SOURCES: &'static str = "cannot have multiple sources";
pub const UNREGISTERED_FILTER: &'static str = "referenced an unregistered filter";

/// Why a sequence of tokens is no query.
pub enum ParseFailure {
    Empty,
    NoLeadingSource,
    MultipleSources,
    UnregisteredFilter,
}

/// `e` is the error that reports `f`.
pub open spec fn reports_parse(e: Error, f: ParseFailure) -> bool {
    e matches Error::MalformedQuery(m) && m@ == match f {
        ParseFailure::Empty => EMPTY_QUERY@,
        ParseFailure::NoLeadingSource => DOES_NOT_START_WITH_SOURCE@,
        ParseFailure::MultipleSources => MULTIPLE_SOURCES@,
        ParseFailure::UnregisteredFilter => UNREGISTERED_FILTER@,
    }
}

/// The states of the filters that the tokens from the `i`-th on bind, in
/// order; literals and parentheses are passed over.
pub open spec fn bind_from<F: Filter>(ts: Seq<TokenView>, i: int, registry: Map<Seq<char>, F>) -> Result<
    Seq<FilterModel>,
    ParseFailure,
>
    decreases ts.len() - i,
{
    if i < 0 || i >= ts.len() {
        Ok(Seq::empty())
    } else {
        let rest = bind_from(ts, i + 1, registry);
        match ts[i] {
            TokenView::Source(_) => Err(ParseFailure::MultipleSources),
            TokenView::Filter(name) => if registry.contains_key(name) {
                match rest {
                    Ok(ms) => Ok(seq![registry[name].model()] + ms),
                    Err(f) => Err(f),
                }
            } else {
                Err(ParseFailure::UnregisteredFilter)
            },
            _ => rest,
        }
    }
}

/// The source name and the filter states of the pipeline that `ts` declares.
pub open spec fn compile<F: Filter>(ts: Seq<TokenView>, registry: Map<Seq<char>, F>) -> Result<
    (Seq<char>, Seq<FilterModel>),
    ParseFailure,
> {
    if ts.len() == 0 {
        Err(ParseFailure::Empty)
    } else {
        match ts[0] {
            TokenView::Source(name) => match bind_from(ts, 1, registry) {
                Ok(ms) => Ok((name, ms)),
                Err(f) => Err(f),
            },
            _ => Err(ParseFailure::NoLeadingSource),
        }
    }
}

/// Why a query text does not compile.
pub enum QueryFailure {
    Lexical(LexFailure),
    Syntax(ParseFailure),
}

/// The source name and the filter states of the pipeline that `query` declares
/// against `registry`.
pub open spec fn compile_query<F: Filter>(query: Seq<char>, registry: Map<Seq<char>, F>) -> Result<
    (Seq<char>, Seq<FilterModel>),
    QueryFailure,
> {
    match lex(query) {
        Err(f) => Err(QueryFailure::Lexical(f)),
        Ok(ts) => match compile(ts, registry) {
            Ok(p) => Ok(p),
            Err(f) => Err(QueryFailure::Syntax(f)),
        },
    }
}

/// `e` is the error that reports `f`.
pub open spec fn reports_query(e: Error, f: QueryFailure) -> bool {
    match f {
        QueryFailure::Lexical(l) => reports(e, l),
        QueryFailure::Syntax(p) => reports_parse(e, p),
    }
}

/// `r` is what compiling must return where the query compiles to `c`.
pub open spec fn compiled_as<F: Filter>(
    r: Result<Pipeline<F>, Error>,
    c: Result<(Seq<char>, Seq<FilterModel>), QueryFailure>,
) -> bool {
    match c {
        Ok((name, ms)) => r matches Ok(p) && p.source_name@ == name && models(p.filters@) == ms,
        Err(f) => r matches Err(e) && reports_query(e, f),
    }
}

/// Compiles a query: splits it into tokens, checks that it names one source
/// first and no other, and binds a fresh copy of each registered filter that
/// it names, in the order of the query.
pub fn parse_pipeline<F: Filter>(filter_registry: &NameTable<F>, query: String) -> (r: Result<
    Pipeline<F>,
    Error,
>)
    ensures
        compiled_as(r, compile_query(query@, filter_registry@)),
{
    let mut lexer = Lexer::new(query);
    let tokens = match lexer.tokenize() {
        Ok(tokens) => tokens,
        Err(e) => {
            return Err(e);
        },
    };
    proof {
        assert(lexed_as(Ok::<Vec<Token>, Error>(tokens), lex(query@)));
    }
    let ghost ts = tokens_view(tokens@);
    if tokens.len() == 0 {
        return Err(Error::MalformedQuery(EMPTY_QUERY.to_owned()));
    }
    let source_name = match &tokens[0] {
        Token::Source(s) => s.clone(),
        _ => {
            return Err(Error::MalformedQuery(DOES_NOT_START_WITH_SOURCE.to_owned()));
        },
    };
    let mut filters: Vec<F> = Vec::new();
    let mut i: usize = 1;
    proof {
        assert(models(filters@) + Seq::<FilterModel>::empty() =~= Seq::<FilterModel>::empty());
        if let Ok(ms) = bind_from(ts, 1, filter_registry@) {
            assert(models(filters@) + ms =~= ms);
        }
    }
    while i < tokens.len()
        invariant
            ts == tokens_view(tokens@),
            lex(query@) == Ok::<Seq<TokenView>, LexFailure>(ts),
            ts.len() > 0,
            ts[0] is Source,
            1 <= i <= tokens@.len(),
            bind_from(ts, 1, filter_registry@) == match bind_from(ts, i as int, filter_registry@) {
                Ok(ms) => Ok(models(filters@) + ms),
                Err(f) => Err(f),
            },
        decreases tokens@.len() - i,
    {
        let ghost done = models(filters@);
        match &tokens[i] {
            Token::Source(_) => {
                return Err(Error::MalformedQuery(MULTIPLE_SOURCES.to_owned()));
            },
            Token::Filter(name) => match filter_registry.get(name) {
                Some(filter) => {
                    filters.push(filter.duplicate());
                    proof {
                        assert(models(filters@) =~= done.push(filter.model()));
                        if let Ok(ms) = bind_from(ts, i + 1, filter_registry@) {
                            assert(done + (seq![filter.model()] + ms) =~= models(filters@) + ms);
                        }
                    }
                },
                None => {
                    return Err(Error::MalformedQuery(UNREGISTERED_FILTER.to_owned()));
                },
            },
            _ => {},
        }
        i += 1;
    }
    proof {
        assert(models(filters@) + Seq::<FilterModel>::empty() =~= models(filters@));
    }
    Ok(Pipeline::new(source_name, filters))
}

} // verus!
