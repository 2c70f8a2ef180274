use vstd::prelude::*;

use crate::datum::{seq_view, Datum, DatumView};
use crate::errors::Error;
use crate::filters::{model_step, Batch, Filter, FilterModel, GreaterThan};
use crate::interpreter::{processed, Interpreter};
use crate::lexer::{lex, TokenView};
use crate::parser::{
    bind_from, compile, compile_query, ParseFailure, QueryFailure, DOES_NOT_START_WITH_SOURCE, EMPTY_QUERY,
    MULTIPLE_SOURCES, UNREGISTERED_FILTER,
};
use crate::pipeline::{chain, chain_from, models, run_chain};

verus! {

/// A threshold filter lets an integer through exactly when it is above the
/// threshold, keeps its state, and fails on anything that is no integer.
pub proof fn lemma_greater_than(f: GreaterThan, d: Datum)
    ensures
        model_step(f.model(), d@).0 == f.model(),
        d@ matches DatumView::Integer(i) ==> model_step(f.model(), d@).1 == if i > f.op {
            Ok::<Option<DatumView>, Error>(Some(d@))
        } else {
            Ok::<Option<DatumView>, Error>(None)
        },
        d@ is List ==> model_step(f.model(), d@).1 == Err::<Option<DatumView>, Error>(Error::FilterCannotProcessDataType),
{
}

/// The first `count` lists of `n` consecutive inputs.
pub open spec fn batches(inputs: Seq<DatumView>, n: int, count: int) -> Seq<DatumView> {
    Seq::new(count as nat, |j: int| DatumView::List(inputs.subrange(j * n, j * n + n)))
}

/// An empty batch filter of size `n`, alone in a chain.
pub open spec fn fresh_batch(n: usize) -> Seq<FilterModel> {
    seq![FilterModel::Batch { size: n, pending: Seq::empty() }]
}

/// A chain that holds only an empty batch filter is in the state that
/// `lemma_batch_run` starts from.
pub proof fn lemma_fresh_batch(b: Batch)
    requires
        b.in_progress@.len() == 0,
    ensures
        models(seq![b]) == fresh_batch(b.n),
{
    assert(seq_view(b.in_progress@) =~= Seq::<DatumView>::empty());
    assert(models(seq![b]) =~= fresh_batch(b.n));
}

proof fn lemma_batch_prefix(n: usize, inputs: Seq<DatumView>, k: int, q: int, r: int)
    requires
        n >= 1,
        0 <= k <= inputs.len(),
        0 <= q,
        0 <= r < n,
        k == q * n + r,
    ensures
        run_chain(fresh_batch(n), inputs.take(k)) == (
            seq![FilterModel::Batch { size: n, pending: inputs.subrange(q * n, k) }],
            Ok::<Seq<DatumView>, Error>(batches(inputs, n as int, q)),
        ),
    decreases k,
{
    let ms = fresh_batch(n);
    if k == 0 {
        assert(q == 0) by (nonlinear_arith)
            requires
                q * n + r == 0,
                q >= 0,
                r >= 0,
                n >= 1,
        ;
        assert(inputs.take(0) =~= Seq::<DatumView>::empty());
        assert(inputs.subrange(0, 0) =~= Seq::<DatumView>::empty());
        assert(batches(inputs, n as int, 0) =~= Seq::<DatumView>::empty());
    } else {
        let t = inputs.take(k);
        assert(t.drop_last() =~= inputs.take(k - 1));
        assert(t.last() == inputs[k - 1]);
        let x = inputs[k - 1];
        if r > 0 {
            lemma_batch_prefix(n, inputs, k - 1, q, r - 1);
            let pending = inputs.subrange(q * n, k - 1);
            assert(pending.push(x) =~= inputs.subrange(q * n, k));
            let before = seq![FilterModel::Batch { size: n, pending }];
            assert(chain(before, x).0 =~= seq![FilterModel::Batch { size: n, pending: pending.push(x) }]);
        } else {
            assert(q >= 1) by (nonlinear_arith)
                requires
                    q * n == k,
                    k > 0,
                    q >= 0,
            ;
            assert((q - 1) * n + (n - 1) == k - 1) by (nonlinear_arith)
                requires
                    k == q * n,
            ;
            lemma_batch_prefix(n, inputs, k - 1, q - 1, n - 1);
            let start = (q - 1) * n;
            let pending = inputs.subrange(start, k - 1);
            let full = inputs.subrange(start, k);
            assert(pending.push(x) =~= full);
            let before = seq![FilterModel::Batch { size: n, pending }];
            let emptied = before.update(0, FilterModel::Batch { size: n, pending: Seq::empty() });
            assert(chain(before, x) == chain_from(emptied, 1, DatumView::List(full)));
            assert(inputs.subrange(q * n, k) =~= Seq::<DatumView>::empty());
            assert(emptied =~= seq![FilterModel::Batch { size: n, pending: inputs.subrange(q * n, k) }]);
            assert(start + n == k) by (nonlinear_arith)
                requires
                    start == (q - 1) * n,
                    k == q * n,
            ;
            assert(batches(inputs, n as int, q - 1).push(DatumView::List(full)) =~= batches(inputs, n as int, q));
        }
    }
}

/// A batch filter of size `n` fed `L` data emits `L / n` lists, each of `n`
/// consecutive inputs in their order, and keeps the last `L % n` inputs
/// pending: they are not emitted.
pub proof fn lemma_batch_run(n: usize, inputs: Seq<DatumView>)
    requires
        n >= 1,
    ensures
        ({
            let count = inputs.len() as int / n as int;
            let rest = inputs.len() as int % n as int;
            run_chain(fresh_batch(n), inputs) == (
                seq![FilterModel::Batch { size: n, pending: inputs.subrange(inputs.len() - rest, inputs.len() as int) }],
                Ok::<Seq<DatumView>, Error>(batches(inputs, n as int, count)),
            )
        }),
{
    let len = inputs.len() as int;
    let q = len / n as int;
    let r = len % n as int;
    vstd::arithmetic::div_mod::lemma_fundamental_div_mod(len, n as int);
    assert(q * n == n * q) by (nonlinear_arith);
    lemma_batch_prefix(n, inputs, len, q, r);
    assert(inputs.take(len) =~= inputs);
}

/// Processing one source changes neither the pipeline bound to any other
/// source nor the registered filters: pipelines that bound the same
/// registered filter each hold their own copy, whose state evolves alone.
pub proof fn lemma_pipelines_independent<F: Filter>(
    before: Interpreter<F>,
    after: Interpreter<F>,
    a: Seq<char>,
    b: Seq<char>,
    r: Result<Vec<Option<Datum>>, Error>,
)
    requires
        before.pipelines().contains_key(a),
        processed(before, after, a, r),
        a != b,
    ensures
        after.pipelines().contains_key(b) == before.pipelines().contains_key(b),
        before.pipelines().contains_key(b) ==> after.pipelines()[b] == before.pipelines()[b],
        after.registry() == before.registry(),
{
}

/// A token that binds without failing: no source, and no filter that the
/// registry lacks.
pub open spec fn binds<F: Filter>(t: TokenView, registry: Map<Seq<char>, F>) -> bool {
    &&& !(t is Source)
    &&& t matches TokenView::Filter(name) ==> registry.contains_key(name)
}

/// Binding fails at the first token that cannot be bound.
proof fn lemma_bind_fails_at<F: Filter>(ts: Seq<TokenView>, i: int, j: int, registry: Map<Seq<char>, F>)
    requires
        0 <= i <= j < ts.len(),
        forall|m: int| i <= m < j ==> binds(#[trigger] ts[m], registry),
        !binds(ts[j], registry),
    ensures
        bind_from(ts, i, registry) == if ts[j] is Source {
            Err::<Seq<FilterModel>, ParseFailure>(ParseFailure::MultipleSources)
        } else {
            Err::<Seq<FilterModel>, ParseFailure>(ParseFailure::UnregisteredFilter)
        },
    decreases j - i,
{
    if i < j {
        lemma_bind_fails_at(ts, i + 1, j, registry);
        assert(binds(ts[i], registry));
    }
}

/// A query is rejected when it has no token, when its first token is no
/// source, when a second source follows, and when it names a filter that is
/// not registered; in the last two cases the first such token decides.
pub proof fn lemma_compile_rejects<F: Filter>(ts: Seq<TokenView>, registry: Map<Seq<char>, F>)
    ensures
        ts.len() == 0 ==> compile(ts, registry) == Err::<(Seq<char>, Seq<FilterModel>), ParseFailure>(
            ParseFailure::Empty,
        ),
        ts.len() > 0 && !(ts[0] is Source) ==> compile(ts, registry) == Err::<
            (Seq<char>, Seq<FilterModel>),
            ParseFailure,
        >(ParseFailure::NoLeadingSource),
        forall|j: int|
            #![trigger ts[j]]
            1 <= j < ts.len() && ts[0] is Source && ts[j] is Source && (forall|m: int|
                1 <= m < j ==> binds(#[trigger] ts[m], registry)) ==> compile(ts, registry) == Err::<
                (Seq<char>, Seq<FilterModel>),
                ParseFailure,
            >(ParseFailure::MultipleSources),
        forall|j: int|
            #![trigger ts[j]]
            1 <= j < ts.len() && ts[0] is Source && (ts[j] matches TokenView::Filter(name)
                && !registry.contains_key(name)) && (forall|m: int|
                1 <= m < j ==> binds(#[trigger] ts[m], registry)) ==> compile(ts, registry) == Err::<
                (Seq<char>, Seq<FilterModel>),
                ParseFailure,
            >(ParseFailure::UnregisteredFilter),
{
    assert forall|j: int|
        #![trigger ts[j]]
        1 <= j < ts.len() && ts[0] is Source && !binds(ts[j], registry) && (forall|m: int|
            1 <= m < j ==> binds(#[trigger] ts[m], registry)) implies bind_from(ts, 1, registry) == if ts[j] is Source {
        Err::<Seq<FilterModel>, ParseFailure>(ParseFailure::MultipleSources)
    } else {
        Err::<Seq<FilterModel>, ParseFailure>(ParseFailure::UnregisteredFilter)
    } by {
        lemma_bind_fails_at(ts, 1, j, registry);
    }
}

/// An empty query text is rejected as empty.
pub proof fn lemma_empty_query<F: Filter>(registry: Map<Seq<char>, F>)
    ensures
        compile_query(Seq::<char>::empty(), registry) == Err::<(Seq<char>, Seq<FilterModel>), QueryFailure>(
            QueryFailure::Syntax(ParseFailure::Empty),
        ),
{
    assert(lex(Seq::<char>::empty()) == Ok::<Seq<TokenView>, crate::lexer::LexFailure>(Seq::empty()));
}

/// The four reasons for which a token sequence is rejected read differently.
pub proof fn lemma_parse_reasons_distinct()
    ensures
        EMPTY_QUERY@ != DOES_NOT_START_WITH_SOURCE@,
        EMPTY_QUERY@ != MULTIPLE_SOURCES@,
        EMPTY_QUERY@ != UNREGISTERED_FILTER@,
        DOES_NOT_START_WITH_SOURCE@ != MULTIPLE_SOURCES@,
        DOES_NOT_START_WITH_SOURCE@ != UNREGISTERED_FILTER@,
        MULTIPLE_SOURCES@ != UNREGISTERED_FILTER@,
{
    reveal_strlit("query cannot be empty");
    reveal_strlit("query must start with source");
    reveal_strlit("cannot have multiple sources");
    reveal_strlit("referenced an unregistered filter");
    assert(EMPTY_QUERY@[0] != MULTIPLE_SOURCES@[0]);
    assert(EMPTY_QUERY@.len() != DOES_NOT_START_WITH_SOURCE@.len());
    assert(EMPTY_QUERY@[0] != UNREGISTERED_FILTER@[0]);
    assert(DOES_NOT_START_WITH_SOURCE@[0] != MULTIPLE_SOURCES@[0]);
    assert(DOES_NOT_START_WITH_SOURCE@[0] != UNREGISTERED_FILTER@[0]);
    assert(MULTIPLE_SOURCES@[0] != UNREGISTERED_FILTER@[0]);
}

} // verus!
