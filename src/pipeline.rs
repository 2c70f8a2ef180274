use vstd::prelude::*;

use crate::datum::{lemma_seq_view, seq_view, Datum, DatumView};
use crate::errors::Error;
use crate::filters::{model_step, outcome_view, Filter, FilterModel};

verus! {

/// The states of a chain of filters.
pub open spec fn models<F: Filter>(fs: Seq<F>) -> Seq<FilterModel> {
    fs.map_values(|f: F| f.model())
}

/// Every filter of the chain states its behaviour.
pub open spec fn described(ms: Seq<FilterModel>) -> bool {
    forall|i: int| 0 <= i < ms.len() ==> !(#[trigger] ms[i] is Opaque)
}

/// Feeds `d` to the filters of `ms` from the `i`-th on: the states after, and
/// what leaves the end of the chain (`Ok(None)` where a filter suppressed it).
pub open spec fn chain_from(ms: Seq<FilterModel>, i: int, d: DatumView) -> (
    Seq<FilterModel>,
    Result<Option<DatumView>, Error>,
)
    decreases ms.len() - i,
{
    if i < 0 || i >= ms.len() {
        (ms, Ok(Some(d)))
    } else {
        let (m, out) = model_step(ms[i], d);
        let next = ms.update(i, m);
        match out {
            Ok(Some(e)) => chain_from(next, i + 1, e),
            _ => (next, out),
        }
    }
}

/// Feeds `d` to the whole chain.
pub open spec fn chain(ms: Seq<FilterModel>, d: DatumView) -> (
    Seq<FilterModel>,
    Result<Option<DatumView>, Error>,
) {
    chain_from(ms, 0, d)
}

/// Runs each of `inputs` through the chain in turn: the states after, and the
/// data that came out in order, or the first failure.
pub open spec fn run_chain(ms: Seq<FilterModel>, inputs: Seq<DatumView>) -> (
    Seq<FilterModel>,
    Result<Seq<DatumView>, Error>,
)
    decreases inputs.len(),
{
    if inputs.len() == 0 {
        (ms, Ok(Seq::empty()))
    } else {
        let (before, done) = run_chain(ms, inputs.drop_last());
        match done {
            Err(e) => (before, Err(e)),
            Ok(outs) => {
                let (after, out) = chain(before, inputs.last());
                match out {
                    Err(e) => (after, Err(e)),
                    Ok(None) => (after, Ok(outs)),
                    Ok(Some(x)) => (after, Ok(outs.push(x))),
                }
            },
        }
    }
}

/// Once a run has failed, later inputs change nothing.
pub proof fn lemma_run_chain_failed(ms: Seq<FilterModel>, inputs: Seq<DatumView>, k: int)
    requires
        0 <= k <= inputs.len(),
        run_chain(ms, inputs.take(k)).1 is Err,
    ensures
        run_chain(ms, inputs) == run_chain(ms, inputs.take(k)),
    decreases inputs.len() - k,
{
    if k < inputs.len() {
        let next = inputs.take(k + 1);
        assert(next.drop_last() =~= inputs.take(k));
        lemma_run_chain_failed(ms, inputs, k + 1);
    } else {
        assert(inputs.take(k) =~= inputs);
    }
}

/// The values of a pipeline's output.
pub open spec fn output_view(out: Seq<Option<Datum>>) -> Seq<DatumView> {
    out.map_values(|o: Option<Datum>| o.unwrap()@)
}

/// Every element of a pipeline's output is present.
pub open spec fn all_present(out: Seq<Option<Datum>>) -> bool {
    forall|i: int| 0 <= i < out.len() ==> #[trigger] out[i] is Some
}

/// The value of what a pipeline run returned.
pub open spec fn run_view(r: Result<Vec<Option<Datum>>, Error>) -> Result<Seq<DatumView>, Error> {
    match r {
        Ok(out) => Ok(output_view(out@)),
        Err(e) => Err(e),
    }
}

/// A compiled query: the name of the source it reads and the chain of filters
/// that each datum of that source goes through.
pub struct Pipeline<F: Filter> {
    pub source_name: String,
    pub filters: Vec<F>,
}

impl<F: Filter> Pipeline<F> {
    pub fn new(source_name: String, filters: Vec<F>) -> (r: Self)
        ensures
            r.source_name@ == source_name@,
            r.filters@ == filters@,
    {
        Pipeline { source_name, filters }
    }

    /// Feeds one datum through the chain, each filter in turn, and stops at
    /// the first filter that suppresses it or fails.
    pub fn apply(&mut self, datum: Datum) -> (r: Result<Option<Datum>, Error>)
        ensures
            final(self).source_name@ == old(self).source_name@,
            final(self).filters@.len() == old(self).filters@.len(),
            old(self).filters@.len() == 0 ==> r == Ok::<Option<Datum>, Error>(Some(datum)),
            described(models(old(self).filters@)) ==> {
                &&& described(models(final(self).filters@))
                &&& models(final(self).filters@) == chain(models(old(self).filters@), datum@).0
                &&& outcome_view(r) == chain(models(old(self).filters@), datum@).1
            },
    {
        let ghost start = models(self.filters@);
        let mut current: Datum = datum;
        let mut i: usize = 0;
        while i < self.filters.len()
            invariant
                start == models(old(self).filters@),
                self.source_name@ == old(self).source_name@,
                self.filters@.len() == old(self).filters@.len(),
                i <= self.filters@.len(),
                old(self).filters@.len() == 0 ==> current == datum,
                described(start) ==> {
                    &&& described(models(self.filters@))
                    &&& chain(start, datum@) == chain_from(models(self.filters@), i as int, current@)
                },
            decreases self.filters@.len() - i,
        {
            let ghost before = models(self.filters@);
            let ghost seen = current@;
            let out = self.filters[i].exec(current);
            proof {
                if described(start) {
                    let after = models(self.filters@);
                    assert(after =~= before.update(i as int, model_step(before[i as int], seen).0));
                    assert(described(after));
                    assert(outcome_view(out) == model_step(before[i as int], seen).1);
                    assert(chain_from(before, i as int, seen) == match outcome_view(out) {
                        Ok(Some(e)) => chain_from(after, i + 1, e),
                        _ => (after, outcome_view(out)),
                    });
                }
            }
            match out {
                Ok(Some(d)) => {
                    current = d;
                },
                Ok(None) => {
                    return Ok(None);
                },
                Err(e) => {
                    return Err(e);
                },
            }
            i += 1;
        }
        Ok(Some(current))
    }

    /// Runs each datum of `data`, in order, through the chain and returns what
    /// came out of it, in the same order; a suppressed datum leaves nothing.
    /// The first failure of a filter ends the run: it returns that error and
    /// no output (the filters keep the state they reached).
    pub fn run(&mut self, data: Vec<Datum>) -> (r: Result<Vec<Option<Datum>>, Error>)
        ensures
            final(self).source_name@ == old(self).source_name@,
            final(self).filters@.len() == old(self).filters@.len(),
            r matches Ok(out) ==> all_present(out@),
            old(self).filters@.len() == 0 ==> (r matches Ok(out) && out@ == data@.map_values(
                |d: Datum| Some(d),
            )),
            described(models(old(self).filters@)) ==> {
                &&& described(models(final(self).filters@))
                &&& models(final(self).filters@) == run_chain(models(old(self).filters@), seq_view(data@)).0
                &&& run_view(r) == run_chain(models(old(self).filters@), seq_view(data@)).1
            },
    {
        let ghost start = models(self.filters@);
        let ghost inputs = seq_view(data@);
        let ghost given = data@;
        proof {
            lemma_seq_view(data@);
        }
        let mut queue = data;
        let mut out: Vec<Option<Datum>> = Vec::new();
        proof {
            assert(inputs.take(0) =~= Seq::<DatumView>::empty());
            assert(output_view(out@) =~= Seq::<DatumView>::empty());
        }
        let mut k: usize = 0;
        while k < queue.len()
            invariant
                start == models(old(self).filters@),
                inputs == seq_view(given),
                inputs.len() == given.len(),
                forall|j: int| 0 <= j < given.len() ==> #[trigger] inputs[j] == given[j]@,
                given == data@,
                queue@.len() == given.len(),
                forall|j: int| k <= j < given.len() ==> #[trigger] queue@[j] == given[j],
                k <= given.len(),
                self.source_name@ == old(self).source_name@,
                self.filters@.len() == old(self).filters@.len(),
                all_present(out@),
                old(self).filters@.len() == 0 ==> out@ == given.take(k as int).map_values(
                    |d: Datum| Some(d),
                ),
                described(start) ==> {
                    &&& described(models(self.filters@))
                    &&& run_chain(start, inputs.take(k as int)) == (
                        models(self.filters@),
                        Ok::<Seq<DatumView>, Error>(output_view(out@)),
                    )
                },
            decreases given.len() - k,
        {
            let mut datum = Datum::Integer(0);
            std::mem::swap(&mut datum, &mut queue[k]);
            let ghost before = models(self.filters@);
            let ghost outs = output_view(out@);
            let ghost seen = datum@;
            let step = self.apply(datum);
            proof {
                let next = inputs.take(k + 1);
                assert(next.drop_last() =~= inputs.take(k as int));
                assert(next.last() == seen);
                if described(start) {
                    assert(run_chain(start, next) == match chain(before, seen).1 {
                        Err(e) => (chain(before, seen).0, Err(e)),
                        Ok(None) => (chain(before, seen).0, Ok(outs)),
                        Ok(Some(x)) => (chain(before, seen).0, Ok(outs.push(x))),
                    });
                }
            }
            match step {
                Ok(Some(d)) => {
                    out.push(Some(d));
                    proof {
                        assert(output_view(out@) =~= outs.push(d@));
                        if old(self).filters@.len() == 0 {
                            assert(out@ =~= given.take(k + 1).map_values(|d: Datum| Some(d)));
                        }
                    }
                },
                Ok(None) => {},
                Err(e) => {
                    proof {
                        if described(start) {
                            lemma_run_chain_failed(start, inputs, k + 1);
                        }
                    }
                    return Err(e);
                },
            }
            k += 1;
        }
        proof {
            assert(inputs.take(k as int) =~= inputs);
            assert(given.take(k as int) =~= given);
        }
        Ok(out)
    }
}

} // verus!
