use vstd::prelude::*;

use crate::datum::{lemma_seq_view, lemma_seq_view_push, seq_view, Datum, DatumView};
use crate::errors::Error;

verus! {

/// What a filter states of its own behaviour: the state that decides what it
/// does with the next datum.
pub enum FilterModel {
    /// A filter that states nothing of what it does.
    Opaque,
    /// Lets through the integers above the threshold.
    Threshold(i64),
    /// Gathers data into lists of `size`; `pending` is what it holds so far.
    Batch { size: usize, pending: Seq<DatumView> },
}

/// The next state and the outcome of feeding `d` to a filter in state `m`.
pub open spec fn model_step(m: FilterModel, d: DatumView) -> (FilterModel, Result<Option<DatumView>, Error>) {
    match m {
        FilterModel::Opaque => (m, Ok(None)),
        FilterModel::Threshold(k) => match d {
            DatumView::Integer(i) => (m, if i > k { Ok(Some(d)) } else { Ok(None) }),
            DatumView::List(_) => (m, Err(Error::FilterCannotProcessDataType)),
        },
        FilterModel::Batch { size, pending } => if pending.len() + 1 >= size {
            (FilterModel::Batch { size, pending: Seq::empty() }, Ok(Some(DatumView::List(pending.push(d)))))
        } else {
            (FilterModel::Batch { size, pending: pending.push(d) }, Ok(None))
        },
    }
}

/// The value of a filter's outcome.
pub open spec fn outcome_view(r: Result<Option<Datum>, Error>) -> Result<Option<DatumView>, Error> {
    match r {
        Ok(Some(d)) => Ok(Some(d@)),
        Ok(None) => Ok(None),
        Err(e) => Err(e),
    }
}

/// A transform applied to each datum of a pipeline, one at a time. It may
/// keep state from one datum to the next.
pub trait Filter: Sized {
    /// What this filter states of its behaviour; a filter that states
    /// nothing keeps the default.
    open spec fn model(&self) -> FilterModel {
        FilterModel::Opaque
    }

    /// Emits a datum (`Ok(Some(..))`), suppresses this one (`Ok(None)`), or fails.
    fn exec(&mut self, datum: Datum) -> (r: Result<Option<Datum>, Error>)
        ensures
            !(old(self).model() is Opaque) ==> final(self).model() == model_step(old(self).model(), datum@).0
                && outcome_view(r) == model_step(old(self).model(), datum@).1,
    ;

    /// A fresh instance in the same state, which shares nothing with this one.
    fn duplicate(&self) -> (r: Self)
        ensures
            r.model() == self.model(),
    ;
}

/// Lets through the integers greater than `op`.
pub struct GreaterThan {
    pub op: i64,
}

impl Filter for GreaterThan {
    open spec fn model(&self) -> FilterModel {
        FilterModel::Threshold(self.op)
    }

    fn exec(&mut self, datum: Datum) -> (r: Result<Option<Datum>, Error>) {
        match datum {
            Datum::Integer(i) => {
                if i <= self.op {
                    return Ok(None);
                }
                Ok(Some(datum))
            },
            _ => Err(Error::FilterCannotProcessDataType),
        }
    }

    fn duplicate(&self) -> (r: Self) {
        GreaterThan { op: self.op }
    }
}

/// Gathers its input into lists of `n` data, in arrival order. A list is
/// emitted once it is full; a partial one stays in `in_progress`, and nothing
/// flushes it. With `n == 0` each datum is emitted alone, as with `n == 1`.
pub struct Batch {
    pub n: usize,
    pub in_progress: Vec<Datum>,
}

impl Filter for Batch {
    open spec fn model(&self) -> FilterModel {
        FilterModel::Batch { size: self.n, pending: seq_view(self.in_progress@) }
    }

    fn exec(&mut self, datum: Datum) -> (r: Result<Option<Datum>, Error>) {
        proof {
            lemma_seq_view_push(self.in_progress@, datum);
            lemma_seq_view(self.in_progress@);
        }
        self.in_progress.push(datum);
        if self.in_progress.len() >= self.n {
            let mut full: Vec<Datum> = Vec::new();
            std::mem::swap(&mut full, &mut self.in_progress);
            proof {
                assert(seq_view(self.in_progress@) =~= Seq::<DatumView>::empty());
            }
            return Ok(Some(Datum::Vec(full)));
        }
        Ok(None)
    }

    fn duplicate(&self) -> (r: Self) {
        let mut copy: Vec<Datum> = Vec::new();
        let mut i: usize = 0;
        while i < self.in_progress.len()
            invariant
                i <= self.in_progress@.len(),
                copy@.len() == i,
                forall|j: int| 0 <= j < i ==> #[trigger] copy@[j]@ == self.in_progress@[j]@,
            decreases self.in_progress@.len() - i,
        {
            copy.push(self.in_progress[i].duplicate());
            i += 1;
        }
        proof {
            lemma_seq_view(copy@);
            lemma_seq_view(self.in_progress@);
            assert(seq_view(copy@) =~= seq_view(self.in_progress@));
        }
        Batch { n: self.n, in_progress: copy }
    }
}

} // verus!
