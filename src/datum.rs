use vstd::prelude::*;

verus! {

/// A single value flowing through a pipeline: an integer, or an ordered
/// sequence of values built by an aggregating filter.
#[derive(Debug, PartialEq, Eq)]
pub enum Datum {
    Integer(i64),
    Vec(Vec<Datum>),
}

/// The mathematical value of a `Datum`.
pub enum DatumView {
    Integer(i64),
    List(Seq<DatumView>),
}

/// The mathematical value of a datum, all the way down.
pub open spec fn datum_view(d: Datum) -> DatumView
    decreases d, 0nat,
{
    match d {
        Datum::Integer(i) => DatumView::Integer(i),
        Datum::Vec(v) => DatumView::List(seq_view(v@)),
    }
}

/// The values of a sequence of data, element by element.
pub open spec fn seq_view(s: Seq<Datum>) -> Seq<DatumView>
    decreases s, 1nat,
{
    if s.len() == 0 {
        Seq::empty()
    } else {
        seq_view(s.drop_last()).push(datum_view(s.last()))
    }
}

impl View for Datum {
    type V = DatumView;

    open spec fn view(&self) -> DatumView {
        datum_view(*self)
    }
}

impl Datum {
    /// An independent copy of this value.
    pub fn duplicate(&self) -> (r: Datum)
        ensures
            r@ == self@,
        decreases self,
    {
        match self {
            Datum::Integer(i) => {
                Datum::Integer(*i)
            },
            Datum::Vec(v) => {
                let mut out: Vec<Datum> = Vec::new();
                let mut i: usize = 0;
                while i < v.len()
                    invariant
                        *self == Datum::Vec(*v),
                        i <= v@.len(),
                        out@.len() == i,
                        forall|j: int| 0 <= j < i ==> #[trigger] out@[j]@ == v@[j]@,
                    decreases v@.len() - i,
                {
                    proof {
                        assert(decreases_to!(*self => self->Vec_0));
                        assert(decreases_to!(*v => v@));
                        assert(decreases_to!(v@ => v@[i as int]));
                    }
                    out.push(v[i].duplicate());
                    i += 1;
                }
                let r = Datum::Vec(out);
                proof {
                    lemma_seq_view(out@);
                    lemma_seq_view(v@);
                    assert(seq_view(out@) =~= seq_view(v@));
                }
                assert(r@ == self@);
                r
            },
        }
    }
}

impl Clone for Datum {
    fn clone(&self) -> Datum {
        self.duplicate()
    }
}

/// `seq_view` keeps the length and maps each element to its view.
pub proof fn lemma_seq_view(s: Seq<Datum>)
    ensures
        seq_view(s).len() == s.len(),
        forall|i: int| 0 <= i < s.len() ==> #[trigger] seq_view(s)[i] == s[i]@,
    decreases s.len(),
{
    if s.len() > 0 {
        lemma_seq_view(s.drop_last());
    }
}

/// `seq_view` distributes over appending one element.
pub proof fn lemma_seq_view_push(s: Seq<Datum>, d: Datum)
    ensures
        seq_view(s.push(d)) == seq_view(s).push(d@),
{
    assert(s.push(d).drop_last() =~= s);
}

} // verus!
