use vstd::prelude::*;

use crate::datum::{seq_view, Datum};
use crate::errors::Error;
use crate::filters::{Filter, FilterModel};
use crate::parser::{compile_query, parse_pipeline, reports_query};
use crate::pipeline::{all_present, described, models, run_chain, run_view, Pipeline};
use crate::table::{lemma_table_update, NameTable};

verus! {

/// A named buffer of data that wait to be processed.
pub struct Source {
    pub name: String,
    pub data: Vec<Datum>,
}

impl Source {
    pub fn new(name: String) -> (r: Source)
        ensures
            r.name@ == name@,
            r.data@ == Seq::<Datum>::empty(),
    {
        Source { name, data: Vec::new() }
    }
}

/// Holds the registered filters, the sources with their pending data, and
/// the pipeline bound to each source name.
pub struct Interpreter<F: Filter> {
    sources: NameTable<Vec<Datum>>,
    pipelines: NameTable<Pipeline<F>>,
    filter_registry: NameTable<F>,
}

/// What processing the source `name` did, where `before` had a pipeline and a
/// source under that name: the source is drained, its data went through the
/// pipeline, and nothing else changed.
pub open spec fn processed<F: Filter>(
    before: Interpreter<F>,
    after: Interpreter<F>,
    name: Seq<char>,
    r: Result<Vec<Option<Datum>>, Error>,
) -> bool {
    let ms = before.pipelines()[name];
    let data = before.sources()[name];
    &&& after.sources() == before.sources().insert(name, Seq::empty())
    &&& after.registry() == before.registry()
    &&& after.pipelines() == before.pipelines().insert(name, after.pipelines()[name])
    &&& after.pipelines()[name].len() == ms.len()
    &&& r matches Ok(out) ==> all_present(out@)
    &&& ms.len() == 0 ==> (r matches Ok(out) && out@ == data.map_values(|d: Datum| Some(d)))
    &&& described(ms) ==> {
        &&& described(after.pipelines()[name])
        &&& after.pipelines()[name] == run_chain(ms, seq_view(data)).0
        &&& run_view(r) == run_chain(ms, seq_view(data)).1
    }
}

impl<F: Filter> Interpreter<F> {
    /// The pending data of each source.
    pub closed spec fn sources(&self) -> Map<Seq<char>, Seq<Datum>> {
        self.sources@.map_values(|v: Vec<Datum>| v@)
    }

    /// The filter states of the pipeline bound to each source name.
    pub closed spec fn pipelines(&self) -> Map<Seq<char>, Seq<FilterModel>> {
        self.pipelines@.map_values(|p: Pipeline<F>| models(p.filters@))
    }

    /// The filters that queries may name.
    pub closed spec fn registry(&self) -> Map<Seq<char>, F> {
        self.filter_registry@
    }

    pub fn new() -> (r: Self)
        ensures
            r.sources() == Map::<Seq<char>, Seq<Datum>>::empty(),
            r.pipelines() == Map::<Seq<char>, Seq<FilterModel>>::empty(),
            r.registry() == Map::<Seq<char>, F>::empty(),
    {
        let r = Interpreter { sources: NameTable::new(), pipelines: NameTable::new(), filter_registry: NameTable::new() };
        assert(r.sources() =~= Map::<Seq<char>, Seq<Datum>>::empty());
        assert(r.pipelines() =~= Map::<Seq<char>, Seq<FilterModel>>::empty());
        r
    }

    /// Compiles `query` and binds the pipeline to its source, in place of any
    /// pipeline bound there before; the source is created, empty, if it is
    /// new. A query that does not compile changes nothing.
    pub fn exec(&mut self, query: String) -> (r: Result<(), Error>)
        ensures
            final(self).registry() == old(self).registry(),
            match compile_query(query@, old(self).registry()) {
                Ok((name, ms)) => {
                    &&& r is Ok
                    &&& final(self).pipelines() == old(self).pipelines().insert(name, ms)
                    &&& final(self).sources() == if old(self).sources().contains_key(name) {
                        old(self).sources()
                    } else {
                        old(self).sources().insert(name, Seq::empty())
                    }
                },
                Err(f) => {
                    &&& r matches Err(e) && reports_query(e, f)
                    &&& final(self).pipelines() == old(self).pipelines()
                    &&& final(self).sources() == old(self).sources()
                },
            },
    {
        let pipeline = match parse_pipeline(&self.filter_registry, query) {
            Ok(p) => p,
            Err(e) => {
                return Err(e);
            },
        };
        if self.sources.find(&pipeline.source_name).is_none() {
            self.sources.insert(pipeline.source_name.clone(), Vec::new());
            proof {
                assert(self.sources() =~= old(self).sources().insert(pipeline.source_name@, Seq::empty()));
            }
        }
        let name = pipeline.source_name.clone();
        self.pipelines.insert(name, pipeline);
        proof {
            assert(self.pipelines() =~= old(self).pipelines().insert(pipeline.source_name@, models(pipeline.filters@)));
        }
        Ok(())
    }

    /// Registers `filter` under `name`, in place of any filter registered there.
    pub fn register_filter(&mut self, name: String, filter: F)
        ensures
            final(self).registry() == old(self).registry().insert(name@, filter),
            final(self).sources() == old(self).sources(),
            final(self).pipelines() == old(self).pipelines(),
    {
        self.filter_registry.insert(name, filter);
    }

    /// Stores `source` under its name, in place of any source stored there.
    pub fn register_source(&mut self, source: Source)
        ensures
            final(self).sources() == old(self).sources().insert(source.name@, source.data@),
            final(self).registry() == old(self).registry(),
            final(self).pipelines() == old(self).pipelines(),
    {
        let ghost data = source.data@;
        self.sources.insert(source.name, source.data);
        proof {
            assert(self.sources() =~= old(self).sources().insert(source.name@, data));
        }
    }

    /// Binds `pipeline` to its source name, in place of any pipeline bound there.
    pub fn register_pipeline(&mut self, pipeline: Pipeline<F>)
        ensures
            final(self).pipelines() == old(self).pipelines().insert(pipeline.source_name@, models(pipeline.filters@)),
            final(self).registry() == old(self).registry(),
            final(self).sources() == old(self).sources(),
    {
        let name = pipeline.source_name.clone();
        let ghost ms = models(pipeline.filters@);
        self.pipelines.insert(name, pipeline);
        proof {
            assert(self.pipelines() =~= old(self).pipelines().insert(pipeline.source_name@, ms));
        }
    }

    /// Appends `data` to the pending data of the source `name`.
    pub fn push_data_to_source(&mut self, name: String, data: Vec<Datum>) -> (r: Result<(), Error>)
        ensures
            final(self).registry() == old(self).registry(),
            final(self).pipelines() == old(self).pipelines(),
            old(self).sources().contains_key(name@) ==> r is Ok && final(self).sources() == old(self).sources().insert(
                name@,
                old(self).sources()[name@] + data@,
            ),
            !old(self).sources().contains_key(name@) ==> r == Err::<(), Error>(Error::CannotPushToUnregisteredSource)
                && final(self).sources() == old(self).sources(),
    {
        match self.sources.find(&name) {
            Some(i) => {
                let ghost before = self.sources;
                let mut data = data;
                let ghost added = data@;
                self.sources.entries[i].1.append(&mut data);
                proof {
                    lemma_table_update(before, self.sources, i as int);
                    assert(self.sources() =~= old(self).sources().insert(name@, old(self).sources()[name@] + added));
                }
                Ok(())
            },
            None => Err(Error::CannotPushToUnregisteredSource),
        }
    }

    /// Drains the source `source_name` and runs its data through the pipeline
    /// bound to it. Where a filter fails, the run stops and its error is
    /// returned: the drained data are gone and the filters keep the state
    /// they reached.
    pub fn process_source(&mut self, source_name: String) -> (r: Result<Vec<Option<Datum>>, Error>)
        ensures
            old(self).pipelines().contains_key(source_name@) && old(self).sources().contains_key(source_name@)
                ==> processed(*old(self), *final(self), source_name@, r),
            !(old(self).pipelines().contains_key(source_name@) && old(self).sources().contains_key(source_name@))
                ==> {
                &&& r == Err::<Vec<Option<Datum>>, Error>(Error::CannotReadFromUnregisteredSource)
                &&& final(self).sources() == old(self).sources()
                &&& final(self).pipelines() == old(self).pipelines()
                &&& final(self).registry() == old(self).registry()
            },
    {
        let i = match self.pipelines.find(&source_name) {
            Some(i) => i,
            None => {
                return Err(Error::CannotReadFromUnregisteredSource);
            },
        };
        let j = match self.sources.find(&source_name) {
            Some(j) => j,
            None => {
                return Err(Error::CannotReadFromUnregisteredSource);
            },
        };
        let ghost sources_before = self.sources;
        let mut data: Vec<Datum> = Vec::new();
        std::mem::swap(&mut data, &mut self.sources.entries[j].1);
        proof {
            lemma_table_update(sources_before, self.sources, j as int);
            assert(self.sources() =~= old(self).sources().insert(source_name@, Seq::empty()));
        }
        let ghost pipelines_before = self.pipelines;
        let r = self.pipelines.entries[i].1.run(data);
        proof {
            lemma_table_update(pipelines_before, self.pipelines, i as int);
            assert(self.pipelines() =~= old(self).pipelines().insert(
                source_name@,
                models(self.pipelines.entries@[i as int].1.filters@),
            ));
        }
        r
    }
}

impl<F: Filter> Default for Interpreter<F> {
    fn default() -> (r: Self)
        ensures
            r.sources() == Map::<Seq<char>, Seq<Datum>>::empty(),
            r.pipelines() == Map::<Seq<char>, Seq<FilterModel>>::empty(),
            r.registry() == Map::<Seq<char>, F>::empty(),
    {
        Self::new()
    }
}

} // verus!
