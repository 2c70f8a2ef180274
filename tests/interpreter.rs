use query_pipeline::{
    parse_pipeline, Batch, Datum, Error, Filter, GreaterThan, Interpreter, NameTable, Pipeline, Source,
};

#[derive(Clone)]
struct Double;

impl Filter for Double {
    fn exec(&mut self, datum: Datum) -> Result<Option<Datum>, Error> {
        match datum {
            Datum::Integer(i) => Ok(Some(Datum::Integer(i * 2))),
            _ => Err(Error::FilterCannotProcessDataType),
        }
    }

    fn duplicate(&self) -> Self {
        Double
    }
}

fn one_two_three() -> Vec<Datum> {
    vec![Datum::Integer(1), Datum::Integer(2), Datum::Integer(3)]
}

fn batch(n: usize) -> Batch {
    Batch {
        n,
        in_progress: vec![],
    }
}

fn reason(e: Error) -> String {
    match e {
        Error::MalformedQuery(m) => m,
        other => panic!("expected a malformed query, got {:?}", other),
    }
}

#[test]
fn can_run_empty_pipeline() {
    let mut interpreter: Interpreter<GreaterThan> = Interpreter::new();

    let source = Source::new("sensor".into());
    interpreter.register_source(source);

    let data = vec![Datum::Integer(4)];
    interpreter
        .push_data_to_source("sensor".into(), data)
        .expect("could not push to interpreter");

    let pipeline = Pipeline::new("sensor".into(), vec![]);
    interpreter.register_pipeline(pipeline);

    let data_out = interpreter
        .process_source("sensor".into())
        .expect("error returned from pipeline");
    assert_eq!(data_out.len(), 1);
    assert_eq!(data_out[0], Some(Datum::Integer(4)));
}

#[test]
fn can_run_pipeline_with_filters() {
    let mut interpreter = Interpreter::new();
    let source = Source::new("sensor".into());
    interpreter.register_source(source);

    let data = vec![Datum::Integer(4)];
    interpreter
        .push_data_to_source("sensor".into(), data)
        .expect("could not push to interpreter");

    let pipeline = Pipeline::new("sensor".into(), vec![Double, Double]);
    interpreter.register_pipeline(pipeline);

    let data_out = interpreter
        .process_source("sensor".into())
        .expect("error returned from pipeline");
    assert_eq!(data_out.len(), 1);
    assert_eq!(data_out[0], Some(Datum::Integer(16)));
}

#[test]
fn can_handle_none_returns_from_filter() {
    let mut interpreter = Interpreter::new();
    let source = Source::new("sensor".into());
    interpreter.register_source(source);

    let data = vec![Datum::Integer(3), Datum::Integer(42)];
    interpreter
        .push_data_to_source("sensor".into(), data)
        .expect("could not push to interpreter");

    let pipeline = Pipeline::new("sensor".into(), vec![GreaterThan { op: 12 }]);
    interpreter.register_pipeline(pipeline);

    let data_out = interpreter
        .process_source("sensor".into())
        .expect("error returned from pipeline");
    assert_eq!(data_out.len(), 1);
    assert_eq!(data_out[0], Some(Datum::Integer(42)));
}

#[test]
fn can_handle_aggregate_filters() {
    let mut interpreter = Interpreter::new();
    let source = Source::new("sensor".into());
    interpreter.register_source(source);

    let data = one_two_three();
    interpreter
        .push_data_to_source("sensor".into(), data.clone())
        .expect("could not push to interpreter");

    let pipeline = Pipeline::new("sensor".into(), vec![batch(2)]);
    interpreter.register_pipeline(pipeline);

    let data_out = interpreter
        .process_source("sensor".into())
        .expect("error returned from pipeline");
    assert_eq!(data_out.len(), 1);
    assert_eq!(
        data_out[0],
        Some(Datum::Vec(vec!(Datum::Integer(1), Datum::Integer(2))))
    );

    interpreter
        .push_data_to_source("sensor".into(), data.clone())
        .expect("could not push to interpreter");
    let pipeline = Pipeline::new("sensor".into(), vec![batch(1)]);
    interpreter.register_pipeline(pipeline);
    let data_out = interpreter
        .process_source("sensor".into())
        .expect("error returned from pipeline");
    assert_eq!(data_out.len(), 3);
    assert_eq!(
        data_out,
        vec!(
            Some(Datum::Vec(vec!(Datum::Integer(1)))),
            Some(Datum::Vec(vec!(Datum::Integer(2)))),
            Some(Datum::Vec(vec!(Datum::Integer(3)))),
        )
    );

    interpreter
        .push_data_to_source("sensor".into(), data.clone())
        .expect("could not push to interpreter");
    let pipeline = Pipeline::new("sensor".into(), vec![batch(5)]);
    interpreter.register_pipeline(pipeline);

    let data_out = interpreter
        .process_source("sensor".into())
        .expect("error returned from pipeline");

    assert_eq!(data_out.len(), 0);
}

#[test]
fn empty_chain_returns_every_datum_in_order() {
    let mut pipeline: Pipeline<GreaterThan> = Pipeline::new("s".into(), vec![]);
    let input = vec![
        Datum::Integer(5),
        Datum::Vec(vec![Datum::Integer(1)]),
        Datum::Integer(-3),
    ];
    let out = pipeline.run(input.clone()).expect("an empty chain cannot fail");
    let expected: Vec<Option<Datum>> = input.into_iter().map(Some).collect();
    assert_eq!(out, expected);
}

#[test]
fn greater_than_keeps_only_larger_integers() {
    let mut f = GreaterThan { op: 10 };
    assert_eq!(f.exec(Datum::Integer(10)).unwrap(), None);
    assert_eq!(f.exec(Datum::Integer(9)).unwrap(), None);
    assert_eq!(f.exec(Datum::Integer(11)).unwrap(), Some(Datum::Integer(11)));
    assert_eq!(
        f.exec(Datum::Integer(i64::MIN)).unwrap(),
        None
    );
    assert!(matches!(
        f.exec(Datum::Vec(vec![Datum::Integer(100)])),
        Err(Error::FilterCannotProcessDataType)
    ));
}

#[test]
fn failing_filter_aborts_the_whole_run() {
    let mut interpreter = Interpreter::new();
    interpreter.register_source(Source::new("s".into()));
    interpreter.register_pipeline(Pipeline::new("s".into(), vec![GreaterThan { op: 0 }]));
    interpreter
        .push_data_to_source(
            "s".into(),
            vec![Datum::Integer(1), Datum::Vec(vec![]), Datum::Integer(2)],
        )
        .unwrap();
    assert!(matches!(
        interpreter.process_source("s".into()),
        Err(Error::FilterCannotProcessDataType)
    ));
    // the source was drained all the same
    assert_eq!(interpreter.process_source("s".into()).unwrap().len(), 0);
}

#[test]
fn batch_emits_full_lists_and_keeps_the_rest() {
    let mut pipeline = Pipeline::new("s".into(), vec![batch(3)]);
    let input: Vec<Datum> = (1..=7).map(Datum::Integer).collect();
    let out = pipeline.run(input).unwrap();
    assert_eq!(
        out,
        vec![
            Some(Datum::Vec(vec![
                Datum::Integer(1),
                Datum::Integer(2),
                Datum::Integer(3)
            ])),
            Some(Datum::Vec(vec![
                Datum::Integer(4),
                Datum::Integer(5),
                Datum::Integer(6)
            ])),
        ]
    );
    assert_eq!(pipeline.filters[0].in_progress, vec![Datum::Integer(7)]);
}

#[test]
fn batch_of_one_wraps_each_datum() {
    let mut b = batch(1);
    assert_eq!(
        b.exec(Datum::Integer(8)).unwrap(),
        Some(Datum::Vec(vec![Datum::Integer(8)]))
    );
    assert!(b.in_progress.is_empty());
}

#[test]
fn batch_copy_is_independent() {
    let mut a = batch(2);
    a.exec(Datum::Integer(1)).unwrap();
    let mut b = a.duplicate();
    assert_eq!(b.in_progress, vec![Datum::Integer(1)]);
    assert_eq!(
        a.exec(Datum::Integer(2)).unwrap(),
        Some(Datum::Vec(vec![Datum::Integer(1), Datum::Integer(2)]))
    );
    assert_eq!(b.in_progress, vec![Datum::Integer(1)]);
    assert_eq!(
        b.exec(Datum::Integer(3)).unwrap(),
        Some(Datum::Vec(vec![Datum::Integer(1), Datum::Integer(3)]))
    );
}

#[test]
fn pipelines_bound_to_one_filter_evolve_apart() {
    let mut interpreter = Interpreter::new();
    interpreter.register_filter("pairs".into(), batch(2));
    interpreter.exec("@a | pairs".into()).unwrap();
    interpreter.exec("@b | pairs".into()).unwrap();

    interpreter.push_data_to_source("a".into(), vec![Datum::Integer(1)]).unwrap();
    assert_eq!(interpreter.process_source("a".into()).unwrap().len(), 0);

    interpreter.push_data_to_source("b".into(), vec![Datum::Integer(2)]).unwrap();
    assert_eq!(interpreter.process_source("b".into()).unwrap().len(), 0);

    interpreter.push_data_to_source("a".into(), vec![Datum::Integer(3)]).unwrap();
    assert_eq!(
        interpreter.process_source("a".into()).unwrap(),
        vec![Some(Datum::Vec(vec![Datum::Integer(1), Datum::Integer(3)]))]
    );

    // a pipeline compiled now starts from the registered, untouched filter
    interpreter.exec("@c | pairs".into()).unwrap();
    interpreter.push_data_to_source("c".into(), vec![Datum::Integer(4)]).unwrap();
    assert_eq!(interpreter.process_source("c".into()).unwrap().len(), 0);
}

#[test]
fn queries_rebind_batches_end_to_end() {
    let mut interpreter = Interpreter::new();
    interpreter.register_filter("two".into(), batch(2));
    interpreter.register_filter("one".into(), batch(1));
    interpreter.register_filter("five".into(), batch(5));

    interpreter.exec("@sensor | two".into()).unwrap();
    interpreter.push_data_to_source("sensor".into(), one_two_three()).unwrap();
    assert_eq!(
        interpreter.process_source("sensor".into()).unwrap(),
        vec![Some(Datum::Vec(vec![Datum::Integer(1), Datum::Integer(2)]))]
    );

    interpreter.exec("@sensor | one".into()).unwrap();
    interpreter.push_data_to_source("sensor".into(), one_two_three()).unwrap();
    assert_eq!(
        interpreter.process_source("sensor".into()).unwrap(),
        vec![
            Some(Datum::Vec(vec![Datum::Integer(1)])),
            Some(Datum::Vec(vec![Datum::Integer(2)])),
            Some(Datum::Vec(vec![Datum::Integer(3)])),
        ]
    );

    interpreter.exec("@sensor | five".into()).unwrap();
    interpreter.push_data_to_source("sensor".into(), one_two_three()).unwrap();
    assert_eq!(interpreter.process_source("sensor".into()).unwrap().len(), 0);
}

#[test]
fn rebinding_keeps_pending_data() {
    let mut interpreter = Interpreter::new();
    interpreter.register_filter("big".into(), GreaterThan { op: 1 });
    interpreter.exec("@s".into()).unwrap();
    interpreter.push_data_to_source("s".into(), one_two_three()).unwrap();
    interpreter.exec("@s | big".into()).unwrap();
    assert_eq!(
        interpreter.process_source("s".into()).unwrap(),
        vec![Some(Datum::Integer(2)), Some(Datum::Integer(3))]
    );
}

#[test]
fn parser_rejects_malformed_queries() {
    let mut interpreter = Interpreter::new();
    interpreter.register_filter("pairs".into(), batch(2));
    assert_eq!(
        reason(interpreter.exec("".into()).unwrap_err()),
        "query cannot be empty"
    );
    assert_eq!(
        reason(interpreter.exec("   ".into()).unwrap_err()),
        "query cannot be empty"
    );
    assert_eq!(
        reason(interpreter.exec("| pairs".into()).unwrap_err()),
        "query must start with source"
    );
    assert_eq!(
        reason(interpreter.exec("@a @b".into()).unwrap_err()),
        "cannot have multiple sources"
    );
    assert_eq!(
        reason(interpreter.exec("@a | pairs | nope".into()).unwrap_err()),
        "referenced an unregistered filter"
    );
    // nothing was bound by the rejected queries
    assert!(matches!(
        interpreter.push_data_to_source("a".into(), vec![]),
        Err(Error::CannotPushToUnregisteredSource)
    ));
}

#[test]
fn unknown_sources_are_reported() {
    let mut interpreter: Interpreter<GreaterThan> = Interpreter::new();
    assert!(matches!(
        interpreter.push_data_to_source("x".into(), vec![Datum::Integer(1)]),
        Err(Error::CannotPushToUnregisteredSource)
    ));
    assert!(matches!(
        interpreter.process_source("x".into()),
        Err(Error::CannotReadFromUnregisteredSource)
    ));
    // a source without a pipeline cannot be read either
    interpreter.register_source(Source::new("x".into()));
    assert!(matches!(
        interpreter.process_source("x".into()),
        Err(Error::CannotReadFromUnregisteredSource)
    ));
}

#[test]
fn parse_pipeline_binds_registered_filters_in_order() {
    let mut registry = NameTable::new();
    registry.insert("small".to_string(), GreaterThan { op: 1 });
    registry.insert("large".to_string(), GreaterThan { op: 100 });
    let pipeline = parse_pipeline(&registry, "@in | large(\"x\") | small | large".into()).unwrap();
    assert_eq!(pipeline.source_name, "in");
    let ops: Vec<i64> = pipeline.filters.iter().map(|f| f.op).collect();
    assert_eq!(ops, vec![100, 1, 100]);
    match parse_pipeline(&registry, "@in | medium".into()) {
        Err(Error::MalformedQuery(m)) => assert_eq!(m, "referenced an unregistered filter"),
        _ => panic!("expected an unregistered filter"),
    }
}

#[test]
fn default_interpreter_is_empty() {
    let mut interpreter: Interpreter<GreaterThan> = Interpreter::default();
    assert!(matches!(
        interpreter.process_source("sensor".into()),
        Err(Error::CannotReadFromUnregisteredSource)
    ));
    assert!(matches!(
        interpreter.exec("@sensor | missing".into()),
        Err(Error::MalformedQuery(_))
    ));
}
