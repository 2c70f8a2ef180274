use query_pipeline::{Error, Lexer, Token};

fn lex(query: &str) -> Result<Vec<Token>, Error> {
    let mut lexer = Lexer::new(query.into());
    lexer.tokenize()
}

#[test]
fn lexer_can_lex_sources() {
    let mut lex = Lexer::new("@sensor".into());
    let tokens = lex.tokenize().expect("lexer could not recognize source");
    assert_eq!(tokens, vec!(Token::Source("sensor".into())));
}

#[test]
fn lexer_can_lex_filters() {
    let query = "@sensor | isNotZero | double".into();
    let mut lex = Lexer::new(query);
    let tokens = lex.tokenize().expect("lexer could not recognize filters");

    assert_eq!(
        tokens,
        vec!(
            Token::Source("sensor".into()),
            Token::Filter("isNotZero".into()),
            Token::Filter("double".into())
        )
    );
}

#[test]
fn lexer_can_parse_string_literals() {
    let query = "@sensor | contains(\"signal\") | double".into();
    let mut lex = Lexer::new(query);
    let tokens = lex
        .tokenize()
        .expect("lexer could not parse string literal");

    assert_eq!(
        tokens,
        vec!(
            Token::Source("sensor".into()),
            Token::Filter("contains".into()),
            Token::OpenParen,
            Token::String("signal".into()),
            Token::CloseParen,
            Token::Filter("double".into())
        )
    );
}

#[test]
fn lexer_can_parse_integer_literals() {
    let query = "@sensor | greater_than(4) | double".into();
    let mut lex = Lexer::new(query);
    let tokens = lex
        .tokenize()
        .expect("lexer could not parse string literal");

    assert_eq!(
        tokens,
        vec!(
            Token::Source("sensor".into()),
            Token::Filter("greater_than".into()),
            Token::OpenParen,
            Token::Integer(4),
            Token::CloseParen,
            Token::Filter("double".into())
        )
    );
}

#[test]
fn lexer_can_parse_float_literals() {
    let query = "@sensor | greater_than(4.4) | double".into();
    let mut lex = Lexer::new(query);
    let tokens = lex
        .tokenize()
        .expect("lexer could not parse string literal");

    assert_eq!(
        tokens,
        vec!(
            Token::Source("sensor".into()),
            Token::Filter("greater_than".into()),
            Token::OpenParen,
            Token::Float("4.4".into()),
            Token::CloseParen,
            Token::Filter("double".into())
        )
    );
    match &tokens[3] {
        Token::Float(text) => assert_eq!(text.parse::<f64>().unwrap(), 4.4),
        other => panic!("expected a float, got {:?}", other),
    }
}

#[test]
fn lexer_reads_multi_digit_and_extreme_integers() {
    assert_eq!(lex("123").unwrap(), vec![Token::Integer(123)]);
    assert_eq!(
        lex("9223372036854775807").unwrap(),
        vec![Token::Integer(i64::MAX)]
    );
    match lex("9223372036854775808") {
        Err(Error::MalformedQuery(m)) => assert_eq!(m, "integer literal does not fit in 64 bits"),
        other => panic!("expected an out-of-range error, got {:?}", other),
    }
}

#[test]
fn lexer_reports_literal_errors() {
    match lex("@s | f(\"open") {
        Err(Error::MalformedQuery(m)) => assert_eq!(m, "query contained unterminated string"),
        other => panic!("expected an unterminated string, got {:?}", other),
    }
    match lex("@s | f(1.2.3)") {
        Err(Error::MalformedQuery(m)) => {
            assert_eq!(m, "float literals can only contain one decimal point")
        }
        other => panic!("expected too many points, got {:?}", other),
    }
    assert!(matches!(
        lex("@s | f # g"),
        Err(Error::UnexpectedCharacter('#'))
    ));
}

#[test]
fn lexer_edge_cases() {
    assert_eq!(lex("").unwrap(), vec![]);
    assert_eq!(lex("@").unwrap(), vec![Token::Source("".into())]);
    assert_eq!(
        lex("@s|f").unwrap(),
        vec![Token::Source("s".into()), Token::Filter("f".into())]
    );
    assert_eq!(
        lex("@s |   f_1(\"\")").unwrap(),
        vec![
            Token::Source("s".into()),
            Token::Filter("f_1".into()),
            Token::OpenParen,
            Token::String("".into()),
            Token::CloseParen
        ]
    );
    assert_eq!(lex("4.").unwrap(), vec![Token::Float("4.".into())]);
    assert_eq!(lex("|").unwrap(), vec![Token::Filter("".into())]);
}

#[test]
fn lexer_classifies_unicode_letters_and_spaces() {
    assert_eq!(
        lex("@café\u{00A0}|\u{2003}größe").unwrap(),
        vec![Token::Source("café".into()), Token::Filter("größe".into())]
    );
    assert!(matches!(lex("@a-b"), Err(Error::UnexpectedCharacter('-'))));
}
