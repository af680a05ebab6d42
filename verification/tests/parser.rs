use lalrpop_util::ParseError;
use starlark::syntax::parser::{
    is_located, one_of, parse_error_add_span, report_failure, report_parse_error, AstModule, Diagnostic, FileSpan,
    ParseFailure, Stmt, Token,
};

fn strings(items: &[&str]) -> Vec<String> {
    items.iter().map(|s| s.to_string()).collect()
}

const FILE: FileSpan = FileSpan { low: 10, high: 110 };

#[test]
fn one_of_joins_the_alternatives() {
    assert_eq!(one_of(&strings(&[])), "");
    assert_eq!(one_of(&strings(&["a"])), "one of a");
    assert_eq!(one_of(&strings(&["a", "b"])), "one of a or b");
    assert_eq!(one_of(&strings(&["a", "b", "c"])), "one of a, b or c");
    assert_eq!(one_of(&strings(&["\"(\"", "\")\"", "\",\"", "\":\""])), "one of \"(\", \")\", \",\" or \":\"");
}

#[test]
fn spans_are_cut_from_the_start_of_the_file() {
    assert_eq!(FILE.len(), 100);
    assert_eq!(FILE.subspan(0, 0), FileSpan { low: 10, high: 10 });
    assert_eq!(FILE.subspan(5, 9), FileSpan { low: 15, high: 19 });
    assert_eq!(FILE.subspan(100, 100), FileSpan { low: 110, high: 110 });
}

#[test]
fn an_invalid_token_is_reported_where_it_is() {
    let err: ParseFailure<String> = ParseFailure::InvalidToken { location: 7 };
    assert_eq!(
        parse_error_add_span(err, FILE),
        Ok(Diagnostic { message: "Parse error: invalid token".to_string(), span: FileSpan { low: 17, high: 17 } })
    );
}

#[test]
fn a_reserved_word_is_named() {
    let err: ParseFailure<String> = ParseFailure::UnrecognizedToken {
        start: 3,
        token: Token::Reserved("class".to_string()),
        end: 8,
        expected: strings(&["a", "b"]),
    };
    assert_eq!(
        parse_error_add_span(err, FILE),
        Ok(Diagnostic {
            message: "Parse error: cannot use reserved keyword `class`".to_string(),
            span: FileSpan { low: 13, high: 18 }
        })
    );
    let err: ParseFailure<String> =
        ParseFailure::ExtraToken { start: 0, token: Token::Reserved("yield".to_string()), end: 5 };
    assert_eq!(
        parse_error_add_span(err, FILE),
        Ok(Diagnostic {
            message: "Parse error: cannot use reserved keyword `yield`".to_string(),
            span: FileSpan { low: 10, high: 15 }
        })
    );
}

#[test]
fn an_unexpected_token_lists_what_was_expected() {
    let err: ParseFailure<String> = ParseFailure::UnrecognizedToken {
        start: 20,
        token: Token::Other("symbol ')'".to_string()),
        end: 21,
        expected: strings(&["\"(\"", "\"[\"", "identifier"]),
    };
    assert_eq!(
        parse_error_add_span(err, FILE),
        Ok(Diagnostic {
            message: "Parse error: unexpected symbol ')' here, expected one of \"(\", \"[\" or identifier"
                .to_string(),
            span: FileSpan { low: 30, high: 31 }
        })
    );
}

#[test]
fn an_extra_token_is_named() {
    let err: ParseFailure<String> =
        ParseFailure::ExtraToken { start: 98, token: Token::Other("new line".to_string()), end: 100 };
    assert_eq!(
        parse_error_add_span(err, FILE),
        Ok(Diagnostic {
            message: "Parse error: extraneous token new line".to_string(),
            span: FileSpan { low: 108, high: 110 }
        })
    );
}

#[test]
fn an_unexpected_end_is_reported_at_the_end_of_the_file() {
    let err: ParseFailure<String> = ParseFailure::UnrecognizedEOF { location: 3, expected: strings(&["x"]) };
    assert_eq!(
        parse_error_add_span(err, FILE),
        Ok(Diagnostic {
            message: "Parse error: unexpected end of file".to_string(),
            span: FileSpan { low: 110, high: 110 }
        })
    );
}

#[test]
fn the_users_own_error_is_returned_as_it_is() {
    let err: ParseFailure<String> = ParseFailure::User { error: "bad indentation".to_string() };
    assert_eq!(parse_error_add_span(err, FILE), Err("bad indentation".to_string()));
}

#[test]
fn the_parsers_errors_are_reported_like_the_failures_they_stand_for() {
    let err: ParseError<usize, Token, String> = ParseError::InvalidToken { location: 4 };
    assert_eq!(
        report_parse_error(err, FILE),
        Some(Ok(Diagnostic { message: "Parse error: invalid token".to_string(), span: FileSpan { low: 14, high: 14 } }))
    );
    let err: ParseError<usize, Token, String> =
        ParseError::UnrecognizedEOF { location: 9, expected: strings(&["a"]) };
    assert_eq!(
        report_parse_error(err, FILE),
        Some(Ok(Diagnostic {
            message: "Parse error: unexpected end of file".to_string(),
            span: FileSpan { low: 110, high: 110 }
        }))
    );
    let err: ParseError<usize, Token, String> = ParseError::UnrecognizedToken {
        token: (1, Token::Other("t".to_string()), 2),
        expected: strings(&["a", "b"]),
    };
    assert_eq!(
        report_parse_error(err, FILE),
        Some(Ok(Diagnostic {
            message: "Parse error: unexpected t here, expected one of a or b".to_string(),
            span: FileSpan { low: 11, high: 12 }
        }))
    );
    let err: ParseError<usize, Token, String> =
        ParseError::ExtraToken { token: (5, Token::Reserved("r".to_string()), 6) };
    assert_eq!(
        report_parse_error(err, FILE),
        Some(Ok(Diagnostic {
            message: "Parse error: cannot use reserved keyword `r`".to_string(),
            span: FileSpan { low: 15, high: 16 }
        }))
    );
    let err: ParseError<usize, Token, String> =
        ParseError::ExtraToken { token: (1, Token::Other("symbol ']'".to_string()), 2) };
    assert_eq!(
        report_parse_error(err, FILE),
        Some(Ok(Diagnostic {
            message: "Parse error: extraneous token symbol ']'".to_string(),
            span: FileSpan { low: 11, high: 12 }
        }))
    );
    let err: ParseError<usize, Token, String> = ParseError::User { error: "mine".to_string() };
    assert_eq!(report_parse_error(err, FILE), Some(Err("mine".to_string())));
}

#[test]
fn a_place_outside_the_file_is_not_reported() {
    let err: ParseError<usize, Token, String> = ParseError::InvalidToken { location: 101 };
    assert_eq!(report_parse_error(err, FILE), None);
    let err: ParseError<usize, Token, String> =
        ParseError::ExtraToken { token: (7, Token::Other("t".to_string()), 6) };
    assert_eq!(report_parse_error(err, FILE), None);
    let err: ParseError<usize, Token, String> = ParseError::InvalidToken { location: 0 };
    assert_eq!(report_parse_error(err, FileSpan { low: 3, high: 2 }), None);
    let failure: ParseFailure<String> = ParseFailure::InvalidToken { location: 100 };
    assert!(is_located(&failure, FILE));
    let failure: ParseFailure<String> = ParseFailure::InvalidToken { location: 101 };
    assert!(!is_located(&failure, FILE));
}

#[test]
fn a_failure_is_reported_when_its_place_lies_in_the_file() {
    let failure: ParseFailure<String> = ParseFailure::InvalidToken { location: 4 };
    assert_eq!(
        report_failure(failure, FILE),
        Some(Ok(Diagnostic { message: "Parse error: invalid token".to_string(), span: FileSpan { low: 14, high: 14 } }))
    );
    let failure: ParseFailure<String> = ParseFailure::InvalidToken { location: 101 };
    assert_eq!(report_failure(failure, FILE), None);
    let failure: ParseFailure<String> =
        ParseFailure::ExtraToken { start: 7, token: Token::Other("t".to_string()), end: 6 };
    assert_eq!(report_failure(failure, FILE), None);
    let failure: ParseFailure<String> = ParseFailure::User { error: "mine".to_string() };
    assert_eq!(report_failure(failure, FILE), Some(Err("mine".to_string())));
    let failure: ParseFailure<String> = ParseFailure::User { error: "mine".to_string() };
    assert_eq!(report_failure(failure, FileSpan { low: 3, high: 2 }), None);
    let failure: ParseFailure<String> = ParseFailure::UnrecognizedEOF { location: 0, expected: strings(&[]) };
    assert_eq!(
        report_failure(failure, FILE),
        Some(Ok(Diagnostic {
            message: "Parse error: unexpected end of file".to_string(),
            span: FileSpan { low: 110, high: 110 }
        }))
    );
}

#[test]
fn loads_are_collected_in_order() {
    let module = AstModule {
        statement: Stmt::Statements(vec![
            Stmt::Load("a.bzl".to_string()),
            Stmt::Other,
            Stmt::Statements(vec![Stmt::Load("b.bzl".to_string()), Stmt::Statements(vec![])]),
            Stmt::Load("a.bzl".to_string()),
        ]),
    };
    assert_eq!(module.collect_loads(), vec!["a.bzl", "b.bzl", "a.bzl"]);
    assert_eq!(AstModule { statement: Stmt::Load("x".to_string()) }.collect_loads(), vec!["x"]);
    assert_eq!(AstModule { statement: Stmt::Other }.collect_loads(), Vec::<&str>::new());
}
