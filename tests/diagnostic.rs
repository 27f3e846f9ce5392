use mini_haskell::ast::BinaryOp;
use mini_haskell::lexer::{LexingError, Token};
use mini_haskell::parser::{Parser, SyntaxError};
use mini_haskell::report::{Label, Report, ReportBuilder};
use mini_haskell::reporter::DiagnosticTupleBuilder;
use mini_haskell::span::Span;

fn check_located(r: &Report, len: usize) {
    assert!(!r.message.is_empty());
    assert!(!r.labels.is_empty());
    assert!(r.offset <= len);
    for l in &r.labels {
        assert!(l.span.start <= l.span.end && l.span.end <= len);
    }
}

#[test]
fn lexing_error_report() {
    let r = LexingError::UnexpectedToken(Span { start: 2, end: 3 }).report();
    assert_eq!(r.message, "Unexpected token");
    assert_eq!(r.offset, 2);
    assert_eq!(r.labels.len(), 1);
    assert_eq!(r.labels[0].span, Span { start: 2, end: 3 });
    assert_eq!(r.labels[0].hint, "Invalid token");
    check_located(&r, 5);
}

#[test]
fn unexpected_eof_report() {
    let r = SyntaxError::UnexpectedEOF.report(3);
    assert_eq!(r.message, "Unexpected EOF");
    assert_eq!(r.offset, 3);
    assert_eq!(r.labels[0].span, Span { start: 3, end: 3 });
    assert_eq!(r.labels[0].hint, "input ends here");
    check_located(&r, 3);
}

#[test]
fn unexpected_token_report() {
    let e = SyntaxError::UnexpectedToken { span: Span { start: 4, end: 5 }, expected: ":", found: "natural number" };
    let r = e.report(5);
    assert_eq!(r.message, "SyntaxError: Unexpected token");
    assert_eq!(r.offset, 4);
    assert_eq!(r.labels[0].hint, "Expected :, found natural number");
    check_located(&r, 5);
}

#[test]
fn expected_report() {
    let e = SyntaxError::Expected { span: Span { start: 0, end: 1 }, expected: "expression" };
    let r = e.report(1);
    assert_eq!(r.message, "SyntaxError: Unexpected AST");
    assert_eq!(r.labels[0].hint, "Expected expression");
    check_located(&r, 1);
}

#[test]
fn every_error_of_a_source_is_located() {
    for src in ["1 @ + é", "T?1", "T?1 2", "&", ""] {
        for item in Token::tokens(src) {
            if let Err(e) = item {
                check_located(&e.report(), src.len());
            }
        }
        let (_, errors) = Parser::parse(src);
        for e in errors {
            check_located(&e.report(src.len()), src.len());
        }
    }
}

#[test]
fn report_builder_keeps_labels_in_order() {
    let r = ReportBuilder::new()
        .message("m".to_string())
        .offset(7)
        .label(Span { start: 1, end: 2 }, "first".to_string())
        .label(Span { start: 0, end: 4 }, "second".to_string())
        .finish();
    assert_eq!(r.message, "m");
    assert_eq!(r.offset, 7);
    assert_eq!(r.labels.len(), 2);
    assert_eq!(r.labels[0].hint, "first");
    assert_eq!(r.labels[1].span, Span { start: 0, end: 4 });
}

#[test]
fn diagnostic_builder_keeps_order() {
    let report = |m: &str| Report { message: m.to_string(), offset: 0, labels: vec![Label { span: Span { start: 0, end: 0 }, hint: String::new() }] };
    let mut b = DiagnosticTupleBuilder::new("file.hs".to_string());
    b.diagnose(report("a")).diagnoses(vec![report("b"), report("c")]);
    b.diagnose(report("d"));
    let t = b.build("source".to_string());
    assert_eq!(t.path, "file.hs");
    assert_eq!(t.source, "source");
    let messages: Vec<&str> = t.reports.iter().map(|r| r.message.as_str()).collect();
    assert_eq!(messages, vec!["a", "b", "c", "d"]);
}

#[test]
fn operator_text() {
    assert_eq!(BinaryOp::Plus.raw(), "+");
    assert_eq!(BinaryOp::Ampersand.raw(), "&");
    assert_eq!(BinaryOp::Less.raw(), "<");
    assert_eq!(BinaryOp::Equal.raw(), "=");
}
