use vstd::prelude::*;
use vstd::string::*;
use crate::ast::{BinaryOp, Expr, binary_expr};
use crate::lexer::{LexItem, LexingError, TokenView, item_span, lex};
use crate::lexer_laws::{laid_out, lemma_lex_covers_source};
use crate::parser::{
    SyntaxError, SyntaxErrorView, addition_tail, comparison_op, comparison_tail, logical_tail,
    parse_addition, parse_comparison, parse_conditional, parse_logical, parse_primary, parse_source,
    significant, lemma_addition_consumes, lemma_comparison_consumes,
};
use crate::report::{LabelView, Report, ReportBuilder, ReportView, located};
use crate::span::Span;

verus! {

/// The report of a lexical error: it points at the bytes that match no token.
pub open spec fn lexing_report(e: LexingError) -> ReportView {
    match e {
        LexingError::UnexpectedToken(span) => ReportView {
            message: "Unexpected token"@,
            offset: span.start,
            labels: seq![LabelView { span, hint: "Invalid token"@ }],
        },
    }
}

/// The report of a syntax error in a source of `len` bytes; running out of
/// input is reported at the end of the source.
pub open spec fn syntax_report(e: SyntaxErrorView, len: usize) -> ReportView {
    match e {
        SyntaxErrorView::UnexpectedEOF => ReportView {
            message: "Unexpected EOF"@,
            offset: len,
            labels: seq![LabelView { span: Span { start: len, end: len }, hint: "input ends here"@ }],
        },
        SyntaxErrorView::UnexpectedToken { span, expected, found } => ReportView {
            message: "SyntaxError: Unexpected token"@,
            offset: span.start,
            labels: seq![
                LabelView { span, hint: "Expected "@ + expected + ", found "@ + found },
            ],
        },
        SyntaxErrorView::Expected { span, expected } => ReportView {
            message: "SyntaxError: Unexpected AST"@,
            offset: span.start,
            labels: seq![LabelView { span, hint: "Expected "@ + expected }],
        },
    }
}

/// The spans that a syntax error carries lie within a source of `len` bytes.
pub open spec fn syntax_error_within(e: SyntaxErrorView, len: int) -> bool {
    match e {
        SyntaxErrorView::UnexpectedEOF => true,
        SyntaxErrorView::UnexpectedToken { span, .. } => span.within(len),
        SyntaxErrorView::Expected { span, .. } => span.within(len),
    }
}

fn single_label(message: &str, offset: usize, span: Span, hint: String) -> (r: Report)
    ensures
        r@ == (ReportView { message: message@, offset, labels: seq![LabelView { span, hint: hint@ }] }),
{
    let r = ReportBuilder::new().message(String::from_str(message)).offset(offset).label(span, hint).finish();
    assert(r.labels@.map_values(|l: crate::report::Label| l@) =~= seq![LabelView { span, hint: hint@ }]);
    r
}

impl LexingError {
    pub fn report(&self) -> (r: Report)
        ensures
            r@ == lexing_report(*self),
    {
        match self {
            LexingError::UnexpectedToken(span) => single_label(
                "Unexpected token",
                span.start,
                *span,
                String::from_str("Invalid token"),
            ),
        }
    }
}

impl SyntaxError {
    /// The report of this error in a source of `source_len` bytes.
    pub fn report(&self, source_len: usize) -> (r: Report)
        ensures
            r@ == syntax_report(self@, source_len),
    {
        match self {
            SyntaxError::UnexpectedEOF => single_label(
                "Unexpected EOF",
                source_len,
                Span { start: source_len, end: source_len },
                String::from_str("input ends here"),
            ),
            SyntaxError::UnexpectedToken { span, expected, found } => {
                let hint = String::from_str("Expected ").concat(expected).concat(", found ").concat(found);
                single_label("SyntaxError: Unexpected token", span.start, *span, hint)
            },
            SyntaxError::Expected { span, expected } => {
                let hint = String::from_str("Expected ").concat(expected);
                single_label("SyntaxError: Unexpected AST", span.start, *span, hint)
            },
        }
    }
}

/// Every lexical error whose span lies within the source converts to a report
/// with a non-empty message and a label within the source.
pub proof fn lemma_lexing_report_located(e: LexingError, len: int)
    requires
        (match e {
            LexingError::UnexpectedToken(span) => span.within(len),
        }),
    ensures
        located(lexing_report(e), len),
{
    reveal_strlit("Unexpected token");
}

/// Every syntax error whose spans lie within a source of `len` bytes converts
/// to a report with a non-empty message and a label within the source.
pub proof fn lemma_syntax_report_located(e: SyntaxErrorView, len: usize)
    requires
        syntax_error_within(e, len as int),
    ensures
        located(syntax_report(e, len), len as int),
{
    reveal_strlit("Unexpected EOF");
    reveal_strlit("SyntaxError: Unexpected token");
    reveal_strlit("SyntaxError: Unexpected AST");
}

/// Every token of `ts` lies within a source of `len` bytes.
pub open spec fn tokens_within(ts: Seq<TokenView>, len: int) -> bool {
    forall|i: int| 0 <= i < ts.len() ==> (#[trigger] ts[i]).span.within(len)
}

/// What a rule of the grammar leaves or reports stays within the source.
pub open spec fn parsed_within(p: crate::parser::Parsed, len: int) -> bool {
    match p {
        Ok((_, rest)) => tokens_within(rest, len),
        Err(e) => syntax_error_within(e, len),
    }
}

proof fn lemma_significant_within(items: Seq<LexItem>, len: int)
    requires
        forall|k: int| 0 <= k < items.len() ==> (#[trigger] item_span(items[k])).within(len),
    ensures
        tokens_within(significant(items), len),
    decreases items.len(),
{
    if items.len() > 0 {
        let tail = items.drop_first();
        assert forall|k: int| 0 <= k < tail.len() implies (#[trigger] item_span(tail[k])).within(len) by {
            assert(tail[k] == items[k + 1]);
        }
        lemma_significant_within(tail, len);
        assert(item_span(items[0]).within(len));
    }
}

proof fn lemma_primary_within(ts: Seq<TokenView>, len: int)
    requires
        tokens_within(ts, len),
    ensures
        parsed_within(parse_primary(ts), len),
{
    if ts.len() > 0 {
        assert(ts[0].span.within(len));
        assert forall|i: int| 0 <= i < ts.drop_first().len() implies (#[trigger] ts.drop_first()[i]).span.within(len) by {
            assert(ts.drop_first()[i] == ts[i + 1]);
        }
    }
}

proof fn lemma_addition_tail_within(ts: Seq<TokenView>, lhs: Expr, len: int)
    requires
        tokens_within(ts, len),
    ensures
        parsed_within(addition_tail(ts, lhs), len),
    decreases ts.len(),
{
    if ts.len() > 0 && ts[0].ty is Plus {
        lemma_primary_within(ts.drop_first(), len);
        if let Ok((rhs, after)) = parse_primary(ts.drop_first()) {
            lemma_addition_tail_within(after, binary_expr(lhs, BinaryOp::Plus, rhs), len);
        }
    }
}

proof fn lemma_addition_within(ts: Seq<TokenView>, len: int)
    requires
        tokens_within(ts, len),
    ensures
        parsed_within(parse_addition(ts), len),
{
    lemma_primary_within(ts, len);
    if let Ok((lhs, after)) = parse_primary(ts) {
        lemma_addition_tail_within(after, lhs, len);
    }
}

proof fn lemma_comparison_tail_within(ts: Seq<TokenView>, lhs: Expr, len: int)
    requires
        tokens_within(ts, len),
    ensures
        parsed_within(comparison_tail(ts, lhs), len),
    decreases ts.len(),
{
    if ts.len() > 0 && comparison_op(ts[0].ty) is Some {
        lemma_tokens_within_drop_first(ts, len);
        lemma_addition_within(ts.drop_first(), len);
        lemma_addition_consumes(ts.drop_first());
        if let Ok((rhs, after)) = parse_addition(ts.drop_first()) {
            lemma_comparison_tail_within(after, binary_expr(lhs, comparison_op(ts[0].ty)->0, rhs), len);
        }
    }
}

proof fn lemma_comparison_within(ts: Seq<TokenView>, len: int)
    requires
        tokens_within(ts, len),
    ensures
        parsed_within(parse_comparison(ts), len),
{
    lemma_addition_within(ts, len);
    if let Ok((lhs, after)) = parse_addition(ts) {
        lemma_comparison_tail_within(after, lhs, len);
    }
}

proof fn lemma_logical_tail_within(ts: Seq<TokenView>, lhs: Expr, len: int)
    requires
        tokens_within(ts, len),
    ensures
        parsed_within(logical_tail(ts, lhs), len),
    decreases ts.len(),
{
    if ts.len() > 0 && ts[0].ty is Ampersand {
        lemma_tokens_within_drop_first(ts, len);
        lemma_comparison_within(ts.drop_first(), len);
        lemma_comparison_consumes(ts.drop_first());
        if let Ok((rhs, after)) = parse_comparison(ts.drop_first()) {
            lemma_logical_tail_within(after, binary_expr(lhs, BinaryOp::Ampersand, rhs), len);
        }
    }
}

proof fn lemma_logical_within(ts: Seq<TokenView>, len: int)
    requires
        tokens_within(ts, len),
    ensures
        parsed_within(parse_logical(ts), len),
{
    lemma_comparison_within(ts, len);
    if let Ok((lhs, after)) = parse_comparison(ts) {
        lemma_logical_tail_within(after, lhs, len);
    }
}

proof fn lemma_tokens_within_drop_first(ts: Seq<TokenView>, len: int)
    requires
        tokens_within(ts, len),
        ts.len() > 0,
    ensures
        tokens_within(ts.drop_first(), len),
        ts[0].span.within(len),
{
    assert forall|i: int| 0 <= i < ts.drop_first().len() implies (#[trigger] ts.drop_first()[i]).span.within(len) by {
        assert(ts.drop_first()[i] == ts[i + 1]);
    }
}

proof fn lemma_conditional_within(ts: Seq<TokenView>, len: int)
    requires
        tokens_within(ts, len),
    ensures
        parsed_within(parse_conditional(ts), len),
{
    lemma_logical_within(ts, len);
    if let Ok((c, r1)) = parse_logical(ts) {
        if r1.len() > 0 && r1[0].ty is QuestionMark {
            lemma_tokens_within_drop_first(r1, len);
            lemma_logical_within(r1.drop_first(), len);
            if let Ok((t, r2)) = parse_logical(r1.drop_first()) {
                if r2.len() > 0 {
                    lemma_tokens_within_drop_first(r2, len);
                    lemma_logical_within(r2.drop_first(), len);
                }
            }
        }
    }
}

/// Every error that the scanner or the parser reports on a source converts
/// to a report with a non-empty message and a label, located within that
/// source.
pub proof fn lemma_source_errors_located(b: Seq<u8>)
    requires
        b.len() <= usize::MAX,
    ensures
        forall|k: int|
            0 <= k < lex(b).len() && (#[trigger] lex(b)[k]) is Err ==> located(
                lexing_report(lex(b)[k]->Err_0),
                b.len() as int,
            ),
        forall|k: int|
            0 <= k < parse_source(b).1.len() ==> located(
                syntax_report(#[trigger] parse_source(b).1[k], b.len() as usize),
                b.len() as int,
            ),
{
    let n = b.len() as int;
    lemma_lex_covers_source(b);
    let items = lex(b);
    assert forall|k: int| 0 <= k < items.len() implies (#[trigger] item_span(items[k])).within(n) by {}
    assert forall|k: int| 0 <= k < items.len() && (#[trigger] items[k]) is Err implies located(
        lexing_report(items[k]->Err_0),
        n,
    ) by {
        assert(item_span(items[k]).within(n));
        lemma_lexing_report_located(items[k]->Err_0, n);
    }
    lemma_significant_within(items, n);
    lemma_conditional_within(significant(items), n);
    if let Err(e) = parse_conditional(significant(items)) {
        lemma_syntax_report_located(e, b.len() as usize);
        assert(parse_source(b).1 == seq![e]);
    }
}

} // verus!
