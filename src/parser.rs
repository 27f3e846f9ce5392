use vstd::prelude::*;
use vstd::string::*;
use crate::ast::{
    BinaryOp, Expr, ExprKind, Literal, binary_expr, cond_expr, literal_expr, make_binary, make_cond,
};
use crate::lexer::{
    LexItem, LexingError, Token, TokenTy, TokenView, TokenTyView, Tokenizer, item_view, kind_name, lex,
};
use crate::span::Span;

verus! {

/// A structural error; the first one ends the parse.
#[derive(Debug, Eq, PartialEq, Copy, Clone)]
pub enum SyntaxError {
    /// The input ended where a token was required.
    UnexpectedEOF,
    /// A token of another kind than the one required.
    UnexpectedToken { span: Span, expected: &'static str, found: &'static str },
    /// A token that cannot start the construct required.
    Expected { span: Span, expected: &'static str },
}

pub enum SyntaxErrorView {
    UnexpectedEOF,
    UnexpectedToken { span: Span, expected: Seq<char>, found: Seq<char> },
    Expected { span: Span, expected: Seq<char> },
}

impl View for SyntaxError {
    type V = SyntaxErrorView;

    open spec fn view(&self) -> SyntaxErrorView {
        match self {
            SyntaxError::UnexpectedEOF => SyntaxErrorView::UnexpectedEOF,
            SyntaxError::UnexpectedToken { span, expected, found } => SyntaxErrorView::UnexpectedToken {
                span: *span,
                expected: expected@,
                found: found@,
            },
            SyntaxError::Expected { span, expected } => SyntaxErrorView::Expected {
                span: *span,
                expected: expected@,
            },
        }
    }
}

// ---------------------------------------------------------------------------
// The grammar, over the tokens that remain to be read:
//
//   conditional := logical ( '?' logical ':' logical )?
//   logical     := comparison ( '&' comparison )*
//   comparison  := addition ( ('<' | '=') addition )*
//   addition    := primary ( '+' primary )*
//   primary     := BOOL_LIT | NAT_LIT
//
// Each rule gives the expression it read and the tokens after it, or the
// error that stopped it. Binary operators fold to the left.

pub type Parsed = Result<(Expr, Seq<TokenView>), SyntaxErrorView>;

/// The tokens of a scanner's output, with its lexical errors left out.
pub open spec fn significant(items: Seq<LexItem>) -> Seq<TokenView>
    decreases items.len(),
{
    if items.len() == 0 {
        seq![]
    } else {
        let rest = significant(items.drop_first());
        match items[0] {
            Ok(t) => seq![t] + rest,
            Err(_) => rest,
        }
    }
}

pub open spec fn parse_primary(ts: Seq<TokenView>) -> Parsed {
    if ts.len() == 0 {
        Err(SyntaxErrorView::UnexpectedEOF)
    } else {
        match ts[0].ty {
            TokenTyView::BoolLit(b) => Ok((literal_expr(Literal::Bool(b), ts[0].span), ts.drop_first())),
            TokenTyView::NatLit(n) => Ok(
                (literal_expr(Literal::NatureNum(n), ts[0].span), ts.drop_first()),
            ),
            _ => Err(SyntaxErrorView::Expected { span: ts[0].span, expected: "expression"@ }),
        }
    }
}

/// The rest of an addition whose left operand so far is `lhs`.
pub open spec fn addition_tail(ts: Seq<TokenView>, lhs: Expr) -> Parsed
    decreases ts.len(),
{
    if ts.len() > 0 && ts[0].ty is Plus {
        match parse_primary(ts.drop_first()) {
            Ok((rhs, after)) => addition_tail(after, binary_expr(lhs, BinaryOp::Plus, rhs)),
            Err(e) => Err(e),
        }
    } else {
        Ok((lhs, ts))
    }
}

pub open spec fn parse_addition(ts: Seq<TokenView>) -> Parsed {
    match parse_primary(ts) {
        Ok((lhs, after)) => addition_tail(after, lhs),
        Err(e) => Err(e),
    }
}

/// The comparison operator that a token stands for.
pub open spec fn comparison_op(k: TokenTyView) -> Option<BinaryOp> {
    match k {
        TokenTyView::Less => Some(BinaryOp::Less),
        TokenTyView::Equal => Some(BinaryOp::Equal),
        _ => None,
    }
}

pub open spec fn comparison_tail(ts: Seq<TokenView>, lhs: Expr) -> Parsed
    decreases ts.len(),
{
    if ts.len() > 0 && comparison_op(ts[0].ty) is Some {
        proof {
            lemma_addition_consumes(ts.drop_first());
        }
        match parse_addition(ts.drop_first()) {
            Ok((rhs, after)) => comparison_tail(
                after,
                binary_expr(lhs, comparison_op(ts[0].ty)->0, rhs),
            ),
            Err(e) => Err(e),
        }
    } else {
        Ok((lhs, ts))
    }
}

pub open spec fn parse_comparison(ts: Seq<TokenView>) -> Parsed {
    match parse_addition(ts) {
        Ok((lhs, after)) => comparison_tail(after, lhs),
        Err(e) => Err(e),
    }
}

pub open spec fn logical_tail(ts: Seq<TokenView>, lhs: Expr) -> Parsed
    decreases ts.len(),
{
    if ts.len() > 0 && ts[0].ty is Ampersand {
        proof {
            lemma_comparison_consumes(ts.drop_first());
        }
        match parse_comparison(ts.drop_first()) {
            Ok((rhs, after)) => logical_tail(after, binary_expr(lhs, BinaryOp::Ampersand, rhs)),
            Err(e) => Err(e),
        }
    } else {
        Ok((lhs, ts))
    }
}

pub open spec fn parse_logical(ts: Seq<TokenView>) -> Parsed {
    match parse_comparison(ts) {
        Ok((lhs, after)) => logical_tail(after, lhs),
        Err(e) => Err(e),
    }
}

/// The error of requiring a token of kind `k` where the next token is none
/// or of another kind.
pub open spec fn consume_error(ts: Seq<TokenView>, k: TokenTyView) -> SyntaxErrorView {
    if ts.len() == 0 {
        SyntaxErrorView::UnexpectedEOF
    } else {
        SyntaxErrorView::UnexpectedToken {
            span: ts[0].span,
            expected: kind_name(k),
            found: kind_name(ts[0].ty),
        }
    }
}

pub open spec fn parse_conditional(ts: Seq<TokenView>) -> Parsed {
    match parse_logical(ts) {
        Err(e) => Err(e),
        Ok((c, r1)) => if r1.len() > 0 && r1[0].ty is QuestionMark {
            match parse_logical(r1.drop_first()) {
                Err(e) => Err(e),
                Ok((t, r2)) => if r2.len() > 0 && r2[0].ty is Colon {
                    match parse_logical(r2.drop_first()) {
                        Err(e) => Err(e),
                        Ok((e, r3)) => Ok((cond_expr(c, t, e), r3)),
                    }
                } else {
                    Err(consume_error(r2, TokenTyView::Colon))
                },
            }
        } else {
            Ok((c, r1))
        },
    }
}

/// The outcome of a parse of a whole source: the expression and no errors,
/// or no expression and the one error that stopped it. Lexical errors are
/// skipped; tokens after the expression are not read.
pub open spec fn parse_source(b: Seq<u8>) -> (Option<Expr>, Seq<SyntaxErrorView>) {
    match parse_conditional(significant(lex(b))) {
        Ok((e, _)) => (Some(e), seq![]),
        Err(err) => (None, seq![err]),
    }
}

pub proof fn lemma_addition_tail_consumes(ts: Seq<TokenView>, lhs: Expr)
    ensures
        addition_tail(ts, lhs) is Ok ==> addition_tail(ts, lhs)->Ok_0.1.len() <= ts.len(),
    decreases ts.len(),
{
    if ts.len() > 0 && ts[0].ty is Plus {
        if let Ok((rhs, after)) = parse_primary(ts.drop_first()) {
            lemma_addition_tail_consumes(after, binary_expr(lhs, BinaryOp::Plus, rhs));
        }
    }
}

pub proof fn lemma_addition_consumes(ts: Seq<TokenView>)
    ensures
        parse_addition(ts) is Ok ==> parse_addition(ts)->Ok_0.1.len() < ts.len(),
{
    if let Ok((lhs, after)) = parse_primary(ts) {
        lemma_addition_tail_consumes(after, lhs);
    }
}

pub proof fn lemma_comparison_tail_consumes(ts: Seq<TokenView>, lhs: Expr)
    ensures
        comparison_tail(ts, lhs) is Ok ==> comparison_tail(ts, lhs)->Ok_0.1.len() <= ts.len(),
    decreases ts.len(),
{
    if ts.len() > 0 && comparison_op(ts[0].ty) is Some {
        lemma_addition_consumes(ts.drop_first());
        if let Ok((rhs, after)) = parse_addition(ts.drop_first()) {
            lemma_comparison_tail_consumes(after, binary_expr(lhs, comparison_op(ts[0].ty)->0, rhs));
        }
    }
}

pub proof fn lemma_comparison_consumes(ts: Seq<TokenView>)
    ensures
        parse_comparison(ts) is Ok ==> parse_comparison(ts)->Ok_0.1.len() < ts.len(),
{
    lemma_addition_consumes(ts);
    if let Ok((lhs, after)) = parse_addition(ts) {
        lemma_comparison_tail_consumes(after, lhs);
    }
}

pub proof fn lemma_significant_cons(it: LexItem, s: Seq<LexItem>)
    ensures
        significant(seq![it] + s) == (match it {
            Ok(t) => seq![t] + significant(s),
            Err(_) => significant(s),
        }),
{
    assert((seq![it] + s).drop_first() =~= s);
}

/// Lexical errors never reach the parser: an error anywhere in the scanner's
/// output leaves the tokens that the parser reads as they were.
pub proof fn lemma_errors_not_significant(items: Seq<LexItem>, k: int, e: LexingError)
    requires
        0 <= k <= items.len(),
    ensures
        significant(items.insert(k, Err(e))) == significant(items),
    decreases k,
{
    if k == 0 {
        assert(items.insert(0, Err(e)) =~= seq![Err(e)] + items);
        lemma_significant_cons(Err(e), items);
    } else {
        let tail = items.drop_first();
        lemma_errors_not_significant(tail, k - 1, e);
        assert(items.insert(k, Err(e)) =~= seq![items[0]] + tail.insert(k - 1, Err(e)));
        assert(items =~= seq![items[0]] + tail);
        lemma_significant_cons(items[0], tail.insert(k - 1, Err(e)));
        lemma_significant_cons(items[0], tail);
    }
}

/// `r` is what the rule's outcome `p` says, and `after` the tokens it leaves.
pub open spec fn outcome(r: Result<Expr, SyntaxError>, p: Parsed, after: Seq<TokenView>) -> bool {
    match p {
        Ok((e, ts)) => r == Ok::<Expr, SyntaxError>(e) && after == ts,
        Err(err) => r is Err && r->Err_0@ == err,
    }
}

/// Kinds that carry no value.
pub open spec fn is_marker(k: TokenTyView) -> bool {
    !(k is BoolLit || k is NatLit || k is Comment || k is Identifier)
}

fn same_marker(found: &TokenTy, ty: &TokenTy) -> (r: bool)
    requires
        is_marker(ty@),
    ensures
        r == (found@ == ty@),
{
    match (found, ty) {
        (TokenTy::BoolDecl, TokenTy::BoolDecl) => true,
        (TokenTy::Nat, TokenTy::Nat) => true,
        (TokenTy::Func, TokenTy::Func) => true,
        (TokenTy::QuestionMark, TokenTy::QuestionMark) => true,
        (TokenTy::Colon, TokenTy::Colon) => true,
        (TokenTy::Semicolon, TokenTy::Semicolon) => true,
        (TokenTy::LeftParen, TokenTy::LeftParen) => true,
        (TokenTy::RightParen, TokenTy::RightParen) => true,
        (TokenTy::Plus, TokenTy::Plus) => true,
        (TokenTy::Ampersand, TokenTy::Ampersand) => true,
        (TokenTy::Arrow, TokenTy::Arrow) => true,
        (TokenTy::Less, TokenTy::Less) => true,
        (TokenTy::Equal, TokenTy::Equal) => true,
        (TokenTy::EOF, TokenTy::EOF) => true,
        _ => false,
    }
}

/// A recursive-descent parser over the tokens of one source text, with one
/// token of lookahead. Lexical errors in the token stream are skipped.
pub struct Parser<'src> {
    tokenizer: Tokenizer<'src>,
    peeked: Option<Token>,
}

impl<'src> Parser<'src> {
    pub closed spec fn wf(&self) -> bool {
        self.tokenizer.wf()
    }

    /// The tokens not read yet.
    pub closed spec fn rest(&self) -> Seq<TokenView> {
        match self.peeked {
            Some(t) => seq![t@] + significant(self.tokenizer.remaining()),
            None => significant(self.tokenizer.remaining()),
        }
    }

    pub fn new(src: &'src str) -> (r: Parser<'src>)
        ensures
            r.wf(),
            r.rest() == significant(lex(src.spec_bytes())),
    {
        Parser { tokenizer: Tokenizer::new(src), peeked: None }
    }

    /// Parses one conditional expression from the start of `src`.
    pub fn parse(src: &'src str) -> (r: (Option<Expr>, Vec<SyntaxError>))
        ensures
            r.0 == parse_source(src.spec_bytes()).0,
            r.1@.map_values(|e: SyntaxError| e@) == parse_source(src.spec_bytes()).1,
    {
        let mut parser = Parser::new(src);
        let mut errors: Vec<SyntaxError> = Vec::new();
        let mut expr: Option<Expr> = None;
        match parser.conditional() {
            Ok(e) => expr = Some(e),
            Err(err) => errors.push(err),
        }
        assert(errors@.map_values(|e: SyntaxError| e@) =~= parse_source(src.spec_bytes()).1);
        (expr, errors)
    }

    /// Reads past lexical errors until a token is at hand or the input ends.
    fn fill(&mut self)
        requires
            old(self).wf(),
        ensures
            final(self).wf(),
            final(self).rest() == old(self).rest(),
            final(self).peeked is None ==> final(self).rest().len() == 0,
    {
        if self.peeked.is_none() {
            let ghost start = self.rest();
            loop
                invariant
                    self.wf(),
                    self.peeked is None,
                    self.rest() == start,
                    start == old(self).rest(),
                decreases self.tokenizer.remaining().len(),
            {
                let ghost before = self.tokenizer.remaining();
                match self.tokenizer.next() {
                    None => {
                        return ;
                    },
                    Some(it) => {
                        proof {
                            lemma_significant_cons(item_view(it), self.tokenizer.remaining());
                        }
                        match it {
                            Ok(t) => {
                                self.peeked = Some(t);
                                return ;
                            },
                            Err(_) => {},
                        }
                    },
                }
            }
        }
    }

    /// Takes the token at hand.
    fn advance(&mut self) -> (r: Token)
        requires
            old(self).wf(),
            old(self).peeked is Some,
        ensures
            final(self).wf(),
            old(self).rest().len() > 0,
            r@ == old(self).rest()[0],
            final(self).rest() == old(self).rest().drop_first(),
    {
        let ghost rem = significant(self.tokenizer.remaining());
        match self.peeked.take() {
            Some(t) => {
                assert((seq![t@] + rem).drop_first() =~= rem);
                t
            },
            None => vstd::pervasive::unreached(),
        }
    }

    /// Takes the next token, which must be of the kind `ty`.
    fn consume(&mut self, ty: TokenTy) -> (r: Result<Token, SyntaxError>)
        requires
            old(self).wf(),
            is_marker(ty@),
        ensures
            final(self).wf(),
            if old(self).rest().len() > 0 && old(self).rest()[0].ty == ty@ {
                &&& r is Ok
                &&& r->Ok_0@ == old(self).rest()[0]
                &&& final(self).rest() == old(self).rest().drop_first()
            } else {
                r is Err && r->Err_0@ == consume_error(old(self).rest(), ty@)
            },
    {
        self.fill();
        match &self.peeked {
            None => {
                return Err(SyntaxError::UnexpectedEOF);
            },
            Some(t) => {
                if !same_marker(&t.ty, &ty) {
                    return Err(
                        SyntaxError::UnexpectedToken { span: t.span, expected: ty.name(), found: t.ty.name() },
                    );
                }
            },
        }
        Ok(self.advance())
    }

    fn primary(&mut self) -> (r: Result<Expr, SyntaxError>)
        requires
            old(self).wf(),
        ensures
            final(self).wf(),
            outcome(r, parse_primary(old(self).rest()), final(self).rest()),
    {
        self.fill();
        let (lit, span) = match &self.peeked {
            None => {
                return Err(SyntaxError::UnexpectedEOF);
            },
            Some(t) => match &t.ty {
                TokenTy::BoolLit(b) => (Literal::Bool(*b), t.span),
                TokenTy::NatLit(n) => (Literal::NatureNum(*n), t.span),
                _ => {
                    return Err(SyntaxError::Expected { span: t.span, expected: "expression" });
                },
            },
        };
        self.advance();
        Ok(Expr::new(ExprKind::Literal(lit), span))
    }

    /// `addition := primary ( '+' primary )*`
    pub fn addition(&mut self) -> (r: Result<Expr, SyntaxError>)
        requires
            old(self).wf(),
        ensures
            final(self).wf(),
            outcome(r, parse_addition(old(self).rest()), final(self).rest()),
    {
        let ghost ts0 = self.rest();
        let mut expr = match self.primary() {
            Ok(e) => e,
            Err(err) => {
                return Err(err);
            },
        };
        loop
            invariant
                self.wf(),
                ts0 == old(self).rest(),
                addition_tail(self.rest(), expr) == parse_addition(ts0),
            decreases self.rest().len(),
        {
            self.fill();
            let plus = match &self.peeked {
                Some(t) => matches!(t.ty, TokenTy::Plus),
                None => false,
            };
            if !plus {
                return Ok(expr);
            }
            self.advance();
            let rhs = match self.primary() {
                Ok(e) => e,
                Err(err) => {
                    return Err(err);
                },
            };
            expr = make_binary(expr, BinaryOp::Plus, rhs);
        }
    }

    /// `comparison := addition ( ('<' | '=') addition )*`
    pub fn comparison(&mut self) -> (r: Result<Expr, SyntaxError>)
        requires
            old(self).wf(),
        ensures
            final(self).wf(),
            outcome(r, parse_comparison(old(self).rest()), final(self).rest()),
    {
        let ghost ts0 = self.rest();
        let mut expr = match self.addition() {
            Ok(e) => e,
            Err(err) => {
                return Err(err);
            },
        };
        loop
            invariant
                self.wf(),
                ts0 == old(self).rest(),
                comparison_tail(self.rest(), expr) == parse_comparison(ts0),
            decreases self.rest().len(),
        {
            self.fill();
            let op = match &self.peeked {
                Some(t) => match t.ty {
                    TokenTy::Less => Some(BinaryOp::Less),
                    TokenTy::Equal => Some(BinaryOp::Equal),
                    _ => None,
                },
                None => None,
            };
            let op = match op {
                Some(op) => op,
                None => {
                    return Ok(expr);
                },
            };
            self.advance();
            proof {
                lemma_addition_consumes(self.rest());
            }
            let rhs = match self.addition() {
                Ok(e) => e,
                Err(err) => {
                    return Err(err);
                },
            };
            expr = make_binary(expr, op, rhs);
        }
    }

    /// `logical := comparison ( '&' comparison )*`
    pub fn logical(&mut self) -> (r: Result<Expr, SyntaxError>)
        requires
            old(self).wf(),
        ensures
            final(self).wf(),
            outcome(r, parse_logical(old(self).rest()), final(self).rest()),
    {
        let ghost ts0 = self.rest();
        let mut expr = match self.comparison() {
            Ok(e) => e,
            Err(err) => {
                return Err(err);
            },
        };
        loop
            invariant
                self.wf(),
                ts0 == old(self).rest(),
                logical_tail(self.rest(), expr) == parse_logical(ts0),
            decreases self.rest().len(),
        {
            self.fill();
            let and = match &self.peeked {
                Some(t) => matches!(t.ty, TokenTy::Ampersand),
                None => false,
            };
            if !and {
                return Ok(expr);
            }
            self.advance();
            proof {
                lemma_comparison_consumes(self.rest());
            }
            let rhs = match self.comparison() {
                Ok(e) => e,
                Err(err) => {
                    return Err(err);
                },
            };
            expr = make_binary(expr, BinaryOp::Ampersand, rhs);
        }
    }

    /// `conditional := logical ( '?' logical ':' logical )?`
    pub fn conditional(&mut self) -> (r: Result<Expr, SyntaxError>)
        requires
            old(self).wf(),
        ensures
            final(self).wf(),
            outcome(r, parse_conditional(old(self).rest()), final(self).rest()),
    {
        let condition = match self.logical() {
            Ok(e) => e,
            Err(err) => {
                return Err(err);
            },
        };
        self.fill();
        let question = match &self.peeked {
            Some(t) => matches!(t.ty, TokenTy::QuestionMark),
            None => false,
        };
        if !question {
            return Ok(condition);
        }
        match self.consume(TokenTy::QuestionMark) {
            Ok(_) => {},
            Err(err) => {
                return Err(err);
            },
        }
        let then_branch = match self.logical() {
            Ok(e) => e,
            Err(err) => {
                return Err(err);
            },
        };
        match self.consume(TokenTy::Colon) {
            Ok(_) => {},
            Err(err) => {
                return Err(err);
            },
        }
        let else_branch = match self.logical() {
            Ok(e) => e,
            Err(err) => {
                return Err(err);
            },
        };
        Ok(make_cond(condition, then_branch, else_branch))
    }

    /// An expression: `expression := conditional`.
    pub fn expression(&mut self) -> (r: Result<Expr, SyntaxError>)
        requires
            old(self).wf(),
        ensures
            final(self).wf(),
            outcome(r, parse_conditional(old(self).rest()), final(self).rest()),
    {
        self.conditional()
    }
}

} // verus!
