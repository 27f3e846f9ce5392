use vstd::prelude::*;
use vstd::string::*;
use vstd::utf8::*;
use crate::span::Span;

verus! {

broadcast use vstd::utf8::encode_utf8_valid_utf8;

/// The kinds of tokens, with the values that some of them carry.
#[derive(Debug, PartialEq, Clone)]
pub enum TokenTy {
    /// The type word `bool`.
    BoolDecl,
    /// `T` (true) or `F` (false).
    BoolLit(bool),
    /// A natural-number literal: `0`, or a nonzero digit followed by digits.
    NatLit(usize),
    /// The type word `nat`.
    Nat,
    /// The word `func`.
    Func,
    QuestionMark,
    Colon,
    Semicolon,
    LeftParen,
    RightParen,
    Plus,
    Ampersand,
    Arrow,
    Less,
    Equal,
    /// `[` ... `]` without `]` inside, kept verbatim with its brackets.
    Comment(String),
    /// A letter followed by letters, digits and underscores.
    Identifier(String),
    /// End of input; produced by the parser's lookahead, never by the scanner.
    EOF,
}

/// What a `TokenTy` is, with the text it carries as UTF-8 bytes.
pub enum TokenTyView {
    BoolDecl,
    BoolLit(bool),
    NatLit(usize),
    Nat,
    Func,
    QuestionMark,
    Colon,
    Semicolon,
    LeftParen,
    RightParen,
    Plus,
    Ampersand,
    Arrow,
    Less,
    Equal,
    Comment(Seq<u8>),
    Identifier(Seq<u8>),
    EOF,
}

impl View for TokenTy {
    type V = TokenTyView;

    open spec fn view(&self) -> TokenTyView {
        match self {
            TokenTy::BoolDecl => TokenTyView::BoolDecl,
            TokenTy::BoolLit(b) => TokenTyView::BoolLit(*b),
            TokenTy::NatLit(n) => TokenTyView::NatLit(*n),
            TokenTy::Nat => TokenTyView::Nat,
            TokenTy::Func => TokenTyView::Func,
            TokenTy::QuestionMark => TokenTyView::QuestionMark,
            TokenTy::Colon => TokenTyView::Colon,
            TokenTy::Semicolon => TokenTyView::Semicolon,
            TokenTy::LeftParen => TokenTyView::LeftParen,
            TokenTy::RightParen => TokenTyView::RightParen,
            TokenTy::Plus => TokenTyView::Plus,
            TokenTy::Ampersand => TokenTyView::Ampersand,
            TokenTy::Arrow => TokenTyView::Arrow,
            TokenTy::Less => TokenTyView::Less,
            TokenTy::Equal => TokenTyView::Equal,
            TokenTy::Comment(s) => TokenTyView::Comment(encode_utf8(s@)),
            TokenTy::Identifier(s) => TokenTyView::Identifier(encode_utf8(s@)),
            TokenTy::EOF => TokenTyView::EOF,
        }
    }
}

/// The name by which diagnostics refer to a kind of token.
pub open spec fn kind_name(k: TokenTyView) -> Seq<char> {
    match k {
        TokenTyView::BoolDecl => "bool"@,
        TokenTyView::BoolLit(_) => "T/F"@,
        TokenTyView::NatLit(_) => "natural number"@,
        TokenTyView::Nat => "nat"@,
        TokenTyView::Func => "fun"@,
        TokenTyView::QuestionMark => "?"@,
        TokenTyView::Colon => ":"@,
        TokenTyView::Semicolon => ";"@,
        TokenTyView::LeftParen => "("@,
        TokenTyView::RightParen => ")"@,
        TokenTyView::Plus => "+"@,
        TokenTyView::Ampersand => "&"@,
        TokenTyView::Arrow => "->"@,
        TokenTyView::Less => "<"@,
        TokenTyView::Equal => "="@,
        TokenTyView::Comment(_) => "comment"@,
        TokenTyView::Identifier(_) => "identifier"@,
        TokenTyView::EOF => "EOF"@,
    }
}

impl TokenTy {
    pub fn name(&self) -> (r: &'static str)
        ensures
            r@ == kind_name(self@),
    {
        match self {
            TokenTy::BoolDecl => "bool",
            TokenTy::BoolLit(_) => "T/F",
            TokenTy::NatLit(_) => "natural number",
            TokenTy::Nat => "nat",
            TokenTy::Func => "fun",
            TokenTy::QuestionMark => "?",
            TokenTy::Colon => ":",
            TokenTy::Semicolon => ";",
            TokenTy::LeftParen => "(",
            TokenTy::RightParen => ")",
            TokenTy::Plus => "+",
            TokenTy::Ampersand => "&",
            TokenTy::Arrow => "->",
            TokenTy::Less => "<",
            TokenTy::Equal => "=",
            TokenTy::Comment(_) => "comment",
            TokenTy::Identifier(_) => "identifier",
            TokenTy::EOF => "EOF",
        }
    }
}

/// A token and the bytes of the source that it stands for.
#[derive(Debug, PartialEq, Clone)]
pub struct Token {
    pub ty: TokenTy,
    pub span: Span,
}

pub struct TokenView {
    pub ty: TokenTyView,
    pub span: Span,
}

impl View for Token {
    type V = TokenView;

    open spec fn view(&self) -> TokenView {
        TokenView { ty: self.ty@, span: self.span }
    }
}

impl Token {
    pub fn new(ty: TokenTy, span: Span) -> (r: Token)
        ensures
            r.ty == ty,
            r.span == span,
    {
        Token { ty, span }
    }
}

/// A byte range that no token pattern matches.
#[derive(Debug, Clone, Copy, PartialEq, Eq, Structural)]
pub enum LexingError {
    UnexpectedToken(Span),
}

/// One element of the scanner's output: a token, or a lexical error.
pub type LexItem = Result<TokenView, LexingError>;

pub open spec fn item_view(r: Result<Token, LexingError>) -> LexItem {
    match r {
        Ok(t) => Ok(t@),
        Err(e) => Err(e),
    }
}

/// The bytes of the source that an item of the scanner's output covers.
pub open spec fn item_span(it: LexItem) -> Span {
    match it {
        Ok(t) => t.span,
        Err(LexingError::UnexpectedToken(s)) => s,
    }
}

// ---------------------------------------------------------------------------
// The token grammar, over the UTF-8 bytes of the source.

pub const TAB: u8 = 9;
pub const NEWLINE: u8 = 10;
pub const FORM_FEED: u8 = 12;
pub const SPACE: u8 = 32;
pub const AMPERSAND: u8 = 38;
pub const LEFT_PAREN: u8 = 40;
pub const RIGHT_PAREN: u8 = 41;
pub const PLUS: u8 = 43;
pub const MINUS: u8 = 45;
pub const DIGIT_ZERO: u8 = 48;
pub const DIGIT_NINE: u8 = 57;
pub const COLON: u8 = 58;
pub const SEMICOLON: u8 = 59;
pub const LESS: u8 = 60;
pub const EQUALS: u8 = 61;
pub const GREATER: u8 = 62;
pub const QUESTION: u8 = 63;
pub const UPPER_A: u8 = 65;
pub const UPPER_Z: u8 = 90;
pub const OPEN_BRACKET: u8 = 91;
pub const CLOSE_BRACKET: u8 = 93;
pub const UNDERSCORE: u8 = 95;
pub const LOWER_A: u8 = 97;
pub const LOWER_Z: u8 = 122;

/// Classes of bytes whose maximal runs the scanner takes.
#[derive(Clone, Copy)]
pub enum ByteClass {
    /// Space, tab, newline and form feed: skipped between tokens.
    Space,
    Digit,
    /// What may follow the first letter of an identifier.
    Word,
    /// The continuation bytes of a multi-byte UTF-8 character.
    Continuation,
    /// Anything but `]`.
    NotClose,
}

pub open spec fn is_letter(c: u8) -> bool {
    (LOWER_A <= c <= LOWER_Z) || (UPPER_A <= c <= UPPER_Z)
}

pub open spec fn is_digit(c: u8) -> bool {
    DIGIT_ZERO <= c <= DIGIT_NINE
}

pub open spec fn in_class(class: ByteClass, c: u8) -> bool {
    match class {
        ByteClass::Space => c == SPACE || c == TAB || c == NEWLINE || c == FORM_FEED,
        ByteClass::Digit => is_digit(c),
        ByteClass::Word => is_letter(c) || is_digit(c) || c == UNDERSCORE,
        ByteClass::Continuation => is_continuation_byte(c),
        ByteClass::NotClose => c != CLOSE_BRACKET,
    }
}

/// The end of the maximal run of bytes of `class` that starts at `i`.
pub open spec fn run_end(b: Seq<u8>, i: int, class: ByteClass) -> int
    decreases b.len() - i,
{
    if 0 <= i < b.len() && in_class(class, b[i]) {
        run_end(b, i + 1, class)
    } else {
        i
    }
}

/// The value of a sequence of decimal digits.
pub open spec fn digits_value(s: Seq<u8>) -> nat
    decreases s.len(),
{
    if s.len() == 0 {
        0
    } else {
        digits_value(s.drop_last()) * 10 + (s.last() - DIGIT_ZERO) as nat
    }
}

/// The kind of a word: one of the reserved words, or an identifier.
pub open spec fn word_kind(w: Seq<u8>) -> TokenTyView {
    if w == seq![98u8, 111u8, 111u8, 108u8] {
        // bool
        TokenTyView::BoolDecl
    } else if w == seq![110u8, 97u8, 116u8] {
        // nat
        TokenTyView::Nat
    } else if w == seq![102u8, 117u8, 110u8, 99u8] {
        // func
        TokenTyView::Func
    } else if w == seq![84u8] {
        // T
        TokenTyView::BoolLit(true)
    } else if w == seq![70u8] {
        // F
        TokenTyView::BoolLit(false)
    } else {
        TokenTyView::Identifier(w)
    }
}

/// The one-byte punctuation tokens.
pub open spec fn punct_kind(c: u8) -> Option<TokenTyView> {
    if c == QUESTION {
        Some(TokenTyView::QuestionMark)
    } else if c == COLON {
        Some(TokenTyView::Colon)
    } else if c == SEMICOLON {
        Some(TokenTyView::Semicolon)
    } else if c == LEFT_PAREN {
        Some(TokenTyView::LeftParen)
    } else if c == RIGHT_PAREN {
        Some(TokenTyView::RightParen)
    } else if c == PLUS {
        Some(TokenTyView::Plus)
    } else if c == AMPERSAND {
        Some(TokenTyView::Ampersand)
    } else if c == LESS {
        Some(TokenTyView::Less)
    } else if c == EQUALS {
        Some(TokenTyView::Equal)
    } else {
        None
    }
}

pub open spec fn token_item(ty: TokenTyView, start: int, end: int) -> LexItem {
    Ok(TokenView { ty, span: Span::of(start, end) })
}

pub open spec fn error_item(start: int, end: int) -> LexItem {
    Err(LexingError::UnexpectedToken(Span::of(start, end)))
}

/// The longest match at `j`, which holds no space: the item found there and
/// where it ends. Reserved words win over identifiers of the same length.
/// A byte that starts no token (a `[` that is never closed among them) is an
/// error over that byte and the continuation bytes after it, so over one
/// character. A number too large for `usize` is an error over its digits.
pub open spec fn scan_at(b: Seq<u8>, j: int) -> (LexItem, int) {
    let c = b[j];
    if c == DIGIT_ZERO {
        (token_item(TokenTyView::NatLit(0), j, j + 1), j + 1)
    } else if is_digit(c) {
        let e = run_end(b, j, ByteClass::Digit);
        let v = digits_value(b.subrange(j, e));
        if v <= usize::MAX {
            (token_item(TokenTyView::NatLit(v as usize), j, e), e)
        } else {
            (error_item(j, e), e)
        }
    } else if is_letter(c) {
        let e = run_end(b, j, ByteClass::Word);
        (token_item(word_kind(b.subrange(j, e)), j, e), e)
    } else if c == OPEN_BRACKET && run_end(b, j + 1, ByteClass::NotClose) < b.len() {
        let e = run_end(b, j + 1, ByteClass::NotClose) + 1;
        (token_item(TokenTyView::Comment(b.subrange(j, e)), j, e), e)
    } else if c == MINUS && j + 1 < b.len() && b[j + 1] == GREATER {
        (token_item(TokenTyView::Arrow, j, j + 2), j + 2)
    } else if punct_kind(c) is Some {
        (token_item(punct_kind(c)->0, j, j + 1), j + 1)
    } else {
        let e = run_end(b, j + 1, ByteClass::Continuation);
        (error_item(j, e), e)
    }
}

/// The scanner's output on the bytes from `i` on.
pub open spec fn lex_from(b: Seq<u8>, i: int) -> Seq<LexItem>
    decreases b.len() - i,
{
    let j = run_end(b, i, ByteClass::Space);
    if 0 <= i && j < b.len() {
        proof {
            lemma_run_end(b, i, ByteClass::Space);
            lemma_scan_at(b, j);
        }
        seq![scan_at(b, j).0] + lex_from(b, scan_at(b, j).1)
    } else {
        seq![]
    }
}

/// The scanner's output on a whole source.
pub open spec fn lex(b: Seq<u8>) -> Seq<LexItem> {
    lex_from(b, 0)
}

pub proof fn lemma_run_end(b: Seq<u8>, i: int, class: ByteClass)
    requires
        0 <= i,
    ensures
        i <= run_end(b, i, class),
        i <= b.len() ==> run_end(b, i, class) <= b.len(),
        forall|p: int| i <= p < run_end(b, i, class) ==> in_class(class, #[trigger] b[p]),
        run_end(b, i, class) < b.len() ==> !in_class(class, b[run_end(b, i, class)]),
    decreases b.len() - i,
{
    if 0 <= i < b.len() && in_class(class, b[i]) {
        lemma_run_end(b, i + 1, class);
    }
}

pub proof fn lemma_scan_at(b: Seq<u8>, j: int)
    requires
        0 <= j < b.len(),
    ensures
        j < scan_at(b, j).1 <= b.len(),
        item_span(scan_at(b, j).0) == Span::of(j, scan_at(b, j).1),
{
    lemma_run_end(b, j, ByteClass::Digit);
    lemma_run_end(b, j, ByteClass::Word);
    lemma_run_end(b, j + 1, ByteClass::NotClose);
    lemma_run_end(b, j + 1, ByteClass::Continuation);
}

proof fn lemma_digits_prefix(s: Seq<u8>, n: int)
    requires
        0 <= n <= s.len(),
    ensures
        digits_value(s.subrange(0, n)) <= digits_value(s),
    decreases s.len(),
{
    if n < s.len() {
        assert(s.drop_last().subrange(0, n) =~= s.subrange(0, n));
        lemma_digits_prefix(s.drop_last(), n);
    } else {
        assert(s.subrange(0, n) =~= s);
    }
}

/// In valid UTF-8, an offset is a character boundary where it is an end of the
/// text, follows an ASCII byte, or holds no continuation byte.
proof fn lemma_char_boundary(b: Seq<u8>, i: int)
    requires
        valid_utf8(b),
        0 <= i <= b.len(),
        i == 0 || i == b.len() || b[i - 1] < 0x80 || !is_continuation_byte(b[i]),
    ensures
        is_char_boundary(b, i),
    decreases b.len(),
{
    if i != 0 {
        let k = length_of_first_scalar(b);
        let rest = pop_first_scalar(b);
        if i >= k {
            assert(rest.len() == b.len() - k);
            if i - k > 0 && i < b.len() {
                assert(rest[i - k - 1] == b[i - 1]);
                assert(rest[i - k] == b[i]);
            } else if i - k > 0 {
                assert(rest[i - k - 1] == b[i - 1]);
            }
            lemma_char_boundary(rest, i - k);
        }
    }
}

fn in_class_exec(class: ByteClass, c: u8) -> (r: bool)
    ensures
        r == in_class(class, c),
{
    match class {
        ByteClass::Space => c == SPACE || c == TAB || c == NEWLINE || c == FORM_FEED,
        ByteClass::Digit => DIGIT_ZERO <= c && c <= DIGIT_NINE,
        ByteClass::Word => (LOWER_A <= c && c <= LOWER_Z) || (UPPER_A <= c && c <= UPPER_Z) || (
        DIGIT_ZERO <= c && c <= DIGIT_NINE) || c == UNDERSCORE,
        ByteClass::Continuation => 0x80 <= c && c <= 0xbf,
        ByteClass::NotClose => c != CLOSE_BRACKET,
    }
}

fn scan_run(bytes: &[u8], i: usize, class: ByteClass) -> (e: usize)
    requires
        i <= bytes@.len(),
    ensures
        e == run_end(bytes@, i as int, class),
{
    let mut k = i;
    while k < bytes.len() && in_class_exec(class, bytes[k])
        invariant
            i <= k <= bytes@.len(),
            run_end(bytes@, k as int, class) == run_end(bytes@, i as int, class),
        decreases bytes@.len() - k,
    {
        k += 1;
    }
    k
}

/// The value of the digits `j..e`, or `None` where it exceeds `usize::MAX`.
fn digits_at(bytes: &[u8], j: usize, e: usize) -> (r: Option<usize>)
    requires
        j <= e <= bytes@.len(),
        forall|p: int| j <= p < e ==> is_digit(#[trigger] bytes@[p]),
    ensures
        match r {
            Some(v) => v == digits_value(bytes@.subrange(j as int, e as int)),
            None => digits_value(bytes@.subrange(j as int, e as int)) > usize::MAX,
        },
{
    let mut v: usize = 0;
    let mut k = j;
    assert(bytes@.subrange(j as int, j as int) =~= Seq::<u8>::empty());
    while k < e
        invariant
            j <= k <= e <= bytes@.len(),
            forall|p: int| j <= p < e ==> is_digit(#[trigger] bytes@[p]),
            v == digits_value(bytes@.subrange(j as int, k as int)),
        decreases e - k,
    {
        let d = (bytes[k] - DIGIT_ZERO) as usize;
        let ghost next = bytes@.subrange(j as int, k + 1);
        assert(next.drop_last() =~= bytes@.subrange(j as int, k as int));
        assert(digits_value(next) == v * 10 + d);
        proof {
            assert(bytes@.subrange(j as int, e as int).subrange(0, k + 1 - j) =~= next);
            lemma_digits_prefix(bytes@.subrange(j as int, e as int), k + 1 - j);
        }
        match v.checked_mul(10) {
            None => {
                return None;
            },
            Some(m) => match m.checked_add(d) {
                None => {
                    return None;
                },
                Some(n) => {
                    v = n;
                },
            },
        }
        k += 1;
    }
    Some(v)
}

/// The text of the bytes `j..e`, which begin and end with ASCII bytes.
fn text_between(source: &str, j: usize, e: usize) -> (r: String)
    requires
        j < e <= source.spec_bytes().len(),
        source.spec_bytes()[j as int] < 0x80,
        source.spec_bytes()[e - 1] < 0x80,
    ensures
        encode_utf8(r@) == source.spec_bytes().subrange(j as int, e as int),
{
    let ghost b = source.spec_bytes();
    proof {
        lemma_char_boundary(b, j as int);
    }
    let (_, tail) = source.split_at(j);
    proof {
        let t = tail.spec_bytes();
        assert(t[e - j - 1] == b[e - 1]);
        lemma_char_boundary(t, e - j);
    }
    let (piece, _) = tail.split_at(e - j);
    assert(piece.spec_bytes() =~= b.subrange(j as int, e as int));
    piece.to_owned()
}

/// The reserved word that the bytes `j..e` spell, if any.
fn reserved_word(bytes: &[u8], j: usize, e: usize) -> (r: Option<TokenTy>)
    requires
        j < e <= bytes@.len(),
    ensures
        match r {
            Some(t) => word_kind(bytes@.subrange(j as int, e as int)) == t@,
            None => word_kind(bytes@.subrange(j as int, e as int)) == TokenTyView::Identifier(
                bytes@.subrange(j as int, e as int),
            ),
        },
{
    let ghost w = bytes@.subrange(j as int, e as int);
    let n = e - j;
    assert(forall|i: int| 0 <= i < n ==> w[i] == bytes@[j + i]);
    if n == 4 && bytes[j] == 98 && bytes[j + 1] == 111 && bytes[j + 2] == 111 && bytes[j + 3] == 108 {
        assert(w =~= seq![98u8, 111u8, 111u8, 108u8]);
        return Some(TokenTy::BoolDecl);
    }
    assert(w != seq![98u8, 111u8, 111u8, 108u8]) by {
        let kw = seq![98u8, 111u8, 111u8, 108u8];
        assert(kw.len() == 4 && kw[0] == 98u8 && kw[1] == 111u8 && kw[2] == 111u8 && kw[3] == 108u8);
        if w == kw {
            assert(w[0] == bytes@[j as int]);
            assert(w[1] == bytes@[j + 1]);
            assert(w[2] == bytes@[j + 2]);
            assert(w[3] == bytes@[j + 3]);
        }
    }
    if n == 3 && bytes[j] == 110 && bytes[j + 1] == 97 && bytes[j + 2] == 116 {
        assert(w =~= seq![110u8, 97u8, 116u8]);
        return Some(TokenTy::Nat);
    }
    assert(w != seq![110u8, 97u8, 116u8]) by {
        let kw = seq![110u8, 97u8, 116u8];
        assert(kw.len() == 3 && kw[0] == 110u8 && kw[1] == 97u8 && kw[2] == 116u8);
        if w == kw {
            assert(w[0] == bytes@[j as int]);
            assert(w[1] == bytes@[j + 1]);
            assert(w[2] == bytes@[j + 2]);
        }
    }
    if n == 4 && bytes[j] == 102 && bytes[j + 1] == 117 && bytes[j + 2] == 110 && bytes[j + 3] == 99 {
        assert(w =~= seq![102u8, 117u8, 110u8, 99u8]);
        return Some(TokenTy::Func);
    }
    assert(w != seq![102u8, 117u8, 110u8, 99u8]) by {
        let kw = seq![102u8, 117u8, 110u8, 99u8];
        assert(kw.len() == 4 && kw[0] == 102u8 && kw[1] == 117u8 && kw[2] == 110u8 && kw[3] == 99u8);
        if w == kw {
            assert(w[0] == bytes@[j as int]);
            assert(w[1] == bytes@[j + 1]);
            assert(w[2] == bytes@[j + 2]);
            assert(w[3] == bytes@[j + 3]);
        }
    }
    if n == 1 && bytes[j] == 84 {
        assert(w =~= seq![84u8]);
        return Some(TokenTy::BoolLit(true));
    }
    assert(w != seq![84u8]) by {
        let kw = seq![84u8];
        assert(kw.len() == 1 && kw[0] == 84u8);
        if w == kw {
            assert(w[0] == bytes@[j as int]);
        }
    }
    if n == 1 && bytes[j] == 70 {
        assert(w =~= seq![70u8]);
        return Some(TokenTy::BoolLit(false));
    }
    assert(w != seq![70u8]) by {
        let kw = seq![70u8];
        assert(kw.len() == 1 && kw[0] == 70u8);
        if w == kw {
            assert(w[0] == bytes@[j as int]);
        }
    }
    None
}

/// The kind of the word `j..e`.
fn word_token(source: &str, bytes: &[u8], j: usize, e: usize) -> (r: TokenTy)
    requires
        bytes@ == source.spec_bytes(),
        j < e <= bytes@.len(),
        forall|p: int| j <= p < e ==> in_class(ByteClass::Word, #[trigger] bytes@[p]),
    ensures
        r@ == word_kind(bytes@.subrange(j as int, e as int)),
{
    match reserved_word(bytes, j, e) {
        Some(t) => t,
        None => {
            assert(in_class(ByteClass::Word, bytes@[j as int]));
            assert(in_class(ByteClass::Word, bytes@[e - 1]));
            TokenTy::Identifier(text_between(source, j, e))
        },
    }
}

fn punct_token(c: u8) -> (r: Option<TokenTy>)
    ensures
        match r {
            Some(t) => punct_kind(c) == Some(t@),
            None => punct_kind(c) is None,
        },
{
    if c == QUESTION {
        Some(TokenTy::QuestionMark)
    } else if c == COLON {
        Some(TokenTy::Colon)
    } else if c == SEMICOLON {
        Some(TokenTy::Semicolon)
    } else if c == LEFT_PAREN {
        Some(TokenTy::LeftParen)
    } else if c == RIGHT_PAREN {
        Some(TokenTy::RightParen)
    } else if c == PLUS {
        Some(TokenTy::Plus)
    } else if c == AMPERSAND {
        Some(TokenTy::Ampersand)
    } else if c == LESS {
        Some(TokenTy::Less)
    } else if c == EQUALS {
        Some(TokenTy::Equal)
    } else {
        None
    }
}

fn error_at(start: usize, end: usize) -> (r: Result<Token, LexingError>)
    ensures
        item_view(r) == error_item(start as int, end as int),
{
    Err(LexingError::UnexpectedToken(Span { start, end }))
}

fn token_at(ty: TokenTy, start: usize, end: usize) -> (r: Result<Token, LexingError>)
    ensures
        item_view(r) == token_item(ty@, start as int, end as int),
{
    Ok(Token::new(ty, Span { start, end }))
}

/// The item that starts at `j`, which holds no space, and where it ends.
fn scan(source: &str, bytes: &[u8], j: usize) -> (r: (Result<Token, LexingError>, usize))
    requires
        bytes@ == source.spec_bytes(),
        j < bytes@.len(),
    ensures
        item_view(r.0) == scan_at(bytes@, j as int).0,
        r.1 == scan_at(bytes@, j as int).1,
{
    let ghost b = bytes@;
    let c = bytes[j];
    if c == DIGIT_ZERO {
        (token_at(TokenTy::NatLit(0), j, j + 1), j + 1)
    } else if DIGIT_ZERO <= c && c <= DIGIT_NINE {
        let e = scan_run(bytes, j, ByteClass::Digit);
        proof {
            lemma_run_end(b, j as int, ByteClass::Digit);
        }
        match digits_at(bytes, j, e) {
            Some(v) => (token_at(TokenTy::NatLit(v), j, e), e),
            None => (error_at(j, e), e),
        }
    } else if (LOWER_A <= c && c <= LOWER_Z) || (UPPER_A <= c && c <= UPPER_Z) {
        let e = scan_run(bytes, j, ByteClass::Word);
        proof {
            lemma_run_end(b, j as int, ByteClass::Word);
        }
        (token_at(word_token(source, bytes, j, e), j, e), e)
    } else if c == OPEN_BRACKET && scan_run(bytes, j + 1, ByteClass::NotClose) < bytes.len() {
        let e = scan_run(bytes, j + 1, ByteClass::NotClose) + 1;
        proof {
            lemma_run_end(b, j + 1, ByteClass::NotClose);
        }
        let text = text_between(source, j, e);
        (token_at(TokenTy::Comment(text), j, e), e)
    } else if c == MINUS && j + 1 < bytes.len() && bytes[j + 1] == GREATER {
        (token_at(TokenTy::Arrow, j, j + 2), j + 2)
    } else {
        match punct_token(c) {
            Some(ty) => (token_at(ty, j, j + 1), j + 1),
            None => {
                let e = scan_run(bytes, j + 1, ByteClass::Continuation);
                (error_at(j, e), e)
            },
        }
    }
}

/// A forward-only cursor over a source text that yields its tokens and
/// lexical errors one at a time.
pub struct Tokenizer<'src> {
    source: &'src str,
    pos: usize,
}

impl<'src> Tokenizer<'src> {
    /// The source's bytes.
    pub closed spec fn bytes(&self) -> Seq<u8> {
        self.source.spec_bytes()
    }

    pub closed spec fn wf(&self) -> bool {
        self.pos <= self.source.spec_bytes().len()
    }

    /// What the cursor has still to yield.
    pub closed spec fn remaining(&self) -> Seq<LexItem> {
        lex_from(self.source.spec_bytes(), self.pos as int)
    }

    pub fn new(source: &'src str) -> (r: Tokenizer<'src>)
        ensures
            r.wf(),
            r.bytes() == source.spec_bytes(),
            r.remaining() == lex(source.spec_bytes()),
    {
        Tokenizer { source, pos: 0 }
    }

    /// The next item, or `None` once the source is exhausted.
    pub fn next(&mut self) -> (r: Option<Result<Token, LexingError>>)
        requires
            old(self).wf(),
        ensures
            final(self).wf(),
            final(self).bytes() == old(self).bytes(),
            match r {
                None => old(self).remaining().len() == 0 && final(self).remaining().len() == 0,
                Some(it) => old(self).remaining() == seq![item_view(it)] + final(self).remaining(),
            },
    {
        let bytes = self.source.as_bytes();
        let ghost b = bytes@;
        let j = scan_run(bytes, self.pos, ByteClass::Space);
        proof {
            lemma_run_end(b, self.pos as int, ByteClass::Space);
        }
        if j >= bytes.len() {
            None
        } else {
            let (item, e) = scan(self.source, bytes, j);
            proof {
                lemma_scan_at(b, j as int);
            }
            self.pos = e;
            Some(item)
        }
    }
}

impl Token {
    /// Every item of a source text, in order.
    pub fn tokens(source: &str) -> (r: Vec<Result<Token, LexingError>>)
        ensures
            r@.map_values(|it: Result<Token, LexingError>| item_view(it)) == lex(source.spec_bytes()),
    {
        let mut tokenizer = Tokenizer::new(source);
        let mut out: Vec<Result<Token, LexingError>> = Vec::new();
        loop
            invariant
                tokenizer.wf(),
                tokenizer.bytes() == source.spec_bytes(),
                out@.map_values(|it: Result<Token, LexingError>| item_view(it)) + tokenizer.remaining()
                    == lex(source.spec_bytes()),
            decreases tokenizer.remaining().len(),
        {
            let ghost before = out@;
            match tokenizer.next() {
                None => {
                    assert(out@.map_values(|it: Result<Token, LexingError>| item_view(it)) + tokenizer.remaining()
                        =~= out@.map_values(|it: Result<Token, LexingError>| item_view(it)));
                    return out;
                },
                Some(it) => {
                    out.push(it);
                    assert(out@.map_values(|it: Result<Token, LexingError>| item_view(it)) =~= before.map_values(
                        |it: Result<Token, LexingError>| item_view(it),
                    ).push(item_view(it)));
                },
            }
        }
    }
}

} // verus!
