use mini_haskell::lexer::{LexingError, Token, TokenTy, Tokenizer};
use mini_haskell::span::Span;

fn tok(ty: TokenTy, start: usize, end: usize) -> Result<Token, LexingError> {
    Ok(Token::new(ty, Span { start, end }))
}

fn bad(start: usize, end: usize) -> Result<Token, LexingError> {
    Err(LexingError::UnexpectedToken(Span { start, end }))
}

fn span_of(item: &Result<Token, LexingError>) -> Span {
    match item {
        Ok(t) => t.span,
        Err(LexingError::UnexpectedToken(s)) => *s,
    }
}

#[test]
fn all_tokens() {
    let src = "bool T F nat func ? : ; ( ) + & -> < = [a comment] name_1 42";
    let expected = vec![
        tok(TokenTy::BoolDecl, 0, 4),
        tok(TokenTy::BoolLit(true), 5, 6),
        tok(TokenTy::BoolLit(false), 7, 8),
        tok(TokenTy::Nat, 9, 12),
        tok(TokenTy::Func, 13, 17),
        tok(TokenTy::QuestionMark, 18, 19),
        tok(TokenTy::Colon, 20, 21),
        tok(TokenTy::Semicolon, 22, 23),
        tok(TokenTy::LeftParen, 24, 25),
        tok(TokenTy::RightParen, 26, 27),
        tok(TokenTy::Plus, 28, 29),
        tok(TokenTy::Ampersand, 30, 31),
        tok(TokenTy::Arrow, 32, 34),
        tok(TokenTy::Less, 35, 36),
        tok(TokenTy::Equal, 37, 38),
        tok(TokenTy::Comment("[a comment]".to_string()), 39, 50),
        tok(TokenTy::Identifier("name_1".to_string()), 51, 57),
        tok(TokenTy::NatLit(42), 58, 60),
    ];
    assert_eq!(Token::tokens(src), expected);
}

#[test]
fn natural_literals() {
    assert_eq!(Token::tokens("0"), vec![tok(TokenTy::NatLit(0), 0, 1)]);
    assert_eq!(Token::tokens("123"), vec![tok(TokenTy::NatLit(123), 0, 3)]);
}

#[test]
fn leading_zeros_split() {
    assert_eq!(
        Token::tokens("007"),
        vec![tok(TokenTy::NatLit(0), 0, 1), tok(TokenTy::NatLit(0), 1, 2), tok(TokenTy::NatLit(7), 2, 3)]
    );
}

#[test]
fn largest_natural_literal() {
    let max = usize::MAX.to_string();
    assert_eq!(Token::tokens(&max), vec![tok(TokenTy::NatLit(usize::MAX), 0, max.len())]);
}

#[test]
fn overflowing_literal_is_an_error() {
    let src = "99999999999999999999999999 1";
    assert_eq!(Token::tokens(src), vec![bad(0, 26), tok(TokenTy::NatLit(1), 27, 28)]);
}

#[test]
fn invalid_token() {
    assert_eq!(
        Token::tokens("1 @ 2"),
        vec![tok(TokenTy::NatLit(1), 0, 1), bad(2, 3), tok(TokenTy::NatLit(2), 4, 5)]
    );
}

#[test]
fn invalid_multibyte_character_is_one_error() {
    assert_eq!(Token::tokens("é1"), vec![bad(0, 2), tok(TokenTy::NatLit(1), 2, 3)]);
    assert_eq!(Token::tokens("€"), vec![bad(0, 3)]);
}

#[test]
fn carriage_return_is_not_whitespace() {
    assert_eq!(Token::tokens("\r"), vec![bad(0, 1)]);
    assert_eq!(Token::tokens(" \t\n\u{c}"), vec![]);
}

#[test]
fn lone_minus_is_an_error() {
    assert_eq!(Token::tokens("-1"), vec![bad(0, 1), tok(TokenTy::NatLit(1), 1, 2)]);
    assert_eq!(Token::tokens("-"), vec![bad(0, 1)]);
}

#[test]
fn unclosed_comment_reports_the_bracket() {
    assert_eq!(
        Token::tokens("[ab"),
        vec![bad(0, 1), tok(TokenTy::Identifier("ab".to_string()), 1, 3)]
    );
}

#[test]
fn comment_keeps_text_and_other_brackets() {
    assert_eq!(
        Token::tokens("[x [ é]1"),
        vec![tok(TokenTy::Comment("[x [ é]".to_string()), 0, 8), tok(TokenTy::NatLit(1), 8, 9)]
    );
}

#[test]
fn longest_word_wins_over_reserved_words() {
    assert_eq!(Token::tokens("boolx"), vec![tok(TokenTy::Identifier("boolx".to_string()), 0, 5)]);
    assert_eq!(Token::tokens("True"), vec![tok(TokenTy::Identifier("True".to_string()), 0, 4)]);
    assert_eq!(Token::tokens("F1"), vec![tok(TokenTy::Identifier("F1".to_string()), 0, 2)]);
    assert_eq!(
        Token::tokens("0abc"),
        vec![tok(TokenTy::NatLit(0), 0, 1), tok(TokenTy::Identifier("abc".to_string()), 1, 4)]
    );
}

#[test]
fn single_token_round_trip() {
    let cases = vec![
        ("bool", TokenTy::BoolDecl),
        ("T", TokenTy::BoolLit(true)),
        ("F", TokenTy::BoolLit(false)),
        ("nat", TokenTy::Nat),
        ("func", TokenTy::Func),
        ("?", TokenTy::QuestionMark),
        (":", TokenTy::Colon),
        (";", TokenTy::Semicolon),
        ("(", TokenTy::LeftParen),
        (")", TokenTy::RightParen),
        ("+", TokenTy::Plus),
        ("&", TokenTy::Ampersand),
        ("->", TokenTy::Arrow),
        ("<", TokenTy::Less),
        ("=", TokenTy::Equal),
        ("[note]", TokenTy::Comment("[note]".to_string())),
        ("x_9", TokenTy::Identifier("x_9".to_string())),
        ("907", TokenTy::NatLit(907)),
    ];
    for (text, ty) in cases {
        assert_eq!(Token::tokens(text), vec![tok(ty, 0, text.len())], "{}", text);
    }
}

#[test]
fn spans_ordered_and_cover_non_space() {
    let src = " a+ @12 [c]\t->x é ";
    let items = Token::tokens(src);
    let mut covered = vec![false; src.len()];
    let mut last_end = 0;
    for item in &items {
        let s = span_of(item);
        assert!(s.start < s.end && s.end <= src.len());
        assert!(last_end <= s.start);
        last_end = s.end;
        for p in s.start..s.end {
            covered[p] = true;
        }
    }
    for (p, b) in src.bytes().enumerate() {
        assert!(covered[p] || b == b' ' || b == b'\t' || b == b'\n' || b == 12);
    }
}

#[test]
fn tokenizer_yields_one_item_at_a_time() {
    let mut t = Tokenizer::new("T @");
    assert_eq!(t.next(), Some(tok(TokenTy::BoolLit(true), 0, 1)));
    assert_eq!(t.next(), Some(bad(2, 3)));
    assert_eq!(t.next(), None);
    assert_eq!(t.next(), None);
}

#[test]
fn empty_source_has_no_tokens() {
    assert_eq!(Token::tokens(""), vec![]);
}

#[test]
fn token_names() {
    assert_eq!(TokenTy::BoolDecl.name(), "bool");
    assert_eq!(TokenTy::BoolLit(true).name(), "T/F");
    assert_eq!(TokenTy::NatLit(3).name(), "natural number");
    assert_eq!(TokenTy::Func.name(), "fun");
    assert_eq!(TokenTy::Arrow.name(), "->");
    assert_eq!(TokenTy::Comment(String::new()).name(), "comment");
    assert_eq!(TokenTy::Identifier(String::new()).name(), "identifier");
    assert_eq!(TokenTy::EOF.name(), "EOF");
}
