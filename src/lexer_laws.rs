use vstd::prelude::*;
use crate::lexer::{
    ByteClass, LexItem, TokenTyView, item_span, lex, lex_from, run_end, scan_at, in_class, lemma_run_end,
    lemma_scan_at, is_letter, is_digit, word_kind, digits_value, token_item, DIGIT_ZERO, QUESTION, COLON,
    SEMICOLON, LEFT_PAREN, RIGHT_PAREN, PLUS, AMPERSAND, MINUS, GREATER, LESS, EQUALS, OPEN_BRACKET,
    CLOSE_BRACKET,
};

verus! {

/// The items' spans are non-empty, lie in `from..len`, and come in order
/// without overlap; every byte from `from` on that no span covers is a space.
pub open spec fn laid_out(b: Seq<u8>, items: Seq<LexItem>, from: int) -> bool {
    let n = items.len() as int;
    &&& forall|k: int|
        0 <= k < n ==> from <= (#[trigger] item_span(items[k])).start < item_span(items[k]).end
            <= b.len()
    &&& forall|k: int, l: int|
        0 <= k < l < n ==> (#[trigger] item_span(items[k])).end <= (#[trigger] item_span(
            items[l],
        )).start
    &&& forall|p: int|
        from <= p < b.len() && (n == 0 || p < item_span(items[0]).start) ==> in_class(
            ByteClass::Space,
            #[trigger] b[p],
        )
    &&& forall|k: int, p: int|
        0 < k < n && item_span(items[k - 1]).end <= p < (#[trigger] item_span(items[k])).start
            ==> in_class(ByteClass::Space, #[trigger] b[p])
    &&& forall|p: int|
        n > 0 && item_span(items[n - 1]).end <= p < b.len() ==> in_class(
            ByteClass::Space,
            #[trigger] b[p],
        )
}

proof fn lemma_lex_from_laid_out(b: Seq<u8>, i: int)
    requires
        0 <= i <= b.len() <= usize::MAX,
    ensures
        laid_out(b, lex_from(b, i), i),
    decreases b.len() - i,
{
    let j = run_end(b, i, ByteClass::Space);
    lemma_run_end(b, i, ByteClass::Space);
    if j < b.len() {
        let (it, e) = scan_at(b, j);
        lemma_scan_at(b, j);
        let rest = lex_from(b, e);
        lemma_lex_from_laid_out(b, e);
        let items = lex_from(b, i);
        assert(items == seq![it] + rest);
        assert(items[0] == it);
        assert(forall|k: int| 0 < k < items.len() ==> items[k] == rest[k - 1]);
        let n = items.len() as int;
        assert forall|k: int, l: int| 0 <= k < l < n implies (#[trigger] item_span(items[k])).end
            <= (#[trigger] item_span(items[l])).start by {
            if k > 0 {
                assert(item_span(rest[k - 1]).end <= item_span(rest[l - 1]).start);
            } else {
                assert(e <= item_span(rest[l - 1]).start);
            }
        }
        assert forall|k: int, p: int|
            0 < k < n && item_span(items[k - 1]).end <= p < (#[trigger] item_span(
                items[k],
            )).start implies in_class(ByteClass::Space, #[trigger] b[p]) by {
            if k > 1 {
                assert(item_span(rest[k - 2]).end <= p < item_span(rest[k - 1]).start);
            }
        }
        assert forall|p: int|
            n > 0 && item_span(items[n - 1]).end <= p < b.len() implies in_class(
            ByteClass::Space,
            #[trigger] b[p],
        ) by {
            if n > 1 {
                assert(items[n - 1] == rest[rest.len() - 1]);
            } else {
                assert(rest.len() == 0);
            }
        }
    }
}

/// Every byte of a source is either covered by exactly one item of the
/// scanner's output (a token or a lexical error) or is a space; the items'
/// spans are non-empty, within the source, and strictly increasing without
/// overlap.
pub proof fn lemma_lex_covers_source(b: Seq<u8>)
    requires
        b.len() <= usize::MAX,
    ensures
        laid_out(b, lex(b), 0),
{
    lemma_lex_from_laid_out(b, 0);
}

/// Decimal digits of `n`, without leading zeros.
pub open spec fn decimal(n: nat) -> Seq<u8>
    decreases n,
{
    if n < 10 {
        seq![(DIGIT_ZERO + n) as u8]
    } else {
        decimal(n / 10).push((DIGIT_ZERO + n % 10) as u8)
    }
}

/// The text of a token of kind `k`.
pub open spec fn token_text(k: TokenTyView) -> Seq<u8> {
    match k {
        TokenTyView::BoolDecl => seq![98u8, 111u8, 111u8, 108u8],
        TokenTyView::BoolLit(v) => if v {
            seq![84u8]
        } else {
            seq![70u8]
        },
        TokenTyView::NatLit(n) => decimal(n as nat),
        TokenTyView::Nat => seq![110u8, 97u8, 116u8],
        TokenTyView::Func => seq![102u8, 117u8, 110u8, 99u8],
        TokenTyView::QuestionMark => seq![QUESTION],
        TokenTyView::Colon => seq![COLON],
        TokenTyView::Semicolon => seq![SEMICOLON],
        TokenTyView::LeftParen => seq![LEFT_PAREN],
        TokenTyView::RightParen => seq![RIGHT_PAREN],
        TokenTyView::Plus => seq![PLUS],
        TokenTyView::Ampersand => seq![AMPERSAND],
        TokenTyView::Arrow => seq![MINUS, GREATER],
        TokenTyView::Less => seq![LESS],
        TokenTyView::Equal => seq![EQUALS],
        TokenTyView::Comment(t) => t,
        TokenTyView::Identifier(w) => w,
        TokenTyView::EOF => seq![],
    }
}

/// The kinds that the scanner can produce, with the text they carry well
/// formed: an identifier that is no reserved word, a bracketed comment.
pub open spec fn scannable(k: TokenTyView) -> bool {
    match k {
        TokenTyView::EOF => false,
        TokenTyView::Identifier(w) => {
            &&& w.len() > 0
            &&& is_letter(w[0])
            &&& forall|p: int| 0 <= p < w.len() ==> in_class(ByteClass::Word, #[trigger] w[p])
            &&& word_kind(w) == TokenTyView::Identifier(w)
        },
        TokenTyView::Comment(t) => {
            &&& t.len() >= 2
            &&& t[0] == OPEN_BRACKET
            &&& t[t.len() - 1] == CLOSE_BRACKET
            &&& forall|p: int| 0 < p < t.len() - 1 ==> #[trigger] t[p] != CLOSE_BRACKET
        },
        _ => true,
    }
}

proof fn lemma_decimal(n: nat)
    ensures
        decimal(n).len() > 0,
        forall|p: int| 0 <= p < decimal(n).len() ==> is_digit(#[trigger] decimal(n)[p]),
        n == 0 ==> decimal(n) == seq![DIGIT_ZERO],
        n > 0 ==> decimal(n)[0] != DIGIT_ZERO,
        digits_value(decimal(n)) == n,
    decreases n,
{
    if n < 10 {
        assert(decimal(n).drop_last() =~= Seq::<u8>::empty());
        assert(digits_value(Seq::<u8>::empty()) == 0);
        assert(decimal(n).last() == (DIGIT_ZERO + n) as u8);
    } else {
        lemma_decimal(n / 10);
        assert(decimal(n).drop_last() =~= decimal(n / 10));
        assert(decimal(n).last() == (DIGIT_ZERO + n % 10) as u8);
        assert(n == (n / 10) * 10 + n % 10);
        assert(digits_value(decimal(n)) == digits_value(decimal(n / 10)) * 10 + n % 10);
    }
}

proof fn lemma_run_end_whole(b: Seq<u8>, i: int, class: ByteClass)
    requires
        0 <= i <= b.len(),
        forall|p: int| i <= p < b.len() ==> in_class(class, #[trigger] b[p]),
    ensures
        run_end(b, i, class) == b.len(),
    decreases b.len() - i,
{
    if i < b.len() {
        lemma_run_end_whole(b, i + 1, class);
    }
}

proof fn lemma_lex_one(t: Seq<u8>, k: TokenTyView)
    requires
        t.len() > 0,
        !in_class(ByteClass::Space, t[0]),
        scan_at(t, 0) == (token_item(k, 0, t.len() as int), t.len() as int),
    ensures
        lex(t) == seq![token_item(k, 0, t.len() as int)],
{
    assert(run_end(t, 0, ByteClass::Space) == 0);
    assert(run_end(t, t.len() as int, ByteClass::Space) == t.len());
    assert(lex_from(t, t.len() as int) == Seq::<LexItem>::empty());
    assert(lex_from(t, 0) =~= seq![token_item(k, 0, t.len() as int)]);
}

/// The text of any single token scans back to exactly that token, with a
/// span over the whole text.
pub proof fn lemma_single_token_round_trip(k: TokenTyView)
    requires
        scannable(k),
    ensures
        lex(token_text(k)) == seq![token_item(k, 0, token_text(k).len() as int)],
{
    let t = token_text(k);
    match k {
        TokenTyView::NatLit(n) => {
            lemma_decimal(n as nat);
            if n > 0 {
                lemma_run_end_whole(t, 0, ByteClass::Digit);
                assert(t.subrange(0, t.len() as int) =~= t);
            }
        },
        TokenTyView::Identifier(w) => {
            lemma_run_end_whole(t, 0, ByteClass::Word);
            assert(t.subrange(0, t.len() as int) =~= t);
        },
        TokenTyView::Comment(c) => {
            let e = run_end(t, 1, ByteClass::NotClose);
            lemma_run_end(t, 1, ByteClass::NotClose);
            if e < t.len() - 1 {
                assert(t[e] != CLOSE_BRACKET);
            }
            if e > t.len() - 1 {
                assert(in_class(ByteClass::NotClose, t[t.len() - 1]));
            }
            assert(t.subrange(0, t.len() as int) =~= t);
        },
        TokenTyView::BoolDecl | TokenTyView::Nat | TokenTyView::Func | TokenTyView::BoolLit(_) => {
            assert forall|p: int| 0 <= p < t.len() implies in_class(ByteClass::Word, #[trigger] t[p]) by {
            }
            lemma_run_end_whole(t, 0, ByteClass::Word);
            assert(t.subrange(0, t.len() as int) =~= t);
        },
        _ => {},
    }
    lemma_lex_one(t, k);
}

} // verus!
