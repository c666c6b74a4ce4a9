use dare::BinaryOperator;
use dare::Delimiter;
use dare::Span;
use dare::TokenKind;
use dare::TokenStream;
use dare::UnaryOperator;

#[test]
fn token_stream_parsing() {
    let source = "A ab _a _0_a ( ) ¬ ~ ! && ∧ & . || ∨ | ⊕ ⊻ + ↮ ≢ -> → ⇒ ⊃ == <-> ↔ ⇔ ≡";
    let mut token_stream = TokenStream::parse(source).unwrap();

    let tokens = [
        TokenKind::Identifier(String::from("A")),
        TokenKind::Identifier(String::from("ab")),
        TokenKind::Identifier(String::from("_a")),
        TokenKind::Identifier(String::from("_0_a")),
        TokenKind::Delimiter(Delimiter::Open),
        TokenKind::Delimiter(Delimiter::Close),
        TokenKind::UnaryOperator(UnaryOperator::Negation("¬")),
        TokenKind::UnaryOperator(UnaryOperator::Negation("~")),
        TokenKind::UnaryOperator(UnaryOperator::Negation("!")),
        TokenKind::BinaryOperator(BinaryOperator::Conjunction("&&")),
        TokenKind::BinaryOperator(BinaryOperator::Conjunction("∧")),
        TokenKind::BinaryOperator(BinaryOperator::Conjunction("&")),
        TokenKind::BinaryOperator(BinaryOperator::Conjunction(".")),
        TokenKind::BinaryOperator(BinaryOperator::Disjunction("||")),
        TokenKind::BinaryOperator(BinaryOperator::Disjunction("∨")),
        TokenKind::BinaryOperator(BinaryOperator::Disjunction("|")),
        TokenKind::BinaryOperator(BinaryOperator::ExclusiveDisjunction("⊕")),
        TokenKind::BinaryOperator(BinaryOperator::ExclusiveDisjunction("⊻")),
        TokenKind::BinaryOperator(BinaryOperator::ExclusiveDisjunction("+")),
        TokenKind::BinaryOperator(BinaryOperator::ExclusiveDisjunction("↮")),
        TokenKind::BinaryOperator(BinaryOperator::ExclusiveDisjunction("≢")),
        TokenKind::BinaryOperator(BinaryOperator::Implication("->")),
        TokenKind::BinaryOperator(BinaryOperator::Implication("→")),
        TokenKind::BinaryOperator(BinaryOperator::Implication("⇒")),
        TokenKind::BinaryOperator(BinaryOperator::Implication("⊃")),
        TokenKind::BinaryOperator(BinaryOperator::Equivalence("==")),
        TokenKind::BinaryOperator(BinaryOperator::Equivalence("<->")),
        TokenKind::BinaryOperator(BinaryOperator::Equivalence("↔")),
        TokenKind::BinaryOperator(BinaryOperator::Equivalence("⇔")),
        TokenKind::BinaryOperator(BinaryOperator::Equivalence("≡")),
    ];

    for expected in tokens.iter() {
        let token = token_stream.try_next().expect("token missing from the stream");
        assert_eq!(token.kind(), expected);
    }
    assert!(token_stream.is_empty());
}

#[test]
fn extra_spellings_lex() {
    let mut ts = TokenStream::parse("a ^ b").unwrap();
    ts.try_next().unwrap();
    assert_eq!(
        *ts.try_next().unwrap().kind(),
        TokenKind::BinaryOperator(BinaryOperator::ExclusiveDisjunction("^"))
    );

    let mut ts = TokenStream::parse("1 0").unwrap();
    assert_eq!(*ts.try_next().unwrap().kind(), TokenKind::TruthValue(true));
    assert_eq!(*ts.try_next().unwrap().kind(), TokenKind::TruthValue(false));
}

#[test]
fn unexpected_symbol_is_a_lexical_error() {
    let err = TokenStream::parse("a @ b").unwrap_err();
    assert_eq!(err.messages()[0], "unexpected symbol '@'");
    assert_eq!(err.spans()[0], Span::new(2, 1));
}

#[test]
fn unfinished_equivalence_is_a_lexical_error() {
    let err = TokenStream::parse("a <- b").unwrap_err();
    assert_eq!(err.messages()[0], "expected symbol '>'");
    assert_eq!(err.spans()[0], Span::new(4, 1));

    let err = TokenStream::parse("a <-").unwrap_err();
    assert_eq!(err.messages()[0], "expected symbol '>'");
    assert_eq!(err.spans()[0], Span::new(4, 0));
}

#[test]
fn token_spans_cover_the_source() {
    let ts = TokenStream::parse("ab && c").unwrap();
    assert_eq!(ts.span(), Span::new(0, 2));

    let mut ts = ts;
    let first = ts.try_next().unwrap().span();
    assert_eq!(first.start(), 0);
    assert_eq!(first.length(), 2);
    assert_eq!(first.end(), 2);
    assert_eq!(first.range(), 0..2);
    assert_eq!(ts.try_next().unwrap().span(), Span::new(3, 2));
    assert_eq!(ts.try_next().unwrap().span(), Span::new(6, 1));
    assert!(ts.try_next().is_none());
}

#[test]
fn span_join_covers_both() {
    assert_eq!(Span::new(0, 2).join(Span::new(4, 3)), Span::new(0, 7));
    assert_eq!(Span::new(4, 3).join(Span::new(0, 2)), Span::new(0, 7));
    assert_eq!(Span::new(1, 1).join(Span::new(1, 1)), Span::new(1, 1));
}

#[test]
fn peeking_does_not_consume() {
    let mut ts = TokenStream::parse("x").unwrap();
    assert!(!ts.is_empty());
    assert_eq!(*ts.peek().unwrap().kind(), TokenKind::Identifier(String::from("x")));
    assert_eq!(*ts.try_peek_kind().unwrap(), TokenKind::Identifier(String::from("x")));
    ts.next().unwrap();
    assert!(ts.is_empty());
    let err = ts.next().unwrap_err();
    assert_eq!(err.messages()[0], "unexpected end of file");
    assert_eq!(err.spans()[0], Span::new(1, 0));
}

#[test]
fn expect_checks_the_kind() {
    let mut ts = TokenStream::parse("( a").unwrap();
    assert!(ts.expect(&TokenKind::Delimiter(Delimiter::Open)).is_ok());
    let err = ts.expect(&TokenKind::Delimiter(Delimiter::Close)).unwrap_err();
    assert_eq!(err.messages()[0], "expected symbol");
    assert_eq!(err.spans()[0], Span::new(2, 1));
}
