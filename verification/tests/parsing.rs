use dare::Expression;
use dare::ExpressionKind;
use dare::Parser;
use dare::TokenStream;

fn parse(source: &str) -> Result<Expression, dare::Error> {
    let parser = Parser::new();
    let mut tokens = TokenStream::parse(source)?;
    parser.parse(&mut tokens)
}

#[test]
fn test_parser() {
    let sources = [
        "A & B",
        "A | B",
        "A -> B",
        "A <-> B",
        "A ⊕ B",
        "A ^ B",
        "(A -> B) & (B -> C)",
        "A -> (B -> C)",
        "(A -> B) -> C",
        "(A -> B) & (B -> C) & (C -> D)",
        "(A -> B)",
    ];
    for source in sources.iter() {
        let expr = parse(source).unwrap();
        assert_eq!(expr.render(), *source);
    }
}

#[test]
fn rendering_round_trips() {
    let sources = [
        "A",
        "~A",
        "A & B",
        "A | B",
        "A -> B",
        "A <-> B",
        "A ⊕ B",
        "A ^ B",
        "(A -> B) & (B -> C)",
        "A -> (B -> C)",
        "(A -> B) -> C",
        "!!!x",
        "a && b || c",
        "1 & 0",
        "¬a ∧ (b ∨ c) → d ≡ e ⊻ f",
    ];
    for source in sources.iter() {
        let expr = parse(source).unwrap();
        assert_eq!(expr.render(), *source);
    }
}

#[test]
fn chained_non_associative_operators_are_rejected() {
    let err = parse("A -> B -> C").unwrap_err();
    assert_eq!(err.messages()[0], "non-associative operators must be parenthesized");

    assert!(parse("A <-> B <-> C").is_err());
    // Mixed precedences stay unambiguous: this one parses as (A -> B) <-> C.
    assert_eq!(parse("A -> B <-> C").unwrap().render(), "A -> B <-> C");
    assert!(parse("A & B & C").is_ok());
    assert!(parse("A | B | C").is_ok());
    assert!(parse("A ^ B ^ C").is_ok());
}

#[test]
fn rotation_makes_chains_left_leaning() {
    let expr = parse("A & B & C").unwrap();
    assert_eq!(expr.render(), "A & B & C");
    match expr.kind.as_ref() {
        ExpressionKind::Binary(outer) => {
            assert_eq!(outer.lhs.render(), "A & B");
            assert_eq!(outer.rhs.render(), "C");
        }
        other => panic!("expected a binary node, found {:?}", other),
    }
}

#[test]
fn rotation_respects_precedence() {
    let expr = parse("A & B | C").unwrap();
    match expr.kind.as_ref() {
        ExpressionKind::Binary(outer) => {
            assert!(matches!(outer.operator, dare::BinaryOperator::Disjunction(_)));
            assert_eq!(outer.lhs.render(), "A & B");
        }
        other => panic!("expected a binary node, found {:?}", other),
    }

    let expr = parse("A | B & C").unwrap();
    match expr.kind.as_ref() {
        ExpressionKind::Binary(outer) => {
            assert!(matches!(outer.operator, dare::BinaryOperator::Disjunction(_)));
            assert_eq!(outer.rhs.render(), "B & C");
        }
        other => panic!("expected a binary node, found {:?}", other),
    }
}

#[test]
fn parse_errors_name_the_problem() {
    let err = parse("").unwrap_err();
    assert_eq!(err.messages()[0], "unexpected end of file");

    let err = parse("(A").unwrap_err();
    assert_eq!(err.messages()[0], "unexpected end of file");

    let err = parse(")").unwrap_err();
    assert_eq!(err.messages()[0], "expected expression");

    let err = parse("A &").unwrap_err();
    assert_eq!(err.messages()[0], "unexpected end of file");

    let err = parse("~").unwrap_err();
    assert_eq!(err.messages()[0], "unexpected end of file");
}

#[test]
fn terminates_marks_literals() {
    assert!(parse("A").unwrap().terminates());
    assert!(parse("1").unwrap().terminates());
    assert!(!parse("~A").unwrap().terminates());
    assert!(!parse("A & B").unwrap().terminates());
    assert!(!parse("(A)").unwrap().terminates());
}
