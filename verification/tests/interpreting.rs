use dare::Interpreter;
use dare::Parser;
use dare::TokenStream;

fn interpret_identical(source: &str, identical: bool) -> bool {
    let parser = Parser::new();
    let mut tokens = TokenStream::parse(source).unwrap();
    let expr = parser.parse(&mut tokens).unwrap();
    let mut interpreter = Interpreter::new();
    interpreter.extract_atomic_expressions(&expr);
    let idents: Vec<String> = interpreter
        .atomic_expressions
        .iter()
        .map(|atomic| atomic.ident.clone())
        .collect();
    for ident in idents {
        interpreter.variables.push((ident, identical));
    }
    let result = interpreter.interpret(&expr).unwrap();
    result.value
}

#[test]
fn test_interpret() {
    assert_eq!(interpret_identical("a", true), true);
    assert_eq!(interpret_identical("a", false), false);
    assert_eq!(interpret_identical("!a", true), false);
    assert_eq!(interpret_identical("!a", false), true);
    assert_eq!(interpret_identical("a && b", true), true);
    assert_eq!(interpret_identical("a && b", false), false);
    assert_eq!(interpret_identical("a || b", true), true);
    assert_eq!(interpret_identical("a || b", false), false);
    assert_eq!(interpret_identical("a ^ b", false), false);
    assert_eq!(interpret_identical("a ^ b", true), false);
    assert_eq!(interpret_identical("a -> b", true), true);
    assert_eq!(interpret_identical("a -> b", false), true);
    assert_eq!(interpret_identical("a <-> b", true), true);
    assert_eq!(interpret_identical("a <-> b", false), true);
    assert_eq!(interpret_identical("!(a) -> !b", true), true);
    // De Morgan's laws
    assert_eq!(interpret_identical("!(a & b) == (!a & !b)", true), true);
    assert_eq!(interpret_identical("!(a | b) == (!a | !b)", true), true);
    // Associativity
    assert_eq!(interpret_identical("a & b & c", true), true);
    assert_eq!(interpret_identical("a | b | c", true), true);
    assert_eq!(interpret_identical("a ^ b ^ c", true), true);
    // Commutativity
    assert_eq!(interpret_identical("a & b == b & a", true), true);
    assert_eq!(interpret_identical("a | b == b | a", true), true);
    assert_eq!(interpret_identical("a ^ b == b ^ a", true), true);
    // Distributivity
    assert_eq!(interpret_identical("a & (b | c) == (a & b) | (a & c)", true), true);
    assert_eq!(interpret_identical("a | (b & c) == (a | b) & (a | c)", true), true);
    // Idempotence
    assert_eq!(interpret_identical("a & a == a", true), true);
    assert_eq!(interpret_identical("a | a == a", true), true);
    assert_eq!(interpret_identical("a ^ a == a", false), true);
    // Absorption
    assert_eq!(interpret_identical("a & (a | b) == a", true), true);
    assert_eq!(interpret_identical("a | (a & b) == a", true), true);
    // Identity
    assert_eq!(interpret_identical("a & 1 == a", true), true);
    assert_eq!(interpret_identical("a | 0 == a", true), true);
    // Negation
    assert_eq!(interpret_identical("a & !a == 0", true), true);
    assert_eq!(interpret_identical("a | !a == 1", true), true);
    // Double negation
    assert_eq!(interpret_identical("!!a == a", true), true);
}

#[test]
fn unknown_identifier_is_reported() {
    let parser = Parser::new();
    let mut tokens = TokenStream::parse("a & b").unwrap();
    let expr = parser.parse(&mut tokens).unwrap();
    let mut interpreter = Interpreter::new();
    interpreter.variables.push((String::from("b"), true));
    let err = interpreter.interpret(&expr).unwrap_err();
    assert_eq!(err.messages()[0], "unknown identifier");
    assert_eq!(interpreter.errors.len(), 1);
}

#[test]
fn extraction_collects_atoms_in_order() {
    let parser = Parser::new();
    let mut tokens = TokenStream::parse("a & (b | a) -> !c").unwrap();
    let expr = parser.parse(&mut tokens).unwrap();
    let mut interpreter = Interpreter::new();
    interpreter.extract_atomic_expressions(&expr);
    let idents: Vec<&str> = interpreter
        .atomic_expressions
        .iter()
        .map(|atomic| atomic.ident.as_str())
        .collect();
    assert_eq!(idents, ["a", "b", "a", "c"]);
}
