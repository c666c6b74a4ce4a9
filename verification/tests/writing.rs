use dare::Error;
use dare::LatexExpressionWriter;
use dare::Parser;
use dare::Span;
use dare::TokenStream;

fn latex_of(source: &str) -> String {
    let parser = Parser::new();
    let mut tokens = TokenStream::parse(source).unwrap();
    let expr = parser.parse(&mut tokens).unwrap();
    let mut writer = LatexExpressionWriter::default();
    writer.write_expression_impl(&expr).unwrap();
    writer.finalize()
}

#[test]
fn latex_rendering_uses_commands() {
    assert_eq!(latex_of("a & b"), "$a \\land b$");
    assert_eq!(latex_of("a | b"), "$a \\lor b$");
    assert_eq!(latex_of("a ^ b"), "$a \\oplus b$");
    assert_eq!(latex_of("a -> b"), "$a \\to b$");
    assert_eq!(latex_of("a <-> b"), "$a \\leftrightarrow b$");
    assert_eq!(latex_of("!(a)"), "$\\neg (a)$");
    assert_eq!(latex_of("1 & 0"), "$T \\land F$");
}

#[test]
fn latex_rendering_escapes_underscores() {
    assert_eq!(latex_of("a_b & _c"), "$a\\_b \\land \\_c$");
}

#[test]
fn errors_accumulate_messages_and_spans() {
    let err = Error::new()
        .with_msg("This is an example message")
        .with_span(Span::new(2, 5));

    assert_eq!(err.messages()[0], "This is an example message");
    assert_eq!(err.spans()[0], Span::new(2, 5));

    let err = err.with_msg("a second message").with_span(Span::new(0, 1));
    assert_eq!(err.messages().len(), 2);
    assert_eq!(err.spans().len(), 2);
    assert_eq!(err.messages()[1], "a second message");
    assert_eq!(err.spans()[1], Span::new(0, 1));
}
