use vstd::prelude::*;
use vstd::string::StrSliceExecFns;
use vstd::string::StringExecFns;

use crate::error::{ErrView, Error};
use crate::span::{Span, SpanView};
use crate::text::{is_alphabetic_char, is_alphanumeric_char, is_whitespace_char, push_char};
use crate::token::{
    BinOpView, BinaryOperator, Delimiter, Token, TokenKind, TokenKindView, TokenView, UnOpView,
    UnaryOperator,
};

verus! {

/// A span of `len` characters beginning at `start`.
pub open spec fn sv(start: int, len: int) -> SpanView {
    SpanView { start: start as nat, len: len as nat }
}

/// Whether a character may start an identifier.
pub open spec fn sp_ident_first(c: char) -> bool {
    is_alphabetic_char(c) || c == '_'
}

/// Whether a character may continue an identifier.
pub open spec fn sp_ident_char(c: char) -> bool {
    is_alphanumeric_char(c) || c == '_'
}

/// First position at or after `i` that does not hold whitespace.
pub open spec fn sp_skip_ws(s: Seq<char>, i: int) -> int
    decreases s.len() - i,
{
    if 0 <= i < s.len() && is_whitespace_char(s[i]) {
        sp_skip_ws(s, i + 1)
    } else {
        i
    }
}

/// End of the identifier that starts at `i`: the first position at or after
/// `i` that does not hold an identifier character.
pub open spec fn sp_ident_end(s: Seq<char>, i: int) -> int
    decreases s.len() - i,
{
    if 0 <= i < s.len() && sp_ident_char(s[i]) {
        sp_ident_end(s, i + 1)
    } else {
        i
    }
}

/// The symbol token beginning at position `i`, with the position just past
/// it; or the lexical error. Two-character spellings take precedence over
/// their one-character prefixes.
pub open spec fn sp_symbol(s: Seq<char>, i: int) -> Result<(TokenKindView, int), ErrView> {
    if i >= s.len() || i < 0 {
        Err(ErrView::of("unexpected end of file"@, sv(i, 0)))
    } else {
        let c = s[i];
        if c == '(' {
            Ok((TokenKindView::Delimiter(Delimiter::Open), i + 1))
        } else if c == ')' {
            Ok((TokenKindView::Delimiter(Delimiter::Close), i + 1))
        } else if c == '\u{ac}' {  // negation sign
            Ok((TokenKindView::UnaryOperator(UnOpView::Negation("\u{ac}"@)), i + 1))
        } else if c == '~' {
            Ok((TokenKindView::UnaryOperator(UnOpView::Negation("~"@)), i + 1))
        } else if c == '!' {
            Ok((TokenKindView::UnaryOperator(UnOpView::Negation("!"@)), i + 1))
        } else if c == '&' {
            if i + 1 < s.len() && s[i + 1] == '&' {
                Ok((TokenKindView::BinaryOperator(BinOpView::Conjunction("&&"@)), i + 2))
            } else {
                Ok((TokenKindView::BinaryOperator(BinOpView::Conjunction("&"@)), i + 1))
            }
        } else if c == '\u{2227}' {  // logical and
            Ok((TokenKindView::BinaryOperator(BinOpView::Conjunction("\u{2227}"@)), i + 1))
        } else if c == '.' {
            Ok((TokenKindView::BinaryOperator(BinOpView::Conjunction("."@)), i + 1))
        } else if c == '|' {
            if i + 1 < s.len() && s[i + 1] == '|' {
                Ok((TokenKindView::BinaryOperator(BinOpView::Disjunction("||"@)), i + 2))
            } else {
                Ok((TokenKindView::BinaryOperator(BinOpView::Disjunction("|"@)), i + 1))
            }
        } else if c == '\u{2228}' {  // logical or
            Ok((TokenKindView::BinaryOperator(BinOpView::Disjunction("\u{2228}"@)), i + 1))
        } else if c == '-' {
            if i + 1 < s.len() && s[i + 1] == '>' {
                Ok((TokenKindView::BinaryOperator(BinOpView::Implication("->"@)), i + 2))
            } else {
                Err(ErrView::of("unexpected symbol '"@ + seq![c] + "'"@, sv(i, 1)))
            }
        } else if c == '\u{2295}' {  // circled plus
            Ok((
                TokenKindView::BinaryOperator(BinOpView::ExclusiveDisjunction("\u{2295}"@)),
                i + 1,
            ))
        } else if c == '\u{22bb}' {  // xor
            Ok((
                TokenKindView::BinaryOperator(BinOpView::ExclusiveDisjunction("\u{22bb}"@)),
                i + 1,
            ))
        } else if c == '\u{21ae}' {  // left right arrow with stroke
            Ok((
                TokenKindView::BinaryOperator(BinOpView::ExclusiveDisjunction("\u{21ae}"@)),
                i + 1,
            ))
        } else if c == '\u{2262}' {  // not identical to
            Ok((
                TokenKindView::BinaryOperator(BinOpView::ExclusiveDisjunction("\u{2262}"@)),
                i + 1,
            ))
        } else if c == '+' {
            Ok((TokenKindView::BinaryOperator(BinOpView::ExclusiveDisjunction("+"@)), i + 1))
        } else if c == '^' {
            Ok((TokenKindView::BinaryOperator(BinOpView::ExclusiveDisjunction("^"@)), i + 1))
        } else if c == '\u{2192}' {  // rightwards arrow
            Ok((TokenKindView::BinaryOperator(BinOpView::Implication("\u{2192}"@)), i + 1))
        } else if c == '\u{21d2}' {  // rightwards double arrow
            Ok((TokenKindView::BinaryOperator(BinOpView::Implication("\u{21d2}"@)), i + 1))
        } else if c == '\u{2283}' {  // superset of
            Ok((TokenKindView::BinaryOperator(BinOpView::Implication("\u{2283}"@)), i + 1))
        } else if c == '=' {
            if i + 1 < s.len() && s[i + 1] == '=' {
                Ok((TokenKindView::BinaryOperator(BinOpView::Equivalence("=="@)), i + 2))
            } else {
                Err(ErrView::of("unexpected symbol '"@ + seq![c] + "'"@, sv(i, 1)))
            }
        } else if c == '<' {
            if i + 1 < s.len() && s[i + 1] == '-' {
                if i + 2 < s.len() && s[i + 2] == '>' {
                    Ok((TokenKindView::BinaryOperator(BinOpView::Equivalence("<->"@)), i + 3))
                } else if i + 2 < s.len() {
                    Err(ErrView::of("expected symbol '>'"@, sv(i + 2, 1)))
                } else {
                    Err(ErrView::of("expected symbol '>'"@, sv(i + 2, 0)))
                }
            } else {
                Err(ErrView::of("unexpected symbol '"@ + seq![c] + "'"@, sv(i, 1)))
            }
        } else if c == '\u{2194}' {  // left right arrow
            Ok((TokenKindView::BinaryOperator(BinOpView::Equivalence("\u{2194}"@)), i + 1))
        } else if c == '\u{21d4}' {  // left right double arrow
            Ok((TokenKindView::BinaryOperator(BinOpView::Equivalence("\u{21d4}"@)), i + 1))
        } else if c == '\u{2261}' {  // identical to
            Ok((TokenKindView::BinaryOperator(BinOpView::Equivalence("\u{2261}"@)), i + 1))
        } else if c == '1' {
            Ok((TokenKindView::TruthValue(true), i + 1))
        } else if c == '0' {
            Ok((TokenKindView::TruthValue(false), i + 1))
        } else {
            Err(ErrView::of("unexpected symbol '"@ + seq![c] + "'"@, sv(i, 1)))
        }
    }
}

/// The token beginning at position `i` (which must not hold whitespace),
/// with the position just past it; or the lexical error.
pub open spec fn sp_token(s: Seq<char>, i: int) -> Result<(TokenView, int), ErrView> {
    if 0 <= i < s.len() && sp_ident_first(s[i]) {
        let end = sp_ident_end(s, i + 1);
        Ok(
            (
                TokenView {
                    kind: TokenKindView::Identifier(s.subrange(i, end)),
                    span: sv(i, end - i),
                },
                end,
            ),
        )
    } else {
        match sp_symbol(s, i) {
            Ok((kind, end)) => Ok((TokenView { kind, span: sv(i, end - i) }, end)),
            Err(e) => Err(e),
        }
    }
}

pub proof fn lemma_skip_ws_bounds(s: Seq<char>, i: int)
    requires
        0 <= i <= s.len(),
    ensures
        i <= sp_skip_ws(s, i) <= s.len(),
        sp_skip_ws(s, sp_skip_ws(s, i)) == sp_skip_ws(s, i),
    decreases s.len() - i,
{
    if i < s.len() && is_whitespace_char(s[i]) {
        lemma_skip_ws_bounds(s, i + 1);
    }
}

pub proof fn lemma_ident_end_bounds(s: Seq<char>, i: int)
    requires
        0 <= i <= s.len(),
    ensures
        i <= sp_ident_end(s, i) <= s.len(),
    decreases s.len() - i,
{
    if i < s.len() && sp_ident_char(s[i]) {
        lemma_ident_end_bounds(s, i + 1);
    }
}

pub proof fn lemma_token_bounds(s: Seq<char>, i: int)
    requires
        0 <= i < s.len(),
    ensures
        sp_token(s, i) matches Ok(p) ==> i < p.1 <= s.len(),
{
    if sp_ident_first(s[i]) {
        lemma_ident_end_bounds(s, i + 1);
    }
}

/// The token sequence of the source text from position `i` on, skipping
/// whitespace; or the first lexical error.
pub open spec fn sp_tokenize(s: Seq<char>, i: int) -> Result<Seq<TokenView>, ErrView>
    decreases s.len() - i,
    when 0 <= i <= s.len()
{
    let j = sp_skip_ws(s, i);
    if j >= s.len() {
        Ok(Seq::empty())
    } else {
        match sp_token(s, j) {
            Err(e) => Err(e),
            Ok((t, k)) => {
                proof {
                    lemma_skip_ws_bounds(s, i);
                    lemma_token_bounds(s, j);
                }
                match sp_tokenize(s, k) {
                    Err(e) => Err(e),
                    Ok(rest) => Ok(seq![t] + rest),
                }
            },
        }
    }
}

struct Lexer<'a> {
    source: &'a str,
    length: usize,
    index: usize,
}

impl<'a> Lexer<'a> {
    spec fn wf(self) -> bool {
        self.length == self.source@.len() && self.index <= self.length
    }

    fn new(source: &'a str) -> (r: Self)
        ensures
            r.wf(),
            r.source == source,
            r.index == 0,
    {
        let length = source.unicode_len();
        Self { source, length, index: 0 }
    }

    fn span(&self) -> (r: Span)
        requires
            self.wf(),
        ensures
            r@ == sv(self.index as int, 0),
            r.wf(),
    {
        Span::new(self.index, 0)
    }

    fn peek(&self) -> (r: Option<char>)
        requires
            self.wf(),
        ensures
            r == (if self.index < self.source@.len() {
                Some(self.source@[self.index as int])
            } else {
                None::<char>
            }),
    {
        if self.index < self.length {
            Some(self.source.get_char(self.index))
        } else {
            None
        }
    }

    fn next(&mut self) -> (r: Option<char>)
        requires
            old(self).wf(),
        ensures
            final(self).source == old(self).source,
            final(self).length == old(self).length,
            final(self).wf(),
            match r {
                Some(c) => old(self).index < old(self).length && c == old(self).source@[old(
                    self,
                ).index as int] && final(self).index == old(self).index + 1,
                None => old(self).index == old(self).length && final(self).index == old(
                    self,
                ).index,
            },
    {
        if self.index < self.length {
            let c = self.source.get_char(self.index);
            self.index = self.index + 1;
            Some(c)
        } else {
            None
        }
    }

    fn skip_whitespace(&mut self)
        requires
            old(self).wf(),
        ensures
            final(self).source == old(self).source,
            final(self).length == old(self).length,
            final(self).wf(),
            final(self).index == sp_skip_ws(old(self).source@, old(self).index as int),
    {
        loop
            invariant
                self.wf(),
                self.source == old(self).source,
                self.length == old(self).length,
                sp_skip_ws(self.source@, self.index as int) == sp_skip_ws(
                    old(self).source@,
                    old(self).index as int,
                ),
            ensures
                self.wf(),
                self.source == old(self).source,
                self.length == old(self).length,
                self.index as int == sp_skip_ws(old(self).source@, old(self).index as int),
            decreases self.length - self.index,
        {
            if self.index < self.length {
                let c = self.source.get_char(self.index);
                if c.is_whitespace() {
                    self.index = self.index + 1;
                } else {
                    break ;
                }
            } else {
                break ;
            }
        }
    }

    fn is_empty(&mut self) -> (r: bool)
        requires
            old(self).wf(),
        ensures
            final(self).source == old(self).source,
            final(self).length == old(self).length,
            final(self).wf(),
            final(self).index == sp_skip_ws(old(self).source@, old(self).index as int),
            r == (final(self).index == final(self).length),
    {
        self.skip_whitespace();
        self.peek().is_none()
    }

    /// One message and the span from `start` to the current position, for a
    /// symbol the lexer does not know.
    fn unexpected_symbol(&self, ch: char, start: Span) -> (r: Error)
        requires
            self.wf(),
            start.wf(),
        ensures
            r@ == ErrView::of(
                "unexpected symbol '"@ + seq![ch] + "'"@,
                start@.join(sv(self.index as int, 0)),
            ),
    {
        let mut msg = "unexpected symbol '".to_owned();
        push_char(&mut msg, ch);
        msg.append("'");
        proof {
            assert(msg@ =~= "unexpected symbol '"@ + seq![ch] + "'"@);
        }
        Error::new().with_msg(msg.as_str()).with_span(start.join(self.span()))
    }

    fn parse_symbol(&mut self) -> (r: Result<TokenKind, Error>)
        requires
            old(self).wf(),
        ensures
            final(self).source == old(self).source,
            final(self).length == old(self).length,
            final(self).wf(),
            final(self).index >= old(self).index,
            match r {
                Ok(k) => sp_symbol(old(self).source@, old(self).index as int) == Ok::<
                    (TokenKindView, int),
                    ErrView,
                >((k@, final(self).index as int)),
                Err(e) => sp_symbol(old(self).source@, old(self).index as int) == Err::<
                    (TokenKindView, int),
                    ErrView,
                >(e@),
            },
    {
        let span = self.span();
        let ch = match self.next() {
            Some(c) => c,
            None => {
                return Err(
                    Error::new().with_msg("unexpected end of file").with_span(span),
                );
            },
        };
        let next = self.peek();

        match ch {
            '(' => Ok(TokenKind::Delimiter(Delimiter::Open)),
            ')' => Ok(TokenKind::Delimiter(Delimiter::Close)),
            '\u{ac}' => Ok(TokenKind::UnaryOperator(UnaryOperator::Negation("\u{ac}"))),
            '~' => Ok(TokenKind::UnaryOperator(UnaryOperator::Negation("~"))),
            '!' => Ok(TokenKind::UnaryOperator(UnaryOperator::Negation("!"))),
            '&' => {
                if let Some('&') = next {
                    self.next();
                    Ok(TokenKind::BinaryOperator(BinaryOperator::Conjunction("&&")))
                } else {
                    Ok(TokenKind::BinaryOperator(BinaryOperator::Conjunction("&")))
                }
            },
            '\u{2227}' => Ok(TokenKind::BinaryOperator(BinaryOperator::Conjunction("\u{2227}"))),
            '.' => Ok(TokenKind::BinaryOperator(BinaryOperator::Conjunction("."))),
            '|' => {
                if let Some('|') = next {
                    self.next();
                    Ok(TokenKind::BinaryOperator(BinaryOperator::Disjunction("||")))
                } else {
                    Ok(TokenKind::BinaryOperator(BinaryOperator::Disjunction("|")))
                }
            },
            '\u{2228}' => Ok(TokenKind::BinaryOperator(BinaryOperator::Disjunction("\u{2228}"))),
            '-' => {
                if let Some('>') = next {
                    self.next();
                    Ok(TokenKind::BinaryOperator(BinaryOperator::Implication("->")))
                } else {
                    Err(self.unexpected_symbol(ch, span))
                }
            },
            '\u{2295}' => Ok(
                TokenKind::BinaryOperator(BinaryOperator::ExclusiveDisjunction("\u{2295}")),
            ),
            '\u{22bb}' => Ok(
                TokenKind::BinaryOperator(BinaryOperator::ExclusiveDisjunction("\u{22bb}")),
            ),
            '\u{21ae}' => Ok(
                TokenKind::BinaryOperator(BinaryOperator::ExclusiveDisjunction("\u{21ae}")),
            ),
            '\u{2262}' => Ok(
                TokenKind::BinaryOperator(BinaryOperator::ExclusiveDisjunction("\u{2262}")),
            ),
            '+' => Ok(TokenKind::BinaryOperator(BinaryOperator::ExclusiveDisjunction("+"))),
            '^' => Ok(TokenKind::BinaryOperator(BinaryOperator::ExclusiveDisjunction("^"))),
            '\u{2192}' => Ok(TokenKind::BinaryOperator(BinaryOperator::Implication("\u{2192}"))),
            '\u{21d2}' => Ok(TokenKind::BinaryOperator(BinaryOperator::Implication("\u{21d2}"))),
            '\u{2283}' => Ok(TokenKind::BinaryOperator(BinaryOperator::Implication("\u{2283}"))),
            '=' => {
                if let Some('=') = next {
                    self.next();
                    Ok(TokenKind::BinaryOperator(BinaryOperator::Equivalence("==")))
                } else {
                    Err(self.unexpected_symbol(ch, span))
                }
            },
            '<' => {
                if let Some('-') = next {
                    self.next();
                    let inner_span = self.span();
                    match self.next() {
                        Some('>') => Ok(
                            TokenKind::BinaryOperator(BinaryOperator::Equivalence("<->")),
                        ),
                        _ => Err(
                            Error::new().with_msg("expected symbol '>'").with_span(
                                inner_span.join(self.span()),
                            ),
                        ),
                    }
                } else {
                    Err(self.unexpected_symbol(ch, span))
                }
            },
            '\u{2194}' => Ok(TokenKind::BinaryOperator(BinaryOperator::Equivalence("\u{2194}"))),
            '\u{21d4}' => Ok(TokenKind::BinaryOperator(BinaryOperator::Equivalence("\u{21d4}"))),
            '\u{2261}' => Ok(TokenKind::BinaryOperator(BinaryOperator::Equivalence("\u{2261}"))),
            '1' => Ok(TokenKind::TruthValue(true)),
            '0' => Ok(TokenKind::TruthValue(false)),
            _ => Err(self.unexpected_symbol(ch, span)),
        }
    }

    fn is_identifier_first_char(ch: char) -> (r: bool)
        ensures
            r == sp_ident_first(ch),
    {
        ch.is_alphabetic() || ch == '_'
    }

    fn is_identifier_char(ch: char) -> (r: bool)
        ensures
            r == sp_ident_char(ch),
    {
        ch.is_alphanumeric() || ch == '_'
    }

    fn is_identifier(&self) -> (r: bool)
        requires
            self.wf(),
        ensures
            r == (self.index < self.source@.len() && sp_ident_first(
                self.source@[self.index as int],
            )),
    {
        match self.peek() {
            Some(c) => Self::is_identifier_first_char(c),
            None => false,
        }
    }

    /// **Note** the character at the current position must be a valid
    /// starting character for an identifier.
    fn parse_identifier(&mut self) -> (r: TokenKind)
        requires
            old(self).wf(),
            old(self).index < old(self).length,
            sp_ident_first(old(self).source@[old(self).index as int]),
        ensures
            final(self).source == old(self).source,
            final(self).length == old(self).length,
            final(self).wf(),
            final(self).index == sp_ident_end(old(self).source@, old(self).index as int + 1),
            old(self).index < final(self).index,
            r@ == TokenKindView::Identifier(
                old(self).source@.subrange(old(self).index as int, final(self).index as int),
            ),
    {
        let mut identifier = String::new();
        let first = self.source.get_char(self.index);
        push_char(&mut identifier, first);
        self.index = self.index + 1;
        proof {
            assert(identifier@ =~= self.source@.subrange(
                old(self).index as int,
                self.index as int,
            ));
        }

        loop
            invariant
                self.wf(),
                self.source == old(self).source,
                self.length == old(self).length,
                old(self).index < self.index,
                identifier@ == self.source@.subrange(old(self).index as int, self.index as int),
                sp_ident_end(self.source@, self.index as int) == sp_ident_end(
                    old(self).source@,
                    old(self).index as int + 1,
                ),
            ensures
                self.wf(),
                self.source == old(self).source,
                self.length == old(self).length,
                old(self).index < self.index,
                identifier@ == self.source@.subrange(old(self).index as int, self.index as int),
                self.index as int == sp_ident_end(old(self).source@, old(self).index as int + 1),
            decreases self.length - self.index,
        {
            if self.index < self.length {
                let c = self.source.get_char(self.index);
                if Self::is_identifier_char(c) {
                    push_char(&mut identifier, c);
                    self.index = self.index + 1;
                    proof {
                        assert(identifier@ =~= self.source@.subrange(
                            old(self).index as int,
                            self.index as int,
                        ));
                    }
                } else {
                    break ;
                }
            } else {
                break ;
            }
        }

        TokenKind::Identifier(identifier)
    }

    fn parse_token(&mut self) -> (r: Result<Token, Error>)
        requires
            old(self).wf(),
        ensures
            final(self).source == old(self).source,
            final(self).length == old(self).length,
            final(self).wf(),
            ({
                let s = old(self).source@;
                let j = sp_skip_ws(s, old(self).index as int);
                match r {
                    Ok(t) => sp_token(s, j) == Ok::<(TokenView, int), ErrView>(
                        (t@, final(self).index as int),
                    ) && j < final(self).index,
                    Err(e) => sp_token(s, j) == Err::<(TokenView, int), ErrView>(e@),
                }
            }),
    {
        self.skip_whitespace();
        proof {
            lemma_skip_ws_bounds(old(self).source@, old(self).index as int);
        }

        let start = self.span();
        if self.is_identifier() {
            let ghost j = self.index as int;
            let identifier = self.parse_identifier();
            proof {
                lemma_ident_end_bounds(self.source@, j + 1);
            }
            return Ok(Token::new(identifier, start.join(self.span())));
        }

        let symbol = match self.parse_symbol() {
            Ok(k) => k,
            Err(e) => return Err(e),
        };
        Ok(Token::new(symbol, start.join(self.span())))
    }
}

/// The span of the token at position `i`; the end-of-file span when `i` is
/// past the last token; the empty span when there is no token at all.
pub open spec fn sp_stream_span(ts: Seq<TokenView>, i: int, eof: SpanView) -> SpanView {
    if ts.len() == 0 {
        sv(0, 0)
    } else if i < ts.len() {
        ts[i].span
    } else {
        eof
    }
}

/// Mathematical picture of a [`TokenStream`]: the tokens, the position of the
/// next pending token, and the span just past the last character of the
/// source.
pub struct StreamView {
    pub toks: Seq<TokenView>,
    pub index: nat,
    pub eof: SpanView,
}

/// A stream of [`Token`]s used by the parser.
#[derive(Debug)]
pub struct TokenStream {
    pub tokens: Vec<Token>,
    pub index: usize,
    pub eof_span: Span,
}

impl View for TokenStream {
    type V = StreamView;

    open spec fn view(&self) -> StreamView {
        StreamView {
            toks: self.tokens.deep_view(),
            index: self.index as nat,
            eof: self.eof_span@,
        }
    }
}

impl TokenStream {
    /// The stream never points past the end of its token list, and every
    /// span it hands out is well formed.
    pub open spec fn wf(self) -> bool {
        &&& self.index <= self.tokens.len()
        &&& self.eof_span.wf()
        &&& forall|k: int|
            0 <= k < self@.toks.len() ==> (#[trigger] self@.toks[k]).span.wf()
    }

    /// The span of the next pending token; the end-of-file span when the
    /// stream is exhausted; the empty span when the source held no token at
    /// all.
    pub open spec fn sp_span(self) -> SpanView {
        sp_stream_span(self@.toks, self@.index as int, self@.eof)
    }

    /// Tries to parse `source` as a [`TokenStream`].
    pub fn parse(source: &str) -> (r: Result<Self, Error>)
        ensures
            match r {
                Ok(ts) => sp_tokenize(source@, 0) == Ok::<Seq<TokenView>, ErrView>(ts@.toks)
                    && ts@.index == 0 && ts@.eof == sv(source@.len() as int, 0) && ts.wf(),
                Err(e) => sp_tokenize(source@, 0) == Err::<Seq<TokenView>, ErrView>(e@),
            },
    {
        let ghost s = source@;
        let mut lexer = Lexer::new(source);

        let mut tokens: Vec<Token> = Vec::new();
        proof {
            assert(tokens.deep_view() =~= Seq::<TokenView>::empty());
        }

        loop
            invariant
                s == source@,
                lexer.wf(),
                lexer.source == source,
                lexer.length == s.len(),
                0 <= lexer.index <= s.len(),
                forall|k: int|
                    0 <= k < tokens.deep_view().len()
                        ==> (#[trigger] tokens.deep_view()[k]).span.wf(),
                sp_tokenize(s, 0) == (match sp_tokenize(s, lexer.index as int) {
                    Ok(rest) => Ok::<Seq<TokenView>, ErrView>(tokens.deep_view() + rest),
                    Err(e) => Err::<Seq<TokenView>, ErrView>(e),
                }),
            ensures
                lexer.wf(),
                lexer.source == source,
                lexer.index == s.len(),
                sp_tokenize(s, 0) == Ok::<Seq<TokenView>, ErrView>(tokens.deep_view()),
                forall|k: int|
                    0 <= k < tokens.deep_view().len()
                        ==> (#[trigger] tokens.deep_view()[k]).span.wf(),
            decreases s.len() - lexer.index,
        {
            let ghost idx0 = lexer.index as int;
            if lexer.is_empty() {
                proof {
                    lemma_skip_ws_bounds(s, idx0);
                    assert(sp_tokenize(s, lexer.index as int) == Ok::<Seq<TokenView>, ErrView>(
                        Seq::empty(),
                    ));
                    assert(tokens.deep_view() + Seq::<TokenView>::empty() =~= tokens.deep_view());
                }
                break ;
            }
            proof {
                lemma_skip_ws_bounds(s, idx0);
            }
            let ghost idx1 = lexer.index as int;
            let token = match lexer.parse_token() {
                Ok(t) => t,
                Err(e) => {
                    proof {
                        lemma_skip_ws_bounds(s, idx1);
                        assert(sp_tokenize(s, idx0) == sp_tokenize(s, idx1));
                        assert(sp_tokenize(s, idx1) == Err::<Seq<TokenView>, ErrView>(e@));
                    }
                    return Err(e);
                },
            };
            let ghost toks_pre = tokens.deep_view();
            tokens.push(token);
            proof {
                lemma_skip_ws_bounds(s, idx1);
                lemma_token_bounds(s, idx1);
                assert(sp_tokenize(s, idx0) == sp_tokenize(s, idx1));
                assert(tokens.deep_view() =~= toks_pre + seq![token@]);
                assert(token@.span.wf());
                let idx2 = lexer.index as int;
                if sp_tokenize(s, idx2) is Ok {
                    let rest2 = sp_tokenize(s, idx2)->Ok_0;
                    assert(sp_tokenize(s, idx1) == Ok::<Seq<TokenView>, ErrView>(
                        seq![token@] + rest2,
                    ));
                    assert(toks_pre + (seq![token@] + rest2) =~= (toks_pre + seq![token@])
                        + rest2);
                } else {
                    assert(sp_tokenize(s, idx1) == sp_tokenize(s, idx2));
                }
            }
        }

        let eof_span = lexer.span();
        Ok(Self { tokens, index: 0, eof_span })
    }

    /// Returns `true` if there are no more [`Token`]s left in `self`.
    pub fn is_empty(&self) -> (r: bool)
        ensures
            r == (self@.index == self@.toks.len()),
    {
        self.index == self.tokens.len()
    }

    /// The span of the next pending token, or an end-of-file span just past
    /// the last character when the stream is exhausted.
    pub fn span(&self) -> (r: Span)
        requires
            self.wf(),
        ensures
            r@ == self.sp_span(),
            r.wf(),
    {
        if self.tokens.is_empty() {
            Span::new(0, 0)
        } else if self.index < self.tokens.len() {
            self.tokens[self.index].span()
        } else {
            self.eof_span
        }
    }

    /// Returns the next [`Token`] in `self` and moves the stream forward by
    /// one.
    ///
    /// Returns [`None`] if [`Self::is_empty`].
    pub fn try_next(&mut self) -> (r: Option<&Token>)
        requires
            old(self).wf(),
        ensures
            final(self).tokens == old(self).tokens,
            final(self).eof_span == old(self).eof_span,
            final(self).wf(),
            match r {
                Some(t) => old(self)@.index < old(self)@.toks.len() && final(self)@.index == old(
                    self,
                )@.index + 1 && t@ == old(self)@.toks[old(self)@.index as int],
                None => old(self)@.index == old(self)@.toks.len() && final(self)@.index == old(
                    self,
                )@.index,
            },
    {
        if self.index < self.tokens.len() {
            let i = self.index;
            self.index = i + 1;
            Some(&self.tokens[i])
        } else {
            None
        }
    }

    /// Like [`Self::try_next`], with an "unexpected end of file" error at the
    /// end-of-file span when the stream is exhausted.
    pub fn next(&mut self) -> (r: Result<&Token, Error>)
        requires
            old(self).wf(),
        ensures
            final(self).tokens == old(self).tokens,
            final(self).eof_span == old(self).eof_span,
            final(self).wf(),
            match r {
                Ok(t) => old(self)@.index < old(self)@.toks.len() && final(self)@.index == old(
                    self,
                )@.index + 1 && t@ == old(self)@.toks[old(self)@.index as int],
                Err(e) => old(self)@.index == old(self)@.toks.len() && final(self)@.index == old(
                    self,
                )@.index && e@ == ErrView::of("unexpected end of file"@, old(self)@.eof),
            },
    {
        let eof_span = self.eof_span;
        match self.try_next() {
            Some(t) => Ok(t),
            None => Err(
                Error::new().with_msg("unexpected end of file").with_span(eof_span),
            ),
        }
    }

    /// Returns the next [`Token`] in `self`.
    ///
    /// Returns [`None`] if [`Self::is_empty`].
    pub fn try_peek(&self) -> (r: Option<&Token>)
        requires
            self.wf(),
        ensures
            match r {
                Some(t) => self@.index < self@.toks.len() && t@ == self@.toks[self@.index as int],
                None => self@.index == self@.toks.len(),
            },
    {
        if self.index < self.tokens.len() {
            Some(&self.tokens[self.index])
        } else {
            None
        }
    }

    /// Like [`Self::try_peek`], with an "unexpected end of file" error at the
    /// end-of-file span when the stream is exhausted.
    pub fn peek(&self) -> (r: Result<&Token, Error>)
        requires
            self.wf(),
        ensures
            match r {
                Ok(t) => self@.index < self@.toks.len() && t@ == self@.toks[self@.index as int],
                Err(e) => self@.index == self@.toks.len() && e@ == ErrView::of(
                    "unexpected end of file"@,
                    self@.eof,
                ),
            },
    {
        match self.try_peek() {
            Some(t) => Ok(t),
            None => Err(
                Error::new().with_msg("unexpected end of file").with_span(self.eof_span),
            ),
        }
    }

    /// The kind of the next pending token, without consuming it.
    pub fn try_peek_kind(&self) -> (r: Option<&TokenKind>)
        requires
            self.wf(),
        ensures
            match r {
                Some(k) => self@.index < self@.toks.len() && k@ == self@.toks[self@.index
                    as int].kind,
                None => self@.index == self@.toks.len(),
            },
    {
        match self.try_peek() {
            Some(t) => Some(t.kind()),
            None => None,
        }
    }

    /// Consumes one token, which must have the given kind; fails with an
    /// "expected symbol" error at that token's span otherwise, and with an
    /// "unexpected end of file" error at the end-of-file span when the stream
    /// is exhausted.
    pub fn expect(&mut self, kind: &TokenKind) -> (r: Result<&Token, Error>)
        requires
            old(self).wf(),
        ensures
            final(self).tokens == old(self).tokens,
            final(self).eof_span == old(self).eof_span,
            final(self).wf(),
            match r {
                Ok(t) => old(self)@.index < old(self)@.toks.len() && final(self)@.index == old(
                    self,
                )@.index + 1 && t@ == old(self)@.toks[old(self)@.index as int] && t@.kind
                    == kind@,
                Err(e) => (if old(self)@.index == old(self)@.toks.len() {
                    final(self)@.index == old(self)@.index && e@ == ErrView::of(
                        "unexpected end of file"@,
                        old(self)@.eof,
                    )
                } else {
                    final(self)@.index == old(self)@.index + 1 && old(self)@.toks[old(
                        self,
                    )@.index as int].kind != kind@ && e@ == ErrView::of(
                        "expected symbol"@,
                        old(self)@.toks[old(self)@.index as int].span,
                    )
                }),
            },
    {
        let token = match self.next() {
            Ok(t) => t,
            Err(e) => return Err(e),
        };
        if !(token.kind() == kind) {
            let error = Error::new().with_msg("expected symbol").with_span(token.span());
            return Err(error);
        }

        Ok(token)
    }
}


} // verus!

