use vstd::prelude::*;

use crate::span::{Span, SpanView};

verus! {

/// Mathematical picture of an [`Error`]: the messages and the spans it
/// carries, in the order they were added.
pub struct ErrView {
    pub msgs: Seq<Seq<char>>,
    pub spans: Seq<SpanView>,
}

impl ErrView {
    /// An error that carries one message and one span.
    pub open spec fn of(msg: Seq<char>, span: SpanView) -> ErrView {
        ErrView { msgs: seq![msg], spans: seq![span] }
    }

    /// An error that carries one message and no span.
    pub open spec fn msg_only(msg: Seq<char>) -> ErrView {
        ErrView { msgs: seq![msg], spans: Seq::empty() }
    }
}

/// A spanned error containing multiple messages and spans.
#[derive(Clone, Debug)]
pub struct Error {
    pub messages: Vec<String>,
    pub spans: Vec<Span>,
}

impl View for Error {
    type V = ErrView;

    open spec fn view(&self) -> ErrView {
        ErrView { msgs: self.messages.deep_view(), spans: self.spans.deep_view() }
    }
}

impl Error {
    /// Creates a new empty [`Error`].
    ///
    /// See [`Self::with_msg`] and [`Self::with_span`].
    pub fn new() -> (r: Self)
        ensures
            r@.msgs == Seq::<Seq<char>>::empty(),
            r@.spans == Seq::<SpanView>::empty(),
    {
        let r = Self { messages: Vec::new(), spans: Vec::new() };
        proof {
            assert(r@.msgs =~= Seq::<Seq<char>>::empty());
            assert(r@.spans =~= Seq::<SpanView>::empty());
        }
        r
    }

    /// Adds a message to `self`.
    pub fn with_msg(self, message: &str) -> (r: Self)
        ensures
            r@.msgs == self@.msgs.push(message@),
            r@.spans == self@.spans,
    {
        let mut this = self;
        this.messages.push(message.to_owned());
        proof {
            assert(this@.msgs =~= self@.msgs.push(message@));
            assert(this@.spans =~= self@.spans);
        }
        this
    }

    /// Adds a span to `self`.
    pub fn with_span(self, span: Span) -> (r: Self)
        ensures
            r@.spans == self@.spans.push(span@),
            r@.msgs == self@.msgs,
    {
        let mut this = self;
        this.spans.push(span);
        proof {
            assert(this@.spans =~= self@.spans.push(span@));
            assert(this@.msgs =~= self@.msgs);
        }
        this
    }

    /// Returns all messages in `self`.
    pub fn messages(&self) -> (r: &Vec<String>)
        ensures
            r == &self.messages,
    {
        &self.messages
    }

    /// Returns all spans in `self`.
    pub fn spans(&self) -> (r: &Vec<Span>)
        ensures
            r == &self.spans,
    {
        &self.spans
    }
}

} // verus!
