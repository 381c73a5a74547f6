//! Token sources: where the extractor gets the tokens of a document from.
//!
//! The extractor asks for one thing only: the next token, or the end. Any
//! source that yields the tokens of a document in order can stand behind
//! it. [`XmlTokens`] is the tokenizer of the `xmlparser` crate over a text,
//! [`ListSource`] hands out tokens that are already at hand.
use vstd::prelude::*;
use xmlparser::Tokenizer;

verus! {

/// The tokenizer of the `xmlparser` crate.
#[verifier::external_type_specification]
#[verifier::external_body]
pub struct ExTokenizer<'a>(Tokenizer<'a>);

/// The error that the tokenizer reports for malformed markup.
#[verifier::external_type_specification]
#[verifier::external_body]
pub struct ExXmlError(xmlparser::Error);

/// The tokens that the tokenizer yields.
#[verifier::external_type_specification]
#[verifier::external_body]
pub struct ExXmlToken<'a>(xmlparser::Token<'a>);

/// What the extractor reads of one XML token.
#[derive(Clone, Copy, Debug, PartialEq, Eq)]
pub enum Event<'a> {
    /// `<name`, with the local part of the name.
    ElementStart { local: &'a str },
    /// `>` at the end of a start tag.
    ElementEndOpen,
    /// `</name>`.
    ElementEndClose,
    /// `/>`.
    ElementEndEmpty,
    /// Character data between tags.
    Text { text: &'a str },
    /// The payload of a `<![CDATA[ ]]>` section.
    Cdata { text: &'a str },
    /// Any other token: declaration, comment, attribute, and so on.
    Other,
}

/// The mathematical value of an [`Event`].
pub enum EventView {
    ElementStart { local: Seq<char> },
    ElementEndOpen,
    ElementEndClose,
    ElementEndEmpty,
    Text { text: Seq<char> },
    Cdata { text: Seq<char> },
    Other,
}

impl<'a> View for Event<'a> {
    type V = EventView;

    open spec fn view(&self) -> EventView {
        match *self {
            Event::ElementStart { local } => EventView::ElementStart { local: local@ },
            Event::ElementEndOpen => EventView::ElementEndOpen,
            Event::ElementEndClose => EventView::ElementEndClose,
            Event::ElementEndEmpty => EventView::ElementEndEmpty,
            Event::Text { text } => EventView::Text { text: text@ },
            Event::Cdata { text } => EventView::Cdata { text: text@ },
            Event::Other => EventView::Other,
        }
    }
}

/// The value of what a source hands out: an event, or the failure that
/// ends the stream.
pub open spec fn token_view<F>(item: Result<Event, F>) -> Result<EventView, F> {
    match item {
        Ok(event) => Ok(event@),
        Err(e) => Err(e),
    }
}

/// A source of tokens: it yields the tokens of a document one by one, in
/// order, and then the end.
pub trait TokenSource<'a> {
    /// What the source reports where the document is malformed.
    type Failure;

    /// The tokens that the source has yet to yield.
    spec fn pending(&self) -> Seq<Result<EventView, Self::Failure>>;

    /// Takes the first pending token off the stream and returns it, or
    /// returns `None` when none is pending.
    fn next_token(&mut self) -> (token: Option<Result<Event<'a>, Self::Failure>>)
        ensures
            old(self).pending().len() == 0 ==> token is None && final(self).pending().len() == 0,
            old(self).pending().len() > 0 ==> token is Some && token_view(token->0) == old(
                self,
            ).pending()[0] && final(self).pending() == old(self).pending().skip(1),
    ;
}

/// The only failure of extraction from a text: the tokenizer met malformed
/// markup.
#[derive(Clone, Copy, Debug)]
pub struct MalformedXml {
    /// What the tokenizer reported.
    pub cause: xmlparser::Error,
}

/// The tokens that the tokenizer yields for the document `doc`, in order,
/// each as the event it stands for or as the error that ends the stream.
pub uninterp spec fn document_tokens(doc: Seq<char>) -> Seq<Result<EventView, xmlparser::Error>>;

/// The tokens that `tok` has yet to yield.
pub uninterp spec fn pending_tokens(tok: Tokenizer) -> Seq<Result<EventView, xmlparser::Error>>;

/// `tokens` with each error of the tokenizer as the failure it stands for.
pub open spec fn malformed(tokens: Seq<Result<EventView, xmlparser::Error>>) -> Seq<
    Result<EventView, MalformedXml>,
> {
    Seq::new(
        tokens.len(),
        |i: int|
            match tokens[i] {
                Ok(event) => Ok(event),
                Err(cause) => Err(MalformedXml { cause }),
            },
    )
}

/// The tokens of the document `doc`.
pub open spec fn document_events(doc: Seq<char>) -> Seq<Result<EventView, MalformedXml>> {
    malformed(document_tokens(doc))
}

/// `Tokenizer::from`: a tokenizer at the start of `doc`, which will yield
/// the document's tokens.
#[verifier::external_body]
fn tokenizer_for<'a>(doc: &'a str) -> (tok: Tokenizer<'a>)
    ensures
        pending_tokens(tok) == document_tokens(doc@),
{
    Tokenizer::from(doc)
}

/// `Tokenizer::next`: takes the first pending token off the stream and
/// returns it as an [`Event`], or returns `None` when none is pending.
#[verifier::external_body]
fn next_xml_token<'a>(tok: &mut Tokenizer<'a>) -> (r: Option<Result<Event<'a>, xmlparser::Error>>)
    ensures
        pending_tokens(*old(tok)).len() == 0 ==> r is None && pending_tokens(*final(tok)).len()
            == 0,
        pending_tokens(*old(tok)).len() > 0 ==> r is Some && token_view(r->0) == pending_tokens(
            *old(tok),
        )[0] && pending_tokens(*final(tok)) == pending_tokens(*old(tok)).skip(1),
{
    match tok.next() {
        None => None,
        Some(Err(e)) => Some(Err(e)),
        Some(Ok(t)) => Some(Ok(match t {
            xmlparser::Token::ElementStart { local, .. } => Event::ElementStart { local: local.as_str() },
            xmlparser::Token::ElementEnd { end: xmlparser::ElementEnd::Open, .. } => Event::ElementEndOpen,
            xmlparser::Token::ElementEnd { end: xmlparser::ElementEnd::Close(..), .. } => Event::ElementEndClose,
            xmlparser::Token::ElementEnd { end: xmlparser::ElementEnd::Empty, .. } => Event::ElementEndEmpty,
            xmlparser::Token::Text { text } => Event::Text { text: text.as_str() },
            xmlparser::Token::Cdata { text, .. } => Event::Cdata { text: text.as_str() },
            _ => Event::Other,
        })),
    }
}

/// The tokens of an XML document that is held as text.
pub struct XmlTokens<'a> {
    tok: Tokenizer<'a>,
}

impl<'a> XmlTokens<'a> {
    /// The source of the tokens of the document `doc`.
    pub fn from(doc: &'a str) -> (source: XmlTokens<'a>)
        ensures
            source.pending() == document_events(doc@),
    {
        XmlTokens { tok: tokenizer_for(doc) }
    }
}

impl<'a> TokenSource<'a> for XmlTokens<'a> {
    type Failure = MalformedXml;

    closed spec fn pending(&self) -> Seq<Result<EventView, MalformedXml>> {
        malformed(pending_tokens(self.tok))
    }

    fn next_token(&mut self) -> (token: Option<Result<Event<'a>, MalformedXml>>) {
        let ghost before = pending_tokens(self.tok);
        let token = match next_xml_token(&mut self.tok) {
            None => None,
            Some(Ok(event)) => Some(Ok(event)),
            Some(Err(cause)) => Some(Err(MalformedXml { cause })),
        };
        proof {
            if before.len() > 0 {
                assert(malformed(before.skip(1)) == malformed(before).skip(1));
            }
        }
        token
    }
}

/// A source that hands out the tokens of a list, from the first on.
pub struct ListSource<'a, F> {
    items: Vec<Result<Event<'a>, F>>,
    next: usize,
}

/// The values of the tokens of a list.
pub open spec fn token_views<F>(items: Seq<Result<Event, F>>) -> Seq<Result<EventView, F>> {
    Seq::new(items.len(), |i: int| token_view(items[i]))
}

impl<'a, F> ListSource<'a, F> {
    /// The position is within the list.
    #[verifier::type_invariant]
    closed spec fn well_formed(&self) -> bool {
        self.next <= self.items@.len()
    }
}

impl<'a, F: Copy> ListSource<'a, F> {
    /// The source that hands out `items`, in order.
    pub fn new(items: Vec<Result<Event<'a>, F>>) -> (source: ListSource<'a, F>)
        ensures
            source.pending() == token_views(items@),
    {
        let source = ListSource { items, next: 0 };
        assert(source.items@.skip(0) == source.items@);
        source
    }
}

impl<'a, F: Copy> TokenSource<'a> for ListSource<'a, F> {
    type Failure = F;

    closed spec fn pending(&self) -> Seq<Result<EventView, F>> {
        token_views(self.items@.skip(self.next as int))
    }

    fn next_token(&mut self) -> (token: Option<Result<Event<'a>, F>>) {
        proof {
            use_type_invariant(&*self);
        }
        if self.next < self.items.len() {
            let item = self.items[self.next];
            proof {
                let left = self.items@.skip(self.next as int);
                assert(left[0] == item);
                assert(self.items@.skip(self.next + 1) == left.skip(1));
                assert(token_views(left.skip(1)) == token_views(left).skip(1));
            }
            self.next = self.next + 1;
            Some(item)
        } else {
            None
        }
    }
}

} // verus!
