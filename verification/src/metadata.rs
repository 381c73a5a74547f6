//! Streaming extraction of the version texts from a Maven metadata document.
//!
//! The document is never built into a tree. A source hands out one XML
//! token at a time, and a small state machine decides, token by token,
//! whether it stands inside a `<version>` element. The text or CDATA found
//! there is yielded, trimmed; everything else is skipped.
use crate::text::{lemma_trimmed_ends, same_text, texts, trim, trimmed};
use crate::tokens::{
    document_events, Event, EventView, MalformedXml, TokenSource, XmlTokens,
};
use crate::versions::Versions;
use vstd::prelude::*;

verus! {

/// The states of the extractor.
#[derive(Clone, Copy, Debug, PartialEq, Eq, Structural)]
pub enum State {
    /// No `<version` has been seen yet.
    ExpectFirstVersionStart,
    /// Inside the start tag of a version element, before its `>`.
    ExpectVersionEnd,
    /// Between version elements: the next `<version` opens another one, a
    /// closing tag ends the collection.
    ExpectNextVersionStart,
    /// Inside a version element: text and CDATA are its content.
    ExpectVersion,
    /// The collection is closed, or the source has failed; nothing more is
    /// read.
    Eoi,
}

/// The name of the element whose content is extracted.
pub open spec fn version_tag() -> Seq<char> {
    "version"@
}

/// Whether `event` opens a version element.
pub open spec fn opens_version(event: EventView) -> bool {
    event matches EventView::ElementStart { local } && local == version_tag()
}

/// The text that `event` makes the extractor yield in `state`, if any: the
/// trimmed content of a text or CDATA token inside a version element.
pub open spec fn yielded(state: State, event: EventView) -> Option<Seq<char>> {
    if state == State::ExpectVersion {
        match event {
            EventView::Text { text } => Some(trimmed(text)),
            EventView::Cdata { text } => Some(trimmed(text)),
            _ => None,
        }
    } else {
        None
    }
}

/// The state after `event` was read in `state`. A token that the state does
/// not wait for changes nothing.
pub open spec fn next_state(state: State, event: EventView) -> State {
    match state {
        State::ExpectFirstVersionStart => if opens_version(event) {
            State::ExpectVersionEnd
        } else {
            state
        },
        State::ExpectNextVersionStart => if opens_version(event) {
            State::ExpectVersionEnd
        } else if event is ElementEndClose {
            State::Eoi
        } else {
            state
        },
        State::ExpectVersionEnd => if event is ElementEndOpen {
            State::ExpectVersion
        } else {
            state
        },
        State::ExpectVersion => if event is ElementEndClose {
            State::ExpectNextVersionStart
        } else {
            state
        },
        State::Eoi => State::Eoi,
    }
}

/// What one call for the next version does: the item handed out, the state
/// afterwards, and the tokens left unread.
pub struct Advance<F> {
    pub item: Option<Result<Seq<char>, F>>,
    pub state: State,
    pub rest: Seq<Result<EventView, F>>,
}

/// Reads tokens until one yields a text, the source fails, the collection
/// closes, or no token is left. A failure of the source is handed out once
/// and ends the extraction. After the end no token is read at all.
pub open spec fn advance<F>(state: State, tokens: Seq<Result<EventView, F>>) -> Advance<F>
    decreases tokens.len(),
{
    if state == State::Eoi || tokens.len() == 0 {
        Advance { item: None, state, rest: tokens }
    } else {
        match tokens[0] {
            Err(e) => Advance { item: Some(Err(e)), state: State::Eoi, rest: tokens.skip(1) },
            Ok(event) => match yielded(state, event) {
                Some(text) => Advance { item: Some(Ok(text)), state, rest: tokens.skip(1) },
                None => advance(next_state(state, event), tokens.skip(1)),
            },
        }
    }
}

/// Every text that the extractor yields from `tokens` when it starts in
/// `state`, or the source's failure if one comes before the collection
/// closes.
pub open spec fn extract<F>(state: State, tokens: Seq<Result<EventView, F>>) -> Result<
    Seq<Seq<char>>,
    F,
>
    decreases tokens.len(),
{
    if state == State::Eoi || tokens.len() == 0 {
        Ok(Seq::empty())
    } else {
        match tokens[0] {
            Err(e) => Err(e),
            Ok(event) => {
                let later = extract(next_state(state, event), tokens.skip(1));
                match yielded(state, event) {
                    Some(text) => after(seq![text], later),
                    None => later,
                }
            },
        }
    }
}

/// `later` with `first` put in front of what it holds.
pub open spec fn after<F>(first: Seq<Seq<char>>, later: Result<Seq<Seq<char>>, F>) -> Result<
    Seq<Seq<char>>,
    F,
> {
    match later {
        Ok(found) => Ok(first + found),
        Err(e) => Err(e),
    }
}

/// All the version texts of a document, from its start.
pub open spec fn versions_of<F>(tokens: Seq<Result<EventView, F>>) -> Result<Seq<Seq<char>>, F> {
    extract(State::ExpectFirstVersionStart, tokens)
}

/// The value of an item that the extractor hands out.
pub open spec fn item_view<F>(item: Option<Result<&str, F>>) -> Option<Result<Seq<char>, F>> {
    match item {
        None => None,
        Some(Ok(text)) => Some(Ok(text@)),
        Some(Err(e)) => Some(Err(e)),
    }
}

/// The value of what collecting a document gives.
pub open spec fn found_view<F>(found: Result<Vec<&str>, F>) -> Result<Seq<Seq<char>>, F> {
    match found {
        Ok(versions) => Ok(texts(versions@)),
        Err(e) => Err(e),
    }
}

/// Extraction is one call for the next version after the other: all the
/// texts are the first item followed by all the texts of what is left, and
/// a call that hands out an item has read at least one token.
pub proof fn lemma_extract_unfolds<F>(state: State, tokens: Seq<Result<EventView, F>>)
    ensures
        advance(state, tokens).rest.len() <= tokens.len(),
        advance(state, tokens).item is Some ==> advance(state, tokens).rest.len() < tokens.len(),
        extract(state, tokens) == match advance(state, tokens).item {
            None => Ok(Seq::empty()),
            Some(Err(e)) => Err(e),
            Some(Ok(text)) => after(
                seq![text],
                extract(advance(state, tokens).state, advance(state, tokens).rest),
            ),
        },
    decreases tokens.len(),
{
    if state == State::Eoi || tokens.len() == 0 {
    } else {
        match tokens[0] {
            Err(e) => {},
            Ok(event) => {
                match yielded(state, event) {
                    Some(text) => {
                        assert(next_state(state, event) == state);
                    },
                    None => {
                        lemma_extract_unfolds(next_state(state, event), tokens.skip(1));
                    },
                }
            },
        }
    }
}

/// Extraction fails on a failure of the source only: whatever the tokens
/// hold, where none of them is a failure the texts are extracted, and a
/// failure of extraction is a failure that the source yielded.
pub proof fn lemma_only_the_source_fails<F>(state: State, tokens: Seq<Result<EventView, F>>)
    ensures
        (forall|i: int| 0 <= i < tokens.len() ==> (#[trigger] tokens[i]) is Ok) ==> extract(
            state,
            tokens,
        ) is Ok,
        extract(state, tokens) matches Err(e) ==> exists|i: int|
            0 <= i < tokens.len() && #[trigger] tokens[i] == Err::<EventView, F>(e),
    decreases tokens.len(),
{
    if state == State::Eoi || tokens.len() == 0 {
    } else {
        match tokens[0] {
            Err(e) => {},
            Ok(event) => {
                let rest = tokens.skip(1);
                lemma_only_the_source_fails(next_state(state, event), rest);
                if (forall|i: int| 0 <= i < tokens.len() ==> (#[trigger] tokens[i]) is Ok) {
                    assert forall|i: int| 0 <= i < rest.len() implies (#[trigger] rest[i]) is Ok by {
                        assert(rest[i] == tokens[i + 1]);
                    }
                }
                if let Err(e) = extract(next_state(state, event), rest) {
                    let i = choose|i: int|
                        0 <= i < rest.len() && #[trigger] rest[i] == Err::<EventView, F>(e);
                    assert(tokens[i + 1] == rest[i]);
                }
            },
        }
    }
}

/// Every text that is extracted is trimmed: trimming it again changes
/// nothing.
pub proof fn lemma_extracted_texts_are_trimmed<F>(
    state: State,
    tokens: Seq<Result<EventView, F>>,
)
    ensures
        extract(state, tokens) matches Ok(found) ==> forall|i: int|
            0 <= i < found.len() ==> trimmed(#[trigger] found[i]) == found[i],
    decreases tokens.len(),
{
    if state == State::Eoi || tokens.len() == 0 {
    } else {
        match tokens[0] {
            Err(e) => {},
            Ok(event) => {
                lemma_extracted_texts_are_trimmed(next_state(state, event), tokens.skip(1));
                match (
                    yielded(state, event),
                    extract(next_state(state, event), tokens.skip(1)),
                ) {
                    (Some(text), Ok(later)) => {
                        match event {
                            EventView::Text { text: raw } => {
                                lemma_trimmed_ends(raw);
                            },
                            EventView::Cdata { text: raw } => {
                                lemma_trimmed_ends(raw);
                            },
                            _ => {},
                        }
                        let found = seq![text] + later;
                        assert forall|i: int| 0 <= i < found.len() implies trimmed(
                            #[trigger] found[i],
                        ) == found[i] by {
                            if i > 0 {
                                assert(found[i] == later[i - 1]);
                            }
                        }
                    },
                    _ => {},
                }
            },
        }
    }
}

/// The extractor over one document. It hands out the version texts one at a
/// time and cannot be restarted.
pub struct MetadataParser<S> {
    source: S,
    state: State,
}

impl<'a, S: TokenSource<'a>> MetadataParser<S> {
    /// The state the extractor is in.
    pub closed spec fn state(&self) -> State {
        self.state
    }

    /// The tokens of the document that have not been read yet.
    pub closed spec fn pending(&self) -> Seq<Result<EventView, S::Failure>> {
        self.source.pending()
    }

    /// An extractor at the start of the document whose tokens `source`
    /// yields.
    pub fn over(source: S) -> (parser: MetadataParser<S>)
        ensures
            parser.state() == State::ExpectFirstVersionStart,
            parser.pending() == source.pending(),
    {
        MetadataParser { source, state: State::ExpectFirstVersionStart }
    }

    /// The next version text of the document, trimmed; the source's failure
    /// if the markup is malformed; `None` once the collection is closed, the
    /// source has failed, or the document is exhausted. Texts that were
    /// handed out before a failure stay as they are.
    pub fn next(&mut self) -> (item: Option<Result<&'a str, S::Failure>>)
        ensures
            item_view(item) == advance(old(self).state(), old(self).pending()).item,
            final(self).state() == advance(old(self).state(), old(self).pending()).state,
            final(self).pending() == advance(old(self).state(), old(self).pending()).rest,
    {
        if let State::Eoi = self.state {
            return None;
        }
        loop
            invariant
                self.state != State::Eoi,
                advance(self.state, self.source.pending()) == advance(
                    old(self).state,
                    old(self).source.pending(),
                ),
            decreases self.source.pending().len(),
        {
            let token = match self.source.next_token() {
                None => {
                    return None;
                },
                Some(Err(e)) => {
                    self.state = State::Eoi;
                    return Some(Err(e));
                },
                Some(Ok(token)) => token,
            };
            match self.state {
                State::ExpectFirstVersionStart => match token {
                    Event::ElementStart { local } => {
                        if same_text(local, "version") {
                            self.state = State::ExpectVersionEnd;
                        }
                    },
                    _ => {},
                },
                State::ExpectNextVersionStart => match token {
                    Event::ElementStart { local } => {
                        if same_text(local, "version") {
                            self.state = State::ExpectVersionEnd;
                        }
                    },
                    Event::ElementEndClose => {
                        self.state = State::Eoi;
                        return None;
                    },
                    _ => {},
                },
                State::ExpectVersionEnd => match token {
                    Event::ElementEndOpen => {
                        self.state = State::ExpectVersion;
                    },
                    _ => {},
                },
                State::ExpectVersion => match token {
                    Event::Text { text } => {
                        return Some(Ok(trim(text)));
                    },
                    Event::Cdata { text } => {
                        return Some(Ok(trim(text)));
                    },
                    Event::ElementEndClose => {
                        self.state = State::ExpectNextVersionStart;
                    },
                    _ => {},
                },
                State::Eoi => {
                    return None;
                },
            }
        }
    }

    /// All the version texts that are left in the document, in document
    /// order, or the source's failure if the markup is malformed before the
    /// collection closes.
    pub fn collect(self) -> (found: Result<Vec<&'a str>, S::Failure>)
        ensures
            found_view(found) == extract(self.state(), self.pending()),
    {
        let mut parser = self;
        let mut versions: Vec<&'a str> = Vec::new();
        let ghost all = extract(parser.state, parser.source.pending());
        proof {
            assert(texts(versions@) == Seq::<Seq<char>>::empty());
            match all {
                Ok(found) => {
                    assert(Seq::<Seq<char>>::empty() + found == found);
                },
                Err(e) => {},
            }
        }
        loop
            invariant
                all == extract(self.state(), self.pending()),
                all == after(texts(versions@), extract(parser.state(), parser.pending())),
            decreases parser.pending().len(),
        {
            proof {
                lemma_extract_unfolds(parser.state(), parser.pending());
            }
            let ghost before = texts(versions@);
            match parser.next() {
                None => {
                    proof {
                        assert(before + Seq::<Seq<char>>::empty() == before);
                    }
                    return Ok(versions);
                },
                Some(Err(e)) => {
                    return Err(e);
                },
                Some(Ok(text)) => {
                    versions.push(text);
                    proof {
                        assert(texts(versions@) == before.push(text@));
                        match extract(parser.state(), parser.pending()) {
                            Ok(found) => {
                                assert(before + (seq![text@] + found) == before.push(text@)
                                    + found);
                            },
                            Err(e) => {},
                        }
                    }
                },
            }
        }
    }
}

impl<'a> MetadataParser<XmlTokens<'a>> {
    /// An extractor at the start of the document `input`.
    pub fn from(input: &'a str) -> (parser: MetadataParser<XmlTokens<'a>>)
        ensures
            parser.state() == State::ExpectFirstVersionStart,
            parser.pending() == document_events(input@),
    {
        MetadataParser::over(XmlTokens::from(input))
    }

    /// All the version texts of the document `input`, in document order, or
    /// the tokenizer's error if the markup is malformed before the
    /// collection closes.
    pub fn parse_into(input: &'a str) -> (found: Result<Vec<&'a str>, MalformedXml>)
        ensures
            found_view(found) == versions_of(document_events(input@)),
    {
        MetadataParser::from(input).collect()
    }
}

/// A metadata document, held as text.
#[derive(Clone, Debug)]
pub struct Metadata {
    doc: String,
}

/// The value of a pool of versions, or of the failure to get one.
pub open spec fn pool_view<F>(pool: Result<Versions, F>) -> Result<Seq<Seq<char>>, F> {
    match pool {
        Ok(versions) => Ok(versions@),
        Err(e) => Err(e),
    }
}

impl Metadata {
    /// The text of the document.
    pub closed spec fn text(&self) -> Seq<char> {
        self.doc@
    }

    /// The document with the text `value`.
    pub fn from(value: String) -> (metadata: Metadata)
        ensures
            metadata.text() == value@,
    {
        Metadata { doc: value }
    }

    /// An extractor at the start of this document.
    pub fn iter<'a>(&'a self) -> (parser: MetadataParser<XmlTokens<'a>>)
        ensures
            parser.state() == State::ExpectFirstVersionStart,
            parser.pending() == document_events(self.text()),
    {
        MetadataParser::from(self.doc.as_str())
    }

    /// The pool of all the versions of the document `input`, or the
    /// tokenizer's error if the markup is malformed before the collection
    /// closes.
    pub fn parse_into(input: String) -> (pool: Result<Versions, MalformedXml>)
        ensures
            pool_view(pool) == versions_of(document_events(input@)),
    {
        let found = match MetadataParser::parse_into(input.as_str()) {
            Ok(found) => found,
            Err(e) => {
                return Err(e);
            },
        };
        let mut version: Vec<String> = Vec::new();
        let mut i: usize = 0;
        while i < found.len()
            invariant
                i <= found@.len(),
                version@.len() == i,
                forall|j: int| 0 <= j < i ==> (#[trigger] version@[j])@ == found@[j]@,
            decreases found@.len() - i,
        {
            version.push(found[i].to_owned());
            i = i + 1;
        }
        let pool = Versions::new(version);
        proof {
            assert(pool@ =~= texts(found@));
        }
        Ok(pool)
    }
}

} // verus!
