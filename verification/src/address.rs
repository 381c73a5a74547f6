//! Addresses of metadata documents.
//!
//! An address is a value of the `url` crate, which parses it and extends
//! its path. This module names what that crate computes, and builds on it
//! the address of the metadata document of a module: the resolver's
//! address, extended by the parts of the group, the artifact, and the
//! document's file name.
use crate::text::{pieces, split, texts};
use url::{ParseError, Url};
use vstd::prelude::*;
use vstd::string::StringSliceAdditionalSpecFns;
use vstd::utf8::encode_utf8;

verus! {

/// An address, as the `url` crate holds it.
#[verifier::external_type_specification]
#[verifier::external_body]
pub struct ExUrl(Url);

/// The reason why a text is no address, as the `url` crate reports it.
#[verifier::external_type_specification]
#[verifier::external_body]
pub struct ExParseError(ParseError);

/// The text that an address is written as.
pub uninterp spec fn url_text(url: Url) -> Seq<char>;

/// The address that `input` is parsed into, as its text, or the reason why
/// it is none.
pub uninterp spec fn parsed_url(input: Seq<char>) -> Result<Seq<char>, ParseError>;

/// The message that describes a parse error.
pub uninterp spec fn parse_error_text(error: ParseError) -> Seq<char>;

/// The text of the address `base` after `segments` were appended to its
/// path, one by one.
pub uninterp spec fn with_segments(base: Seq<char>, segments: Seq<Seq<char>>) -> Seq<char>;

/// Where the first `:` of `text` stands, or the length of `text` if it has
/// none.
pub open spec fn first_colon(text: Seq<char>) -> int
    decreases text.len(),
{
    if text.len() == 0 || text[0] == ':' {
        0
    } else {
        1 + first_colon(text.skip(1))
    }
}

/// Whether the address written as `text` cannot be a base: its scheme and
/// the `:` after it are not followed by a `/`.
pub open spec fn base_less(text: Seq<char>) -> bool {
    let after = first_colon(text) + 1;
    !(after < text.len() && text[after] == '/')
}

/// The number of bytes that `text` takes.
pub open spec fn byte_len(text: Seq<char>) -> nat {
    encode_utf8(text).len()
}

/// An upper bound of what appending `segments` adds to an address: each
/// byte of a segment may be escaped into three, and each segment is
/// preceded by a `/`.
pub open spec fn growth(segments: Seq<Seq<char>>) -> nat
    decreases segments.len(),
{
    if segments.len() == 0 {
        0
    } else {
        growth(segments.drop_last()) + 3 * byte_len(segments.last()) + 1
    }
}

/// Whether `segments` can be appended to the address written as `base`:
/// it can be a base, and the longer address still fits the 32-bit offsets
/// that an address keeps.
pub open spec fn extensible(base: Seq<char>, segments: Seq<Seq<char>>) -> bool {
    !base_less(base) && byte_len(base) + growth(segments) <= u32::MAX
}

/// The name of the metadata document.
pub open spec fn metadata_file() -> Seq<char> {
    "maven-metadata.xml"@
}

/// The path segments of a module's metadata document: the parts of the
/// group between its dots, the artifact, and the document's file name.
pub open spec fn maven_path(group_id: Seq<char>, artifact: Seq<char>) -> Seq<Seq<char>> {
    pieces(group_id, '.').push(artifact).push(metadata_file())
}

/// `Url::parse`: the address that `input` is parsed into, or the parser's
/// error.
#[verifier::external_body]
pub(crate) fn parse_url(input: &str) -> (parsed: Result<Url, ParseError>)
    ensures
        match parsed {
            Ok(url) => parsed_url(input@) == Ok::<Seq<char>, ParseError>(url_text(url)),
            Err(e) => parsed_url(input@) == Err::<Seq<char>, ParseError>(e),
        },
{
    Url::parse(input)
}

/// `ToString::to_string` of a parse error: its message.
#[verifier::external_body]
pub(crate) fn parse_error_message(error: &ParseError) -> (message: String)
    ensures
        message@ == parse_error_text(*error),
{
    error.to_string()
}

/// `Url::as_str`: the text of the address.
#[verifier::external_body]
pub(crate) fn url_as_str(url: &Url) -> (text: &str)
    ensures
        text@ == url_text(*url),
{
    url.as_str()
}

/// `Url::cannot_be_a_base`: whether the scheme of the address and the `:`
/// after it are not followed by a `/`. The scheme holds no `:`, so the one
/// after it is the first of the address.
#[verifier::external_body]
pub(crate) fn cannot_be_a_base(url: &Url) -> (cannot: bool)
    ensures
        cannot == base_less(url_text(*url)),
{
    url.cannot_be_a_base()
}

/// `Clone::clone` of an address: an address equal to `url`.
#[verifier::external_body]
pub(crate) fn clone_url(url: &Url) -> (copy: Url)
    ensures
        copy == *url,
{
    url.clone()
}

/// `PathSegmentsMut::extend` on `Url::path_segments_mut`: appends
/// `segments` to the path of the address, escaping what a path segment
/// cannot hold. An address that cannot be a base has no path segments, and
/// the crate keeps offsets into an address in 32 bits, which it checks with
/// a panic: `requires` rules both out.
#[verifier::external_body]
pub(crate) fn extend_path(url: &mut Url, segments: &Vec<&str>)
    requires
        extensible(url_text(*old(url)), texts(segments@)),
    ensures
        url_text(*final(url)) == with_segments(url_text(*old(url)), texts(segments@)),
{
    if let Ok(mut path) = url.path_segments_mut() {
        path.extend(segments);
    }
}

/// Whether appending `segments` to an address of `base_bytes` bytes stays
/// within 32-bit offsets.
pub fn fits(base_bytes: usize, segments: &Vec<&str>) -> (fit: bool)
    ensures
        fit == (base_bytes + growth(texts(segments@)) <= u32::MAX),
{
    if base_bytes > 0xffff_ffff {
        return false;
    }
    let ghost all = texts(segments@);
    let mut total: u64 = base_bytes as u64;
    let mut i: usize = 0;
    proof {
        assert(all.take(0) == Seq::<Seq<char>>::empty());
    }
    while i < segments.len()
        invariant
            all == texts(segments@),
            i <= segments@.len(),
            total == base_bytes + growth(all.take(i as int)),
            total <= u32::MAX,
        decreases segments@.len() - i,
    {
        proof {
            assert(all.take(i + 1).drop_last() == all.take(i as int));
            assert(all.take(i + 1).last() == segments@[i as int]@);
        }
        let bytes: usize = segments[i].as_bytes().len();
        if bytes > 0x5555_5555 {
            proof {
                lemma_growth_prefix(all, i + 1);
            }
            return false;
        }
        total = total + 3 * (bytes as u64) + 1;
        if total > 0xffff_ffff {
            proof {
                lemma_growth_prefix(all, i + 1);
            }
            return false;
        }
        i = i + 1;
    }
    proof {
        assert(all.take(i as int) == all);
    }
    true
}

/// Appending more segments never adds less.
pub proof fn lemma_growth_prefix(segments: Seq<Seq<char>>, n: int)
    requires
        0 <= n <= segments.len(),
    ensures
        growth(segments.take(n)) <= growth(segments),
    decreases segments.len() - n,
{
    if n == segments.len() {
        assert(segments.take(n) == segments);
    } else {
        assert(segments.drop_last().take(n) == segments.take(n));
        lemma_growth_prefix(segments.drop_last(), n);
    }
}

/// The path segments of the metadata document of the module
/// `group_id:artifact`: the parts of the group between its dots, the
/// artifact, and the document's file name.
pub fn maven_segments<'a>(group_id: &'a str, artifact: &'a str) -> (segments: Vec<&'a str>)
    ensures
        texts(segments@) == maven_path(group_id@, artifact@),
{
    let mut segments = split(group_id, '.');
    let ghost parts = segments@;
    segments.push(artifact);
    segments.push("maven-metadata.xml");
    proof {
        assert(texts(parts.push(artifact)) == texts(parts).push(artifact@));
        assert(texts(segments@) == texts(parts.push(artifact)).push("maven-metadata.xml"@));
    }
    segments
}

/// The address of the metadata document of the module `group_id:artifact`
/// below the address `base`, or `None` where `base` cannot be extended.
pub fn metadata_url(base: &Url, group_id: &str, artifact: &str) -> (address: Option<Url>)
    ensures
        match address {
            Some(url) => extensible(url_text(*base), maven_path(group_id@, artifact@))
                && url_text(url) == with_segments(
                url_text(*base),
                maven_path(group_id@, artifact@),
            ),
            None => !extensible(url_text(*base), maven_path(group_id@, artifact@)),
        },
{
    if cannot_be_a_base(base) {
        return None;
    }
    let segments = maven_segments(group_id, artifact);
    if !fits(url_as_str(base).as_bytes().len(), &segments) {
        return None;
    }
    let mut url = clone_url(base);
    extend_path(&mut url, &segments);
    Some(url)
}

} // verus!
