//! Range requirements and the lenient reading of version texts.
//!
//! A range requirement (`^1.2`, `~1.1`, `1.x`, `*`, ...) is a value of the
//! `semver` crate, which also decides whether a version satisfies it. Raw
//! version texts are read by the `lenient_semver` crate, which pads missing
//! numbers with zero. Both are named here, so that the contracts of this
//! library can speak of what they compute.
use crate::version::{Identifier, Version, VersionView};
use semver::{ReqParseError, VersionReq};
use vstd::prelude::*;

verus! {

#[verifier::external_type_specification]
#[verifier::external_body]
pub struct ExVersionReq(VersionReq);

#[verifier::external_type_specification]
#[verifier::external_body]
pub struct ExReqParseError(ReqParseError);

/// The version that lenient parsing reads from `text`, or `None` where it
/// rejects the text.
pub uninterp spec fn lenient_version(text: Seq<char>) -> Option<VersionView>;

/// Whether `version` satisfies the range requirement `requirement`.
pub uninterp spec fn range_matches(requirement: VersionReq, version: VersionView) -> bool;

/// The range requirement that `text` is parsed into, or the reason why it
/// is none.
pub uninterp spec fn parsed_requirement(text: Seq<char>) -> Result<VersionReq, ReqParseError>;

/// How a range requirement is written out.
pub uninterp spec fn requirement_text(requirement: VersionReq) -> Seq<char>;

/// Whether every version satisfies `requirement`.
pub open spec fn matches_all(requirement: VersionReq) -> bool {
    forall|version: VersionView| #[trigger] range_matches(requirement, version)
}

/// `lenient_semver::parse::<semver::Version>`: the version read from
/// `text`, field by field, or `None` where the parser reports an error.
#[verifier::external_body]
pub(crate) fn parse_lenient(text: &str) -> (parsed: Option<Version>)
    ensures
        match parsed {
            Some(version) => lenient_version(text@) == Some(version@),
            None => lenient_version(text@) is None,
        },
{
    let own = |id| match id {
        semver::Identifier::Numeric(n) => Identifier::Numeric(n),
        semver::Identifier::AlphaNumeric(s) => Identifier::AlphaNumeric(s),
    };
    match lenient_semver::parse::<semver::Version>(text) {
        Err(_) => None,
        Ok(v) => Some(Version {
            major: v.major, minor: v.minor, patch: v.patch,
            pre: v.pre.into_iter().map(own).collect(),
            build: v.build.into_iter().map(own).collect(),
        }),
    }
}

/// `VersionReq::matches`, on the same version written as a `semver`
/// value.
#[verifier::external_body]
pub(crate) fn satisfies(requirement: &VersionReq, version: &Version) -> (matched: bool)
    ensures
        matched == range_matches(*requirement, version@),
{
    let theirs = |id: &Identifier| match id {
        Identifier::Numeric(n) => semver::Identifier::Numeric(*n),
        Identifier::AlphaNumeric(s) => semver::Identifier::AlphaNumeric(s.clone()),
    };
    requirement.matches(&semver::Version {
        major: version.major, minor: version.minor, patch: version.patch,
        pre: version.pre.iter().map(theirs).collect(),
        build: version.build.iter().map(theirs).collect(),
    })
}

/// `VersionReq::any`: a requirement without constraints, which every
/// version satisfies.
#[verifier::external_body]
pub(crate) fn any_requirement() -> (requirement: VersionReq)
    ensures
        matches_all(requirement),
{
    VersionReq::any()
}

/// `VersionReq::parse`. The wildcard `*` is a requirement.
#[verifier::external_body]
pub(crate) fn parse_requirement(text: &str) -> (parsed: Result<VersionReq, ReqParseError>)
    ensures
        parsed == parsed_requirement(text@),
        text@ == "*"@ ==> parsed is Ok,
{
    VersionReq::parse(text)
}

/// `ToString::to_string` of a requirement: the requirement written out.
#[verifier::external_body]
pub(crate) fn requirement_to_string(requirement: &VersionReq) -> (text: String)
    ensures
        text@ == requirement_text(*requirement),
{
    requirement.to_string()
}

} // verus!
