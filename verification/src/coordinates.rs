//! What a check is about: the coordinates of a module, the requirements to
//! check it against, and the answer.
use crate::message::{line_views, marked, piece_views, plain, put, Emphasis, Piece, PieceView};
use crate::ranges::{requirement_text, requirement_to_string};
use crate::version::{version_text, Version, VersionView};
use crate::versions::{answer_views, is_default, resolved, Versions};
use semver::VersionReq;
use vstd::prelude::*;

verus! {

/// Maven coordinates: the group and the artifact of a published module.
#[derive(Clone, Debug, PartialEq, Eq)]
pub struct Coordinates {
    pub group_id: String,
    pub artifact: String,
}

impl Coordinates {
    /// The coordinates `group_id:artifact`.
    pub fn new(group_id: &str, artifact: &str) -> (coordinates: Coordinates)
        ensures
            coordinates.group_id@ == group_id@,
            coordinates.artifact@ == artifact@,
    {
        Coordinates { group_id: group_id.to_owned(), artifact: artifact.to_owned() }
    }

    /// A copy of these coordinates.
    pub fn duplicate(&self) -> (copy: Coordinates)
        ensures
            copy == *self,
    {
        Coordinates { group_id: self.group_id.clone(), artifact: self.artifact.clone() }
    }
}

/// The resolver to ask: its address and, if it wants them, the user and
/// the password to present.
#[derive(Clone, Debug, PartialEq, Eq)]
pub struct Server {
    pub url: String,
    pub auth: Option<(String, String)>,
}

/// How versions are picked.
#[derive(Clone, Copy, Debug, PartialEq, Eq)]
pub struct Config {
    /// Whether pre-releases count.
    pub include_pre_releases: bool,
}

/// One module to check, with the requirements to check it against.
#[derive(Clone, Debug, PartialEq)]
pub struct VersionCheck {
    pub coordinates: Coordinates,
    pub versions: Vec<VersionReq>,
}

/// The answer for one module: each requirement with the latest version
/// that belongs to it.
#[derive(Debug)]
pub struct CheckResult {
    pub coordinates: Coordinates,
    pub versions: Vec<(VersionReq, Option<Version>)>,
}

impl VersionCheck {
    /// The answer to this check, given all the versions that the resolver
    /// knows of the module.
    pub fn resolve(self, all_versions: &Versions, include_pre_releases: bool) -> (result:
        CheckResult)
        ensures
            result.coordinates == self.coordinates,
            result.versions@.len() >= 1,
            self.versions@.len() > 0 ==> result.versions@.len() == self.versions@.len(),
            self.versions@.len() == 0 ==> is_default(
                result.versions@[0].0,
                include_pre_releases,
            ),
            answer_views(result.versions@) == resolved(
                all_versions@,
                self.versions@,
                include_pre_releases,
                result.versions@[0].0,
            ),
    {
        let VersionCheck { coordinates, versions } = self;
        let versions = all_versions.latest_versions(include_pre_releases, versions);
        CheckResult { coordinates, versions }
    }
}

/// The line that heads the report on a module.
pub open spec fn heading(coordinates: Coordinates) -> Seq<PieceView> {
    seq![
        plain("Latest version(s) for "@),
        marked(coordinates.group_id@, Emphasis::Magenta),
        plain(":"@),
        marked(coordinates.artifact@, Emphasis::Blue),
        plain(":"@),
    ]
}

/// The line that reports what was found for one requirement.
pub open spec fn finding(requirement: VersionReq, latest: Option<VersionView>) -> Seq<PieceView> {
    match latest {
        Some(version) => seq![
            plain("Latest version matching "@),
            marked(requirement_text(requirement), Emphasis::CyanBold),
            plain(": "@),
            marked(version_text(version), Emphasis::GreenBold),
        ],
        None => seq![
            plain("No version matching "@),
            marked(requirement_text(requirement), Emphasis::YellowBold),
        ],
    }
}

/// The lines of the report on a module: the heading, then one line for
/// each requirement, in order.
pub open spec fn report_lines(
    coordinates: Coordinates,
    versions: Seq<(VersionReq, Option<VersionView>)>,
) -> Seq<Seq<PieceView>> {
    Seq::new(
        versions.len() + 1,
        |i: int|
            if i == 0 {
                heading(coordinates)
            } else {
                finding(versions[i - 1].0, versions[i - 1].1)
            },
    )
}

impl CheckResult {
    /// The lines that report this answer to the user.
    pub fn report(&self) -> (lines: Vec<Vec<Piece>>)
        ensures
            line_views(lines@) == report_lines(self.coordinates, answer_views(self.versions@)),
    {
        let ghost all = answer_views(self.versions@);
        let mut lines: Vec<Vec<Piece>> = Vec::new();
        let mut head: Vec<Piece> = Vec::new();
        assert(piece_views(head@) =~= Seq::<PieceView>::empty());
        put(&mut head, "Latest version(s) for ", Emphasis::Plain);
        put(&mut head, self.coordinates.group_id.as_str(), Emphasis::Magenta);
        put(&mut head, ":", Emphasis::Plain);
        put(&mut head, self.coordinates.artifact.as_str(), Emphasis::Blue);
        put(&mut head, ":", Emphasis::Plain);
        assert(piece_views(head@) =~= heading(self.coordinates));
        lines.push(head);
        let mut i: usize = 0;
        while i < self.versions.len()
            invariant
                all == answer_views(self.versions@),
                i <= self.versions@.len(),
                lines@.len() == i + 1,
                forall|j: int|
                    0 <= j <= i ==> piece_views((#[trigger] lines@[j])@) == report_lines(
                        self.coordinates,
                        all,
                    )[j],
            decreases self.versions@.len() - i,
        {
            let requirement = requirement_to_string(&self.versions[i].0);
            let mut line: Vec<Piece> = Vec::new();
            assert(piece_views(line@) =~= Seq::<PieceView>::empty());
            match &self.versions[i].1 {
                Some(version) => {
                    let latest = version.render();
                    put(&mut line, "Latest version matching ", Emphasis::Plain);
                    put(&mut line, requirement.as_str(), Emphasis::CyanBold);
                    put(&mut line, ": ", Emphasis::Plain);
                    put(&mut line, latest.as_str(), Emphasis::GreenBold);
                },
                None => {
                    put(&mut line, "No version matching ", Emphasis::Plain);
                    put(&mut line, requirement.as_str(), Emphasis::YellowBold);
                },
            }
            assert(piece_views(line@) =~= finding(all[i as int].0, all[i as int].1));
            lines.push(line);
            i = i + 1;
        }
        assert(line_views(lines@) =~= report_lines(self.coordinates, all));
        lines
    }
}

} // verus!
