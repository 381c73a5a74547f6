//! What a user asks for: coordinates with range requirements, written as
//! `group:artifact[:requirement]*`, and the options around them.
use crate::coordinates::{Config, Coordinates, Server, VersionCheck};
use crate::message::{marked, piece_views, plain, put, Emphasis, Piece, PieceView};
use crate::ranges::{parse_requirement, parsed_requirement};
use crate::text::{pieces, split, texts, trim, trimmed};
use semver::{ReqParseError, VersionReq};
use vstd::prelude::*;

verus! {

/// Why a text is no check.
#[derive(Debug, PartialEq)]
pub enum OptsError {
    /// Nothing stands before the first `:`; with the whole input.
    EmptyGroupId(String),
    /// Nothing stands between the first `:` and the second; with the whole
    /// input.
    EmptyArtifact(String),
    /// The input has no `:`; with the whole input.
    MissingArtifact(String),
    /// A requirement is no range; with the requirement and the parser's
    /// reason.
    InvalidRange(String, ReqParseError),
}

/// The mathematical value of an [`OptsError`].
pub enum OptsErrorView {
    EmptyGroupId(Seq<char>),
    EmptyArtifact(Seq<char>),
    MissingArtifact(Seq<char>),
    InvalidRange(Seq<char>, ReqParseError),
}

impl View for OptsError {
    type V = OptsErrorView;

    open spec fn view(&self) -> OptsErrorView {
        match self {
            OptsError::EmptyGroupId(input) => OptsErrorView::EmptyGroupId(input@),
            OptsError::EmptyArtifact(input) => OptsErrorView::EmptyArtifact(input@),
            OptsError::MissingArtifact(input) => OptsErrorView::MissingArtifact(input@),
            OptsError::InvalidRange(spec, cause) => OptsErrorView::InvalidRange(spec@, *cause),
        }
    }
}

/// The mathematical value of a [`VersionCheck`].
pub struct VersionCheckView {
    pub group_id: Seq<char>,
    pub artifact: Seq<char>,
    pub versions: Seq<VersionReq>,
}

impl View for VersionCheck {
    type V = VersionCheckView;

    open spec fn view(&self) -> VersionCheckView {
        VersionCheckView {
            group_id: self.coordinates.group_id@,
            artifact: self.coordinates.artifact@,
            versions: self.versions@,
        }
    }
}

/// The requirement that `text` is read as, or the error that holds the
/// text and the range parser's reason to turn it down.
pub open spec fn requirement_of(text: Seq<char>) -> Result<VersionReq, OptsErrorView> {
    match parsed_requirement(text) {
        Ok(requirement) => Ok(requirement),
        Err(cause) => Err(OptsErrorView::InvalidRange(text, cause)),
    }
}

/// The requirements that `texts` are read as, in order, or the error of the
/// first that is none.
pub open spec fn requirements_of(texts: Seq<Seq<char>>) -> Result<Seq<VersionReq>, OptsErrorView>
    decreases texts.len(),
{
    if texts.len() == 0 {
        Ok(Seq::empty())
    } else {
        match requirements_of(texts.drop_last()) {
            Err(e) => Err(e),
            Ok(before) => match requirement_of(texts.last()) {
                Err(e) => Err(e),
                Ok(requirement) => Ok(before.push(requirement)),
            },
        }
    }
}

/// The parts of `input` between its colons, each trimmed.
pub open spec fn segments(input: Seq<char>) -> Seq<Seq<char>> {
    Seq::new(pieces(input, ':').len(), |i: int| trimmed(pieces(input, ':')[i]))
}

/// The check that `input` is read as: the first part is the group, the
/// second the artifact, and each further part a requirement. Group and
/// artifact must not be empty.
pub open spec fn check_of(input: Seq<char>) -> Result<VersionCheckView, OptsErrorView> {
    match parts_of(input) {
        Err(e) => Err(e),
        Ok(parts) => match requirements_of(parts.versions) {
            Err(e) => Err(e),
            Ok(versions) => Ok(
                VersionCheckView { group_id: parts.group_id, artifact: parts.artifact, versions },
            ),
        },
    }
}

/// The value of what reading a requirement gives.
pub open spec fn requirement_view(read: Result<VersionReq, OptsError>) -> Result<
    VersionReq,
    OptsErrorView,
> {
    match read {
        Ok(requirement) => Ok(requirement),
        Err(e) => Err(e@),
    }
}

/// The value of what reading a check gives.
pub open spec fn check_view(read: Result<VersionCheck, OptsError>) -> Result<
    VersionCheckView,
    OptsErrorView,
> {
    match read {
        Ok(check) => Ok(check@),
        Err(e) => Err(e@),
    }
}

/// A text always has at least one piece.
pub proof fn lemma_pieces_len(text: Seq<char>, sep: char)
    ensures
        pieces(text, sep).len() >= 1,
    decreases text.len(),
{
    if text.len() > 0 {
        lemma_pieces_len(text.drop_last(), sep);
    }
}

/// The first text that is no requirement decides, however many follow.
pub proof fn lemma_first_error_stays(texts: Seq<Seq<char>>, n: int)
    requires
        0 <= n <= texts.len(),
        requirements_of(texts.take(n)) is Err,
    ensures
        requirements_of(texts) == requirements_of(texts.take(n)),
    decreases texts.len() - n,
{
    if n == texts.len() {
        assert(texts.take(n) == texts);
    } else {
        assert(texts.drop_last().take(n) == texts.take(n));
        lemma_first_error_stays(texts.drop_last(), n);
    }
}

/// The requirement that `version` is read as.
pub fn parse_version(version: &str) -> (read: Result<VersionReq, OptsError>)
    ensures
        requirement_view(read) == requirement_of(version@),
{
    match parse_requirement(version) {
        Ok(requirement) => Ok(requirement),
        Err(cause) => Err(OptsError::InvalidRange(version.to_owned(), cause)),
    }
}

/// The parts of an input, before its requirements are read.
#[derive(Clone, Debug, PartialEq, Eq)]
pub struct Parts<'a> {
    pub group_id: &'a str,
    pub artifact: &'a str,
    /// The requirements as they are written, in order.
    pub versions: Vec<&'a str>,
}

/// The mathematical value of [`Parts`].
pub struct PartsView {
    pub group_id: Seq<char>,
    pub artifact: Seq<char>,
    pub versions: Seq<Seq<char>>,
}

impl<'a> View for Parts<'a> {
    type V = PartsView;

    open spec fn view(&self) -> PartsView {
        PartsView {
            group_id: self.group_id@,
            artifact: self.artifact@,
            versions: texts(self.versions@),
        }
    }
}

/// The parts that `input` holds: the first is the group, the second the
/// artifact, and each further one is the text of a requirement. Group and
/// artifact must not be empty.
pub open spec fn parts_of(input: Seq<char>) -> Result<PartsView, OptsErrorView> {
    let parts = segments(input);
    if parts[0].len() == 0 {
        Err(OptsErrorView::EmptyGroupId(input))
    } else if parts.len() < 2 {
        Err(OptsErrorView::MissingArtifact(input))
    } else if parts[1].len() == 0 {
        Err(OptsErrorView::EmptyArtifact(input))
    } else {
        Ok(PartsView { group_id: parts[0], artifact: parts[1], versions: parts.skip(2) })
    }
}

/// The value of what taking an input apart gives.
pub open spec fn parts_view(read: Result<Parts, OptsError>) -> Result<PartsView, OptsErrorView> {
    match read {
        Ok(parts) => Ok(parts@),
        Err(e) => Err(e@),
    }
}

/// The parts that `input` holds.
pub fn parse_parts<'a>(input: &'a str) -> (read: Result<Parts<'a>, OptsError>)
    ensures
        parts_view(read) == parts_of(input@),
{
    let parts = split(input, ':');
    proof {
        lemma_pieces_len(input@, ':');
        assert(texts(parts@).len() == parts@.len());
        assert(texts(parts@)[0] == parts@[0]@);
    }
    let ghost all = segments(input@);
    let group_id = trim(parts[0]);
    if group_id.is_empty() {
        return Err(OptsError::EmptyGroupId(input.to_owned()));
    }
    if parts.len() < 2 {
        return Err(OptsError::MissingArtifact(input.to_owned()));
    }
    proof {
        assert(texts(parts@)[1] == parts@[1]@);
    }
    let artifact = trim(parts[1]);
    if artifact.is_empty() {
        return Err(OptsError::EmptyArtifact(input.to_owned()));
    }
    let mut versions: Vec<&'a str> = Vec::new();
    let mut i: usize = 2;
    while i < parts.len()
        invariant
            all == segments(input@),
            texts(parts@) == pieces(input@, ':'),
            2 <= i <= parts@.len(),
            texts(versions@) == all.skip(2).take(i - 2),
        decreases parts@.len() - i,
    {
        proof {
            assert(texts(parts@)[i as int] == parts@[i as int]@);
        }
        let ghost before = versions@;
        let version = trim(parts[i]);
        versions.push(version);
        proof {
            assert(texts(versions@) =~= texts(before).push(version@));
            assert(all.skip(2).take(i - 1) =~= all.skip(2).take(i - 2).push(version@));
        }
        i = i + 1;
    }
    proof {
        assert(all.skip(2).take(i - 2) == all.skip(2));
    }
    Ok(Parts { group_id, artifact, versions })
}

/// The check that `input` is read as.
pub fn parse_coordinates(input: &str) -> (read: Result<VersionCheck, OptsError>)
    ensures
        check_view(read) == check_of(input@),
{
    let parts = match parse_parts(input) {
        Ok(parts) => parts,
        Err(e) => {
            return Err(e);
        },
    };
    let ghost rest = texts(parts.versions@);
    let mut versions: Vec<VersionReq> = Vec::new();
    let mut i: usize = 0;
    proof {
        assert(rest.take(0) == Seq::<Seq<char>>::empty());
    }
    while i < parts.versions.len()
        invariant
            parts_of(input@) == Ok::<PartsView, OptsErrorView>(parts@),
            rest == texts(parts.versions@),
            i <= parts.versions@.len(),
            requirements_of(rest.take(i as int)) == Ok::<Seq<VersionReq>, OptsErrorView>(
                versions@,
            ),
        decreases parts.versions@.len() - i,
    {
        proof {
            assert(rest.take(i + 1).drop_last() == rest.take(i as int));
            assert(rest.take(i + 1).last() == parts.versions@[i as int]@);
        }
        match parse_version(parts.versions[i]) {
            Ok(requirement) => {
                versions.push(requirement);
            },
            Err(e) => {
                proof {
                    lemma_first_error_stays(rest, i + 1);
                }
                return Err(e);
            },
        }
        i = i + 1;
    }
    proof {
        assert(rest.take(i as int) == rest);
    }
    Ok(
        VersionCheck {
            coordinates: Coordinates {
                group_id: parts.group_id.to_owned(),
                artifact: parts.artifact.to_owned(),
            },
            versions,
        },
    )
}

/// The address of Maven Central, which is asked where no resolver is given.
pub const MAVEN_CENTRAL: &'static str ="https://repo.maven.apache.org/maven2";

/// The options of one run.
#[derive(Debug, Default)]
pub struct Opts {
    /// The modules to check, each with its requirements.
    pub version_checks: Vec<VersionCheck>,
    /// Whether pre-releases count.
    pub include_pre_releases: bool,
    /// The resolver to ask in place of Maven Central.
    pub resolver: Option<String>,
    /// The user to present to the resolver.
    pub user: Option<String>,
    /// The password to present, where it was given with the options.
    pub insecure_password: Option<String>,
    /// How many modules are asked for at once, at most.
    pub jobs: Option<usize>,
}

/// `num_cpus::get_physical`: the number of physical cores of the machine.
#[verifier::external_body]
fn physical_cores() -> (cores: usize) {
    num_cpus::get_physical()
}

impl Opts {
    /// Whether a password has to be asked for: a user is given, and no
    /// password with it.
    pub fn wants_password(&self) -> (wanted: bool)
        ensures
            wanted == (self.user is Some && self.insecure_password is None),
    {
        self.user.is_some() && self.insecure_password.is_none()
    }

    /// The user and password to present, taken out of the options. Without
    /// a user there are none, and nothing is taken. The password is the one
    /// given with the options or, failing that, the one that was asked for
    /// and came back as `asked`; without either there are no credentials.
    pub fn auth(&mut self, asked: Option<String>) -> (auth: Option<(String, String)>)
        ensures
            final(self).version_checks == old(self).version_checks,
            final(self).jobs == old(self).jobs,
            final(self).include_pre_releases == old(self).include_pre_releases,
            final(self).resolver == old(self).resolver,
            final(self).user is None,
            final(self).insecure_password == if old(self).user is Some {
                None
            } else {
                old(self).insecure_password
            },
            auth == match (old(self).user, old(self).insecure_password, asked) {
                (Some(user), Some(password), _) => Some((user, password)),
                (Some(user), None, Some(password)) => Some((user, password)),
                _ => None,
            },
    {
        let user = match self.user.take() {
            Some(user) => user,
            None => {
                return None;
            },
        };
        let password = match self.insecure_password.take() {
            Some(password) => password,
            None => match asked {
                Some(password) => password,
                None => {
                    return None;
                },
            },
        };
        Some((user, password))
    }

    /// The resolver to ask, taken out of the options: the one given, or
    /// Maven Central, with the credentials of [`Opts::auth`].
    pub fn resolver_server(&mut self, asked: Option<String>) -> (server: Server)
        ensures
            final(self).version_checks == old(self).version_checks,
            final(self).jobs == old(self).jobs,
            final(self).include_pre_releases == old(self).include_pre_releases,
            final(self).resolver is None,
            final(self).user is None,
            final(self).insecure_password == if old(self).user is Some {
                None
            } else {
                old(self).insecure_password
            },
            server.url@ == match old(self).resolver {
                Some(url) => url@,
                None => MAVEN_CENTRAL@,
            },
            server.auth == match (old(self).user, old(self).insecure_password, asked) {
                (Some(user), Some(password), _) => Some((user, password)),
                (Some(user), None, Some(password)) => Some((user, password)),
                _ => None,
            },
    {
        let url = match self.resolver.take() {
            Some(url) => url,
            None => MAVEN_CENTRAL.to_owned(),
        };
        let auth = self.auth(asked);
        Server { url, auth }
    }

    /// How versions are picked.
    pub fn config(&self) -> (config: Config)
        ensures
            config.include_pre_releases == self.include_pre_releases,
    {
        Config { include_pre_releases: self.include_pre_releases }
    }

    /// How many modules are asked for at once, at most: the number given
    /// with the options or, failing that, `cores`.
    pub fn jobs_or(&self, cores: usize) -> (jobs: usize)
        ensures
            jobs == match self.jobs {
                Some(given) => given,
                None => cores,
            },
    {
        match self.jobs {
            Some(given) => given,
            None => cores,
        }
    }

    /// How many modules are asked for at once, at most: the number given
    /// with the options or, failing that, the number of physical cores of
    /// the machine.
    pub fn jobs(&self) -> (jobs: usize)
        ensures
            self.jobs matches Some(given) ==> jobs == given,
    {
        match self.jobs {
            Some(given) => given,
            None => self.jobs_or(physical_cores()),
        }
    }

    /// The modules to check.
    pub fn into_version_checks(self) -> (checks: Vec<VersionCheck>)
        ensures
            checks == self.version_checks,
    {
        self.version_checks
    }
}

/// Where the syntax of ranges is described.
pub open spec fn range_syntax() -> Seq<char> {
    "https://www.npmjs.com/package/semver#advanced-range-syntax"@
}

/// What the user is told about an input that is no check.
pub open spec fn error_message(error: OptsErrorView) -> Seq<PieceView> {
    match error {
        OptsErrorView::EmptyGroupId(input) => seq![
            plain("The groupId may not be empty in "@),
            marked(input, Emphasis::RedBold),
        ],
        OptsErrorView::EmptyArtifact(input) => seq![
            plain("The artifact may not be empty in "@),
            marked(input, Emphasis::RedBold),
        ],
        OptsErrorView::MissingArtifact(input) => seq![
            plain("The artifact is missing in "@),
            marked(input, Emphasis::RedBold),
        ],
        OptsErrorView::InvalidRange(input, _) => seq![
            plain("Could not parse "@),
            marked(input, Emphasis::RedBold),
            plain(" into a semantic version range. Please provide a valid range according to "@),
            marked(range_syntax(), Emphasis::CyanUnderlined),
        ],
    }
}

impl OptsError {
    /// What the user is told about this error.
    pub fn message(&self) -> (message: Vec<Piece>)
        ensures
            piece_views(message@) == error_message(self@),
    {
        let mut message: Vec<Piece> = Vec::new();
        assert(piece_views(message@) =~= Seq::<PieceView>::empty());
        match self {
            OptsError::EmptyGroupId(input) => {
                put(&mut message, "The groupId may not be empty in ", Emphasis::Plain);
                put(&mut message, input.as_str(), Emphasis::RedBold);
            },
            OptsError::EmptyArtifact(input) => {
                put(&mut message, "The artifact may not be empty in ", Emphasis::Plain);
                put(&mut message, input.as_str(), Emphasis::RedBold);
            },
            OptsError::MissingArtifact(input) => {
                put(&mut message, "The artifact is missing in ", Emphasis::Plain);
                put(&mut message, input.as_str(), Emphasis::RedBold);
            },
            OptsError::InvalidRange(input, _) => {
                put(&mut message, "Could not parse ", Emphasis::Plain);
                put(&mut message, input.as_str(), Emphasis::RedBold);
                put(
                    &mut message,
                    " into a semantic version range. Please provide a valid range according to ",
                    Emphasis::Plain,
                );
                put(
                    &mut message,
                    "https://www.npmjs.com/package/semver#advanced-range-syntax",
                    Emphasis::CyanUnderlined,
                );
            },
        }
        assert(piece_views(message@) =~= error_message(self@));
        message
    }
}

} // verus!
