//! Resolvers: where the metadata of a module is found, what a response of
//! the server means, and how it becomes a pool of versions.
//!
//! The request itself is made elsewhere. This module says which address to
//! ask, and takes what came back.
use crate::address::{
    base_less, cannot_be_a_base, clone_url, extensible, maven_path, metadata_url,
    parse_error_message, parse_error_text, parse_url, parsed_url, url_as_str, url_text,
    with_segments,
};
use crate::coordinates::Coordinates;
use crate::message::{marked, piece_views, plain, put, Emphasis, Piece, PieceView};
use crate::text::{decimal, digits};
use crate::metadata::{versions_of, Metadata};
use crate::tokens::{document_events, MalformedXml};
use crate::versions::Versions;
use url::{ParseError, Url};
use vstd::prelude::*;

verus! {

/// Why no pool of versions came back.
#[derive(Debug)]
pub enum ErrorKind {
    /// The request could not be sent because it was not valid.
    InvalidRequest,
    /// The server could not be reached.
    ServerNotFound,
    /// The server did not answer within the time allowed.
    ServerNotAvailable,
    /// The answer could not be read for another reason.
    TransportError,
    /// The response was caught in a redirect loop.
    TooManyRedirects,
    /// The server does not know the coordinates.
    CoordinatesNotFound(Coordinates),
    /// The body of the response could not be read; with the status.
    ReadBodyError(u16),
    /// Any other 4xx response, with the status and the body.
    ClientError(u16, String),
    /// Any 5xx response, with the status and the body.
    ServerError(u16, String),
    /// The body is not a well-formed document.
    ParseBodyError(MalformedXml),
}

/// A failure, with the resolver that was asked and the address that was
/// tried.
#[derive(Debug)]
pub struct ResolveError {
    pub resolver: Url,
    pub url: Url,
    pub error: ErrorKind,
}

impl ErrorKind {
    /// This failure, met when `url` was tried at `resolver`.
    pub fn err(self, resolver: Url, url: Url) -> (error: ResolveError)
        ensures
            error.resolver == resolver,
            error.url == url,
            error.error == self,
    {
        ResolveError { resolver, url, error: self }
    }
}

/// What went wrong on the way to the server, as the transport tells it.
#[derive(Clone, Copy, Debug, PartialEq, Eq)]
pub struct TransportFailure {
    /// The request could not be built.
    pub is_builder: bool,
    /// No connection was made.
    pub is_connect: bool,
    /// The time allowed ran out.
    pub is_timeout: bool,
    /// A redirect could not be followed.
    pub is_redirect: bool,
}

/// The failure that a transport error stands for. The first of the signs
/// that is set decides.
pub open spec fn failure_kind(failure: TransportFailure) -> ErrorKind {
    if failure.is_builder {
        ErrorKind::InvalidRequest
    } else if failure.is_connect {
        ErrorKind::ServerNotFound
    } else if failure.is_timeout {
        ErrorKind::ServerNotAvailable
    } else if failure.is_redirect {
        ErrorKind::TooManyRedirects
    } else {
        ErrorKind::TransportError
    }
}

/// The failure that a transport error stands for.
pub fn classify_failure(failure: TransportFailure) -> (kind: ErrorKind)
    ensures
        kind == failure_kind(failure),
{
    if failure.is_builder {
        ErrorKind::InvalidRequest
    } else if failure.is_connect {
        ErrorKind::ServerNotFound
    } else if failure.is_timeout {
        ErrorKind::ServerNotAvailable
    } else if failure.is_redirect {
        ErrorKind::TooManyRedirects
    } else {
        ErrorKind::TransportError
    }
}

/// What a response with `status` and `body` means for a request about
/// `coordinates`: 404 says that the coordinates are unknown, any other 4xx
/// is the client's fault, any 5xx the server's, and everything else hands
/// the body on.
pub open spec fn response_outcome(status: u16, body: String, coordinates: Coordinates) -> Result<
    String,
    ErrorKind,
> {
    if status == 404 {
        Err(ErrorKind::CoordinatesNotFound(coordinates))
    } else if 400 <= status < 500 {
        Err(ErrorKind::ClientError(status, body))
    } else if 500 <= status < 600 {
        Err(ErrorKind::ServerError(status, body))
    } else {
        Ok(body)
    }
}

/// What a response with `status` and `body` means for a request about
/// `coordinates`.
pub fn classify_response(status: u16, body: String, coordinates: &Coordinates) -> (outcome: Result<
    String,
    ErrorKind,
>)
    ensures
        outcome == response_outcome(status, body, *coordinates),
{
    if status == 404 {
        Err(ErrorKind::CoordinatesNotFound(coordinates.duplicate()))
    } else if 400 <= status && status < 500 {
        Err(ErrorKind::ClientError(status, body))
    } else if 500 <= status && status < 600 {
        Err(ErrorKind::ServerError(status, body))
    } else {
        Ok(body)
    }
}

/// The failure that a response with a status of failure stands for: 404
/// says that the coordinates are unknown, any other 4xx is the client's
/// fault, and every other status is laid at the server's door.
pub open spec fn status_failure_kind(status: u16, body: String, coordinates: Coordinates)
    -> ErrorKind {
    if status == 404 {
        ErrorKind::CoordinatesNotFound(coordinates)
    } else if status / 100 == 4 {
        ErrorKind::ClientError(status, body)
    } else {
        ErrorKind::ServerError(status, body)
    }
}

/// The failure that a response with a status of failure stands for.
pub fn status_failure(status: u16, body: String, coordinates: &Coordinates) -> (kind: ErrorKind)
    ensures
        kind == status_failure_kind(status, body, *coordinates),
{
    if status == 404 {
        ErrorKind::CoordinatesNotFound(coordinates.duplicate())
    } else if status / 100 == 4 {
        ErrorKind::ClientError(status, body)
    } else {
        ErrorKind::ServerError(status, body)
    }
}

/// A resolver that serves metadata documents below one address.
#[derive(Debug)]
pub struct UrlResolver {
    server: Url,
    auth: Option<(String, String)>,
}

/// Why a text is not the address of a resolver.
#[derive(Debug)]
pub struct InvalidResolver {
    /// The address as it was given or, where it parsed, as it was read.
    pub server: String,
    /// What is wrong with it.
    pub error: String,
}

/// The error of an address that parsed but cannot be a base.
pub open spec fn cannot_be_a_base_text() -> Seq<char> {
    "Cannot be a base"@
}

impl UrlResolver {
    /// The text of the resolver's address.
    pub closed spec fn server_text(&self) -> Seq<char> {
        url_text(self.server)
    }

    /// The user and password that the resolver is asked with.
    pub closed spec fn credentials(&self) -> Option<(String, String)> {
        self.auth
    }

    /// The resolver's address can be a base.
    #[verifier::type_invariant]
    pub closed spec fn well_formed(&self) -> bool {
        !base_less(url_text(self.server))
    }

    /// The resolver at the address `server`, asked with `auth`. The address
    /// must parse, and it must be able to be a base.
    pub fn new(server: &str, auth: Option<(String, String)>) -> (made: Result<
        UrlResolver,
        InvalidResolver,
    >)
        ensures
            match made {
                Ok(resolver) => parsed_url(server@) == Ok::<Seq<char>, ParseError>(
                    resolver.server_text(),
                ) && !base_less(resolver.server_text()) && resolver.credentials() == auth,
                Err(invalid) => match parsed_url(server@) {
                    Err(cause) => invalid.server@ == server@ && invalid.error@
                        == parse_error_text(cause),
                    Ok(text) => base_less(text) && invalid.server@ == text && invalid.error@
                        == cannot_be_a_base_text(),
                },
            },
    {
        let url = match parse_url(server) {
            Ok(url) => url,
            Err(e) => {
                return Err(
                    InvalidResolver { server: server.to_owned(), error: parse_error_message(&e) },
                );
            },
        };
        if cannot_be_a_base(&url) {
            return Err(
                InvalidResolver {
                    server: url_as_str(&url).to_owned(),
                    error: "Cannot be a base".to_owned(),
                },
            );
        }
        Ok(UrlResolver { server: url, auth })
    }

    /// The address that this resolver is at.
    pub fn server(&self) -> (server: &Url)
        ensures
            url_text(*server) == self.server_text(),
    {
        &self.server
    }

    /// The user and password that this resolver is asked with.
    pub fn auth(&self) -> (auth: Option<&(String, String)>)
        ensures
            match auth {
                Some(pair) => self.credentials() == Some(*pair),
                None => self.credentials() is None,
            },
    {
        self.auth.as_ref()
    }

    /// Whether the address of the metadata of `coordinates` fits the 32-bit
    /// offsets that an address keeps.
    pub open spec fn reaches(&self, coordinates: Coordinates) -> bool {
        extensible(self.server_text(), maven_path(coordinates.group_id@, coordinates.artifact@))
    }

    /// The address of the metadata document of `coordinates` at this
    /// resolver, or `None` where it would be too long.
    pub fn try_url(&self, coordinates: &Coordinates) -> (address: Option<Url>)
        ensures
            match address {
                Some(url) => self.reaches(*coordinates) && url_text(url) == with_segments(
                    self.server_text(),
                    maven_path(coordinates.group_id@, coordinates.artifact@),
                ),
                None => !self.reaches(*coordinates),
            },
    {
        metadata_url(&self.server, coordinates.group_id.as_str(), coordinates.artifact.as_str())
    }

    /// The address of the metadata document of `coordinates` at this
    /// resolver: the resolver's address, extended by the parts of the group,
    /// the artifact and the file name.
    pub fn url(&self, coordinates: &Coordinates) -> (address: Url)
        requires
            self.reaches(*coordinates),
        ensures
            url_text(address) == with_segments(
                self.server_text(),
                maven_path(coordinates.group_id@, coordinates.artifact@),
            ),
    {
        match self.try_url(coordinates) {
            Some(url) => url,
            None => vstd::pervasive::unreached(),
        }
    }

    /// The pool of versions that the response to a request at `url` holds:
    /// all the versions of the document in its body, or the failure that
    /// the response or its body stands for.
    pub fn read(&self, url: Url, response: Result<String, ErrorKind>) -> (pool: Result<
        Versions,
        ResolveError,
    >)
        ensures
            match pool {
                Ok(versions) => response matches Ok(body) && versions_of(document_events(body@))
                    == Ok::<Seq<Seq<char>>, MalformedXml>(versions@),
                Err(error) => url_text(error.resolver) == self.server_text() && error.url == url
                    && match response {
                    Err(kind) => error.error == kind,
                    Ok(body) => error.error matches ErrorKind::ParseBodyError(malformed)
                        && versions_of(document_events(body@)) == Err::<
                        Seq<Seq<char>>,
                        MalformedXml,
                    >(malformed),
                },
            },
    {
        let body = match response {
            Ok(body) => body,
            Err(kind) => {
                return Err(kind.err(clone_url(&self.server), url));
            },
        };
        match Metadata::parse_into(body) {
            Ok(versions) => Ok(versions),
            Err(malformed) => Err(
                ErrorKind::ParseBodyError(malformed).err(clone_url(&self.server), url),
            ),
        }
    }
}

/// What the user is told about a text that is not the address of a
/// resolver.
pub open spec fn invalid_resolver_message(server: Seq<char>, error: Seq<char>) -> Seq<PieceView> {
    seq![
        plain("The resolver "@),
        marked(server, Emphasis::RedBold),
        plain(" is an invalid URL. "@),
        plain(error),
    ]
}

impl InvalidResolver {
    /// What the user is told about this error.
    pub fn message(&self) -> (message: Vec<Piece>)
        ensures
            piece_views(message@) == invalid_resolver_message(self.server@, self.error@),
    {
        let mut message: Vec<Piece> = Vec::new();
        assert(piece_views(message@) =~= Seq::<PieceView>::empty());
        put(&mut message, "The resolver ", Emphasis::Plain);
        put(&mut message, self.server.as_str(), Emphasis::RedBold);
        put(&mut message, " is an invalid URL. ", Emphasis::Plain);
        put(&mut message, self.error.as_str(), Emphasis::Plain);
        assert(piece_views(message@) =~= invalid_resolver_message(self.server@, self.error@));
        message
    }
}

/// What the user is told about a failure of the kind `kind`, met when the
/// address written as `url` was tried at the resolver written as
/// `resolver`.
pub open spec fn failure_message(resolver: Seq<char>, url: Seq<char>, kind: ErrorKind) -> Seq<
    PieceView,
> {
    match kind {
        ErrorKind::CoordinatesNotFound(coordinates) => seq![
            plain("The coordinates "@),
            marked(coordinates.group_id@, Emphasis::RedBold),
            plain(":"@),
            marked(coordinates.artifact@, Emphasis::RedBold),
            plain(" could not be found using the resolver "@),
            marked(resolver, Emphasis::Cyan),
            plain(
                ".\nThis could be because the coordinates do not exist or because the server does not follow maven style publication.\nThe following URL was tried and resulted in a 404: "@,
            ),
            marked(url, Emphasis::CyanBold),
        ],
        ErrorKind::ClientError(status, body) => seq![
            plain("Could not read Maven metadata using the resolver "@),
            marked(resolver, Emphasis::Cyan),
            plain(
                ".\nThere is likely something wrong with your request, please check your inputs.\nThe URL '"@,
            ),
            marked(url, Emphasis::CyanBold),
            plain("' was tried and resulted in a "@),
            marked(digits(status as nat), Emphasis::YellowBold),
            plain(" with the body\n\n"@),
            plain(body@),
        ],
        ErrorKind::ServerError(status, body) => seq![
            plain("Could not read Maven metadata using the resolver "@),
            marked(resolver, Emphasis::Cyan),
            plain(".\nThere is likely something wrong with Maven central.\nThe URL '"@),
            marked(url, Emphasis::CyanBold),
            plain("' was tried and resulted in a "@),
            marked(digits(status as nat), Emphasis::RedBold),
            plain(" with the body\n\n"@),
            plain(body@),
            plain("\n\nIt's probably best to try later."@),
        ],
        ErrorKind::ReadBodyError(status) => seq![
            plain("Could not read Maven metadata using the resolver "@),
            marked(resolver, Emphasis::Cyan),
            plain(
                ".\nThe response could not be read or was not valid UTF-8.\nMaybe your internet connection is gone?\nMaven central could also be down.\nThe URL '"@,
            ),
            marked(url, Emphasis::CyanBold),
            plain("' was tried and resulted in a "@),
            marked(digits(status as nat), Emphasis::RedBold),
            plain("."@),
        ],
        ErrorKind::InvalidRequest => seq![
            plain(
                "Could not send the request to the resolver.\nThere is probably something wrong the resolver '"@,
            ),
            marked(resolver, Emphasis::Cyan),
            plain("' or the tried URL '"@),
            marked(url, Emphasis::CyanBold),
            plain("'."@),
        ],
        ErrorKind::ServerNotFound => seq![
            plain("Could not connect to the resolver "@),
            marked(resolver, Emphasis::Cyan),
            plain(
                ".\nMaybe your internet is gone? The resolver could also be down.\nThe URL '"@,
            ),
            marked(url, Emphasis::CyanBold),
            plain("' was tried."@),
        ],
        ErrorKind::ServerNotAvailable => seq![
            plain("Did not get a response from the resolver "@),
            marked(resolver, Emphasis::Cyan),
            plain(
                ".\nMaybe your internet is gone or very slow? The resolver could also be down or under load.\nThe URL '"@,
            ),
            marked(url, Emphasis::CyanBold),
            plain("' was tried."@),
        ],
        ErrorKind::TransportError => seq![
            plain("Could not read Maven metadata using the resolver "@),
            marked(resolver, Emphasis::Cyan),
            plain(
                ".\nThere is likely something wrong with your request, please check your inputs.\nThe URL '"@,
            ),
            marked(url, Emphasis::CyanBold),
            plain("' was tried."@),
        ],
        ErrorKind::TooManyRedirects => seq![
            plain("The resolver "@),
            marked(resolver, Emphasis::Cyan),
            plain(
                " reponded with a redirect loop.\nThere is likely something wrong with your request, please check your inputs.\nThe URL '"@,
            ),
            marked(url, Emphasis::CyanBold),
            plain("' was tried."@),
        ],
        ErrorKind::ParseBodyError(_) => seq![
            plain("Unable to parse Maven metadata XML file.\nThe resolver "@),
            marked(resolver, Emphasis::Cyan),
            plain(" might not conform to the proper maven metadata format.\nThe URL '"@),
            marked(url, Emphasis::CyanBold),
            plain("' was tried."@),
        ],
    }
}

impl ResolveError {
    /// What the user is told about this failure.
    pub fn message(&self) -> (message: Vec<Piece>)
        ensures
            piece_views(message@) == failure_message(
                url_text(self.resolver),
                url_text(self.url),
                self.error,
            ),
    {
        let resolver = url_as_str(&self.resolver);
        let url = url_as_str(&self.url);
        let mut message: Vec<Piece> = Vec::new();
        assert(piece_views(message@) =~= Seq::<PieceView>::empty());
        match &self.error {
            ErrorKind::CoordinatesNotFound(coordinates) => {
                put(&mut message, "The coordinates ", Emphasis::Plain);
                put(&mut message, coordinates.group_id.as_str(), Emphasis::RedBold);
                put(&mut message, ":", Emphasis::Plain);
                put(&mut message, coordinates.artifact.as_str(), Emphasis::RedBold);
                put(&mut message, " could not be found using the resolver ", Emphasis::Plain);
                put(&mut message, resolver, Emphasis::Cyan);
                put(
                    &mut message,
                    ".\nThis could be because the coordinates do not exist or because the server does not follow maven style publication.\nThe following URL was tried and resulted in a 404: ",
                    Emphasis::Plain,
                );
                put(&mut message, url, Emphasis::CyanBold);
            },
            ErrorKind::ClientError(status, body) => {
                let code = decimal(*status as u64);
                put(
                    &mut message,
                    "Could not read Maven metadata using the resolver ",
                    Emphasis::Plain,
                );
                put(&mut message, resolver, Emphasis::Cyan);
                put(
                    &mut message,
                    ".\nThere is likely something wrong with your request, please check your inputs.\nThe URL '",
                    Emphasis::Plain,
                );
                put(&mut message, url, Emphasis::CyanBold);
                put(&mut message, "' was tried and resulted in a ", Emphasis::Plain);
                put(&mut message, code.as_str(), Emphasis::YellowBold);
                put(&mut message, " with the body\n\n", Emphasis::Plain);
                put(&mut message, body.as_str(), Emphasis::Plain);
            },
            ErrorKind::ServerError(status, body) => {
                let code = decimal(*status as u64);
                put(
                    &mut message,
                    "Could not read Maven metadata using the resolver ",
                    Emphasis::Plain,
                );
                put(&mut message, resolver, Emphasis::Cyan);
                put(
                    &mut message,
                    ".\nThere is likely something wrong with Maven central.\nThe URL '",
                    Emphasis::Plain,
                );
                put(&mut message, url, Emphasis::CyanBold);
                put(&mut message, "' was tried and resulted in a ", Emphasis::Plain);
                put(&mut message, code.as_str(), Emphasis::RedBold);
                put(&mut message, " with the body\n\n", Emphasis::Plain);
                put(&mut message, body.as_str(), Emphasis::Plain);
                put(&mut message, "\n\nIt's probably best to try later.", Emphasis::Plain);
            },
            ErrorKind::ReadBodyError(status) => {
                let code = decimal(*status as u64);
                put(
                    &mut message,
                    "Could not read Maven metadata using the resolver ",
                    Emphasis::Plain,
                );
                put(&mut message, resolver, Emphasis::Cyan);
                put(
                    &mut message,
                    ".\nThe response could not be read or was not valid UTF-8.\nMaybe your internet connection is gone?\nMaven central could also be down.\nThe URL '",
                    Emphasis::Plain,
                );
                put(&mut message, url, Emphasis::CyanBold);
                put(&mut message, "' was tried and resulted in a ", Emphasis::Plain);
                put(&mut message, code.as_str(), Emphasis::RedBold);
                put(&mut message, ".", Emphasis::Plain);
            },
            ErrorKind::InvalidRequest => {
                put(
                    &mut message,
                    "Could not send the request to the resolver.\nThere is probably something wrong the resolver '",
                    Emphasis::Plain,
                );
                put(&mut message, resolver, Emphasis::Cyan);
                put(&mut message, "' or the tried URL '", Emphasis::Plain);
                put(&mut message, url, Emphasis::CyanBold);
                put(&mut message, "'.", Emphasis::Plain);
            },
            ErrorKind::ServerNotFound => {
                put(&mut message, "Could not connect to the resolver ", Emphasis::Plain);
                put(&mut message, resolver, Emphasis::Cyan);
                put(
                    &mut message,
                    ".\nMaybe your internet is gone? The resolver could also be down.\nThe URL '",
                    Emphasis::Plain,
                );
                put(&mut message, url, Emphasis::CyanBold);
                put(&mut message, "' was tried.", Emphasis::Plain);
            },
            ErrorKind::ServerNotAvailable => {
                put(&mut message, "Did not get a response from the resolver ", Emphasis::Plain);
                put(&mut message, resolver, Emphasis::Cyan);
                put(
                    &mut message,
                    ".\nMaybe your internet is gone or very slow? The resolver could also be down or under load.\nThe URL '",
                    Emphasis::Plain,
                );
                put(&mut message, url, Emphasis::CyanBold);
                put(&mut message, "' was tried.", Emphasis::Plain);
            },
            ErrorKind::TransportError => {
                put(
                    &mut message,
                    "Could not read Maven metadata using the resolver ",
                    Emphasis::Plain,
                );
                put(&mut message, resolver, Emphasis::Cyan);
                put(
                    &mut message,
                    ".\nThere is likely something wrong with your request, please check your inputs.\nThe URL '",
                    Emphasis::Plain,
                );
                put(&mut message, url, Emphasis::CyanBold);
                put(&mut message, "' was tried.", Emphasis::Plain);
            },
            ErrorKind::TooManyRedirects => {
                put(&mut message, "The resolver ", Emphasis::Plain);
                put(&mut message, resolver, Emphasis::Cyan);
                put(
                    &mut message,
                    " reponded with a redirect loop.\nThere is likely something wrong with your request, please check your inputs.\nThe URL '",
                    Emphasis::Plain,
                );
                put(&mut message, url, Emphasis::CyanBold);
                put(&mut message, "' was tried.", Emphasis::Plain);
            },
            ErrorKind::ParseBodyError(_) => {
                put(
                    &mut message,
                    "Unable to parse Maven metadata XML file.\nThe resolver ",
                    Emphasis::Plain,
                );
                put(&mut message, resolver, Emphasis::Cyan);
                put(
                    &mut message,
                    " might not conform to the proper maven metadata format.\nThe URL '",
                    Emphasis::Plain,
                );
                put(&mut message, url, Emphasis::CyanBold);
                put(&mut message, "' was tried.", Emphasis::Plain);
            },
        }
        assert(piece_views(message@) =~= failure_message(
            url_text(self.resolver),
            url_text(self.url),
            self.error,
        ));
        message
    }
}

} // verus!
