//! Asking a resolver that is given as text: the address of a module's
//! metadata, and what the status of the response means.
use crate::address::{
    extensible, maven_path, metadata_url, parse_url, parsed_url, url_text, with_segments,
};
use crate::coordinates::{Coordinates, Server};
use crate::message::{marked, piece_views, plain, put, Emphasis, Piece, PieceView};
use url::Url;
use vstd::prelude::*;

verus! {

/// The body of a response that reports a failure.
#[derive(Debug)]
pub struct ErrorResponse(pub String);

/// Why the versions of a module could not be had.
#[derive(Debug)]
pub enum MetaError {
    /// The resolver's address is none, or one that cannot be extended.
    InvalidResolver(String),
    /// The resolver does not know the coordinates.
    CoordinatesNotFound(Coordinates, String),
    /// Another 4xx response, with the resolver and the body.
    ClientError(String, ErrorResponse),
    /// Any other response of failure, with the resolver and the body.
    ServerError(String, ErrorResponse),
    /// The body of a response of failure could not be read.
    ErrorWhileReadingError,
    /// The document could not be read.
    ParseXmlError,
}

/// The address of the metadata document of the module `group_id:artifact`
/// at the resolver whose address is written as `resolver`: that address,
/// extended by the parts of the group, the artifact and the file name.
/// There is none where `resolver` is no address, or one that cannot be
/// extended.
pub fn url(resolver: &str, group_id: &str, artifact: &str) -> (address: Option<Url>)
    ensures
        match address {
            Some(url) => parsed_url(resolver@) matches Ok(base) && extensible(
                base,
                maven_path(group_id@, artifact@),
            ) && url_text(url) == with_segments(base, maven_path(group_id@, artifact@)),
            None => match parsed_url(resolver@) {
                Ok(base) => !extensible(base, maven_path(group_id@, artifact@)),
                Err(_) => true,
            },
        },
{
    match parse_url(resolver) {
        Ok(base) => metadata_url(&base, group_id, artifact),
        Err(_) => None,
    }
}

/// The address to ask `server` at for the module `group_id:artifact`, or
/// the error that names the resolver where there is none.
pub fn address(server: &Server, group_id: &str, artifact: &str) -> (found: Result<Url, MetaError>)
    ensures
        match found {
            Ok(url) => parsed_url(server.url@) matches Ok(base) && extensible(
                base,
                maven_path(group_id@, artifact@),
            ) && url_text(url) == with_segments(base, maven_path(group_id@, artifact@)),
            Err(e) => e matches MetaError::InvalidResolver(named) && named@ == server.url@
                && match parsed_url(server.url@) {
                Ok(base) => !extensible(base, maven_path(group_id@, artifact@)),
                Err(_) => true,
            },
        },
{
    match url(server.url.as_str(), group_id, artifact) {
        Some(url) => Ok(url),
        None => Err(MetaError::InvalidResolver(server.url.clone())),
    }
}

/// Whether a response with `status` reports a failure whose body is to be
/// read: any 4xx or 5xx but 404.
pub open spec fn reports_failure(status: u16) -> bool {
    400 <= status < 600 && status != 404
}

/// Whether a response with `status` reports a failure whose body is to be
/// read.
pub fn wants_error_body(status: u16) -> (wanted: bool)
    ensures
        wanted == reports_failure(status),
{
    400 <= status && status < 600 && status != 404
}

/// The error that a response with `status` stands for, if it is one of
/// failure; `body` is the body of such a response.
pub fn refusal(server: &Server, group_id: &str, artifact: &str, status: u16, body: String) -> (error:
    Option<MetaError>)
    ensures
        match error {
            None => !(400 <= status < 600),
            Some(MetaError::CoordinatesNotFound(coordinates, resolver)) => status == 404
                && coordinates.group_id@ == group_id@ && coordinates.artifact@ == artifact@
                && resolver@ == server.url@,
            Some(MetaError::ClientError(resolver, response)) => 400 <= status < 500 && status
                != 404 && resolver@ == server.url@ && response.0 == body,
            Some(MetaError::ServerError(resolver, response)) => 500 <= status < 600 && resolver@
                == server.url@ && response.0 == body,
            Some(_) => false,
        },
{
    if status == 404 {
        Some(
            MetaError::CoordinatesNotFound(
                Coordinates::new(group_id, artifact),
                server.url.clone(),
            ),
        )
    } else if 400 <= status && status < 500 {
        Some(MetaError::ClientError(server.url.clone(), ErrorResponse(body)))
    } else if 500 <= status && status < 600 {
        Some(MetaError::ServerError(server.url.clone(), ErrorResponse(body)))
    } else {
        None
    }
}

/// What the user is told about `error`.
pub open spec fn meta_error_message(error: MetaError) -> Seq<PieceView> {
    match error {
        MetaError::InvalidResolver(url) => seq![
            plain("The resolver "@),
            marked(url@, Emphasis::RedBold),
            plain(" is an invalid URL."@),
        ],
        MetaError::CoordinatesNotFound(coordinates, url) => seq![
            plain("The coordinates "@),
            marked(coordinates.group_id@, Emphasis::RedBold),
            plain(":"@),
            marked(coordinates.artifact@, Emphasis::RedBold),
            plain(" could not be found using the resolver "@),
            marked(url@, Emphasis::Cyan),
        ],
        MetaError::ClientError(url, _) => seq![
            plain("Could not read Maven metadata using the resolver "@),
            marked(url@, Emphasis::Cyan),
        ],
        MetaError::ServerError(url, _) => seq![
            plain("Could not read Maven metadata using the resolver "@),
            marked(url@, Emphasis::Cyan),
        ],
        MetaError::ErrorWhileReadingError => seq![
            plain("Could not read the error response from maven central."@),
        ],
        MetaError::ParseXmlError => seq![plain("Unable to parse Maven metadata XML file."@)],
    }
}

impl MetaError {
    /// What the user is told about this error.
    pub fn message(&self) -> (message: Vec<Piece>)
        ensures
            piece_views(message@) == meta_error_message(*self),
    {
        let mut message: Vec<Piece> = Vec::new();
        assert(piece_views(message@) =~= Seq::<PieceView>::empty());
        match self {
            MetaError::InvalidResolver(url) => {
                put(&mut message, "The resolver ", Emphasis::Plain);
                put(&mut message, url.as_str(), Emphasis::RedBold);
                put(&mut message, " is an invalid URL.", Emphasis::Plain);
            },
            MetaError::CoordinatesNotFound(coordinates, url) => {
                put(&mut message, "The coordinates ", Emphasis::Plain);
                put(&mut message, coordinates.group_id.as_str(), Emphasis::RedBold);
                put(&mut message, ":", Emphasis::Plain);
                put(&mut message, coordinates.artifact.as_str(), Emphasis::RedBold);
                put(&mut message, " could not be found using the resolver ", Emphasis::Plain);
                put(&mut message, url.as_str(), Emphasis::Cyan);
            },
            MetaError::ClientError(url, _) => {
                put(
                    &mut message,
                    "Could not read Maven metadata using the resolver ",
                    Emphasis::Plain,
                );
                put(&mut message, url.as_str(), Emphasis::Cyan);
            },
            MetaError::ServerError(url, _) => {
                put(
                    &mut message,
                    "Could not read Maven metadata using the resolver ",
                    Emphasis::Plain,
                );
                put(&mut message, url.as_str(), Emphasis::Cyan);
            },
            MetaError::ErrorWhileReadingError => {
                put(
                    &mut message,
                    "Could not read the error response from maven central.",
                    Emphasis::Plain,
                );
            },
            MetaError::ParseXmlError => {
                put(&mut message, "Unable to parse Maven metadata XML file.", Emphasis::Plain);
            },
        }
        assert(piece_views(message@) =~= meta_error_message(*self));
        message
    }
}

} // verus!
