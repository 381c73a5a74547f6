use latest_maven_version::address::{fits, maven_segments};
use latest_maven_version::coordinates::Coordinates;
use latest_maven_version::message::{flatten, Emphasis};
use latest_maven_version::metadata::MetadataParser;
use latest_maven_version::mvnmeta::url;
use latest_maven_version::resolvers::{
    classify_failure, classify_response, status_failure, ErrorKind, ResolveError,
    TransportFailure, UrlResolver,
};
use latest_maven_version::tokens::MalformedXml;
use latest_maven_version::versions::Versions;
use url::Url;

#[test]
fn test_url_resolver_url() {
    let resolver = UrlResolver::new("http://example.com", None).unwrap();
    let url = resolver.url(&Coordinates::new("com.foo", "bar.baz"));
    assert_eq!(
        url,
        Url::parse("http://example.com/com/foo/bar.baz/maven-metadata.xml").unwrap()
    )
}

#[test]
fn free_url() {
    assert_eq!(
        url("http://example.com", "com.foo", "bar.baz"),
        Some(Url::parse("http://example.com/com/foo/bar.baz/maven-metadata.xml").unwrap())
    );
    assert_eq!(url("foobar", "com.foo", "bar.baz"), None);
    assert_eq!(url("data:text/plain,foobar", "com.foo", "bar.baz"), None);
}

fn response(versions: &[&str]) -> String {
    let versions = versions
        .iter()
        .map(|v| format!("<version>{}</version>", v))
        .collect::<String>();
    format!(
        r#"<?xml version="1.0" encoding="UTF-8"?>
                    <metadata>
                      <versioning>
                        <versions>
                          {}
                        </versions>
                      </versioning>
                    </metadata>
                    "#,
        versions
    )
}

#[test]
fn test_url_resolver_resolve() {
    let resolver = UrlResolver::new("http://example.com", None).unwrap();
    let versions = vec!["1.0.0", "1.3.37", "1.33.7"];
    let versions = &versions[..];
    let url = resolver.url(&Coordinates::new("com.foo", "bar.baz"));
    let actual = resolver.read(url, Ok(response(versions))).unwrap();

    assert_eq!(actual, Versions::from(versions));
}

#[test]
fn test_url_resolver_failing() {
    let coordinates = Coordinates::new("foo", "bar");
    let server = Url::parse("http://example.com").unwrap();

    let resolver = UrlResolver::new(&server.to_string(), None).unwrap();

    let response = Err(ErrorKind::CoordinatesNotFound(coordinates.clone()));
    let actual = resolver
        .read(resolver.url(&coordinates), response)
        .unwrap_err();

    let ResolveError {
        resolver: actual_server,
        url,
        error,
    } = actual;
    if let ErrorKind::CoordinatesNotFound(actual_coordinates) = error {
        assert_eq!(actual_coordinates, coordinates);
        assert_eq!(actual_server, server);
        assert_eq!(url, resolver.url(&coordinates));
    } else {
        panic!("Expected CoordinatesNotFound")
    }
}

#[test]
fn test_url_resolver_malformed_body() {
    let coordinates = Coordinates::new("foo", "bar");
    let resolver = UrlResolver::new("http://example.com", None).unwrap();
    let actual = resolver
        .read(
            resolver.url(&coordinates),
            Ok("<versions><version>1.0.0</version".to_string()),
        )
        .unwrap_err();
    assert!(matches!(
        actual.error,
        ErrorKind::ParseBodyError(MalformedXml { .. })
    ));
    assert_eq!(actual.resolver.as_str(), "http://example.com/");
    assert_eq!(
        actual.url.as_str(),
        "http://example.com/foo/bar/maven-metadata.xml"
    );
}

#[test]
fn test_url_resolver_invalid_url() {
    for (url, error) in [
        ("foobar", "relative URL without a base"),
        ("data:text/plain,foobar", "Cannot be a base"),
    ] {
        let invalid = UrlResolver::new(url, None).unwrap_err();
        assert_eq!(invalid.error, error);
        assert_eq!(invalid.server, url);
        assert_eq!(
            flatten(&invalid.message()),
            format!("The resolver {} is an invalid URL. {}", url, error)
        );
    }
    assert!(UrlResolver::new("http:/foo bar", None).is_err());
}

#[test]
fn test_url_resolver_keeps_server_and_auth() {
    let auth = Some(("Alice".to_string(), "s3cure".to_string()));
    let resolver = UrlResolver::new("https://repo.maven.apache.org/maven2", auth.clone()).unwrap();
    assert_eq!(
        resolver.server().as_str(),
        "https://repo.maven.apache.org/maven2"
    );
    assert_eq!(resolver.auth(), auth.as_ref());
    let url = resolver
        .try_url(&Coordinates::new("org.neo4j.gds", "proc"))
        .unwrap();
    assert_eq!(
        url.as_str(),
        "https://repo.maven.apache.org/maven2/org/neo4j/gds/proc/maven-metadata.xml"
    );
}

#[test]
fn test_url_segments_are_escaped() {
    let resolver = UrlResolver::new("http://example.com/base/?q=1#frag", None).unwrap();
    let url = resolver.url(&Coordinates::new("a b..c", "x/y"));
    assert_eq!(
        url.as_str(),
        "http://example.com/base//a%20b//c/x%2Fy/maven-metadata.xml?q=1#frag"
    );
}

#[test]
fn test_classify_response() {
    let coordinates = Coordinates::new("foo", "bar");
    let body = || "body".to_string();
    assert!(matches!(classify_response(200, body(), &coordinates), Ok(b) if b == "body"));
    assert!(matches!(classify_response(302, body(), &coordinates), Ok(b) if b == "body"));
    assert!(matches!(classify_response(399, body(), &coordinates), Ok(_)));
    assert!(matches!(classify_response(600, body(), &coordinates), Ok(_)));
    assert!(matches!(
        classify_response(404, body(), &coordinates),
        Err(ErrorKind::CoordinatesNotFound(c)) if c == coordinates
    ));
    assert!(matches!(
        classify_response(400, body(), &coordinates),
        Err(ErrorKind::ClientError(400, b)) if b == "body"
    ));
    assert!(matches!(
        classify_response(499, body(), &coordinates),
        Err(ErrorKind::ClientError(499, _))
    ));
    assert!(matches!(
        classify_response(500, body(), &coordinates),
        Err(ErrorKind::ServerError(500, b)) if b == "body"
    ));
    assert!(matches!(
        classify_response(599, body(), &coordinates),
        Err(ErrorKind::ServerError(599, _))
    ));
}

#[test]
fn test_status_failure() {
    let coordinates = Coordinates::new("foo", "bar");
    let body = || "body".to_string();
    assert!(matches!(
        status_failure(404, body(), &coordinates),
        ErrorKind::CoordinatesNotFound(c) if c == coordinates
    ));
    assert!(matches!(
        status_failure(403, body(), &coordinates),
        ErrorKind::ClientError(403, b) if b == "body"
    ));
    assert!(matches!(
        status_failure(503, body(), &coordinates),
        ErrorKind::ServerError(503, b) if b == "body"
    ));
    assert!(matches!(
        status_failure(399, body(), &coordinates),
        ErrorKind::ServerError(399, _)
    ));
}

#[test]
fn test_classify_failure() {
    let failure = |is_builder, is_connect, is_timeout, is_redirect| TransportFailure {
        is_builder,
        is_connect,
        is_timeout,
        is_redirect,
    };
    assert!(matches!(
        classify_failure(failure(true, true, true, true)),
        ErrorKind::InvalidRequest
    ));
    assert!(matches!(
        classify_failure(failure(false, true, true, true)),
        ErrorKind::ServerNotFound
    ));
    assert!(matches!(
        classify_failure(failure(false, false, true, true)),
        ErrorKind::ServerNotAvailable
    ));
    assert!(matches!(
        classify_failure(failure(false, false, false, true)),
        ErrorKind::TooManyRedirects
    ));
    assert!(matches!(
        classify_failure(failure(false, false, false, false)),
        ErrorKind::TransportError
    ));
}

fn failure_text(kind: ErrorKind) -> String {
    let resolver = Url::parse("http://example.com").unwrap();
    let url = Url::parse("http://example.com/foo/bar/maven-metadata.xml").unwrap();
    flatten(&kind.err(resolver, url).message())
}

#[test]
fn test_failure_messages() {
    assert_eq!(
        failure_text(ErrorKind::CoordinatesNotFound(Coordinates::new("foo", "bar"))),
        "The coordinates foo:bar could not be found using the resolver http://example.com/.\nThis could be because the coordinates do not exist or because the server does not follow maven style publication.\nThe following URL was tried and resulted in a 404: http://example.com/foo/bar/maven-metadata.xml"
    );
    assert_eq!(
        failure_text(ErrorKind::ClientError(403, "nope".into())),
        "Could not read Maven metadata using the resolver http://example.com/.\nThere is likely something wrong with your request, please check your inputs.\nThe URL 'http://example.com/foo/bar/maven-metadata.xml' was tried and resulted in a 403 with the body\n\nnope"
    );
    assert_eq!(
        failure_text(ErrorKind::ServerError(500, "oops".into())),
        "Could not read Maven metadata using the resolver http://example.com/.\nThere is likely something wrong with Maven central.\nThe URL 'http://example.com/foo/bar/maven-metadata.xml' was tried and resulted in a 500 with the body\n\noops\n\nIt's probably best to try later."
    );
    assert_eq!(
        failure_text(ErrorKind::ReadBodyError(200)),
        "Could not read Maven metadata using the resolver http://example.com/.\nThe response could not be read or was not valid UTF-8.\nMaybe your internet connection is gone?\nMaven central could also be down.\nThe URL 'http://example.com/foo/bar/maven-metadata.xml' was tried and resulted in a 200."
    );
    assert_eq!(
        failure_text(ErrorKind::InvalidRequest),
        "Could not send the request to the resolver.\nThere is probably something wrong the resolver 'http://example.com/' or the tried URL 'http://example.com/foo/bar/maven-metadata.xml'."
    );
    assert_eq!(
        failure_text(ErrorKind::ServerNotFound),
        "Could not connect to the resolver http://example.com/.\nMaybe your internet is gone? The resolver could also be down.\nThe URL 'http://example.com/foo/bar/maven-metadata.xml' was tried."
    );
    assert_eq!(
        failure_text(ErrorKind::ServerNotAvailable),
        "Did not get a response from the resolver http://example.com/.\nMaybe your internet is gone or very slow? The resolver could also be down or under load.\nThe URL 'http://example.com/foo/bar/maven-metadata.xml' was tried."
    );
    assert_eq!(
        failure_text(ErrorKind::TransportError),
        "Could not read Maven metadata using the resolver http://example.com/.\nThere is likely something wrong with your request, please check your inputs.\nThe URL 'http://example.com/foo/bar/maven-metadata.xml' was tried."
    );
    assert_eq!(
        failure_text(ErrorKind::TooManyRedirects),
        "The resolver http://example.com/ reponded with a redirect loop.\nThere is likely something wrong with your request, please check your inputs.\nThe URL 'http://example.com/foo/bar/maven-metadata.xml' was tried."
    );
    let malformed = MetadataParser::parse_into("<versions><<version>").unwrap_err();
    assert_eq!(
        failure_text(ErrorKind::ParseBodyError(malformed)),
        "Unable to parse Maven metadata XML file.\nThe resolver http://example.com/ might not conform to the proper maven metadata format.\nThe URL 'http://example.com/foo/bar/maven-metadata.xml' was tried."
    );
}

#[test]
fn test_failure_message_emphasis() {
    let resolver = Url::parse("http://example.com").unwrap();
    let url = Url::parse("http://example.com/foo/bar/maven-metadata.xml").unwrap();
    let message = ErrorKind::ClientError(403, "nope".into())
        .err(resolver, url)
        .message();
    let emphasis: Vec<Emphasis> = message.iter().map(|piece| piece.emphasis).collect();
    assert_eq!(
        emphasis,
        vec![
            Emphasis::Plain,
            Emphasis::Cyan,
            Emphasis::Plain,
            Emphasis::CyanBold,
            Emphasis::Plain,
            Emphasis::YellowBold,
            Emphasis::Plain,
            Emphasis::Plain
        ]
    );
    assert_eq!(message[5].text, "403");
}

#[test]
fn test_maven_segments() {
    assert_eq!(
        maven_segments("org.neo4j.gds", "proc"),
        vec!["org", "neo4j", "gds", "proc", "maven-metadata.xml"]
    );
    assert_eq!(maven_segments("", "a.b"), vec!["", "a.b", "maven-metadata.xml"]);
    assert_eq!(
        maven_segments("a..b.", "c"),
        vec!["a", "", "b", "", "c", "maven-metadata.xml"]
    );
    let segments = maven_segments("com.foo", "bar");
    // 3 + 3 + 3 + 18 bytes, three times each, and a slash for each segment
    assert!(fits(0, &segments));
    assert!(fits(0xffff_ffff - 85, &segments));
    assert!(!fits(0xffff_ffff - 84, &segments));
    assert!(!fits(usize::MAX, &segments));
    assert!(fits(0xffff_ffff, &vec![]));
}
