use latest_maven_version::metadata::{Metadata, MetadataParser};
use latest_maven_version::tokens::{Event, ListSource, TokenSource, XmlTokens};
use latest_maven_version::versions::Versions;

fn parse(input: &str) -> Vec<&str> {
    MetadataParser::parse_into(input).unwrap()
}

#[test]
fn test_full_xml() {
    let input = r#"<?xml version="1.0" encoding="UTF-8"?>
        <metadata>
          <groupId>org.neo4j.gds</groupId>
          <artifactId>proc</artifactId>
          <versioning>
            <latest>1.4.0-alpha03</latest>
            <release>1.4.0-alpha03</release>
            <versions>
              <version>0.9.2</version>
              <version>0.9.3</version>
              <version>1.0.0</version>
              <version>1.1.0-alpha01</version>
              <version>1.1.0-alpha02</version>
              <version>1.1.0</version>
              <version>1.1.1</version>
              <version>1.1.2</version>
              <version>1.1.3</version>
              <version>1.1.4</version>
              <version>1.1.5</version>
              <version>1.2.0-alpha01</version>
              <version>1.2.0</version>
              <version>1.2.1</version>
              <version>1.2.2</version>
              <version>1.2.3</version>
              <version>1.3.0-alpha01</version>
              <version>1.3.0-alpha02</version>
              <version>1.3.0-alpha03</version>
              <version>1.3.0</version>
              <version>1.3.1</version>
              <version>1.3.2</version>
              <version>1.4.0-alpha01</version>
              <version>1.4.0-alpha02</version>
              <version>1.4.0-alpha03</version>
            </versions>
            <lastUpdated>20200827153717</lastUpdated>
          </versioning>
        </metadata>
        "#;

    let versions = MetadataParser::parse_into(input).unwrap();
    assert_eq!(
        versions,
        vec![
            "0.9.2",
            "0.9.3",
            "1.0.0",
            "1.1.0-alpha01",
            "1.1.0-alpha02",
            "1.1.0",
            "1.1.1",
            "1.1.2",
            "1.1.3",
            "1.1.4",
            "1.1.5",
            "1.2.0-alpha01",
            "1.2.0",
            "1.2.1",
            "1.2.2",
            "1.2.3",
            "1.3.0-alpha01",
            "1.3.0-alpha02",
            "1.3.0-alpha03",
            "1.3.0",
            "1.3.1",
            "1.3.2",
            "1.4.0-alpha01",
            "1.4.0-alpha02",
            "1.4.0-alpha03"
        ]
    );
}

#[test]
fn test_empty_xml_empty_string() {
    assert_eq!(parse(""), Vec::<&str>::new());
}

#[test]
fn test_empty_xml_unrelated_tag() {
    assert_eq!(parse("<metadata></metadata>"), Vec::<&str>::new());
}

#[test]
fn test_empty_xml_versions_without_version() {
    assert_eq!(parse("<versions></versions>"), Vec::<&str>::new());
}

#[test]
fn test_empty_xml_version_without_versions() {
    assert_eq!(parse("<version></version>"), Vec::<&str>::new());
}

#[test]
fn test_empty_xml_version_without_content() {
    assert_eq!(
        parse("<versions><version></version></versions>"),
        Vec::<&str>::new()
    );
}

#[test]
fn test_minimal_xml_whitespace_only() {
    assert_eq!(
        parse("<versions><version>   </version></versions>"),
        vec![""]
    );
}

#[test]
fn test_minimal_xml_plain() {
    assert_eq!(
        parse("<versions><version>1.0.0</version></versions>"),
        vec!["1.0.0"]
    );
}

#[test]
fn test_minimal_xml_with_whitespace() {
    assert_eq!(
        parse("<versions><version>   1.0.0   </version></versions>"),
        vec!["1.0.0"]
    );
}

#[test]
fn test_minimal_xml_in_cdata() {
    assert_eq!(
        parse("<versions><version><![CDATA[1.0.0]]></version></versions>"),
        vec!["1.0.0"]
    );
}

#[test]
fn test_minimal_xml_in_cdata_with_whitespace() {
    assert_eq!(
        parse("<versions><version><![CDATA[   1.0.0    ]]></version></versions>"),
        vec!["1.0.0"]
    );
}

#[test]
fn test_minimal_xml_accepts_anything() {
    assert_eq!(
        parse("<versions><version>foo</version></versions>"),
        vec!["foo"]
    );
}

#[test]
fn text_and_cdata_are_trimmed() {
    assert_eq!(
        parse("<versions><version>  1.0.0  </version><version><![CDATA[ 2.0.0 ]]></version></versions>"),
        vec!["1.0.0", "2.0.0"]
    );
}

#[test]
fn unicode_white_space_is_trimmed() {
    assert_eq!(
        parse("<versions><version>\u{2003}\t1.0.0\u{a0}\n</version></versions>"),
        vec!["1.0.0"]
    );
}

#[test]
fn surrounding_structure_is_ignored() {
    let input = "<?xml version=\"1.0\"?><!-- c --><m:metadata xmlns:m=\"urn:x\" a=\"b\"><x/>\
                 <m:versions n=\"2\"><m:version id=\"1\">1.0</m:version><other>9.9</other>\
                 <version>2.0</version></m:versions><version>3.0</version></m:metadata>";
    assert_eq!(parse(input), vec!["1.0"]);
    let input = "<a><versions><version k=\"v\">1.0</version><!-- c --><version>2.0</version>\
                 </versions><version>3.0</version></a>";
    assert_eq!(parse(input), vec!["1.0", "2.0"]);
}

#[test]
fn malformed_markup_is_an_error() {
    assert!(MetadataParser::parse_into("<versions><version>1.0.0</version").is_err());
    assert!(MetadataParser::parse_into("<versions><version>1.0.0</version><").is_err());
    assert!(MetadataParser::parse_into("<versions><<version>1.0.0</version>").is_err());
    assert!(Metadata::parse_into("<versions><version>1.0.0</version".to_string()).is_err());
}

#[test]
fn versions_before_an_error_are_handed_out() {
    let mut parser = MetadataParser::from("<versions><version>1.0.0</version><version>2.0.0</version");
    assert_eq!(parser.next().map(|item| item.ok()), Some(Some("1.0.0")));
    assert_eq!(parser.next().map(|item| item.ok()), Some(Some("2.0.0")));
    assert_eq!(parser.next().map(|item| item.is_err()), Some(true));
    assert!(parser.next().is_none());
    assert!(parser.next().is_none());
}

#[test]
fn nothing_is_read_after_the_collection_closed() {
    let mut parser =
        MetadataParser::from("<a><versions><version>1.0.0</version></versions><version>2.0.0</version><");
    assert_eq!(parser.next().map(|item| item.ok()), Some(Some("1.0.0")));
    assert!(parser.next().is_none());
    assert!(parser.next().is_none());
}

#[test]
fn metadata_yields_a_pool() {
    let body = "<metadata><versioning><versions><version>1.0.0</version>\
                <version> 1.3.37 </version><version>1.33.7</version></versions></versioning></metadata>";
    let pool = Metadata::parse_into(body.to_string()).unwrap();
    assert_eq!(pool, Versions::from(["1.0.0", "1.3.37", "1.33.7"].as_ref()));
    let metadata = Metadata::from(body.to_string());
    let mut first = metadata.iter();
    let mut second = metadata.iter();
    assert_eq!(first.next().map(|item| item.ok()), Some(Some("1.0.0")));
    assert_eq!(second.next().map(|item| item.ok()), Some(Some("1.0.0")));
    assert_eq!(first.next().map(|item| item.ok()), Some(Some("1.3.37")));
}

fn start(local: &str) -> Result<Event<'_>, &'static str> {
    Ok(Event::ElementStart { local })
}

fn text(text: &str) -> Result<Event<'_>, &'static str> {
    Ok(Event::Text { text })
}

fn cdata(text: &str) -> Result<Event<'_>, &'static str> {
    Ok(Event::Cdata { text })
}

const OPEN: Result<Event<'static>, &'static str> = Ok(Event::ElementEndOpen);
const CLOSE: Result<Event<'static>, &'static str> = Ok(Event::ElementEndClose);
const EMPTY: Result<Event<'static>, &'static str> = Ok(Event::ElementEndEmpty);
const OTHER: Result<Event<'static>, &'static str> = Ok(Event::Other);

fn collect<'a>(items: Vec<Result<Event<'a>, &'static str>>) -> Result<Vec<&'a str>, &'static str> {
    MetadataParser::over(ListSource::new(items)).collect()
}

#[test]
fn tokens_at_hand_are_extracted_from() {
    let items = vec![
        OTHER,
        start("versions"),
        OPEN,
        text("\n  "),
        start("version"),
        OTHER,
        OPEN,
        text(" 1.0.0 "),
        CLOSE,
        text("\n  "),
        start("version"),
        OPEN,
        cdata(" 2.0.0 "),
        OTHER,
        text("3.0.0"),
        CLOSE,
        start("version"),
        EMPTY,
        start("version"),
        OPEN,
        CLOSE,
        CLOSE,
        start("version"),
        OPEN,
        text("4.0.0"),
        CLOSE,
        Err("never read"),
    ];
    assert_eq!(collect(items), Ok(vec!["1.0.0", "2.0.0", "3.0.0"]));
}

#[test]
fn a_failure_of_the_source_ends_extraction() {
    let items = vec![
        start("version"),
        OPEN,
        text("1.0.0"),
        CLOSE,
        Err("broken"),
        start("version"),
        OPEN,
        text("2.0.0"),
        CLOSE,
    ];
    assert_eq!(collect(items.clone()), Err("broken"));
    let mut parser = MetadataParser::over(ListSource::new(items));
    assert_eq!(parser.next(), Some(Ok("1.0.0")));
    assert_eq!(parser.next(), Some(Err("broken")));
    assert_eq!(parser.next(), None);
    assert_eq!(parser.next(), None);
}

#[test]
fn an_empty_element_start_is_not_the_end_of_a_start_tag() {
    let items = vec![start("version"), EMPTY, text("1.0.0"), OPEN, text("2.0.0"), CLOSE];
    assert_eq!(collect(items), Ok(vec!["2.0.0"]));
}

#[test]
fn a_source_yields_its_tokens_in_order() {
    let mut source = ListSource::new(vec![start("a"), OPEN, Err("x"), CLOSE]);
    assert_eq!(source.next_token(), Some(start("a")));
    assert_eq!(source.next_token(), Some(OPEN));
    assert_eq!(source.next_token(), Some(Err("x")));
    assert_eq!(source.next_token(), Some(CLOSE));
    assert_eq!(source.next_token(), None);
    assert_eq!(source.next_token(), None);
    let mut empty: ListSource<&'static str> = ListSource::new(vec![]);
    assert_eq!(empty.next_token(), None);
}

#[test]
fn the_tokenizer_yields_events() {
    let mut source =
        XmlTokens::from("<?xml version=\"1.0\"?><a:b c=\"d\">t<![CDATA[u]]><e/></a:b><!-- f -->");
    let mut events = vec![];
    while let Some(token) = source.next_token() {
        events.push(token.unwrap());
    }
    assert_eq!(
        events,
        vec![
            Event::Other,
            Event::ElementStart { local: "b" },
            Event::Other,
            Event::ElementEndOpen,
            Event::Text { text: "t" },
            Event::Cdata { text: "u" },
            Event::ElementStart { local: "e" },
            Event::ElementEndEmpty,
            Event::ElementEndClose,
            Event::Other,
        ]
    );
    assert!(source.next_token().is_none());
    let mut broken = XmlTokens::from("<a><");
    assert!(matches!(broken.next_token(), Some(Ok(Event::ElementStart { local: "a" }))));
    assert!(matches!(broken.next_token(), Some(Ok(Event::ElementEndOpen))));
    assert!(matches!(broken.next_token(), Some(Err(_))));
    assert!(broken.next_token().is_none());
}
