use latest_maven_version::auth::{basic_auth_header, credentials, header_value};

#[test]
fn basic_auth_header_encodes_user_and_password() {
    assert_eq!(
        basic_auth_header("Alice", "s3cure"),
        Some("Basic: QWxpY2U6czNjdXJl".to_string())
    );
    assert_eq!(
        basic_auth_header("Aladdin", "open sesame"),
        Some("Basic: QWxhZGRpbjpvcGVuIHNlc2FtZQ==".to_string())
    );
    assert_eq!(basic_auth_header("", ""), Some("Basic: Og==".to_string()));
    assert_eq!(
        basic_auth_header("ä", "ö"),
        Some(format!("Basic: {}", base64::encode("ä:ö")))
    );
}

#[test]
fn credentials_and_header_value() {
    assert_eq!(credentials("Alice", "s3cure"), "Alice:s3cure");
    assert_eq!(credentials("", ""), ":");
    assert_eq!(credentials("a:b", ":c"), "a:b::c");
    assert_eq!(header_value("QWxpY2U6czNjdXJl"), "Basic: QWxpY2U6czNjdXJl");
    assert_eq!(header_value(""), "Basic: ");
}
