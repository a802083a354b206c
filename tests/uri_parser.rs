use totp::error::TotpError;
use totp::uri::{is_otpauth, parse_otpauth, parse_param, parse_parts, same_text, UrlParts};

#[test]
fn parse_example_uri() {
    let (name, c) =
        parse_otpauth("otpauth://totp/Example:alice@site.com?secret=JBSWY3DPEHPK3PXP&digits=6&period=30")
            .unwrap();
    assert_eq!(name, "Example:alice@site.com");
    assert_eq!(c.secret, "JBSWY3DPEHPK3PXP");
    assert_eq!(c.digits, 6);
    assert_eq!(c.period, 30);
}

#[test]
fn parse_defaults_and_decoding() {
    let (name, c) = parse_otpauth("otpauth://totp/My%20Key?secret=ABCD&issuer=X&algorithm=SHA256").unwrap();
    assert_eq!(name, "My Key");
    assert_eq!(c.secret, "ABCD");
    assert_eq!(c.digits, 6);
    assert_eq!(c.period, 30);
    let (_, c) = parse_otpauth("otpauth://totp/k?period=60&digits=8&secret=ABCD").unwrap();
    assert_eq!((c.digits, c.period), (8, 60));
}

#[test]
fn parse_rejects_hotp() {
    let r = parse_otpauth("otpauth://hotp/Example?secret=JBSWY3DPEHPK3PXP&counter=1");
    assert!(matches!(r, Err(TotpError::UnsupportedMode)));
}

#[test]
fn parse_rejects_missing_secret() {
    let r = parse_otpauth("otpauth://totp/Example?digits=6&period=30");
    assert!(matches!(r, Err(TotpError::MissingSecret)));
}

#[test]
fn parse_rejects_malformed_parameters() {
    assert!(matches!(
        parse_otpauth("otpauth://totp/Example?secret=ABCD&digits=six"),
        Err(TotpError::MalformedParameter)
    ));
    assert!(matches!(
        parse_otpauth("otpauth://totp/Example?secret=ABCD&period=0"),
        Err(TotpError::MalformedParameter)
    ));
}

#[test]
fn parse_rejects_bad_uri_and_empty_label() {
    assert!(matches!(parse_otpauth("not a uri"), Err(TotpError::MalformedUri)));
    assert!(matches!(parse_otpauth("otpauth://totp/?secret=ABCD"), Err(TotpError::MalformedUri)));
}

#[test]
fn parse_parts_reads_given_parts() {
    let parts = UrlParts {
        host: Some("totp".to_string()),
        path: "/a%3Ab".to_string(),
        query: vec![
            ("secret".to_string(), "XYZ".to_string()),
            ("secret".to_string(), "OTHER".to_string()),
            ("digits".to_string(), "7".to_string()),
        ],
    };
    let (name, c) = parse_parts(&parts).unwrap();
    assert_eq!(name, "a:b");
    assert_eq!(c.secret, "XYZ");
    assert_eq!((c.digits, c.period), (7, 30));
    let none = UrlParts { host: None, path: "/a".to_string(), query: vec![] };
    assert!(matches!(parse_parts(&none), Err(TotpError::UnsupportedMode)));
}

#[test]
fn parse_param_values() {
    assert_eq!(parse_param("6"), Some(6));
    assert_eq!(parse_param("030"), Some(30));
    assert_eq!(parse_param("4294967295"), Some(u32::MAX));
    assert_eq!(parse_param("4294967296"), None);
    assert_eq!(parse_param("0"), None);
    assert_eq!(parse_param(""), None);
    assert_eq!(parse_param("+6"), None);
    assert_eq!(parse_param("6a"), None);
}

#[test]
fn otpauth_prefix() {
    assert!(is_otpauth("otpauth://totp/x"));
    assert!(!is_otpauth("otpauth:/totp"));
    assert!(!is_otpauth("JBSWY3DPEHPK3PXP"));
    assert!(same_text("ab", "ab"));
    assert!(!same_text("ab", "abc"));
}
