//! Basic-credential parsing on concrete header values.

use palladium::auth::parse_basic_credentials;
use palladium::directive::DirectiveACLAuth;

#[test]
fn parses_a_well_formed_header() {
    let header = format!("Basic {}", base64::encode("user:pass"));
    assert_eq!(
        parse_basic_credentials(&header),
        Some(DirectiveACLAuth { key: "user".to_string(), secret: "pass".to_string() })
    );
}

#[test]
fn splits_at_the_first_colon_only() {
    let header = format!("Basic {}", base64::encode("k:s:t"));
    assert_eq!(
        parse_basic_credentials(&header),
        Some(DirectiveACLAuth { key: "k".to_string(), secret: "s:t".to_string() })
    );
}

#[test]
fn empty_key_and_secret_are_allowed() {
    let header = format!("Basic {}", base64::encode(":"));
    assert_eq!(
        parse_basic_credentials(&header),
        Some(DirectiveACLAuth { key: String::new(), secret: String::new() })
    );
}

#[test]
fn rejects_missing_prefix() {
    let raw = base64::encode("user:pass");
    assert_eq!(parse_basic_credentials(&raw), None);
    assert_eq!(parse_basic_credentials(""), None);
    assert_eq!(parse_basic_credentials("Bearer abc"), None);
    assert_eq!(parse_basic_credentials("basic abc"), None);
}

#[test]
fn rejects_bad_payloads() {
    assert_eq!(parse_basic_credentials("Basic ???"), None);
    let nocolon = format!("Basic {}", base64::encode("nocolon"));
    assert_eq!(parse_basic_credentials(&nocolon), None);
    let notutf8 = format!("Basic {}", base64::encode([0xffu8, 0x00, 0x3a]));
    assert_eq!(parse_basic_credentials(&notutf8), None);
}
