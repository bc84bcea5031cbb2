use note_vault::error::VaultError;
use note_vault::resolver::{is_within_root, parse_asset_url, resolve_within_root, strip_scheme};

#[test]
fn chinese_file_name_decodes() {
    let r = parse_asset_url("asset://localhost/%E4%B8%AD%E6%96%87.png");
    assert_eq!(r, Ok("中文.png".to_string()));
}

#[test]
fn invalid_utf8_is_a_decode_error() {
    assert_eq!(parse_asset_url("asset://localhost/%FF.png"), Err(VaultError::DecodeError));
    assert_eq!(parse_asset_url("%E4%B8"), Err(VaultError::DecodeError));
}

#[test]
fn each_scheme_prefix_is_stripped() {
    assert_eq!(strip_scheme("http://asset.localhost/a"), "a");
    assert_eq!(strip_scheme("https://asset.localhost/b"), "b");
    assert_eq!(strip_scheme("asset://localhost/c"), "c");
    assert_eq!(strip_scheme("asset://d"), "d");
    assert_eq!(strip_scheme("/plain/path"), "/plain/path");
}

#[test]
fn percent_sequences_decode_and_stray_percent_stays() {
    assert_eq!(parse_asset_url("http://asset.localhost/a%20b"), Ok("a b".to_string()));
    assert_eq!(parse_asset_url("asset://x%zz%4"), Ok("x%zz%4".to_string()));
    assert_eq!(parse_asset_url("asset://%2fv%2F"), Ok("/v/".to_string()));
}

#[test]
fn references_inside_the_vault_are_accepted() {
    let r = resolve_within_root("/vault", "asset://localhost/%2Fvault%2Fassets%2Fn%2Fa.png");
    assert_eq!(r, Ok("/vault/assets/n/a.png".to_string()));
}

#[test]
fn references_outside_the_vault_are_rejected() {
    assert_eq!(
        resolve_within_root("/vault", "asset://localhost/%2Fetc%2Fpasswd"),
        Err(VaultError::SecurityRejected)
    );
    assert_eq!(
        resolve_within_root("/vault", "asset:///vault/../etc/passwd"),
        Err(VaultError::SecurityRejected)
    );
    assert_eq!(
        resolve_within_root("/vault", "asset:///vault2/a.png"),
        Err(VaultError::SecurityRejected)
    );
    assert_eq!(resolve_within_root("/vault", "asset:///vault"), Err(VaultError::SecurityRejected));
    assert_eq!(resolve_within_root("/vault", "asset://%FF"), Err(VaultError::DecodeError));
}

#[test]
fn within_root_checks_segments() {
    assert!(is_within_root("/v", "/v/a..b/c"));
    assert!(is_within_root("C:\\v", "C:\\v\\a.png"));
    assert!(!is_within_root("/v", "/v/a/.."));
    assert!(!is_within_root("/v", "/v\\..\\x"));
    assert!(!is_within_root("", "/v/a"));
}
