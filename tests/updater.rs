use savemyeyes::updater::{
    check_for_update, decide_release, extract_asset_download_url, extract_json_string, version_newer,
    FetchOutcome, UpdateResult, APP_VERSION,
};

const RELEASE: &str = r#"{
  "tag_name": "v0.9.5",
  "html_url": "https://github.com/KDSPL/savemyeyes/releases/tag/v0.9.5",
  "assets": [
    { "name": "a.dmg", "browser_download_url" : "https://example.com/savemyeyes-0.9.5.dmg" },
    { "name": "a.exe", "browser_download_url": "https://example.com/savemyeyes-0.9.5.exe" }
  ]
}"#;

#[test]
fn extracts_string_field() {
    assert_eq!(extract_json_string(RELEASE, "tag_name"), Some("v0.9.5".to_string()));
    assert_eq!(extract_json_string(r#"{"a" :   "b c"}"#, "a"), Some("b c".to_string()));
}

#[test]
fn missing_or_non_string_field() {
    assert_eq!(extract_json_string(RELEASE, "body"), None);
    assert_eq!(extract_json_string(r#"{"n": 5}"#, "n"), None);
    assert_eq!(extract_json_string(r#"{"n" 5}"#, "n"), None);
    assert_eq!(extract_json_string(r#"{"n": "open"#, "n"), None);
}

#[test]
fn extracts_asset_with_suffix() {
    assert_eq!(
        extract_asset_download_url(RELEASE, ".exe"),
        Some("https://example.com/savemyeyes-0.9.5.exe".to_string())
    );
    assert_eq!(
        extract_asset_download_url(RELEASE, ".dmg"),
        Some("https://example.com/savemyeyes-0.9.5.dmg".to_string())
    );
    assert_eq!(extract_asset_download_url(RELEASE, ".zip"), None);
}

#[test]
fn asset_search_gives_up_on_unquoted_marker() {
    let json = r#"{"browser_download_url_x": "a.exe", "browser_download_url": "b.exe"}"#;
    assert_eq!(extract_asset_download_url(json, ".exe"), None);
}

#[test]
fn compares_versions() {
    assert!(version_newer("0.9.5", "0.9.2"));
    assert!(version_newer("1.0", "0.9.9"));
    assert!(version_newer("0.10.0", "0.9.0"));
    assert!(!version_newer("0.9.2", "0.9.2"));
    assert!(!version_newer("0.9", "0.9.0"));
    assert!(!version_newer("0.9.1", "0.9.2"));
    assert!(version_newer("0.9.0.1", "0.9"));
    assert!(!version_newer("abc", "0.0.1"));
    assert!(version_newer("+2", "1"));
    assert!(!version_newer("99999999999", "1"));
}

#[test]
fn newer_release_is_an_update() {
    match decide_release(RELEASE, "0.9.2", ".exe") {
        UpdateResult::UpdateAvailable { version, url, download_url } => {
            assert_eq!(version, "0.9.5");
            assert_eq!(url, "https://github.com/KDSPL/savemyeyes/releases/tag/v0.9.5");
            assert_eq!(download_url, "https://example.com/savemyeyes-0.9.5.exe");
        }
        other => panic!("unexpected {:?}", other),
    }
}

#[test]
fn same_release_is_no_update() {
    assert!(matches!(decide_release(RELEASE, "0.9.5", ".exe"), UpdateResult::NoUpdate));
}

#[test]
fn missing_asset_uses_conventional_address() {
    let json = r#"{"tag_name": "v1.0.0"}"#;
    match decide_release(json, APP_VERSION, ".exe") {
        UpdateResult::UpdateAvailable { version, url, download_url } => {
            assert_eq!(version, "1.0.0");
            assert_eq!(url, "https://github.com/KDSPL/savemyeyes/releases");
            assert_eq!(download_url, "https://github.com/KDSPL/savemyeyes/releases/download/v1.0.0/savemyeyes.exe");
        }
        other => panic!("unexpected {:?}", other),
    }
}

#[test]
fn release_without_tag_is_no_update() {
    assert!(matches!(decide_release("{}", "0.1.0", ".exe"), UpdateResult::NoUpdate));
    assert!(matches!(decide_release(r#"{"tag_name": "vvv"}"#, "0.1.0", ".exe"), UpdateResult::NoUpdate));
}

#[test]
fn unreachable_feed_is_no_update() {
    let o = FetchOutcome::RequestFailed("https://api.github.com: status code 404".to_string());
    assert!(matches!(check_for_update(&o, "0.9.2", ".exe"), UpdateResult::NoUpdate));
    let o = FetchOutcome::RequestFailed("Dns Failed: cannot connect".to_string());
    assert!(matches!(check_for_update(&o, "0.9.2", ".exe"), UpdateResult::NoUpdate));
}

#[test]
fn other_failures_are_errors() {
    let o = FetchOutcome::RequestFailed("status code 500".to_string());
    match check_for_update(&o, "0.9.2", ".exe") {
        UpdateResult::Error(m) => assert_eq!(m, "Request failed: status code 500"),
        other => panic!("unexpected {:?}", other),
    }
    let o = FetchOutcome::ReadFailed("truncated".to_string());
    match check_for_update(&o, "0.9.2", ".exe") {
        UpdateResult::Error(m) => assert_eq!(m, "Failed to read response: truncated"),
        other => panic!("unexpected {:?}", other),
    }
}

#[test]
fn fetched_body_is_decided() {
    let o = FetchOutcome::Body(RELEASE.to_string());
    assert!(matches!(check_for_update(&o, "0.9.2", ".dmg"), UpdateResult::UpdateAvailable { .. }));
}

#[test]
fn exe_asset_address() {
    assert_eq!(
        savemyeyes::updater::extract_exe_download_url(RELEASE),
        Some("https://example.com/savemyeyes-0.9.5.exe".to_string())
    );
}
