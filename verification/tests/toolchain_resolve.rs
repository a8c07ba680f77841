use laminaria_run::toolchain_resolve::{
    resolve_verified_nim, resolve_verified_rust, selector_matches_resolved, NimToolchainFacts, RustToolchainFacts,
    ToolchainResolutionError,
};

#[test]
fn selector_matches_resolved_rejects_a_string_prefix_that_is_not_a_real_version_match() {
    assert!(!selector_matches_resolved("2.2.1", Some("2.2.10"), None));
}

#[test]
fn selector_matches_resolved_accepts_an_exact_full_version_match() {
    assert!(selector_matches_resolved("2.2.10", Some("2.2.10"), None));
}

#[test]
fn selector_matches_resolved_accepts_a_partial_major_minor_selector() {
    assert!(selector_matches_resolved("2.2", Some("2.2.10"), None));
}

#[test]
fn selector_matches_resolved_rejects_a_completely_different_version() {
    assert!(!selector_matches_resolved("999.0.0", Some("2.2.10"), None));
}

#[test]
fn selector_matches_resolved_accepts_a_channel_name_that_matches_the_resolved_channel() {
    assert!(selector_matches_resolved("stable", Some("1.97.1"), Some("stable")));
}

#[test]
fn selector_matches_resolved_rejects_a_channel_name_that_does_not_match_the_resolved_channel() {
    assert!(!selector_matches_resolved("nightly", Some("1.97.1"), Some("stable")));
}

#[test]
fn selector_matches_resolved_rejects_an_unverifiable_dated_selector() {
    assert!(!selector_matches_resolved("nightly-2024-01-15", Some("1.97.1"), Some("nightly")));
}

#[test]
fn selector_matches_resolved_rejects_any_non_numeric_selector_when_there_is_no_channel_to_check_against() {
    assert!(!selector_matches_resolved("devel", Some("2.2.10"), None));
}

#[test]
fn selector_matches_resolved_always_matches_an_empty_selector() {
    assert!(selector_matches_resolved("", Some("anything"), None));
}

#[test]
fn selector_matches_resolved_rejects_a_numeric_selector_with_no_resolved_version() {
    assert!(!selector_matches_resolved("2.2.10", None, None));
}

#[test]
fn a_longer_selector_than_the_resolved_version_is_refused() {
    assert!(!selector_matches_resolved("2.2.10.1", Some("2.2.10"), None));
    assert!(selector_matches_resolved("2", Some("2.0.0"), None));
    assert!(!selector_matches_resolved("2.", Some("2.0"), None));
}

fn rust(cargo: Option<&str>, rustc: Option<&str>, selector: Option<&str>, version: Option<&str>, channel: Option<&str>) -> RustToolchainFacts {
    RustToolchainFacts {
        logical_name: "main".to_string(),
        cargo: cargo.map(str::to_string),
        rustc: rustc.map(str::to_string),
        requested_selector: selector.map(str::to_string),
        resolved_version: version.map(str::to_string),
        channel: channel.map(str::to_string),
    }
}

#[test]
fn rust_resolution_refuses_missing_toolchains_executables_and_unverified_selectors() {
    assert_eq!(resolve_verified_rust(&vec![]), Err(ToolchainResolutionError::RustToolchainMissing));
    let no_cargo = resolve_verified_rust(&vec![rust(None, Some("/r"), None, None, None)]).unwrap_err();
    assert_eq!(
        no_cargo.message(),
        "Rust toolchain 'main' has no resolved cargo executable (see its own resolution notes from `laminaria doctor`)"
    );
    let wrong = resolve_verified_rust(&vec![rust(Some("/c"), Some("/r"), Some("nightly"), Some("1.80.0"), Some("stable"))]);
    assert_eq!(
        wrong,
        Err(ToolchainResolutionError::RustUnverifiedSelector {
            selector: "nightly".to_string(),
            resolved_version: Some("1.80.0".to_string()),
            resolved_channel: Some("stable".to_string()),
        })
    );
    assert_eq!(
        wrong.unwrap_err().message(),
        "Rust toolchain requested selector 'nightly' but resolved version is Some(\"1.80.0\") (channel Some(\"stable\")) -- refusing to build with a toolchain that does not match, or cannot be verified against, what the lock file actually pinned"
    );
    assert_eq!(
        resolve_verified_rust(&vec![rust(Some("/c"), Some("/r"), None, None, None)]),
        Ok(("/c".to_string(), "/r".to_string()))
    );
}

#[test]
fn nim_resolution_has_no_channel_to_match() {
    let t = NimToolchainFacts {
        logical_name: "nim".to_string(),
        nim: Some("/bin/nim".to_string()),
        requested_selector: Some("stable".to_string()),
        resolved_version: Some("2.2.4".to_string()),
    };
    assert!(matches!(resolve_verified_nim(&vec![t.clone()]), Err(ToolchainResolutionError::NimUnverifiedSelector { .. })));
    let ok = NimToolchainFacts { requested_selector: Some("2.2".to_string()), ..t };
    assert_eq!(resolve_verified_nim(&vec![ok]), Ok("/bin/nim".to_string()));
    assert_eq!(resolve_verified_nim(&vec![]), Err(ToolchainResolutionError::NimToolchainMissing));
    assert_eq!(
        ToolchainResolutionError::NimUnverifiedSelector { selector: "x".to_string(), resolved_version: None }.message(),
        "Nim toolchain requested selector 'x' but resolved version is None -- refusing to build with a toolchain that does not match, or cannot be verified against, what the lock file actually pinned"
    );
}
