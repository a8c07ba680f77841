use laminaria_run::reuse::{
    combined_source_digest, decide_reuse, reuse_schema_version, short_digest, ArtifactIdentityKey, ReuseDecision,
};
use sha2::{Digest, Sha256};

fn key(source_digest: &str, toolchain: Option<&str>, command: &str, target: Option<&str>) -> ArtifactIdentityKey {
    ArtifactIdentityKey {
        schema_version: reuse_schema_version(),
        source_digest_sha256: source_digest.to_string(),
        toolchain_digest_sha256: toolchain.map(str::to_string),
        command_identity: command.to_string(),
        target_identity: target.map(str::to_string),
    }
}

#[test]
fn identical_keys_are_reusable() {
    let a = key("abc", Some("tc1"), "cargo build", Some("x86_64"));
    let b = key("abc", Some("tc1"), "cargo build", Some("x86_64"));
    assert!(matches!(decide_reuse(&a, &b), ReuseDecision::Reusable));
}

#[test]
fn a_source_change_is_explained_as_such() {
    let a = key("abc", Some("tc1"), "cargo build", Some("x86_64"));
    let b = key("xyz", Some("tc1"), "cargo build", Some("x86_64"));
    match decide_reuse(&a, &b) {
        ReuseDecision::MustRebuild { reasons } => {
            assert_eq!(reasons.len(), 1);
            assert!(reasons[0].contains("source content digest differs"));
        }
        ReuseDecision::Reusable => panic!("expected MustRebuild"),
    }
}

#[test]
fn an_unresolved_toolchain_fails_closed_even_if_everything_else_matches() {
    let a = key("abc", None, "cargo build", Some("x86_64"));
    let b = key("abc", None, "cargo build", Some("x86_64"));
    match decide_reuse(&a, &b) {
        ReuseDecision::MustRebuild { reasons } => {
            assert!(reasons.iter().any(|r| r.contains("toolchain digest")));
        }
        ReuseDecision::Reusable => panic!("an unresolved toolchain must never be treated as a compatibility match"),
    }
}

#[test]
fn multiple_differences_are_all_named_not_just_the_first() {
    let a = key("abc", Some("tc1"), "cargo build", Some("x86_64"));
    let b = key("xyz", Some("tc2"), "cargo check", Some("aarch64"));
    match decide_reuse(&a, &b) {
        ReuseDecision::MustRebuild { reasons } => assert_eq!(reasons.len(), 4),
        ReuseDecision::Reusable => panic!("expected MustRebuild"),
    }
}

#[test]
fn rebuild_reasons_quote_each_side() {
    let a = key("0123456789abcdef", Some("tc1"), "cargo build", None);
    let b = key("fedcba9876543210", None, "cargo check", Some("x"));
    assert_eq!(
        decide_reuse(&a, &b),
        ReuseDecision::MustRebuild {
            reasons: vec![
                "source content digest differs (0123456789ab -> fedcba987654)".to_string(),
                "toolchain digest differs or unresolved (Some(\"tc1\") -> None)".to_string(),
                "command identity differs (\"cargo build\" -> \"cargo check\")".to_string(),
                "target identity differs (None -> Some(\"x\"))".to_string(),
            ]
        }
    );
}

#[test]
fn short_digest_keeps_at_most_twelve_characters() {
    assert_eq!(short_digest("abc"), "abc");
    assert_eq!(short_digest("0123456789abcdef"), "0123456789ab");
    assert_eq!(short_digest("ééééééééééééé"), "éééééééééééé");
}

#[test]
fn the_combined_digest_covers_every_path_and_content() {
    let files = vec![
        ("/src/a.rs".to_string(), b"fn a() {}".to_vec()),
        ("/src/b.rs".to_string(), b"fn b() {}".to_vec()),
    ];
    let mut expected = Sha256::new();
    for (path, contents) in &files {
        expected.update(path.as_bytes());
        expected.update(b"\0");
        let mut h = Sha256::new();
        h.update(contents);
        expected.update(format!("{:x}", h.finalize()).as_bytes());
        expected.update(b"\n");
    }
    let expected = format!("{:x}", expected.finalize());
    assert_eq!(combined_source_digest(&files), expected);
    assert_eq!(expected.len(), 64);

    let edited = vec![
        ("/src/a.rs".to_string(), b"fn a() {}".to_vec()),
        ("/src/b.rs".to_string(), b"fn b() { }".to_vec()),
    ];
    assert_ne!(combined_source_digest(&edited), combined_source_digest(&files));
    assert_eq!(
        combined_source_digest(&vec![]),
        "e3b0c44298fc1c149afbf4c8996fb92427ae41e4649b934ca495991b7852b855"
    );
}

use laminaria_run::reuse::{
    compute_identity_key, toolchain_identity_from_run, NimToolchainRecord, RustToolchainRecord, ToolRecord,
};

fn tool(path: &str, digest: &str) -> ToolRecord {
    ToolRecord { path: Some(path.to_string()), digest_sha256: Some(digest.to_string()) }
}

#[test]
fn the_wrapped_rustc_picks_its_own_toolchain_not_the_first_declared() {
    let rust = vec![
        RustToolchainRecord { rustc: tool("/a/rustc", "aaa"), host_triple: Some("x86_64-a".to_string()) },
        RustToolchainRecord { rustc: tool("/b/rustc", "bbb"), host_triple: Some("x86_64-b".to_string()) },
    ];
    let nim: Vec<NimToolchainRecord> = vec![];
    let (d, t) = toolchain_identity_from_run(Some((&rust, &nim)), None, Some("/b/rustc"), false);
    assert_eq!(d, Some("bbb".to_string()));
    assert_eq!(t, Some("x86_64-b".to_string()));
    // Path equality is by components.
    let (d, _) = toolchain_identity_from_run(Some((&rust, &nim)), None, Some("/b//rustc"), false);
    assert_eq!(d, Some("bbb".to_string()));
    assert_eq!(toolchain_identity_from_run(Some((&rust, &nim)), None, Some("/c/rustc"), false), (None, None));
    assert_eq!(toolchain_identity_from_run(Some((&rust, &nim)), None, None, false), (None, None));
    assert_eq!(toolchain_identity_from_run(None, None, Some("/a/rustc"), false), (None, None));
}

#[test]
fn the_root_nim_executable_picks_its_toolchain_and_target() {
    let rust: Vec<RustToolchainRecord> = vec![];
    let nim = vec![
        NimToolchainRecord { nim: tool("/n1/nim", "n1"), target_os: Some("linux".to_string()), target_cpu: None },
        NimToolchainRecord {
            nim: ToolRecord { path: None, digest_sha256: Some("unplaced".to_string()) },
            target_os: None,
            target_cpu: None,
        },
    ];
    let (d, t) = toolchain_identity_from_run(Some((&rust, &nim)), Some("/n1/nim"), None, true);
    assert_eq!(d, Some("n1".to_string()));
    assert_eq!(t, Some("linux/?".to_string()));
    assert_eq!(toolchain_identity_from_run(Some((&rust, &nim)), None, None, true), (None, None));
    assert_eq!(toolchain_identity_from_run(Some((&rust, &nim)), Some("/x/nim"), None, true), (None, None));
}

#[test]
fn an_identity_key_carries_the_current_schema_and_its_parts() {
    let key = compute_identity_key("cargo build", "abc".to_string(), (Some("d".to_string()), None));
    assert_eq!(key.schema_version, "0.1.0");
    assert_eq!(key.source_digest_sha256, "abc");
    assert_eq!(key.toolchain_digest_sha256, Some("d".to_string()));
    assert_eq!(key.command_identity, "cargo build");
    assert_eq!(key.target_identity, None);
}

#[test]
fn toolchain_identity_fails_closed_when_the_actually_used_rustc_matches_no_declared_toolchain() {
    let rust = vec![RustToolchainRecord { rustc: tool("/opt/a/bin/rustc", "digest-a"), host_triple: None }];
    let nim: Vec<NimToolchainRecord> = vec![];
    let (digest, _) = toolchain_identity_from_run(Some((&rust, &nim)), None, Some("/usr/local/bin/rustc"), false);
    assert_eq!(digest, None);
}

#[test]
fn bytes_render_as_two_lowercase_hex_digits_each() {
    assert_eq!(laminaria_run::reuse::hex_of(&[0x0f, 0xa0, 0x00, 0xff]), "0fa000ff");
    assert_eq!(laminaria_run::reuse::hex_of(&[]), "");
}
