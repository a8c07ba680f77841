use laminaria_run::self_build::{
    action_detail, cargo_build_root, integrate_outcome, integration_plan, nim_build_root, resolve_verified_toolchain,
    SelfBuildError, VerifiedToolchain,
};
use laminaria_run::toolchain_resolve::{NimToolchainFacts, RustToolchainFacts};

fn rust(name: &str, cargo: Option<&str>) -> RustToolchainFacts {
    RustToolchainFacts {
        logical_name: name.to_string(),
        cargo: cargo.map(str::to_string),
        rustc: Some("/r/rustc".to_string()),
        requested_selector: None,
        resolved_version: None,
        channel: None,
    }
}

fn nim(name: &str, path: Option<&str>) -> NimToolchainFacts {
    NimToolchainFacts {
        logical_name: name.to_string(),
        nim: path.map(str::to_string),
        requested_selector: None,
        resolved_version: None,
    }
}

fn unresolved(r: Result<VerifiedToolchain, SelfBuildError>) -> String {
    match r {
        Err(SelfBuildError::ToolchainUnresolved(m)) => m,
        other => panic!("expected an unresolved toolchain, got {other:?}"),
    }
}

#[test]
fn a_verified_toolchain_needs_a_loaded_lock_and_both_executables() {
    let ok = resolve_verified_toolchain("t.lock", None, &vec![rust("stable", Some("/r/cargo"))], &vec![nim("n", Some("/n/nim"))]);
    assert_eq!(ok, Ok(VerifiedToolchain { cargo: "/r/cargo".to_string(), nim: "/n/nim".to_string() }));
    assert_eq!(
        unresolved(resolve_verified_toolchain("t.lock", Some("NotFound"), &vec![], &vec![])),
        "failed to load toolchain lock file t.lock: NotFound"
    );
    assert_eq!(
        unresolved(resolve_verified_toolchain("t.lock", None, &vec![], &vec![nim("n", Some("/n/nim"))])),
        "toolchain lock file t.lock declares no Rust toolchain"
    );
    assert_eq!(
        unresolved(resolve_verified_toolchain("t.lock", None, &vec![rust("s", Some("/c"))], &vec![])),
        "toolchain lock file t.lock declares no Nim toolchain"
    );
    assert_eq!(
        unresolved(resolve_verified_toolchain("t.lock", None, &vec![rust("stable", None)], &vec![nim("n", Some("/n"))])),
        "Rust toolchain 'stable' has no resolved cargo executable (see its own resolution notes from `laminaria doctor`)"
    );
    assert_eq!(
        unresolved(resolve_verified_toolchain("t.lock", None, &vec![rust("s", Some("/c"))], &vec![nim("nimx", None)])),
        "Nim toolchain 'nimx' has no resolved nim executable (see its own resolution notes from `laminaria doctor`)"
    );
}

#[test]
fn the_generation_builds_into_its_own_staging_area() {
    let nim_root = nim_build_root("/repo", "/gen", "/n/nim", false);
    assert_eq!(nim_root.program, "/n/nim");
    assert_eq!(
        nim_root.args,
        vec![
            "c",
            "--path:src",
            "--nimcache:/gen/.build/nimcache",
            "-o:/gen/.build/nim-out/laminaria-planner",
            "src/laminaria_planner.nim"
        ]
    );
    assert_eq!(nim_root.cwd, Some("/repo/nim-planner".to_string()));
    let cargo_root = cargo_build_root("/repo", "/gen", "/r/cargo");
    assert_eq!(
        cargo_root.args,
        vec!["build", "--workspace", "--release", "--target-dir", "/gen/.build/cargo-target"]
    );
    assert_eq!(cargo_root.cwd, Some("/repo".to_string()));
}

#[test]
fn integration_copies_the_planner_then_every_host_binary() {
    let plan = integration_plan("/gen", false);
    let expect: Vec<(String, String)> = vec![
        ("/gen/.build/nim-out/laminaria-planner", "/gen/laminaria-planner"),
        ("/gen/.build/cargo-target/release/laminaria", "/gen/laminaria"),
        ("/gen/.build/cargo-target/release/laminaria-rustc-wrapper", "/gen/laminaria-rustc-wrapper"),
        ("/gen/.build/cargo-target/release/laminaria-cc-wrapper", "/gen/laminaria-cc-wrapper"),
    ]
    .into_iter()
    .map(|(a, b)| (a.to_string(), b.to_string()))
    .collect();
    assert_eq!(plan, expect);
    assert_eq!(integration_plan("/g", true)[0].1, "/g/laminaria-planner.exe");
}

#[test]
fn integration_outcomes_name_what_was_missing() {
    assert_eq!(
        integrate_outcome("/gen", &vec![]),
        (true, "integrate: assembled generation root at /gen".to_string())
    );
    assert_eq!(
        integrate_outcome("/gen", &vec!["/a".to_string(), "/b".to_string()]),
        (false, "integrate: expected upstream action output(s) not found: /a, /b".to_string())
    );
    assert_eq!(action_detail("compile", "r1", true), "action 'compile' completed successfully (run r1)");
    assert_eq!(action_detail("compile", "r2", false), "action 'compile' failed (see run r2)");
}

#[test]
fn self_build_errors_read_as_their_messages() {
    assert_eq!(SelfBuildError::Planner("x".to_string()).message(), "failed to call the Nim planner: x");
    assert_eq!(
        SelfBuildError::Rejected { reason_kind: "K".to_string(), reason_detail: "d".to_string() }.message(),
        "the Nim planner rejected this self-build's PlanningInput (K): d"
    );
    assert_eq!(
        SelfBuildError::InvalidPlan("v".to_string()).message(),
        "the Nim planner's ExecutionPlan failed Rust-side validation: v"
    );
    assert_eq!(
        SelfBuildError::ToolchainUnresolved("t".to_string()).message(),
        "could not resolve a verified Rust and Nim toolchain before executing: t"
    );
    assert_eq!(
        SelfBuildError::ActionFailed { action_id: "a".to_string(), detail: "d".to_string() }.message(),
        "self-build action 'a' failed: d"
    );
    assert_eq!(SelfBuildError::Io("e".to_string()).message(), "I/O error during self-build: e");
}
