use laminaria_run::project_build::{project_action_setup, ProjectActionKind, ResolvedProjectToolchains};
use laminaria_run::project_build::{resolve_project_toolchains, ProjectRequirements};
use laminaria_run::toolchain_resolve::{NimToolchainFacts, RustToolchainFacts};
use laminaria_run::cargo_telemetry::{CargoCompilerTelemetry, CompilerArtifactRecord};
use laminaria_run::project_build::cargo_artifacts_from_telemetry;
use laminaria_run::toolchain_resolve::ToolchainResolutionError;
use laminaria_run::project_build::{
    binary_name, cargo_project_build_root, cargo_target_dir, determine_project_requirements, nim_cache_dir,
    nim_entry_candidates, nim_output_dir, prepend_to_path, Capability, ProjectBuildError,
};

#[test]
fn determine_project_requirements_infers_rust_only_from_a_pure_rust_fixture() {
    // The rust-heavy fixture holds a Cargo.toml and no Nim entry point.
    let req = determine_project_requirements("/repo/fixtures/rust-heavy-workspace", None, true, None).unwrap();
    assert!(req.rust);
    assert!(!req.nim);
    assert!(req.nim_entry.is_none());
}

#[test]
fn determine_project_requirements_infers_nim_only_from_a_pure_nim_fixture() {
    let req = determine_project_requirements("/p", None, false, Some("src/fixture.nim".to_string())).unwrap();
    assert!(!req.rust);
    assert!(req.nim);
    assert_eq!(req.nim_entry, Some("src/fixture.nim".to_string()));
}

#[test]
fn coexistence_without_a_designation_asks_for_one() {
    assert_eq!(
        determine_project_requirements("/p", None, true, Some("x.nim".to_string())),
        Err(ProjectBuildError::AmbiguousProject { cargo_toml: "/p/Cargo.toml".to_string(), nim_entry: "x.nim".to_string() })
    );
    assert_eq!(
        determine_project_requirements("/p", None, false, None),
        Err(ProjectBuildError::NoBuildableSources(
            "no Cargo.toml and no resolvable Nim entry point under /p".to_string()
        ))
    );
}

#[test]
fn an_explicit_requirement_is_authoritative() {
    let req = determine_project_requirements("/p", Some(&[Capability::Rust]), true, Some("x.nim".to_string())).unwrap();
    assert!(req.rust && !req.nim && req.nim_entry.is_none());
    let req = determine_project_requirements("/p", Some(&[Capability::Rust, Capability::Nim]), true, None).unwrap();
    assert!(req.rust && req.nim && req.nim_entry.is_none());
    assert!(matches!(
        determine_project_requirements("/p", Some(&[]), true, None),
        Err(ProjectBuildError::NoBuildableSources(_))
    ));
    assert!(matches!(
        determine_project_requirements("/p", Some(&[Capability::Nim]), false, None),
        Err(ProjectBuildError::NoBuildableSources(m)) if m.contains("no Nim entry point could be resolved under /p")
    ));
}

#[test]
fn a_single_nimble_stem_gives_two_candidates_in_order() {
    assert_eq!(
        nim_entry_candidates(&vec!["fixture".to_string()]),
        vec!["src/fixture.nim".to_string(), "fixture.nim".to_string()]
    );
    assert!(nim_entry_candidates(&vec![]).is_empty());
    assert!(nim_entry_candidates(&vec!["a".to_string(), "b".to_string()]).is_empty());
}

#[test]
fn staging_layout_and_path_helpers() {
    assert_eq!(cargo_target_dir("/g"), "/g/.build/cargo-target");
    assert_eq!(nim_cache_dir("/g/"), "/g/.build/nimcache");
    assert_eq!(nim_output_dir("g"), "g/.build/nim-out");
    assert_eq!(binary_name("app", false), "app");
    assert_eq!(binary_name("app", true), "app.exe");
    assert_eq!(prepend_to_path("/nim/bin", Some("/usr/bin"), false), "/nim/bin:/usr/bin");
    assert_eq!(prepend_to_path("C:\\nim", Some("C:\\x"), true), "C:\\nim;C:\\x");
    assert_eq!(prepend_to_path("/nim/bin", Some(""), false), "/nim/bin");
    assert_eq!(prepend_to_path("/nim/bin", None, false), "/nim/bin");
}

#[test]
fn the_cargo_root_command_pins_rustc_and_the_target_dir() {
    let cmd = cargo_project_build_root("/p", "/g", "/tc/cargo", "/tc/rustc", Some("/nim/bin"), Some("/usr/bin"), false);
    assert_eq!(cmd.program, "/tc/cargo");
    assert_eq!(cmd.args, vec!["build", "--release", "--target-dir", "/g/.build/cargo-target"]);
    assert_eq!(cmd.cwd, Some("/p".to_string()));
    assert_eq!(
        cmd.env_overrides,
        vec![
            ("PATH".to_string(), "/nim/bin:/usr/bin".to_string()),
            ("RUSTC".to_string(), "/tc/rustc".to_string()),
        ]
    );
}

#[test]
fn a_nim_build_compiles_the_entry_into_the_generation_staging_area() {
    let root = laminaria_run::project_build::nim_project_build_root(
        "/proj", "/gen", "/tools/nim", "src/app.nim", false,
    );
    assert_eq!(root.program, "/tools/nim");
    assert_eq!(
        root.args,
        vec![
            "c".to_string(),
            "--nimcache:/gen/.build/nimcache".to_string(),
            "-o:/gen/.build/nim-out/app".to_string(),
            "src/app.nim".to_string(),
        ]
    );
    assert_eq!(root.cwd, Some("/proj".to_string()));
    assert!(root.env_overrides.is_empty());
    let win = laminaria_run::project_build::nim_project_build_root("/p", "/g", "nim", "main.nim", true);
    assert_eq!(win.args[2], "-o:/g/.build/nim-out/main.exe");
}

#[test]
fn cargo_artifacts_are_every_file_name_then_every_executable() {
    let lib = CompilerArtifactRecord {
        package_id: "p".to_string(),
        target_name: "core".to_string(),
        target_kind: vec!["lib".to_string()],
        filenames: vec!["/t/libcore.rlib".to_string(), "/t/libcore.rmeta".to_string()],
        executable: None,
        fresh: false,
    };
    let bin = CompilerArtifactRecord {
        package_id: "p".to_string(),
        target_name: "app".to_string(),
        target_kind: vec!["bin".to_string()],
        filenames: vec!["/t/app".to_string()],
        executable: Some("/t/app".to_string()),
        fresh: true,
    };
    let t = CargoCompilerTelemetry {
        artifacts: vec![lib, bin],
        build_finished_success: Some(true),
        compiler_message_count: 0,
        build_script_executed_count: 0,
        unparsed_line_count: 0,
    };
    assert_eq!(
        cargo_artifacts_from_telemetry(Some(&t)),
        vec!["/t/libcore.rlib", "/t/libcore.rmeta", "/t/app", "/t/app"]
    );
    assert!(cargo_artifacts_from_telemetry(None).is_empty());
}

#[test]
fn project_build_errors_read_as_their_messages() {
    assert_eq!(ProjectBuildError::NoBuildableSources("nothing".to_string()).message(), "nothing");
    assert_eq!(
        ProjectBuildError::AmbiguousProject { cargo_toml: "/p/Cargo.toml".to_string(), nim_entry: "src/p.nim".to_string() }
            .message(),
        "found both /p/Cargo.toml and a resolvable Nim entry point (src/p.nim) with no explicit --requires given; \
         file coexistence alone does not imply a dependency between them -- pass --requires rust|nim|rust,nim to \
         say what this build should actually target"
    );
    assert_eq!(
        ProjectBuildError::Toolchain(ToolchainResolutionError::RustToolchainMissing).message(),
        "toolchain lock file declares no Rust toolchain"
    );
    assert_eq!(ProjectBuildError::Planner("gone".to_string()).message(), "failed to call the Nim planner: gone");
    assert_eq!(
        ProjectBuildError::Rejected { reason_kind: "Unsupported".to_string(), reason_detail: "why".to_string() }.message(),
        "the Nim planner rejected this project's PlanningInput (Unsupported): why"
    );
    assert_eq!(
        ProjectBuildError::InvalidPlan("bad".to_string()).message(),
        "the Nim planner's ExecutionPlan failed Rust-side validation: bad"
    );
    assert_eq!(
        ProjectBuildError::ActionFailed { action_id: "a".to_string(), detail: "d".to_string() }.message(),
        "project-build action 'a' failed: d"
    );
    assert_eq!(ProjectBuildError::Io("e".to_string()).message(), "I/O error during project build: e");
}

#[test]
fn only_the_needed_toolchain_families_are_resolved() {
    let rust = vec![RustToolchainFacts {
        logical_name: "stable".to_string(),
        cargo: Some("/r/cargo".to_string()),
        rustc: Some("/r/rustc".to_string()),
        requested_selector: None,
        resolved_version: Some("1.80.0".to_string()),
        channel: Some("stable".to_string()),
    }];
    let nim: Vec<NimToolchainFacts> = vec![];
    let rust_only = ProjectRequirements { rust: true, nim: false, nim_entry: None };
    let t = resolve_project_toolchains(&rust_only, &rust, &nim).unwrap();
    assert_eq!(t.rust, Some(("/r/cargo".to_string(), "/r/rustc".to_string())));
    assert_eq!(t.nim, None);
    let both = ProjectRequirements { rust: true, nim: true, nim_entry: Some("src/a.nim".to_string()) };
    assert_eq!(
        resolve_project_toolchains(&both, &rust, &nim),
        Err(ProjectBuildError::Toolchain(ToolchainResolutionError::NimToolchainMissing))
    );
    let nim_only = ProjectRequirements { rust: false, nim: true, nim_entry: None };
    assert_eq!(
        resolve_project_toolchains(&nim_only, &vec![], &nim),
        Err(ProjectBuildError::Toolchain(ToolchainResolutionError::NimToolchainMissing))
    );
}

#[test]
fn each_project_action_gets_its_command_observation_roots_and_known_outputs() {
    let both = ResolvedProjectToolchains {
        rust: Some(("/r/cargo".to_string(), "/r/rustc".to_string())),
        nim: Some("/n/bin/nim".to_string()),
    };
    // Nim needed only on hand: the lone Cargo build gets nim's directory on PATH.
    let on_hand = ProjectRequirements { rust: true, nim: true, nim_entry: None };
    let (root, observed, produced) =
        project_action_setup(ProjectActionKind::CargoBuild, "/p", "/g", &on_hand, &both, Some("/usr/bin"), false);
    assert_eq!(root.program, "/r/cargo");
    assert_eq!(
        root.env_overrides,
        vec![("PATH".to_string(), "/n/bin:/usr/bin".to_string()), ("RUSTC".to_string(), "/r/rustc".to_string())]
    );
    assert_eq!(observed, vec!["/g/.build/cargo-target"]);
    assert!(produced.is_empty());
    // Two producers: no PATH change for Cargo.
    let two = ProjectRequirements { rust: true, nim: true, nim_entry: Some("src/tool.nim".to_string()) };
    let (root, _, _) = project_action_setup(ProjectActionKind::CargoBuild, "/p", "/g", &two, &both, Some("/usr/bin"), false);
    assert_eq!(root.env_overrides, vec![("RUSTC".to_string(), "/r/rustc".to_string())]);
    let (root, observed, produced) =
        project_action_setup(ProjectActionKind::NimBuild, "/p", "/g", &two, &both, None, false);
    assert_eq!(root.program, "/n/bin/nim");
    assert_eq!(observed, vec!["/g/.build/nim-out"]);
    assert_eq!(produced, vec!["/g/.build/nim-out/tool"]);
}

#[test]
fn determine_project_requirements_honors_an_explicit_mixed_request_with_a_real_nim_entry() {
    // Cargo.toml, a .nimble file and src/thing.nim side by side.
    let req = determine_project_requirements(
        "/p",
        Some(&[Capability::Rust, Capability::Nim]),
        true,
        Some("src/thing.nim".to_string()),
    )
    .unwrap();
    assert!(req.rust);
    assert!(req.nim);
    assert_eq!(req.nim_entry, Some("src/thing.nim".to_string()));
}

#[test]
fn determine_project_requirements_rejects_a_project_with_neither_language() {
    let result = determine_project_requirements("/tmp/empty", None, false, None);
    assert!(matches!(result, Err(ProjectBuildError::NoBuildableSources(_))));
}

#[test]
fn determine_project_requirements_rejects_an_explicit_nim_request_with_no_resolvable_entry() {
    let result = determine_project_requirements("/tmp/nim-requested-no-entry", Some(&[Capability::Nim]), false, None);
    match result {
        Err(ProjectBuildError::NoBuildableSources(detail)) => {
            assert!(detail.contains("nim"), "detail should mention nim: {detail}");
        }
        other => panic!("expected NoBuildableSources, got {other:?}"),
    }
}

use laminaria_run::project_build::{after_project_action, reported_artifacts};

#[test]
fn a_generation_stops_at_the_first_failed_action_and_reports_only_usable_artifacts() {
    assert_eq!(after_project_action("cargo-build", true, "ok"), Ok(()));
    assert_eq!(
        after_project_action("nim-build", false, "action 'nim-build' failed (see run r1)"),
        Err(ProjectBuildError::ActionFailed {
            action_id: "nim-build".to_string(),
            detail: "action 'nim-build' failed (see run r1)".to_string()
        })
    );
    let known = vec!["/g/nim/out/app".to_string()];
    assert_eq!(reported_artifacts(false, vec!["x".to_string()], known.clone()), Vec::<String>::new());
    assert_eq!(reported_artifacts(true, vec![], known.clone()), known);
    assert_eq!(reported_artifacts(true, vec!["x".to_string()], known), vec!["x".to_string()]);
}
