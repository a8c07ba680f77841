use laminaria_run::cargo_telemetry::message_format_insert_index;

#[test]
fn should_inject_only_for_verified_subcommands_and_never_overrides_an_explicit_choice() {
    assert_eq!(message_format_insert_index(&["build".to_string()]), Some(1));
    assert_eq!(
        message_format_insert_index(&["check".to_string(), "--manifest-path".to_string(), "x".to_string()]),
        Some(1)
    );
    assert_eq!(message_format_insert_index(&["clean".to_string()]), None);
    assert_eq!(
        message_format_insert_index(&["--manifest-path".to_string(), "x".to_string(), "check".to_string()]),
        None
    );
    assert_eq!(
        message_format_insert_index(&["build".to_string(), "--message-format=human".to_string()]),
        None
    );
    assert_eq!(
        message_format_insert_index(&["build".to_string(), "--message-format".to_string(), "human".to_string()]),
        None
    );
}

#[test]
fn a_leading_toolchain_selector_shifts_the_subcommand_and_insertion_index() {
    assert_eq!(message_format_insert_index(&["+nightly".to_string(), "build".to_string()]), Some(2));
}

#[test]
fn inserts_before_the_dash_dash_separator_not_after_target_program_args() {
    assert_eq!(
        message_format_insert_index(&[
            "run".to_string(),
            "--".to_string(),
            "my-program-arg".to_string(),
            "--message-format=human".to_string(),
        ]),
        Some(1)
    );
}

#[test]
fn an_empty_or_selector_only_invocation_gets_nothing() {
    assert_eq!(message_format_insert_index(&[]), None);
    assert_eq!(message_format_insert_index(&["+stable".to_string()]), None);
    assert_eq!(
        message_format_insert_index(&["build".to_string(), "--message-formats".to_string()]),
        Some(1)
    );
}

use laminaria_run::cargo_telemetry::{message_lines, telemetry_from_text, CargoCompilerTelemetry};

fn telemetry_of_lines(lines: &[&str]) -> CargoCompilerTelemetry {
    telemetry_from_text(&lines.join("\n"))
}

#[test]
fn parses_a_real_cold_build_message_stream() {
    let telemetry = telemetry_of_lines(&[
        r#"{"reason":"compiler-artifact","package_id":"path+file:///x/fixture-core#0.1.0","manifest_path":"/x/fixture-core/Cargo.toml","target":{"kind":["lib"],"crate_types":["lib"],"name":"fixture_core","src_path":"/x/lib.rs","edition":"2021","doc":true,"doctest":true,"test":true},"profile":{"opt_level":"0","debuginfo":2,"debug_assertions":true,"overflow_checks":true,"test":false},"features":[],"filenames":["/x/target/debug/libfixture_core.rlib","/x/target/debug/deps/libfixture_core-e8cb29cbc5b2a0e4.rmeta"],"executable":null,"fresh":false}"#,
        r#"{"reason":"compiler-artifact","package_id":"path+file:///x/fixture-bin#0.1.0","manifest_path":"/x/fixture-bin/Cargo.toml","target":{"kind":["bin"],"crate_types":["bin"],"name":"fixture-bin","src_path":"/x/main.rs","edition":"2021","doc":true,"doctest":false,"test":true},"profile":{"opt_level":"0","debuginfo":2,"debug_assertions":true,"overflow_checks":true,"test":false},"features":[],"filenames":["/x/target/debug/fixture-bin"],"executable":"/x/target/debug/fixture-bin","fresh":false}"#,
        r#"{"reason":"build-finished","success":true}"#,
    ]);

    assert_eq!(telemetry.artifacts.len(), 2);
    assert_eq!(telemetry.artifacts[0].target_name, "fixture_core");
    assert!(!telemetry.artifacts[0].fresh);
    assert_eq!(telemetry.artifacts[0].filenames.len(), 2);
    assert_eq!(telemetry.artifacts[1].target_name, "fixture-bin");
    assert_eq!(telemetry.artifacts[1].executable, Some("/x/target/debug/fixture-bin".to_string()));
    assert_eq!(telemetry.build_finished_success, Some(true));
    assert_eq!(telemetry.unparsed_line_count, 0);
}

#[test]
fn fresh_flag_distinguishes_a_true_noop_rebuild() {
    let telemetry = telemetry_of_lines(&[
        r#"{"reason":"compiler-artifact","package_id":"x","target":{"name":"fixture_core","kind":["lib"]},"filenames":["/x/libfixture_core.rlib"],"executable":null,"fresh":true}"#,
    ]);

    assert_eq!(telemetry.artifacts.len(), 1);
    assert!(telemetry.artifacts[0].fresh);
}

#[test]
fn non_json_and_unrecognized_lines_are_counted_not_dropped_silently() {
    let telemetry = telemetry_of_lines(&[
        "   Compiling fixture-core v0.1.0",
        r#"{"reason":"build-started","run_id":"abc"}"#,
        "not json at all",
    ]);

    assert_eq!(telemetry.artifacts.len(), 0);
    assert_eq!(telemetry.unparsed_line_count, 3);
}

#[test]
fn an_artifact_missing_a_required_field_is_unparsed() {
    let telemetry = telemetry_of_lines(&[
        r#"{"reason":"compiler-artifact","package_id":"x","target":{"name":"n"},"filenames":[],"fresh":true}"#,
        r#"{"reason":"compiler-message","message":{}}"#,
        r#"{"reason":"build-script-executed"}"#,
        r#"{"reason":"build-finished"}"#,
        "",
        r#"{"no_reason":1}"#,
    ]);
    assert_eq!(telemetry.artifacts.len(), 0);
    assert_eq!(telemetry.unparsed_line_count, 2);
    assert_eq!(telemetry.compiler_message_count, 1);
    assert_eq!(telemetry.build_script_executed_count, 1);
    assert_eq!(telemetry.build_finished_success, None);
}

#[test]
fn blank_lines_are_left_out_and_lines_are_trimmed() {
    assert_eq!(message_lines("  a \n\n\t\nb\r\n"), vec!["a".to_string(), "b".to_string()]);
    assert!(message_lines("").is_empty());
}

#[test]
fn the_last_build_finished_message_decides_success() {
    let telemetry = telemetry_of_lines(&[
        r#"{"reason":"build-finished","success":true}"#,
        r#"{"reason":"build-finished","success":false}"#,
    ]);
    assert_eq!(telemetry.build_finished_success, Some(false));
    let skipped = telemetry_of_lines(&[
        r#"{"reason":"compiler-artifact","package_id":"x","target":{"name":"n","kind":["lib",3]},"filenames":["/a",null],"executable":7,"fresh":false}"#,
    ]);
    assert_eq!(skipped.artifacts[0].target_kind, vec!["lib".to_string()]);
    assert_eq!(skipped.artifacts[0].filenames, vec!["/a".to_string()]);
    assert_eq!(skipped.artifacts[0].executable, None);
}

#[test]
fn each_message_line_is_parsed_from_the_text() {
    let t = telemetry_from_text("{\"reason\":\"build-finished\",\"success\":false}\n{broken\n\n  \n");
    assert_eq!(t.build_finished_success, Some(false));
    assert_eq!(t.unparsed_line_count, 1);
    let empty = telemetry_from_text("");
    assert_eq!(empty.unparsed_line_count, 0);
    assert_eq!(empty.build_finished_success, None);
}
