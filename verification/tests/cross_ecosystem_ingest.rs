use laminaria_run::command_runner::{CommandRunner, IngestError};
use laminaria_run::cross_ecosystem_ingest::{host_target_triple, host_triple_from, FixtureLayout};

struct CannedRunner {
    calls: Vec<(String, Vec<String>)>,
    stdout: String,
}

impl CommandRunner for CannedRunner {
    fn run(&mut self, program: &str, args: &[&str], _cwd: Option<&str>) -> Result<String, IngestError> {
        self.calls.push((program.to_string(), args.iter().map(|a| a.to_string()).collect()));
        Ok(self.stdout.clone())
    }
}

#[test]
fn host_triple_comes_from_the_first_host_line_trimmed() {
    let out = "rustc 1.80.0 (abc 2024-07-21)\r\nbinary: rustc\nhost:   x86_64-unknown-linux-gnu  \r\nhost: other\n";
    assert_eq!(host_triple_from(out).unwrap(), "x86_64-unknown-linux-gnu");
    assert!(matches!(host_triple_from("binary: rustc\n"), Err(IngestError::Parse(m)) if m == "rustc -vV produced no 'host:' line"));
    assert!(host_triple_from("").is_err());
}

#[test]
fn host_target_triple_asks_rustc_for_its_verbose_version() {
    let mut runner = CannedRunner {
        calls: vec![],
        stdout: "host: aarch64-apple-darwin\n".to_string(),
    };
    assert_eq!(host_target_triple(&mut runner).unwrap(), "aarch64-apple-darwin");
    assert_eq!(runner.calls, vec![("rustc".to_string(), vec!["-vV".to_string()])]);
}

#[test]
fn fixture_paths_are_joined_under_the_fixture_root() {
    let layout = FixtureLayout::discover("/repo");
    assert_eq!(layout.root, "/repo/fixtures/cross-ecosystem-native-executable");
    assert_eq!(layout.app_manifest(), "/repo/fixtures/cross-ecosystem-native-executable/app/Cargo.toml");
    assert_eq!(layout.cadd_v2_h(), "/repo/fixtures/cross-ecosystem-native-executable/c/cadd/v2/cadd.h");
    let trailing = FixtureLayout { root: "/r/".to_string() };
    assert_eq!(trailing.cppmax_cpp(), "/r/cpp/cppmax/cppmax.cpp");
    assert_eq!(trailing.nimble_dir(), "/r/nimble/doubler");
}

use laminaria_run::cross_ecosystem_ingest::{
    cargo_facts_from_metadata, nimble_dump_json, nimble_facts_from_dump, nimble_parse_error,
    resolve_default_active_features,
};
use laminaria_run::json::{JsonMember, JsonValue};

fn to_json(v: &serde_json::Value) -> JsonValue {
    match v {
        serde_json::Value::Null => JsonValue::Null,
        serde_json::Value::Bool(b) => JsonValue::Bool(*b),
        serde_json::Value::Number(n) => JsonValue::Number(n.to_string()),
        serde_json::Value::String(s) => JsonValue::Str(s.clone()),
        serde_json::Value::Array(items) => JsonValue::Array(items.iter().map(to_json).collect()),
        serde_json::Value::Object(m) => JsonValue::Object(
            m.iter().map(|(k, v)| JsonMember { key: k.clone(), value: to_json(v) }).collect(),
        ),
    }
}

fn doc(text: &str) -> JsonValue {
    to_json(&serde_json::from_str::<serde_json::Value>(text).unwrap())
}

fn strs(v: &[&str]) -> Vec<String> {
    v.iter().map(|s| s.to_string()).collect()
}

#[test]
fn cargo_metadata_gives_name_version_sorted_features_and_the_default_closure() {
    let d = doc(r#"{"packages":[{"name":"app","version":"0.1.0","features":{
        "default":["fast"],"fast":["simd","extra"],"simd":[],"extra":["fast"],"unused":["never"]}}]}"#);
    let facts = cargo_facts_from_metadata(&d).unwrap();
    assert_eq!(facts.package_name, "app");
    assert_eq!(facts.version, "0.1.0");
    assert_eq!(facts.features, strs(&["default", "extra", "fast", "simd", "unused"]));
    assert_eq!(facts.active_features, strs(&["default", "extra", "fast", "simd"]));
}

#[test]
fn a_manifest_without_features_activates_only_default() {
    let d = doc(r#"{"packages":[{"name":"app"}]}"#);
    let facts = cargo_facts_from_metadata(&d).unwrap();
    assert_eq!(facts.version, "");
    assert!(facts.features.is_empty());
    assert_eq!(facts.active_features, strs(&["default"]));
}

#[test]
fn changing_the_default_set_changes_the_active_features() {
    let with = doc(r#"{"default":["ffi"],"ffi":[]}"#);
    let without = doc(r#"{"default":[],"ffi":[]}"#);
    let table = |d: &JsonValue| match d {
        JsonValue::Object(m) => resolve_default_active_features(m),
        _ => unreachable!(),
    };
    assert_eq!(table(&with), strs(&["default", "ffi"]));
    assert_eq!(table(&without), strs(&["default"]));
}

#[test]
fn cargo_metadata_without_packages_or_a_name_is_a_parse_error() {
    let e = cargo_facts_from_metadata(&doc(r#"{"packages":[]}"#)).unwrap_err();
    assert_eq!(e.message(), "ingestion parse error: cargo metadata reported no packages");
    let e = cargo_facts_from_metadata(&doc(r#"{"workspace_root":"/x"}"#)).unwrap_err();
    assert_eq!(e.message(), "ingestion parse error: cargo metadata reported no packages");
    let e = cargo_facts_from_metadata(&doc(r#"{"packages":[{"version":"1"}]}"#)).unwrap_err();
    assert_eq!(e.message(), "ingestion parse error: package has no name");
}

#[test]
fn a_nimble_banner_before_the_json_object_is_split_off() {
    let (banner, json) = nimble_dump_json("Downloading...\n{\"name\":\"doubler\"}").unwrap();
    assert_eq!(banner, "Downloading...\n");
    assert_eq!(json, "{\"name\":\"doubler\"}");
    let e = nimble_dump_json("no json here").unwrap_err();
    assert_eq!(
        e.message(),
        "ingestion parse error: nimble dump --json produced no JSON object at all; raw output: \"no json here\""
    );
    let e = nimble_parse_error("EOF while parsing", "banner\n");
    assert_eq!(e.message(), "ingestion parse error: EOF while parsing (raw output: \"banner\\n\")");
}

#[test]
fn nimble_requirements_are_name_and_constraint_trimmed() {
    let d = doc(r#"{"name":"doubler","version":"0.1.0","requires":[
        {"name":"nim","str":">= 2.0.0"},{"name":"bare"},{"str":"skipped"},{"name":"x","str":""}]}"#);
    let facts = nimble_facts_from_dump(&d).unwrap();
    assert_eq!(facts.package_name, "doubler");
    assert_eq!(facts.version, "0.1.0");
    assert_eq!(facts.requires, strs(&["nim >= 2.0.0", "bare", "x"]));
    let e = nimble_facts_from_dump(&doc(r#"{"version":"1"}"#)).unwrap_err();
    assert_eq!(e.message(), "ingestion parse error: nimble dump produced no name");
}

#[test]
fn host_target_triple_through_the_recorder_asks_exactly_once() {
    let inner = CannedRunner { calls: vec![], stdout: "binary: rustc\nhost: x86_64-unknown-linux-gnu\n".to_string() };
    let mut runner = laminaria_run::command_runner::RecordingCommandRunner::new(inner);
    assert_eq!(host_target_triple(&mut runner).unwrap(), "x86_64-unknown-linux-gnu");
    assert_eq!(runner.recorded_commands(), vec![("rustc".to_string(), vec!["-vV".to_string()])]);
}

use laminaria_run::cross_ecosystem_ingest::{ingest_cargo_metadata, ingest_nimble_package};

#[test]
fn cargo_metadata_is_asked_for_one_manifest_and_read_into_its_facts() {
    let inner = CannedRunner {
        calls: vec![],
        stdout: r#"{"packages":[{"name":"app","version":"0.2.0","features":{"default":["ffi"],"ffi":[],"extra":[]}}]}"#
            .to_string(),
    };
    let mut runner = laminaria_run::command_runner::RecordingCommandRunner::new(inner);
    let facts = ingest_cargo_metadata(&mut runner, "/p/Cargo.toml").unwrap();
    assert_eq!(facts.package_name, "app");
    assert_eq!(facts.version, "0.2.0");
    assert_eq!(facts.features, strs(&["default", "extra", "ffi"]));
    assert_eq!(facts.active_features, strs(&["default", "ffi"]));
    assert_eq!(
        runner.recorded_commands(),
        vec![(
            "cargo".to_string(),
            strs(&["metadata", "--no-deps", "--format-version", "1", "--manifest-path", "/p/Cargo.toml"])
        )]
    );
    let mut broken = CannedRunner { calls: vec![], stdout: "not json".to_string() };
    assert!(matches!(ingest_cargo_metadata(&mut broken, "/p/Cargo.toml"), Err(IngestError::Parse(_))));
}

#[test]
fn a_nimble_dump_is_read_from_its_first_brace_on() {
    let mut runner = CannedRunner {
        calls: vec![],
        stdout: "Downloading...\n{\"name\":\"doubler\",\"version\":\"0.1.0\",\"requires\":[{\"name\":\"nim\",\"str\":\">= 2.0.0\"}]}".to_string(),
    };
    let facts = ingest_nimble_package(&mut runner, "/p/nimble").unwrap();
    assert_eq!(facts.package_name, "doubler");
    assert_eq!(facts.requires, strs(&["nim >= 2.0.0"]));
    assert_eq!(runner.calls, vec![("nimble".to_string(), strs(&["dump", "--json"]))]);
    let mut broken = CannedRunner { calls: vec![], stdout: "banner\n{oops".to_string() };
    match ingest_nimble_package(&mut broken, "/p/nimble") {
        Err(IngestError::Parse(m)) => assert!(m.ends_with(" (raw output: \"banner\\n\")"), "{m}"),
        other => panic!("expected a parse error, got {other:?}"),
    }
}
