use laminaria_run::json::{JsonMember, JsonValue};
use laminaria_run::scenario::{
    nim_heavy_workspace_scenario, portable_arg_path, rust_heavy_workspace_scenario, structural_differences,
    CacheStateLabel, WorkCounts,
};

#[test]
fn a_cold_rust_build_clears_the_target_directory_first() {
    let s = rust_heavy_workspace_scenario(CacheStateLabel::Cold, "/w/Cargo.toml", "/w/target", None);
    assert_eq!(s.id, "cold-build");
    assert_eq!(s.workload_id, "rust-heavy-workspace");
    assert_eq!(s.prepare.len(), 1);
    assert_eq!(s.prepare[0].program, "rm");
    assert_eq!(s.prepare[0].args, vec!["-rf", "/w/target"]);
    assert_eq!(s.root.program, "cargo");
    assert_eq!(s.root.args, vec!["build", "--manifest-path", "/w/Cargo.toml", "--workspace"]);
    assert_eq!(s.observation_roots, vec!["/w/target"]);
    let noop = rust_heavy_workspace_scenario(CacheStateLabel::TrueNoop, "/w/Cargo.toml", "/w/target", None);
    assert_eq!(noop.id, "true-noop");
    assert!(noop.prepare.is_empty());
    let warm = rust_heavy_workspace_scenario(CacheStateLabel::Warm, "/w/Cargo.toml", "/w/target", Some("C:\\w\\lib.rs"));
    assert_eq!(warm.id, "rust-implementation-edit");
    assert_eq!(warm.prepare[0].program, "touch");
    assert_eq!(warm.prepare[0].args, vec!["C:/w/lib.rs"]);
}

#[test]
fn a_cold_nim_build_clears_nimcache_and_output() {
    let s = nim_heavy_workspace_scenario(CacheStateLabel::Cold, "/n/main.nim", "/n/cache", "/n/out", None);
    assert_eq!(s.prepare.len(), 2);
    assert_eq!(s.prepare[1].args, vec!["-rf", "/n/out"]);
    assert_eq!(s.root.args, vec!["c", "--nimcache:/n/cache", "-o:/n/out", "/n/main.nim"]);
    assert_eq!(s.observation_roots, vec!["/n/cache", "/n/out"]);
    assert_eq!(portable_arg_path("a\\b/c"), "a/b/c");
}

#[test]
fn a_process_count_change_is_flagged_even_when_wall_time_looks_like_an_improvement() {
    let baseline = WorkCounts {
        process_counts: vec![5, 4, 6],
        artifact_created: vec![2],
        artifact_modified: vec![1],
        artifact_deleted: vec![0],
        artifact_unchanged: vec![7],
    };
    let candidate = WorkCounts { process_counts: vec![3, 3], ..baseline.clone() };
    let d = structural_differences(&baseline, &candidate);
    assert!(d.process_count_changed);
    assert!(!d.artifact_profile_changed);
    assert_eq!(
        d.confounding_notes,
        vec!["process count differs (baseline=4, candidate=3) -- more or fewer compiler/backend actions were executed, so a wall-time difference here reflects a different amount of work, not purely a speed change".to_string()]
    );
}

#[test]
fn an_artifact_profile_change_is_flagged_independent_of_the_timing_verdict() {
    let baseline = WorkCounts {
        process_counts: vec![],
        artifact_created: vec![2, 3],
        artifact_modified: vec![1],
        artifact_deleted: vec![],
        artifact_unchanged: vec![4, 2],
    };
    let candidate = WorkCounts { artifact_deleted: vec![1], ..baseline.clone() };
    let d = structural_differences(&baseline, &candidate);
    assert!(!d.process_count_changed);
    assert!(d.artifact_profile_changed);
    assert_eq!(
        d.confounding_notes,
        vec!["artifact create/modify/delete/unchanged profile differs (baseline=(2, 1, 0, 2), candidate=(2, 1, 1, 2)) -- the two runs did not produce/change the same set of artifacts".to_string()]
    );
    assert!(structural_differences(&baseline, &baseline).confounding_notes.is_empty());
}

#[test]
fn a_change_in_unchanged_artifacts_alone_changes_the_profile() {
    let baseline = WorkCounts {
        process_counts: vec![4],
        artifact_created: vec![0],
        artifact_modified: vec![0],
        artifact_deleted: vec![0],
        artifact_unchanged: vec![10, 12],
    };
    let candidate = WorkCounts { artifact_unchanged: vec![3], ..baseline.clone() };
    let d = structural_differences(&baseline, &candidate);
    assert!(!d.process_count_changed);
    assert!(d.artifact_profile_changed);
    assert_eq!(
        d.confounding_notes,
        vec!["artifact create/modify/delete/unchanged profile differs (baseline=(0, 0, 0, 10), candidate=(0, 0, 0, 3)) -- the two runs did not produce/change the same set of artifacts".to_string()]
    );
}

fn to_json_value(v: &serde_json::Value) -> laminaria_run::json::JsonValue {
    match v {
        serde_json::Value::Null => JsonValue::Null,
        serde_json::Value::Bool(b) => JsonValue::Bool(*b),
        serde_json::Value::Number(n) => JsonValue::Number(n.to_string()),
        serde_json::Value::String(s) => JsonValue::Str(s.clone()),
        serde_json::Value::Array(items) => JsonValue::Array(items.iter().map(to_json_value).collect()),
        serde_json::Value::Object(m) => JsonValue::Object(
            m.iter().map(|(k, v)| JsonMember { key: k.clone(), value: to_json_value(v) }).collect(),
        ),
    }
}

#[test]
fn inventory_records_are_counted_by_state() {
    let delta = to_json_value(
        &serde_json::from_str::<serde_json::Value>(
            r#"{"records":[{"state":"Created"},{"state":"Modified"},{"state":"Created"},
            {"state":"Deleted"},{"state":"Unchanged"},{"state":"Renamed"},{}]}"#,
        )
        .unwrap(),
    );
    assert_eq!(laminaria_run::scenario::artifact_state_counts(Some(&delta)), (2, 1, 1, 1));
    assert_eq!(laminaria_run::scenario::artifact_state_counts(None), (0, 0, 0, 0));
}
