use laminaria_run::artifact_inventory::{
    build_inventory, diff_snapshots, to_logical_path, ArtifactState, FileStat, PendingArtifact,
    ProducerIdentity,
};

fn stat(size: u64, t: u128) -> FileStat {
    FileStat { size, modified_unix_ns: t }
}

fn snap(entries: &[(&str, FileStat)]) -> Vec<(String, FileStat)> {
    entries.iter().map(|(p, s)| (p.to_string(), *s)).collect()
}

fn roots(rs: &[&str]) -> Vec<String> {
    rs.iter().map(|r| r.to_string()).collect()
}

fn find<'a>(pending: &'a [PendingArtifact], suffix: &str) -> &'a PendingArtifact {
    pending.iter().find(|p| p.path.ends_with(suffix)).unwrap()
}

#[test]
fn cold_build_snapshots_classify_every_file_as_created_and_hash_all() {
    let rs = roots(&["/w/target"]);
    let pre = snap(&[]);
    let post = snap(&[("/w/target/a.rlib", stat(3, 10)), ("/w/target/b.rlib", stat(4, 11))]);
    let pending = diff_snapshots(&rs, &pre, &post);
    assert_eq!(pending.len(), 2);
    assert!(pending.iter().all(|p| p.state == ArtifactState::Created));
    let digests = vec![Some("aa".to_string()), Some("bb".to_string())];
    let inv = build_inventory(&rs, &pending, &digests);
    assert_eq!(inv.records.len(), 2);
    assert!(inv.records.iter().all(|r| r.digest_sha256.is_some()));
    assert_eq!(inv.changed_candidate_count, 2);
    assert_eq!(inv.hashed_bytes, 3 + 4);
    assert_eq!(inv.schema_version, "0.1.0");
    assert_eq!(inv.observation_roots, rs);
}

#[test]
fn identical_snapshots_are_unchanged_and_hash_nothing() {
    let rs = roots(&["/w/target"]);
    let s = snap(&[("/w/target/a.rlib", stat(3, 10))]);
    let pending = diff_snapshots(&rs, &s, &s);
    assert_eq!(pending.len(), 1);
    assert_eq!(pending[0].state, ArtifactState::Unchanged);
    // A digest handed in for a non-candidate is not kept.
    let inv = build_inventory(&rs, &pending, &vec![Some("ignored".to_string())]);
    assert_eq!(inv.records[0].digest_sha256, None);
    assert_eq!(inv.changed_candidate_count, 0);
    assert_eq!(inv.hashed_bytes, 0);
}

#[test]
fn only_the_touched_file_is_modified() {
    let rs = roots(&["/w/target"]);
    let pre = snap(&[("/w/target/a.rlib", stat(3, 10)), ("/w/target/b.rlib", stat(4, 10))]);
    let post = snap(&[("/w/target/a.rlib", stat(10, 20)), ("/w/target/b.rlib", stat(4, 10))]);
    let pending = diff_snapshots(&rs, &pre, &post);
    assert_eq!(pending.len(), 2);
    assert_eq!(find(&pending, "a.rlib").state, ArtifactState::Modified);
    assert_eq!(find(&pending, "b.rlib").state, ArtifactState::Unchanged);
    let digests: Vec<Option<String>> = pending
        .iter()
        .map(|p| if p.state.is_changed_candidate() { Some("d".to_string()) } else { None })
        .collect();
    let inv = build_inventory(&rs, &pending, &digests);
    assert_eq!(inv.changed_candidate_count, 1);
    assert_eq!(inv.hashed_bytes, 10);
}

#[test]
fn same_size_with_a_new_mtime_is_modified() {
    let rs = roots(&["/w/target"]);
    let pre = snap(&[("/w/target/a.d", stat(5, 10))]);
    let post = snap(&[("/w/target/a.d", stat(5, 11))]);
    let pending = diff_snapshots(&rs, &pre, &post);
    assert_eq!(pending[0].state, ArtifactState::Modified);
}

#[test]
fn deleted_files_keep_their_size_and_get_no_digest() {
    let rs = roots(&["/w/target"]);
    let pre = snap(&[("/w/target/a.rlib", stat(3, 10))]);
    let post = snap(&[]);
    let pending = diff_snapshots(&rs, &pre, &post);
    assert_eq!(pending.len(), 1);
    assert_eq!(pending[0].state, ArtifactState::Deleted);
    assert_eq!(pending[0].size_bytes, Some(3));
    let inv = build_inventory(&rs, &pending, &vec![None]);
    assert_eq!(inv.records[0].digest_sha256, None);
    assert_eq!(inv.records[0].size_bytes, Some(3));
    assert_eq!(inv.changed_candidate_count, 0);
}

#[test]
fn a_failed_hash_is_counted_as_a_candidate_but_adds_no_bytes() {
    let rs = roots(&["/w/target"]);
    let post = snap(&[("/w/target/a.rlib", stat(3, 10))]);
    let pending = diff_snapshots(&rs, &snap(&[]), &post);
    let inv = build_inventory(&rs, &pending, &vec![None]);
    assert_eq!(inv.changed_candidate_count, 1);
    assert_eq!(inv.hashed_bytes, 0);
    assert_eq!(inv.records[0].digest_sha256, None);
}

#[test]
fn merged_paths_come_out_once_each_in_increasing_order() {
    let rs = roots(&["/w"]);
    let pre = snap(&[("/w/a", stat(1, 1)), ("/w/c", stat(1, 1)), ("/w/e", stat(1, 1))]);
    let post = snap(&[("/w/b", stat(1, 1)), ("/w/c", stat(2, 1)), ("/w/d", stat(1, 1))]);
    let pending = diff_snapshots(&rs, &pre, &post);
    let paths: Vec<&str> = pending.iter().map(|p| p.path.as_str()).collect();
    assert_eq!(paths, vec!["/w/a", "/w/b", "/w/c", "/w/d", "/w/e"]);
    let states: Vec<ArtifactState> = pending.iter().map(|p| p.state).collect();
    assert_eq!(
        states,
        vec![
            ArtifactState::Deleted,
            ArtifactState::Created,
            ArtifactState::Modified,
            ArtifactState::Created,
            ArtifactState::Deleted
        ]
    );
}

#[test]
fn a_single_file_root_is_its_own_logical_path_under_its_name() {
    let rs = roots(&["/w/fixture_out"]);
    let pre = snap(&[("/w/fixture_out", stat(9, 1))]);
    let post = snap(&[("/w/fixture_out", stat(16, 2))]);
    let pending = diff_snapshots(&rs, &pre, &post);
    assert_eq!(pending.len(), 1);
    assert_eq!(pending[0].state, ArtifactState::Modified);
    assert_eq!(pending[0].logical_path, "root0-fixture_out/");
}

#[test]
fn logical_paths_carry_the_root_index_and_name() {
    let rs = roots(&["/base/a/target", "/base/b/target"]);
    assert_eq!(to_logical_path(&rs, "/base/a/target/output.o"), "root0-target/output.o");
    assert_eq!(to_logical_path(&rs, "/base/b/target/output.o"), "root1-target/output.o");
    assert_eq!(to_logical_path(&rs, "/elsewhere/x.o"), "/elsewhere/x.o");
    // Prefixes are matched by whole components.
    assert_eq!(to_logical_path(&rs, "/base/a/targetx/y.o"), "/base/a/targetx/y.o");
    // A root with no final name is labelled by itself.
    assert_eq!(to_logical_path(&roots(&["/"]), "/x.o"), "root0-/x.o");
}

#[test]
fn two_roots_sharing_a_final_component_give_distinct_records() {
    let rs = roots(&["/base/a/target", "/base/b/target"]);
    let s = snap(&[
        ("/base/a/target/output.o", stat(6, 1)),
        ("/base/b/target/output.o", stat(16, 1)),
    ]);
    let pending = diff_snapshots(&rs, &s, &s);
    assert_eq!(pending.len(), 2);
    assert_ne!(pending[0].logical_path, pending[1].logical_path);
}

#[test]
fn every_record_has_an_unknown_producer() {
    let rs = roots(&["/w"]);
    let post = snap(&[("/w/a.rlib", stat(3, 1))]);
    let pending = diff_snapshots(&rs, &snap(&[]), &post);
    let inv = build_inventory(&rs, &pending, &vec![Some("d".to_string())]);
    assert!(inv.records.iter().all(|r| r.producer == ProducerIdentity::Unknown));
}

#[test]
fn a_snapshot_is_sorted_only_with_strictly_increasing_paths() {
    let stat = laminaria_run::artifact_inventory::FileStat { size: 1, modified_unix_ns: 2 };
    let sorted = vec![("/a".to_string(), stat), ("/b".to_string(), stat)];
    assert!(laminaria_run::artifact_inventory::snapshot_is_sorted(&sorted));
    let twice = vec![("/a".to_string(), stat), ("/a".to_string(), stat)];
    assert!(!laminaria_run::artifact_inventory::snapshot_is_sorted(&twice));
    let backwards = vec![("/b".to_string(), stat), ("/a".to_string(), stat)];
    assert!(!laminaria_run::artifact_inventory::snapshot_is_sorted(&backwards));
    assert!(laminaria_run::artifact_inventory::snapshot_is_sorted(&vec![]));
}
