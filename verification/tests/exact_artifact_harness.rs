use laminaria_run::exact_artifact_harness::{
    check_inspection, check_manifest, dependency_candidates, dependency_missing, qualification_contract, ManifestFacts,
    RuntimeContractFacts,
};
use laminaria_run::exact_artifact_harness::{
    nm_lists_symbol, observe_result, under_runtime_root, HarnessEventKind, TestContract, TestVerdict,
};

fn contract() -> TestContract {
    TestContract {
        contract_id: "m1-exact-artifact-cross-language".to_string(),
        subject_digest: "d".to_string(),
        harness_identity: "h".to_string(),
        environment_identity: "/".to_string(),
        graph_demand: "qualify:executable:app".to_string(),
        retained_roots: vec![],
        pruned_roots: vec![],
        expected_exit: 0,
        expected_stdout: "9\n".to_string(),
        expected_stderr: String::new(),
        required_symbols: vec!["c_add".to_string()],
    }
}

#[test]
fn published_paths_are_read_under_the_chosen_runtime_root() {
    assert_eq!(under_runtime_root("/rt", "/lib64/ld-linux-x86-64.so.2"), "/rt/lib64/ld-linux-x86-64.so.2");
    assert_eq!(under_runtime_root("/rt", "//x"), "/rt/x");
    assert_eq!(under_runtime_root("/", "/lib/libc.so.6"), "/lib/libc.so.6");
}

#[test]
fn required_symbols_must_end_some_nm_line() {
    let nm = "0000 T c_add\n     U nim_double\n";
    assert!(nm_lists_symbol(nm, "c_add"));
    assert!(nm_lists_symbol(nm, "nim_double"));
    assert!(!nm_lists_symbol(nm, "T"));
    assert!(!nm_lists_symbol(nm, "cpp_max_i32"));
}

#[test]
fn the_verdict_follows_the_exact_observed_result() {
    let (event, verdict) = observe_result(&contract(), Some(0), "9\n", "");
    assert_eq!(event.kind, HarnessEventKind::ObserveResult);
    assert!(event.succeeded);
    assert_eq!(event.detail, "exit=Some(0) stdout=\"9\\n\" stderr=\"\"");
    assert_eq!(verdict, TestVerdict::Pass);
    let (event, verdict) = observe_result(&contract(), None, "9\n", "");
    assert!(!event.succeeded);
    assert_eq!(event.detail, "exit=None stdout=\"9\\n\" stderr=\"\"");
    assert_eq!(verdict, TestVerdict::Fail { detail: "observable result differs from contract".to_string() });
}

fn runtime_contract() -> RuntimeContractFacts {
    RuntimeContractFacts {
        contract_id: "rc-1".to_string(),
        operation_id: "op-pre".to_string(),
        loader_requirement: "/lib64/ld-linux-x86-64.so.2".to_string(),
        provider_paths: vec![Some("/lib/libc.so.6".to_string()), None, Some("lib/libm.so.6".to_string())],
    }
}

fn manifest() -> ManifestFacts {
    ManifestFacts {
        contract_version: "v1".to_string(),
        requested_digest: "abc".to_string(),
        decisions: vec![(false, false), (true, true)],
        runtime_contracts: vec![runtime_contract()],
        operations: vec![("op-other".to_string(), true), ("op-pre".to_string(), true)],
    }
}

#[test]
fn a_consistent_manifest_admits_qualification() {
    assert_eq!(check_manifest(&manifest(), "v1", "abc"), Ok(runtime_contract()));
}

#[test]
fn each_manifest_refusal_comes_in_order() {
    assert_eq!(check_manifest(&manifest(), "v2", "abc"), Err("unsupported manifest contract v1".to_string()));
    assert_eq!(
        check_manifest(&manifest(), "v1", "abd"),
        Err("subject digest differs from the published manifest".to_string())
    );
    let mut m = manifest();
    m.decisions = vec![(false, true)];
    assert_eq!(check_manifest(&m, "v1", "abc"), Err("manifest has no runtime decision".to_string()));
    let mut m = manifest();
    m.decisions = vec![(true, false), (true, true)];
    assert_eq!(check_manifest(&m, "v1", "abc"), Err("runtime obligation is not Externalized".to_string()));
    let mut m = manifest();
    m.runtime_contracts.clear();
    assert_eq!(check_manifest(&m, "v1", "abc"), Err("manifest publishes no runtime contract".to_string()));
    let mut m = manifest();
    m.runtime_contracts.push(runtime_contract());
    assert_eq!(
        check_manifest(&m, "v1", "abc"),
        Err("runtime contract has no unique causal preflight operation".to_string())
    );
    let mut m = manifest();
    m.operations = vec![("op-pre".to_string(), false)];
    assert_eq!(
        check_manifest(&m, "v1", "abc"),
        Err("runtime contract has no unique causal preflight operation".to_string())
    );
}

#[test]
fn the_qualification_contract_expects_the_cross_language_result() {
    let c = qualification_contract("abc", "/rt", "0.1.0");
    assert_eq!(c.contract_id, "m1-exact-artifact-cross-language");
    assert_eq!(c.subject_digest, "abc");
    assert_eq!(c.harness_identity, "laminaria-run/exact-artifact-harness@0.1.0");
    assert_eq!(c.environment_identity, "/rt");
    assert_eq!(c.graph_demand, "qualify:executable:app");
    assert_eq!(c.retained_roots, vec!["exact-subject", "runtime-contract"]);
    assert_eq!(c.pruned_roots, vec!["framework-test-binary", "instrumented-binary"]);
    assert_eq!(c.expected_exit, 0);
    assert_eq!(c.expected_stdout, "9\n");
    assert_eq!(c.expected_stderr, "");
    assert_eq!(c.required_symbols, vec!["c_add", "nim_double", "cpp_max_i32"]);
}

#[test]
fn dependencies_are_the_loader_then_each_provider_under_the_root() {
    assert_eq!(
        dependency_candidates("/rt", &runtime_contract()),
        vec!["/rt/lib64/ld-linux-x86-64.so.2", "/rt/lib/libc.so.6", "/rt/lib/libm.so.6"]
    );
    let (event, verdict) = dependency_missing("rc-1", "/rt/lib/libc.so.6", false);
    assert_eq!(event.kind, HarnessEventKind::InspectArtifact);
    assert!(!event.succeeded);
    assert_eq!(event.detail, "missing provider /rt/lib/libc.so.6");
    assert_eq!(
        verdict,
        TestVerdict::DependencyMissing { contract_id: "rc-1".to_string(), path: "/rt/lib/libc.so.6".to_string() }
    );
    assert_eq!(dependency_missing("rc-1", "/rt/ld", true).0.detail, "missing loader /rt/ld");
}

#[test]
fn inspection_needs_the_loader_and_every_required_symbol() {
    let c = qualification_contract("abc", "/rt", "0.1.0");
    let headers = "  [Requesting program interpreter: /lib64/ld-linux-x86-64.so.2]";
    let symbols = "0000 T c_add\n0010 T nim_double\n0020 T cpp_max_i32\n";
    assert_eq!(check_inspection(&c, "/lib64/ld-linux-x86-64.so.2", headers, symbols), Ok(()));
    assert_eq!(
        check_inspection(&c, "/lib/ld-musl.so.1", headers, symbols),
        Err("artifact interpreter differs from published runtime contract".to_string())
    );
    assert_eq!(
        check_inspection(&c, "/lib64/ld-linux-x86-64.so.2", headers, "0000 T c_add\n"),
        Err("exact artifact does not contain required symbol nim_double".to_string())
    );
}

use laminaria_run::exact_artifact_harness::{preflight_dependencies, subject_digest};

#[test]
fn the_first_missing_dependency_stops_qualification_before_execution() {
    let candidates = vec!["/rt/lib/ld.so".to_string(), "/rt/lib/libc.so".to_string(), "/rt/lib/libm.so".to_string()];
    assert!(preflight_dependencies("c1", &candidates, &vec![true, true, true]).is_none());
    let (event, verdict) = preflight_dependencies("c1", &candidates, &vec![true, false, false]).unwrap();
    assert_eq!(event.kind, HarnessEventKind::InspectArtifact);
    assert!(!event.succeeded);
    assert_eq!(event.detail, "missing provider /rt/lib/libc.so");
    assert_eq!(
        verdict,
        TestVerdict::DependencyMissing { contract_id: "c1".to_string(), path: "/rt/lib/libc.so".to_string() }
    );
    let (event, _) = preflight_dependencies("c1", &candidates, &vec![false, false, true]).unwrap();
    assert_eq!(event.detail, "missing loader /rt/lib/ld.so");
}

#[test]
fn the_subject_digest_is_the_hex_sha256_of_its_bytes() {
    assert_eq!(subject_digest(b"abc"), "ba7816bf8f01cfea414140de5dae2223b00361a396177a9cb410ff61f20015ad");
}
