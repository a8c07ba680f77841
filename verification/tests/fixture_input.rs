use laminaria_run::fixture_input::cadd_source_prefixes;
use laminaria_run::cross_ecosystem_ingest::{CargoManifestFacts, NimbleManifestFacts};
use laminaria_run::fixture_input::{
    assemble_fixture_input, cadd_source_prefix, ingest_c_candidate, ArtifactOutputKind, Ecosystem, FfiExportFacts,
    FfiRequirementFacts, Role,
};

fn export(src: &str, symbol: &str) -> FfiExportFacts {
    FfiExportFacts {
        declaring_source: src.to_string(),
        symbol: symbol.to_string(),
        abi: "C".to_string(),
        param_count: 2,
        return_type: "i32".to_string(),
    }
}

#[test]
fn cadd_variants_map_to_their_sources_and_unknown_ones_are_refused() {
    assert_eq!(cadd_source_prefix("1.0.0").unwrap(), "c/cadd/v1/cadd");
    assert_eq!(cadd_source_prefix("2.0.0").unwrap(), "c/cadd/v2/cadd");
    assert_eq!(
        cadd_source_prefix("3.0.0").unwrap_err().message(),
        "ingestion parse error: unknown cadd candidate version requested: 3.0.0"
    );
}

#[test]
fn a_c_candidate_has_its_implementation_and_header_as_sources() {
    let (sources, candidate) =
        ingest_c_candidate("c/cadd/v1/cadd", "cadd", "1.0.0", "x86_64-unknown-linux-gnu", vec![export("c/cadd/v1/cadd.h", "c_add")]);
    assert_eq!(sources.len(), 2);
    assert_eq!(sources[0].id, "c/cadd/v1/cadd.c");
    assert_eq!(sources[1].id, "c/cadd/v1/cadd.h");
    assert!(sources.iter().all(|s| s.ecosystem == Ecosystem::C && s.package_id == "cadd"));
    assert_eq!(candidate.sources, vec!["c/cadd/v1/cadd.c", "c/cadd/v1/cadd.h"]);
    assert_eq!(candidate.role, Role::Target);
    assert_eq!(candidate.version, "1.0.0");
    assert_eq!(candidate.declared_exports[0].symbol, "c_add");
    assert!(candidate.declared_constraints.is_empty());
}

#[test]
fn the_fixture_input_is_assembled_from_the_ingested_facts() {
    let triple = "x86_64-unknown-linux-gnu";
    let cargo = CargoManifestFacts {
        package_name: "app".to_string(),
        version: "0.1.0".to_string(),
        features: vec!["default".to_string(), "ffi".to_string()],
        active_features: vec!["default".to_string()],
    };
    let nimble = NimbleManifestFacts {
        package_name: "doubler".to_string(),
        version: "0.1.0".to_string(),
        requires: vec!["nim >= 2.0.0".to_string()],
    };
    let reqs = vec![FfiRequirementFacts {
        declaring_source: "app/src/main.rs".to_string(),
        symbol: "c_add".to_string(),
        abi: "C".to_string(),
        param_count: 2,
        return_type: "i32".to_string(),
        expected_provider_package: "cadd".to_string(),
    }];
    let cadd = ingest_c_candidate("c/cadd/v1/cadd", "cadd", "1.0.0", triple, vec![export("c/cadd/v1/cadd.h", "c_add")]);
    let input = assemble_fixture_input(
        triple,
        &cargo,
        &nimble,
        reqs,
        vec![export("nimble/doubler/src/doubler.nim", "nim_double")],
        vec![cadd],
        vec![export("cpp/cppmax/cppmax.h", "cpp_max_i32")],
    );
    assert_eq!(input.demand_entry_point, "app");
    assert_eq!(input.host_toolchain_id, "nim");
    let ids: Vec<&str> = input.sources.iter().map(|s| s.id.as_str()).collect();
    assert_eq!(
        ids,
        vec![
            "app/src/main.rs",
            "nimble/doubler/src/doubler.nim",
            "c/cadd/v1/cadd.c",
            "c/cadd/v1/cadd.h",
            "cpp/cppmax/cppmax.cpp",
            "cpp/cppmax/cppmax.h"
        ]
    );
    let pkgs: Vec<&str> = input.package_candidates.iter().map(|c| c.package_id.as_str()).collect();
    assert_eq!(pkgs, vec!["app", "doubler", "cadd", "cppmax"]);
    assert_eq!(input.package_candidates[0].declared_constraints, vec!["feature:default", "feature:ffi"]);
    assert_eq!(input.package_candidates[1].declared_constraints, vec!["requires:nim >= 2.0.0"]);
    assert_eq!(input.package_candidates[3].version, "1.0.0");
    assert_eq!(input.abi_constraints.len(), 1);
    assert_eq!(input.abi_constraints[0].boundary_symbol, "c_add");
    assert_eq!(input.abi_constraints[0].target_triple, triple);
    let outputs: Vec<(&str, ArtifactOutputKind)> =
        input.declared_outputs.iter().map(|o| (o.id.as_str(), o.kind)).collect();
    assert_eq!(
        outputs,
        vec![
            ("object:app", ArtifactOutputKind::RustObject),
            ("archive:doubler", ArtifactOutputKind::NimStaticLibrary),
            ("object:cadd", ArtifactOutputKind::CObject),
            ("archive:cadd", ArtifactOutputKind::CStaticArchive),
            ("object:cppmax", ArtifactOutputKind::CppAdapterObject),
            ("archive:cppmax", ArtifactOutputKind::CppStaticArchive),
            ("executable:app", ArtifactOutputKind::NativeExecutable),
        ]
    );
    assert_eq!(
        input.runtime_requirements[0].description,
        "OS ABI/dynamic loader contract for target 'x86_64-unknown-linux-gnu' is not bundled"
    );
    assert_eq!(input.lowering_requirements.len(), 2);
}

#[test]
fn each_requested_cadd_version_gives_its_source_prefix_in_order() {
    assert_eq!(
        cadd_source_prefixes(&vec!["2.0.0".to_string(), "1.0.0".to_string()]),
        Ok(vec!["c/cadd/v2/cadd".to_string(), "c/cadd/v1/cadd".to_string()])
    );
    assert_eq!(cadd_source_prefixes(&vec![]), Ok(vec![]));
    assert!(matches!(
        cadd_source_prefixes(&vec!["1.0.0".to_string(), "3.0.0".to_string(), "9".to_string()]),
        Err(laminaria_run::command_runner::IngestError::Parse(m)) if m == "unknown cadd candidate version requested: 3.0.0"
    ));
}
