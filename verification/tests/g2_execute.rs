use laminaria_run::g2_execute::{archive_args, link_args, link_search_dirs, native_compile_args, nim_staticlib_args, rust_object_args};
use laminaria_run::toolchain_resolve::ToolchainResolutionError;
use laminaria_run::g2_execute::{
    check_execution_result, nm_shows_defined, nm_shows_referenced, verify_symbol_defined,
    verify_symbol_referenced_undefined, CObjectArchiveEvidence, G2Error, NativeExecutableEvidence, RustObjectEvidence,
};

const NM: &str = "0000000000000000 T c_add\n0000000000000010 t _helper\n                 U nim_double\n0000000000000020 D data_sym\n";

#[test]
fn nm_output_is_read_field_by_field() {
    assert!(nm_shows_defined(NM, "c_add"));
    assert!(nm_shows_defined(NM, "helper"));
    assert!(!nm_shows_defined(NM, "data_sym"));
    assert!(!nm_shows_defined(NM, "nim_double"));
    assert!(nm_shows_referenced(NM, "nim_double"));
    assert!(!nm_shows_referenced(NM, "c_add"));
}

#[test]
fn a_real_archive_missing_the_expected_symbol_refuses_verification() {
    assert_eq!(verify_symbol_defined("/x/libcadd.a", NM, "c_add"), Ok(()));
    assert_eq!(
        verify_symbol_defined("/x/libcadd.a", NM, "c_sub"),
        Err(G2Error::ExpectedSymbolNotDefined { path: "/x/libcadd.a".to_string(), symbol: "c_sub".to_string() })
    );
}

#[test]
fn a_real_object_missing_an_expected_undefined_reference_refuses_verification() {
    assert_eq!(verify_symbol_referenced_undefined("/x/app.o", NM, "nim_double"), Ok(()));
    assert!(matches!(
        verify_symbol_referenced_undefined("/x/app.o", NM, "cpp_max_i32"),
        Err(G2Error::ExpectedSymbolNotReferenced { .. })
    ));
}

#[test]
fn a_real_but_wrong_executable_result_is_refused_by_link_and_run() {
    assert_eq!(check_execution_result("/x/app", Some(0), "9\n", ""), Ok(()));
    assert_eq!(
        check_execution_result("/x/app", Some(0), "8\n", ""),
        Err(G2Error::UnexpectedExecutionResult {
            path: "/x/app".to_string(),
            exit_code: Some(0),
            stdout: "8\n".to_string(),
            stderr: String::new(),
        })
    );
    assert!(check_execution_result("/x/app", None, "9\n", "").is_err());
    assert!(check_execution_result("/x/app", Some(0), "9\n", "warn").is_err());
}

#[test]
fn evidence_texts_name_every_observed_fact() {
    let c = CObjectArchiveEvidence {
        object_path: "/o/cadd.o".to_string(),
        archive_path: "/o/libcadd.a".to_string(),
        archive_size_bytes: 1234,
        archive_sha256: "ab".to_string(),
        confirmed_defined_symbol: "c_add".to_string(),
    };
    assert_eq!(
        c.as_discharge_evidence(),
        "real cc+ar: /o/cadd.o -> /o/libcadd.a (1234 bytes, sha256=ab); nm confirms 'c_add' defined"
    );
    let r = RustObjectEvidence {
        object_path: "/o/app.o".to_string(),
        object_size_bytes: 0,
        object_sha256: "cd".to_string(),
        confirmed_defined_entry_symbol: "main".to_string(),
        confirmed_referenced_symbols: vec!["c_add".to_string(), "nim_double".to_string()],
    };
    assert_eq!(
        r.as_discharge_evidence(),
        "real rustc --emit=obj: /o/app.o (0 bytes, sha256=cd); nm confirms 'main' defined and [c_add, nim_double] undefined-referenced"
    );
    let e = NativeExecutableEvidence {
        executable_path: "/o/app".to_string(),
        executable_size_bytes: 10,
        executable_sha256: "ef".to_string(),
        exit_code: -3,
        stdout: "9\n".to_string(),
        stderr: String::new(),
    };
    assert_eq!(
        e.as_discharge_evidence(),
        "real link + real run: /o/app (10 bytes, sha256=ef); exit=-3 stdout=\"9\\n\" stderr=\"\""
    );
}

#[test]
fn g2_errors_read_as_their_messages() {
    assert_eq!(G2Error::Io("disk".to_string()).message(), "G2 execution I/O error: disk");
    assert_eq!(
        G2Error::ToolFailed { program: "cc".to_string(), detail: "exit 1".to_string() }.message(),
        "G2 execution: 'cc' failed: exit 1"
    );
    assert_eq!(
        G2Error::ExpectedSymbolNotDefined { path: "/o/a.o".to_string(), symbol: "cadd".to_string() }.message(),
        "G2 execution: real file '/o/a.o' does not define expected symbol 'cadd'"
    );
    assert_eq!(
        G2Error::ExpectedSymbolNotReferenced { path: "/o/b.o".to_string(), symbol: "dbl".to_string() }.message(),
        "G2 execution: real file '/o/b.o' does not reference expected undefined symbol 'dbl'"
    );
    assert_eq!(
        G2Error::Toolchain(ToolchainResolutionError::NimToolchainMissing).message(),
        "G2 execution: toolchain resolution: toolchain lock file declares no Nim toolchain"
    );
    assert_eq!(
        G2Error::UnexpectedExecutionResult {
            path: "/o/app".to_string(),
            exit_code: Some(-2),
            stdout: "8\n".to_string(),
            stderr: "".to_string(),
        }
        .message(),
        "G2 execution: running real executable '/o/app' gave exit=Some(-2) stdout=\"8\\n\" stderr=\"\", not the fixture's declared expected result"
    );
    assert_eq!(
        G2Error::UnexpectedExecutionResult {
            path: "p".to_string(),
            exit_code: None,
            stdout: "".to_string(),
            stderr: "x".to_string(),
        }
        .message(),
        "G2 execution: running real executable 'p' gave exit=None stdout=\"\" stderr=\"x\", not the fixture's declared expected result"
    );
    assert_eq!(G2Error::Discharge("v".to_string()).message(), "G2 execution: v");
}

fn strings(v: &[&str]) -> Vec<String> {
    v.iter().map(|s| s.to_string()).collect()
}

#[test]
fn the_native_chain_commands_are_built_from_the_observed_facts() {
    assert_eq!(
        native_compile_args("/f/c/cadd/v1/cadd.c", "/f/c/cadd/v1", "/o/cadd.o"),
        strings(&["-c", "/f/c/cadd/v1/cadd.c", "-I", "/f/c/cadd/v1", "-o", "/o/cadd.o"])
    );
    assert_eq!(archive_args("/o/libcadd.a", "/o/cadd.o"), strings(&["rcs", "/o/libcadd.a", "/o/cadd.o"]));
    assert_eq!(
        nim_staticlib_args("/o/nimcache", "/o/libdoubler.a", "/f/doubler.nim"),
        strings(&["c", "--app:staticlib", "--nimcache:/o/nimcache", "-o:/o/libdoubler.a", "/f/doubler.nim"])
    );
    let features = strings(&["default", "ffi"]);
    assert_eq!(
        rust_object_args("2021", "app", &features, "/o/app.o", "/f/app/src/main.rs"),
        strings(&[
            "--edition", "2021", "--crate-name", "app", "--crate-type", "bin", "--cfg", "feature=\"default\"", "--cfg",
            "feature=\"ffi\"", "--emit", "obj", "-o", "/o/app.o", "/f/app/src/main.rs"
        ])
    );
    assert_eq!(
        link_args("2021", "app", &vec![], &strings(&["/o/c", "/o/n"]), "/o/app", "/f/main.rs"),
        strings(&[
            "--edition", "2021", "--crate-name", "app", "--crate-type", "bin", "-L", "/o/c", "-L", "/o/n", "-o", "/o/app",
            "/f/main.rs"
        ])
    );
}

#[test]
fn link_search_dirs_are_the_archive_directories_each_once() {
    assert_eq!(
        link_search_dirs(&strings(&["/o/c/libcadd.a", "/o/cpp/libcppmax.a", "/o/c/libdoubler.a"])),
        Ok(strings(&["/o/c", "/o/cpp"]))
    );
    assert_eq!(
        link_search_dirs(&strings(&["/o/c/libcadd.a", "/o//c/libx.a"])),
        Ok(strings(&["/o/c"]))
    );
    assert_eq!(
        link_search_dirs(&strings(&["/"])),
        Err(G2Error::Io("archive path '/' has no parent directory".to_string()))
    );
}
