use laminaria_run::nim_wrapper::{wrapper_args, ENV_WRAPPED_CC};

#[test]
fn every_profile_gets_the_wrapper_as_compiler_and_linker() {
    assert_eq!(
        wrapper_args("/bin/w"),
        vec![
            "--clang.exe:/bin/w".to_string(),
            "--clang.linkerexe:/bin/w".to_string(),
            "--gcc.exe:/bin/w".to_string(),
            "--gcc.linkerexe:/bin/w".to_string(),
        ]
    );
    assert_eq!(ENV_WRAPPED_CC, "LAMINARIA_WRAPPED_CC");
}
