use laminaria_run::command_runner::{is_permitted, CommandRunner, IngestError, RealCommandRunner, RecordingCommandRunner};

/// A runner that answers every command with the same output.
struct Echo {
    stdout: String,
    asked: usize,
}

impl CommandRunner for Echo {
    fn run(&mut self, _program: &str, _args: &[&str], _cwd: Option<&str>) -> Result<String, IngestError> {
        self.asked += 1;
        Ok(self.stdout.clone())
    }
}

fn echo(stdout: &str) -> Echo {
    Echo { stdout: stdout.to_string(), asked: 0 }
}

#[test]
fn the_three_permitted_commands_are_recognized() {
    assert!(is_permitted(
        "cargo",
        &["metadata", "--no-deps", "--format-version", "1", "--manifest-path", "x"]
    ));
    assert!(is_permitted("nimble", &["dump", "--json"]));
    assert!(is_permitted("rustc", &["-vV"]));
}

#[test]
fn every_forbidden_command_the_work_instruction_names_is_rejected() {
    for (program, args) in [
        ("cargo", vec!["build"]),
        ("cargo", vec!["run"]),
        ("nimble", vec!["build"]),
        ("nimble", vec!["install"]),
        ("rustc", vec!["main.rs"]),
        ("nim", vec!["c", "main.nim"]),
        ("nim", vec!["cpp", "main.nim"]),
        ("nlvm", vec!["main.nim"]),
        ("cc", vec!["-c", "a.c"]),
        ("clang", vec!["-c", "a.c"]),
        ("gcc", vec!["-c", "a.c"]),
        ("c++", vec!["-c", "a.cpp"]),
        ("ar", vec!["rcs", "a.a", "a.o"]),
        ("ld", vec!["a.o"]),
        ("nm", vec!["-g", "a.a"]),
    ] {
        assert!(!is_permitted(program, &args), "{program} {args:?} must be forbidden");
    }
}

#[test]
fn the_real_runner_refuses_a_forbidden_command_without_spawning_it() {
    let runner = RealCommandRunner;
    let result = runner.check("cc", &["-c", "a.c"]);
    assert!(matches!(result, Err(IngestError::ForbiddenCommand(_))));
}

#[test]
fn the_recording_runner_records_every_attempted_command() {
    let mut runner = RecordingCommandRunner::new(echo("host: x86_64-unknown-linux-gnu\n"));
    let _ = runner.run("rustc", &["-vV"], None);
    let recorded = runner.recorded_commands();
    assert_eq!(recorded.len(), 1);
    assert_eq!(recorded[0].0, "rustc");
}

#[test]
fn a_refused_command_is_named_with_its_arguments() {
    assert_eq!(
        RealCommandRunner.check("cc", &["-c", "a.c"]),
        Err(IngestError::ForbiddenCommand("cc [\"-c\", \"a.c\"]".to_string()))
    );
    assert_eq!(RealCommandRunner.check("rustc", &["-vV"]), Ok(()));
}

#[test]
fn cargo_metadata_needs_no_deps_and_format_version_one() {
    assert!(!is_permitted("cargo", &["metadata", "--format-version", "1"]));
    assert!(!is_permitted("cargo", &["metadata", "--no-deps", "--format-version", "2"]));
    assert!(!is_permitted("cargo", &["--no-deps", "metadata", "--format-version", "1"]));
    assert!(!is_permitted("cargo", &[]));
    assert!(!is_permitted("nimble", &["dump", "--json", "x"]));
    assert!(!is_permitted("rustc", &["-vV", "-x"]));
}

#[test]
fn the_recording_runner_records_in_call_order_and_passes_each_command_on() {
    let mut runner = RecordingCommandRunner::new(echo("out"));
    assert_eq!(runner.run("nimble", &["dump", "--json"], Some("/p")), Ok("out".to_string()));
    assert_eq!(runner.run("rustc", &["-vV"], None), Ok("out".to_string()));
    let recorded = runner.recorded_commands();
    assert_eq!(recorded.len(), 2);
    assert_eq!(recorded[0], ("nimble".to_string(), vec!["dump".to_string(), "--json".to_string()]));
    assert_eq!(recorded[1], ("rustc".to_string(), vec!["-vV".to_string()]));
    assert!(RecordingCommandRunner::new(echo("")).recorded_commands().is_empty());
}

#[test]
fn ingest_error_messages_carry_their_detail() {
    assert_eq!(IngestError::Io("x".to_string()).message(), "ingestion I/O error: x");
    assert_eq!(IngestError::Parse("y".to_string()).message(), "ingestion parse error: y");
    assert_eq!(
        IngestError::ForbiddenCommand("z".to_string()).message(),
        "forbidden command in G1 ingestion: z"
    );
}
