use laminaria_run::compiler_work_executor::CompilerWorkExecutionError as E;
use laminaria_run::incremental_executor::ExecutorError;
use laminaria_run::incremental_session_client::IncrementalSessionError;

fn s(x: &str) -> String {
    x.to_string()
}

#[test]
fn compiler_work_errors_quote_the_action_and_say_what_went_wrong() {
    assert_eq!(E::MissingDescriptor { action_id: s("a1") }.message(), "action \"a1\" has no compiler_work descriptor");
    assert_eq!(
        E::UnsupportedActionKind { action_id: s("b"), kind: s("CargoBuild") }.message(),
        "action \"b\" has kind CargoBuild, which this compiler-work executor does not dispatch -- delegated-build \
         kinds stay self_build's/project_build's own role"
    );
    assert_eq!(
        E::UnsupportedLanguage { action_id: s("c"), language: s("zig") }.message(),
        "action \"c\"'s LowerSource descriptor names language \"zig\", which this executor does not know how to lower"
    );
    assert_eq!(
        E::SourceReadFailed { action_id: s("d"), path: s("/s.rs"), detail: s("No such file") }.message(),
        "action \"d\" could not read source file \"/s.rs\": No such file"
    );
    assert_eq!(
        E::MissingValidatedInput { action_id: s("e"), artifact_id: s("prog") }.message(),
        "action \"e\" names semantic input \"prog\", which this store has no *validated* Program for -- an \
         unvalidated candidate is never substituted"
    );
    assert_eq!(
        E::MissingRequestedFunctionToEvaluate { action_id: s("f") }.message(),
        "action \"f\"'s EvaluateEvidence descriptor names no function to evaluate (requested_functions is empty)"
    );
    assert_eq!(E::EvaluationFailed { action_id: s("g"), detail: s("boom") }.message(), "action \"g\"'s evaluation failed: boom");
}

#[test]
fn session_and_executor_errors_read_as_their_messages() {
    assert_eq!(
        IncrementalSessionError::Spawn(s("not found")).message(),
        "failed to spawn laminaria-incremental-planner: not found"
    );
    assert_eq!(
        IncrementalSessionError::ChildExited.message(),
        "laminaria-incremental-planner exited before responding to a command that was sent"
    );
    assert_eq!(
        IncrementalSessionError::MalformedResponse(s("EOF")).message(),
        "the incremental planner's stdout line was not a well-formed IncrementalPlannerResponse: EOF"
    );
    assert_eq!(
        ExecutorError::Session(IncrementalSessionError::ReadResponse(s("x"))).message(),
        "failed to read a response from the incremental planner's stdout: x"
    );
    assert_eq!(
        ExecutorError::UnexpectedRejected { detail: s("d") }.message(),
        "session rejected a delta this executor did not expect: d"
    );
}
