//! What the compiler-work executor reports when an action cannot be
//! dispatched or fails. The executor itself works on the intermediate
//! representation of a companion crate that is not part of this library;
//! its errors are rendered here, their outside parts held as text.

use vstd::prelude::*;

use crate::text::{debug_quoted, debug_str, owned, push_str};

verus! {

/// Why a compiler-work action could not be dispatched or failed. The
/// action's kind and the lowering diagnostics are held as their `Debug`
/// text, a validation error as its display text.
#[derive(Debug, Clone, PartialEq, Eq)]
pub enum CompilerWorkExecutionError {
    MissingDescriptor { action_id: String },
    UnsupportedActionKind { action_id: String, kind: String },
    UnsupportedLanguage { action_id: String, language: String },
    MissingSourceProvenance { action_id: String },
    SourceReadFailed { action_id: String, path: String, detail: String },
    LoweringFailed { action_id: String, diagnostics: String },
    MissingSemanticInput { action_id: String },
    MissingCandidateInput { action_id: String, artifact_id: String },
    ValidationFailed { action_id: String, detail: String },
    MissingValidatedInput { action_id: String, artifact_id: String },
    MissingTransformParameters { action_id: String },
    TransformFailed { action_id: String, detail: String },
    MissingRequestedFunctionToEvaluate { action_id: String },
    MissingTestInputs { action_id: String },
    EvaluationFailed { action_id: String, detail: String },
}

/// The human-readable text of a compiler-work error.
pub open spec fn compiler_work_error_text(e: CompilerWorkExecutionError) -> Seq<char> {
    match e {
        CompilerWorkExecutionError::MissingDescriptor { action_id } => "action "@ + debug_str(action_id@) + " has no compiler_work descriptor"@,
        CompilerWorkExecutionError::UnsupportedActionKind { action_id, kind } => "action "@ + debug_str(action_id@) + " has kind "@ + kind@ + ", which this compiler-work executor does not dispatch -- delegated-build kinds stay self_build's/project_build's own role"@,
        CompilerWorkExecutionError::UnsupportedLanguage { action_id, language } => "action "@ + debug_str(action_id@) + "'s LowerSource descriptor names language "@ + debug_str(language@) + ", which this executor does not know how to lower"@,
        CompilerWorkExecutionError::MissingSourceProvenance { action_id } => "action "@ + debug_str(action_id@) + "'s LowerSource descriptor has no source_provenance"@,
        CompilerWorkExecutionError::SourceReadFailed { action_id, path, detail } => "action "@ + debug_str(action_id@) + " could not read source file "@ + debug_str(path@) + ": "@ + detail@,
        CompilerWorkExecutionError::LoweringFailed { action_id, diagnostics } => "action "@ + debug_str(action_id@) + "'s lowering failed: "@ + diagnostics@,
        CompilerWorkExecutionError::MissingSemanticInput { action_id } => "action "@ + debug_str(action_id@) + "'s descriptor has no semantic_input_artifact_ids entry"@,
        CompilerWorkExecutionError::MissingCandidateInput { action_id, artifact_id } => "action "@ + debug_str(action_id@) + " names semantic input "@ + debug_str(artifact_id@) + ", which this store has no candidate Program for"@,
        CompilerWorkExecutionError::ValidationFailed { action_id, detail } => "action "@ + debug_str(action_id@) + "'s ValidateIr failed: "@ + detail@,
        CompilerWorkExecutionError::MissingValidatedInput { action_id, artifact_id } => "action "@ + debug_str(action_id@) + " names semantic input "@ + debug_str(artifact_id@) + ", which this store has no *validated* Program for -- an unvalidated candidate is never substituted"@,
        CompilerWorkExecutionError::MissingTransformParameters { action_id } => "action "@ + debug_str(action_id@) + "'s TransformFunction descriptor has no transform parameters"@,
        CompilerWorkExecutionError::TransformFailed { action_id, detail } => "action "@ + debug_str(action_id@) + "'s transform failed: "@ + detail@,
        CompilerWorkExecutionError::MissingRequestedFunctionToEvaluate { action_id } => "action "@ + debug_str(action_id@) + "'s EvaluateEvidence descriptor names no function to evaluate (requested_functions is empty)"@,
        CompilerWorkExecutionError::MissingTestInputs { action_id } => "action "@ + debug_str(action_id@) + "'s EvaluateEvidence descriptor has no test_inputs"@,
        CompilerWorkExecutionError::EvaluationFailed { action_id, detail } => "action "@ + debug_str(action_id@) + "'s evaluation failed: "@ + detail@,
    }
}

impl CompilerWorkExecutionError {
    /// The error's human-readable text.
    pub fn message(&self) -> (r: String)
        ensures
            r@ == compiler_work_error_text(*self),
    {
        match self {
            CompilerWorkExecutionError::MissingDescriptor { action_id } => {
                let mut m = owned("action ");
                let q = debug_quoted(action_id.as_str());
                push_str(&mut m, q.as_str());
                push_str(&mut m, " has no compiler_work descriptor");
                m
            },
            CompilerWorkExecutionError::UnsupportedActionKind { action_id, kind } => {
                let mut m = owned("action ");
                let q = debug_quoted(action_id.as_str());
                push_str(&mut m, q.as_str());
                push_str(&mut m, " has kind ");
                push_str(&mut m, kind.as_str());
                push_str(&mut m, ", which this compiler-work executor does not dispatch -- delegated-build kinds stay self_build's/project_build's own role");
                m
            },
            CompilerWorkExecutionError::UnsupportedLanguage { action_id, language } => {
                let mut m = owned("action ");
                let q = debug_quoted(action_id.as_str());
                push_str(&mut m, q.as_str());
                push_str(&mut m, "'s LowerSource descriptor names language ");
                let q = debug_quoted(language.as_str());
                push_str(&mut m, q.as_str());
                push_str(&mut m, ", which this executor does not know how to lower");
                m
            },
            CompilerWorkExecutionError::MissingSourceProvenance { action_id } => {
                let mut m = owned("action ");
                let q = debug_quoted(action_id.as_str());
                push_str(&mut m, q.as_str());
                push_str(&mut m, "'s LowerSource descriptor has no source_provenance");
                m
            },
            CompilerWorkExecutionError::SourceReadFailed { action_id, path, detail } => {
                let mut m = owned("action ");
                let q = debug_quoted(action_id.as_str());
                push_str(&mut m, q.as_str());
                push_str(&mut m, " could not read source file ");
                let q = debug_quoted(path.as_str());
                push_str(&mut m, q.as_str());
                push_str(&mut m, ": ");
                push_str(&mut m, detail.as_str());
                m
            },
            CompilerWorkExecutionError::LoweringFailed { action_id, diagnostics } => {
                let mut m = owned("action ");
                let q = debug_quoted(action_id.as_str());
                push_str(&mut m, q.as_str());
                push_str(&mut m, "'s lowering failed: ");
                push_str(&mut m, diagnostics.as_str());
                m
            },
            CompilerWorkExecutionError::MissingSemanticInput { action_id } => {
                let mut m = owned("action ");
                let q = debug_quoted(action_id.as_str());
                push_str(&mut m, q.as_str());
                push_str(&mut m, "'s descriptor has no semantic_input_artifact_ids entry");
                m
            },
            CompilerWorkExecutionError::MissingCandidateInput { action_id, artifact_id } => {
                let mut m = owned("action ");
                let q = debug_quoted(action_id.as_str());
                push_str(&mut m, q.as_str());
                push_str(&mut m, " names semantic input ");
                let q = debug_quoted(artifact_id.as_str());
                push_str(&mut m, q.as_str());
                push_str(&mut m, ", which this store has no candidate Program for");
                m
            },
            CompilerWorkExecutionError::ValidationFailed { action_id, detail } => {
                let mut m = owned("action ");
                let q = debug_quoted(action_id.as_str());
                push_str(&mut m, q.as_str());
                push_str(&mut m, "'s ValidateIr failed: ");
                push_str(&mut m, detail.as_str());
                m
            },
            CompilerWorkExecutionError::MissingValidatedInput { action_id, artifact_id } => {
                let mut m = owned("action ");
                let q = debug_quoted(action_id.as_str());
                push_str(&mut m, q.as_str());
                push_str(&mut m, " names semantic input ");
                let q = debug_quoted(artifact_id.as_str());
                push_str(&mut m, q.as_str());
                push_str(&mut m, ", which this store has no *validated* Program for -- an unvalidated candidate is never substituted");
                m
            },
            CompilerWorkExecutionError::MissingTransformParameters { action_id } => {
                let mut m = owned("action ");
                let q = debug_quoted(action_id.as_str());
                push_str(&mut m, q.as_str());
                push_str(&mut m, "'s TransformFunction descriptor has no transform parameters");
                m
            },
            CompilerWorkExecutionError::TransformFailed { action_id, detail } => {
                let mut m = owned("action ");
                let q = debug_quoted(action_id.as_str());
                push_str(&mut m, q.as_str());
                push_str(&mut m, "'s transform failed: ");
                push_str(&mut m, detail.as_str());
                m
            },
            CompilerWorkExecutionError::MissingRequestedFunctionToEvaluate { action_id } => {
                let mut m = owned("action ");
                let q = debug_quoted(action_id.as_str());
                push_str(&mut m, q.as_str());
                push_str(&mut m, "'s EvaluateEvidence descriptor names no function to evaluate (requested_functions is empty)");
                m
            },
            CompilerWorkExecutionError::MissingTestInputs { action_id } => {
                let mut m = owned("action ");
                let q = debug_quoted(action_id.as_str());
                push_str(&mut m, q.as_str());
                push_str(&mut m, "'s EvaluateEvidence descriptor has no test_inputs");
                m
            },
            CompilerWorkExecutionError::EvaluationFailed { action_id, detail } => {
                let mut m = owned("action ");
                let q = debug_quoted(action_id.as_str());
                push_str(&mut m, q.as_str());
                push_str(&mut m, "'s evaluation failed: ");
                push_str(&mut m, detail.as_str());
                m
            },
        }
    }
}

} // verus!
