//! Verified core of the laminaria run/measurement crate.

pub mod text;
pub mod json;
pub mod artifact_inventory;
pub mod resource_scheduler;
pub mod dependency_graph;
pub mod incremental_executor;
pub mod command_runner;
pub mod cross_ecosystem_ingest;
pub mod cargo_telemetry;
pub mod toolchain_resolve;
pub mod reuse;
pub mod clock;
pub mod nim_wrapper;
pub mod nim_telemetry;
pub mod types;
pub mod store;
pub mod project_build;
pub mod tracer;
pub mod scenario;
pub mod g2_execute;
pub mod exact_artifact_harness;
pub mod self_build;
pub mod compiler_work_executor;
pub mod incremental_session_client;
pub mod fixture_input;
