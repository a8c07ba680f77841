# laminaria-run

The run and measurement layer of a cross-ecosystem (Rust, Nim, C, C++)
build system: a resource-aware scheduler for compiler work, the
incremental executor's CPU-slot accounting, read-only ingestion of
Cargo/Nimble/toolchain facts, the no-op-safe artifact inventory, the
artifact reuse decision, compiler telemetry, and the builds and
qualification of the native executable chain.

## Layout

- `src/` is the library, verified with Verus. Each module states its
  behaviour in `requires`/`ensures` contracts over mathematical models
  (`Seq`, `Set`, `Map`, `int`) and proves it; the properties that span
  several operations are public proof functions named `law_*`.
  - `resource_scheduler`, `dependency_graph`: admission of work instances
    within CPU, memory and process budgets, dependency waits, failure and
    cancellation propagation to consumers, numbered lifecycle
    transitions.
  - `incremental_executor`: the CPU-slot trace and its replay check.
  - `artifact_inventory`: the pre/post snapshot diff and what gets hashed.
  - `cross_ecosystem_ingest`, `fixture_input`, `json`: manifest facts,
    default feature activation, and the dependency-resolution input.
  - `reuse`, `toolchain_resolve`: reuse decisions and verified toolchains.
  - `cargo_telemetry`, `nim_telemetry`: compiler telemetry.
  - `project_build`, `self_build`, `g2_execute`, `exact_artifact_harness`,
    `scenario`, `tracer`, `types`, `store`, `clock`, `nim_wrapper`,
    `command_runner`, `compiler_work_executor`,
    `incremental_session_client`: commands, evidence and reports.
  - `text`: verified string and path helpers shared by the modules.
- `tests/` exercises the library on concrete values.
- `app/` is the unverified shell: spawning and reaping processes,
  walking and hashing files, parsing JSON text, floating-point
  statistics, and serializable copies of the library's types.
