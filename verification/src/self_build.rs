//! The project's own self-build: which verified toolchain builds a
//! generation (resolved before anything runs, never whatever is on
//! `PATH`), the two build commands (the Nim planner with `nim c`, the Rust
//! host workspace with `cargo build`), each into the generation's own
//! isolated staging area, and the assembly of their outputs into the
//! generation root. Running the commands and copying files happen
//! outside this module.

use vstd::prelude::*;

use crate::project_build::{binary_name, cargo_target_dir, nim_cache_dir, nim_output_dir};
use crate::resource_scheduler::strings_view;
use crate::text::{join, join_path, owned, push_str};
use crate::toolchain_resolve::{NimToolchainFacts, RustToolchainFacts};
use crate::types::RootCommand;

verus! {

pub const SELF_BUILD_WORKLOAD_ID: &'static str = "laminaria-self-build";

pub const ARTIFACT_PLANNER_BIN: &'static str = "laminaria-planner-bin";

pub const ARTIFACT_HOST_BINS: &'static str = "laminaria-host-bins";

pub const ARTIFACT_GENERATION_ROOT: &'static str = "generation-root";

pub const ACTION_COMPILE_NIM_PLANNER: &'static str = "compile-nim-planner";

pub const ACTION_COMPILE_RUST_HOST: &'static str = "compile-rust-host";

pub const ACTION_INTEGRATE: &'static str = "integrate";

/// The planner's executable name.
pub const PLANNER_BINARY_NAME: &'static str = "laminaria-planner";

/// The host binaries the workspace build produces, which must sit next to
/// the planner in the generation root.
pub open spec fn host_binary_names() -> Seq<Seq<char>> {
    seq!["laminaria"@, "laminaria-rustc-wrapper"@, "laminaria-cc-wrapper"@]
}

/// Why a self-build generation failed. Outside errors are held as their
/// text; a planner rejection as the `Debug` text of its kind and its
/// detail.
#[derive(Debug, Clone, PartialEq, Eq)]
pub enum SelfBuildError {
    Planner(String),
    Rejected { reason_kind: String, reason_detail: String },
    InvalidPlan(String),
    /// The lock file could not be loaded, or does not resolve both a Rust
    /// and a Nim toolchain with a real executable path.
    ToolchainUnresolved(String),
    ActionFailed { action_id: String, detail: String },
    Io(String),
}

/// The human-readable text of a self-build error.
pub open spec fn self_build_error_text(e: SelfBuildError) -> Seq<char> {
    match e {
        SelfBuildError::Planner(d) => "failed to call the Nim planner: "@ + d@,
        SelfBuildError::Rejected { reason_kind, reason_detail } => "the Nim planner rejected this self-build's PlanningInput ("@
            + reason_kind@ + "): "@ + reason_detail@,
        SelfBuildError::InvalidPlan(d) => "the Nim planner's ExecutionPlan failed Rust-side validation: "@ + d@,
        SelfBuildError::ToolchainUnresolved(d) => "could not resolve a verified Rust and Nim toolchain before executing: "@
            + d@,
        SelfBuildError::ActionFailed { action_id, detail } => "self-build action '"@ + action_id@ + "' failed: "@ + detail@,
        SelfBuildError::Io(d) => "I/O error during self-build: "@ + d@,
    }
}

impl SelfBuildError {
    /// The error's human-readable text.
    pub fn message(&self) -> (r: String)
        ensures
            r@ == self_build_error_text(*self),
    {
        let (head, body, tail): (&str, String, String) = match self {
            SelfBuildError::Planner(d) => ("failed to call the Nim planner: ", d.clone(), String::new()),
            SelfBuildError::Rejected { reason_kind, reason_detail } => {
                let mut b = reason_kind.clone();
                push_str(&mut b, "): ");
                ("the Nim planner rejected this self-build's PlanningInput (", b, reason_detail.clone())
            },
            SelfBuildError::InvalidPlan(d) => (
                "the Nim planner's ExecutionPlan failed Rust-side validation: ",
                d.clone(),
                String::new(),
            ),
            SelfBuildError::ToolchainUnresolved(d) => (
                "could not resolve a verified Rust and Nim toolchain before executing: ",
                d.clone(),
                String::new(),
            ),
            SelfBuildError::ActionFailed { action_id, detail } => {
                let mut b = action_id.clone();
                push_str(&mut b, "' failed: ");
                ("self-build action '", b, detail.clone())
            },
            SelfBuildError::Io(d) => ("I/O error during self-build: ", d.clone(), String::new()),
        };
        let mut m = owned(head);
        push_str(&mut m, body.as_str());
        push_str(&mut m, tail.as_str());
        proof {
            assert(m@ =~= self_build_error_text(*self));
        }
        m
    }
}

/// The verified executables a generation is built with.
#[derive(Debug, Clone, PartialEq, Eq)]
pub struct VerifiedToolchain {
    pub cargo: String,
    pub nim: String,
}

/// Requires the toolchain lock to have loaded (`lock_load_error` is the
/// `Debug` text of its load error, if any) and its first Rust and first
/// Nim toolchain to have a resolved `cargo` and `nim`; anything less
/// fails closed, before anything runs.
pub fn resolve_verified_toolchain(
    lock_path: &str,
    lock_load_error: Option<&str>,
    rust: &Vec<RustToolchainFacts>,
    nim: &Vec<NimToolchainFacts>,
) -> (r: Result<VerifiedToolchain, SelfBuildError>)
    ensures
        match lock_load_error {
            Some(d) => r matches Err(SelfBuildError::ToolchainUnresolved(m))
                && m@ == "failed to load toolchain lock file "@ + lock_path@ + ": "@ + d@,
            None => if rust@.len() == 0 {
                r matches Err(SelfBuildError::ToolchainUnresolved(m))
                    && m@ == "toolchain lock file "@ + lock_path@ + " declares no Rust toolchain"@
            } else if nim@.len() == 0 {
                r matches Err(SelfBuildError::ToolchainUnresolved(m))
                    && m@ == "toolchain lock file "@ + lock_path@ + " declares no Nim toolchain"@
            } else if rust@[0].cargo is None {
                r matches Err(SelfBuildError::ToolchainUnresolved(m)) && m@ == "Rust toolchain '"@
                    + rust@[0].logical_name@
                    + "' has no resolved cargo executable (see its own resolution notes from `laminaria doctor`)"@
            } else if nim@[0].nim is None {
                r matches Err(SelfBuildError::ToolchainUnresolved(m)) && m@ == "Nim toolchain '"@
                    + nim@[0].logical_name@
                    + "' has no resolved nim executable (see its own resolution notes from `laminaria doctor`)"@
            } else {
                r matches Ok(t) && t.cargo@ == rust@[0].cargo.unwrap()@ && t.nim@ == nim@[0].nim.unwrap()@
            },
        },
{
    match lock_load_error {
        Some(d) => {
            let mut m = owned("failed to load toolchain lock file ");
            push_str(&mut m, lock_path);
            push_str(&mut m, ": ");
            push_str(&mut m, d);
            return Err(SelfBuildError::ToolchainUnresolved(m));
        },
        None => {},
    }
    if rust.len() == 0 {
        let mut m = owned("toolchain lock file ");
        push_str(&mut m, lock_path);
        push_str(&mut m, " declares no Rust toolchain");
        return Err(SelfBuildError::ToolchainUnresolved(m));
    }
    if nim.len() == 0 {
        let mut m = owned("toolchain lock file ");
        push_str(&mut m, lock_path);
        push_str(&mut m, " declares no Nim toolchain");
        return Err(SelfBuildError::ToolchainUnresolved(m));
    }
    let cargo = match &rust[0].cargo {
        Some(c) => c.clone(),
        None => {
            let mut m = owned("Rust toolchain '");
            push_str(&mut m, rust[0].logical_name.as_str());
            push_str(&mut m, "' has no resolved cargo executable (see its own resolution notes from `laminaria doctor`)");
            return Err(SelfBuildError::ToolchainUnresolved(m));
        },
    };
    let nim_path = match &nim[0].nim {
        Some(n) => n.clone(),
        None => {
            let mut m = owned("Nim toolchain '");
            push_str(&mut m, nim[0].logical_name.as_str());
            push_str(&mut m, "' has no resolved nim executable (see its own resolution notes from `laminaria doctor`)");
            return Err(SelfBuildError::ToolchainUnresolved(m));
        },
    };
    Ok(VerifiedToolchain { cargo, nim: nim_path })
}

/// The planner's build: the verified `nim` compiling
/// `src/laminaria_planner.nim` from the planner's directory, with its
/// nimcache and output in the generation's staging area.
pub fn nim_build_root(repo_root: &str, generation_root: &str, nim_binary: &str, windows: bool) -> (r: RootCommand)
    ensures
        r.program@ == nim_binary@,
        strings_view(r.args@) == seq![
            "c"@,
            "--path:src"@,
            "--nimcache:"@ + join_path(join_path(generation_root@, ".build"@), "nimcache"@),
            "-o:"@ + join_path(
                join_path(join_path(generation_root@, ".build"@), "nim-out"@),
                if windows { PLANNER_BINARY_NAME@ + ".exe"@ } else { PLANNER_BINARY_NAME@ },
            ),
            "src/laminaria_planner.nim"@,
        ],
        r.cwd matches Some(c) && c@ == join_path(repo_root@, "nim-planner"@),
        r.env_overrides@.len() == 0,
{
    let out_dir = nim_output_dir(generation_root);
    let name = binary_name(PLANNER_BINARY_NAME, windows);
    let output_path = join(out_dir.as_str(), name.as_str());
    let mut nimcache = owned("--nimcache:");
    let cache = nim_cache_dir(generation_root);
    push_str(&mut nimcache, cache.as_str());
    let mut out_flag = owned("-o:");
    push_str(&mut out_flag, output_path.as_str());
    let mut args: Vec<String> = Vec::new();
    args.push(owned("c"));
    args.push(owned("--path:src"));
    args.push(nimcache);
    args.push(out_flag);
    args.push(owned("src/laminaria_planner.nim"));
    proof {
        assert(strings_view(args@) =~= seq![
            "c"@,
            "--path:src"@,
            "--nimcache:"@ + join_path(join_path(generation_root@, ".build"@), "nimcache"@),
            "-o:"@ + join_path(
                join_path(join_path(generation_root@, ".build"@), "nim-out"@),
                if windows { PLANNER_BINARY_NAME@ + ".exe"@ } else { PLANNER_BINARY_NAME@ },
            ),
            "src/laminaria_planner.nim"@,
        ]);
    }
    RootCommand {
        program: owned(nim_binary),
        args,
        cwd: Some(join(repo_root, "nim-planner")),
        env_overrides: Vec::new(),
    }
}

/// The host workspace's build: the verified `cargo` building the whole
/// workspace in release mode from the repository root, into the
/// generation's own target directory.
pub fn cargo_build_root(repo_root: &str, generation_root: &str, cargo_binary: &str) -> (r: RootCommand)
    ensures
        r.program@ == cargo_binary@,
        strings_view(r.args@) == seq![
            "build"@,
            "--workspace"@,
            "--release"@,
            "--target-dir"@,
            join_path(join_path(generation_root@, ".build"@), "cargo-target"@),
        ],
        r.cwd matches Some(c) && c@ == repo_root@,
        r.env_overrides@.len() == 0,
{
    let mut args: Vec<String> = Vec::new();
    args.push(owned("build"));
    args.push(owned("--workspace"));
    args.push(owned("--release"));
    args.push(owned("--target-dir"));
    args.push(cargo_target_dir(generation_root));
    proof {
        assert(strings_view(args@) =~= seq![
            "build"@,
            "--workspace"@,
            "--release"@,
            "--target-dir"@,
            join_path(join_path(generation_root@, ".build"@), "cargo-target"@),
        ]);
    }
    RootCommand { program: owned(cargo_binary), args, cwd: Some(owned(repo_root)), env_overrides: Vec::new() }
}

/// An executable's file name on the platform.
pub open spec fn exe_name(base: Seq<char>, windows: bool) -> Seq<char> {
    if windows {
        base + ".exe"@
    } else {
        base
    }
}

/// What the integration step copies, as `(source, destination)` pairs:
/// the planner from the Nim output directory, then each host binary from
/// the Cargo release directory, all into the generation root.
pub open spec fn integration_copies(generation_root: Seq<char>, windows: bool) -> Seq<(Seq<char>, Seq<char>)> {
    let release = join_path(join_path(join_path(generation_root, ".build"@), "cargo-target"@), "release"@);
    let planner = exe_name(PLANNER_BINARY_NAME@, windows);
    seq![(join_path(join_path(join_path(generation_root, ".build"@), "nim-out"@), planner), join_path(generation_root, planner))]
        + host_binary_names().map_values(
        |n: Seq<char>| (join_path(release, exe_name(n, windows)), join_path(generation_root, exe_name(n, windows))),
    )
}

/// The copies that assemble a generation root, in order.
pub fn integration_plan(generation_root: &str, windows: bool) -> (r: Vec<(String, String)>)
    ensures
        r@.len() == integration_copies(generation_root@, windows).len(),
        forall|i: int| 0 <= i < r@.len() ==> (#[trigger] r@[i]).0@ == integration_copies(generation_root@, windows)[i].0
            && r@[i].1@ == integration_copies(generation_root@, windows)[i].1,
{
    let mut out: Vec<(String, String)> = Vec::new();
    let planner = binary_name(PLANNER_BINARY_NAME, windows);
    let nim_out = nim_output_dir(generation_root);
    out.push((join(nim_out.as_str(), planner.as_str()), join(generation_root, planner.as_str())));
    let target = cargo_target_dir(generation_root);
    let release = join(target.as_str(), "release");
    let names: [&str; 3] = ["laminaria", "laminaria-rustc-wrapper", "laminaria-cc-wrapper"];
    let mut k: usize = 0;
    while k < 3
        invariant
            k <= 3,
            names@.len() == 3,
            names@[0]@ == "laminaria"@,
            names@[1]@ == "laminaria-rustc-wrapper"@,
            names@[2]@ == "laminaria-cc-wrapper"@,
            release@ == join_path(join_path(join_path(generation_root@, ".build"@), "cargo-target"@), "release"@),
            out@.len() == k + 1,
            out@[0].0@ == integration_copies(generation_root@, windows)[0].0,
            out@[0].1@ == integration_copies(generation_root@, windows)[0].1,
            forall|i: int| 1 <= i < out@.len() ==> (#[trigger] out@[i]).0@ == integration_copies(generation_root@, windows)[i].0
                && out@[i].1@ == integration_copies(generation_root@, windows)[i].1,
        decreases 3 - k,
    {
        let name = binary_name(names[k], windows);
        let ghost prev = out@;
        out.push((join(release.as_str(), name.as_str()), join(generation_root, name.as_str())));
        proof {
            assert(host_binary_names()[k as int] == names@[k as int]@);
            assert forall|i: int| 1 <= i < out@.len() implies (#[trigger] out@[i]).0@ == integration_copies(generation_root@, windows)[i].0
                && out@[i].1@ == integration_copies(generation_root@, windows)[i].1 by {
                if i < prev.len() {
                    assert(out@[i] == prev[i]);
                }
            }
        }
        k = k + 1;
    }
    out
}

/// The outcome of the integration step once the copies were attempted:
/// success with the assembled root, or failure naming every source that
/// was not there (`missing`, in order, joined by `, `).
pub fn integrate_outcome(generation_root: &str, missing: &Vec<String>) -> (r: (bool, String))
    ensures
        r.0 == (missing@.len() == 0),
        r.0 ==> r.1@ == "integrate: assembled generation root at "@ + generation_root@,
        !r.0 ==> r.1@ == "integrate: expected upstream action output(s) not found: "@ + joined(strings_view(missing@)),
{
    if missing.len() == 0 {
        let mut m = owned("integrate: assembled generation root at ");
        push_str(&mut m, generation_root);
        return (true, m);
    }
    let mut m = owned("integrate: expected upstream action output(s) not found: ");
    let ghost head = m@;
    let mut k: usize = 0;
    while k < missing.len()
        invariant
            k <= missing@.len(),
            head == "integrate: expected upstream action output(s) not found: "@,
            m@ == head + joined(strings_view(missing@).take(k as int)),
        decreases missing@.len() - k,
    {
        let ghost before = m@;
        if k > 0 {
            push_str(&mut m, ", ");
        }
        push_str(&mut m, missing[k].as_str());
        proof {
            let s = strings_view(missing@);
            assert(s.take(k + 1).drop_last() =~= s.take(k as int));
            assert(s.take(k + 1).last() == missing@[k as int]@);
            assert(m@ =~= head + joined(s.take(k + 1)));
        }
        k = k + 1;
    }
    proof {
        assert(strings_view(missing@).take(missing@.len() as int) =~= strings_view(missing@));
    }
    (false, m)
}

/// Texts joined by `, `.
pub open spec fn joined(items: Seq<Seq<char>>) -> Seq<char>
    decreases items.len(),
{
    if items.len() == 0 {
        Seq::empty()
    } else if items.len() == 1 {
        items[0]
    } else {
        joined(items.drop_last()) + ", "@ + items.last()
    }
}

/// What a traced build action's outcome says of it.
pub fn action_detail(action_id: &str, run_id: &str, succeeded: bool) -> (r: String)
    ensures
        r@ == if succeeded {
            "action '"@ + action_id@ + "' completed successfully (run "@ + run_id@ + ")"@
        } else {
            "action '"@ + action_id@ + "' failed (see run "@ + run_id@ + ")"@
        },
{
    let mut m = owned("action '");
    push_str(&mut m, action_id);
    if succeeded {
        push_str(&mut m, "' completed successfully (run ");
    } else {
        push_str(&mut m, "' failed (see run ");
    }
    push_str(&mut m, run_id);
    push_str(&mut m, ")");
    m
}

} // verus!
