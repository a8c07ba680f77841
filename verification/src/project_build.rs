//! Building an arbitrary target project: which toolchain families its
//! build needs, where its isolated build staging lives, and the root
//! commands that build it. An explicit `--requires` is always
//! authoritative; file presence decides only when it is unambiguous, and
//! coexistence without a designation asks for one.

use vstd::prelude::*;

use crate::text::{file_stem_of, join, join_path, owned, path_file_stem, push_str};
use crate::toolchain_resolve::{toolchain_error_text, ToolchainResolutionError};
use crate::toolchain_resolve::{
    nim_resolution, nim_verified, resolve_verified_nim, resolve_verified_rust, rust_resolution, rust_verified, NimToolchainFacts,
    RustToolchainFacts,
};
use crate::types::{env_insert, keys_sorted, pairs_view, RootCommand};

verus! {

/// A toolchain family a target project's build may need.
#[derive(Debug, Clone, Copy, PartialEq, Eq, Structural)]
pub enum Capability {
    Rust,
    Nim,
}

/// Which toolchains a target project's build needs.
#[derive(Debug, Clone, PartialEq, Eq)]
pub struct ProjectRequirements {
    pub rust: bool,
    pub nim: bool,
    /// The Nim producer entry point, relative to the project root, when Nim
    /// is built as its own action; `None` with `nim` set means the Nim
    /// toolchain is only needed on hand.
    pub nim_entry: Option<String>,
}

/// The verified executables a project build uses.
#[derive(Debug, Clone, PartialEq, Eq)]
pub struct ResolvedProjectToolchains {
    pub rust: Option<(String, String)>,
    pub nim: Option<String>,
}

/// Why a project build failed.
#[derive(Debug, Clone, PartialEq, Eq)]
pub enum ProjectBuildError {
    NoBuildableSources(String),
    AmbiguousProject { cargo_toml: String, nim_entry: String },
    Toolchain(ToolchainResolutionError),
    Planner(String),
    /// The planner's rejection: the `Debug` text of its reason kind, and
    /// its detail.
    Rejected { reason_kind: String, reason_detail: String },
    InvalidPlan(String),
    ActionFailed { action_id: String, detail: String },
    Io(String),
}

/// The human-readable text of a project build error.
pub open spec fn project_build_error_text(e: ProjectBuildError) -> Seq<char> {
    match e {
        ProjectBuildError::NoBuildableSources(d) => d@,
        ProjectBuildError::AmbiguousProject { cargo_toml, nim_entry } => "found both "@ + cargo_toml@
            + " and a resolvable Nim entry point ("@ + nim_entry@
            + ") with no explicit --requires given; file coexistence alone does not imply a dependency between them -- pass --requires rust|nim|rust,nim to say what this build should actually target"@,
        ProjectBuildError::Toolchain(t) => toolchain_error_text(t),
        ProjectBuildError::Planner(d) => "failed to call the Nim planner: "@ + d@,
        ProjectBuildError::Rejected { reason_kind, reason_detail } => "the Nim planner rejected this project's PlanningInput ("@
            + reason_kind@ + "): "@ + reason_detail@,
        ProjectBuildError::InvalidPlan(d) => "the Nim planner's ExecutionPlan failed Rust-side validation: "@ + d@,
        ProjectBuildError::ActionFailed { action_id, detail } => "project-build action '"@ + action_id@ + "' failed: "@
            + detail@,
        ProjectBuildError::Io(d) => "I/O error during project build: "@ + d@,
    }
}

impl ProjectBuildError {
    /// The error's human-readable text.
    pub fn message(&self) -> (r: String)
        ensures
            r@ == project_build_error_text(*self),
    {
        match self {
            ProjectBuildError::NoBuildableSources(d) => d.clone(),
            ProjectBuildError::AmbiguousProject { cargo_toml, nim_entry } => {
                let mut m = owned("found both ");
                push_str(&mut m, cargo_toml.as_str());
                push_str(&mut m, " and a resolvable Nim entry point (");
                push_str(&mut m, nim_entry.as_str());
                push_str(
                    &mut m,
                    ") with no explicit --requires given; file coexistence alone does not imply a dependency between them -- pass --requires rust|nim|rust,nim to say what this build should actually target",
                );
                m
            },
            ProjectBuildError::Toolchain(t) => t.message(),
            ProjectBuildError::Planner(d) => {
                let mut m = owned("failed to call the Nim planner: ");
                push_str(&mut m, d.as_str());
                m
            },
            ProjectBuildError::Rejected { reason_kind, reason_detail } => {
                let mut m = owned("the Nim planner rejected this project's PlanningInput (");
                push_str(&mut m, reason_kind.as_str());
                push_str(&mut m, "): ");
                push_str(&mut m, reason_detail.as_str());
                m
            },
            ProjectBuildError::InvalidPlan(d) => {
                let mut m = owned("the Nim planner's ExecutionPlan failed Rust-side validation: ");
                push_str(&mut m, d.as_str());
                m
            },
            ProjectBuildError::ActionFailed { action_id, detail } => {
                let mut m = owned("project-build action '");
                push_str(&mut m, action_id.as_str());
                push_str(&mut m, "' failed: ");
                push_str(&mut m, detail.as_str());
                m
            },
            ProjectBuildError::Io(d) => {
                let mut m = owned("I/O error during project build: ");
                push_str(&mut m, d.as_str());
                m
            },
        }
    }
}

pub open spec fn opt_string(o: Option<String>) -> Option<Seq<char>> {
    match o {
        Some(s) => Some(s@),
        None => None,
    }
}

pub open spec fn names(caps: Seq<Capability>, c: Capability) -> bool {
    caps.contains(c)
}

/// The requirements of the project at `root`, given the explicit
/// `--requires` list (if any), whether `Cargo.toml` exists there, and the
/// Nim entry point that resolved (if any).
pub open spec fn requirements(
    root: Seq<char>,
    requires: Option<Seq<Capability>>,
    has_cargo_toml: bool,
    nim_entry: Option<Seq<char>>,
) -> Result<(bool, bool, Option<Seq<char>>), Seq<char>> {
    match requires {
        Some(caps) => {
            let rust = names(caps, Capability::Rust);
            let nim = names(caps, Capability::Nim);
            if !rust && !nim {
                Err("--requires was given but named no capability (expected rust, nim, or rust,nim)"@)
            } else {
                let entry = if nim { nim_entry } else { None };
                if nim && !rust && entry is None {
                    Err(
                        "--requires named nim, but no Nim entry point could be resolved under "@ + root
                            + " (add a single <name>.nimble with a matching src/<name>.nim or <name>.nim, or pass --nim-entry)"@,
                    )
                } else {
                    Ok((rust, nim, entry))
                }
            }
        },
        None => match (has_cargo_toml, nim_entry) {
            (true, None) => Ok((true, false, None)),
            (false, Some(e)) => Ok((false, true, Some(e))),
            (true, Some(_)) => Err(Seq::empty()),
            (false, None) => Err("no Cargo.toml and no resolvable Nim entry point under "@ + root),
        },
    }
}

fn caps_contain(caps: &[Capability], c: Capability) -> (r: bool)
    ensures
        r == caps@.contains(c),
{
    let mut i: usize = 0;
    while i < caps.len()
        invariant
            i <= caps@.len(),
            forall|j: int| 0 <= j < i ==> caps@[j] != c,
        decreases caps@.len() - i,
    {
        if caps[i] == c {
            return true;
        }
        i = i + 1;
    }
    false
}

/// An explicit `--requires` is authoritative: which files are present
/// never changes what it decides.
pub proof fn law_explicit_requires_ignores_file_presence(
    root: Seq<char>,
    caps: Seq<Capability>,
    cargo_a: bool,
    cargo_b: bool,
    entry: Option<Seq<char>>,
)
    ensures
        requirements(root, Some(caps), cargo_a, entry) == requirements(root, Some(caps), cargo_b, entry),
{
}

/// Without `--requires`, a Cargo manifest coexisting with a Nim entry
/// point is never resolved by guessing: it is refused as ambiguous.
pub proof fn law_coexistence_without_requires_is_refused(root: Seq<char>, entry: Seq<char>)
    ensures
        requirements(root, None, true, Some(entry)) is Err,
{
}

/// Decides which toolchain(s) the project at `project_root` needs.
/// `requires_override` is authoritative when given; otherwise the presence
/// of `Cargo.toml` (`has_cargo_toml`) and the resolved Nim entry point
/// (`nim_entry`) decide, and both together without a designation is an
/// ambiguity the caller must resolve.
pub fn determine_project_requirements(
    project_root: &str,
    requires_override: Option<&[Capability]>,
    has_cargo_toml: bool,
    nim_entry: Option<String>,
) -> (r: Result<ProjectRequirements, ProjectBuildError>)
    ensures
        ({
            let caps = match requires_override {
                Some(c) => Some(c@),
                None => None::<Seq<Capability>>,
            };
            match requirements(project_root@, caps, has_cargo_toml, opt_string(nim_entry)) {
                Ok((rust, nim, entry)) => r matches Ok(req) && req.rust == rust && req.nim == nim && opt_string(
                    req.nim_entry,
                ) == entry,
                Err(m) => if caps is None && has_cargo_toml && nim_entry is Some {
                    r matches Err(ProjectBuildError::AmbiguousProject { cargo_toml, nim_entry: e }) && cargo_toml@
                        == join_path(project_root@, "Cargo.toml"@) && e@ == nim_entry->0@
                } else {
                    r matches Err(ProjectBuildError::NoBuildableSources(d)) && d@ == m
                },
            }
        }),
{
    match requires_override {
        Some(caps) => {
            let rust = caps_contain(caps, Capability::Rust);
            let nim = caps_contain(caps, Capability::Nim);
            if !rust && !nim {
                return Err(
                    ProjectBuildError::NoBuildableSources(
                        owned("--requires was given but named no capability (expected rust, nim, or rust,nim)"),
                    ),
                );
            }
            let entry = if nim {
                nim_entry
            } else {
                None
            };
            if nim && !rust && entry.is_none() {
                let mut m = owned("--requires named nim, but no Nim entry point could be resolved under ");
                push_str(&mut m, project_root);
                push_str(
                    &mut m,
                    " (add a single <name>.nimble with a matching src/<name>.nim or <name>.nim, or pass --nim-entry)",
                );
                return Err(ProjectBuildError::NoBuildableSources(m));
            }
            Ok(ProjectRequirements { rust, nim, nim_entry: entry })
        },
        None => {
            match nim_entry {
                None => if has_cargo_toml {
                    Ok(ProjectRequirements { rust: true, nim: false, nim_entry: None })
                } else {
                    let mut m = owned("no Cargo.toml and no resolvable Nim entry point under ");
                    push_str(&mut m, project_root);
                    Err(ProjectBuildError::NoBuildableSources(m))
                },
                Some(entry) => if has_cargo_toml {
                    Err(
                        ProjectBuildError::AmbiguousProject {
                            cargo_toml: join(project_root, "Cargo.toml"),
                            nim_entry: entry,
                        },
                    )
                } else {
                    Ok(ProjectRequirements { rust: false, nim: true, nim_entry: Some(entry) })
                },
            }
        },
    }
}

/// The candidate Nim entry points for the `.nimble` stems found at a
/// project's root, in the order to try them: with exactly one stem,
/// `src/<stem>.nim` then `<stem>.nim`; with none or several, none (which
/// one names the entry point would be a guess).
pub fn nim_entry_candidates(nimble_stems: &Vec<String>) -> (r: Vec<String>)
    ensures
        nimble_stems@.len() != 1 ==> r@.len() == 0,
        nimble_stems@.len() == 1 ==> crate::resource_scheduler::strings_view(r@) == seq![
            "src/"@ + nimble_stems@[0]@ + ".nim"@,
            nimble_stems@[0]@ + ".nim"@,
        ],
{
    let mut out: Vec<String> = Vec::new();
    if nimble_stems.len() != 1 {
        return out;
    }
    let stem = &nimble_stems[0];
    let mut a = owned("src/");
    push_str(&mut a, stem.as_str());
    push_str(&mut a, ".nim");
    let mut b = stem.clone();
    push_str(&mut b, ".nim");
    out.push(a);
    out.push(b);
    proof {
        assert(crate::resource_scheduler::strings_view(out@) =~= seq![
            "src/"@ + nimble_stems@[0]@ + ".nim"@,
            nimble_stems@[0]@ + ".nim"@,
        ]);
    }
    out
}

// ---------------------------------------------------------------------
// The build's staging layout and root commands
// ---------------------------------------------------------------------

/// `<generation_root>/.build`: the isolated staging area.
pub fn build_staging_dir(generation_root: &str) -> (r: String)
    ensures
        r@ == join_path(generation_root@, ".build"@),
{
    join(generation_root, ".build")
}

pub fn cargo_target_dir(generation_root: &str) -> (r: String)
    ensures
        r@ == join_path(join_path(generation_root@, ".build"@), "cargo-target"@),
{
    let s = build_staging_dir(generation_root);
    join(s.as_str(), "cargo-target")
}

pub fn nim_cache_dir(generation_root: &str) -> (r: String)
    ensures
        r@ == join_path(join_path(generation_root@, ".build"@), "nimcache"@),
{
    let s = build_staging_dir(generation_root);
    join(s.as_str(), "nimcache")
}

pub fn nim_output_dir(generation_root: &str) -> (r: String)
    ensures
        r@ == join_path(join_path(generation_root@, ".build"@), "nim-out"@),
{
    let s = build_staging_dir(generation_root);
    join(s.as_str(), "nim-out")
}

/// An executable's file name: `.exe` appended on Windows.
pub fn binary_name(base: &str, windows: bool) -> (r: String)
    ensures
        r@ == if windows { base@ + ".exe"@ } else { base@ },
{
    let mut m = owned(base);
    if windows {
        push_str(&mut m, ".exe");
    }
    m
}

/// `dir` put in front of a `PATH` value with the platform's list
/// separator (`;` on Windows, `:` elsewhere); an absent or empty `PATH`
/// gives `dir` alone.
pub fn prepend_to_path(dir: &str, existing: Option<&str>, windows: bool) -> (r: String)
    ensures
        r@ == match existing {
            Some(e) if e@.len() > 0 => dir@ + (if windows { ";"@ } else { ":"@ }) + e@,
            _ => dir@,
        },
{
    let mut m = owned(dir);
    match existing {
        Some(e) => {
            if crate::text::chars_of(e).len() > 0 {
                if windows {
                    push_str(&mut m, ";");
                } else {
                    push_str(&mut m, ":");
                }
                push_str(&mut m, e);
            }
        },
        None => {},
    }
    m
}

/// `r` is the root command that builds a Cargo project with these
/// verified executables.
pub open spec fn cargo_root_is(
    r: RootCommand,
    project_root: Seq<char>,
    generation_root: Seq<char>,
    cargo_binary: Seq<char>,
    rustc_binary: Seq<char>,
    extra_path_prepend: Option<Seq<char>>,
    current_path: Option<Seq<char>>,
    windows: bool,
) -> bool {
    &&& r.program@ == cargo_binary
    &&& crate::resource_scheduler::strings_view(r.args@) == seq![
        "build"@,
        "--release"@,
        "--target-dir"@,
        join_path(join_path(generation_root, ".build"@), "cargo-target"@),
    ]
    &&& r.cwd matches Some(c) && c@ == project_root
    &&& keys_sorted(pairs_view(r.env_overrides@))
    &&& crate::types::as_map(pairs_view(r.env_overrides@)) == (match extra_path_prepend {
        None => map!["RUSTC"@ => rustc_binary],
        Some(d) => map![
            "RUSTC"@ => rustc_binary,
            "PATH"@ => match current_path {
                Some(e) if e.len() > 0 => d + (if windows { ";"@ } else { ":"@ }) + e,
                _ => d,
            },
        ],
    })
}

/// An optional text.
pub open spec fn opt_str(o: Option<&str>) -> Option<Seq<char>> {
    match o {
        Some(s) => Some(s@),
        None => None,
    }
}

/// `r` is the root command that builds the Nim entry `entry` of a project
/// with the verified `nim`.
pub open spec fn nim_root_is(
    r: RootCommand,
    project_root: Seq<char>,
    generation_root: Seq<char>,
    nim_binary: Seq<char>,
    entry: Seq<char>,
    windows: bool,
) -> bool {
    &&& r.program@ == nim_binary
    &&& crate::resource_scheduler::strings_view(r.args@) == seq![
        "c"@,
        "--nimcache:"@ + join_path(join_path(generation_root, ".build"@), "nimcache"@),
        "-o:"@ + nim_output_path(generation_root, entry, windows),
        entry,
    ]
    &&& r.cwd matches Some(c) && c@ == project_root
    &&& r.env_overrides@.len() == 0
}

/// Where a Nim build of `entry` puts its executable.
pub open spec fn nim_output_path(generation_root: Seq<char>, entry: Seq<char>, windows: bool) -> Seq<char> {
    join_path(
        join_path(join_path(generation_root, ".build"@), "nim-out"@),
        if windows { nim_binary_stem(entry) + ".exe"@ } else { nim_binary_stem(entry) },
    )
}

/// The root command that builds a Cargo project: the verified `cargo`
/// with `RUSTC` set to the verified `rustc`, into the generation's own
/// target directory, run from the project root; `PATH` gets
/// `extra_path_prepend` in front of `current_path` when Nim must be on
/// hand.
pub fn cargo_project_build_root(
    project_root: &str,
    generation_root: &str,
    cargo_binary: &str,
    rustc_binary: &str,
    extra_path_prepend: Option<&str>,
    current_path: Option<&str>,
    windows: bool,
) -> (r: RootCommand)
    ensures
        cargo_root_is(r, project_root@, generation_root@, cargo_binary@, rustc_binary@, opt_str(extra_path_prepend), opt_str(current_path), windows),
{
    let mut env: Vec<(String, String)> = Vec::new();
    proof {
        assert(pairs_view(env@) =~= Seq::<(Seq<char>, Seq<char>)>::empty());
        assert(crate::types::as_map(pairs_view(env@)) =~= Map::<Seq<char>, Seq<char>>::empty());
    }
    env_insert(&mut env, owned("RUSTC"), owned(rustc_binary));
    match extra_path_prepend {
        Some(d) => {
            let p = prepend_to_path(d, current_path, windows);
            env_insert(&mut env, owned("PATH"), p);
        },
        None => {},
    }
    let mut args: Vec<String> = Vec::new();
    args.push(owned("build"));
    args.push(owned("--release"));
    args.push(owned("--target-dir"));
    args.push(cargo_target_dir(generation_root));
    proof {
        assert(crate::resource_scheduler::strings_view(args@) =~= seq![
            "build"@,
            "--release"@,
            "--target-dir"@,
            join_path(join_path(generation_root@, ".build"@), "cargo-target"@),
        ]);
    }
    RootCommand { program: owned(cargo_binary), args, cwd: Some(owned(project_root)), env_overrides: env }
}

/// The file name of the executable a Nim build of `entry` produces: the
/// entry's stem (`project` when it has none), as an executable name.
pub open spec fn nim_binary_stem(entry: Seq<char>) -> Seq<char> {
    match path_file_stem(entry) {
        Some(s) => s,
        None => "project"@,
    }
}

/// The root command that builds a Nim project: the verified `nim`
/// compiling `entry` (relative to the project root, where it runs) with
/// its nimcache and its output under the generation's own staging area.
pub fn nim_project_build_root(
    project_root: &str,
    generation_root: &str,
    nim_binary: &str,
    entry: &str,
    windows: bool,
) -> (r: RootCommand)
    ensures
        nim_root_is(r, project_root@, generation_root@, nim_binary@, entry@, windows),
{
    let stem = match file_stem_of(entry) {
        Some(s) => s,
        None => owned("project"),
    };
    let out_dir = nim_output_dir(generation_root);
    let name = binary_name(stem.as_str(), windows);
    let output_path = join(out_dir.as_str(), name.as_str());
    let mut nimcache = owned("--nimcache:");
    let cache = nim_cache_dir(generation_root);
    push_str(&mut nimcache, cache.as_str());
    let mut out_flag = owned("-o:");
    push_str(&mut out_flag, output_path.as_str());
    let mut args: Vec<String> = Vec::new();
    args.push(owned("c"));
    args.push(nimcache);
    args.push(out_flag);
    args.push(owned(entry));
    proof {
        assert(crate::resource_scheduler::strings_view(args@) =~= seq![
            "c"@,
            "--nimcache:"@ + join_path(join_path(generation_root@, ".build"@), "nimcache"@),
            "-o:"@ + join_path(
                join_path(join_path(generation_root@, ".build"@), "nim-out"@),
                if windows { nim_binary_stem(entry@) + ".exe"@ } else { nim_binary_stem(entry@) },
            ),
            entry@,
        ]);
    }
    RootCommand { program: owned(nim_binary), args, cwd: Some(owned(project_root)), env_overrides: Vec::new() }
}

/// The file names of the artifact records, record by record.
pub open spec fn all_filenames(arts: Seq<crate::cargo_telemetry::CompilerArtifactRecord>) -> Seq<Seq<char>>
    decreases arts.len(),
{
    if arts.len() == 0 {
        Seq::empty()
    } else {
        all_filenames(arts.drop_last()) + crate::resource_scheduler::strings_view(arts.last().filenames@)
    }
}

/// The executables of the artifact records that have one, in order.
pub open spec fn all_executables(arts: Seq<crate::cargo_telemetry::CompilerArtifactRecord>) -> Seq<Seq<char>>
    decreases arts.len(),
{
    if arts.len() == 0 {
        Seq::empty()
    } else {
        match arts.last().executable {
            Some(e) => all_executables(arts.drop_last()).push(e@),
            None => all_executables(arts.drop_last()),
        }
    }
}

/// The artifact paths a Cargo build reported in its own message stream:
/// every file name of every artifact, then every executable. Nothing
/// when the build's telemetry could not be read.
pub fn cargo_artifacts_from_telemetry(telemetry: Option<&crate::cargo_telemetry::CargoCompilerTelemetry>) -> (r: Vec<String>)
    ensures
        crate::resource_scheduler::strings_view(r@) == match telemetry {
            Some(t) => all_filenames(t.artifacts@) + all_executables(t.artifacts@),
            None => Seq::empty(),
        },
{
    let t = match telemetry {
        Some(t) => t,
        None => {
            let r: Vec<String> = Vec::new();
            proof {
                assert(crate::resource_scheduler::strings_view(r@) =~= Seq::<Seq<char>>::empty());
            }
            return r;
        },
    };
    let ghost arts = t.artifacts@;
    let mut out: Vec<String> = Vec::new();
    let mut i: usize = 0;
    while i < t.artifacts.len()
        invariant
            i <= arts.len(),
            arts == t.artifacts@,
            crate::resource_scheduler::strings_view(out@) == all_filenames(arts.take(i as int)),
        decreases arts.len() - i,
    {
        let names = &t.artifacts[i].filenames;
        let ghost base = out@;
        let mut j: usize = 0;
        while j < names.len()
            invariant
                j <= names@.len(),
                crate::resource_scheduler::strings_view(out@) == crate::resource_scheduler::strings_view(base)
                    + crate::resource_scheduler::strings_view(names@.take(j as int)),
            decreases names@.len() - j,
        {
            let ghost prev = out@;
            out.push(names[j].clone());
            proof {
                assert(names@.take(j + 1) =~= names@.take(j as int).push(names@[j as int]));
                assert(crate::resource_scheduler::strings_view(out@) =~= crate::resource_scheduler::strings_view(prev).push(names@[j as int]@));
                assert(crate::resource_scheduler::strings_view(names@.take(j + 1)) =~= crate::resource_scheduler::strings_view(names@.take(j as int)).push(names@[j as int]@));
            }
            j = j + 1;
        }
        proof {
            assert(names@.take(names@.len() as int) =~= names@);
            assert(arts.take(i + 1).drop_last() =~= arts.take(i as int));
        }
        i = i + 1;
    }
    proof {
        assert(arts.take(arts.len() as int) =~= arts);
    }
    let ghost files = out@;
    let mut k: usize = 0;
    while k < t.artifacts.len()
        invariant
            k <= arts.len(),
            arts == t.artifacts@,
            crate::resource_scheduler::strings_view(out@) == crate::resource_scheduler::strings_view(files) + all_executables(arts.take(k as int)),
        decreases arts.len() - k,
    {
        proof {
            assert(arts.take(k + 1).drop_last() =~= arts.take(k as int));
        }
        let ghost prev = out@;
        match &t.artifacts[k].executable {
            Some(e) => {
                out.push(e.clone());
                proof {
                    assert(crate::resource_scheduler::strings_view(out@) =~= crate::resource_scheduler::strings_view(prev).push(e@));
                }
            },
            None => {},
        }
        k = k + 1;
    }
    proof {
        assert(arts.take(arts.len() as int) =~= arts);
    }
    out
}

/// Resolves and verifies only the toolchain families the build needs,
/// from what the toolchain report gave for each family: Rust first (when
/// needed), then Nim (when needed). A needed family that does not verify
/// fails the build with its resolution error.
pub fn resolve_project_toolchains(
    req: &ProjectRequirements,
    rust: &Vec<RustToolchainFacts>,
    nim: &Vec<NimToolchainFacts>,
) -> (r: Result<ResolvedProjectToolchains, ProjectBuildError>)
    ensures
        r is Ok <==> ((!req.rust || rust_verified(rust@)) && (!req.nim || nim_verified(nim@))),
        r matches Ok(t) ==> {
            &&& (t.rust is Some <==> req.rust)
            &&& (t.nim is Some <==> req.nim)
            &&& (t.rust matches Some((c, rc)) ==> c@ == rust@[0].cargo->0@ && rc@ == rust@[0].rustc->0@)
            &&& (t.nim matches Some(n) ==> n@ == nim@[0].nim->0@)
        },
        r matches Err(e) ==> (e matches ProjectBuildError::Toolchain(te) && if req.rust && !rust_verified(rust@) {
            rust_resolution(rust@, Err(te))
        } else {
            nim_resolution(nim@, Err(te))
        }),
{
    let rust_pair = if req.rust {
        match resolve_verified_rust(rust) {
            Ok(pair) => Some(pair),
            Err(e) => return Err(ProjectBuildError::Toolchain(e)),
        }
    } else {
        None
    };
    let nim_path = if req.nim {
        match resolve_verified_nim(nim) {
            Ok(n) => Some(n),
            Err(e) => return Err(ProjectBuildError::Toolchain(e)),
        }
    } else {
        None
    };
    Ok(ResolvedProjectToolchains { rust: rust_pair, nim: nim_path })
}

/// The two build actions a project's plan may hold.
#[derive(Debug, Clone, Copy, PartialEq, Eq, Structural)]
pub enum ProjectActionKind {
    CargoBuild,
    NimBuild,
}

/// The directory of the verified `nim` that a lone Cargo build needs on
/// its `PATH`: only when Nim is needed without a Nim entry of its own.
pub open spec fn extra_path_for_cargo(req: ProjectRequirements, toolchains: ResolvedProjectToolchains) -> Option<Seq<char>> {
    if req.nim && req.nim_entry is None {
        match toolchains.nim {
            Some(n) => crate::g2_execute::path_parent(n@),
            None => None,
        }
    } else {
        None
    }
}

/// How one build action of a project's plan runs: its root command, the
/// roots whose artifacts are observed around it, and the artifacts it is
/// known to produce before it runs. A Cargo build observes its target
/// directory; a Nim build its output directory, and is known to produce
/// the executable it names with `-o:`.
pub fn project_action_setup(
    kind: ProjectActionKind,
    project_root: &str,
    generation_root: &str,
    req: &ProjectRequirements,
    toolchains: &ResolvedProjectToolchains,
    current_path: Option<&str>,
    windows: bool,
) -> (r: (RootCommand, Vec<String>, Vec<String>))
    requires
        kind == ProjectActionKind::CargoBuild ==> toolchains.rust is Some,
        kind == ProjectActionKind::NimBuild ==> toolchains.nim is Some && req.nim_entry is Some,
    ensures
        kind == ProjectActionKind::CargoBuild ==> {
            let (c, rc) = toolchains.rust.unwrap();
            &&& cargo_root_is(
                r.0,
                project_root@,
                generation_root@,
                c@,
                rc@,
                extra_path_for_cargo(*req, *toolchains),
                opt_str(current_path),
                windows,
            )
            &&& crate::resource_scheduler::strings_view(r.1@) == seq![
                join_path(join_path(generation_root@, ".build"@), "cargo-target"@),
            ]
            &&& r.2@.len() == 0
        },
        kind == ProjectActionKind::NimBuild ==> {
            let entry = req.nim_entry.unwrap()@;
            &&& nim_root_is(r.0, project_root@, generation_root@, toolchains.nim.unwrap()@, entry, windows)
            &&& crate::resource_scheduler::strings_view(r.1@) == seq![
                join_path(join_path(generation_root@, ".build"@), "nim-out"@),
            ]
            &&& crate::resource_scheduler::strings_view(r.2@) == seq![nim_output_path(generation_root@, entry, windows)]
        },
{
    match kind {
        ProjectActionKind::CargoBuild => {
            let (cargo, rustc) = match &toolchains.rust {
                Some(pair) => (pair.0.as_str(), pair.1.as_str()),
                None => {
                    proof {
                        assert(false);
                    }
                    ("", "")
                },
            };
            let extra: Option<String> = if req.nim && req.nim_entry.is_none() {
                match &toolchains.nim {
                    Some(n) => crate::g2_execute::parent_of(n.as_str()),
                    None => None,
                }
            } else {
                None
            };
            let extra_ref: Option<&str> = match &extra {
                Some(d) => Some(d.as_str()),
                None => None,
            };
            let root = cargo_project_build_root(project_root, generation_root, cargo, rustc, extra_ref, current_path, windows);
            let mut observed: Vec<String> = Vec::new();
            observed.push(cargo_target_dir(generation_root));
            proof {
                assert(crate::resource_scheduler::strings_view(observed@) =~= seq![
                    join_path(join_path(generation_root@, ".build"@), "cargo-target"@),
                ]);
                assert(opt_str(extra_ref) == extra_path_for_cargo(*req, *toolchains));
            }
            (root, observed, Vec::new())
        },
        ProjectActionKind::NimBuild => {
            let nim = match &toolchains.nim {
                Some(n) => n.as_str(),
                None => {
                    proof {
                        assert(false);
                    }
                    ""
                },
            };
            let entry = match &req.nim_entry {
                Some(e) => e.as_str(),
                None => {
                    proof {
                        assert(false);
                    }
                    ""
                },
            };
            let root = nim_project_build_root(project_root, generation_root, nim, entry, windows);
            let mut observed: Vec<String> = Vec::new();
            observed.push(nim_output_dir(generation_root));
            let stem = match file_stem_of(entry) {
                Some(s) => s,
                None => owned("project"),
            };
            let name = binary_name(stem.as_str(), windows);
            let out_dir = nim_output_dir(generation_root);
            let mut produced: Vec<String> = Vec::new();
            produced.push(join(out_dir.as_str(), name.as_str()));
            proof {
                assert(crate::resource_scheduler::strings_view(observed@) =~= seq![
                    join_path(join_path(generation_root@, ".build"@), "nim-out"@),
                ]);
                assert(crate::resource_scheduler::strings_view(produced@) =~= seq![nim_output_path(generation_root@, entry@, windows)]);
            }
            (root, observed, produced)
        },
    }
}

/// The artifacts a finished project action reports: none when it failed
/// (stale or partial output is never usable); otherwise those its own run
/// recorded, or, when the run recorded none, those known before it ran.
pub fn reported_artifacts(succeeded: bool, from_run: Vec<String>, known_before: Vec<String>) -> (r: Vec<String>)
    ensures
        r@ == if !succeeded {
            Seq::<String>::empty()
        } else if from_run@.len() == 0 {
            known_before@
        } else {
            from_run@
        },
{
    if !succeeded {
        return Vec::new();
    }
    if from_run.len() == 0 {
        known_before
    } else {
        from_run
    }
}

/// What a project generation does after each action of its plan, in plan
/// order: it goes on after a success and stops at the first failure,
/// which fails the generation with that action's id and detail.
pub fn after_project_action(action_id: &str, succeeded: bool, detail: &str) -> (r: Result<(), ProjectBuildError>)
    ensures
        r is Ok <==> succeeded,
        r matches Err(e) ==> (e matches ProjectBuildError::ActionFailed { action_id: a, detail: d } && a@ == action_id@
            && d@ == detail@),
{
    if succeeded {
        Ok(())
    } else {
        Err(ProjectBuildError::ActionFailed { action_id: owned(action_id), detail: owned(detail) })
    }
}

} // verus!
