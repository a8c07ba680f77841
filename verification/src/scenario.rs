//! Measured scenarios: the preparation steps (recorded but outside the
//! timed interval), the measured root command, the directories whose
//! artifacts are inventoried, and the cache state each scenario is meant
//! to produce. Also the structural half of comparing two scenario reports:
//! whether the two did the same amount of work at all, so that a wall-time
//! difference is not read as a speed change when it is not one.

use vstd::prelude::*;

use crate::resource_scheduler::strings_view;
use crate::text::{chars_of, decimal, owned, push_decimal, push_str, string_of};
use crate::types::{pairs_view, RootCommand};

verus! {

pub const SCENARIO_SCHEMA_VERSION: &'static str = "0.1.0";

/// The cache states a scenario distinguishes.
#[derive(Debug, Clone, Copy, PartialEq, Eq, Structural)]
pub enum CacheStateLabel {
    Cold,
    Warm,
    TrueNoop,
}

/// Where the candidate's mean wall time falls relative to the baseline's
/// noise floor.
#[derive(Debug, Clone, Copy, PartialEq, Eq, Structural)]
pub enum WallTimeVerdict {
    AboveNoise,
    WithinNoise,
    BelowNoise,
}

/// One measured scenario.
#[derive(Debug, Clone, PartialEq, Eq)]
pub struct Scenario {
    pub id: String,
    pub workload_id: String,
    pub prepare: Vec<RootCommand>,
    pub root: RootCommand,
    pub observation_roots: Vec<String>,
    pub cache_state_label: CacheStateLabel,
}

/// `p` with every backslash turned into a forward slash.
pub open spec fn slashes(p: Seq<char>) -> Seq<char> {
    p.map_values(|c: char| if c == '\\' { '/' } else { c })
}

/// A path as an argument for the coreutils the preparation steps run:
/// backslashes become forward slashes.
pub fn portable_arg_path(path: &str) -> (r: String)
    ensures
        r@ == slashes(path@),
{
    let cs = chars_of(path);
    let mut out: Vec<char> = Vec::new();
    let mut i: usize = 0;
    while i < cs.len()
        invariant
            i <= cs@.len(),
            out@ == slashes(cs@.take(i as int)),
        decreases cs@.len() - i,
    {
        let c = cs[i];
        out.push(if c == '\\' { '/' } else { c });
        proof {
            assert(slashes(cs@.take(i + 1)) =~= slashes(cs@.take(i as int)).push(if c == '\\' { '/' } else { c }));
        }
        i = i + 1;
    }
    proof {
        assert(cs@.take(i as int) =~= cs@);
    }
    string_of(out.as_slice())
}

/// A command with no working directory and no environment overrides.
pub open spec fn plain_command(c: RootCommand, program: Seq<char>, args: Seq<Seq<char>>) -> bool {
    &&& c.program@ == program
    &&& strings_view(c.args@) == args
    &&& c.cwd is None
    &&& c.env_overrides@.len() == 0
}

fn command(program: &str, args: Vec<String>) -> (r: RootCommand)
    ensures
        plain_command(r, program@, strings_view(args@)),
{
    RootCommand { program: owned(program), args, cwd: None, env_overrides: Vec::new() }
}

fn rm_rf(path: &str) -> (r: RootCommand)
    ensures
        plain_command(r, "rm"@, seq!["-rf"@, slashes(path@)]),
{
    let mut args: Vec<String> = Vec::new();
    args.push(owned("-rf"));
    args.push(portable_arg_path(path));
    proof {
        assert(strings_view(args@) =~= seq!["-rf"@, slashes(path@)]);
    }
    command("rm", args)
}

fn touch(path: &str) -> (r: RootCommand)
    ensures
        plain_command(r, "touch"@, seq![slashes(path@)]),
{
    let mut args: Vec<String> = Vec::new();
    args.push(portable_arg_path(path));
    proof {
        assert(strings_view(args@) =~= seq![slashes(path@)]);
    }
    command("touch", args)
}

fn cargo_root(manifest_path: &str) -> (r: RootCommand)
    ensures
        plain_command(r, "cargo"@, seq!["build"@, "--manifest-path"@, manifest_path@, "--workspace"@]),
{
    let mut args: Vec<String> = Vec::new();
    args.push(owned("build"));
    args.push(owned("--manifest-path"));
    args.push(owned(manifest_path));
    args.push(owned("--workspace"));
    proof {
        assert(strings_view(args@) =~= seq!["build"@, "--manifest-path"@, manifest_path@, "--workspace"@]);
    }
    command("cargo", args)
}

fn nim_root(nimcache_dir: &str, out_path: &str, main_nim: &str) -> (r: RootCommand)
    ensures
        plain_command(
            r,
            "nim"@,
            seq!["c"@, "--nimcache:"@ + nimcache_dir@, "-o:"@ + out_path@, main_nim@],
        ),
{
    let mut args: Vec<String> = Vec::new();
    args.push(owned("c"));
    let mut a = owned("--nimcache:");
    push_str(&mut a, nimcache_dir);
    args.push(a);
    let mut b = owned("-o:");
    push_str(&mut b, out_path);
    args.push(b);
    args.push(owned(main_nim));
    proof {
        assert(strings_view(args@) =~= seq!["c"@, "--nimcache:"@ + nimcache_dir@, "-o:"@ + out_path@, main_nim@]);
    }
    command("nim", args)
}

/// A cold build, a true no-op rebuild, or an implementation-edit rebuild
/// of the Rust-heavy workspace: a cold build first removes the target
/// directory; an edit first touches the edited source.
pub fn rust_heavy_workspace_scenario(
    kind: CacheStateLabel,
    manifest_path: &str,
    target_dir: &str,
    edited_source_path: Option<&str>,
) -> (r: Scenario)
    requires
        kind is Warm ==> edited_source_path is Some,
    ensures
        r.id@ == (match kind {
            CacheStateLabel::Cold => "cold-build"@,
            CacheStateLabel::TrueNoop => "true-noop"@,
            CacheStateLabel::Warm => "rust-implementation-edit"@,
        }),
        r.workload_id@ == "rust-heavy-workspace"@,
        match kind {
            CacheStateLabel::Cold => r.prepare@.len() == 1 && plain_command(
                r.prepare@[0],
                "rm"@,
                seq!["-rf"@, slashes(target_dir@)],
            ),
            CacheStateLabel::TrueNoop => r.prepare@.len() == 0,
            CacheStateLabel::Warm => r.prepare@.len() == 1 && plain_command(
                r.prepare@[0],
                "touch"@,
                seq![slashes(edited_source_path->0@)],
            ),
        },
        plain_command(r.root, "cargo"@, seq!["build"@, "--manifest-path"@, manifest_path@, "--workspace"@]),
        strings_view(r.observation_roots@) == seq![target_dir@],
        r.cache_state_label == kind,
{
    let mut prepare: Vec<RootCommand> = Vec::new();
    match kind {
        CacheStateLabel::Cold => prepare.push(rm_rf(target_dir)),
        CacheStateLabel::TrueNoop => {},
        CacheStateLabel::Warm => {
            let edited = match edited_source_path {
                Some(e) => e,
                None => "",
            };
            prepare.push(touch(edited));
        },
    }
    let id = match kind {
        CacheStateLabel::Cold => owned("cold-build"),
        CacheStateLabel::TrueNoop => owned("true-noop"),
        CacheStateLabel::Warm => owned("rust-implementation-edit"),
    };
    let mut roots: Vec<String> = Vec::new();
    roots.push(owned(target_dir));
    proof {
        assert(strings_view(roots@) =~= seq![target_dir@]);
    }
    Scenario {
        id,
        workload_id: owned("rust-heavy-workspace"),
        prepare,
        root: cargo_root(manifest_path),
        observation_roots: roots,
        cache_state_label: kind,
    }
}

/// The Nim-side counterpart: a cold build removes both the nimcache
/// directory and the previously linked output.
pub fn nim_heavy_workspace_scenario(
    kind: CacheStateLabel,
    main_nim: &str,
    nimcache_dir: &str,
    out_path: &str,
    edited_source_path: Option<&str>,
) -> (r: Scenario)
    requires
        kind is Warm ==> edited_source_path is Some,
    ensures
        r.id@ == (match kind {
            CacheStateLabel::Cold => "cold-build"@,
            CacheStateLabel::TrueNoop => "true-noop"@,
            CacheStateLabel::Warm => "nim-implementation-edit"@,
        }),
        r.workload_id@ == "nim-heavy-workspace"@,
        match kind {
            CacheStateLabel::Cold => r.prepare@.len() == 2 && plain_command(
                r.prepare@[0],
                "rm"@,
                seq!["-rf"@, slashes(nimcache_dir@)],
            ) && plain_command(r.prepare@[1], "rm"@, seq!["-rf"@, slashes(out_path@)]),
            CacheStateLabel::TrueNoop => r.prepare@.len() == 0,
            CacheStateLabel::Warm => r.prepare@.len() == 1 && plain_command(
                r.prepare@[0],
                "touch"@,
                seq![slashes(edited_source_path->0@)],
            ),
        },
        plain_command(r.root, "nim"@, seq!["c"@, "--nimcache:"@ + nimcache_dir@, "-o:"@ + out_path@, main_nim@]),
        strings_view(r.observation_roots@) == seq![nimcache_dir@, out_path@],
        r.cache_state_label == kind,
{
    let mut prepare: Vec<RootCommand> = Vec::new();
    match kind {
        CacheStateLabel::Cold => {
            prepare.push(rm_rf(nimcache_dir));
            prepare.push(rm_rf(out_path));
        },
        CacheStateLabel::TrueNoop => {},
        CacheStateLabel::Warm => {
            let edited = match edited_source_path {
                Some(e) => e,
                None => "",
            };
            prepare.push(touch(edited));
        },
    }
    let id = match kind {
        CacheStateLabel::Cold => owned("cold-build"),
        CacheStateLabel::TrueNoop => owned("true-noop"),
        CacheStateLabel::Warm => owned("nim-implementation-edit"),
    };
    let mut roots: Vec<String> = Vec::new();
    roots.push(owned(nimcache_dir));
    roots.push(owned(out_path));
    proof {
        assert(strings_view(roots@) =~= seq![nimcache_dir@, out_path@]);
    }
    Scenario {
        id,
        workload_id: owned("nim-heavy-workspace"),
        prepare,
        root: nim_root(nimcache_dir, out_path, main_nim),
        observation_roots: roots,
        cache_state_label: kind,
    }
}

// ---------------------------------------------------------------------
// Structural comparison of two reports
// ---------------------------------------------------------------------

/// The per-repetition counts of one scenario report.
#[derive(Debug, Clone, PartialEq, Eq)]
pub struct WorkCounts {
    pub process_counts: Vec<usize>,
    pub artifact_created: Vec<usize>,
    pub artifact_modified: Vec<usize>,
    pub artifact_deleted: Vec<usize>,
    pub artifact_unchanged: Vec<usize>,
}

/// The smallest of `v`, or zero when it is empty.
pub open spec fn min_or_zero(v: Seq<usize>) -> nat
    decreases v.len(),
{
    if v.len() == 0 {
        0
    } else if v.len() == 1 {
        v[0] as nat
    } else {
        let m = min_or_zero(v.drop_last());
        if (v.last() as nat) < m { v.last() as nat } else { m }
    }
}

fn min_of(v: &Vec<usize>) -> (r: usize)
    ensures
        r == min_or_zero(v@),
{
    if v.len() == 0 {
        return 0;
    }
    let mut m = v[0];
    let mut i: usize = 1;
    proof {
        assert(v@.take(1).drop_last() =~= Seq::<usize>::empty());
    }
    while i < v.len()
        invariant
            1 <= i <= v@.len(),
            m == min_or_zero(v@.take(i as int)),
        decreases v@.len() - i,
    {
        proof {
            assert(v@.take(i + 1).drop_last() =~= v@.take(i as int));
        }
        if v[i] < m {
            m = v[i];
        }
        i = i + 1;
    }
    proof {
        assert(v@.take(i as int) =~= v@);
    }
    m
}

/// Whether two reports did different amounts of work, and the notes
/// saying how: a different process count, a different
/// created/modified/deleted/unchanged artifact profile (each taken as the smallest
/// over the repetitions).
pub struct StructuralDifferences {
    pub process_count_changed: bool,
    pub artifact_profile_changed: bool,
    pub confounding_notes: Vec<String>,
}

pub open spec fn profile_text(c: nat, m: nat, d: nat, u: nat) -> Seq<char> {
    "("@ + decimal(c) + ", "@ + decimal(m) + ", "@ + decimal(d) + ", "@ + decimal(u) + ")"@
}

pub open spec fn process_note(b: nat, c: nat) -> Seq<char> {
    "process count differs (baseline="@ + decimal(b) + ", candidate="@ + decimal(c)
        + ") -- more or fewer compiler/backend actions were executed, so a wall-time difference here reflects a different amount of work, not purely a speed change"@
}

pub open spec fn profile_note(b: Seq<char>, c: Seq<char>) -> Seq<char> {
    "artifact create/modify/delete/unchanged profile differs (baseline="@ + b + ", candidate="@ + c
        + ") -- the two runs did not produce/change the same set of artifacts"@
}

fn push_profile(m: &mut String, c: usize, mo: usize, d: usize, u: usize)
    ensures
        final(m)@ == old(m)@ + profile_text(c as nat, mo as nat, d as nat, u as nat),
{
    push_str(m, "(");
    push_decimal(m, c as u64);
    push_str(m, ", ");
    push_decimal(m, mo as u64);
    push_str(m, ", ");
    push_decimal(m, d as u64);
    push_str(m, ", ");
    push_decimal(m, u as u64);
    push_str(m, ")");
    proof {
        assert(final(m)@ =~= old(m)@ + profile_text(c as nat, mo as nat, d as nat, u as nat));
    }
}

/// The structural half of comparing a candidate report against a
/// baseline.
pub fn structural_differences(baseline: &WorkCounts, candidate: &WorkCounts) -> (r: StructuralDifferences)
    ensures
        ({
            let bp = min_or_zero(baseline.process_counts@);
            let cp = min_or_zero(candidate.process_counts@);
            let bprof = (
                min_or_zero(baseline.artifact_created@),
                min_or_zero(baseline.artifact_modified@),
                min_or_zero(baseline.artifact_deleted@),
                min_or_zero(baseline.artifact_unchanged@),
            );
            let cprof = (
                min_or_zero(candidate.artifact_created@),
                min_or_zero(candidate.artifact_modified@),
                min_or_zero(candidate.artifact_deleted@),
                min_or_zero(candidate.artifact_unchanged@),
            );
            let n1: Seq<Seq<char>> = if bp != cp { seq![process_note(bp, cp)] } else { seq![] };
            let n2: Seq<Seq<char>> = if bprof != cprof {
                seq![profile_note(profile_text(bprof.0, bprof.1, bprof.2, bprof.3), profile_text(cprof.0, cprof.1, cprof.2, cprof.3))]
            } else {
                seq![]
            };
            &&& r.process_count_changed == (bp != cp)
            &&& r.artifact_profile_changed == (bprof != cprof)
            &&& strings_view(r.confounding_notes@) == n1 + n2
        }),
{
    let bp = min_of(&baseline.process_counts);
    let cp = min_of(&candidate.process_counts);
    let mut notes: Vec<String> = Vec::new();
    let process_count_changed = bp != cp;
    if process_count_changed {
        let mut m = owned("process count differs (baseline=");
        push_decimal(&mut m, bp as u64);
        push_str(&mut m, ", candidate=");
        push_decimal(&mut m, cp as u64);
        push_str(
            &mut m,
            ") -- more or fewer compiler/backend actions were executed, so a wall-time difference here reflects a different amount of work, not purely a speed change",
        );
        notes.push(m);
    }
    let ghost n1 = strings_view(notes@);
    let bc = min_of(&baseline.artifact_created);
    let bm = min_of(&baseline.artifact_modified);
    let bd = min_of(&baseline.artifact_deleted);
    let cc = min_of(&candidate.artifact_created);
    let cm = min_of(&candidate.artifact_modified);
    let cd = min_of(&candidate.artifact_deleted);
    let bu = min_of(&baseline.artifact_unchanged);
    let cu = min_of(&candidate.artifact_unchanged);
    let artifact_profile_changed = bc != cc || bm != cm || bd != cd || bu != cu;
    if artifact_profile_changed {
        let mut m = owned("artifact create/modify/delete/unchanged profile differs (baseline=");
        push_profile(&mut m, bc, bm, bd, bu);
        push_str(&mut m, ", candidate=");
        push_profile(&mut m, cc, cm, cd, cu);
        push_str(&mut m, ") -- the two runs did not produce/change the same set of artifacts");
        notes.push(m);
    }
    proof {
        if process_count_changed {
            assert(n1 =~= seq![process_note(bp as nat, cp as nat)]);
        } else {
            assert(n1 =~= Seq::<Seq<char>>::empty());
        }
        assert(strings_view(notes@) =~= n1 + (if artifact_profile_changed {
            seq![profile_note(profile_text(bc as nat, bm as nat, bd as nat, bu as nat), profile_text(cc as nat, cm as nat, cd as nat, cu as nat))]
        } else {
            Seq::<Seq<char>>::empty()
        }));
    }
    StructuralDifferences { process_count_changed, artifact_profile_changed, confounding_notes: notes }
}

// ---------------------------------------------------------------------
// Per-run artifact counts
// ---------------------------------------------------------------------

/// How many of the inventory records have state `state`.
pub open spec fn count_state(records: Seq<crate::json::JsonValue>, state: Seq<char>) -> nat
    decreases records.len(),
{
    if records.len() == 0 {
        0
    } else {
        count_state(records.drop_last(), state) + if crate::json::str_of(crate::json::member(records.last(), "state"@))
            == Some(state) {
            1nat
        } else {
            0nat
        }
    }
}

proof fn lemma_count_state_bound(records: Seq<crate::json::JsonValue>, state: Seq<char>)
    ensures
        count_state(records, state) <= records.len(),
    decreases records.len(),
{
    if records.len() > 0 {
        lemma_count_state_bound(records.drop_last(), state);
    }
}

/// The records of a run's artifact inventory document; none when it has
/// no inventory or no record array.
pub open spec fn inventory_records(delta: Option<crate::json::JsonValue>) -> Seq<crate::json::JsonValue> {
    match delta {
        Some(d) => match crate::json::array_of(crate::json::member(d, "records"@)) {
            Some(items) => items,
            None => Seq::empty(),
        },
        None => Seq::empty(),
    }
}

/// How many of a run's inventory records were created, modified, deleted
/// and unchanged; a record with any other state is not counted.
pub fn artifact_state_counts(delta: Option<&crate::json::JsonValue>) -> (r: (usize, usize, usize, usize))
    ensures
        ({
            let recs = inventory_records(match delta {
                Some(d) => Some(*d),
                None => None,
            });
            &&& r.0 == count_state(recs, "Created"@)
            &&& r.1 == count_state(recs, "Modified"@)
            &&& r.2 == count_state(recs, "Deleted"@)
            &&& r.3 == count_state(recs, "Unchanged"@)
        }),
{
    let empty: Vec<crate::json::JsonValue> = Vec::new();
    let items: &Vec<crate::json::JsonValue> = match delta {
        Some(d) => match crate::json::get(d, "records") {
            Some(crate::json::JsonValue::Array(items)) => items,
            _ => &empty,
        },
        None => &empty,
    };
    let ghost recs = items@;
    let mut counts: (usize, usize, usize, usize) = (0, 0, 0, 0);
    let mut k: usize = 0;
    proof {
        reveal_strlit("Created");
        reveal_strlit("Modified");
        reveal_strlit("Deleted");
        reveal_strlit("Unchanged");
        assert("Created"@.len() == 7 && "Modified"@.len() == 8 && "Deleted"@.len() == 7 && "Unchanged"@.len() == 9);
        assert("Created"@[0] == 'C' && "Deleted"@[0] == 'D');
    }
    while k < items.len()
        invariant
            k <= recs.len(),
            recs == items@,
            "Created"@ != "Modified"@ && "Created"@ != "Deleted"@ && "Created"@ != "Unchanged"@,
            "Modified"@ != "Deleted"@ && "Modified"@ != "Unchanged"@ && "Deleted"@ != "Unchanged"@,
            counts.0 == count_state(recs.take(k as int), "Created"@),
            counts.1 == count_state(recs.take(k as int), "Modified"@),
            counts.2 == count_state(recs.take(k as int), "Deleted"@),
            counts.3 == count_state(recs.take(k as int), "Unchanged"@),
        decreases recs.len() - k,
    {
        proof {
            assert(recs.take(k + 1).drop_last() =~= recs.take(k as int));
            assert(recs.take(k + 1).last() == recs[k as int]);
            lemma_count_state_bound(recs.take(k as int), "Created"@);
            lemma_count_state_bound(recs.take(k as int), "Modified"@);
            lemma_count_state_bound(recs.take(k as int), "Deleted"@);
            lemma_count_state_bound(recs.take(k as int), "Unchanged"@);
        }
        match crate::json::as_str(crate::json::get(&items[k], "state")) {
            Some(st) => {
                if crate::text::str_eq(st, "Created") {
                    counts.0 = counts.0 + 1;
                } else if crate::text::str_eq(st, "Modified") {
                    counts.1 = counts.1 + 1;
                } else if crate::text::str_eq(st, "Deleted") {
                    counts.2 = counts.2 + 1;
                } else if crate::text::str_eq(st, "Unchanged") {
                    counts.3 = counts.3 + 1;
                }
            },
            None => {},
        }
        k = k + 1;
    }
    proof {
        assert(recs.take(recs.len() as int) =~= recs);
    }
    counts
}

} // verus!
