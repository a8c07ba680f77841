//! The independent consumer of an already published artifact: its test
//! contract, the events it records, and its verdict. It qualifies the
//! exact published subject from the artifact, its manifest and a runtime
//! root the consumer chose; a provider missing under that root fails
//! before execution and is never recovered from the host.

use vstd::prelude::*;

use crate::resource_scheduler::strings_view;
use crate::text::{chars_of, debug_quoted, debug_str, join, join_path, lines_of, owned, push_str, split_lines, split_ws, substring, ws_tokens};

verus! {

/// What the consumer expects of the exact subject.
#[derive(Debug, Clone, PartialEq, Eq)]
pub struct TestContract {
    pub contract_id: String,
    pub subject_digest: String,
    pub harness_identity: String,
    pub environment_identity: String,
    pub graph_demand: String,
    pub retained_roots: Vec<String>,
    pub pruned_roots: Vec<String>,
    pub expected_exit: i32,
    pub expected_stdout: String,
    pub expected_stderr: String,
    pub required_symbols: Vec<String>,
}

/// The steps of a qualification.
#[derive(Debug, Clone, Copy, PartialEq, Eq, Structural)]
pub enum HarnessEventKind {
    PrepareEnvironment,
    InspectArtifact,
    ExecuteSubject,
    ObserveResult,
    Cleanup,
}

/// One recorded step.
#[derive(Debug, Clone, PartialEq, Eq)]
pub struct HarnessEvent {
    pub kind: HarnessEventKind,
    pub succeeded: bool,
    pub detail: String,
}

/// The outcome of a qualification.
#[derive(Debug, Clone, PartialEq, Eq)]
pub enum TestVerdict {
    Pass,
    DependencyMissing { contract_id: String, path: String },
    Fail { detail: String },
}

/// `p` without its leading slashes.
pub open spec fn without_leading_slashes(p: Seq<char>) -> Seq<char>
    decreases p.len(),
{
    if p.len() > 0 && p[0] == '/' {
        without_leading_slashes(p.drop_first())
    } else {
        p
    }
}

/// A published path, read under the consumer's runtime root: its leading
/// slashes dropped, then joined to the root.
pub fn under_runtime_root(runtime_root: &str, published_path: &str) -> (r: String)
    ensures
        r@ == join_path(runtime_root@, without_leading_slashes(published_path@)),
{
    let cs = chars_of(published_path);
    let mut i: usize = 0;
    proof {
        assert(cs@.skip(0) =~= cs@);
    }
    while i < cs.len() && cs[i] == '/'
        invariant
            i <= cs@.len(),
            without_leading_slashes(cs@) == without_leading_slashes(cs@.skip(i as int)),
        decreases cs@.len() - i,
    {
        proof {
            assert(cs@.skip(i as int).drop_first() =~= cs@.skip(i + 1));
        }
        i = i + 1;
    }
    let rest = substring(&cs, i, cs.len());
    proof {
        assert(rest@ =~= cs@.skip(i as int));
        assert(without_leading_slashes(cs@.skip(i as int)) == cs@.skip(i as int));
    }
    join(runtime_root, rest.as_str())
}

/// Some line of `nm` output ends with the token `symbol`.
pub open spec fn nm_lists(output: Seq<char>, symbol: Seq<char>) -> bool {
    exists|i: int| 0 <= i < lines_of(output).len() && {
        let t = ws_tokens(#[trigger] lines_of(output)[i]);
        t.len() > 0 && t.last() == symbol
    }
}

/// Whether `nm` output lists `symbol` as the last token of some line.
pub fn nm_lists_symbol(nm_output: &str, symbol: &str) -> (r: bool)
    ensures
        r == nm_lists(nm_output@, symbol@),
{
    let lines = split_lines(nm_output);
    let ghost ls = lines_of(nm_output@);
    let mut i: usize = 0;
    while i < lines.len()
        invariant
            strings_view(lines@) == ls,
            ls == lines_of(nm_output@),
            i <= ls.len(),
            forall|j: int| 0 <= j < i ==> !({
                let t = ws_tokens(#[trigger] ls[j]);
                t.len() > 0 && t.last() == symbol@
            }),
        decreases ls.len() - i,
    {
        proof {
            assert(ls[i as int] == lines@[i as int]@);
        }
        let t = split_ws(lines[i].as_str());
        if t.len() > 0 {
            proof {
                assert(strings_view(t@).last() == t@[t@.len() - 1]@);
            }
            if crate::text::str_eq(t[t.len() - 1].as_str(), symbol) {
                return true;
            }
        }
        i = i + 1;
    }
    false
}

/// How `Debug` shows an optional exit code.
pub open spec fn debug_exit(e: Option<i32>) -> Seq<char> {
    match e {
        Some(c) => "Some("@ + crate::g2_execute::signed_decimal(c as int) + ")"@,
        None => "None"@,
    }
}

/// Whether the observed result is exactly the contracted one.
pub open spec fn result_passes(c: TestContract, exit_code: Option<i32>, stdout: Seq<char>, stderr: Seq<char>) -> bool {
    exit_code == Some(c.expected_exit) && stdout == c.expected_stdout@ && stderr == c.expected_stderr@
}

/// The observation of the subject's result against `contract`: the event
/// recording it and the verdict.
pub fn observe_result(contract: &TestContract, exit_code: Option<i32>, stdout: &str, stderr: &str) -> (r: (
    HarnessEvent,
    TestVerdict,
))
    ensures
        r.0.kind == HarnessEventKind::ObserveResult,
        r.0.succeeded == result_passes(*contract, exit_code, stdout@, stderr@),
        r.0.detail@ == "exit="@ + debug_exit(exit_code) + " stdout="@ + debug_str(stdout@) + " stderr="@ + debug_str(
            stderr@,
        ),
        result_passes(*contract, exit_code, stdout@, stderr@) ==> r.1 == TestVerdict::Pass,
        !result_passes(*contract, exit_code, stdout@, stderr@) ==> (r.1 matches TestVerdict::Fail { detail }
            && detail@ == "observable result differs from contract"@),
{
    let passed = match exit_code {
        Some(c) => c == contract.expected_exit,
        None => false,
    } && crate::text::str_eq(stdout, contract.expected_stdout.as_str()) && crate::text::str_eq(
        stderr,
        contract.expected_stderr.as_str(),
    );
    let mut d = owned("exit=");
    match exit_code {
        Some(c) => {
            push_str(&mut d, "Some(");
            let ghost before = d@;
            crate::g2_execute::push_signed_decimal(&mut d, c);
            push_str(&mut d, ")");
        },
        None => push_str(&mut d, "None"),
    }
    push_str(&mut d, " stdout=");
    let q = debug_quoted(stdout);
    push_str(&mut d, q.as_str());
    push_str(&mut d, " stderr=");
    let q2 = debug_quoted(stderr);
    push_str(&mut d, q2.as_str());
    proof {
        assert(d@ =~= "exit="@ + debug_exit(exit_code) + " stdout="@ + debug_str(stdout@) + " stderr="@ + debug_str(
            stderr@,
        ));
    }
    let event = HarnessEvent { kind: HarnessEventKind::ObserveResult, succeeded: passed, detail: d };
    let verdict = if passed {
        TestVerdict::Pass
    } else {
        TestVerdict::Fail { detail: owned("observable result differs from contract") }
    };
    (event, verdict)
}

// ---------------------------------------------------------------------
// Qualifying a published artifact
// ---------------------------------------------------------------------

/// What the published manifest says of one runtime contract: its
/// identity, the operation that must preflight it, the loader it needs
/// and where each required provider lives (when it has a path).
#[derive(Debug, Clone, PartialEq, Eq)]
pub struct RuntimeContractFacts {
    pub contract_id: String,
    pub operation_id: String,
    pub loader_requirement: String,
    pub provider_paths: Vec<Option<String>>,
}

/// The provider paths as text.
pub open spec fn paths_view(ps: Seq<Option<String>>) -> Seq<Option<Seq<char>>> {
    ps.map_values(|p: Option<String>| crate::toolchain_resolve::opt_view(p))
}

/// Two runtime contracts say the same.
pub open spec fn same_contract(a: RuntimeContractFacts, b: RuntimeContractFacts) -> bool {
    &&& a.contract_id@ == b.contract_id@
    &&& a.operation_id@ == b.operation_id@
    &&& a.loader_requirement@ == b.loader_requirement@
    &&& paths_view(a.provider_paths@) == paths_view(b.provider_paths@)
}

impl RuntimeContractFacts {
    /// An equal copy.
    pub fn duplicate(&self) -> (r: Self)
        ensures
            same_contract(r, *self),
    {
        let mut paths: Vec<Option<String>> = Vec::new();
        let mut k: usize = 0;
        while k < self.provider_paths.len()
            invariant
                k <= self.provider_paths@.len(),
                paths_view(paths@) == paths_view(self.provider_paths@.take(k as int)),
            decreases self.provider_paths@.len() - k,
        {
            let p: Option<String> = match &self.provider_paths[k] {
                Some(s) => Some(s.clone()),
                None => None,
            };
            let ghost prev = paths@;
            paths.push(p);
            proof {
                assert(self.provider_paths@.take(k + 1) =~= self.provider_paths@.take(k as int).push(self.provider_paths@[k as int]));
                assert(paths_view(paths@) =~= paths_view(prev).push(crate::toolchain_resolve::opt_view(p)));
                assert(paths_view(self.provider_paths@.take(k + 1)) =~= paths_view(self.provider_paths@.take(k as int)).push(
                    crate::toolchain_resolve::opt_view(self.provider_paths@[k as int]),
                ));
            }
            k = k + 1;
        }
        proof {
            assert(self.provider_paths@.take(self.provider_paths@.len() as int) =~= self.provider_paths@);
        }
        RuntimeContractFacts {
            contract_id: self.contract_id.clone(),
            operation_id: self.operation_id.clone(),
            loader_requirement: self.loader_requirement.clone(),
            provider_paths: paths,
        }
    }
}

/// What the published manifest says, as far as qualification reads it:
/// its contract version, the requested artifact's digest, its decisions
/// as `(is the runtime obligation, is externalized)`, its runtime
/// contracts and its operations as `(operation id, is a runtime-contract
/// preflight)`.
#[derive(Debug, Clone, PartialEq, Eq)]
pub struct ManifestFacts {
    pub contract_version: String,
    pub requested_digest: String,
    pub decisions: Vec<(bool, bool)>,
    pub runtime_contracts: Vec<RuntimeContractFacts>,
    pub operations: Vec<(String, bool)>,
}

/// The position of the first runtime decision from `k` on.
pub open spec fn first_runtime_decision(ds: Seq<(bool, bool)>, k: int) -> Option<int>
    decreases ds.len() - k,
{
    if k < 0 || k >= ds.len() {
        None
    } else if ds[k].0 {
        Some(k)
    } else {
        first_runtime_decision(ds, k + 1)
    }
}

/// Some operation preflights the runtime contract with this operation id.
pub open spec fn has_preflight(ops: Seq<(String, bool)>, operation_id: Seq<char>) -> bool {
    exists|i: int| 0 <= i < ops.len() && (#[trigger] ops[i]).0@ == operation_id && ops[i].1
}

/// Why the manifest does not admit qualifying the subject, in the order
/// the checks are made; `None` when it does.
pub open spec fn manifest_refusal(m: ManifestFacts, expected_version: Seq<char>, subject_digest: Seq<char>) -> Option<Seq<char>> {
    if m.contract_version@ != expected_version {
        Some("unsupported manifest contract "@ + m.contract_version@)
    } else if subject_digest != m.requested_digest@ {
        Some("subject digest differs from the published manifest"@)
    } else {
        match first_runtime_decision(m.decisions@, 0) {
            None => Some("manifest has no runtime decision"@),
            Some(i) => if !m.decisions@[i].1 {
                Some("runtime obligation is not Externalized"@)
            } else if m.runtime_contracts@.len() == 0 {
                Some("manifest publishes no runtime contract"@)
            } else if m.runtime_contracts@.len() != 1 || !has_preflight(m.operations@, m.runtime_contracts@[0].operation_id@) {
                Some("runtime contract has no unique causal preflight operation"@)
            } else {
                None
            },
        }
    }
}

/// Checks the published manifest against the subject's own digest: a
/// supported contract version, the same digest, an externalized runtime
/// obligation, and exactly one runtime contract with its own preflight
/// operation. Gives that runtime contract, or the first refusal.
pub fn check_manifest(m: &ManifestFacts, expected_version: &str, subject_digest: &str) -> (r: Result<RuntimeContractFacts, String>)
    ensures
        match manifest_refusal(*m, expected_version@, subject_digest@) {
            Some(why) => r matches Err(e) && e@ == why,
            None => r matches Ok(c) && same_contract(c, m.runtime_contracts@[0]),
        },
{
    if !crate::text::str_eq(m.contract_version.as_str(), expected_version) {
        let mut e = owned("unsupported manifest contract ");
        push_str(&mut e, m.contract_version.as_str());
        return Err(e);
    }
    if !crate::text::str_eq(subject_digest, m.requested_digest.as_str()) {
        return Err(owned("subject digest differs from the published manifest"));
    }
    let mut k: usize = 0;
    while k < m.decisions.len() && !m.decisions[k].0
        invariant
            k <= m.decisions@.len(),
            first_runtime_decision(m.decisions@, 0) == first_runtime_decision(m.decisions@, k as int),
        decreases m.decisions@.len() - k,
    {
        k = k + 1;
    }
    if k == m.decisions.len() {
        return Err(owned("manifest has no runtime decision"));
    }
    if !m.decisions[k].1 {
        return Err(owned("runtime obligation is not Externalized"));
    }
    if m.runtime_contracts.len() == 0 {
        return Err(owned("manifest publishes no runtime contract"));
    }
    let contract = &m.runtime_contracts[0];
    let mut found = false;
    let mut j: usize = 0;
    while j < m.operations.len()
        invariant
            j <= m.operations@.len(),
            found == exists|i: int| 0 <= i < j && (#[trigger] m.operations@[i]).0@ == contract.operation_id@
                && m.operations@[i].1,
        decreases m.operations@.len() - j,
    {
        if m.operations[j].1 && crate::text::str_eq(m.operations[j].0.as_str(), contract.operation_id.as_str()) {
            found = true;
        }
        proof {
            if m.operations@[j as int].0@ == contract.operation_id@ && m.operations@[j as int].1 {
                assert(exists|i: int| 0 <= i < j + 1 && (#[trigger] m.operations@[i]).0@ == contract.operation_id@
                    && m.operations@[i].1);
            }
        }
        j = j + 1;
    }
    if m.runtime_contracts.len() != 1 || !found {
        return Err(owned("runtime contract has no unique causal preflight operation"));
    }
    Ok(contract.duplicate())
}

/// The contract the consumer holds the subject to: the cross-language
/// executable must exit 0 printing `9` and a newline, with nothing on
/// stderr, and carry the Rust, Nim, C and C++ symbols; its environment is
/// the consumer's runtime root.
pub fn qualification_contract(subject_digest: &str, runtime_root: &str, harness_version: &str) -> (r: TestContract)
    ensures
        r.contract_id@ == "m1-exact-artifact-cross-language"@,
        r.subject_digest@ == subject_digest@,
        r.harness_identity@ == "laminaria-run/exact-artifact-harness@"@ + harness_version@,
        r.environment_identity@ == runtime_root@,
        r.graph_demand@ == "qualify:executable:app"@,
        strings_view(r.retained_roots@) == seq!["exact-subject"@, "runtime-contract"@],
        strings_view(r.pruned_roots@) == seq!["framework-test-binary"@, "instrumented-binary"@],
        r.expected_exit == 0,
        r.expected_stdout@ == "9\n"@,
        r.expected_stderr@ == Seq::<char>::empty(),
        strings_view(r.required_symbols@) == seq!["c_add"@, "nim_double"@, "cpp_max_i32"@],
{
    let mut harness_identity = owned("laminaria-run/exact-artifact-harness@");
    push_str(&mut harness_identity, harness_version);
    let mut retained_roots: Vec<String> = Vec::new();
    retained_roots.push(owned("exact-subject"));
    retained_roots.push(owned("runtime-contract"));
    let mut pruned_roots: Vec<String> = Vec::new();
    pruned_roots.push(owned("framework-test-binary"));
    pruned_roots.push(owned("instrumented-binary"));
    let mut required_symbols: Vec<String> = Vec::new();
    required_symbols.push(owned("c_add"));
    required_symbols.push(owned("nim_double"));
    required_symbols.push(owned("cpp_max_i32"));
    proof {
        assert(strings_view(retained_roots@) =~= seq!["exact-subject"@, "runtime-contract"@]);
        assert(strings_view(pruned_roots@) =~= seq!["framework-test-binary"@, "instrumented-binary"@]);
        assert(strings_view(required_symbols@) =~= seq!["c_add"@, "nim_double"@, "cpp_max_i32"@]);
        reveal_strlit("");
    }
    TestContract {
        contract_id: owned("m1-exact-artifact-cross-language"),
        subject_digest: owned(subject_digest),
        harness_identity,
        environment_identity: owned(runtime_root),
        graph_demand: owned("qualify:executable:app"),
        retained_roots,
        pruned_roots,
        expected_exit: 0,
        expected_stdout: owned("9\n"),
        expected_stderr: String::new(),
        required_symbols,
    }
}

/// The files that must exist under the runtime root before the subject
/// may run, in the order they are checked: the loader, then each
/// provider that has a path.
pub open spec fn dependency_paths(runtime_root: Seq<char>, c: RuntimeContractFacts) -> Seq<Seq<char>> {
    seq![join_path(runtime_root, without_leading_slashes(c.loader_requirement@))] + provider_paths_under(
        runtime_root,
        c.provider_paths@,
    )
}

/// The provider paths that are given, each under the runtime root.
pub open spec fn provider_paths_under(runtime_root: Seq<char>, ps: Seq<Option<String>>) -> Seq<Seq<char>>
    decreases ps.len(),
{
    if ps.len() == 0 {
        Seq::empty()
    } else {
        let rest = provider_paths_under(runtime_root, ps.drop_last());
        match ps.last() {
            Some(p) => rest.push(join_path(runtime_root, without_leading_slashes(p@))),
            None => rest,
        }
    }
}

/// The files to check under the runtime root, in order; the first is the
/// loader.
pub fn dependency_candidates(runtime_root: &str, c: &RuntimeContractFacts) -> (r: Vec<String>)
    ensures
        strings_view(r@) == dependency_paths(runtime_root@, *c),
{
    let mut out: Vec<String> = Vec::new();
    out.push(under_runtime_root(runtime_root, c.loader_requirement.as_str()));
    let ghost first = strings_view(out@);
    let mut k: usize = 0;
    while k < c.provider_paths.len()
        invariant
            k <= c.provider_paths@.len(),
            first == seq![join_path(runtime_root@, without_leading_slashes(c.loader_requirement@))],
            strings_view(out@) == first + provider_paths_under(runtime_root@, c.provider_paths@.take(k as int)),
        decreases c.provider_paths@.len() - k,
    {
        proof {
            assert(c.provider_paths@.take(k + 1).drop_last() =~= c.provider_paths@.take(k as int));
        }
        let ghost prev = out@;
        match &c.provider_paths[k] {
            Some(p) => {
                out.push(under_runtime_root(runtime_root, p.as_str()));
                proof {
                    assert(strings_view(out@) =~= strings_view(prev).push(
                        join_path(runtime_root@, without_leading_slashes(p@)),
                    ));
                }
            },
            None => {},
        }
        k = k + 1;
    }
    proof {
        assert(c.provider_paths@.take(c.provider_paths@.len() as int) =~= c.provider_paths@);
    }
    out
}

/// A dependency missing under the runtime root: the failed inspection
/// event naming it (as the loader when it is the first candidate, else as
/// a provider), and the verdict naming the contract and the path.
pub fn dependency_missing(contract_id: &str, path: &str, is_loader: bool) -> (r: (HarnessEvent, TestVerdict))
    ensures
        r.0.kind == HarnessEventKind::InspectArtifact,
        !r.0.succeeded,
        r.0.detail@ == (if is_loader { "missing loader "@ } else { "missing provider "@ }) + path@,
        r.1 matches TestVerdict::DependencyMissing { contract_id: c, path: p } && c@ == contract_id@ && p@ == path@,
{
    let mut d = if is_loader {
        owned("missing loader ")
    } else {
        owned("missing provider ")
    };
    push_str(&mut d, path);
    (
        HarnessEvent { kind: HarnessEventKind::InspectArtifact, succeeded: false, detail: d },
        TestVerdict::DependencyMissing { contract_id: owned(contract_id), path: owned(path) },
    )
}

/// Checks what the inspectors independently printed of the subject: its
/// program headers name the contract's loader, and `nm` lists every
/// required symbol as the last token of some line; the first failure is
/// the refusal.
pub fn check_inspection(contract: &TestContract, loader_requirement: &str, headers: &str, symbols: &str) -> (r: Result<(), String>)
    ensures
        crate::text::find_spec(headers@, loader_requirement@) is None ==> (r matches Err(e)
            && e@ == "artifact interpreter differs from published runtime contract"@),
        crate::text::find_spec(headers@, loader_requirement@) is Some ==> (r is Ok <==> forall|i: int|
            0 <= i < contract.required_symbols@.len() ==> nm_lists(symbols@, #[trigger] contract.required_symbols@[i]@)),
        crate::text::find_spec(headers@, loader_requirement@) is Some ==> match r {
            Err(e) => exists|i: int|
                0 <= i < contract.required_symbols@.len() && !nm_lists(symbols@, #[trigger] contract.required_symbols@[i]@)
                    && e@ == "exact artifact does not contain required symbol "@ + contract.required_symbols@[i]@,
            Ok(_) => true,
        },
{
    if !crate::text::contains_str(headers, loader_requirement) {
        return Err(owned("artifact interpreter differs from published runtime contract"));
    }
    let mut k: usize = 0;
    while k < contract.required_symbols.len()
        invariant
            k <= contract.required_symbols@.len(),
            crate::text::find_spec(headers@, loader_requirement@) is Some,
            forall|i: int| 0 <= i < k ==> nm_lists(symbols@, #[trigger] contract.required_symbols@[i]@),
        decreases contract.required_symbols@.len() - k,
    {
        if !nm_lists_symbol(symbols, contract.required_symbols[k].as_str()) {
            let mut e = owned("exact artifact does not contain required symbol ");
            push_str(&mut e, contract.required_symbols[k].as_str());
            return Err(e);
        }
        k = k + 1;
    }
    Ok(())
}

/// The digest by which the exact subject is known: the lowercase
/// hexadecimal SHA-256 of its bytes.
pub fn subject_digest(bytes: &[u8]) -> (r: String)
    ensures
        r@ == crate::reuse::sha256_hex(bytes@),
{
    crate::reuse::content_digest(bytes)
}

/// The first of `present` that is false, if any.
pub open spec fn first_missing(present: Seq<bool>) -> Option<int>
    decreases present.len(),
{
    if present.len() == 0 {
        None
    } else {
        match first_missing(present.drop_last()) {
            Some(k) => Some(k),
            None => if present.last() { None } else { Some(present.len() - 1) },
        }
    }
}

/// The preflight that runs before the subject is ever executed: the
/// candidates under the runtime root are checked in order (the loader
/// first), and the first one that is not there stops the qualification
/// with its failed inspection and a missing-dependency verdict. Nothing
/// stops it when every candidate is present.
pub fn preflight_dependencies(contract_id: &str, candidates: &Vec<String>, present: &Vec<bool>) -> (r: Option<(HarnessEvent, TestVerdict)>)
    requires
        present@.len() == candidates@.len(),
    ensures
        match first_missing(present@) {
            None => r is None,
            Some(k) => (r matches Some((ev, v)) && ev.kind == HarnessEventKind::InspectArtifact && !ev.succeeded
                && ev.detail@ == (if k == 0 { "missing loader "@ } else { "missing provider "@ }) + candidates@[k]@
                && (v matches TestVerdict::DependencyMissing { contract_id: c, path: p } && c@ == contract_id@ && p@
                == candidates@[k]@)),
        },
{
    let mut k: usize = 0;
    while k < present.len()
        invariant
            k <= present@.len(),
            present@.len() == candidates@.len(),
            first_missing(present@.take(k as int)) is None,
        decreases present@.len() - k,
    {
        proof {
            assert(present@.take(k + 1).drop_last() =~= present@.take(k as int));
        }
        if !present[k] {
            proof {
                lemma_first_missing_prefix(present@, k as int + 1);
            }
            return Some(dependency_missing(contract_id, candidates[k].as_str(), k == 0));
        }
        k = k + 1;
    }
    proof {
        assert(present@.take(k as int) =~= present@);
    }
    None
}

/// Once the first missing entry lies within a prefix, it is the first
/// missing entry of the whole.
proof fn lemma_first_missing_prefix(present: Seq<bool>, n: int)
    requires
        0 <= n <= present.len(),
        first_missing(present.take(n)) is Some,
    ensures
        first_missing(present) == first_missing(present.take(n)),
    decreases present.len() - n,
{
    if n < present.len() {
        assert(present.take(n + 1).drop_last() =~= present.take(n));
        lemma_first_missing_prefix(present, n + 1);
    } else {
        assert(present.take(n) =~= present);
    }
}

} // verus!
