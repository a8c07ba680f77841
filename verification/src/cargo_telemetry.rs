//! Compiler-native telemetry for Cargo builds: where `--message-format=json`
//! may be injected into a Cargo invocation, and the telemetry record its
//! JSON message stream is read into.

use vstd::prelude::*;

use crate::resource_scheduler::strings_view;
use crate::json::{array_of, as_bool, as_str, bool_of, get, member, str_of, string_items, strs_of, JsonValue};
use crate::json::{doc_of, json_parse, parse_json_text};
use crate::text::{after_prefix, lines_of, split_lines, str_eq, strip_prefix, trim_spec, trimmed};
use crate::toolchain_resolve::opt_view;

verus! {

/// One `compiler-artifact` message.
#[derive(Debug, Clone, PartialEq, Eq, Default)]
pub struct CompilerArtifactRecord {
    pub package_id: String,
    pub target_name: String,
    pub target_kind: Vec<String>,
    pub filenames: Vec<String>,
    pub executable: Option<String>,
    /// Cargo's own per-crate cache signal: `true` means the crate's
    /// artifact was already up to date and was not recompiled.
    pub fresh: bool,
}

/// Telemetry read from a Cargo `--message-format=json` stream.
#[derive(Debug, Clone, PartialEq, Eq, Default)]
pub struct CargoCompilerTelemetry {
    pub artifacts: Vec<CompilerArtifactRecord>,
    /// From the `build-finished` message, when one was seen.
    pub build_finished_success: Option<bool>,
    pub compiler_message_count: usize,
    pub build_script_executed_count: usize,
    /// Lines that were not JSON or not one of the known message reasons.
    pub unparsed_line_count: usize,
}

/// The Cargo subcommands that accept `--message-format=json`.
pub open spec fn format_subcommand(s: Seq<char>) -> bool {
    s == "build"@ || s == "check"@ || s == "doc"@ || s == "test"@ || s == "run"@ || s == "bench"@
}

pub fn is_format_subcommand(s: &str) -> (r: bool)
    ensures
        r == format_subcommand(s@),
{
    str_eq(s, "build") || str_eq(s, "check") || str_eq(s, "doc") || str_eq(s, "test") || str_eq(s, "run")
        || str_eq(s, "bench")
}

/// Where the subcommand sits: after a leading `+toolchain` selector, if
/// there is one.
pub open spec fn subcommand_index(args: Seq<Seq<char>>) -> int {
    if args.len() > 0 && args[0].len() > 0 && args[0][0] == '+' {
        1
    } else {
        0
    }
}

/// The position of the first `--` from `k` on, or the length.
pub open spec fn first_dashdash(args: Seq<Seq<char>>, k: int) -> int
    decreases args.len() - k,
{
    if k < 0 || k >= args.len() {
        args.len() as int
    } else if args[k] == "--"@ {
        k
    } else {
        first_dashdash(args, k + 1)
    }
}

proof fn lemma_first_dashdash_at_least(args: Seq<Seq<char>>, k: int)
    requires
        0 <= k <= args.len(),
    ensures
        k <= first_dashdash(args, k) <= args.len(),
    decreases args.len() - k,
{
    if k < args.len() && args[k] != "--"@ {
        lemma_first_dashdash_at_least(args, k + 1);
    }
}

/// The argument chooses a message format itself.
pub open spec fn names_message_format(a: Seq<char>) -> bool {
    a == "--message-format"@ || after_prefix(a, "--message-format="@) is Some
}

/// Where `--message-format=json` goes: right after the subcommand, when
/// the subcommand accepts it and Cargo's own arguments (those before any
/// `--`) do not already choose a format.
pub open spec fn insert_index(args: Seq<Seq<char>>) -> Option<int> {
    let si = subcommand_index(args);
    if si >= args.len() {
        None
    } else if !format_subcommand(args[si]) {
        None
    } else if exists|i: int| 0 <= i < first_dashdash(args, 0) && #[trigger] names_message_format(args[i]) {
        None
    } else {
        Some(si + 1)
    }
}

/// The flag is never injected when Cargo's own arguments already choose
/// a message format, and never past a `--` (where the arguments belong to
/// the program Cargo runs).
pub proof fn law_insertion_respects_the_caller(args: Seq<Seq<char>>)
    ensures
        (exists|i: int| 0 <= i < first_dashdash(args, 0) && #[trigger] names_message_format(args[i]))
            ==> insert_index(args) is None,
        insert_index(args) matches Some(k) ==> 1 <= k <= first_dashdash(args, 0),
{
    lemma_first_dashdash_at_least(args, 0);
    reveal_strlit("--");
    reveal_strlit("build");
    reveal_strlit("check");
    reveal_strlit("doc");
    reveal_strlit("test");
    reveal_strlit("run");
    reveal_strlit("bench");
    let si = subcommand_index(args);
    if insert_index(args) is Some {
        assert(format_subcommand(args[si]));
        assert(args[si] != "--"@) by {
            if args[si] == "--"@ {
                assert("--"@.len() == 2);
                assert("doc"@.len() == 3 && "run"@.len() == 3);
            }
        }
        lemma_dashdash_after(args, si);
    }
}

/// Exactly the six JSON-capable subcommands get the flag: an invocation
/// whose subcommand (after a leading `+toolchain`, if any) is `build`,
/// `check`, `doc`, `test`, `run` or `bench`, and whose Cargo arguments
/// neither choose a message format nor hold a `--`, gets
/// `--message-format=json` right after the subcommand; any other
/// subcommand never gets it.
pub proof fn law_json_capable_subcommands_get_the_flag(args: Seq<Seq<char>>)
    ensures
        ({
            let si = subcommand_index(args);
            &&& (si < args.len() && (args[si] == "build"@ || args[si] == "check"@ || args[si] == "doc"@ || args[si] == "test"@ || args[si] == "run"@ || args[si] == "bench"@) && (forall|i: int| 0 <= i < args.len() ==> #[trigger] args[i]
                != "--"@ && args[i] != "--message-format"@ && after_prefix(args[i], "--message-format="@) is None))
                ==> insert_index(args) == Some(si + 1)
            &&& (si < args.len() && !(args[si] == "build"@ || args[si] == "check"@ || args[si] == "doc"@ || args[si] == "test"@ || args[si] == "run"@ || args[si] == "bench"@)) ==> insert_index(args) is None
        }),
        args.len() >= 1 && (args[0] == "build"@ || args[0] == "check"@ || args[0] == "doc"@ || args[0] == "test"@ || args[0] == "run"@ || args[0] == "bench"@) && (forall|i: int| 0 <= i < args.len() ==> #[trigger] args[i]
            != "--"@ && args[i] != "--message-format"@ && after_prefix(args[i], "--message-format="@) is None)
            ==> insert_index(args) == Some(1int),
{
    reveal_strlit("build");
    reveal_strlit("check");
    reveal_strlit("doc");
    reveal_strlit("test");
    reveal_strlit("run");
    reveal_strlit("bench");
    let si = subcommand_index(args);
    if si < args.len() {
        if forall|i: int| 0 <= i < args.len() ==> #[trigger] args[i] != "--"@ && args[i] != "--message-format"@
            && after_prefix(args[i], "--message-format="@) is None {
            lemma_no_dashdash(args, 0);
            assert(!exists|i: int| 0 <= i < first_dashdash(args, 0) && #[trigger] names_message_format(args[i]));
        }
    }
    if args.len() >= 1 && (args[0] == "build"@ || args[0] == "check"@ || args[0] == "doc"@ || args[0] == "test"@ || args[0] == "run"@ || args[0] == "bench"@) {
        assert(args[0][0] != '+');
        assert(si == 0);
    }
}

/// Past a leading `+toolchain` selector the subcommand is the second
/// argument, and the flag goes right after it; an explicit choice of
/// format anywhere in a `--`-free invocation (`--message-format` alone or
/// `--message-format=...`) always suppresses the flag.
pub proof fn law_toolchain_selector_and_explicit_format(args: Seq<Seq<char>>, k: int)
    ensures
        (args.len() >= 2 && args[0].len() > 0 && args[0][0] == '+' && (args[1] == "build"@ || args[1] == "check"@ || args[1] == "doc"@ || args[1] == "test"@ || args[1] == "run"@ || args[1] == "bench"@)
            && (forall|i: int| 0 <= i < args.len() ==> #[trigger] args[i] != "--"@ && args[i] != "--message-format"@
            && after_prefix(args[i], "--message-format="@) is None)) ==> insert_index(args) == Some(2int),
        (0 <= k < args.len() && (forall|i: int| 0 <= i < args.len() ==> #[trigger] args[i] != "--"@) && (args[k]
            == "--message-format"@ || args[k].len() >= 17 && args[k].take(17) == "--message-format="@))
            ==> insert_index(args) is None,
{
    reveal_strlit("build");
    reveal_strlit("check");
    reveal_strlit("doc");
    reveal_strlit("test");
    reveal_strlit("run");
    reveal_strlit("bench");
    reveal_strlit("--message-format=");
    law_json_capable_subcommands_get_the_flag(args);
    if 0 <= k < args.len() && (forall|i: int| 0 <= i < args.len() ==> #[trigger] args[i] != "--"@) && (args[k]
        == "--message-format"@ || args[k].len() >= 17 && args[k].take(17) == "--message-format="@) {
        lemma_no_dashdash(args, 0);
        if args[k] != "--message-format"@ {
            assert("--message-format="@.len() == 17);
            assert(after_prefix(args[k], "--message-format="@) is Some);
        }
        assert(names_message_format(args[k]));
        law_insertion_respects_the_caller(args);
    }
}

proof fn lemma_no_dashdash(args: Seq<Seq<char>>, k: int)
    requires
        0 <= k <= args.len(),
        forall|i: int| 0 <= i < args.len() ==> #[trigger] args[i] != "--"@,
    ensures
        first_dashdash(args, k) == args.len(),
    decreases args.len() - k,
{
    if k < args.len() {
        assert(args[k] != "--"@);
        lemma_no_dashdash(args, k + 1);
    }
}

proof fn lemma_dashdash_after(args: Seq<Seq<char>>, si: int)
    requires
        si == subcommand_index(args),
        0 <= si < args.len(),
        args[si] != "--"@,
    ensures
        si < first_dashdash(args, 0),
{
    reveal_strlit("--");
    if si == 1 {
        assert(args[0].len() > 0 && args[0][0] == '+');
        assert(args[0] != "--"@) by {
            if args[0] == "--"@ {
                assert("--"@[0] == '-');
            }
        }
        assert(first_dashdash(args, 0) == first_dashdash(args, 1));
        lemma_first_dashdash_at_least(args, 1);
        if args.len() > 1 {
            assert(first_dashdash(args, 1) == first_dashdash(args, 2));
            lemma_first_dashdash_at_least(args, 2);
        }
    } else {
        assert(first_dashdash(args, 0) == first_dashdash(args, 1));
        lemma_first_dashdash_at_least(args, 1);
    }
}

/// Whether `--message-format=json` should be injected into this Cargo
/// invocation and, if so, at which index of `args`: immediately after the
/// subcommand (past a leading `+toolchain`), which is always inside
/// Cargo's own option region and never past a `--`. Never overrides a
/// format the caller chose.
pub fn message_format_insert_index(args: &[String]) -> (r: Option<usize>)
    ensures
        match insert_index(strings_view(args@)) {
            Some(i) => r == Some(i as usize),
            None => r is None,
        },
{
    let ghost av = strings_view(args@);
    let si: usize = if args.len() > 0 && crate::text::chars_of(args[0].as_str()).len() > 0
        && crate::text::chars_of(args[0].as_str())[0] == '+' {
        1
    } else {
        0
    };
    proof {
        if args@.len() > 0 {
            assert(av[0] == args@[0]@);
        }
    }
    if si >= args.len() {
        return None;
    }
    proof {
        assert(av[si as int] == args@[si as int]@);
    }
    if !is_format_subcommand(args[si].as_str()) {
        return None;
    }
    let mut i: usize = 0;
    let mut stop = false;
    while i < args.len() && !stop
        invariant
            av == strings_view(args@),
            i <= av.len(),
            !stop ==> first_dashdash(av, 0) == first_dashdash(av, i as int),
            stop ==> first_dashdash(av, 0) == i - 1 + 0,
            stop ==> i >= 1,
            forall|j: int| 0 <= j < i && j < first_dashdash(av, 0) ==> !#[trigger] names_message_format(av[j]),
        decreases av.len() - i,
    {
        proof {
            assert(av[i as int] == args@[i as int]@);
        }
        if str_eq(args[i].as_str(), "--") {
            stop = true;
        } else {
            let exact = str_eq(args[i].as_str(), "--message-format");
            let prefixed = strip_prefix(args[i].as_str(), "--message-format=").is_some();
            if exact || prefixed {
                proof {
                    assert(names_message_format(av[i as int]));
                    lemma_first_dashdash_at_least(av, i + 1);
                    assert(i < first_dashdash(av, 0));
                }
                return None;
            }
        }
        i = i + 1;
    }
    proof {
        if !stop {
            assert(first_dashdash(av, i as int) == av.len());
        }
    }
    Some(si + 1)
}

// ---------------------------------------------------------------------
// The JSON message stream
// ---------------------------------------------------------------------

/// The non-empty lines of `ls`, each trimmed.
pub open spec fn nonempty_trimmed(ls: Seq<Seq<char>>) -> Seq<Seq<char>>
    decreases ls.len(),
{
    if ls.len() == 0 {
        Seq::empty()
    } else {
        let rest = nonempty_trimmed(ls.drop_last());
        if trim_spec(ls.last()).len() == 0 {
            rest
        } else {
            rest.push(trim_spec(ls.last()))
        }
    }
}

/// The messages of a Cargo JSON Lines stream: each line trimmed, blank
/// lines left out.
pub fn message_lines(text: &str) -> (r: Vec<String>)
    ensures
        strings_view(r@) == nonempty_trimmed(lines_of(text@)),
{
    let lines = split_lines(text);
    let ghost ls = lines_of(text@);
    let mut out: Vec<String> = Vec::new();
    let mut k: usize = 0;
    while k < lines.len()
        invariant
            k <= lines@.len(),
            strings_view(lines@) == ls,
            strings_view(out@) == nonempty_trimmed(ls.take(k as int)),
        decreases lines@.len() - k,
    {
        proof {
            assert(ls.take(k + 1).drop_last() =~= ls.take(k as int));
            assert(ls.take(k + 1).last() == lines@[k as int]@);
        }
        let t = trimmed(lines[k].as_str());
        let ghost prev = out@;
        if crate::text::chars_of(t.as_str()).len() > 0 {
            out.push(t);
            proof {
                assert(strings_view(out@) =~= strings_view(prev).push(trim_spec(lines@[k as int]@)));
            }
        }
        k = k + 1;
    }
    proof {
        assert(ls.take(lines@.len() as int) =~= ls);
    }
    out
}

/// Whether a `compiler-artifact` message carries every field a record
/// needs: a string package id, a target with a string name and an array
/// of kinds, an array of file names and a boolean freshness.
pub open spec fn artifact_complete(v: JsonValue) -> bool {
    &&& str_of(member(v, "package_id"@)) is Some
    &&& member(v, "target"@) is Some
    &&& str_of(member(member(v, "target"@).unwrap(), "name"@)) is Some
    &&& array_of(member(member(v, "target"@).unwrap(), "kind"@)) is Some
    &&& array_of(member(v, "filenames"@)) is Some
    &&& bool_of(member(v, "fresh"@)) is Some
}

/// `a` is the record read from the complete message `v`: the string items
/// of the kinds and of the file names (others skipped) and the executable
/// when it is a string.
pub open spec fn artifact_read(a: CompilerArtifactRecord, v: JsonValue) -> bool {
    let target = member(v, "target"@).unwrap();
    &&& a.package_id@ == str_of(member(v, "package_id"@)).unwrap()
    &&& a.target_name@ == str_of(member(target, "name"@)).unwrap()
    &&& strings_view(a.target_kind@) == strs_of(array_of(member(target, "kind"@)).unwrap())
    &&& strings_view(a.filenames@) == strs_of(array_of(member(v, "filenames"@)).unwrap())
    &&& opt_view(a.executable) == str_of(member(v, "executable"@))
    &&& a.fresh == bool_of(member(v, "fresh"@)).unwrap()
}

/// Reads a `compiler-artifact` message into a record; nothing when a
/// required field is missing or of the wrong kind.
pub fn parse_artifact(value: &JsonValue) -> (r: Option<CompilerArtifactRecord>)
    ensures
        r is Some <==> artifact_complete(*value),
        r matches Some(a) ==> artifact_read(a, *value),
{
    let package_id = match as_str(get(value, "package_id")) {
        Some(s) => s.to_string(),
        None => return None,
    };
    let target = match get(value, "target") {
        Some(t) => t,
        None => return None,
    };
    let target_name = match as_str(get(target, "name")) {
        Some(s) => s.to_string(),
        None => return None,
    };
    let target_kind = match get(target, "kind") {
        Some(JsonValue::Array(items)) => string_items(items),
        _ => return None,
    };
    let filenames = match get(value, "filenames") {
        Some(JsonValue::Array(items)) => string_items(items),
        _ => return None,
    };
    let executable = match as_str(get(value, "executable")) {
        Some(s) => Some(s.to_string()),
        None => None,
    };
    let fresh = match as_bool(get(value, "fresh")) {
        Some(b) => b,
        None => return None,
    };
    Some(CompilerArtifactRecord { package_id, target_name, target_kind, filenames, executable, fresh })
}

/// The `reason` of a parsed message, when it is a string.
pub open spec fn reason_of(m: Option<JsonValue>) -> Option<Seq<char>> {
    match m {
        Some(v) => str_of(member(v, "reason"@)),
        None => None,
    }
}

/// Whether a message has reason `r`.
pub open spec fn has_reason(m: Option<JsonValue>, r: Seq<char>) -> bool {
    reason_of(m) == Some(r)
}

/// Whether a message yields an artifact record.
pub open spec fn yields_artifact(m: Option<JsonValue>) -> bool {
    has_reason(m, "compiler-artifact"@) && artifact_complete(m.unwrap())
}

/// Whether a message is counted as unparsed: not JSON, no string reason,
/// an incomplete artifact, or a reason this reader does not model.
pub open spec fn unparsed(m: Option<JsonValue>) -> bool {
    match reason_of(m) {
        None => true,
        Some(r) => if r == "compiler-artifact"@ {
            !artifact_complete(m.unwrap())
        } else {
            r != "compiler-message"@ && r != "build-script-executed"@ && r != "build-finished"@
        },
    }
}

/// How many of the messages have reason `r`.
pub open spec fn count_reason(ms: Seq<Option<JsonValue>>, r: Seq<char>) -> nat
    decreases ms.len(),
{
    if ms.len() == 0 {
        0
    } else {
        count_reason(ms.drop_last(), r) + if has_reason(ms.last(), r) {
            1nat
        } else {
            0nat
        }
    }
}

/// How many of the messages are unparsed.
pub open spec fn count_unparsed(ms: Seq<Option<JsonValue>>) -> nat
    decreases ms.len(),
{
    if ms.len() == 0 {
        0
    } else {
        count_unparsed(ms.drop_last()) + if unparsed(ms.last()) {
            1nat
        } else {
            0nat
        }
    }
}

proof fn lemma_counts_bound(ms: Seq<Option<JsonValue>>, r: Seq<char>)
    ensures
        count_reason(ms, r) <= ms.len(),
        count_unparsed(ms) <= ms.len(),
    decreases ms.len(),
{
    if ms.len() > 0 {
        lemma_counts_bound(ms.drop_last(), r);
    }
}

/// The messages that yield artifact records, in order.
pub open spec fn artifact_messages(ms: Seq<Option<JsonValue>>) -> Seq<JsonValue>
    decreases ms.len(),
{
    if ms.len() == 0 {
        Seq::empty()
    } else {
        let rest = artifact_messages(ms.drop_last());
        if yields_artifact(ms.last()) {
            rest.push(ms.last().unwrap())
        } else {
            rest
        }
    }
}

/// The success flag of the last `build-finished` message (itself absent
/// when that message has no boolean `success`); `None` when there was none.
pub open spec fn last_finished(ms: Seq<Option<JsonValue>>) -> Option<Option<bool>>
    decreases ms.len(),
{
    if ms.len() == 0 {
        None
    } else if has_reason(ms.last(), "build-finished"@) {
        Some(bool_of(member(ms.last().unwrap(), "success"@)))
    } else {
        last_finished(ms.drop_last())
    }
}

/// The telemetry read from `ms` holds: every artifact record in message
/// order, the counts of compiler messages, build-script runs and unparsed
/// messages, and the outcome of the last `build-finished`.
pub open spec fn telemetry_of(t: CargoCompilerTelemetry, ms: Seq<Option<JsonValue>>) -> bool {
    &&& t.artifacts@.len() == artifact_messages(ms).len()
    &&& forall|i: int| 0 <= i < t.artifacts@.len() ==> artifact_read(#[trigger] t.artifacts@[i], artifact_messages(ms)[i])
    &&& t.compiler_message_count == count_reason(ms, "compiler-message"@)
    &&& t.build_script_executed_count == count_reason(ms, "build-script-executed"@)
    &&& t.unparsed_line_count == count_unparsed(ms)
    &&& t.build_finished_success == match last_finished(ms) {
        Some(b) => b,
        None => None,
    }
}

/// What one message contributes to the telemetry.
pub enum MessageKind {
    Artifact(CompilerArtifactRecord),
    CompilerMessage,
    BuildScriptExecuted,
    BuildFinished(Option<bool>),
    Unparsed,
}

/// Classifies one parsed message by its `reason`.
fn classify_message(m: &Option<JsonValue>) -> (r: MessageKind)
    ensures
        (r is Artifact) <==> yields_artifact(*m),
        r matches MessageKind::Artifact(a) ==> artifact_read(a, m.unwrap()),
        (r is CompilerMessage) <==> has_reason(*m, "compiler-message"@),
        (r is BuildScriptExecuted) <==> has_reason(*m, "build-script-executed"@),
        (r is BuildFinished) <==> has_reason(*m, "build-finished"@),
        r matches MessageKind::BuildFinished(b) ==> b == bool_of(member(m.unwrap(), "success"@)),
        (r is Unparsed) <==> unparsed(*m),
{
    proof {
        reveal_strlit("compiler-artifact");
        reveal_strlit("compiler-message");
        reveal_strlit("build-script-executed");
        reveal_strlit("build-finished");
        assert("compiler-artifact"@.len() == 17);
        assert("compiler-message"@.len() == 16);
        assert("build-script-executed"@.len() == 21);
        assert("build-finished"@.len() == 14);
    }
    match m {
        None => MessageKind::Unparsed,
        Some(value) => match as_str(get(value, "reason")) {
            None => MessageKind::Unparsed,
            Some(reason) => {
                if str_eq(reason, "compiler-artifact") {
                    match parse_artifact(value) {
                        Some(record) => MessageKind::Artifact(record),
                        None => MessageKind::Unparsed,
                    }
                } else if str_eq(reason, "compiler-message") {
                    MessageKind::CompilerMessage
                } else if str_eq(reason, "build-script-executed") {
                    MessageKind::BuildScriptExecuted
                } else if str_eq(reason, "build-finished") {
                    MessageKind::BuildFinished(as_bool(get(value, "success")))
                } else {
                    MessageKind::Unparsed
                }
            },
        },
    }
}

/// Reads a Cargo message stream into telemetry. `messages[k]` is the k-th
/// message line parsed as JSON (`None` where it is not JSON). Never fails:
/// whatever cannot be read is counted as unparsed, so a gap between the
/// lines and the recognized reasons stays visible.
pub fn telemetry_from_messages(messages: &Vec<Option<JsonValue>>) -> (r: CargoCompilerTelemetry)
    ensures
        telemetry_of(r, messages@),
{
    let mut t = CargoCompilerTelemetry {
        artifacts: Vec::new(),
        build_finished_success: None,
        compiler_message_count: 0,
        build_script_executed_count: 0,
        unparsed_line_count: 0,
    };
    let ghost ms = messages@;
    let mut k: usize = 0;
    while k < messages.len()
        invariant
            k <= ms.len(),
            ms == messages@,
            telemetry_of(t, ms.take(k as int)),
        decreases ms.len() - k,
    {
        let ghost pre = ms.take(k as int);
        let ghost cur = ms.take(k + 1);
        proof {
            assert(cur.drop_last() =~= pre);
            assert(cur.last() == ms[k as int]);
            lemma_counts_bound(pre, "compiler-message"@);
            lemma_counts_bound(pre, "build-script-executed"@);
        }
        let ghost old_t = t;
        match classify_message(&messages[k]) {
            MessageKind::Artifact(record) => {
                t.artifacts.push(record);
                proof {
                    assert forall|i: int| 0 <= i < t.artifacts@.len() implies artifact_read(
                        #[trigger] t.artifacts@[i],
                        artifact_messages(cur)[i],
                    ) by {
                        if i < old_t.artifacts@.len() {
                            assert(t.artifacts@[i] == old_t.artifacts@[i]);
                        }
                    }
                }
            },
            MessageKind::CompilerMessage => {
                t.compiler_message_count = t.compiler_message_count + 1;
            },
            MessageKind::BuildScriptExecuted => {
                t.build_script_executed_count = t.build_script_executed_count + 1;
            },
            MessageKind::BuildFinished(b) => {
                t.build_finished_success = b;
            },
            MessageKind::Unparsed => {
                t.unparsed_line_count = t.unparsed_line_count + 1;
            },
        }
        k = k + 1;
    }
    proof {
        assert(ms.take(ms.len() as int) =~= ms);
    }
    t
}

/// How one message line reads: the document it parses as, or nothing when
/// it is no JSON text.
pub open spec fn message_read(line: Seq<char>, m: Option<JsonValue>) -> bool {
    match json_parse(line) {
        Err(_) => m is None,
        Ok(d) => m matches Some(v) && doc_of(v) == d,
    }
}

/// The telemetry of Cargo's JSON message stream `text`: each non-blank
/// line, trimmed, is parsed as one message, and a line that is no JSON
/// text counts as unparsed. Never fails.
pub fn telemetry_from_text(text: &str) -> (r: CargoCompilerTelemetry)
    ensures
        exists|ms: Seq<Option<JsonValue>>| {
            &&& ms.len() == nonempty_trimmed(lines_of(text@)).len()
            &&& forall|i: int| 0 <= i < ms.len() ==> message_read(nonempty_trimmed(lines_of(text@))[i], #[trigger] ms[i])
            &&& telemetry_of(r, ms)
        },
{
    let lines = message_lines(text);
    let ghost ls = nonempty_trimmed(lines_of(text@));
    let mut parsed: Vec<Option<JsonValue>> = Vec::new();
    let mut k: usize = 0;
    while k < lines.len()
        invariant
            k <= lines@.len(),
            strings_view(lines@) == ls,
            parsed@.len() == k,
            forall|i: int| 0 <= i < k ==> message_read(ls[i], #[trigger] parsed@[i]),
        decreases lines@.len() - k,
    {
        proof {
            assert(ls[k as int] == lines@[k as int]@);
        }
        let m = match parse_json_text(lines[k].as_str()) {
            Ok(v) => Some(v),
            Err(_) => None,
        };
        parsed.push(m);
        k = k + 1;
    }
    let r = telemetry_from_messages(&parsed);
    proof {
        assert(parsed@.len() == ls.len());
    }
    r
}

} // verus!
