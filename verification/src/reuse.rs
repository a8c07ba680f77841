//! The reuse decision: given the identity of an already-produced artifact
//! and the identity the next run would need, decide whether the artifact
//! is reusable, and explain every difference that forces a rebuild. An
//! unresolved toolchain identity is a difference (unknown fails closed).
//! Source identity is content-based: the digest of every file's path and
//! content digest, in path order.

use sha2::Digest;
use vstd::prelude::*;

use crate::text::{debug_quoted, debug_str, owned, push_str};
use crate::toolchain_resolve::{debug_opt, opt_view};

verus! {

/// The identity components of one artifact.
#[derive(Debug, Clone, PartialEq, Eq)]
pub struct ArtifactIdentityKey {
    pub schema_version: String,
    pub source_digest_sha256: String,
    pub toolchain_digest_sha256: Option<String>,
    pub command_identity: String,
    pub target_identity: Option<String>,
}

/// Whether an artifact may be reused, or why it must be rebuilt.
#[derive(Debug, Clone, PartialEq, Eq)]
pub enum ReuseDecision {
    Reusable,
    MustRebuild { reasons: Vec<String> },
}

/// The version of the identity key's schema.
pub const REUSE_SCHEMA_VERSION: &'static str = "0.1.0";

/// The version of the identity key's schema, as an owned string.
pub fn reuse_schema_version() -> (r: String)
    ensures
        r@ == REUSE_SCHEMA_VERSION@,
        r@ == "0.1.0"@,
{
    owned(REUSE_SCHEMA_VERSION)
}

/// At most the first twelve characters of `d`.
pub open spec fn short(d: Seq<char>) -> Seq<char> {
    if d.len() <= 12 {
        d
    } else {
        d.take(12)
    }
}

/// At most the first twelve characters of a digest, for messages.
pub fn short_digest(digest: &str) -> (r: String)
    ensures
        r@ == short(digest@),
{
    let cs = crate::text::chars_of(digest);
    let end: usize = if cs.len() <= 12 {
        cs.len()
    } else {
        12
    };
    let r = crate::text::substring(&cs, 0, end);
    proof {
        if cs@.len() <= 12 {
            assert(cs@.subrange(0, end as int) =~= cs@);
        } else {
            assert(cs@.subrange(0, 12) =~= cs@.take(12));
        }
    }
    r
}

/// The reasons a rebuild is needed, one per differing component, in this
/// order: source, toolchain (also when unresolved), command, target.
pub open spec fn rebuild_reasons(p: ArtifactIdentityKey, c: ArtifactIdentityKey) -> Seq<Seq<char>> {
    let s1: Seq<Seq<char>> = if p.source_digest_sha256@ != c.source_digest_sha256@ {
        seq![
            "source content digest differs ("@ + short(p.source_digest_sha256@) + " -> "@ + short(
                c.source_digest_sha256@,
            ) + ")"@,
        ]
    } else {
        seq![]
    };
    let s2: Seq<Seq<char>> = if opt_view(p.toolchain_digest_sha256) != opt_view(c.toolchain_digest_sha256)
        || p.toolchain_digest_sha256 is None {
        seq![
            "toolchain digest differs or unresolved ("@ + debug_opt(opt_view(p.toolchain_digest_sha256))
                + " -> "@ + debug_opt(opt_view(c.toolchain_digest_sha256)) + ")"@,
        ]
    } else {
        seq![]
    };
    let s3: Seq<Seq<char>> = if p.command_identity@ != c.command_identity@ {
        seq![
            "command identity differs ("@ + debug_str(p.command_identity@) + " -> "@ + debug_str(
                c.command_identity@,
            ) + ")"@,
        ]
    } else {
        seq![]
    };
    let s4: Seq<Seq<char>> = if opt_view(p.target_identity) != opt_view(c.target_identity) {
        seq![
            "target identity differs ("@ + debug_opt(opt_view(p.target_identity)) + " -> "@ + debug_opt(
                opt_view(c.target_identity),
            ) + ")"@,
        ]
    } else {
        seq![]
    };
    s1 + s2 + s3 + s4
}

/// An artifact is reusable for an identical identity exactly when its
/// toolchain digest is resolved.
pub proof fn law_identical_identity_reusable_iff_resolved(k: ArtifactIdentityKey)
    ensures
        (rebuild_reasons(k, k).len() == 0) <==> (k.toolchain_digest_sha256 is Some),
{
}

/// An unresolved toolchain digest always forces a rebuild, whatever the
/// candidate (unknown fails closed).
pub proof fn law_unresolved_toolchain_never_reusable(p: ArtifactIdentityKey, c: ArtifactIdentityKey)
    requires
        p.toolchain_digest_sha256 is None,
    ensures
        rebuild_reasons(p, c).len() > 0,
{
}

/// A rebuild is forced as soon as any component differs, and only then
/// (with a resolved toolchain): reuse means every component matches.
pub proof fn law_reusable_means_identical(p: ArtifactIdentityKey, c: ArtifactIdentityKey)
    ensures
        rebuild_reasons(p, c).len() == 0 <==> (
            p.source_digest_sha256@ == c.source_digest_sha256@
            && p.toolchain_digest_sha256 is Some
            && opt_view(p.toolchain_digest_sha256) == opt_view(c.toolchain_digest_sha256)
            && p.command_identity@ == c.command_identity@
            && opt_view(p.target_identity) == opt_view(c.target_identity)),
{
}

fn opt_eq(a: &Option<String>, b: &Option<String>) -> (r: bool)
    ensures
        r == (opt_view(*a) == opt_view(*b)),
{
    match (a, b) {
        (Some(x), Some(y)) => *x == *y,
        (None, None) => true,
        _ => false,
    }
}

fn push_debug_opt(m: &mut String, o: &Option<String>)
    ensures
        final(m)@ == old(m)@ + debug_opt(opt_view(*o)),
{
    match o {
        Some(s) => {
            push_str(m, "Some(");
            let q = debug_quoted(s.as_str());
            push_str(m, q.as_str());
            push_str(m, ")");
            proof {
                assert(final(m)@ =~= old(m)@ + debug_opt(opt_view(*o)));
            }
        },
        None => {
            push_str(m, "None");
        },
    }
}

/// Decides whether `previous` may be reused for `candidate`; a rebuild
/// names every component that differs.
pub fn decide_reuse(previous: &ArtifactIdentityKey, candidate: &ArtifactIdentityKey) -> (r: ReuseDecision)
    ensures
        rebuild_reasons(*previous, *candidate).len() == 0 ==> r == ReuseDecision::Reusable,
        rebuild_reasons(*previous, *candidate).len() > 0 ==> (r matches ReuseDecision::MustRebuild { reasons }
            && crate::resource_scheduler::strings_view(reasons@) == rebuild_reasons(*previous, *candidate)),
{
    let ghost p = *previous;
    let ghost c = *candidate;
    let mut reasons: Vec<String> = Vec::new();
    let ghost mut expected: Seq<Seq<char>> = Seq::empty();
    if !(previous.source_digest_sha256 == candidate.source_digest_sha256) {
        let mut m = owned("source content digest differs (");
        let a = short_digest(previous.source_digest_sha256.as_str());
        push_str(&mut m, a.as_str());
        push_str(&mut m, " -> ");
        let b = short_digest(candidate.source_digest_sha256.as_str());
        push_str(&mut m, b.as_str());
        push_str(&mut m, ")");
        reasons.push(m);
    }
    proof {
        let s1: Seq<Seq<char>> = if p.source_digest_sha256@ != c.source_digest_sha256@ {
            seq![
                "source content digest differs ("@ + short(p.source_digest_sha256@) + " -> "@ + short(
                    c.source_digest_sha256@,
                ) + ")"@,
            ]
        } else {
            seq![]
        };
        assert(crate::resource_scheduler::strings_view(reasons@) =~= s1);
        expected = s1;
    }
    let same_toolchain = opt_eq(&previous.toolchain_digest_sha256, &candidate.toolchain_digest_sha256);
    if !same_toolchain || previous.toolchain_digest_sha256.is_none() {
        let mut m = owned("toolchain digest differs or unresolved (");
        push_debug_opt(&mut m, &previous.toolchain_digest_sha256);
        push_str(&mut m, " -> ");
        push_debug_opt(&mut m, &candidate.toolchain_digest_sha256);
        push_str(&mut m, ")");
        let ghost before = crate::resource_scheduler::strings_view(reasons@);
        reasons.push(m);
        proof {
            assert(crate::resource_scheduler::strings_view(reasons@) =~= before.push(m@));
            expected = expected + seq![m@];
        }
    } else {
        proof {
            assert(expected + Seq::<Seq<char>>::empty() =~= expected);
            expected = expected + Seq::<Seq<char>>::empty();
        }
    }
    if !(previous.command_identity == candidate.command_identity) {
        let mut m = owned("command identity differs (");
        let a = debug_quoted(previous.command_identity.as_str());
        push_str(&mut m, a.as_str());
        push_str(&mut m, " -> ");
        let b = debug_quoted(candidate.command_identity.as_str());
        push_str(&mut m, b.as_str());
        push_str(&mut m, ")");
        let ghost before = crate::resource_scheduler::strings_view(reasons@);
        reasons.push(m);
        proof {
            assert(crate::resource_scheduler::strings_view(reasons@) =~= before.push(m@));
            expected = expected + seq![m@];
        }
    } else {
        proof {
            assert(expected + Seq::<Seq<char>>::empty() =~= expected);
            expected = expected + Seq::<Seq<char>>::empty();
        }
    }
    if !opt_eq(&previous.target_identity, &candidate.target_identity) {
        let mut m = owned("target identity differs (");
        push_debug_opt(&mut m, &previous.target_identity);
        push_str(&mut m, " -> ");
        push_debug_opt(&mut m, &candidate.target_identity);
        push_str(&mut m, ")");
        let ghost before = crate::resource_scheduler::strings_view(reasons@);
        reasons.push(m);
        proof {
            assert(crate::resource_scheduler::strings_view(reasons@) =~= before.push(m@));
            expected = expected + seq![m@];
        }
    } else {
        proof {
            assert(expected + Seq::<Seq<char>>::empty() =~= expected);
            expected = expected + Seq::<Seq<char>>::empty();
        }
    }
    proof {
        assert(crate::resource_scheduler::strings_view(reasons@) =~= expected);
        assert(expected =~= rebuild_reasons(p, c));
    }
    if reasons.len() == 0 {
        ReuseDecision::Reusable
    } else {
        ReuseDecision::MustRebuild { reasons }
    }
}

// ---------------------------------------------------------------------
// Content identity of source files
// ---------------------------------------------------------------------

/// The SHA-256 digest of `bytes`.
pub uninterp spec fn sha256_digest(bytes: Seq<u8>) -> Seq<u8>;

/// `sha2`'s SHA-256 over `bytes`: the 32 bytes of its digest.
#[verifier::external_body]
fn sha256_of(bytes: &[u8]) -> (r: Vec<u8>)
    ensures
        r@ == sha256_digest(bytes@),
        r@.len() == 32,
{
    let mut h = sha2::Sha256::new();
    h.update(bytes);
    h.finalize().to_vec()
}

/// The sixteen lowercase hexadecimal digits, in value order.
pub open spec fn hex_digits() -> Seq<char> {
    seq!['0', '1', '2', '3', '4', '5', '6', '7', '8', '9', 'a', 'b', 'c', 'd', 'e', 'f']
}

/// `bytes` in lowercase hexadecimal, two digits per byte, high nibble first.
pub open spec fn hex_lower(bytes: Seq<u8>) -> Seq<char>
    decreases bytes.len(),
{
    if bytes.len() == 0 {
        Seq::empty()
    } else {
        let b = bytes.last();
        hex_lower(bytes.drop_last()).push(hex_digits()[(b / 16) as int]).push(hex_digits()[(b % 16) as int])
    }
}

/// The lowercase hexadecimal SHA-256 digest of `bytes`.
pub open spec fn sha256_hex(bytes: Seq<u8>) -> Seq<char> {
    hex_lower(sha256_digest(bytes))
}

/// `bytes` rendered as lowercase hexadecimal.
pub fn hex_of(bytes: &[u8]) -> (r: String)
    ensures
        r@ == hex_lower(bytes@),
{
    let digits: [char; 16] = ['0', '1', '2', '3', '4', '5', '6', '7', '8', '9', 'a', 'b', 'c', 'd', 'e', 'f'];
    proof {
        assert(digits@ =~= hex_digits());
    }
    let mut out = String::new();
    let mut i: usize = 0;
    while i < bytes.len()
        invariant
            i <= bytes@.len(),
            digits@ == hex_digits(),
            out@ == hex_lower(bytes@.take(i as int)),
        decreases bytes@.len() - i,
    {
        let b = bytes[i];
        let hi: usize = (b / 16) as usize;
        let lo: usize = (b % 16) as usize;
        crate::text::push_char(&mut out, digits[hi]);
        crate::text::push_char(&mut out, digits[lo]);
        proof {
            assert(bytes@.take(i + 1).drop_last() =~= bytes@.take(i as int));
            assert(bytes@.take(i + 1).last() == b);
        }
        i = i + 1;
    }
    proof {
        assert(bytes@.take(i as int) =~= bytes@);
    }
    out
}

/// The SHA-256 digest of `bytes`, rendered as lowercase hexadecimal.
pub fn content_digest(bytes: &[u8]) -> (r: String)
    ensures
        r@ == sha256_hex(bytes@),
{
    let d = sha256_of(bytes);
    hex_of(d.as_slice())
}

/// What one file contributes to the combined source digest: its path, a
/// zero byte, the hex digest of its content, and a line feed.
pub open spec fn file_record(path: Seq<char>, contents: Seq<u8>) -> Seq<u8> {
    vstd::utf8::encode_utf8(path) + seq![0u8] + vstd::utf8::encode_utf8(sha256_hex(contents)) + seq![10u8]
}

/// The records of `files`, in order.
pub open spec fn records(files: Seq<(Seq<char>, Seq<u8>)>) -> Seq<u8>
    decreases files.len(),
{
    if files.len() == 0 {
        Seq::empty()
    } else {
        records(files.drop_last()) + file_record(files.last().0, files.last().1)
    }
}

pub open spec fn files_view(files: Seq<(String, Vec<u8>)>) -> Seq<(Seq<char>, Seq<u8>)> {
    files.map_values(|f: (String, Vec<u8>)| (f.0@, f.1@))
}

fn push_bytes(out: &mut Vec<u8>, b: &[u8])
    ensures
        final(out)@ == old(out)@ + b@,
{
    let ghost start = out@;
    let mut i: usize = 0;
    while i < b.len()
        invariant
            i <= b@.len(),
            out@ == start + b@.take(i as int),
        decreases b@.len() - i,
    {
        out.push(b[i]);
        proof {
            assert(start + b@.take(i + 1) =~= (start + b@.take(i as int)).push(b@[i as int]));
        }
        i = i + 1;
    }
    proof {
        assert(b@.take(i as int) =~= b@);
    }
}

/// The combined content digest of source files, given each file's path
/// and content in path order: the SHA-256 of their records.
pub fn combined_source_digest(files: &Vec<(String, Vec<u8>)>) -> (r: String)
    ensures
        r@ == sha256_hex(records(files_view(files@))),
{
    let ghost fv = files_view(files@);
    let mut all: Vec<u8> = Vec::new();
    let mut k: usize = 0;
    while k < files.len()
        invariant
            fv == files_view(files@),
            k <= fv.len(),
            all@ == records(fv.take(k as int)),
        decreases fv.len() - k,
    {
        let (path, contents) = (&files[k].0, &files[k].1);
        push_bytes(&mut all, path.as_str().as_bytes());
        all.push(0u8);
        let h = content_digest(contents.as_slice());
        push_bytes(&mut all, h.as_str().as_bytes());
        all.push(10u8);
        proof {
            let t = fv.take(k + 1);
            assert(t.drop_last() =~= fv.take(k as int));
            assert(t.last() == (path@, contents@));
            assert(all@ =~= records(fv.take(k as int)) + file_record(path@, contents@));
        }
        k = k + 1;
    }
    proof {
        assert(fv.take(k as int) =~= fv);
    }
    content_digest(all.as_slice())
}

// ---------------------------------------------------------------------
// Which toolchain a run actually used
// ---------------------------------------------------------------------

/// What a toolchain report records of one tool: where it is and the digest
/// of its executable.
#[derive(Debug, Clone, PartialEq, Eq)]
pub struct ToolRecord {
    pub path: Option<String>,
    pub digest_sha256: Option<String>,
}

/// One reported Rust toolchain: its `rustc` and the host triple it builds
/// for.
#[derive(Debug, Clone, PartialEq, Eq)]
pub struct RustToolchainRecord {
    pub rustc: ToolRecord,
    pub host_triple: Option<String>,
}

/// One reported Nim toolchain: its `nim` and its target OS and CPU.
#[derive(Debug, Clone, PartialEq, Eq)]
pub struct NimToolchainRecord {
    pub nim: ToolRecord,
    pub target_os: Option<String>,
    pub target_cpu: Option<String>,
}

/// Whether `Path`'s equality holds between `a` and `b` (component-wise).
pub uninterp spec fn same_path(a: Seq<char>, b: Seq<char>) -> bool;

/// `Path` equality of two paths.
#[verifier::external_body]
pub(crate) fn paths_equal(a: &str, b: &str) -> (r: bool)
    ensures
        r == same_path(a@, b@),
{
    std::path::Path::new(a) == std::path::Path::new(b)
}

/// The tool record is at `actual`.
pub open spec fn tool_at(t: ToolRecord, actual: Seq<char>) -> bool {
    t.path matches Some(p) && same_path(p@, actual)
}

/// The position of the first Rust toolchain whose `rustc` is at `actual`.
pub open spec fn first_rust_at(ts: Seq<RustToolchainRecord>, actual: Seq<char>, k: int) -> Option<int>
    decreases ts.len() - k,
{
    if k < 0 || k >= ts.len() {
        None
    } else if tool_at(ts[k].rustc, actual) {
        Some(k)
    } else {
        first_rust_at(ts, actual, k + 1)
    }
}

/// The position of the first Nim toolchain whose `nim` is at `actual`.
pub open spec fn first_nim_at(ts: Seq<NimToolchainRecord>, actual: Seq<char>, k: int) -> Option<int>
    decreases ts.len() - k,
{
    if k < 0 || k >= ts.len() {
        None
    } else if tool_at(ts[k].nim, actual) {
        Some(k)
    } else {
        first_nim_at(ts, actual, k + 1)
    }
}

/// A Nim toolchain's target as `os/cpu`, `?` for what it does not report.
pub open spec fn nim_target_text(t: NimToolchainRecord) -> Seq<char> {
    (match t.target_os {
        Some(o) => o@,
        None => "?"@,
    }) + "/"@ + (match t.target_cpu {
        Some(c) => c@,
        None => "?"@,
    })
}

/// The actually-invoked toolchain's executable digest and target
/// identity, from a run's toolchain report (`None` when the run has
/// none). For Nim the actual executable is the root process's own
/// (`root_executable`); for Rust it is the `rustc` the wrapper was told to
/// run (`wrapped_rustc`). When that path is unknown, or no reported
/// toolchain of the kind is at it, both are `None`: it never falls back to
/// the first declared toolchain.
pub fn toolchain_identity_from_run(
    report: Option<(&Vec<RustToolchainRecord>, &Vec<NimToolchainRecord>)>,
    root_executable: Option<&str>,
    wrapped_rustc: Option<&str>,
    is_nim: bool,
) -> (r: (Option<String>, Option<String>))
    ensures
        ({
            let (digest, target) = r;
            match report {
                None => digest is None && target is None,
                Some((rust, nim)) => if is_nim {
                    match root_executable {
                        None => digest is None && target is None,
                        Some(p) => match first_nim_at(nim@, p@, 0) {
                            None => digest is None && target is None,
                            Some(i) => opt_view(digest) == opt_view(nim@[i].nim.digest_sha256)
                                && opt_view(target) == Some(nim_target_text(nim@[i])),
                        },
                    }
                } else {
                    match wrapped_rustc {
                        None => digest is None && target is None,
                        Some(p) => match first_rust_at(rust@, p@, 0) {
                            None => digest is None && target is None,
                            Some(i) => opt_view(digest) == opt_view(rust@[i].rustc.digest_sha256)
                                && opt_view(target) == opt_view(rust@[i].host_triple),
                        },
                    }
                },
            }
        }),
{
    let (rust, nim) = match report {
        Some(pair) => pair,
        None => return (None, None),
    };
    if is_nim {
        let actual = match root_executable {
            Some(p) => p,
            None => return (None, None),
        };
        let mut k: usize = 0;
        while k < nim.len()
            invariant
                k <= nim@.len(),
                report == Some((rust, nim)),
                is_nim,
                root_executable == Some(actual),
                first_nim_at(nim@, actual@, 0) == first_nim_at(nim@, actual@, k as int),
            decreases nim@.len() - k,
        {
            let hit = match &nim[k].nim.path {
                Some(p) => paths_equal(p.as_str(), actual),
                None => false,
            };
            if hit {
                let t = &nim[k];
                let digest = match &t.nim.digest_sha256 {
                    Some(d) => Some(d.clone()),
                    None => None,
                };
                let mut target = match &t.target_os {
                    Some(o) => o.clone(),
                    None => owned("?"),
                };
                push_str(&mut target, "/");
                match &t.target_cpu {
                    Some(c) => push_str(&mut target, c.as_str()),
                    None => push_str(&mut target, "?"),
                }
                return (digest, Some(target));
            }
            k = k + 1;
        }
        (None, None)
    } else {
        let actual = match wrapped_rustc {
            Some(p) => p,
            None => return (None, None),
        };
        let mut k: usize = 0;
        while k < rust.len()
            invariant
                k <= rust@.len(),
                report == Some((rust, nim)),
                !is_nim,
                wrapped_rustc == Some(actual),
                first_rust_at(rust@, actual@, 0) == first_rust_at(rust@, actual@, k as int),
            decreases rust@.len() - k,
        {
            let hit = match &rust[k].rustc.path {
                Some(p) => paths_equal(p.as_str(), actual),
                None => false,
            };
            if hit {
                let t = &rust[k];
                let digest = match &t.rustc.digest_sha256 {
                    Some(d) => Some(d.clone()),
                    None => None,
                };
                let target = match &t.host_triple {
                    Some(h) => Some(h.clone()),
                    None => None,
                };
                return (digest, target);
            }
            k = k + 1;
        }
        (None, None)
    }
}

/// The full identity key of one run's artifact: the current schema, the
/// given source digest and logical command identity, and the toolchain
/// identity the run actually used.
pub fn compute_identity_key(
    command_identity: &str,
    source_digest_sha256: String,
    toolchain: (Option<String>, Option<String>),
) -> (r: ArtifactIdentityKey)
    ensures
        r.schema_version@ == "0.1.0"@,
        r.source_digest_sha256@ == source_digest_sha256@,
        r.toolchain_digest_sha256 == toolchain.0,
        r.command_identity@ == command_identity@,
        r.target_identity == toolchain.1,
{
    let (toolchain_digest_sha256, target_identity) = toolchain;
    ArtifactIdentityKey {
        schema_version: reuse_schema_version(),
        source_digest_sha256,
        toolchain_digest_sha256,
        command_identity: owned(command_identity),
        target_identity,
    }
}

} // verus!
