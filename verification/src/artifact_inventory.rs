//! The no-op-safe artifact inventory: two snapshots of the observation
//! roots (taken before and after the traced command) are diffed into one
//! record per path, classified created / modified / deleted / unchanged by
//! size and modification time. Only changed candidates (created or
//! modified) have their content hashed, so an unchanged tree costs no
//! hashing at all; deleted entries keep their last known size and get no
//! digest. Producer identity is always `Unknown`: it is never guessed from
//! a file name.
//!
//! Walking the file system and hashing files are I/O and happen outside
//! this module; the classification, the logical path of each record and
//! the accounting of what was hashed are computed here.

use vstd::prelude::*;

use crate::text::{decimal, join, join_path, owned, push_decimal, push_str, seq_lt, str_eq, str_lt};
use crate::text::{file_name_of, path_file_name, path_relative, strip_path_prefix};
use crate::text::{lemma_seq_lt_irreflexive, lemma_seq_lt_total, lemma_seq_lt_transitive};
use crate::toolchain_resolve::opt_view;

verus! {

/// The version of the inventory's schema.
pub const ARTIFACT_SCHEMA_VERSION: &'static str = "0.1.0";

/// How a path changed between the two snapshots.
#[derive(Debug, Clone, Copy, PartialEq, Eq, Structural)]
pub enum ArtifactState {
    Created,
    /// Size or modification time differs; not a claim that the content did.
    Modified,
    Deleted,
    Unchanged,
}

/// Which process produced an artifact; `Unknown` unless proven.
#[derive(Debug, Clone, PartialEq, Eq)]
pub enum ProducerIdentity {
    Proven(String),
    Unknown,
}

/// What a snapshot records of one regular file.
#[derive(Debug, Clone, Copy, PartialEq, Eq, Structural)]
pub struct FileStat {
    pub size: u64,
    pub modified_unix_ns: u128,
}

/// One classified path, before hashing: its absolute path (for the
/// hasher), its logical path, its size and its state.
#[derive(Debug, Clone)]
pub struct PendingArtifact {
    pub path: String,
    pub logical_path: String,
    pub size_bytes: Option<u64>,
    pub state: ArtifactState,
}

/// One record of the inventory.
#[derive(Debug, Clone)]
pub struct ArtifactRecord {
    /// The path relative to its observation root, prefixed by the root's
    /// position and name, so that two runs' inventories are comparable.
    pub logical_path: String,
    pub size_bytes: Option<u64>,
    /// SHA-256, lowercase hex; `None` for deleted and unchanged records.
    pub digest_sha256: Option<String>,
    pub state: ArtifactState,
    pub producer: ProducerIdentity,
}

/// The inventory of one run (the wall-clock costs are measured by the
/// caller).
#[derive(Debug, Clone)]
pub struct ArtifactInventory {
    pub schema_version: String,
    pub observation_roots: Vec<String>,
    pub records: Vec<ArtifactRecord>,
    pub hashed_bytes: u64,
    /// How many records were flagged for hashing (created or modified).
    pub changed_candidate_count: usize,
}

impl ArtifactState {
    /// Whether a record in this state is a changed candidate, whose
    /// post-command content gets hashed.
    pub open spec fn candidate(self) -> bool {
        self is Created || self is Modified
    }

    /// Whether a record in this state is a changed candidate.
    pub fn is_changed_candidate(&self) -> (r: bool)
        ensures
            r == self.candidate(),
    {
        match self {
            ArtifactState::Created => true,
            ArtifactState::Modified => true,
            _ => false,
        }
    }
}

// ---------------------------------------------------------------------
// Snapshots
// ---------------------------------------------------------------------

/// The snapshot's paths are strictly increasing (so each occurs once).
pub open spec fn keys_sorted(s: Seq<(String, FileStat)>) -> bool {
    forall|i: int, j: int| 0 <= i < j < s.len() ==> seq_lt(#[trigger] s[i].0@, #[trigger] s[j].0@)
}

/// Whether a snapshot's paths are strictly increasing, as the diff needs.
pub fn snapshot_is_sorted(s: &Vec<(String, FileStat)>) -> (r: bool)
    ensures
        r == keys_sorted(s@),
{
    let mut k: usize = 1;
    if s.len() == 0 {
        return true;
    }
    while k < s.len()
        invariant
            1 <= k <= s@.len(),
            forall|i: int, j: int| 0 <= i < j < k ==> seq_lt(#[trigger] s@[i].0@, #[trigger] s@[j].0@),
        decreases s@.len() - k,
    {
        if !str_lt(s[k - 1].0.as_str(), s[k].0.as_str()) {
            proof {
                assert(!keys_sorted(s@)) by {
                    if keys_sorted(s@) {
                        assert(seq_lt(s@[k - 1].0@, s@[k as int].0@));
                    }
                }
            }
            return false;
        }
        proof {
            assert forall|i: int, j: int| 0 <= i < j < k + 1 implies seq_lt(#[trigger] s@[i].0@, #[trigger] s@[j].0@) by {
                if j == k && i < k - 1 {
                    lemma_seq_lt_transitive(s@[i].0@, s@[k - 1].0@, s@[j].0@);
                }
            }
        }
        k = k + 1;
    }
    true
}

/// Whether the snapshot holds `p`.
pub open spec fn has_key(s: Seq<(String, FileStat)>, p: Seq<char>) -> bool {
    exists|i: int| 0 <= i < s.len() && #[trigger] s[i].0@ == p
}

/// A position of `p` in the snapshot, if it has one.
pub open spec fn key_index(s: Seq<(String, FileStat)>, p: Seq<char>) -> int {
    choose|i: int| 0 <= i < s.len() && #[trigger] s[i].0@ == p
}

/// What the snapshot records of `p`, if anything.
pub open spec fn stat_of(s: Seq<(String, FileStat)>, p: Seq<char>) -> Option<FileStat> {
    if has_key(s, p) {
        Some(s[key_index(s, p)].1)
    } else {
        None
    }
}

/// The state of a path with these pre- and post-command stats.
pub open spec fn state_of(pre: Option<FileStat>, post: Option<FileStat>) -> ArtifactState {
    match (pre, post) {
        (Some(a), Some(b)) => if a == b {
            ArtifactState::Unchanged
        } else {
            ArtifactState::Modified
        },
        (Some(_), None) => ArtifactState::Deleted,
        _ => ArtifactState::Created,
    }
}

/// The size reported for a path: the post-command size, else the last
/// known one.
pub open spec fn size_of(pre: Option<FileStat>, post: Option<FileStat>) -> Option<u64> {
    match post {
        Some(b) => Some(b.size),
        None => match pre {
            Some(a) => Some(a.size),
            None => None,
        },
    }
}

proof fn lemma_stat_at(s: Seq<(String, FileStat)>, i: int)
    requires
        keys_sorted(s),
        0 <= i < s.len(),
    ensures
        has_key(s, s[i].0@),
        stat_of(s, s[i].0@) == Some(s[i].1),
{
    let p = s[i].0@;
    assert(s[i].0@ == p);
    assert(has_key(s, p));
    let j = key_index(s, p);
    assert(0 <= j < s.len() && s[j].0@ == p);
    if j < i {
        assert(seq_lt(s[j].0@, s[i].0@));
        lemma_seq_lt_irreflexive(p);
    } else if i < j {
        assert(seq_lt(s[i].0@, s[j].0@));
        lemma_seq_lt_irreflexive(p);
    }
    assert(j == i);
}

// ---------------------------------------------------------------------
// Logical paths
// ---------------------------------------------------------------------

/// The name a root contributes to a logical path: its final component,
/// else the root as written.
pub open spec fn root_label(root: Seq<char>) -> Seq<char> {
    match path_file_name(root) {
        Some(n) => n,
        None => root,
    }
}

/// The logical path of `path`, looking at the roots from position `k`
/// on: under the first root that is a prefix of it, `root<k>-<name>`
/// joined with the rest; under none, the path itself.
pub open spec fn logical_from(roots: Seq<String>, path: Seq<char>, k: int) -> Seq<char>
    decreases roots.len() - k,
{
    if k < 0 || k >= roots.len() {
        path
    } else {
        match path_relative(path, roots[k]@) {
            Some(rel) => join_path("root"@ + decimal(k as nat) + "-"@ + root_label(roots[k]@), rel),
            None => logical_from(roots, path, k + 1),
        }
    }
}

/// The logical path of `path` under `roots`.
pub open spec fn logical_path_spec(roots: Seq<String>, path: Seq<char>) -> Seq<char> {
    logical_from(roots, path, 0)
}

/// Turns a walked absolute path into its root-relative logical path,
/// prefixed by the root's position among `roots` and the root's name, so
/// that two roots with the same final component never collide.
pub fn to_logical_path(roots: &Vec<String>, path: &str) -> (r: String)
    ensures
        r@ == logical_path_spec(roots@, path@),
{
    let mut index: usize = 0;
    while index < roots.len()
        invariant
            index <= roots@.len(),
            logical_from(roots@, path@, 0) == logical_from(roots@, path@, index as int),
        decreases roots@.len() - index,
    {
        let root = &roots[index];
        match strip_path_prefix(path, root.as_str()) {
            Some(rel) => {
                let label = match file_name_of(root.as_str()) {
                    Some(n) => n,
                    None => root.clone(),
                };
                let mut head = owned("root");
                push_decimal(&mut head, index as u64);
                push_str(&mut head, "-");
                push_str(&mut head, label.as_str());
                let r = join(head.as_str(), rel.as_str());
                return r;
            },
            None => {},
        }
        index = index + 1;
    }
    owned(path)
}

// ---------------------------------------------------------------------
// The diff
// ---------------------------------------------------------------------

/// `a` is the classification of path `p` between `pre` and `post`.
pub open spec fn pending_for(
    roots: Seq<String>,
    pre: Seq<(String, FileStat)>,
    post: Seq<(String, FileStat)>,
    a: PendingArtifact,
) -> bool {
    let p = a.path@;
    &&& a.state == state_of(stat_of(pre, p), stat_of(post, p))
    &&& a.size_bytes == size_of(stat_of(pre, p), stat_of(post, p))
    &&& a.logical_path@ == logical_path_spec(roots, p)
}

fn classify(
    roots: &Vec<String>,
    path: &String,
    pre: Option<FileStat>,
    post: Option<FileStat>,
) -> (r: PendingArtifact)
    requires
        pre is Some || post is Some,
    ensures
        r.path@ == path@,
        r.state == state_of(pre, post),
        r.size_bytes == size_of(pre, post),
        r.logical_path@ == logical_path_spec(roots@, path@),
{
    let state = match (pre, post) {
        (Some(a), Some(b)) => if a == b {
            ArtifactState::Unchanged
        } else {
            ArtifactState::Modified
        },
        (Some(_), None) => ArtifactState::Deleted,
        _ => ArtifactState::Created,
    };
    let size_bytes = match post {
        Some(b) => Some(b.size),
        None => match pre {
            Some(a) => Some(a.size),
            None => None,
        },
    };
    PendingArtifact {
        path: path.clone(),
        logical_path: to_logical_path(roots, path.as_str()),
        size_bytes,
        state,
    }
}

/// The pending records' paths are strictly increasing.
pub open spec fn pending_sorted(s: Seq<PendingArtifact>) -> bool {
    forall|i: int, j: int| 0 <= i < j < s.len() ==> seq_lt(#[trigger] s[i].path@, #[trigger] s[j].path@)
}

/// Diffs the pre- and post-command snapshots (each in strictly
/// increasing path order): every path present in either becomes exactly
/// one pending record, in increasing path order, classified by comparing
/// its `(size, modification time)` in the two snapshots.
#[verifier::rlimit(60)]
pub fn diff_snapshots(
    roots: &Vec<String>,
    pre: &Vec<(String, FileStat)>,
    post: &Vec<(String, FileStat)>,
) -> (r: Vec<PendingArtifact>)
    requires
        keys_sorted(pre@),
        keys_sorted(post@),
    ensures
        pending_sorted(r@),
        forall|k: int| 0 <= k < r@.len() ==> has_key(pre@, #[trigger] r@[k].path@) || has_key(post@, r@[k].path@),
        forall|p: Seq<char>| has_key(pre@, p) || has_key(post@, p) ==> exists|k: int| 0 <= k < r@.len() && #[trigger] r@[k].path@ == p,
        forall|k: int| 0 <= k < r@.len() ==> pending_for(roots@, pre@, post@, #[trigger] r@[k]),
{
    let mut out: Vec<PendingArtifact> = Vec::new();
    let mut i: usize = 0;
    let mut j: usize = 0;
    while i < pre.len() || j < post.len()
        invariant
            keys_sorted(pre@),
            keys_sorted(post@),
            i <= pre@.len(),
            j <= post@.len(),
            pending_sorted(out@),
            forall|k: int| #![trigger out@[k]] 0 <= k < out@.len() ==> (exists|a: int| 0 <= a < i && #[trigger] pre@[a].0@ == out@[k].path@)
                || (exists|b: int| 0 <= b < j && #[trigger] post@[b].0@ == out@[k].path@),
            forall|a: int| 0 <= a < i ==> exists|k: int| 0 <= k < out@.len() && #[trigger] out@[k].path@ == #[trigger] pre@[a].0@,
            forall|b: int| 0 <= b < j ==> exists|k: int| 0 <= k < out@.len() && #[trigger] out@[k].path@ == #[trigger] post@[b].0@,
            forall|k: int, a: int| 0 <= k < out@.len() && i <= a < pre@.len() ==> seq_lt(#[trigger] out@[k].path@, #[trigger] pre@[a].0@),
            forall|k: int, b: int| 0 <= k < out@.len() && j <= b < post@.len() ==> seq_lt(#[trigger] out@[k].path@, #[trigger] post@[b].0@),
            forall|k: int| 0 <= k < out@.len() ==> pending_for(roots@, pre@, post@, #[trigger] out@[k]),
        decreases pre@.len() + post@.len() - i - j,
    {
        let take_pre: bool;
        let take_post: bool;
        if i < pre.len() && j < post.len() {
            if str_eq(pre[i].0.as_str(), post[j].0.as_str()) {
                take_pre = true;
                take_post = true;
            } else if str_lt(pre[i].0.as_str(), post[j].0.as_str()) {
                take_pre = true;
                take_post = false;
            } else {
                proof {
                    lemma_seq_lt_total(pre@[i as int].0@, post@[j as int].0@);
                }
                take_pre = false;
                take_post = true;
            }
        } else if i < pre.len() {
            take_pre = true;
            take_post = false;
        } else {
            take_pre = false;
            take_post = true;
        }
        let ghost p: Seq<char> = if take_pre {
            pre@[i as int].0@
        } else {
            post@[j as int].0@
        };
        // `p` is below every key not yet taken, and above every key taken.
        proof {
            if take_pre {
                lemma_stat_at(pre@, i as int);
            }
            if take_post {
                lemma_stat_at(post@, j as int);
            }
            assert forall|a: int| i <= a < pre@.len() && !(take_pre && a == i) implies seq_lt(p, #[trigger] pre@[a].0@) by {
                if take_pre {
                    assert(seq_lt(pre@[i as int].0@, pre@[a].0@));
                } else if i < pre@.len() {
                    if a > i {
                        assert(seq_lt(pre@[i as int].0@, pre@[a].0@));
                        lemma_seq_lt_transitive(p, pre@[i as int].0@, pre@[a].0@);
                    }
                }
            }
            assert forall|b: int| j <= b < post@.len() && !(take_post && b == j) implies seq_lt(p, #[trigger] post@[b].0@) by {
                if take_post {
                    assert(seq_lt(post@[j as int].0@, post@[b].0@));
                } else if j < post@.len() {
                    if b > j {
                        assert(seq_lt(post@[j as int].0@, post@[b].0@));
                        lemma_seq_lt_transitive(p, post@[j as int].0@, post@[b].0@);
                    }
                }
            }
            if !take_pre {
                assert(!has_key(pre@, p)) by {
                    if has_key(pre@, p) {
                        let a = choose|a: int| 0 <= a < pre@.len() && #[trigger] pre@[a].0@ == p;
                        if a < i {
                            let k = choose|k: int| 0 <= k < out@.len() && #[trigger] out@[k].path@ == #[trigger] pre@[a].0@;
                            assert(seq_lt(out@[k].path@, post@[j as int].0@));
                            lemma_seq_lt_irreflexive(p);
                        } else {
                            lemma_seq_lt_irreflexive(p);
                        }
                    }
                }
            }
            if !take_post {
                assert(!has_key(post@, p)) by {
                    if has_key(post@, p) {
                        let b = choose|b: int| 0 <= b < post@.len() && #[trigger] post@[b].0@ == p;
                        if b < j {
                            let k = choose|k: int| 0 <= k < out@.len() && #[trigger] out@[k].path@ == #[trigger] post@[b].0@;
                            assert(seq_lt(out@[k].path@, pre@[i as int].0@));
                            lemma_seq_lt_irreflexive(p);
                        } else {
                            lemma_seq_lt_irreflexive(p);
                        }
                    }
                }
            }
        }
        let pre_stat: Option<FileStat> = if take_pre {
            Some(pre[i].1)
        } else {
            None
        };
        let post_stat: Option<FileStat> = if take_post {
            Some(post[j].1)
        } else {
            None
        };
        let path: &String = if take_pre {
            &pre[i].0
        } else {
            &post[j].0
        };
        let rec = classify(roots, path, pre_stat, post_stat);
        proof {
            assert(stat_of(pre@, p) == pre_stat);
            assert(stat_of(post@, p) == post_stat);
        }
        let ghost old_out = out@;
        out.push(rec);
        proof {
            assert(out@[old_out.len() as int].path@ == p);
            assert forall|x: int, y: int| 0 <= x < y < out@.len() implies seq_lt(#[trigger] out@[x].path@, #[trigger] out@[y].path@) by {
                if y == old_out.len() {
                    if take_pre {
                        assert(seq_lt(old_out[x].path@, pre@[i as int].0@));
                    } else {
                        assert(seq_lt(old_out[x].path@, post@[j as int].0@));
                    }
                } else {
                    assert(old_out[x] == out@[x] && old_out[y] == out@[y]);
                }
            }
        }
        if take_pre {
            i = i + 1;
        }
        if take_post {
            j = j + 1;
        }
        proof {
            assert forall|k: int| #![trigger out@[k]] 0 <= k < out@.len() implies (exists|a: int| 0 <= a < i && #[trigger] pre@[a].0@ == out@[k].path@)
                || (exists|b: int| 0 <= b < j && #[trigger] post@[b].0@ == out@[k].path@) by {
                if k == old_out.len() {
                    if take_pre {
                        assert(pre@[i - 1].0@ == out@[k].path@);
                    } else {
                        assert(post@[j - 1].0@ == out@[k].path@);
                    }
                } else {
                    assert(old_out[k] == out@[k]);
                }
            }
            assert forall|a: int| 0 <= a < i implies exists|k: int| 0 <= k < out@.len() && #[trigger] out@[k].path@ == #[trigger] pre@[a].0@ by {
                if take_pre && a == i - 1 {
                    assert(out@[old_out.len() as int].path@ == pre@[a].0@);
                } else {
                    let k = choose|k: int| 0 <= k < old_out.len() && #[trigger] old_out[k].path@ == #[trigger] pre@[a].0@;
                    assert(out@[k] == old_out[k]);
                }
            }
            assert forall|b: int| 0 <= b < j implies exists|k: int| 0 <= k < out@.len() && #[trigger] out@[k].path@ == #[trigger] post@[b].0@ by {
                if take_post && b == j - 1 {
                    assert(out@[old_out.len() as int].path@ == post@[b].0@);
                } else {
                    let k = choose|k: int| 0 <= k < old_out.len() && #[trigger] old_out[k].path@ == #[trigger] post@[b].0@;
                    assert(out@[k] == old_out[k]);
                }
            }
            assert forall|k: int, a: int| 0 <= k < out@.len() && i <= a < pre@.len() implies seq_lt(#[trigger] out@[k].path@, #[trigger] pre@[a].0@) by {
                if k < old_out.len() {
                    assert(out@[k] == old_out[k]);
                }
            }
            assert forall|k: int, b: int| 0 <= k < out@.len() && j <= b < post@.len() implies seq_lt(#[trigger] out@[k].path@, #[trigger] post@[b].0@) by {
                if k < old_out.len() {
                    assert(out@[k] == old_out[k]);
                }
            }
            assert forall|k: int| 0 <= k < out@.len() implies pending_for(roots@, pre@, post@, #[trigger] out@[k]) by {
                if k < old_out.len() {
                    assert(out@[k] == old_out[k]);
                }
            }
        }
    }
    proof {
        assert forall|k: int| 0 <= k < out@.len() implies has_key(pre@, #[trigger] out@[k].path@) || has_key(post@, out@[k].path@) by {
            if exists|a: int| 0 <= a < i && #[trigger] pre@[a].0@ == out@[k].path@ {
                let a = choose|a: int| 0 <= a < i && #[trigger] pre@[a].0@ == out@[k].path@;
                assert(pre@[a].0@ == out@[k].path@);
            } else {
                let b = choose|b: int| 0 <= b < j && #[trigger] post@[b].0@ == out@[k].path@;
                assert(post@[b].0@ == out@[k].path@);
            }
        }
        assert forall|p: Seq<char>| has_key(pre@, p) || has_key(post@, p) implies exists|k: int| 0 <= k < out@.len() && #[trigger] out@[k].path@ == p by {
            if has_key(pre@, p) {
                let a = choose|a: int| 0 <= a < pre@.len() && #[trigger] pre@[a].0@ == p;
                let k = choose|k: int| 0 <= k < out@.len() && #[trigger] out@[k].path@ == #[trigger] pre@[a].0@;
                assert(out@[k].path@ == p);
            } else {
                let b = choose|b: int| 0 <= b < post@.len() && #[trigger] post@[b].0@ == p;
                let k = choose|k: int| 0 <= k < out@.len() && #[trigger] out@[k].path@ == #[trigger] post@[b].0@;
                assert(out@[k].path@ == p);
            }
        }
    }
    out
}

// ---------------------------------------------------------------------
// Hashing accounting
// ---------------------------------------------------------------------

/// The size a pending record contributes to the hashed bytes when its
/// digest was obtained.
pub open spec fn hashed_size(a: PendingArtifact, d: Option<String>) -> int {
    if a.state.candidate() && d is Some {
        match a.size_bytes {
            Some(z) => z as int,
            None => 0,
        }
    } else {
        0
    }
}

/// The bytes hashed among the first `n` pending records.
pub open spec fn hashed_total(pending: Seq<PendingArtifact>, digests: Seq<Option<String>>, n: int) -> int
    decreases n,
{
    if n <= 0 {
        0
    } else {
        hashed_total(pending, digests, n - 1) + hashed_size(pending[n - 1], digests[n - 1])
    }
}

/// How many of the first `n` pending records are changed candidates.
pub open spec fn candidate_total(pending: Seq<PendingArtifact>, n: int) -> int
    decreases n,
{
    if n <= 0 {
        0
    } else {
        candidate_total(pending, n - 1) + if pending[n - 1].state.candidate() {
            1int
        } else {
            0int
        }
    }
}

proof fn lemma_hashed_total_grows(pending: Seq<PendingArtifact>, digests: Seq<Option<String>>, m: int, n: int)
    requires
        0 <= m <= n,
    ensures
        hashed_total(pending, digests, m) <= hashed_total(pending, digests, n),
    decreases n - m,
{
    if m < n {
        lemma_hashed_total_grows(pending, digests, m, n - 1);
    }
}

proof fn lemma_candidate_total_bound(pending: Seq<PendingArtifact>, n: int)
    requires
        0 <= n,
    ensures
        0 <= candidate_total(pending, n) <= n,
    decreases n,
{
    if n > 0 {
        lemma_candidate_total_bound(pending, n - 1);
    }
}

/// `r` is the record of pending `a` whose hash attempt gave `d`: the
/// digest is kept for a changed candidate only.
pub open spec fn record_for(a: PendingArtifact, d: Option<String>, r: ArtifactRecord) -> bool {
    &&& r.logical_path@ == a.logical_path@
    &&& r.size_bytes == a.size_bytes
    &&& r.state == a.state
    &&& r.producer == ProducerIdentity::Unknown
    &&& opt_view(r.digest_sha256) == (if a.state.candidate() {
        opt_view(d)
    } else {
        None
    })
}

/// Assembles the inventory from the pending records and the outcome of
/// hashing each (`digests[k]` for `pending[k]`; `None` where hashing was
/// not attempted or failed). Only changed candidates keep a digest and
/// are counted; the hashed bytes are the sizes of the candidates whose
/// digest was obtained.
pub fn build_inventory(
    roots: &Vec<String>,
    pending: &Vec<PendingArtifact>,
    digests: &Vec<Option<String>>,
) -> (r: ArtifactInventory)
    requires
        digests@.len() == pending@.len(),
        hashed_total(pending@, digests@, pending@.len() as int) <= u64::MAX,
    ensures
        r.schema_version@ == ARTIFACT_SCHEMA_VERSION@,
        r.observation_roots@ == roots@,
        r.records@.len() == pending@.len(),
        forall|k: int| 0 <= k < pending@.len() ==> record_for(pending@[k], digests@[k], #[trigger] r.records@[k]),
        r.hashed_bytes == hashed_total(pending@, digests@, pending@.len() as int),
        r.changed_candidate_count == candidate_total(pending@, pending@.len() as int),
{
    let mut records: Vec<ArtifactRecord> = Vec::new();
    let mut hashed_bytes: u64 = 0;
    let mut changed_candidate_count: usize = 0;
    let mut k: usize = 0;
    while k < pending.len()
        invariant
            k <= pending@.len(),
            digests@.len() == pending@.len(),
            hashed_total(pending@, digests@, pending@.len() as int) <= u64::MAX,
            records@.len() == k,
            forall|x: int| 0 <= x < k ==> record_for(pending@[x], digests@[x], #[trigger] records@[x]),
            hashed_bytes == hashed_total(pending@, digests@, k as int),
            changed_candidate_count == candidate_total(pending@, k as int),
        decreases pending@.len() - k,
    {
        let a = &pending[k];
        proof {
            lemma_hashed_total_grows(pending@, digests@, k + 1, pending@.len() as int);
            lemma_candidate_total_bound(pending@, k + 1);
        }
        let mut digest: Option<String> = None;
        if a.state.is_changed_candidate() {
            changed_candidate_count = changed_candidate_count + 1;
            match &digests[k] {
                Some(d) => {
                    let z: u64 = match a.size_bytes {
                        Some(z) => z,
                        None => 0,
                    };
                    hashed_bytes = hashed_bytes + z;
                    digest = Some(d.clone());
                },
                None => {},
            }
        }
        let ghost old_records = records@;
        records.push(ArtifactRecord {
            logical_path: a.logical_path.clone(),
            size_bytes: a.size_bytes,
            digest_sha256: digest,
            state: a.state,
            producer: ProducerIdentity::Unknown,
        });
        proof {
            assert forall|x: int| 0 <= x < k + 1 implies record_for(pending@[x], digests@[x], #[trigger] records@[x]) by {
                if x < k {
                    assert(records@[x] == old_records[x]);
                }
            }
        }
        k = k + 1;
    }
    ArtifactInventory {
        schema_version: owned(ARTIFACT_SCHEMA_VERSION),
        observation_roots: crate::resource_scheduler::clone_strings(roots),
        records,
        hashed_bytes,
        changed_candidate_count,
    }
}

// ---------------------------------------------------------------------
// Laws
// ---------------------------------------------------------------------

/// A true no-op (identical snapshots before and after the command)
/// classifies every path as unchanged and flags nothing for hashing,
/// however large the observed tree.
pub proof fn law_noop_hashes_nothing(
    roots: Seq<String>,
    snap: Seq<(String, FileStat)>,
    pending: Seq<PendingArtifact>,
    digests: Seq<Option<String>>,
)
    requires
        forall|k: int| 0 <= k < pending.len() ==> pending_for(roots, snap, snap, #[trigger] pending[k]),
        forall|k: int| 0 <= k < pending.len() ==> has_key(snap, #[trigger] pending[k].path@),
    ensures
        forall|k: int| 0 <= k < pending.len() ==> #[trigger] pending[k].state == ArtifactState::Unchanged,
        candidate_total(pending, pending.len() as int) == 0,
        hashed_total(pending, digests, pending.len() as int) == 0,
{
    assert forall|k: int| 0 <= k < pending.len() implies #[trigger] pending[k].state == ArtifactState::Unchanged by {
        assert(pending_for(roots, snap, snap, pending[k]));
        assert(has_key(snap, pending[k].path@));
    }
    lemma_nothing_flagged(pending, digests, pending.len() as int);
}

proof fn lemma_nothing_flagged(pending: Seq<PendingArtifact>, digests: Seq<Option<String>>, n: int)
    requires
        n <= pending.len(),
        forall|k: int| 0 <= k < pending.len() ==> #[trigger] pending[k].state == ArtifactState::Unchanged,
    ensures
        candidate_total(pending, n) == 0,
        hashed_total(pending, digests, n) == 0,
    decreases n,
{
    if n > 0 {
        lemma_nothing_flagged(pending, digests, n - 1);
        assert(pending[n - 1].state == ArtifactState::Unchanged);
    }
}

/// A cold build (nothing observed before the command) classifies every
/// path as created, so every record is a changed candidate.
pub proof fn law_cold_build_flags_everything(
    roots: Seq<String>,
    post: Seq<(String, FileStat)>,
    pending: Seq<PendingArtifact>,
)
    requires
        forall|k: int| 0 <= k < pending.len() ==> pending_for(roots, Seq::empty(), post, #[trigger] pending[k]),
        forall|k: int| 0 <= k < pending.len() ==> has_key(post, #[trigger] pending[k].path@),
    ensures
        forall|k: int| 0 <= k < pending.len() ==> #[trigger] pending[k].state == ArtifactState::Created,
        candidate_total(pending, pending.len() as int) == pending.len(),
{
    assert forall|k: int| 0 <= k < pending.len() implies #[trigger] pending[k].state == ArtifactState::Created by {
        assert(pending_for(roots, Seq::empty(), post, pending[k]));
        assert(!has_key(Seq::<(String, FileStat)>::empty(), pending[k].path@));
    }
    lemma_all_flagged(pending, pending.len() as int);
}

proof fn lemma_all_flagged(pending: Seq<PendingArtifact>, n: int)
    requires
        0 <= n <= pending.len(),
        forall|k: int| 0 <= k < pending.len() ==> #[trigger] pending[k].state == ArtifactState::Created,
    ensures
        candidate_total(pending, n) == n,
    decreases n,
{
    if n > 0 {
        lemma_all_flagged(pending, n - 1);
        assert(pending[n - 1].state == ArtifactState::Created);
    }
}

} // verus!
