//! Read-only ecosystem-fact ingestion: the host target triple from
//! `rustc -vV`, Cargo and Nimble manifest facts, and the fixture's fixed
//! layout. Nothing here compiles, archives, links, builds or installs
//! anything; every process it asks for goes through a
//! [`CommandRunner`], whose permitted set is decided in
//! [`crate::command_runner::is_permitted`].

use vstd::prelude::*;

use crate::command_runner::{CommandRunner, IngestError, IngestErrorView};
use crate::resource_scheduler::strings_view;
use crate::json::{array_of, as_str, get, lookup, member, member_from, object_of, str_of, string_items, strs_of, JsonMember, JsonValue};
use crate::json::{doc_of, json_parse, parse_json_text};
use crate::text::{after_prefix, join, join_path, lines_of, owned, split_lines, strip_prefix, trim_spec, trimmed};
use crate::text::{insert_sorted, lemma_seq_lt_irreflexive, sorted_contains, strictly_sorted, strs_view};

verus! {

// ---------------------------------------------------------------------
// Host target triple
// ---------------------------------------------------------------------

/// The trimmed rest of the first of `lines`, from position `k` on, that
/// starts with `host: `.
pub open spec fn host_from(lines: Seq<Seq<char>>, k: int) -> Option<Seq<char>>
    decreases lines.len() - k,
{
    if k < 0 || k >= lines.len() {
        None
    } else {
        match after_prefix(lines[k], "host: "@) {
            Some(rest) => Some(trim_spec(rest)),
            None => host_from(lines, k + 1),
        }
    }
}

/// What reading a host triple from `rustc -vV` output gives: the trimmed
/// rest of its first `host: ` line, or a parse error when there is none.
pub open spec fn host_triple_outcome(stdout: Seq<char>, r: Result<String, IngestError>) -> bool {
    match host_from(lines_of(stdout), 0) {
        Some(h) => r matches Ok(x) && x@ == h,
        None => r matches Err(e) && e@ == IngestErrorView::Parse("rustc -vV produced no 'host:' line"@),
    }
}

/// The host triple named in `rustc -vV` output: the trimmed rest of its
/// first `host: ` line.
pub fn host_triple_from(stdout: &str) -> (r: Result<String, IngestError>)
    ensures
        host_triple_outcome(stdout@, r),
{
    let lines = split_lines(stdout);
    let ghost ls = lines_of(stdout@);
    let mut k: usize = 0;
    while k < lines.len()
        invariant
            strings_view(lines@) == ls,
            ls == lines_of(stdout@),
            k <= ls.len(),
            host_from(ls, 0) == host_from(ls, k as int),
        decreases ls.len() - k,
    {
        proof {
            assert(ls[k as int] == lines@[k as int]@);
        }
        match strip_prefix(lines[k].as_str(), "host: ") {
            Some(rest) => {
                let h = trimmed(rest.as_str());
                proof {
                    assert(after_prefix(ls[k as int], "host: "@) == Some(rest@));
                    assert(host_from(ls, k as int) == Some(trim_spec(rest@)));
                }
                return Ok(h);
            },
            None => {
                proof {
                    assert(after_prefix(ls[k as int], "host: "@) is None);
                    assert(host_from(ls, k as int) == host_from(ls, k + 1));
                }
            },
        }
        k = k + 1;
    }
    Err(IngestError::Parse(owned("rustc -vV produced no 'host:' line")))
}

/// The real host target triple, from `rustc -vV`'s `host:` line: the
/// fixture is never cross-compiled, so the host triple is also the
/// demanded target triple. The runner is asked exactly once, for
/// `rustc -vV` with no working directory; its error is passed on as it
/// came, and its output is read by [`host_triple_from`].
pub fn host_target_triple<R: CommandRunner>(runner: &mut R) -> (r: Result<String, IngestError>)
    requires
        R::accepts("rustc"@, seq!["-vV"@]),
    ensures
        r matches Ok(h) ==> exists|out: Seq<char>| #[trigger] host_from(lines_of(out), 0) == Some(h@),
        R::keeps_log() ==> {
            &&& final(runner).exchanges().len() == old(runner).exchanges().len() + 1
            &&& final(runner).exchanges().drop_last() == old(runner).exchanges()
            &&& ({
                let x = final(runner).exchanges().last();
                &&& x.0 == "rustc"@
                &&& x.1 == seq!["-vV"@]
                &&& x.2 is None
                &&& match x.3 {
                    Ok(out) => host_triple_outcome(out, r),
                    Err(e) => r matches Err(f) && f@ == e,
                }
            })
        },
{
    let args: [&str; 1] = ["-vV"];
    let ghost before = runner.exchanges();
    proof {
        assert(strs_view(args@) =~= seq!["-vV"@]);
    }
    let reply = runner.run("rustc", args.as_slice(), None);
    proof {
        if R::keeps_log() {
            assert(runner.exchanges().drop_last() =~= before);
        }
    }
    match reply {
        Ok(stdout) => {
            let r = host_triple_from(stdout.as_str());
            proof {
                if r is Ok {
                    assert(host_from(lines_of(stdout@), 0) == Some(r->Ok_0@));
                }
            }
            r
        },
        Err(e) => Err(e),
    }
}

// ---------------------------------------------------------------------
// Manifest facts
// ---------------------------------------------------------------------

/// One package's read-only Cargo manifest facts.
#[derive(Debug, Clone, PartialEq, Eq)]
pub struct CargoManifestFacts {
    pub package_name: String,
    pub version: String,
    /// Every declared feature, in name order.
    pub features: Vec<String>,
    /// The features a plain `cargo build` activates: the closure of
    /// `default` under the manifest's declared implications, in name
    /// order.
    pub active_features: Vec<String>,
}

/// One package's read-only Nimble manifest facts.
#[derive(Debug, Clone, PartialEq, Eq)]
pub struct NimbleManifestFacts {
    pub package_name: String,
    pub version: String,
    pub requires: Vec<String>,
}

// ---------------------------------------------------------------------
// Default feature activation
// ---------------------------------------------------------------------

/// The features `f` directly implies in a manifest's `features` table:
/// the string items of its entry; none when it has no entry.
pub open spec fn implied_by(table: Seq<JsonMember>, f: Seq<char>) -> Seq<Seq<char>> {
    match array_of(member_from(table, f, 0)) {
        Some(items) => strs_of(items),
        None => Seq::empty(),
    }
}

/// `chain` starts at `default` and each of its features implies the next.
pub open spec fn implication_chain(table: Seq<JsonMember>, chain: Seq<Seq<char>>) -> bool {
    &&& chain.len() >= 1
    &&& chain[0] == "default"@
    &&& forall|i: int| #![trigger implied_by(table, chain[i])] 0 <= i < chain.len() - 1 ==> implied_by(table, chain[i]).contains(chain[i + 1])
}

/// `f` is in the closure of `default` under the table's implications:
/// what a plain `cargo build` activates.
pub open spec fn activated(table: Seq<JsonMember>, f: Seq<char>) -> bool {
    exists|chain: Seq<Seq<char>>| #[trigger] implication_chain(table, chain) && chain.last() == f
}

/// Every feature name the table mentions as an implication, and `default`.
pub open spec fn mentioned(table: Seq<JsonMember>) -> Set<Seq<char>>
    decreases table.len(),
{
    if table.len() == 0 {
        set!["default"@]
    } else {
        mentioned(table.drop_last()).union(
            match table.last().value {
                JsonValue::Array(items) => strs_of(items@).to_set(),
                _ => Set::empty(),
            },
        )
    }
}

proof fn lemma_mentioned_finite(table: Seq<JsonMember>)
    ensures
        mentioned(table).finite(),
        mentioned(table).contains("default"@),
    decreases table.len(),
{
    broadcast use vstd::seq_lib::seq_to_set_is_finite;
    if table.len() > 0 {
        lemma_mentioned_finite(table.drop_last());
    }
}

proof fn lemma_entry_mentioned(table: Seq<JsonMember>, j: int, y: Seq<char>)
    requires
        0 <= j < table.len(),
        table[j].value matches JsonValue::Array(items) && strs_of(items@).contains(y),
    ensures
        mentioned(table).contains(y),
    decreases table.len(),
{
    if j < table.len() - 1 {
        assert(table.drop_last()[j] == table[j]);
        lemma_entry_mentioned(table.drop_last(), j, y);
    } else {
        match table.last().value {
            JsonValue::Array(items) => {
                assert(strs_of(items@).to_set().contains(y));
            },
            _ => {},
        }
    }
}

proof fn lemma_member_from_entry(table: Seq<JsonMember>, f: Seq<char>, k: int)
    requires
        0 <= k,
        member_from(table, f, k) is Some,
    ensures
        exists|j: int| k <= j < table.len() && #[trigger] table[j].value == member_from(table, f, k).unwrap(),
    decreases table.len() - k,
{
    if table[k].key@ != f {
        lemma_member_from_entry(table, f, k + 1);
    } else {
        assert(table[k].value == member_from(table, f, k).unwrap());
    }
}

proof fn lemma_implied_mentioned(table: Seq<JsonMember>, f: Seq<char>, y: Seq<char>)
    requires
        implied_by(table, f).contains(y),
    ensures
        mentioned(table).contains(y),
{
    lemma_member_from_entry(table, f, 0);
    let j = choose|j: int| 0 <= j < table.len() && #[trigger] table[j].value == member_from(table, f, 0).unwrap();
    lemma_entry_mentioned(table, j, y);
}

proof fn lemma_implied_activated(table: Seq<JsonMember>, f: Seq<char>, y: Seq<char>)
    requires
        activated(table, f),
        implied_by(table, f).contains(y),
    ensures
        activated(table, y),
{
    let c = choose|chain: Seq<Seq<char>>| #[trigger] implication_chain(table, chain) && chain.last() == f;
    let d = c.push(y);
    assert forall|i: int| #![trigger implied_by(table, d[i])] 0 <= i < d.len() - 1 implies implied_by(table, d[i]).contains(d[i + 1]) by {
        if i < c.len() - 1 {
            assert(implied_by(table, c[i]).contains(c[i + 1]));
        }
    }
    assert(implication_chain(table, d));
}

proof fn lemma_closed_holds_chain(table: Seq<JsonMember>, a: Seq<Seq<char>>, chain: Seq<Seq<char>>, k: int)
    requires
        a.contains("default"@),
        forall|g: Seq<char>, y: Seq<char>| #[trigger] a.contains(g) && #[trigger] implied_by(table, g).contains(y) ==> a.contains(y),
        implication_chain(table, chain),
        0 <= k < chain.len(),
    ensures
        a.contains(chain[k]),
    decreases k,
{
    if k > 0 {
        lemma_closed_holds_chain(table, a, chain, k - 1);
        assert(implied_by(table, chain[k - 1]).contains(chain[k]));
    }
}

/// The features a plain `cargo build` activates, in name order: the
/// closure of `default` under the implications the manifest's `features`
/// table declares (`default` itself included even when the table does
/// not name it).
#[verifier::rlimit(60)]
pub fn resolve_default_active_features(table: &Vec<JsonMember>) -> (r: Vec<String>)
    ensures
        strictly_sorted(strings_view(r@)),
        forall|f: Seq<char>| strings_view(r@).contains(f) <==> activated(table@, f),
{
    let ghost t = table@;
    let ghost universe = mentioned(t);
    proof {
        lemma_mentioned_finite(t);
        assert(implication_chain(t, seq!["default"@]));
    }
    let mut active: Vec<String> = Vec::new();
    let mut frontier: Vec<String> = Vec::new();
    frontier.push(owned("default"));
    proof {
        assert(strings_view(frontier@)[0] == "default"@);
    }
    while frontier.len() > 0
        invariant
            t == table@,
            universe == mentioned(t),
            universe.finite(),
            strictly_sorted(strings_view(active@)),
            forall|x: Seq<char>| #[trigger] strings_view(active@).contains(x) ==> universe.contains(x) && activated(t, x),
            forall|k: int| 0 <= k < frontier@.len() ==> universe.contains(#[trigger] frontier@[k]@) && activated(t, frontier@[k]@),
            forall|g: Seq<char>, y: Seq<char>| #[trigger] strings_view(active@).contains(g) && #[trigger] implied_by(t, g).contains(y)
                ==> strings_view(active@).contains(y) || strings_view(frontier@).contains(y),
            strings_view(active@).contains("default"@) || strings_view(frontier@).contains("default"@),
        decreases universe.difference(strings_view(active@).to_set()).len(), frontier@.len(),
    {
        let ghost old_active = strings_view(active@);
        let ghost old_frontier = strings_view(frontier@);
        let f = frontier.pop().unwrap();
        let ghost fv = f@;
        proof {
            assert(old_frontier.last() == fv);
            assert forall|y: Seq<char>| old_frontier.contains(y) implies strings_view(frontier@).contains(y) || y == fv by {
                let k = choose|k: int| 0 <= k < old_frontier.len() && old_frontier[k] == y;
                if k < old_frontier.len() - 1 {
                    assert(strings_view(frontier@)[k] == y);
                }
            }
        }
        if sorted_contains(&active, f.as_str()) {
            proof {
                assert(universe.difference(strings_view(active@).to_set()) == universe.difference(old_active.to_set()));
            }
            continue;
        }
        let implied: Vec<String> = match lookup(table, f.as_str()) {
            Some(JsonValue::Array(items)) => string_items(items),
            _ => Vec::new(),
        };
        proof {
            assert(strings_view(implied@) == implied_by(t, fv));
            assert(universe.contains(fv) && activated(t, fv)) by {
                let k = (old_frontier.len() - 1) as int;
                assert(frontier@.len() == k);
            }
        }
        insert_sorted(&mut active, f);
        let ghost mid_frontier = strings_view(frontier@);
        let mut k: usize = 0;
        while k < implied.len()
            invariant
                k <= implied@.len(),
                t == table@,
                universe == mentioned(t),
                strings_view(implied@) == implied_by(t, fv),
                activated(t, fv),
                strings_view(frontier@) == mid_frontier + strings_view(implied@).take(k as int),
                forall|j: int| 0 <= j < mid_frontier.len() ==> universe.contains(#[trigger] mid_frontier[j]) && activated(t, mid_frontier[j]),
                forall|j: int| 0 <= j < frontier@.len() ==> universe.contains(#[trigger] frontier@[j]@) && activated(t, frontier@[j]@),
            decreases implied@.len() - k,
        {
            proof {
                assert(strings_view(implied@)[k as int] == implied@[k as int]@);
                assert(implied_by(t, fv).contains(implied@[k as int]@));
                lemma_implied_mentioned(t, fv, implied@[k as int]@);
                lemma_implied_activated(t, fv, implied@[k as int]@);
            }
            let ghost prevf = frontier@;
            frontier.push(implied[k].clone());
            proof {
                assert(strings_view(frontier@) =~= strings_view(prevf).push(implied@[k as int]@));
                assert(strings_view(implied@).take(k + 1) =~= strings_view(implied@).take(k as int).push(implied@[k as int]@));
                assert(strings_view(frontier@) =~= mid_frontier + strings_view(implied@).take(k + 1));
            }
            k = k + 1;
        }
        proof {
            assert(strings_view(implied@).take(implied@.len() as int) =~= strings_view(implied@));
            let na = strings_view(active@);
            let nf = strings_view(frontier@);
            assert(nf =~= mid_frontier + implied_by(t, fv));
            assert forall|y: Seq<char>| mid_frontier.contains(y) implies nf.contains(y) by {
                let j = choose|j: int| 0 <= j < mid_frontier.len() && mid_frontier[j] == y;
                assert(nf[j] == y);
            }
            assert forall|y: Seq<char>| implied_by(t, fv).contains(y) implies nf.contains(y) by {
                let j = choose|j: int| 0 <= j < implied_by(t, fv).len() && implied_by(t, fv)[j] == y;
                assert(nf[mid_frontier.len() + j] == y);
            }
            assert forall|g: Seq<char>, y: Seq<char>| #[trigger] na.contains(g) && #[trigger] implied_by(t, g).contains(y)
                implies na.contains(y) || nf.contains(y) by {
                if g != fv {
                    assert(old_active.contains(g));
                    if old_active.contains(y) {
                    } else if y == fv {
                    } else {
                        assert(old_frontier.contains(y));
                        assert(mid_frontier.contains(y));
                    }
                }
            }
            assert forall|x: Seq<char>| #[trigger] na.contains(x) implies universe.contains(x) && activated(t, x) by {
                if x != fv {
                    assert(old_active.contains(x));
                }
            }
            if !old_active.contains("default"@) && "default"@ != fv {
                assert(old_frontier.contains("default"@));
                assert(mid_frontier.contains("default"@));
            }
            assert(na.to_set() =~= old_active.to_set().insert(fv));
            assert(universe.difference(na.to_set()) =~= universe.difference(old_active.to_set()).remove(fv));
            assert(universe.difference(old_active.to_set()).contains(fv));
        }
    }
    proof {
        let a = strings_view(active@);
        assert(strings_view(frontier@) =~= Seq::<Seq<char>>::empty());
        assert forall|f: Seq<char>| activated(t, f) implies a.contains(f) by {
            let c = choose|chain: Seq<Seq<char>>| #[trigger] implication_chain(t, chain) && chain.last() == f;
            lemma_closed_holds_chain(t, a, c, c.len() - 1);
        }
    }
    active
}

// ---------------------------------------------------------------------
// Reading the manifests' machine-readable dumps
// ---------------------------------------------------------------------

/// Whether some member of `table` is named `k`.
pub open spec fn names_member(table: Seq<JsonMember>, k: Seq<char>) -> bool {
    exists|i: int| 0 <= i < table.len() && #[trigger] table[i].key@ == k
}

/// Every member name of `table`, in name order, each once.
pub fn member_names(table: &Vec<JsonMember>) -> (r: Vec<String>)
    ensures
        strictly_sorted(strings_view(r@)),
        forall|k: Seq<char>| strings_view(r@).contains(k) <==> names_member(table@, k),
{
    let mut out: Vec<String> = Vec::new();
    let mut i: usize = 0;
    while i < table.len()
        invariant
            i <= table@.len(),
            strictly_sorted(strings_view(out@)),
            forall|k: Seq<char>| strings_view(out@).contains(k) <==> exists|j: int| 0 <= j < i && #[trigger] table@[j].key@ == k,
        decreases table@.len() - i,
    {
        insert_sorted(&mut out, table[i].key.clone());
        proof {
            assert forall|k: Seq<char>| strings_view(out@).contains(k) <==> exists|j: int| 0 <= j < i + 1 && #[trigger] table@[j].key@ == k by {
                if k == table@[i as int].key@ {
                    assert(table@[i as int].key@ == k);
                }
                if exists|j: int| 0 <= j < i + 1 && #[trigger] table@[j].key@ == k {
                    let j = choose|j: int| 0 <= j < i + 1 && #[trigger] table@[j].key@ == k;
                    if j < i {
                        assert(exists|j2: int| 0 <= j2 < i && #[trigger] table@[j2].key@ == k);
                    }
                }
            }
        }
        i = i + 1;
    }
    out
}

/// The package a `cargo metadata` document describes first, if any.
pub open spec fn first_package(doc: JsonValue) -> Option<JsonValue> {
    match array_of(member(doc, "packages"@)) {
        Some(items) => if items.len() > 0 {
            Some(items[0])
        } else {
            None
        },
        None => None,
    }
}

/// The `features` table of a package; empty when it has none.
pub open spec fn features_table(pkg: JsonValue) -> Seq<JsonMember> {
    match object_of(member(pkg, "features"@)) {
        Some(m) => m,
        None => Seq::empty(),
    }
}

/// What reading the facts of a `cargo metadata` document gives.
pub open spec fn cargo_facts_outcome(doc: JsonValue, r: Result<CargoManifestFacts, IngestError>) -> bool {
    &&& first_package(doc) is None ==> (r matches Err(e) && e@ == IngestErrorView::Parse("cargo metadata reported no packages"@))
    &&& (first_package(doc) matches Some(pkg) && str_of(member(pkg, "name"@)) is None)
        ==> (r matches Err(e) && e@ == IngestErrorView::Parse("package has no name"@))
    &&& (r is Ok <==> (first_package(doc) is Some && str_of(member(first_package(doc).unwrap(), "name"@)) is Some))
    &&& r matches Ok(facts) ==> {
        let pkg = first_package(doc).unwrap();
        &&& facts.package_name@ == str_of(member(pkg, "name"@)).unwrap()
        &&& facts.version@ == (match str_of(member(pkg, "version"@)) {
            Some(v) => v,
            None => Seq::empty(),
        })
        &&& strictly_sorted(strings_view(facts.features@))
        &&& forall|k: Seq<char>| strings_view(facts.features@).contains(k) <==> names_member(features_table(pkg), k)
        &&& strictly_sorted(strings_view(facts.active_features@))
        &&& forall|f: Seq<char>| strings_view(facts.active_features@).contains(f) <==> activated(features_table(pkg), f)
    }
}

/// Reads the facts of the first package of a `cargo metadata --no-deps`
/// document: its name (required), its version (empty when absent), its
/// declared features in name order, and the features a plain build
/// activates. A document without packages, or whose package has no
/// name, is a parse error.
pub fn cargo_facts_from_metadata(doc: &JsonValue) -> (r: Result<CargoManifestFacts, IngestError>)
    ensures
        cargo_facts_outcome(*doc, r),
{
    let pkg = match get(doc, "packages") {
        Some(JsonValue::Array(items)) => {
            if items.len() > 0 {
                &items[0]
            } else {
                return Err(IngestError::Parse(owned("cargo metadata reported no packages")));
            }
        },
        _ => return Err(IngestError::Parse(owned("cargo metadata reported no packages"))),
    };
    let package_name = match as_str(get(pkg, "name")) {
        Some(n) => owned(n),
        None => return Err(IngestError::Parse(owned("package has no name"))),
    };
    let version = match as_str(get(pkg, "version")) {
        Some(v) => owned(v),
        None => String::new(),
    };
    let empty: Vec<JsonMember> = Vec::new();
    let table: &Vec<JsonMember> = match get(pkg, "features") {
        Some(JsonValue::Object(m)) => m,
        _ => &empty,
    };
    let features = member_names(table);
    let active_features = resolve_default_active_features(table);
    Ok(CargoManifestFacts { package_name, version, features, active_features })
}

/// One `requires` entry of a Nimble dump as text: its name and its
/// version constraint, trimmed; nothing when it has no string name.
pub open spec fn requirement_text(r: JsonValue) -> Option<Seq<char>> {
    match str_of(member(r, "name"@)) {
        Some(n) => Some(
            trim_spec(
                n + " "@ + match str_of(member(r, "str"@)) {
                    Some(c) => c,
                    None => Seq::empty(),
                },
            ),
        ),
        None => None,
    }
}

/// The texts of the entries that have a name, in order.
pub open spec fn requirement_texts(items: Seq<JsonValue>) -> Seq<Seq<char>>
    decreases items.len(),
{
    if items.len() == 0 {
        Seq::empty()
    } else {
        let rest = requirement_texts(items.drop_last());
        match requirement_text(items.last()) {
            Some(t) => rest.push(t),
            None => rest,
        }
    }
}

/// Where the JSON object of a Nimble dump starts: the first `{` (a fresh
/// install may print a banner before it).
pub open spec fn json_start(s: Seq<char>) -> Option<int> {
    if exists|i: int| 0 <= i < s.len() && s[i] == '{' {
        Some(choose|i: int| 0 <= i < s.len() && s[i] == '{' && forall|j: int| 0 <= j < i ==> s[j] != '{')
    } else {
        None
    }
}

/// Splits `nimble dump --json` output into the banner before its JSON
/// object and the object's text. Output without any `{` is a parse error
/// that quotes it.
pub fn nimble_dump_json(stdout: &str) -> (r: Result<(String, String), IngestError>)
    ensures
        match r {
            Ok((banner, json)) => {
                &&& exists|i: int| 0 <= i < stdout@.len() && stdout@[i] == '{'
                &&& banner@ + json@ == stdout@
                &&& json@.len() > 0 && json@[0] == '{'
                &&& forall|j: int| 0 <= j < banner@.len() ==> banner@[j] != '{'
            },
            Err(e) => {
                &&& forall|i: int| 0 <= i < stdout@.len() ==> stdout@[i] != '{'
                &&& e@ == IngestErrorView::Parse(
                    "nimble dump --json produced no JSON object at all; raw output: "@ + crate::text::debug_str(stdout@),
                )
            },
        },
{
    let cs = crate::text::chars_of(stdout);
    let mut i: usize = 0;
    while i < cs.len()
        invariant
            i <= cs@.len(),
            cs@ == stdout@,
            forall|j: int| 0 <= j < i ==> cs@[j] != '{',
        decreases cs@.len() - i,
    {
        if cs[i] == '{' {
            let banner = crate::text::substring(&cs, 0, i);
            let json = crate::text::substring(&cs, i, cs.len());
            proof {
                assert(banner@ + json@ =~= stdout@);
            }
            return Ok((banner, json));
        }
        i = i + 1;
    }
    let mut msg = owned("nimble dump --json produced no JSON object at all; raw output: ");
    let quoted = crate::text::debug_quoted(stdout);
    crate::text::push_str(&mut msg, quoted.as_str());
    Err(IngestError::Parse(msg))
}

/// The error for a Nimble dump whose JSON object does not parse:
/// the parser's own message, with the banner before the object quoted.
pub fn nimble_parse_error(parser_message: &str, banner: &str) -> (r: IngestError)
    ensures
        r@ == IngestErrorView::Parse(parser_message@ + " (raw output: "@ + crate::text::debug_str(banner@) + ")"@),
{
    let mut msg = owned(parser_message);
    crate::text::push_str(&mut msg, " (raw output: ");
    let quoted = crate::text::debug_quoted(banner);
    crate::text::push_str(&mut msg, quoted.as_str());
    crate::text::push_str(&mut msg, ")");
    IngestError::Parse(msg)
}

/// What reading the facts of a `nimble dump --json` document gives.
pub open spec fn nimble_facts_outcome(doc: JsonValue, r: Result<NimbleManifestFacts, IngestError>) -> bool {
    &&& (str_of(member(doc, "name"@)) is None <==> r is Err)
    &&& r matches Err(e) ==> e@ == IngestErrorView::Parse("nimble dump produced no name"@)
    &&& r matches Ok(facts) ==> {
        &&& facts.package_name@ == str_of(member(doc, "name"@)).unwrap()
        &&& facts.version@ == (match str_of(member(doc, "version"@)) {
            Some(v) => v,
            None => Seq::empty(),
        })
        &&& strings_view(facts.requires@) == (match array_of(member(doc, "requires"@)) {
            Some(items) => requirement_texts(items),
            None => Seq::empty(),
        })
    }
}

/// Reads the facts of a `nimble dump --json` document: its name
/// (required), its version (empty when absent) and its requirements, each
/// as `name constraint`, trimmed; entries without a string name are
/// skipped.
pub fn nimble_facts_from_dump(doc: &JsonValue) -> (r: Result<NimbleManifestFacts, IngestError>)
    ensures
        nimble_facts_outcome(*doc, r),
{
    let package_name = match as_str(get(doc, "name")) {
        Some(n) => owned(n),
        None => return Err(IngestError::Parse(owned("nimble dump produced no name"))),
    };
    let version = match as_str(get(doc, "version")) {
        Some(v) => owned(v),
        None => String::new(),
    };
    let mut reqs: Vec<String> = Vec::new();
    match get(doc, "requires") {
        Some(JsonValue::Array(items)) => {
            let mut k: usize = 0;
            while k < items.len()
                invariant
                    k <= items@.len(),
                    strings_view(reqs@) == requirement_texts(items@.take(k as int)),
                decreases items@.len() - k,
            {
                proof {
                    assert(items@.take(k + 1).drop_last() =~= items@.take(k as int));
                }
                let item = &items[k];
                let ghost prev = reqs@;
                match as_str(get(item, "name")) {
                    Some(name) => {
                        let mut line = owned(name);
                        crate::text::push_str(&mut line, " ");
                        match as_str(get(item, "str")) {
                            Some(c) => crate::text::push_str(&mut line, c),
                            None => {},
                        }
                        let t = trimmed(line.as_str());
                        reqs.push(t);
                        proof {
                            assert(strings_view(reqs@) =~= strings_view(prev).push(t@));
                            assert(line@ == name@ + " "@ + match str_of(member(*item, "str"@)) {
                                Some(c) => c,
                                None => Seq::<char>::empty(),
                            });
                        }
                    },
                    None => {},
                }
                k = k + 1;
            }
            proof {
                assert(items@.take(items@.len() as int) =~= items@);
            }
        },
        _ => {},
    }
    proof {
        assert(strings_view(reqs@) == (match array_of(member(*doc, "requires"@)) {
            Some(items) => requirement_texts(items),
            None => Seq::<Seq<char>>::empty(),
        }));
    }
    Ok(NimbleManifestFacts { package_name, version, requires: reqs })
}

// ---------------------------------------------------------------------
// The fixture's layout
// ---------------------------------------------------------------------

/// The fixture's fixed layout, one path accessor per ecosystem input.
/// Only this type names the fixture's own paths.
#[derive(Debug, Clone, PartialEq, Eq)]
pub struct FixtureLayout {
    pub root: String,
}

impl FixtureLayout {
    /// The layout of the fixture inside the repository rooted at
    /// `repo_root` (the canonical directory two levels above this
    /// package).
    pub fn discover(repo_root: &str) -> (r: Self)
        ensures
            r.root@ == join_path(repo_root@, "fixtures/cross-ecosystem-native-executable"@),
    {
        FixtureLayout { root: join(repo_root, "fixtures/cross-ecosystem-native-executable") }
    }

    pub fn app_manifest(&self) -> (r: String)
        ensures
            r@ == join_path(self.root@, "app/Cargo.toml"@),
    {
        join(self.root.as_str(), "app/Cargo.toml")
    }

    pub fn app_main_rs(&self) -> (r: String)
        ensures
            r@ == join_path(self.root@, "app/src/main.rs"@),
    {
        join(self.root.as_str(), "app/src/main.rs")
    }

    pub fn nimble_dir(&self) -> (r: String)
        ensures
            r@ == join_path(self.root@, "nimble/doubler"@),
    {
        join(self.root.as_str(), "nimble/doubler")
    }

    pub fn nimble_main_nim(&self) -> (r: String)
        ensures
            r@ == join_path(self.root@, "nimble/doubler/src/doubler.nim"@),
    {
        join(self.root.as_str(), "nimble/doubler/src/doubler.nim")
    }

    pub fn cadd_v1_c(&self) -> (r: String)
        ensures
            r@ == join_path(self.root@, "c/cadd/v1/cadd.c"@),
    {
        join(self.root.as_str(), "c/cadd/v1/cadd.c")
    }

    pub fn cadd_v1_h(&self) -> (r: String)
        ensures
            r@ == join_path(self.root@, "c/cadd/v1/cadd.h"@),
    {
        join(self.root.as_str(), "c/cadd/v1/cadd.h")
    }

    pub fn cadd_v2_c(&self) -> (r: String)
        ensures
            r@ == join_path(self.root@, "c/cadd/v2/cadd.c"@),
    {
        join(self.root.as_str(), "c/cadd/v2/cadd.c")
    }

    pub fn cadd_v2_h(&self) -> (r: String)
        ensures
            r@ == join_path(self.root@, "c/cadd/v2/cadd.h"@),
    {
        join(self.root.as_str(), "c/cadd/v2/cadd.h")
    }

    pub fn cppmax_cpp(&self) -> (r: String)
        ensures
            r@ == join_path(self.root@, "cpp/cppmax/cppmax.cpp"@),
    {
        join(self.root.as_str(), "cpp/cppmax/cppmax.cpp")
    }

    pub fn cppmax_h(&self) -> (r: String)
        ensures
            r@ == join_path(self.root@, "cpp/cppmax/cppmax.h"@),
    {
        join(self.root.as_str(), "cpp/cppmax/cppmax.h")
    }
}

// ---------------------------------------------------------------------
// Ingestion through a runner
// ---------------------------------------------------------------------

/// The arguments of `cargo metadata --no-deps` for one manifest.
pub open spec fn cargo_metadata_args(manifest_path: Seq<char>) -> Seq<Seq<char>> {
    seq!["metadata"@, "--no-deps"@, "--format-version"@, "1"@, "--manifest-path"@, manifest_path]
}

/// What ingesting a Cargo manifest gives for the runner's output `out`:
/// a parse error with the parser's message when `out` is no JSON text,
/// otherwise the facts of the document it reads as.
pub open spec fn cargo_ingest_outcome(out: Seq<char>, r: Result<CargoManifestFacts, IngestError>) -> bool {
    match json_parse(out) {
        Err(m) => r matches Err(e) && e@ == IngestErrorView::Parse(m),
        Ok(d) => exists|v: JsonValue| #[trigger] doc_of(v) == d && cargo_facts_outcome(v, r),
    }
}

/// `cargo metadata --no-deps` for one manifest, read into its facts. The
/// runner's failure is passed on as it came.
pub fn ingest_cargo_metadata<R: CommandRunner>(runner: &mut R, manifest_path: &str) -> (r: Result<CargoManifestFacts, IngestError>)
    requires
        R::accepts("cargo"@, cargo_metadata_args(manifest_path@)),
    ensures
        r is Ok ==> exists|out: Seq<char>| #[trigger] json_parse(out) is Ok && cargo_ingest_outcome(out, r),
        R::keeps_log() ==> {
            &&& final(runner).exchanges().len() == old(runner).exchanges().len() + 1
            &&& final(runner).exchanges().drop_last() == old(runner).exchanges()
            &&& ({
                let x = final(runner).exchanges().last();
                &&& x.0 == "cargo"@
                &&& x.1 == cargo_metadata_args(manifest_path@)
                &&& x.2 is None
                &&& match x.3 {
                    Ok(out) => cargo_ingest_outcome(out, r),
                    Err(e) => r matches Err(f) && f@ == e,
                }
            })
        },
{
    let args: [&str; 6] = ["metadata", "--no-deps", "--format-version", "1", "--manifest-path", manifest_path];
    let ghost before = runner.exchanges();
    proof {
        assert(strs_view(args@) =~= cargo_metadata_args(manifest_path@));
    }
    let reply = runner.run("cargo", args.as_slice(), None);
    proof {
        if R::keeps_log() {
            assert(runner.exchanges().drop_last() =~= before);
        }
    }
    let stdout = match reply {
        Ok(s) => s,
        Err(e) => return Err(e),
    };
    match parse_json_text(stdout.as_str()) {
        Ok(doc) => {
            let r = cargo_facts_from_metadata(&doc);
            proof {
                assert(doc_of(doc) == json_parse(stdout@)->Ok_0);
                assert(json_parse(stdout@) is Ok);
            }
            r
        },
        Err(m) => Err(IngestError::Parse(m)),
    }
}

/// The arguments of `nimble dump --json`.
pub open spec fn nimble_dump_args() -> Seq<Seq<char>> {
    seq!["dump"@, "--json"@]
}

/// What ingesting a Nimble package gives for the runner's output `out`:
/// the output from its first `{` on is the document (a banner before it
/// is kept for the error); without a `{` there is no document, and a
/// document that is no JSON text is a parse error naming the banner.
pub open spec fn nimble_ingest_outcome(out: Seq<char>, r: Result<NimbleManifestFacts, IngestError>) -> bool {
    if forall|i: int| 0 <= i < out.len() ==> out[i] != '{' {
        r matches Err(e) && e@ == IngestErrorView::Parse(
            "nimble dump --json produced no JSON object at all; raw output: "@ + crate::text::debug_str(out),
        )
    } else {
        exists|k: int| {
            &&& 0 <= k < out.len()
            &&& #[trigger] out[k] == '{'
            &&& forall|j: int| 0 <= j < k ==> out[j] != '{'
            &&& match json_parse(out.skip(k)) {
                Err(m) => r matches Err(e) && e@ == IngestErrorView::Parse(
                    m + " (raw output: "@ + crate::text::debug_str(out.take(k)) + ")"@,
                ),
                Ok(d) => exists|v: JsonValue| #[trigger] doc_of(v) == d && nimble_facts_outcome(v, r),
            }
        }
    }
}

/// `nimble dump --json` in one package directory, read into its facts.
/// The runner's failure is passed on as it came.
pub fn ingest_nimble_package<R: CommandRunner>(runner: &mut R, nimble_dir: &str) -> (r: Result<NimbleManifestFacts, IngestError>)
    requires
        R::accepts("nimble"@, nimble_dump_args()),
    ensures
        r is Ok ==> exists|out: Seq<char>| #[trigger] nimble_ingest_outcome(out, r),
        R::keeps_log() ==> {
            &&& final(runner).exchanges().len() == old(runner).exchanges().len() + 1
            &&& final(runner).exchanges().drop_last() == old(runner).exchanges()
            &&& ({
                let x = final(runner).exchanges().last();
                &&& x.0 == "nimble"@
                &&& x.1 == nimble_dump_args()
                &&& x.2 == Some(nimble_dir@)
                &&& match x.3 {
                    Ok(out) => nimble_ingest_outcome(out, r),
                    Err(e) => r matches Err(f) && f@ == e,
                }
            })
        },
{
    let args: [&str; 2] = ["dump", "--json"];
    let ghost before = runner.exchanges();
    proof {
        assert(strs_view(args@) =~= nimble_dump_args());
    }
    let reply = runner.run("nimble", args.as_slice(), Some(nimble_dir));
    proof {
        if R::keeps_log() {
            assert(runner.exchanges().drop_last() =~= before);
        }
    }
    let stdout = match reply {
        Ok(s) => s,
        Err(e) => return Err(e),
    };
    let (banner, json) = match nimble_dump_json(stdout.as_str()) {
        Ok(parts) => parts,
        Err(e) => return Err(e),
    };
    let ghost k = banner@.len() as int;
    proof {
        assert(stdout@.take(k) =~= banner@);
        assert(stdout@.skip(k) =~= json@);
        assert(stdout@[k] == '{');
    }
    match parse_json_text(json.as_str()) {
        Ok(doc) => {
            let r = nimble_facts_from_dump(&doc);
            proof {
                assert(doc_of(doc) == json_parse(stdout@.skip(k))->Ok_0);
                assert(nimble_facts_outcome(doc, r));
                assert(stdout@[k] == '{');
                assert(forall|j: int| 0 <= j < k ==> stdout@[j] != '{') by {
                    assert forall|j: int| 0 <= j < k implies stdout@[j] != '{' by {
                        assert(banner@[j] == stdout@[j]);
                    }
                }
                assert(nimble_ingest_outcome(stdout@, r));
            }
            r
        },
        Err(m) => {
            let r = nimble_parse_error(m.as_str(), banner.as_str());
            Err(r)
        },
    }
}

} // verus!
