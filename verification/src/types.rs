//! The records a traced run is made of: the root command, how it exited,
//! and what was prepared before it. Environment overrides are a map from
//! variable to value, kept in key order.

use vstd::prelude::*;

use crate::text::{lemma_seq_lt_asymmetric, lemma_seq_lt_irreflexive, lemma_seq_lt_total, lemma_seq_lt_transitive, seq_lt, str_lt};

verus! {

/// The schema version of run records.
pub const SCHEMA_VERSION: &'static str = "0.1.0";

/// How deeply a run was observed.
#[derive(Debug, Clone, Copy, PartialEq, Eq, Structural)]
pub enum ProbeLevel {
    Level0Lifecycle,
    Level1ProcessResource,
    Level2CompilerTelemetry,
    Level3PlatformProfiler,
}

/// The command a run executes.
#[derive(Debug, Clone, PartialEq, Eq)]
pub struct RootCommand {
    pub program: String,
    pub args: Vec<String>,
    pub cwd: Option<String>,
    /// Environment overrides, in ascending key order, each key once.
    pub env_overrides: Vec<(String, String)>,
}

/// How a process ended.
#[derive(Debug, Clone, Copy, PartialEq, Eq, Structural)]
pub struct ExitStatusRecord {
    pub success: bool,
    pub code: Option<i32>,
    pub signal: Option<i32>,
}

/// The outcome of a run's root command.
#[derive(Debug, Clone, Copy, PartialEq, Eq, Structural)]
pub struct RunResult {
    pub success: bool,
    pub root_exit_status: ExitStatusRecord,
}

/// What was done before the measured command ran.
#[derive(Debug, Clone, PartialEq, Eq, Default)]
pub struct PreparationRecord {
    pub steps: Vec<String>,
    pub cache_clears: Vec<String>,
}

/// Notes on the cache state a run started from.
#[derive(Debug, Clone, PartialEq, Eq, Default)]
pub struct CacheState {
    pub notes: Vec<String>,
}

// ---------------------------------------------------------------------
// Environment maps
// ---------------------------------------------------------------------

pub open spec fn pairs_view(v: Seq<(String, String)>) -> Seq<(Seq<char>, Seq<char>)> {
    v.map_values(|p: (String, String)| (p.0@, p.1@))
}

/// Keys strictly ascending.
pub open spec fn keys_sorted(v: Seq<(Seq<char>, Seq<char>)>) -> bool {
    forall|a: int, b: int| 0 <= a < b < v.len() ==> seq_lt(v[a].0, v[b].0)
}

/// The map `v` denotes.
pub open spec fn as_map(v: Seq<(Seq<char>, Seq<char>)>) -> Map<Seq<char>, Seq<char>>
    decreases v.len(),
{
    if v.len() == 0 {
        Map::empty()
    } else {
        as_map(v.drop_last()).insert(v.last().0, v.last().1)
    }
}

/// The map of `pairs` in order: a later pair for the same key wins.
pub open spec fn collected(pairs: Seq<(Seq<char>, Seq<char>)>) -> Map<Seq<char>, Seq<char>> {
    as_map(pairs)
}

proof fn lemma_sorted_map_keys(v: Seq<(Seq<char>, Seq<char>)>)
    requires
        keys_sorted(v),
    ensures
        forall|k: Seq<char>| as_map(v).dom().contains(k) <==> exists|i: int| 0 <= i < v.len() && #[trigger] v[i].0 == k,
        forall|i: int| 0 <= i < v.len() ==> #[trigger] as_map(v)[v[i].0] == v[i].1,
    decreases v.len(),
{
    if v.len() > 0 {
        let p = v.drop_last();
        assert(keys_sorted(p));
        lemma_sorted_map_keys(p);
        assert forall|k: Seq<char>| as_map(v).dom().contains(k) implies exists|i: int| 0 <= i < v.len() && #[trigger] v[i].0 == k by {
            if k != v.last().0 {
                assert(as_map(p).dom().contains(k));
                let i = choose|i: int| 0 <= i < p.len() && #[trigger] p[i].0 == k;
                assert(p[i] == v[i]);
                assert(v[i].0 == k);
            } else {
                assert(v[v.len() - 1].0 == k);
            }
        }
        assert forall|k: Seq<char>| (exists|i: int| 0 <= i < v.len() && #[trigger] v[i].0 == k) implies as_map(v).dom().contains(k) by {
            let i = choose|i: int| 0 <= i < v.len() && #[trigger] v[i].0 == k;
            if i < v.len() - 1 {
                assert(p[i] == v[i]);
                assert(p[i].0 == k);
                assert(exists|j: int| 0 <= j < p.len() && #[trigger] p[j].0 == k);
                assert(as_map(p).dom().contains(k));
            } else {
                assert(k == v.last().0);
            }
        }
        assert forall|i: int| 0 <= i < v.len() implies #[trigger] as_map(v)[v[i].0] == v[i].1 by {
            if i < v.len() - 1 {
                assert(p[i] == v[i]);
                assert(as_map(p)[p[i].0] == p[i].1);
                assert(seq_lt(v[i].0, v.last().0));
                lemma_seq_lt_irreflexive(v[i].0);
                assert(as_map(p).dom().contains(p[i].0));
            }
        }
    }
}

/// Sets `key` to `value` in the key-ordered `map`, replacing any value it
/// had.
pub fn env_insert(map: &mut Vec<(String, String)>, key: String, value: String)
    requires
        keys_sorted(pairs_view(old(map)@)),
    ensures
        keys_sorted(pairs_view(final(map)@)),
        as_map(pairs_view(final(map)@)) == as_map(pairs_view(old(map)@)).insert(key@, value@),
{
    let ghost before = pairs_view(map@);
    proof {
        lemma_sorted_map_keys(before);
    }
    let mut p: usize = 0;
    while p < map.len() && str_lt(map[p].0.as_str(), key.as_str())
        invariant
            p <= map@.len(),
            pairs_view(map@) == before,
            forall|j: int| 0 <= j < p ==> seq_lt(#[trigger] before[j].0, key@),
        decreases map@.len() - p,
    {
        proof {
            assert(before[p as int].0 == map@[p as int].0@);
        }
        p = p + 1;
    }
    proof {
        assert forall|j: int| p <= j < before.len() implies !seq_lt(#[trigger] before[j].0, key@) by {
            if j > p {
                assert(seq_lt(before[p as int].0, before[j].0));
                assert(!seq_lt(before[p as int].0, key@)) by {
                    assert(before[p as int].0 == map@[p as int].0@);
                }
                if seq_lt(before[j].0, key@) {
                    lemma_seq_lt_total(before[p as int].0, key@);
                    if before[p as int].0 == key@ {
                        lemma_seq_lt_asymmetric(before[p as int].0, before[j].0);
                    } else {
                        lemma_seq_lt_transitive(key@, before[p as int].0, before[j].0);
                        lemma_seq_lt_asymmetric(key@, before[j].0);
                    }
                }
            } else {
                assert(before[p as int].0 == map@[p as int].0@);
            }
        }
    }
    if p < map.len() && map[p].0 == key {
        let ghost k = key@;
        let ghost val = value@;
        map.set(p, (key, value));
        proof {
            let now = pairs_view(map@);
            assert(now =~= before.update(p as int, (k, val)));
            assert(keys_sorted(now)) by {
                assert forall|a: int, b: int| 0 <= a < b < now.len() implies seq_lt(now[a].0, now[b].0) by {
                    assert(now[a].0 == before[a].0 && now[b].0 == before[b].0);
                }
            }
            lemma_sorted_map_keys(now);
            assert(as_map(now) =~= as_map(before).insert(k, val)) by {
                assert forall|x: Seq<char>| as_map(now).dom().contains(x) <==> as_map(before).insert(k, val).dom().contains(x) by {
                    if as_map(now).dom().contains(x) {
                        let i = choose|i: int| 0 <= i < now.len() && #[trigger] now[i].0 == x;
                        assert(before[i].0 == x);
                    }
                    if as_map(before).dom().contains(x) {
                        let i = choose|i: int| 0 <= i < before.len() && #[trigger] before[i].0 == x;
                        assert(now[i].0 == x);
                    }
                    if x == k {
                        assert(now[p as int].0 == x);
                    }
                }
                assert forall|x: Seq<char>| #[trigger] as_map(now).dom().contains(x) implies as_map(now)[x] == as_map(before).insert(k, val)[x] by {
                    let i = choose|i: int| 0 <= i < now.len() && #[trigger] now[i].0 == x;
                    if i != p {
                        assert(now[i] == before[i]);
                        assert(as_map(now)[now[i].0] == now[i].1);
                        assert(as_map(before)[before[i].0] == before[i].1);
                        lemma_seq_lt_irreflexive(x);
                        if i < p {
                            assert(seq_lt(now[i].0, now[p as int].0));
                        } else {
                            assert(seq_lt(now[p as int].0, now[i].0));
                        }
                    }
                }
            }
        }
    } else {
        let ghost k = key@;
        let ghost val = value@;
        proof {
            assert forall|j: int| p <= j < before.len() implies seq_lt(k, #[trigger] before[j].0) by {
                assert(before[p as int].0 == map@[p as int].0@);
                assert(before[p as int].0 != k);
                lemma_seq_lt_total(before[p as int].0, k);
                if j > p {
                    assert(seq_lt(before[p as int].0, before[j].0));
                    lemma_seq_lt_transitive(k, before[p as int].0, before[j].0);
                }
            }
        }
        map.insert(p, (key, value));
        proof {
            let now = pairs_view(map@);
            assert(now =~= before.insert(p as int, (k, val)));
            assert(keys_sorted(now)) by {
                assert forall|a: int, b: int| 0 <= a < b < now.len() implies seq_lt(now[a].0, now[b].0) by {
                    if b < p {
                        assert(now[a] == before[a] && now[b] == before[b]);
                    } else if b == p {
                        assert(now[a] == before[a]);
                    } else if a == p {
                        assert(now[b] == before[b - 1]);
                    } else if a < p {
                        assert(now[a] == before[a] && now[b] == before[b - 1]);
                        lemma_seq_lt_transitive(before[a].0, k, before[b - 1].0);
                    } else {
                        assert(now[a] == before[a - 1] && now[b] == before[b - 1]);
                    }
                }
            }
            lemma_sorted_map_keys(now);
            assert(as_map(now) =~= as_map(before).insert(k, val)) by {
                assert forall|x: Seq<char>| as_map(now).dom().contains(x) <==> as_map(before).insert(k, val).dom().contains(x) by {
                    if as_map(now).dom().contains(x) {
                        let i = choose|i: int| 0 <= i < now.len() && #[trigger] now[i].0 == x;
                        if i < p {
                            assert(before[i].0 == x);
                        } else if i > p {
                            assert(before[i - 1].0 == x);
                        }
                    }
                    if as_map(before).dom().contains(x) {
                        let i = choose|i: int| 0 <= i < before.len() && #[trigger] before[i].0 == x;
                        if i < p {
                            assert(now[i].0 == x);
                        } else {
                            assert(now[i + 1].0 == x);
                        }
                    }
                    if x == k {
                        assert(now[p as int].0 == x);
                    }
                }
                assert forall|x: Seq<char>| #[trigger] as_map(now).dom().contains(x) implies as_map(now)[x] == as_map(before).insert(k, val)[x] by {
                    let i = choose|i: int| 0 <= i < now.len() && #[trigger] now[i].0 == x;
                    if i < p {
                        assert(now[i] == before[i]);
                        assert(as_map(before)[before[i].0] == before[i].1);
                        lemma_seq_lt_irreflexive(k);
                    } else if i > p {
                        assert(now[i] == before[i - 1]);
                        assert(as_map(before)[before[i - 1].0] == before[i - 1].1);
                        assert(seq_lt(now[p as int].0, now[i].0));
                        lemma_seq_lt_irreflexive(k);
                    }
                }
            }
        }
    }
}

/// The environment-override map of `pairs`, in key order; a later pair for
/// the same variable replaces an earlier one.
pub fn env_overrides_from(pairs: &Vec<(String, String)>) -> (r: Vec<(String, String)>)
    ensures
        keys_sorted(pairs_view(r@)),
        as_map(pairs_view(r@)) == collected(pairs_view(pairs@)),
{
    let ghost pv = pairs_view(pairs@);
    let mut out: Vec<(String, String)> = Vec::new();
    let mut i: usize = 0;
    proof {
        assert(pairs_view(out@) =~= Seq::<(Seq<char>, Seq<char>)>::empty());
        assert(pv.take(0) =~= Seq::<(Seq<char>, Seq<char>)>::empty());
    }
    while i < pairs.len()
        invariant
            pv == pairs_view(pairs@),
            i <= pv.len(),
            keys_sorted(pairs_view(out@)),
            as_map(pairs_view(out@)) == as_map(pv.take(i as int)),
        decreases pv.len() - i,
    {
        let k = pairs[i].0.clone();
        let v = pairs[i].1.clone();
        env_insert(&mut out, k, v);
        proof {
            assert(pv.take(i + 1).drop_last() =~= pv.take(i as int));
            assert(pv.take(i + 1).last() == pv[i as int]);
        }
        i = i + 1;
    }
    proof {
        assert(pv.take(i as int) =~= pv);
    }
    out
}

} // verus!
