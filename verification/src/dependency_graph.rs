//! The dependency graph among scheduled instances: resolving dependency
//! names to positions, the mirrored consumer lists, and the cycle check.

use vstd::prelude::*;

use crate::resource_scheduler::{
    defs_sorted, lemma_same_def, lemma_same_inst, same_instances, indices_view, insts_view, strictly_increasing, strings_view, InstanceView, PhysicalWorkInstance,
    SchedulerContractError, SchedulerErrorView,
};
use crate::text::{
    lemma_seq_lt_asymmetric, lemma_seq_lt_irreflexive, lemma_seq_lt_total, lemma_seq_lt_transitive, seq_lt, str_lt,
};

verus! {

/// Whether some instance of `defs` is named `d`.
pub open spec fn names_instance(defs: Seq<InstanceView>, d: Seq<char>) -> bool {
    exists|j: int| 0 <= j < defs.len() && (#[trigger] defs[j]).instance_id == d
}

/// `d` is a dependency of `deps` that names no instance, and no smaller
/// such name is among `deps`.
pub open spec fn is_least_unknown(defs: Seq<InstanceView>, deps: Seq<Seq<char>>, d: Seq<char>) -> bool {
    &&& deps.contains(d)
    &&& !names_instance(defs, d)
    &&& forall|m: int| 0 <= m < deps.len() && !names_instance(defs, #[trigger] deps[m]) ==> !seq_lt(deps[m], d)
}

/// The smallest of `deps` that names no instance (dependencies form a set,
/// searched in name order).
pub open spec fn least_unknown(defs: Seq<InstanceView>, deps: Seq<Seq<char>>) -> Option<Seq<char>> {
    if exists|d: Seq<char>| is_least_unknown(defs, deps, d) {
        Some(choose|d: Seq<char>| is_least_unknown(defs, deps, d))
    } else {
        None
    }
}

/// Whether instance `a` consumes something that is not scheduled.
pub open spec fn has_unknown(insts: Seq<InstanceView>, a: int) -> bool {
    exists|m: int| 0 <= m < insts[a].dependencies.len() && !names_instance(insts, #[trigger] insts[a].dependencies[m])
}

/// Instance `a` has an unknown dependency, and no instance with a smaller
/// id has one.
pub open spec fn is_first_unknown_holder(insts: Seq<InstanceView>, a: int) -> bool {
    &&& 0 <= a < insts.len()
    &&& has_unknown(insts, a)
    &&& forall|b: int| 0 <= b < insts.len() && #[trigger] has_unknown(insts, b)
        ==> !seq_lt(insts[b].instance_id, insts[a].instance_id)
}

/// The unknown-dependency error: reported for the instance with the
/// smallest id that has one, naming its first unknown dependency.
pub open spec fn unknown_dependency_error(insts: Seq<InstanceView>) -> Option<SchedulerErrorView> {
    if exists|a: int| is_first_unknown_holder(insts, a) {
        let a = choose|a: int| is_first_unknown_holder(insts, a);
        Some(
            SchedulerErrorView::UnknownDependency {
                instance_id: insts[a].instance_id,
                dependency: least_unknown(insts, insts[a].dependencies)->0,
            },
        )
    } else {
        None
    }
}

/// Instance `i` of `defs` consumes instance `j`.
pub open spec fn dep_rel(defs: Seq<InstanceView>, i: int, j: int) -> bool {
    defs[i].dependencies.contains(defs[j].instance_id)
}

/// A rank on names that every dependency edge strictly descends.
pub open spec fn name_rank_ok(insts: Seq<InstanceView>, r: spec_fn(Seq<char>) -> nat) -> bool {
    forall|a: int, k: int| 0 <= a < insts.len() && 0 <= k < insts[a].dependencies.len()
        ==> r(#[trigger] insts[a].dependencies[k]) < r(insts[a].instance_id)
}

/// No chain of dependencies leads from an instance back to itself.
pub open spec fn dependencies_acyclic(insts: Seq<InstanceView>) -> bool {
    exists|r: spec_fn(Seq<char>) -> nat| name_rank_ok(insts, r)
}

/// A rank on positions that every edge of the index graph descends.
pub open spec fn index_rank_ok(g: Seq<Seq<int>>, r: spec_fn(int) -> nat) -> bool {
    forall|i: int, k: int| 0 <= i < g.len() && 0 <= k < g[i].len() ==> r(#[trigger] g[i][k]) < r(i)
}

pub open spec fn graph_view(g: Seq<Vec<usize>>) -> Seq<Seq<int>> {
    g.map_values(|l: Vec<usize>| indices_view(l@))
}

/// Every list of `g` is ascending, in range, and lists exactly the
/// positions `j` that position `i` consumes.
pub open spec fn graph_of(defs: Seq<InstanceView>, g: Seq<Seq<int>>) -> bool {
    &&& g.len() == defs.len()
    &&& forall|i: int| #![trigger g[i]] 0 <= i < g.len() ==> {
        &&& strictly_increasing(g[i])
        &&& forall|k: int| 0 <= k < g[i].len() ==> 0 <= #[trigger] g[i][k] < defs.len()
        &&& forall|j: int| 0 <= j < defs.len() ==> (g[i].contains(j) <==> dep_rel(defs, i, j))
    }
}

/// The transpose: list `i` holds exactly the consumers of position `i`.
pub open spec fn consumers_of(defs: Seq<InstanceView>, g: Seq<Seq<int>>) -> bool {
    &&& g.len() == defs.len()
    &&& forall|i: int| #![trigger g[i]] 0 <= i < g.len() ==> {
        &&& strictly_increasing(g[i])
        &&& forall|k: int| 0 <= k < g[i].len() ==> 0 <= #[trigger] g[i][k] < defs.len()
        &&& forall|j: int| 0 <= j < defs.len() ==> (g[i].contains(j) <==> dep_rel(defs, j, i))
    }
}

/// Whether `x` is one of the names of `v`.
pub fn names_contain(v: &Vec<String>, x: &String) -> (r: bool)
    ensures
        r == strings_view(v@).contains(x@),
{
    let mut k: usize = 0;
    while k < v.len()
        invariant
            k <= v@.len(),
            forall|m: int| 0 <= m < k ==> (#[trigger] v@[m])@ != x@,
        decreases v@.len() - k,
    {
        if v[k] == *x {
            proof {
                assert(strings_view(v@)[k as int] == x@);
            }
            return true;
        }
        k = k + 1;
    }
    proof {
        if strings_view(v@).contains(x@) {
            let m = choose|m: int| 0 <= m < strings_view(v@).len() && strings_view(v@)[m] == x@;
            assert(v@[m]@ == x@);
        }
    }
    false
}

/// The position of the instance named `d`, if any.
fn position_of(defs: &Vec<PhysicalWorkInstance>, d: &String) -> (r: Option<usize>)
    ensures
        r matches Some(j) ==> j < defs@.len() && defs@[j as int].instance_id@ == d@,
        r is None ==> !names_instance(insts_view(defs@), d@),
{
    let mut j: usize = 0;
    while j < defs.len()
        invariant
            j <= defs@.len(),
            forall|m: int| 0 <= m < j ==> (#[trigger] defs@[m]).instance_id@ != d@,
        decreases defs@.len() - j,
    {
        if defs[j].instance_id == *d {
            return Some(j);
        }
        j = j + 1;
    }
    proof {
        let dv = insts_view(defs@);
        if names_instance(dv, d@) {
            let m = choose|m: int| 0 <= m < dv.len() && (#[trigger] dv[m]).instance_id == d@;
            assert(defs@[m].instance_id@ == d@);
        }
    }
    None
}

proof fn lemma_least_unique(defs: Seq<InstanceView>, deps: Seq<Seq<char>>, d: Seq<char>)
    requires
        is_least_unknown(defs, deps, d),
    ensures
        least_unknown(defs, deps) == Some(d),
{
    let e = choose|e: Seq<char>| is_least_unknown(defs, deps, e);
    let md = choose|m: int| 0 <= m < deps.len() && deps[m] == d;
    let me = choose|m: int| 0 <= m < deps.len() && deps[m] == e;
    assert(!seq_lt(deps[md], e));
    assert(!seq_lt(deps[me], d));
    lemma_seq_lt_total(d, e);
}

/// The smallest dependency of `deps` that names no instance of `defs`.
fn find_unknown(defs: &Vec<PhysicalWorkInstance>, deps: &Vec<String>) -> (r: Option<String>)
    ensures
        r matches Some(d) ==> least_unknown(insts_view(defs@), strings_view(deps@)) == Some(d@),
        r is None ==> forall|m: int| 0 <= m < deps@.len() ==> names_instance(
            insts_view(defs@),
            #[trigger] strings_view(deps@)[m],
        ),
{
    let ghost dv = insts_view(defs@);
    let ghost ds = strings_view(deps@);
    let mut best: Option<String> = None;
    let mut k: usize = 0;
    while k < deps.len()
        invariant
            k <= deps@.len(),
            dv == insts_view(defs@),
            ds == strings_view(deps@),
            best is None ==> forall|m: int| 0 <= m < k ==> names_instance(dv, #[trigger] ds[m]),
            best matches Some(b) ==> is_least_unknown(dv, ds.take(k as int), b@),
        decreases deps@.len() - k,
    {
        let ghost tk = ds.take(k as int);
        let ghost tk1 = ds.take(k + 1);
        proof {
            assert(tk1 =~= tk.push(ds[k as int]));
        }
        match position_of(defs, &deps[k]) {
            None => {
                let take = match &best {
                    None => true,
                    Some(b) => str_lt(deps[k].as_str(), b.as_str()),
                };
                if take {
                    proof {
                        assert(tk1[k as int] == ds[k as int]);
                        assert forall|m: int| 0 <= m < tk1.len() && !names_instance(dv, #[trigger] tk1[m])
                            implies !seq_lt(tk1[m], ds[k as int]) by {
                            if m < k {
                                assert(tk1[m] == tk[m]);
                                let b = best->0;
                                assert(!seq_lt(tk[m], b@));
                                lemma_seq_lt_total(tk[m], b@);
                                if seq_lt(tk[m], ds[k as int]) {
                                    lemma_seq_lt_transitive(tk[m], ds[k as int], b@);
                                }
                            } else {
                                lemma_seq_lt_irreflexive(ds[k as int]);
                            }
                        }
                    }
                    best = Some(deps[k].clone());
                } else {
                    proof {
                        let b = best->0;
                        let q = choose|q: int| 0 <= q < tk.len() && tk[q] == b@;
                        assert(tk1[q] == b@);
                        assert forall|m: int| 0 <= m < tk1.len() && !names_instance(dv, #[trigger] tk1[m])
                            implies !seq_lt(tk1[m], b@) by {
                            if m < k {
                                assert(tk1[m] == tk[m]);
                            } else {
                                assert(tk1[m] == ds[k as int]);
                            }
                        }
                    }
                }
            },
            Some(j) => {
                proof {
                    assert(dv[j as int].instance_id == ds[k as int]);
                    if best is Some {
                        let b = best->0;
                        let q = choose|q: int| 0 <= q < tk.len() && tk[q] == b@;
                        assert(tk1[q] == b@);
                        assert forall|m: int| 0 <= m < tk1.len() && !names_instance(dv, #[trigger] tk1[m])
                            implies !seq_lt(tk1[m], b@) by {
                            if m < k {
                                assert(tk1[m] == tk[m]);
                            } else {
                                assert(tk1[m] == ds[k as int]);
                            }
                        }
                    }
                }
            },
        }
        k = k + 1;
    }
    proof {
        assert(ds.take(k as int) =~= ds);
        if best is Some {
            lemma_least_unique(dv, ds, best->0@);
        }
    }
    best
}

/// The ascending positions that instance `i` consumes.
fn producers_of(defs: &Vec<PhysicalWorkInstance>, i: usize) -> (r: Vec<usize>)
    requires
        i < defs@.len(),
    ensures
        strictly_increasing(indices_view(r@)),
        forall|k: int| 0 <= k < r@.len() ==> #[trigger] r@[k] < defs@.len(),
        forall|j: int| 0 <= j < defs@.len() ==> (indices_view(r@).contains(j) <==> dep_rel(
            insts_view(defs@),
            i as int,
            j,
        )),
{
    let ghost dv = insts_view(defs@);
    let mut out: Vec<usize> = Vec::new();
    let mut j: usize = 0;
    while j < defs.len()
        invariant
            j <= defs@.len(),
            i < defs@.len(),
            dv == insts_view(defs@),
            strictly_increasing(indices_view(out@)),
            forall|k: int| 0 <= k < out@.len() ==> #[trigger] out@[k] < j,
            forall|m: int| 0 <= m < defs@.len() ==> (indices_view(out@).contains(m) <==> (m < j && dep_rel(
                dv,
                i as int,
                m,
            ))),
        decreases defs@.len() - j,
    {
        let yes = names_contain(&defs[i].dependencies, &defs[j].instance_id);
        proof {
            assert(dv[i as int].dependencies == strings_view(defs@[i as int].dependencies@));
            assert(dv[j as int].instance_id == defs@[j as int].instance_id@);
        }
        let ghost before = out@;
        if yes {
            out.push(j);
            proof {
                assert(indices_view(out@) =~= indices_view(before).push(j as int));
                assert forall|m: int| 0 <= m < defs@.len() implies (indices_view(out@).contains(m) <==> (m < j
                    + 1 && dep_rel(dv, i as int, m))) by {
                    if indices_view(out@).contains(m) && m != j {
                        let q = choose|q: int| 0 <= q < indices_view(out@).len() && indices_view(out@)[q] == m;
                        assert(q < before.len());
                        assert(indices_view(before)[q] == m);
                    }
                    if m < j && dep_rel(dv, i as int, m) {
                        let q = choose|q: int| 0 <= q < indices_view(before).len() && indices_view(before)[q] == m;
                        assert(indices_view(out@)[q] == m);
                    }
                    if m == j {
                        assert(indices_view(out@)[before.len() as int] == m);
                    }
                }
            }
        } else {
            proof {
                assert forall|m: int| 0 <= m < defs@.len() implies (indices_view(out@).contains(m) <==> (m < j
                    + 1 && dep_rel(dv, i as int, m))) by {
                    if indices_view(out@).contains(m) {
                        let q = choose|q: int| 0 <= q < indices_view(out@).len() && indices_view(out@)[q] == m;
                        assert(out@[q] < j);
                    }
                }
            }
        }
        j = j + 1;
    }
    out
}

/// Resolves, in ascending position order, every instance's dependencies to
/// the positions they name; the first instance with a name that names no
/// instance is refused, with its first such name.
pub fn resolve_producers(defs: &Vec<PhysicalWorkInstance>) -> (r: Result<Vec<Vec<usize>>, SchedulerContractError>)
    ensures
        r matches Ok(g) ==> {
            &&& graph_of(insts_view(defs@), graph_view(g@))
            &&& forall|i: int| 0 <= i < defs@.len() ==> !#[trigger] has_unknown(insts_view(defs@), i)
        },
        r matches Err(e) ==> exists|i: int| {
            &&& 0 <= i < defs@.len()
            &&& #[trigger] has_unknown(insts_view(defs@), i)
            &&& forall|b: int| 0 <= b < i ==> !#[trigger] has_unknown(insts_view(defs@), b)
            &&& e@ == SchedulerErrorView::UnknownDependency {
                instance_id: insts_view(defs@)[i].instance_id,
                dependency: least_unknown(insts_view(defs@), insts_view(defs@)[i].dependencies)->0,
            }
        },
{
    let ghost dv = insts_view(defs@);
    let mut g: Vec<Vec<usize>> = Vec::new();
    let mut i: usize = 0;
    while i < defs.len()
        invariant
            i <= defs@.len(),
            dv == insts_view(defs@),
            g@.len() == i,
            forall|b: int| 0 <= b < i ==> !#[trigger] has_unknown(dv, b),
            forall|b: int| #![trigger g@[b]] 0 <= b < i ==> {
                &&& strictly_increasing(indices_view(g@[b]@))
                &&& forall|k: int| 0 <= k < g@[b]@.len() ==> #[trigger] g@[b]@[k] < defs@.len()
                &&& forall|j: int| 0 <= j < defs@.len() ==> (indices_view(g@[b]@).contains(j) <==> dep_rel(dv, b, j))
            },
        decreases defs@.len() - i,
    {
        proof {
            assert(dv[i as int].dependencies == strings_view(defs@[i as int].dependencies@));
            assert(dv[i as int].instance_id == defs@[i as int].instance_id@);
        }
        match find_unknown(defs, &defs[i].dependencies) {
            Some(d) => {
                proof {
                    let ld = least_unknown(dv, dv[i as int].dependencies)->0;
                    assert(is_least_unknown(dv, dv[i as int].dependencies, ld));
                    let m = choose|m: int| 0 <= m < dv[i as int].dependencies.len() && dv[i as int].dependencies[m] == ld;
                    assert(has_unknown(dv, i as int));
                }
                return Err(
                    SchedulerContractError::UnknownDependency {
                        instance_id: defs[i].instance_id.clone(),
                        dependency: d,
                    },
                );
            },
            None => {
                proof {
                    assert forall|m: int| 0 <= m < dv[i as int].dependencies.len() implies names_instance(dv, #[trigger] dv[i as int].dependencies[m]) by {
                        assert(dv[i as int].dependencies[m] == strings_view(defs@[i as int].dependencies@)[m]);
                    }
                }
            },
        }
        let list = producers_of(defs, i);
        g.push(list);
        i = i + 1;
    }
    proof {
        let gv = graph_view(g@);
        assert forall|b: int| #![trigger gv[b]] 0 <= b < gv.len() implies {
            &&& strictly_increasing(gv[b])
            &&& forall|k: int| 0 <= k < gv[b].len() ==> 0 <= #[trigger] gv[b][k] < dv.len()
            &&& forall|j: int| 0 <= j < dv.len() ==> (gv[b].contains(j) <==> dep_rel(dv, b, j))
        } by {
            assert(gv[b] == indices_view(g@[b]@));
            assert forall|k: int| 0 <= k < gv[b].len() implies 0 <= #[trigger] gv[b][k] < dv.len() by {
                assert(g@[b]@[k] < defs@.len());
            }
        }
    }
    Ok(g)
}

/// Whether position `x` is in the index list `l`.
pub fn index_listed(l: &Vec<usize>, x: usize) -> (r: bool)
    ensures
        r == indices_view(l@).contains(x as int),
{
    let mut k: usize = 0;
    while k < l.len()
        invariant
            k <= l@.len(),
            forall|m: int| 0 <= m < k ==> #[trigger] l@[m] != x,
        decreases l@.len() - k,
    {
        if l[k] == x {
            proof {
                assert(indices_view(l@)[k as int] == x as int);
            }
            return true;
        }
        k = k + 1;
    }
    proof {
        if indices_view(l@).contains(x as int) {
            let m = choose|m: int| 0 <= m < indices_view(l@).len() && indices_view(l@)[m] == x as int;
            assert(l@[m] == x);
        }
    }
    false
}

/// The transpose of the producer lists: for every position, its consumers
/// in ascending order.
pub fn consumer_lists(g: &Vec<Vec<usize>>, Ghost(defs): Ghost<Seq<InstanceView>>) -> (r: Vec<Vec<usize>>)
    requires
        graph_of(defs, graph_view(g@)),
    ensures
        consumers_of(defs, graph_view(r@)),
{
    let ghost gv = graph_view(g@);
    let n = g.len();
    let mut out: Vec<Vec<usize>> = Vec::new();
    let mut p: usize = 0;
    while p < n
        invariant
            n == g@.len(),
            gv == graph_view(g@),
            graph_of(defs, gv),
            p <= n,
            out@.len() == p,
            forall|b: int| #![trigger out@[b]] 0 <= b < p ==> {
                &&& strictly_increasing(indices_view(out@[b]@))
                &&& forall|k: int| 0 <= k < out@[b]@.len() ==> #[trigger] out@[b]@[k] < n
                &&& forall|j: int| 0 <= j < n ==> (indices_view(out@[b]@).contains(j) <==> dep_rel(defs, j, b))
            },
        decreases n - p,
    {
        let mut list: Vec<usize> = Vec::new();
        let mut c: usize = 0;
        while c < n
            invariant
                n == g@.len(),
                gv == graph_view(g@),
                graph_of(defs, gv),
                p < n,
                c <= n,
                strictly_increasing(indices_view(list@)),
                forall|k: int| 0 <= k < list@.len() ==> #[trigger] list@[k] < c,
                forall|m: int| 0 <= m < n ==> (indices_view(list@).contains(m) <==> (m < c && dep_rel(
                    defs,
                    m,
                    p as int,
                ))),
            decreases n - c,
        {
            let yes = index_listed(&g[c], p);
            proof {
                assert(gv[c as int] == indices_view(g@[c as int]@));
            }
            let ghost before = list@;
            if yes {
                list.push(c);
                proof {
                    assert(indices_view(list@) =~= indices_view(before).push(c as int));
                    assert forall|m: int| 0 <= m < n implies (indices_view(list@).contains(m) <==> (m < c + 1
                        && dep_rel(defs, m, p as int))) by {
                        if indices_view(list@).contains(m) && m != c {
                            let q = choose|q: int| 0 <= q < indices_view(list@).len() && indices_view(list@)[q] == m;
                            assert(indices_view(before)[q] == m);
                        }
                        if m < c && dep_rel(defs, m, p as int) {
                            let q = choose|q: int| 0 <= q < indices_view(before).len() && indices_view(before)[q] == m;
                            assert(indices_view(list@)[q] == m);
                        }
                        if m == c {
                            assert(indices_view(list@)[before.len() as int] == m);
                        }
                    }
                }
            } else {
                proof {
                    assert forall|m: int| 0 <= m < n implies (indices_view(list@).contains(m) <==> (m < c + 1
                        && dep_rel(defs, m, p as int))) by {
                        if indices_view(list@).contains(m) {
                            let q = choose|q: int| 0 <= q < indices_view(list@).len() && indices_view(list@)[q] == m;
                            assert(list@[q] < c);
                        }
                    }
                }
            }
            c = c + 1;
        }
        out.push(list);
        proof {
            assert(out@[p as int] == list);
        }
        p = p + 1;
    }
    proof {
        let rv = graph_view(out@);
        assert forall|b: int| #![trigger rv[b]] 0 <= b < rv.len() implies {
            &&& strictly_increasing(rv[b])
            &&& forall|k: int| 0 <= k < rv[b].len() ==> 0 <= #[trigger] rv[b][k] < defs.len()
            &&& forall|j: int| 0 <= j < defs.len() ==> (rv[b].contains(j) <==> dep_rel(defs, j, b))
        } by {
            assert(rv[b] == indices_view(out@[b]@));
            assert forall|k: int| 0 <= k < rv[b].len() implies 0 <= #[trigger] rv[b][k] < defs.len() by {
                assert(out@[b]@[k] < n);
            }
        }
    }
    out
}

/// How many entries of `s` are false.
pub open spec fn count_false(s: Seq<bool>) -> nat
    decreases s.len(),
{
    if s.len() == 0 {
        0
    } else {
        count_false(s.drop_last()) + if s.last() { 0nat } else { 1nat }
    }
}

proof fn lemma_count_false_set(s: Seq<bool>, i: int)
    requires
        0 <= i < s.len(),
        !s[i],
    ensures
        count_false(s.update(i, true)) + 1 == count_false(s),
    decreases s.len(),
{
    let t = s.update(i, true);
    if i < s.len() - 1 {
        assert(t.drop_last() =~= s.drop_last().update(i, true));
        lemma_count_false_set(s.drop_last(), i);
    } else {
        assert(t.drop_last() =~= s.drop_last());
    }
}

/// Every position `g` lists is in range.
pub open spec fn edges_in_range(g: Seq<Seq<int>>) -> bool {
    forall|i: int, k: int| 0 <= i < g.len() && 0 <= k < g[i].len() ==> 0 <= #[trigger] g[i][k] < g.len()
}

/// Where every not-done position waits on a not-done producer, no rank
/// can exist: following such producers would descend forever.
proof fn lemma_stuck_has_no_rank(g: Seq<Seq<int>>, done: Seq<bool>, rk: spec_fn(int) -> nat, i: int)
    requires
        edges_in_range(g),
        done.len() == g.len(),
        0 <= i < g.len(),
        !done[i],
        forall|j: int| 0 <= j < g.len() && !#[trigger] done[j] ==> exists|k: int| 0 <= k < g[j].len() && !done[g[j][k]],
    ensures
        !index_rank_ok(g, rk),
    decreases rk(i),
{
    if index_rank_ok(g, rk) {
        let k = choose|k: int| 0 <= k < g[i].len() && !done[g[i][k]];
        let j = g[i][k];
        assert(rk(j) < rk(i));
        lemma_stuck_has_no_rank(g, done, rk, j);
    }
}

/// Whether every position of `l` is done.
fn all_done(l: &Vec<usize>, done: &Vec<bool>) -> (r: bool)
    requires
        forall|k: int| 0 <= k < l@.len() ==> #[trigger] l@[k] < done@.len(),
    ensures
        r <==> forall|k: int| 0 <= k < l@.len() ==> done@[#[trigger] l@[k] as int],
{
    let mut k: usize = 0;
    while k < l.len()
        invariant
            k <= l@.len(),
            forall|m: int| 0 <= m < l@.len() ==> #[trigger] l@[m] < done@.len(),
            forall|m: int| 0 <= m < k ==> done@[#[trigger] l@[m] as int],
        decreases l@.len() - k,
    {
        if !done[l[k]] {
            return false;
        }
        k = k + 1;
    }
    true
}

/// Whether the producer lists `g` are free of cycles: positions are
/// completed, pass after pass, once all their producers are; the graph is
/// acyclic exactly when every position gets completed.
pub fn is_acyclic(g: &Vec<Vec<usize>>) -> (r: bool)
    requires
        edges_in_range(graph_view(g@)),
    ensures
        r <==> exists|rk: spec_fn(int) -> nat| index_rank_ok(graph_view(g@), rk),
{
    let ghost gv = graph_view(g@);
    let n = g.len();
    let mut done: Vec<bool> = Vec::new();
    let mut f: usize = 0;
    while f < n
        invariant
            f <= n,
            done@.len() == f,
            forall|j: int| 0 <= j < f ==> !#[trigger] done@[j],
        decreases n - f,
    {
        done.push(false);
        f = f + 1;
    }
    let ghost mut rank: Seq<nat> = Seq::new(n as nat, |j: int| 0nat);
    let ghost mut next: nat = 0;
    let mut progress = true;
    while progress
        invariant
            n == g@.len(),
            gv == graph_view(g@),
            edges_in_range(gv),
            done@.len() == n,
            rank.len() == n,
            forall|j: int| 0 <= j < n && #[trigger] done@[j] ==> rank[j] < next,
            forall|j: int, k: int| 0 <= j < n && done@[j] && 0 <= k < gv[j].len() ==> done@[#[trigger] gv[j][k]]
                && rank[gv[j][k]] < rank[j],
            !progress ==> forall|j: int| 0 <= j < n && !#[trigger] done@[j] ==> exists|k: int|
                0 <= k < gv[j].len() && !done@[gv[j][k]],
        decreases count_false(done@) + if progress { 1int } else { 0int },
    {
        progress = false;
        let ghost start = count_false(done@);
        let mut i: usize = 0;
        while i < n
            invariant
                n == g@.len(),
                gv == graph_view(g@),
                edges_in_range(gv),
                done@.len() == n,
                rank.len() == n,
                i <= n,
                count_false(done@) <= start,
                progress ==> count_false(done@) < start,
                forall|j: int| 0 <= j < n && #[trigger] done@[j] ==> rank[j] < next,
                forall|j: int, k: int| 0 <= j < n && done@[j] && 0 <= k < gv[j].len() ==> done@[#[trigger] gv[j][k]]
                    && rank[gv[j][k]] < rank[j],
                !progress ==> forall|j: int| 0 <= j < i && !#[trigger] done@[j] ==> exists|k: int|
                    0 <= k < gv[j].len() && !done@[gv[j][k]],
            decreases n - i,
        {
            if !done[i] {
                proof {
                    assert(gv[i as int] == indices_view(g@[i as int]@));
                    assert forall|k: int| 0 <= k < g@[i as int]@.len() implies #[trigger] g@[i as int]@[k] < done@.len() by {
                        assert(gv[i as int][k] == g@[i as int]@[k]);
                    }
                }
                let ready = all_done(&g[i], &done);
                if ready {
                    proof {
                        lemma_count_false_set(done@, i as int);
                        assert forall|k: int| 0 <= k < gv[i as int].len() implies done@[#[trigger] gv[i as int][k]] by {
                            assert(gv[i as int][k] == g@[i as int]@[k]);
                        }
                        rank = rank.update(i as int, next);
                        next = next + 1;
                    }
                    done.set(i, true);
                    progress = true;
                } else {
                    proof {
                        let k = choose|k: int| 0 <= k < g@[i as int]@.len() && !done@[g@[i as int]@[k] as int];
                        assert(gv[i as int][k] == g@[i as int]@[k]);
                    }
                }
            }
            i = i + 1;
        }
    }
    let mut all = true;
    let mut j: usize = 0;
    while j < n
        invariant
            j <= n,
            done@.len() == n,
            all <==> forall|m: int| 0 <= m < j ==> #[trigger] done@[m],
        decreases n - j,
    {
        if !done[j] {
            all = false;
        }
        j = j + 1;
    }
    proof {
        if all {
            let rk = |x: int| if 0 <= x < n { rank[x] } else { 0nat };
            assert forall|a: int, k: int| 0 <= a < gv.len() && 0 <= k < gv[a].len() implies rk(#[trigger] gv[a][k]) < rk(a) by {
                assert(done@[a]);
            }
            assert(index_rank_ok(gv, rk));
        } else {
            let m = choose|m: int| 0 <= m < n && !done@[m];
            if exists|rk: spec_fn(int) -> nat| index_rank_ok(gv, rk) {
                let rk = choose|rk: spec_fn(int) -> nat| index_rank_ok(gv, rk);
                lemma_stuck_has_no_rank(gv, done@, rk, m);
            }
        }
    }
    all
}

// ---------------------------------------------------------------------
// From the ascending positions back to the input instances
// ---------------------------------------------------------------------

proof fn lemma_names_same(defs: Seq<InstanceView>, insts: Seq<InstanceView>, d: Seq<char>)
    requires
        same_instances(defs, insts),
    ensures
        names_instance(defs, d) <==> names_instance(insts, d),
{
    if names_instance(defs, d) {
        let j = choose|j: int| 0 <= j < defs.len() && (#[trigger] defs[j]).instance_id == d;
        lemma_same_def(defs, insts, j);
        let a = choose|a: int| 0 <= a < insts.len() && insts[a] == defs[j];
        assert(insts[a].instance_id == d);
    }
    if names_instance(insts, d) {
        let a = choose|a: int| 0 <= a < insts.len() && (#[trigger] insts[a]).instance_id == d;
        lemma_same_inst(defs, insts, a);
        let j = choose|j: int| 0 <= j < defs.len() && defs[j] == insts[a];
        assert(defs[j].instance_id == d);
    }
}

proof fn lemma_unknown_same(defs: Seq<InstanceView>, insts: Seq<InstanceView>, deps: Seq<Seq<char>>)
    requires
        same_instances(defs, insts),
    ensures
        least_unknown(defs, deps) == least_unknown(insts, deps),
        forall|m: int| 0 <= m < deps.len() ==> (names_instance(defs, #[trigger] deps[m]) <==> names_instance(insts, deps[m])),
{
    assert forall|m: int| 0 <= m < deps.len() implies (names_instance(defs, #[trigger] deps[m]) <==> names_instance(insts, deps[m])) by {
        lemma_names_same(defs, insts, deps[m]);
    }
    assert forall|d: Seq<char>| #[trigger] is_least_unknown(defs, deps, d) <==> is_least_unknown(insts, deps, d) by {
        lemma_names_same(defs, insts, d);
    }
    if exists|d: Seq<char>| is_least_unknown(defs, deps, d) {
        let d = choose|d: Seq<char>| is_least_unknown(defs, deps, d);
        lemma_least_unique(defs, deps, d);
        lemma_least_unique(insts, deps, d);
    } else if exists|d: Seq<char>| is_least_unknown(insts, deps, d) {
        let d = choose|d: Seq<char>| is_least_unknown(insts, deps, d);
        assert(is_least_unknown(defs, deps, d));
    }
}

/// In strictly ascending `defs`, a name belongs to one position only.
proof fn lemma_unique_position(defs: Seq<InstanceView>, a: int, b: int)
    requires
        defs_sorted(defs),
        0 <= a < defs.len(),
        0 <= b < defs.len(),
        defs[a].instance_id == defs[b].instance_id,
    ensures
        a == b,
{
    lemma_seq_lt_irreflexive(defs[a].instance_id);
    if a < b {
        assert(seq_lt(defs[a].instance_id, defs[b].instance_id));
    } else if b < a {
        assert(seq_lt(defs[b].instance_id, defs[a].instance_id));
    }
}

/// The instance-level answer of `resolve_producers`, read over the input.
pub proof fn lemma_no_unknown_dependency(defs: Seq<InstanceView>, insts: Seq<InstanceView>)
    requires
        same_instances(defs, insts),
        forall|i: int| 0 <= i < defs.len() ==> !#[trigger] has_unknown(defs, i),
    ensures
        unknown_dependency_error(insts) is None,
        forall|a: int| 0 <= a < insts.len() ==> !#[trigger] has_unknown(insts, a),
{
    assert forall|a: int| 0 <= a < insts.len() implies !#[trigger] has_unknown(insts, a) by {
        lemma_same_inst(defs, insts, a);
        let j = choose|j: int| 0 <= j < defs.len() && defs[j] == insts[a];
        assert(!has_unknown(defs, j));
        lemma_unknown_same(defs, insts, insts[a].dependencies);
    }
}

pub proof fn lemma_unknown_dependency_found(defs: Seq<InstanceView>, insts: Seq<InstanceView>, i: int)
    requires
        defs_sorted(defs),
        same_instances(defs, insts),
        0 <= i < defs.len(),
        has_unknown(defs, i),
        forall|b: int| 0 <= b < i ==> !#[trigger] has_unknown(defs, b),
    ensures
        unknown_dependency_error(insts) == Some(
            SchedulerErrorView::UnknownDependency {
                instance_id: defs[i].instance_id,
                dependency: least_unknown(defs, defs[i].dependencies)->0,
            },
        ),
{
    // Whatever instance of the input sits at a position has the same answer
    // there.
    assert forall|a: int| #![trigger insts[a]] 0 <= a < insts.len() implies exists|j: int|
        0 <= j < defs.len() && defs[j] == insts[a] && (has_unknown(insts, a) <==> #[trigger] has_unknown(defs, j)) by {
        lemma_same_inst(defs, insts, a);
        let j = choose|j: int| 0 <= j < defs.len() && defs[j] == insts[a];
        lemma_unknown_same(defs, insts, insts[a].dependencies);
        assert(has_unknown(insts, a) <==> has_unknown(defs, j));
    }
    lemma_same_def(defs, insts, i);
    let w = choose|a: int| 0 <= a < insts.len() && insts[a] == defs[i];
    lemma_unknown_same(defs, insts, defs[i].dependencies);
    assert(is_first_unknown_holder(insts, w)) by {
        assert forall|b: int| 0 <= b < insts.len() && #[trigger] has_unknown(insts, b)
            implies !seq_lt(insts[b].instance_id, insts[w].instance_id) by {
            let j = choose|j: int| 0 <= j < defs.len() && defs[j] == insts[b] && (has_unknown(insts, b) <==> #[trigger] has_unknown(defs, j));
            if j < i {
            } else if j == i {
                lemma_seq_lt_irreflexive(defs[i].instance_id);
            } else {
                assert(seq_lt(defs[i].instance_id, defs[j].instance_id));
                lemma_seq_lt_asymmetric(defs[i].instance_id, defs[j].instance_id);
            }
        }
    }
    let a = choose|a: int| is_first_unknown_holder(insts, a);
    let j = choose|j: int| 0 <= j < defs.len() && defs[j] == insts[a] && (has_unknown(insts, a) <==> #[trigger] has_unknown(defs, j));
    assert(has_unknown(insts, w));
    assert(!seq_lt(insts[w].instance_id, insts[a].instance_id));
    assert(!seq_lt(insts[a].instance_id, insts[w].instance_id));
    lemma_seq_lt_total(insts[a].instance_id, insts[w].instance_id);
    lemma_unique_position(defs, i, j);
}

proof fn lemma_name_rank_same(defs: Seq<InstanceView>, insts: Seq<InstanceView>, r: spec_fn(Seq<char>) -> nat)
    requires
        same_instances(defs, insts),
    ensures
        name_rank_ok(defs, r) <==> name_rank_ok(insts, r),
{
    if name_rank_ok(defs, r) {
        assert forall|a: int, k: int| 0 <= a < insts.len() && 0 <= k < insts[a].dependencies.len()
            implies r(#[trigger] insts[a].dependencies[k]) < r(insts[a].instance_id) by {
            lemma_same_inst(defs, insts, a);
            let j = choose|j: int| 0 <= j < defs.len() && defs[j] == insts[a];
            assert(r(defs[j].dependencies[k]) < r(defs[j].instance_id));
        }
    }
    if name_rank_ok(insts, r) {
        assert forall|a: int, k: int| 0 <= a < defs.len() && 0 <= k < defs[a].dependencies.len()
            implies r(#[trigger] defs[a].dependencies[k]) < r(defs[a].instance_id) by {
            lemma_same_def(defs, insts, a);
            let j = choose|j: int| 0 <= j < insts.len() && insts[j] == defs[a];
            assert(r(insts[j].dependencies[k]) < r(insts[j].instance_id));
        }
    }
}

/// The index graph has a descending rank exactly when the input's
/// dependency names do.
pub proof fn lemma_acyclic_same(defs: Seq<InstanceView>, insts: Seq<InstanceView>, g: Seq<Seq<int>>)
    requires
        defs_sorted(defs),
        same_instances(defs, insts),
        graph_of(defs, g),
        forall|i: int| 0 <= i < defs.len() ==> !#[trigger] has_unknown(defs, i),
    ensures
        (exists|rk: spec_fn(int) -> nat| index_rank_ok(g, rk)) <==> dependencies_acyclic(insts),
{
    if exists|rk: spec_fn(int) -> nat| index_rank_ok(g, rk) {
        let rk = choose|rk: spec_fn(int) -> nat| index_rank_ok(g, rk);
        let rn = |x: Seq<char>| if names_instance(defs, x) {
            rk(choose|j: int| 0 <= j < defs.len() && (#[trigger] defs[j]).instance_id == x)
        } else {
            0nat
        };
        assert forall|a: int, k: int| 0 <= a < defs.len() && 0 <= k < defs[a].dependencies.len()
            implies rn(#[trigger] defs[a].dependencies[k]) < rn(defs[a].instance_id) by {
            let d = defs[a].dependencies[k];
            assert(!has_unknown(defs, a));
            assert(names_instance(defs, d));
            let j = choose|j: int| 0 <= j < defs.len() && (#[trigger] defs[j]).instance_id == d;
            assert(dep_rel(defs, a, j));
            assert(g[a].contains(j));
            let q = choose|q: int| 0 <= q < g[a].len() && g[a][q] == j;
            assert(rk(g[a][q]) < rk(a));
            assert(names_instance(defs, defs[a].instance_id));
            let ja = choose|j: int| 0 <= j < defs.len() && (#[trigger] defs[j]).instance_id == defs[a].instance_id;
            lemma_unique_position(defs, a, ja);
        }
        assert(name_rank_ok(defs, rn));
        lemma_name_rank_same(defs, insts, rn);
    }
    if dependencies_acyclic(insts) {
        let rn = choose|r: spec_fn(Seq<char>) -> nat| name_rank_ok(insts, r);
        lemma_name_rank_same(defs, insts, rn);
        let rk = |i: int| if 0 <= i < defs.len() { rn(defs[i].instance_id) } else { 0nat };
        assert forall|i: int, k: int| 0 <= i < g.len() && 0 <= k < g[i].len() implies rk(#[trigger] g[i][k]) < rk(i) by {
            let j = g[i][k];
            assert(0 <= j < defs.len());
            assert(g[i].contains(j));
            assert(dep_rel(defs, i, j));
            let m = choose|m: int| 0 <= m < defs[i].dependencies.len() && defs[i].dependencies[m] == defs[j].instance_id;
            assert(rn(defs[i].dependencies[m]) < rn(defs[i].instance_id));
        }
        assert(index_rank_ok(g, rk));
    }
}

} // verus!
