//! Cycle detection on the call graph of a program's functions.
use vstd::prelude::*;
use crate::ir::Diagnostic;
use crate::text::owned;

verus! {

/// Every edge of `adj` points at one of its nodes.
pub open spec fn edges_in_range(adj: Seq<Seq<usize>>) -> bool {
    forall|i: int, k: int| 0 <= i < adj.len() && 0 <= k < adj[i].len() ==> (#[trigger] adj[i][k]) < adj.len()
}

/// `rank` strictly decreases along every edge of `adj`.
pub open spec fn ranks(adj: Seq<Seq<usize>>, rank: Seq<nat>) -> bool {
    &&& rank.len() == adj.len()
    &&& forall|i: int, k: int| 0 <= i < adj.len() && 0 <= k < adj[i].len()
        ==> #[trigger] rank[adj[i][k] as int] < rank[i]
}

/// The graph has no cycle: some rank decreases along all of its edges.
pub open spec fn acyclic(adj: Seq<Seq<usize>>) -> bool {
    exists|rank: Seq<nat>| ranks(adj, rank)
}

/// Node `i` of `adj` has a successor that is still in the graph (`!removed`).
pub open spec fn has_live_successor(adj: Seq<Seq<usize>>, removed: Seq<bool>, i: int) -> bool {
    exists|k: int| 0 <= k < adj[i].len() && !removed[adj[i][k] as int]
}

/// Among the live nodes below `n`, one has the least rank.
proof fn least_live(adj: Seq<Seq<usize>>, removed: Seq<bool>, rank: Seq<nat>, n: int, w: int) -> (m: int)
    requires
        0 <= w < n <= removed.len(),
        !removed[w],
    ensures
        0 <= m < n,
        !removed[m],
        forall|j: int| 0 <= j < n && !removed[j] ==> rank[m] <= rank[j],
    decreases n,
{
    if n == w + 1 {
        if exists|j: int| 0 <= j < w && !removed[j] {
            let j0 = choose|j: int| 0 <= j < w && !removed[j];
            let m0 = least_live(adj, removed, rank, w, j0);
            if rank[m0] <= rank[w] { m0 } else { w }
        } else {
            w
        }
    } else {
        let m0 = least_live(adj, removed, rank, n - 1, w);
        if removed[n - 1] || rank[m0] <= rank[n - 1] { m0 } else { n - 1 }
    }
}

/// A non-empty set of live nodes that each lead to a live node rules out any rank.
proof fn live_cycle_blocks_rank(adj: Seq<Seq<usize>>, removed: Seq<bool>, w: int)
    requires
        edges_in_range(adj),
        removed.len() == adj.len(),
        0 <= w < adj.len(),
        !removed[w],
        forall|i: int| 0 <= i < adj.len() && !removed[i] ==> has_live_successor(adj, removed, i),
    ensures
        !acyclic(adj),
{
    if acyclic(adj) {
        let rank = choose|rank: Seq<nat>| ranks(adj, rank);
        let m = least_live(adj, removed, rank, adj.len() as int, w);
        assert(has_live_successor(adj, removed, m));
        let k = choose|k: int| 0 <= k < adj[m].len() && !removed[adj[m][k] as int];
        assert(adj[m][k] < adj.len());
        assert(rank[adj[m][k] as int] < rank[m]);
    }
}

/// Whether every successor of `i` has been removed.
fn successors_removed(adj: &Vec<Vec<usize>>, removed: &Vec<bool>, i: usize) -> (r: bool)
    requires
        i < adj@.len(),
        removed@.len() == adj@.len(),
        edges_in_range(adj@.map_values(|v: Vec<usize>| v@)),
    ensures
        r == !has_live_successor(adj@.map_values(|v: Vec<usize>| v@), removed@, i as int),
{
    let ghost g = adj@.map_values(|v: Vec<usize>| v@);
    let row = &adj[i];
    assert(row@ == g[i as int]);
    let mut k: usize = 0;
    while k < row.len()
        invariant
            g == adj@.map_values(|v: Vec<usize>| v@),
            row@ == g[i as int],
            i < g.len(),
            removed@.len() == g.len(),
            edges_in_range(g),
            k <= row@.len(),
            forall|j: int| 0 <= j < k ==> removed@[#[trigger] g[i as int][j] as int],
        decreases row@.len() - k,
    {
        assert(g[i as int][k as int] < g.len());
        if !removed[row[k]] {
            assert(0 <= k < g[i as int].len() && !removed@[g[i as int][k as int] as int]);
            return false;
        }
        k = k + 1;
    }
    proof {
        if has_live_successor(g, removed@, i as int) {
            let j = choose|j: int| 0 <= j < g[i as int].len() && !removed@[g[i as int][j] as int];
            assert(removed@[g[i as int][j] as int]);
        }
    }
    true
}

/// Reports a cycle in the graph `adj`: `AIC1119` exactly when some node lies on one.
pub fn cycles(adj: &Vec<Vec<usize>>) -> (r: Result<(), Diagnostic>)
    requires
        edges_in_range(adj@.map_values(|v: Vec<usize>| v@)),
    ensures
        r is Ok <==> acyclic(adj@.map_values(|v: Vec<usize>| v@)),
        r matches Err(d) ==> d.code == "AIC1119" && d.location is None,
{
    let ghost g = adj@.map_values(|v: Vec<usize>| v@);
    let n = adj.len();
    let mut removed: Vec<bool> = Vec::new();
    let mut j: usize = 0;
    while j < n
        invariant
            j <= n,
            removed@.len() == j,
            forall|t: int| 0 <= t < j ==> !removed@[t],
        decreases n - j,
    {
        removed.push(false);
        j = j + 1;
    }
    let ghost mut rank: Seq<nat> = Seq::new(n as nat, |t: int| 0nat);
    proof {
        lemma_count_true_none(removed@);
    }
    let mut done: usize = 0;
    while done < n
        invariant
            g == adj@.map_values(|v: Vec<usize>| v@),
            n == g.len(),
            edges_in_range(g),
            removed@.len() == n,
            rank.len() == n,
            done <= n,
            forall|t: int| 0 <= t < n && removed@[t] ==> rank[t] < done,
            forall|t: int| 0 <= t < n && removed@[t] ==> !has_live_successor(g, removed@, t),
            forall|t: int, k: int| 0 <= t < n && removed@[t] && 0 <= k < g[t].len()
                ==> #[trigger] rank[g[t][k] as int] < rank[t],
            done == count_true(removed@),
        decreases n - done,
    {
        let mut i: usize = 0;
        let mut found: bool = false;
        while i < n && !found
            invariant
                g == adj@.map_values(|v: Vec<usize>| v@),
                n == g.len(),
                edges_in_range(g),
                removed@.len() == n,
                i <= n,
                found ==> i < n && !removed@[i as int] && !has_live_successor(g, removed@, i as int),
                !found ==> forall|t: int| 0 <= t < i && !removed@[t] ==> has_live_successor(g, removed@, t),
            decreases n - i + (if found { 0int } else { 1 }),
        {
            if !removed[i] && successors_removed(adj, &removed, i) {
                found = true;
            } else {
                i = i + 1;
            }
        }
        if !found {
            proof {
                if exists|t: int| 0 <= t < n && !removed@[t] {
                    let w = choose|t: int| 0 <= t < n && !removed@[t];
                    live_cycle_blocks_rank(g, removed@, w);
                } else {
                    lemma_count_true_full(removed@);
                }
            }
            return Err(Diagnostic::global("AIC1119", owned("recursive or cyclic calls are unsupported")));
        }
        let ghost old_removed = removed@;
        proof {
            assert forall|k: int| 0 <= k < g[i as int].len() implies removed@[#[trigger] g[i as int][k] as int] by {
                if !removed@[g[i as int][k] as int] {
                    assert(has_live_successor(g, removed@, i as int));
                }
            }
            rank = rank.update(i as int, done as nat);
        }
        removed.set(i, true);
        proof {
            assert(removed@ == old_removed.update(i as int, true));
            lemma_count_true_update(old_removed, i as int);
            assert forall|t: int| 0 <= t < n && removed@[t] implies !has_live_successor(g, removed@, t) by {
                if has_live_successor(g, removed@, t) {
                    let k = choose|k: int| 0 <= k < g[t].len() && !removed@[g[t][k] as int];
                    assert(!old_removed[g[t][k] as int]);
                    if t != i {
                        assert(old_removed[t]);
                        assert(has_live_successor(g, old_removed, t));
                    } else {
                        assert(old_removed[g[i as int][k] as int]);
                    }
                }
            }
        }
        done = done + 1;
    }
    proof {
        assert(ranks(g, rank)) by {
            assert forall|t: int, k: int| 0 <= t < g.len() && 0 <= k < g[t].len()
                implies #[trigger] rank[g[t][k] as int] < rank[t] by {
                if !removed@[t] {
                    lemma_all_removed(removed@, done as int);
                }
            }
        }
    }
    Ok(())
}

/// Number of `true` entries.
pub open spec fn count_true(s: Seq<bool>) -> nat
    decreases s.len(),
{
    if s.len() == 0 {
        0
    } else {
        count_true(s.drop_last()) + if s.last() { 1nat } else { 0nat }
    }
}

pub proof fn lemma_count_true_none(s: Seq<bool>)
    requires
        forall|t: int| 0 <= t < s.len() ==> !s[t],
    ensures
        count_true(s) == 0,
    decreases s.len(),
{
    if s.len() > 0 {
        lemma_count_true_none(s.drop_last());
    }
}

proof fn lemma_count_true_full(s: Seq<bool>)
    requires
        forall|t: int| 0 <= t < s.len() ==> s[t],
    ensures
        count_true(s) == s.len(),
    decreases s.len(),
{
    if s.len() > 0 {
        lemma_count_true_full(s.drop_last());
    }
}

pub proof fn lemma_count_true_bound(s: Seq<bool>)
    ensures
        count_true(s) <= s.len(),
        (exists|t: int| 0 <= t < s.len() && !s[t]) ==> count_true(s) < s.len(),
    decreases s.len(),
{
    if s.len() > 0 {
        lemma_count_true_bound(s.drop_last());
        if exists|t: int| 0 <= t < s.len() && !s[t] {
            let t = choose|t: int| 0 <= t < s.len() && !s[t];
            if t < s.len() - 1 {
                assert(!s.drop_last()[t]);
            }
        }
    }
}

pub proof fn lemma_count_true_update(s: Seq<bool>, i: int)
    requires
        0 <= i < s.len(),
        !s[i],
    ensures
        count_true(s.update(i, true)) == count_true(s) + 1,
    decreases s.len(),
{
    if i < s.len() - 1 {
        assert(s.update(i, true).drop_last() =~= s.drop_last().update(i, true));
        lemma_count_true_update(s.drop_last(), i);
    } else {
        assert(s.update(i, true).drop_last() =~= s.drop_last());
    }
}

/// When as many nodes are removed as there are, every node is removed.
proof fn lemma_all_removed(removed: Seq<bool>, done: int)
    requires
        done == removed.len(),
        done == count_true(removed),
    ensures
        forall|t: int| 0 <= t < removed.len() ==> removed[t],
{
    lemma_count_true_bound(removed);
}

} // verus!
