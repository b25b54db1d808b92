use vstd::prelude::*;

use crate::graph::{degree, degree_of, graph_edges, graph_nodes, graph_wf, person_count, reachable, reached_from};
use crate::sir_model::SIRModel;

verus! {

/// Number of nodes `s` below `m`, other than `t`, from which `t` can be
/// reached.
pub open spec fn sources_reaching(es: Seq<(usize, usize)>, t: int, m: int) -> nat
    decreases m,
{
    if m <= 0 {
        0
    } else {
        sources_reaching(es, t, m - 1) + if m - 1 != t && reachable(es, m - 1, t) {
            1nat
        } else {
            0nat
        }
    }
}

/// The divisor of the reachability counts: the number of pairs of the other
/// nodes when there are more than two nodes, and one otherwise.
pub open spec fn normalization(n: nat) -> nat {
    if n <= 2 {
        1
    } else {
        ((n - 1) * (n - 2) / 2) as nat
    }
}

proof fn lemma_sources_bound(es: Seq<(usize, usize)>, t: int, m: int)
    requires
        m >= 0,
    ensures
        sources_reaching(es, t, m) <= m,
    decreases m,
{
    if m > 0 {
        lemma_sources_bound(es, t, m - 1);
    }
}

/// The reachability score of every node, as a fraction: node `v` scores
/// `counts[v] / normalization`.
pub struct Betweenness {
    pub counts: Vec<usize>,
    pub normalization: u64,
}

impl SIRModel {
    /// The degree of every node, by node index.
    pub fn calculate_degree_centrality(&self) -> (r: Vec<usize>)
        ensures
            r@.len() == graph_nodes(self.graph).len(),
            forall|v: int| 0 <= v < r@.len() ==> #[trigger] r@[v] == degree(graph_edges(self.graph), v),
    {
        let n = person_count(&self.graph);
        let mut r: Vec<usize> = Vec::new();
        let mut v: usize = 0;
        while v < n
            invariant
                v <= n,
                n == graph_nodes(self.graph).len(),
                r@.len() == v,
                forall|u: int| 0 <= u < v ==> #[trigger] r@[u] == degree(graph_edges(self.graph), u),
            decreases n - v,
        {
            r.push(degree_of(&self.graph, v));
            v = v + 1;
        }
        r
    }

    /// For every node, how many other nodes reach it along the edges
    /// (each source's shortest-path search counts the nodes it finds),
    /// together with the divisor that normalizes those counts.
    pub fn calculate_betweenness_centrality(&self) -> (r: Betweenness)
        requires
            graph_wf(self.graph),
            graph_nodes(self.graph).len() <= 10_000_000,
        ensures
            r.counts@.len() == graph_nodes(self.graph).len(),
            forall|t: int|
                0 <= t < r.counts@.len() ==> #[trigger] r.counts@[t] == sources_reaching(
                    graph_edges(self.graph),
                    t,
                    graph_nodes(self.graph).len() as int,
                ),
            r.normalization == normalization(graph_nodes(self.graph).len()),
    {
        let n = person_count(&self.graph);
        let ghost es = graph_edges(self.graph);
        let mut counts: Vec<usize> = Vec::new();
        let mut v: usize = 0;
        while v < n
            invariant
                v <= n,
                counts@.len() == v,
                forall|t: int| 0 <= t < v ==> #[trigger] counts@[t] == 0,
            decreases n - v,
        {
            counts.push(0);
            v = v + 1;
        }
        let mut s: usize = 0;
        while s < n
            invariant
                s <= n,
                n == graph_nodes(self.graph).len(),
                n <= 10_000_000,
                graph_wf(self.graph),
                es == graph_edges(self.graph),
                counts@.len() == n,
                forall|t: int| 0 <= t < n ==> #[trigger] counts@[t] == sources_reaching(es, t, s as int),
            decreases n - s,
        {
            let found = reached_from(&self.graph, s);
            let ghost base = counts@;
            let mut k: usize = 0;
            while k < found.len()
                invariant
                    k <= found@.len(),
                    s < n,
                    counts@.len() == n,
                    found@.no_duplicates(),
                    forall|i: int| 0 <= i < found@.len() ==> #[trigger] found@[i] < n,
                    forall|t: int| 0 <= t < n ==> #[trigger] base[t] == sources_reaching(es, t, s as int),
                    forall|t: int|
                        0 <= t < n ==> #[trigger] counts@[t] == base[t] + if t != s && found@.take(k as int).contains(
                            t as usize,
                        ) {
                            1int
                        } else {
                            0int
                        },
                decreases found@.len() - k,
            {
                let x = found[k];
                proof {
                    assert(found@.take(k as int + 1) =~= found@.take(k as int).push(x));
                    assert(!found@.take(k as int).contains(x)) by {
                        if found@.take(k as int).contains(x) {
                            let i = choose|i: int| 0 <= i < k && #[trigger] found@.take(k as int)[i] == x;
                            assert(found@[i] == found@[k as int]);
                        }
                    }
                    lemma_sources_bound(es, x as int, s as int);
                    assert forall|t: int| 0 <= t < n && t != x implies (#[trigger] found@.take(k as int + 1).contains(t as usize)
                        <==> found@.take(k as int).contains(t as usize)) by {
                        if found@.take(k as int + 1).contains(t as usize) {
                            let i = choose|i: int| 0 <= i < k + 1 && #[trigger] found@.take(k as int + 1)[i] == t as usize;
                            assert(i < k);
                            assert(found@.take(k as int)[i] == t as usize);
                        }
                    }
                    assert(found@.take(k as int + 1)[k as int] == x);
                }
                if x != s {
                    counts.set(x, counts[x] + 1);
                }
                k = k + 1;
            }
            proof {
                assert(found@.take(found@.len() as int) =~= found@);
                assert forall|t: int| 0 <= t < n implies #[trigger] counts@[t] == sources_reaching(es, t, s as int + 1) by {
                    assert(found@.contains(t as usize) <==> reachable(es, s as int, t));
                }
            }
            s = s + 1;
        }
        let nn = n as u64;
        let normalization: u64 = if nn <= 2 {
            1
        } else {
            assert((nn - 1) * (nn - 2) <= 100_000_000_000_000) by (nonlinear_arith)
                requires nn <= 10_000_000, nn > 2;
            (nn - 1) * (nn - 2) / 2
        };
        Betweenness { counts, normalization }
    }
}

} // verus!
