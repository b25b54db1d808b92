use rand::rngs::StdRng;
use rand::Rng;
use vstd::prelude::*;

use crate::graph::{
    adjacent, degree, graph_edges, graph_nodes, graph_wf, neighbors, node_at, person_count,
    replace_node, ContactGraph,
};
use crate::person::UNIT;

verus! {

/// Health state of a person.
#[derive(Debug, Clone, Copy, PartialEq, Eq, Structural)]
pub enum State {
    Susceptible,
    Infected,
    Recovered,
}

/// A node of the contact graph: a person's id and health state.
#[derive(Debug, Clone, Copy, PartialEq, Eq, Structural)]
pub struct PersonState {
    pub id: usize,
    pub state: State,
}

impl PersonState {
    pub fn new(id: usize, state: State) -> (r: Self)
        ensures
            r.id == id,
            r.state == state,
    {
        PersonState { id, state }
    }
}

#[verifier::external_type_specification]
#[verifier::external_body]
pub struct ExStdRng(StdRng);

/// Relies on rand's `Rng::gen_range` on a non-empty range: the value lies
/// in `0..bound`.
#[verifier::external_body]
fn uniform_below(rng: &mut StdRng, bound: u32) -> (r: u32)
    requires
        bound > 0,
    ensures
        r < bound,
{
    rng.gen_range(0..bound)
}

/// How many of the listed neighbours are infected.
pub open spec fn infected_among(states: Seq<State>, nbrs: Seq<usize>) -> nat
    decreases nbrs.len(),
{
    if nbrs.len() == 0 {
        0
    } else {
        infected_among(states, nbrs.drop_last()) + if states[nbrs.last() as int] == State::Infected {
            1nat
        } else {
            0nat
        }
    }
}

/// Number of uniform draws a node takes in one round: one per infected
/// neighbour while susceptible, one while infected, none once recovered.
pub open spec fn draws_needed(s: State, infected_nbrs: nat) -> nat {
    match s {
        State::Susceptible => infected_nbrs,
        State::Infected => 1,
        State::Recovered => 0,
    }
}

/// A draw `d` in `0..UNIT` hits probability `p / UNIT` when `d < p`.
pub open spec fn hits(d: u32, p: u32) -> bool {
    d < p
}

/// The transition rule of one node. A susceptible node is infected when
/// any of its draws (one per infected neighbour) hits `beta`, which has
/// probability `1 - (1 - beta)^k`; an infected node recovers when its draw
/// hits `gamma`; a recovered node stays recovered.
pub open spec fn next_state(s: State, d: Seq<u32>, beta: u32, gamma: u32) -> State {
    match s {
        State::Susceptible => if exists|i: int| 0 <= i < d.len() && hits(#[trigger] d[i], beta) {
            State::Infected
        } else {
            State::Susceptible
        },
        State::Infected => if d.len() > 0 && hits(d[0], gamma) {
            State::Recovered
        } else {
            State::Infected
        },
        State::Recovered => State::Recovered,
    }
}

/// One synchronous round: every node moves by the rule, reading only the
/// states before the round.
pub open spec fn round(states: Seq<State>, d: Seq<Seq<u32>>, beta: u32, gamma: u32) -> Seq<State> {
    Seq::new(states.len(), |v: int| next_state(states[v], d[v], beta, gamma))
}

/// The states after the rounds whose draws are `rounds`, in order.
pub open spec fn run(init: Seq<State>, rounds: Seq<Seq<Seq<u32>>>, beta: u32, gamma: u32) -> Seq<State>
    decreases rounds.len(),
{
    if rounds.len() == 0 {
        init
    } else {
        round(run(init, rounds.drop_last(), beta, gamma), rounds.last(), beta, gamma)
    }
}

/// `adj[v]` lists the neighbours of node `v`, each once.
pub open spec fn lists_neighbors(es: Seq<(usize, usize)>, n: nat, adj: Seq<Seq<usize>>) -> bool {
    &&& adj.len() == n
    &&& forall|v: int| 0 <= v < n ==> (#[trigger] adj[v]).len() == degree(es, v)
    &&& forall|v: int| 0 <= v < n ==> (#[trigger] adj[v]).no_duplicates()
    &&& forall|v: int, i: int| 0 <= v < n && 0 <= i < adj[v].len() ==> #[trigger] adj[v][i] < n
    &&& forall|v: int, j: usize|
        0 <= v < n ==> (#[trigger] adj[v].contains(j) <==> adjacent(es, v, j as int))
}

/// The draws of one round fit the states before it: each node has as many
/// draws as the rule asks of it, each in `0..UNIT`.
pub open spec fn draws_fit(states: Seq<State>, adj: Seq<Seq<usize>>, d: Seq<Seq<u32>>) -> bool {
    &&& d.len() == states.len()
    &&& forall|v: int|
        0 <= v < states.len() ==> (#[trigger] d[v]).len() == draws_needed(
            states[v],
            infected_among(states, adj[v]),
        )
    &&& forall|v: int, i: int| 0 <= v < d.len() && 0 <= i < d[v].len() ==> #[trigger] d[v][i] < UNIT
}

/// Every round's draws fit the states that round starts from.
pub open spec fn schedule_fits(
    init: Seq<State>,
    adj: Seq<Seq<usize>>,
    rounds: Seq<Seq<Seq<u32>>>,
    beta: u32,
    gamma: u32,
) -> bool {
    forall|r: int|
        0 <= r < rounds.len() ==> draws_fit(run(init, rounds.take(r), beta, gamma), adj, #[trigger] rounds[r])
}

/// The health states of a sequence of nodes.
pub open spec fn states_of(ns: Seq<PersonState>) -> Seq<State> {
    ns.map_values(|p: PersonState| p.state)
}

/// The draws of one round as plain sequences.
pub open spec fn deep(v: Seq<Vec<u32>>) -> Seq<Seq<u32>> {
    v.map_values(|d: Vec<u32>| d@)
}

/// Neighbour lists as plain sequences.
pub open spec fn deep_adj(v: Seq<Vec<usize>>) -> Seq<Seq<usize>> {
    v.map_values(|l: Vec<usize>| l@)
}

/// Counts the infected nodes among `nbrs`.
pub fn count_infected(states: &Vec<State>, nbrs: &Vec<usize>) -> (r: usize)
    requires
        forall|i: int| 0 <= i < nbrs@.len() ==> #[trigger] nbrs@[i] < states@.len(),
    ensures
        r == infected_among(states@, nbrs@),
{
    let mut c: usize = 0;
    let mut i: usize = 0;
    while i < nbrs.len()
        invariant
            i <= nbrs@.len(),
            c <= i,
            c == infected_among(states@, nbrs@.take(i as int)),
            forall|k: int| 0 <= k < nbrs@.len() ==> #[trigger] nbrs@[k] < states@.len(),
        decreases nbrs@.len() - i,
    {
        assert(nbrs@.take(i as int + 1).drop_last() == nbrs@.take(i as int));
        if states[nbrs[i]] == State::Infected {
            c = c + 1;
        }
        i = i + 1;
    }
    assert(nbrs@.take(i as int) == nbrs@);
    c
}

/// Applies one synchronous round: node `v` moves by the rule with the
/// draws `draws[v]`, reading only `states`.
pub fn advance_round(states: &Vec<State>, draws: &Vec<Vec<u32>>, beta: u32, gamma: u32) -> (r: Vec<State>)
    requires
        draws@.len() == states@.len(),
    ensures
        r@ == round(states@, deep(draws@), beta, gamma),
{
    let mut next: Vec<State> = Vec::new();
    let mut v: usize = 0;
    while v < states.len()
        invariant
            v <= states@.len(),
            draws@.len() == states@.len(),
            next@.len() == v,
            forall|u: int| 0 <= u < v ==> #[trigger] next@[u] == next_state(states@[u], draws@[u]@, beta, gamma),
        decreases states@.len() - v,
    {
        let d = &draws[v];
        let s = match states[v] {
            State::Susceptible => {
                let mut hit = false;
                let mut i: usize = 0;
                while i < d.len()
                    invariant
                        i <= d@.len(),
                        hit <==> exists|k: int| 0 <= k < i && hits(#[trigger] d@[k], beta),
                    decreases d@.len() - i,
                {
                    if d[i] < beta {
                        hit = true;
                    }
                    i = i + 1;
                }
                if hit { State::Infected } else { State::Susceptible }
            },
            State::Infected => {
                if d.len() > 0 && d[0] < gamma { State::Recovered } else { State::Infected }
            },
            State::Recovered => State::Recovered,
        };
        next.push(s);
        v = v + 1;
    }
    assert(next@ =~= round(states@, deep(draws@), beta, gamma));
    next
}

/// Why a model was not built.
#[derive(Debug, Clone, Copy, PartialEq, Eq, Structural)]
pub enum ModelError {
    /// `beta` or `gamma` lies above one.
    InvalidParameter,
}

/// The epidemic engine: a contact graph, the number of rounds to run, and
/// the infection and recovery probabilities in millionths.
pub struct SIRModel {
    pub graph: ContactGraph,
    pub time_steps: usize,
    pub beta: u32,
    pub gamma: u32,
}

impl SIRModel {
    /// A simple graph and both probabilities at most one.
    pub open spec fn wf(&self) -> bool {
        &&& graph_wf(self.graph)
        &&& self.beta <= UNIT
        &&& self.gamma <= UNIT
    }

    /// Builds a model, refusing a probability above one.
    pub fn new(graph: ContactGraph, time_steps: usize, beta: u32, gamma: u32) -> (r: Result<
        SIRModel,
        ModelError,
    >)
        requires
            graph_wf(graph),
        ensures
            r is Err <==> (beta > UNIT || gamma > UNIT),
            r is Err ==> r == Err::<SIRModel, ModelError>(ModelError::InvalidParameter),
            r matches Ok(m) ==> m.graph == graph && m.time_steps == time_steps && m.beta == beta
                && m.gamma == gamma && m.wf(),
    {
        if beta > UNIT || gamma > UNIT {
            return Err(ModelError::InvalidParameter);
        }
        Ok(SIRModel { graph, time_steps, beta, gamma })
    }

    /// Draws the random numbers of one round from `rng`, node by node in
    /// index order: as many as the rule asks of each node, each in `0..UNIT`.
    pub fn draw_round(states: &Vec<State>, adj: &Vec<Vec<usize>>, rng: &mut StdRng) -> (r: Vec<Vec<u32>>)
        requires
            adj@.len() == states@.len(),
            forall|v: int, i: int|
                0 <= v < adj@.len() && 0 <= i < adj@[v]@.len() ==> #[trigger] adj@[v]@[i] < states@.len(),
        ensures
            draws_fit(states@, deep_adj(adj@), deep(r@)),
    {
        let mut draws: Vec<Vec<u32>> = Vec::new();
        let mut v: usize = 0;
        while v < states.len()
            invariant
                v <= states@.len(),
                adj@.len() == states@.len(),
                forall|u: int, i: int|
                    0 <= u < adj@.len() && 0 <= i < adj@[u]@.len() ==> #[trigger] adj@[u]@[i] < states@.len(),
                draws@.len() == v,
                forall|u: int|
                    0 <= u < v ==> (#[trigger] draws@[u])@.len() == draws_needed(
                        states@[u],
                        infected_among(states@, adj@[u]@),
                    ),
                forall|u: int, i: int|
                    0 <= u < v && 0 <= i < draws@[u]@.len() ==> #[trigger] draws@[u]@[i] < UNIT,
            decreases states@.len() - v,
        {
            let nbrs = &adj[v];
            let need: usize = match states[v] {
                State::Susceptible => count_infected(states, nbrs),
                State::Infected => 1,
                State::Recovered => 0,
            };
            let mut d: Vec<u32> = Vec::new();
            let mut i: usize = 0;
            while i < need
                invariant
                    i <= need,
                    d@.len() == i,
                    forall|k: int| 0 <= k < i ==> #[trigger] d@[k] < UNIT,
                decreases need - i,
            {
                d.push(uniform_below(rng, UNIT));
                i = i + 1;
            }
            draws.push(d);
            v = v + 1;
        }
        let ghost dd = deep(draws@);
        let ghost aa = deep_adj(adj@);
        assert forall|u: int| 0 <= u < states@.len() implies (#[trigger] dd[u]).len() == draws_needed(
            states@[u],
            infected_among(states@, aa[u]),
        ) by {
            assert(dd[u] == draws@[u]@);
            assert(aa[u] == adj@[u]@);
        }
        assert forall|u: int, i: int| 0 <= u < dd.len() && 0 <= i < dd[u].len() implies #[trigger] dd[u][i] < UNIT by {
            assert(dd[u] == draws@[u]@);
        }
        draws
    }

    /// Runs `time_steps` synchronous rounds, drawing from `rng`, and writes
    /// the final states back into the graph. Each round reads the states
    /// before it; nodes draw in index order.
    pub fn simulate(&mut self, rng: &mut StdRng)
        requires
            old(self).wf(),
        ensures
            final(self).time_steps == old(self).time_steps,
            final(self).beta == old(self).beta,
            final(self).gamma == old(self).gamma,
            final(self).wf(),
            graph_edges(final(self).graph) == graph_edges(old(self).graph),
            graph_nodes(final(self).graph).len() == graph_nodes(old(self).graph).len(),
            forall|v: int|
                0 <= v < graph_nodes(old(self).graph).len() ==> (#[trigger] graph_nodes(final(self).graph)[v]).id
                    == graph_nodes(old(self).graph)[v].id,
            exists|adj: Seq<Seq<usize>>, rounds: Seq<Seq<Seq<u32>>>|
                #![trigger schedule_fits(states_of(graph_nodes(old(self).graph)), adj, rounds, old(self).beta, old(self).gamma)]
                {
                    &&& lists_neighbors(graph_edges(old(self).graph), graph_nodes(old(self).graph).len(), adj)
                    &&& rounds.len() == old(self).time_steps
                    &&& schedule_fits(states_of(graph_nodes(old(self).graph)), adj, rounds, old(self).beta, old(self).gamma)
                    &&& states_of(graph_nodes(final(self).graph)) == run(
                        states_of(graph_nodes(old(self).graph)),
                        rounds,
                        old(self).beta,
                        old(self).gamma,
                    )
                },
    {
        let n = person_count(&self.graph);
        let ghost es = graph_edges(self.graph);
        let ghost ns = graph_nodes(self.graph);
        let mut adj: Vec<Vec<usize>> = Vec::new();
        let mut current: Vec<State> = Vec::new();
        let mut v: usize = 0;
        while v < n
            invariant
                v <= n,
                n == ns.len(),
                self.graph == old(self).graph,
                self.wf(),
                ns == graph_nodes(self.graph),
                es == graph_edges(self.graph),
                adj@.len() == v,
                current@.len() == v,
                forall|u: int| 0 <= u < v ==> #[trigger] current@[u] == ns[u].state,
                lists_neighbors_prefix(es, n as nat, deep_adj(adj@), v as int),
            decreases n - v,
        {
            let ghost prev = deep_adj(adj@);
            let nb = neighbors(&self.graph, v);
            adj.push(nb);
            current.push(node_at(&self.graph, v).state);
            v = v + 1;
            proof {
                let aa = deep_adj(adj@);
                assert(aa[v - 1] == nb@);
                assert forall|u: int| 0 <= u < v - 1 implies aa[u] == prev[u] by {}
                assert forall|u: int| 0 <= u < v implies (#[trigger] aa[u]).len() == degree(es, u) by {
                    if u < v - 1 { assert(aa[u] == prev[u]); }
                }
                assert forall|u: int| 0 <= u < v implies (#[trigger] aa[u]).no_duplicates() by {
                    if u < v - 1 { assert(aa[u] == prev[u]); }
                }
                assert forall|u: int, i: int| 0 <= u < v && 0 <= i < aa[u].len() implies #[trigger] aa[u][i] < n by {
                    if u < v - 1 { assert(aa[u] == prev[u]); }
                }
                assert forall|u: int, j: usize| 0 <= u < v implies (#[trigger] aa[u].contains(j) <==> adjacent(es, u, j as int)) by {
                    if u < v - 1 { assert(aa[u] == prev[u]); }
                }
            }
        }
        let ghost aa = deep_adj(adj@);
        let ghost init = current@;
        assert(init =~= states_of(ns));
        let ghost mut rounds: Seq<Seq<Seq<u32>>> = Seq::empty();
        let mut t: usize = 0;
        while t < self.time_steps
            invariant
                t <= self.time_steps,
                self.graph == old(self).graph,
                self.time_steps == old(self).time_steps,
                self.beta == old(self).beta,
                self.gamma == old(self).gamma,
                aa == deep_adj(adj@),
                adj@.len() == n,
                n == ns.len(),
                lists_neighbors(es, n as nat, aa),
                rounds.len() == t,
                current@.len() == n,
                current@ == run(init, rounds, self.beta, self.gamma),
                schedule_fits(init, aa, rounds, self.beta, self.gamma),
            decreases self.time_steps - t,
        {
            proof {
                assert forall|u: int, i: int|
                    0 <= u < adj@.len() && 0 <= i < adj@[u]@.len() implies #[trigger] adj@[u]@[i] < current@.len() by {
                    assert(aa[u] == adj@[u]@);
                }
            }
            let draws = SIRModel::draw_round(&current, &adj, rng);
            let next = advance_round(&current, &draws, self.beta, self.gamma);
            proof {
                let d = deep(draws@);
                let old_rounds = rounds;
                rounds = rounds.push(d);
                assert(rounds.drop_last() =~= old_rounds);
                assert forall|r: int| 0 <= r < rounds.len() implies draws_fit(
                    run(init, rounds.take(r), self.beta, self.gamma),
                    aa,
                    #[trigger] rounds[r],
                ) by {
                    if r < old_rounds.len() {
                        assert(rounds.take(r) =~= old_rounds.take(r));
                    } else {
                        assert(rounds.take(r) =~= old_rounds);
                    }
                }
            }
            current = next;
            t = t + 1;
        }
        let mut w: usize = 0;
        while w < n
            invariant
                w <= n,
                n == ns.len(),
                current@.len() == n,
                graph_edges(self.graph) == es,
                graph_nodes(self.graph).len() == n,
                self.time_steps == old(self).time_steps,
                self.beta == old(self).beta,
                self.gamma == old(self).gamma,
                self.beta <= UNIT,
                self.gamma <= UNIT,
                forall|u: int| 0 <= u < n ==> (#[trigger] graph_nodes(self.graph)[u]).id == ns[u].id,
                forall|u: int| 0 <= u < w ==> (#[trigger] graph_nodes(self.graph)[u]).state == current@[u],
            decreases n - w,
        {
            let p = node_at(&self.graph, w);
            replace_node(&mut self.graph, w, PersonState { id: p.id, state: current[w] });
            w = w + 1;
        }
        assert(states_of(graph_nodes(self.graph)) =~= current@);
        assert(schedule_fits(states_of(ns), aa, rounds, self.beta, self.gamma));
    }
}

/// The first `m` lists of `adj` list the neighbours of their nodes.
pub open spec fn lists_neighbors_prefix(es: Seq<(usize, usize)>, n: nat, adj: Seq<Seq<usize>>, m: int) -> bool {
    &&& forall|v: int| 0 <= v < m ==> (#[trigger] adj[v]).len() == degree(es, v)
    &&& forall|v: int| 0 <= v < m ==> (#[trigger] adj[v]).no_duplicates()
    &&& forall|v: int, i: int| 0 <= v < m && 0 <= i < adj[v].len() ==> #[trigger] adj[v][i] < n
    &&& forall|v: int, j: usize| 0 <= v < m ==> (#[trigger] adj[v].contains(j) <==> adjacent(es, v, j as int))
}

} // verus!
