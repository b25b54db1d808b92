use vstd::prelude::*;

use crate::graph::degree;
use crate::person::UNIT;
use crate::sir_model::{
    draws_fit, hits, infected_among, lists_neighbors, next_state, round, run, schedule_fits, State,
};

verus! {

/// Number of entries of `s` equal to `x`.
pub open spec fn count_state(s: Seq<State>, x: State) -> nat
    decreases s.len(),
{
    if s.len() == 0 {
        0
    } else {
        count_state(s.drop_last(), x) + if s.last() == x { 1nat } else { 0nat }
    }
}

/// Position of a state along the only allowed direction of change.
pub open spec fn rank(s: State) -> nat {
    match s {
        State::Susceptible => 0,
        State::Infected => 1,
        State::Recovered => 2,
    }
}

/// A run keeps the number of nodes.
pub proof fn lemma_run_len(init: Seq<State>, rounds: Seq<Seq<Seq<u32>>>, beta: u32, gamma: u32)
    ensures
        run(init, rounds, beta, gamma).len() == init.len(),
    decreases rounds.len(),
{
    if rounds.len() > 0 {
        lemma_run_len(init, rounds.drop_last(), beta, gamma);
    }
}

/// The states after round `r` are the states after the first `r` rounds
/// moved by the draws of round `r`.
pub proof fn lemma_run_step(init: Seq<State>, rounds: Seq<Seq<Seq<u32>>>, beta: u32, gamma: u32, r: int)
    requires
        0 <= r < rounds.len(),
    ensures
        run(init, rounds.take(r + 1), beta, gamma) == round(run(init, rounds.take(r), beta, gamma), rounds[r], beta, gamma),
{
    assert(rounds.take(r + 1).drop_last() =~= rounds.take(r));
}

proof fn lemma_count_total(s: Seq<State>)
    ensures
        count_state(s, State::Susceptible) + count_state(s, State::Infected) + count_state(s, State::Recovered) == s.len(),
    decreases s.len(),
{
    if s.len() > 0 {
        lemma_count_total(s.drop_last());
    }
}

/// After every round, the susceptible, infected and recovered nodes
/// together are all the nodes.
pub proof fn lemma_conservation(init: Seq<State>, rounds: Seq<Seq<Seq<u32>>>, beta: u32, gamma: u32, r: int)
    requires
        0 <= r <= rounds.len(),
    ensures
        ({
            let s = run(init, rounds.take(r), beta, gamma);
            count_state(s, State::Susceptible) + count_state(s, State::Infected) + count_state(s, State::Recovered)
                == init.len()
        }),
{
    let s = run(init, rounds.take(r), beta, gamma);
    lemma_count_total(s);
    lemma_run_len(init, rounds.take(r), beta, gamma);
}

/// No node ever moves back: from any round to any later one its state
/// never goes from infected to susceptible, nor from recovered to anything
/// else.
pub proof fn lemma_monotone(
    init: Seq<State>,
    rounds: Seq<Seq<Seq<u32>>>,
    beta: u32,
    gamma: u32,
    r1: int,
    r2: int,
    v: int,
)
    requires
        0 <= r1 <= r2 <= rounds.len(),
        0 <= v < init.len(),
    ensures
        rank(run(init, rounds.take(r1), beta, gamma)[v]) <= rank(run(init, rounds.take(r2), beta, gamma)[v]),
    decreases r2 - r1,
{
    if r1 < r2 {
        lemma_monotone(init, rounds, beta, gamma, r1, r2 - 1, v);
        lemma_run_step(init, rounds, beta, gamma, r2 - 1);
        lemma_run_len(init, rounds.take(r2 - 1), beta, gamma);
    }
}

/// With `beta` zero, a susceptible node stays susceptible whatever the
/// draws and however many rounds run.
pub proof fn lemma_zero_transmission(init: Seq<State>, rounds: Seq<Seq<Seq<u32>>>, gamma: u32, v: int)
    requires
        0 <= v < init.len(),
        init[v] == State::Susceptible,
    ensures
        run(init, rounds, 0, gamma)[v] == State::Susceptible,
    decreases rounds.len(),
{
    if rounds.len() > 0 {
        lemma_zero_transmission(init, rounds.drop_last(), gamma, v);
        lemma_run_len(init, rounds.drop_last(), 0, gamma);
        let d = rounds.last()[v];
        assert(!(exists|i: int| 0 <= i < d.len() && hits(#[trigger] d[i], 0)));
    }
}

/// With `gamma` one, a node infected when a round starts is recovered when
/// it ends.
pub proof fn lemma_full_recovery(
    init: Seq<State>,
    adj: Seq<Seq<usize>>,
    rounds: Seq<Seq<Seq<u32>>>,
    beta: u32,
    r: int,
    v: int,
)
    requires
        schedule_fits(init, adj, rounds, beta, UNIT),
        0 <= r < rounds.len(),
        0 <= v < init.len(),
        run(init, rounds.take(r), beta, UNIT)[v] == State::Infected,
    ensures
        run(init, rounds.take(r + 1), beta, UNIT)[v] == State::Recovered,
{
    lemma_run_step(init, rounds, beta, UNIT, r);
    lemma_run_len(init, rounds.take(r), beta, UNIT);
    let s = run(init, rounds.take(r), beta, UNIT);
    assert(draws_fit(s, adj, rounds[r]));
    assert(rounds[r][v].len() == 1);
    assert(rounds[r][v][0] < UNIT);
}

/// A node with no edges that starts susceptible is still susceptible after
/// every round.
pub proof fn lemma_isolation(
    es: Seq<(usize, usize)>,
    init: Seq<State>,
    adj: Seq<Seq<usize>>,
    rounds: Seq<Seq<Seq<u32>>>,
    beta: u32,
    gamma: u32,
    r: int,
    v: int,
)
    requires
        lists_neighbors(es, init.len(), adj),
        schedule_fits(init, adj, rounds, beta, gamma),
        0 <= r <= rounds.len(),
        0 <= v < init.len(),
        degree(es, v) == 0,
        init[v] == State::Susceptible,
    ensures
        run(init, rounds.take(r), beta, gamma)[v] == State::Susceptible,
    decreases r,
{
    if r == 0 {
        assert(rounds.take(0) =~= Seq::<Seq<Seq<u32>>>::empty());
    } else {
        lemma_isolation(es, init, adj, rounds, beta, gamma, r - 1, v);
        lemma_run_step(init, rounds, beta, gamma, r - 1);
        lemma_run_len(init, rounds.take(r - 1), beta, gamma);
        let s = run(init, rounds.take(r - 1), beta, gamma);
        assert(draws_fit(s, adj, rounds[r - 1]));
        assert(adj[v].len() == 0);
        assert(infected_among(s, adj[v]) == 0);
        assert(rounds[r - 1][v].len() == 0);
    }
}

/// Runs from the same states with the same draws in their first `r`
/// rounds pass through the same states in each of those rounds.
pub proof fn lemma_deterministic(
    init: Seq<State>,
    rounds1: Seq<Seq<Seq<u32>>>,
    rounds2: Seq<Seq<Seq<u32>>>,
    beta: u32,
    gamma: u32,
    r: int,
)
    requires
        0 <= r <= rounds1.len(),
        r <= rounds2.len(),
        forall|i: int| 0 <= i < r ==> rounds1[i] == rounds2[i],
    ensures
        forall|i: int|
            0 <= i <= r ==> #[trigger] run(init, rounds1.take(i), beta, gamma) == run(init, rounds2.take(i), beta, gamma),
{
    assert forall|i: int| 0 <= i <= r implies #[trigger] run(init, rounds1.take(i), beta, gamma) == run(
        init,
        rounds2.take(i),
        beta,
        gamma,
    ) by {
        assert(rounds1.take(i) =~= rounds2.take(i));
    }
}

} // verus!
