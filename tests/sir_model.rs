use rand::rngs::StdRng;
use rand::SeedableRng;
use sir_network::graph::{add_contact, add_person, degree_of, neighbors, new_contact_graph, person_count, ContactGraph, GraphError};
use sir_network::person::{Interaction, UNIT};
use sir_network::sir_model::{advance_round, count_infected, ModelError, PersonState, SIRModel, State};

fn contact(strength: u32) -> Interaction {
    Interaction { frequency: 5, strength }
}

fn setup_test_graph() -> ContactGraph {
    let mut graph = new_contact_graph();
    let node1 = add_person(&mut graph, State::Susceptible);
    let node2 = add_person(&mut graph, State::Infected);
    add_contact(&mut graph, node1, node2, contact(500_000)).unwrap();
    graph
}

fn states(m: &SIRModel) -> Vec<State> {
    let n = person_count(&m.graph);
    (0..n).map(|v| m.graph[petgraph::graph::NodeIndex::new(v)].state).collect()
}

#[test]
fn test_new_person_state() {
    let ps = PersonState::new(1, State::Susceptible);
    assert_eq!(ps.id, 1);
    assert_eq!(ps.state, State::Susceptible);
}

#[test]
fn test_sir_model_initialization() {
    let graph = setup_test_graph();
    let sir_model = SIRModel::new(graph, 10, 300_000, 100_000).unwrap();
    assert_eq!(sir_model.time_steps, 10);
    assert_eq!(sir_model.beta, 300_000);
    assert_eq!(sir_model.gamma, 100_000);
}

#[test]
fn new_rejects_probability_above_one() {
    assert_eq!(SIRModel::new(setup_test_graph(), 5, UNIT + 1, 0).err(), Some(ModelError::InvalidParameter));
    assert_eq!(SIRModel::new(setup_test_graph(), 5, 0, UNIT + 1).err(), Some(ModelError::InvalidParameter));
    assert!(SIRModel::new(setup_test_graph(), 5, UNIT, UNIT).is_ok());
}

#[test]
fn add_contact_rejects_self_loop_and_duplicate() {
    let mut g = setup_test_graph();
    assert_eq!(add_contact(&mut g, 0, 0, contact(1)), Err(GraphError::InvalidEdge));
    assert_eq!(add_contact(&mut g, 1, 0, contact(1)), Err(GraphError::InvalidEdge));
    assert_eq!(add_contact(&mut g, 0, 1, contact(1)), Err(GraphError::InvalidEdge));
    assert_eq!(g.edge_count(), 1);
}

#[test]
fn add_person_ids_follow_positions() {
    let mut g = new_contact_graph();
    assert_eq!(add_person(&mut g, State::Recovered), 0);
    assert_eq!(add_person(&mut g, State::Infected), 1);
    assert_eq!(person_count(&g), 2);
    assert_eq!(g[petgraph::graph::NodeIndex::new(1)].id, 1);
    assert_eq!(g[petgraph::graph::NodeIndex::new(1)].state, State::Infected);
}

#[test]
fn neighbors_and_degree_of_a_star() {
    let mut g = new_contact_graph();
    for _ in 0..4 {
        add_person(&mut g, State::Susceptible);
    }
    add_contact(&mut g, 0, 1, contact(1)).unwrap();
    add_contact(&mut g, 2, 0, contact(1)).unwrap();
    add_contact(&mut g, 0, 3, contact(1)).unwrap();
    let mut nb = neighbors(&g, 0);
    nb.sort();
    assert_eq!(nb, vec![1, 2, 3]);
    assert_eq!(neighbors(&g, 2), vec![0]);
    assert_eq!(degree_of(&g, 0), 3);
    assert_eq!(degree_of(&g, 3), 1);
}

#[test]
fn count_infected_counts_listed_neighbours() {
    let s = vec![State::Infected, State::Susceptible, State::Infected, State::Recovered];
    assert_eq!(count_infected(&s, &vec![0, 1, 2, 3]), 2);
    assert_eq!(count_infected(&s, &vec![]), 0);
}

#[test]
fn advance_round_applies_the_rule_to_the_snapshot() {
    let s = vec![State::Susceptible, State::Susceptible, State::Infected, State::Infected, State::Recovered];
    let draws = vec![vec![900_000, 200_000], vec![300_000], vec![99_999], vec![100_000], vec![]];
    let next = advance_round(&s, &draws, 300_000, 100_000);
    assert_eq!(
        next,
        vec![State::Infected, State::Susceptible, State::Recovered, State::Infected, State::Recovered]
    );
    let none = advance_round(&s, &vec![vec![], vec![], vec![], vec![], vec![]], UNIT, UNIT);
    assert_eq!(none, vec![State::Susceptible, State::Susceptible, State::Infected, State::Infected, State::Recovered]);
}

#[test]
fn draw_round_takes_as_many_draws_as_the_rule_needs() {
    let s = vec![State::Susceptible, State::Infected, State::Infected, State::Recovered, State::Susceptible];
    let adj = vec![vec![1, 2, 3], vec![0], vec![0], vec![], vec![]];
    let mut rng = StdRng::seed_from_u64(3);
    let d = SIRModel::draw_round(&s, &adj, &mut rng);
    let lens: Vec<usize> = d.iter().map(|x| x.len()).collect();
    assert_eq!(lens, vec![2, 1, 1, 0, 0]);
    assert!(d.iter().flatten().all(|x| *x < UNIT));
}

fn ring_model(n: usize, steps: usize, beta: u32, gamma: u32) -> SIRModel {
    let mut g = new_contact_graph();
    for i in 0..n {
        add_person(&mut g, if i % 4 == 0 { State::Infected } else { State::Susceptible });
    }
    for i in 0..n {
        add_contact(&mut g, i, (i + 1) % n, contact(300_000)).unwrap();
    }
    add_person(&mut g, State::Susceptible);
    SIRModel::new(g, steps, beta, gamma).unwrap()
}

#[test]
fn simulate_zero_steps_changes_nothing() {
    let mut m = ring_model(12, 0, UNIT, UNIT);
    let before = states(&m);
    m.simulate(&mut StdRng::seed_from_u64(1));
    assert_eq!(states(&m), before);
}

#[test]
fn simulate_conserves_population_and_never_moves_back() {
    let mut m = ring_model(40, 1, 500_000, 300_000);
    let mut rng = StdRng::seed_from_u64(9);
    let mut prev = states(&m);
    for _ in 0..20 {
        m.simulate(&mut rng);
        let now = states(&m);
        assert_eq!(now.len(), 41);
        for (a, b) in prev.iter().zip(now.iter()) {
            let ok = match (a, b) {
                (State::Infected, State::Susceptible) => false,
                (State::Recovered, State::Susceptible) => false,
                (State::Recovered, State::Infected) => false,
                _ => true,
            };
            assert!(ok);
        }
        prev = now;
    }
}

#[test]
fn simulate_with_zero_beta_infects_nobody() {
    let mut m = ring_model(40, 50, 0, 100_000);
    let before = states(&m);
    m.simulate(&mut StdRng::seed_from_u64(4));
    for (a, b) in before.iter().zip(states(&m).iter()) {
        if *a == State::Susceptible {
            assert_eq!(*b, State::Susceptible);
        }
    }
}

#[test]
fn simulate_with_gamma_one_recovers_in_one_round() {
    let mut m = ring_model(40, 1, 0, UNIT);
    m.simulate(&mut StdRng::seed_from_u64(5));
    assert!(states(&m).iter().all(|s| *s != State::Infected));
    assert_eq!(states(&m)[0], State::Recovered);
}

#[test]
fn simulate_leaves_isolated_node_susceptible() {
    let mut m = ring_model(20, 30, UNIT, 0);
    m.simulate(&mut StdRng::seed_from_u64(6));
    let s = states(&m);
    assert_eq!(s[20], State::Susceptible);
    assert!(s[..20].iter().all(|x| *x == State::Infected));
}

#[test]
fn simulate_is_reproducible_under_a_seed() {
    let mut a = ring_model(60, 1, 400_000, 200_000);
    let mut b = ring_model(60, 1, 400_000, 200_000);
    let mut ra = StdRng::seed_from_u64(42);
    let mut rb = StdRng::seed_from_u64(42);
    for _ in 0..15 {
        a.simulate(&mut ra);
        b.simulate(&mut rb);
        assert_eq!(states(&a), states(&b));
    }
}
