use sir_network::graph::{add_contact, add_person, new_contact_graph};
use sir_network::person::Interaction;
use sir_network::sir_model::{SIRModel, State};

fn contact(strength: u32) -> Interaction {
    Interaction { frequency: 5, strength }
}

fn path_model() -> SIRModel {
    let mut g = new_contact_graph();
    let a = add_person(&mut g, State::Susceptible);
    let b = add_person(&mut g, State::Infected);
    let c = add_person(&mut g, State::Susceptible);
    add_contact(&mut g, a, b, contact(400_000)).unwrap();
    add_contact(&mut g, b, c, contact(700_000)).unwrap();
    SIRModel::new(g, 1, 300_000, 100_000).unwrap()
}

#[test]
fn degree_centrality_of_a_path() {
    assert_eq!(path_model().calculate_degree_centrality(), vec![1, 2, 1]);
}

#[test]
fn betweenness_of_two_joined_nodes() {
    let mut g = new_contact_graph();
    let a = add_person(&mut g, State::Susceptible);
    let b = add_person(&mut g, State::Infected);
    add_contact(&mut g, a, b, contact(500_000)).unwrap();
    let m = SIRModel::new(g, 1, 300_000, 100_000).unwrap();
    let r = m.calculate_betweenness_centrality();
    assert_eq!(r.normalization, 1);
    assert_eq!(r.counts, vec![1, 1]);
    assert_eq!(r.counts[0] as f64 / r.normalization as f64, 1.0);
}

#[test]
fn betweenness_counts_reaching_sources() {
    let mut g = new_contact_graph();
    for _ in 0..5 {
        add_person(&mut g, State::Susceptible);
    }
    add_contact(&mut g, 0, 1, contact(200_000)).unwrap();
    add_contact(&mut g, 1, 2, contact(900_000)).unwrap();
    add_contact(&mut g, 3, 4, contact(100_000)).unwrap();
    let m = SIRModel::new(g, 1, 300_000, 100_000).unwrap();
    let r = m.calculate_betweenness_centrality();
    assert_eq!(r.counts, vec![2, 2, 2, 1, 1]);
    assert_eq!(r.normalization, 6);
}

#[test]
fn betweenness_of_an_empty_and_a_lone_graph() {
    let m = SIRModel::new(new_contact_graph(), 1, 0, 0).unwrap();
    let r = m.calculate_betweenness_centrality();
    assert!(r.counts.is_empty());
    assert_eq!(r.normalization, 1);
    let mut g = new_contact_graph();
    add_person(&mut g, State::Susceptible);
    let r = SIRModel::new(g, 1, 0, 0).unwrap().calculate_betweenness_centrality();
    assert_eq!(r.counts, vec![0]);
}
