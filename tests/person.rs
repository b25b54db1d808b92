use sir_network::person::{edge_cost, Interaction, Person, UNIT};

#[test]
fn test_create_person() {
    let person = Person {
        id: 1,
        age: 30,
        health_status: "Healthy".to_string(),
    };
    assert_eq!(person.id, 1);
    assert_eq!(person.age, 30);
    assert_eq!(person.health_status, "Healthy");
}

#[test]
fn test_create_interaction() {
    let interaction = Interaction {
        frequency: 5,
        strength: 800_000,
    };
    assert_eq!(interaction.frequency, 5);
    assert_eq!(interaction.strength, 800_000);
}

#[test]
fn edge_cost_is_strength_in_truncated_hundredths() {
    let w = Interaction { frequency: 1, strength: 500_000 };
    assert_eq!(edge_cost(&w), 50);
    let w = Interaction { frequency: 1, strength: 129_999 };
    assert_eq!(edge_cost(&w), 12);
    let w = Interaction { frequency: 1, strength: UNIT };
    assert_eq!(edge_cost(&w), 99);
}
