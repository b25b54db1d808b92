pub mod centrality;
pub mod graph;
pub mod laws;
pub mod person;
pub mod sir_model;
