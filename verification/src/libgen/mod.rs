pub mod corpus;
pub mod png;
pub mod rng;
