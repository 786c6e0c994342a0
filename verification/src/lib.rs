pub mod channel;
pub mod cli;
pub mod crack;
pub mod domain;
pub mod error;
pub mod laws;
pub mod model;
pub mod orbit;
pub mod random;
pub mod scan;

pub use crack::{
    CollisionCracker, MultiResultCracker, MultiResultVersionCracker, New1Cracker, New2Cracker,
    New3Cracker, Old1Cracker, Old2Cracker, Old3Cracker, OneResultCracker,
};
