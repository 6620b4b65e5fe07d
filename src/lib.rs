pub mod algorithmic;
pub mod cube;
pub mod facelet;
pub mod group;
pub mod intuitive;
pub mod notation;
pub mod permute;
pub mod queue;
pub mod roux;
pub mod solve;
