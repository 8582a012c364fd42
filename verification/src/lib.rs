pub mod app;
pub mod clock;
pub mod collection;
pub mod command;
pub mod expand;
pub mod expand_laws;
pub mod export;
pub mod invariants;
pub mod laws;
pub mod model;
pub mod order;
pub mod outcome;
pub mod relative;
pub mod text;
