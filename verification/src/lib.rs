//! den: markdown notes organised by hierarchical topics, with verified core logic.

pub mod cli;
pub mod domain;
pub mod export;
pub mod text;
