//! Evolutionary breeding of L-system plant grammars: grammar source text is
//! the genotype, parsed and rebuilt around each genetic operation, and a
//! population controller runs human-guided generational breeding.
pub mod text;
pub mod codec;
pub mod grammar;
pub mod random;
pub mod genotype;
pub mod nursery;
pub mod laws;
