//! An evolutionary search engine that hunts for an arithmetic expression —
//! single-digit operands interleaved with add/subtract/multiply/divide —
//! whose left-to-right evaluation hits a target number.
//!
//! A candidate expression is encoded as a 300-bit chromosome of 75 four-bit
//! genes. The engine decodes each chromosome into an instruction sequence,
//! scores it against the target, and breeds the next population with
//! fitness-proportionate selection, single-point crossover and independent
//! bit-flip mutation.
//!
//! All numeric work is done in exact integer arithmetic: expression values
//! are carried in tenths of a unit, fitness in millionths.

use vstd::prelude::*;

pub mod codec;
pub mod engine;
pub mod eval;
pub mod ops;
pub mod rng;

verus! {

/// Number of bits in a chromosome.
pub const CHROMO_LENGTH: usize = 300;

/// Number of bits in one gene.
pub const GENE_LENGTH: usize = 4;

/// Number of genes in a chromosome.
pub const GENE_COUNT: usize = 75;

/// Number of chromosomes in a population.
pub const POPULATION_SIZE: usize = 100;

/// Crossover is performed with probability `CROSSOVER_NUM / RATE_DEN` (0.7).
pub const CROSSOVER_NUM: u64 = 700;

/// A bit is flipped with probability `MUTATE_NUM / RATE_DEN` (0.001).
pub const MUTATE_NUM: u64 = 1;

/// Common denominator of the crossover and mutation rates.
pub const RATE_DEN: u64 = 1000;

} // verus!
