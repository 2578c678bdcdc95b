use vstd::prelude::*;

verus! {

/// Byte order of the target architecture.
#[derive(Clone, Copy, Debug, PartialEq, Eq, Structural)]
pub enum Endian {
    Little,
    Big,
}

/// The configuration surface the evolutionary core consumes: target word
/// layout, genome length bounds, crossover parameters, the reporting
/// window size, and the candidate-address pool ("soup").
///
/// `crossover_rate_ppm` is the crossover probability in parts per million,
/// so that the whole surface stays in exact integer arithmetic; one million
/// means "always recombine", zero means "always clone".
#[derive(Clone, Debug)]
pub struct Config {
    pub word_size: usize,
    pub endian: Endian,
    pub min_init_len: usize,
    pub max_init_len: usize,
    pub crossover_rate_ppm: u32,
    pub crossover_period: u64,
    pub observer_window_size: usize,
    pub soup: Option<Vec<u64>>,
    pub soup_size: Option<usize>,
}

impl Config {
    /// A configuration the genome operators can run on: a supported word
    /// size, a non-empty initialization length range, a positive crossover
    /// period, a positive window, and a rate that is a genuine probability.
    pub open spec fn wf(&self) -> bool {
        &&& (self.word_size == 2 || self.word_size == 4 || self.word_size == 8)
        &&& 0 < self.min_init_len < self.max_init_len
        &&& self.crossover_rate_ppm <= 1_000_000
        &&& self.crossover_period > 0
        &&& self.observer_window_size > 0
    }

    /// Runtime check that mirrors `wf`, for callers that receive a
    /// configuration from outside and must reject a malformed one loudly.
    pub fn is_well_formed(&self) -> (r: bool)
        ensures
            r == self.wf(),
    {
        (self.word_size == 2 || self.word_size == 4 || self.word_size == 8)
            && 0 < self.min_init_len && self.min_init_len < self.max_init_len
            && self.crossover_rate_ppm <= 1_000_000
            && self.crossover_period > 0
            && self.observer_window_size > 0
    }
}

} // verus!
