use vstd::prelude::*;

verus! {

/// The failure taxonomy of the engine: reading external input, parsing
/// integer literals, parsing configuration text, channel transport,
/// looking up a fitness objective that a vector does not carry, and
/// exhaustion of population capacity.
#[derive(Debug, Clone)]
pub enum Error {
    Io(String),
    ParseInt(String),
    Channel(String),
    Parsing(String),
    MissingKey(String),
    NoVacancy,
}

} // verus!
