use vstd::prelude::*;

verus! {

/// Challenge hash used when writing or reading a proof transcript.
#[derive(Clone, Copy, Debug, PartialEq, Eq, Structural)]
pub enum HashType {
    Poseidon,
    Sha,
    Keccak,
}

/// Polynomial-commitment opening scheme handed to the proving engine.
#[derive(Clone, Copy, Debug, PartialEq, Eq, Structural)]
pub enum OpenSchema {
    GWC,
    Shplonk,
}

/// How the aggregate circuit accumulates the public instances.
#[derive(Clone, Copy, Debug, PartialEq, Eq, Structural)]
pub enum Accumulator {
    UseCommitment,
    UseHash,
}

} // verus!
