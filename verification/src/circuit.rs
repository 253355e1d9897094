//! The fixed configuration of the circuit that proofs are about.

use vstd::prelude::*;

verus! {

/// Width in bits of the hash that the circuit evaluates.
pub const NUM_BITS: usize = 256;

/// Number of times the circuit repeats the hash.
pub const NUM_REPS: usize = 1;

/// Index of the wire that carries the circuit's output.
pub const OUTPUT_WIRE: usize = 74;

/// The input wires of the circuit for this configuration, in the order in
/// which the verification engine returns their claims.
pub const INPUT_WIRES: [usize; 28] = [
    0, 1, 3, 6, 9, 12, 15, 18, 21, 24, 27, 30, 33, 36, 39, 42, 45, 48, 51, 54, 57, 60, 63, 66,
    69, 72, 99, 100,
];

} // verus!
