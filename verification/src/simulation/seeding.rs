//! Derivation of each replication's seed from the configuration's base seed.
//!
//! Both derivations are fixed parts of the published protocol, so a rerun
//! reproduces earlier results exactly. Each is a pure function of
//! `(base, index)`, independent of thread scheduling.
//!
//! The two binaries use different streams: the aggregate runs mix the index
//! through a large odd constant, which decorrelates neighbouring base seeds,
//! while the per-job sample dumps offset it directly.

use vstd::prelude::*;

verus! {

/// The odd multiplier that mixes an aggregate replication's seed.
pub const MIX: u64 = 0x9E37_79B9_7F4A_7C15;

/// `(base + index) mod 2^64`.
pub open spec fn offset_spec(base: u64, index: usize) -> u64 {
    ((base as nat + index as nat) % 0x1_0000_0000_0000_0000) as u64
}

/// `((base + index) · MIX) mod 2^64`.
pub open spec fn aggregate_spec(base: u64, index: usize) -> u64 {
    ((offset_spec(base, index) as nat * MIX as nat) % 0x1_0000_0000_0000_0000) as u64
}

/// Seed of aggregate replication `index`: the `dartsim` binary and the
/// parallel runner.
pub fn aggregate(base: u64, index: usize) -> (r: u64)
    ensures
        r == aggregate_spec(base, index),
{
    let s = samples(base, index);
    s.wrapping_mul(MIX)
}

/// Seed of per-job sample replication `index`: the `dartsim-samples` binary.
pub fn samples(base: u64, index: usize) -> (r: u64)
    ensures
        r == offset_spec(base, index),
{
    let i = index as u64;
    base.wrapping_add(i)
}

} // verus!
