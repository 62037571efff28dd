//! Sources of random indices for the playout policy.
//!
//! The search samples uniformly among legal moves.  A `Sampler` either
//! draws from the process-wide generator of the `rand` crate, or steps a
//! deterministic 64-bit mixing generator from a caller-supplied seed.  The
//! seeded generator is specified exactly -- each draw is a pure function
//! of the state -- so a search over it is reproducible; of the system
//! generator only the range of a draw is known.

use vstd::prelude::*;

verus! {

/// A source of bounded random indices.
pub enum Sampler {
    /// Draw from the `rand` crate's thread-local generator.
    System,
    /// Step a deterministic mixing generator from this state.
    Seeded(u64),
}

/// Addition modulo `2^64`.
pub open spec fn spec_add_mod(a: u64, b: u64) -> u64 {
    ((a + b) % 0x1_0000_0000_0000_0000) as u64
}

/// Multiplication modulo `2^64`.
pub open spec fn spec_mul_mod(a: u64, b: u64) -> u64 {
    ((a * b) % 0x1_0000_0000_0000_0000) as u64
}

/// One step of the seeded generator: an odd-constant addition followed by
/// two xor-shift-multiply rounds, all modulo `2^64`.
pub open spec fn spec_mix(state: u64) -> u64 {
    let s = spec_add_mod(state, 0x9e3779b97f4a7c15);
    let z = spec_mul_mod(s ^ (s >> 30), 0xbf58476d1ce4e5b9);
    let z2 = spec_mul_mod(z ^ (z >> 27), 0x94d049bb133111eb);
    z2 ^ (z2 >> 31)
}

/// Relies on rand::random_range: it returns a value drawn from the given
/// half-open range, and panics only when the range is empty.
#[verifier::external_body]
fn system_below(n: usize) -> (r: usize)
    requires
        1 <= n,
    ensures
        r < n,
{
    rand::random_range(0..n)
}

impl Sampler {
    /// A sampler backed by the system generator.
    pub fn system() -> (s: Sampler)
        ensures
            s is System,
    {
        Sampler::System
    }

    /// A deterministic sampler seeded with `seed`.
    pub fn seeded(seed: u64) -> (s: Sampler)
        ensures
            s == Sampler::Seeded(seed),
    {
        Sampler::Seeded(seed)
    }

    /// Draw an index below `n`.  A seeded sampler steps its state once and
    /// reduces it modulo `n`, so the draw is a pure function of the state.
    pub fn below(&mut self, n: usize) -> (r: usize)
        requires
            1 <= n,
        ensures
            r < n,
            *old(self) is System ==> *final(self) is System,
            *old(self) matches Sampler::Seeded(s) ==> *final(self) == Sampler::Seeded(spec_mix(s))
                && r == spec_mix(s) as int % n as int,
    {
        match *self {
            Sampler::System => system_below(n),
            Sampler::Seeded(state) => {
                let next = mix(state);
                *self = Sampler::Seeded(next);
                let n64: u64 = n as u64;
                let r64: u64 = next % n64;
                r64 as usize
            },
        }
    }
}

/// One step of the seeded generator.
fn mix(state: u64) -> (r: u64)
    ensures
        r == spec_mix(state),
{
    let s = add_mod(state, 0x9e3779b97f4a7c15);
    let z = mul_mod(s ^ (s >> 30), 0xbf58476d1ce4e5b9);
    let z2 = mul_mod(z ^ (z >> 27), 0x94d049bb133111eb);
    z2 ^ (z2 >> 31)
}

/// Addition modulo `2^64`.
fn add_mod(a: u64, b: u64) -> (r: u64)
    ensures
        r == spec_add_mod(a, b),
{
    let wide: u128 = a as u128 + b as u128;
    (wide % 0x1_0000_0000_0000_0000u128) as u64
}

/// Multiplication modulo `2^64`.
fn mul_mod(a: u64, b: u64) -> (r: u64)
    ensures
        r == spec_mul_mod(a, b),
{
    proof {
        assert((a as int) * (b as int) <= 0xffff_ffff_ffff_ffff * 0xffff_ffff_ffff_ffff)
            by (nonlinear_arith)
            requires
                0 <= a as int <= 0xffff_ffff_ffff_ffff,
                0 <= b as int <= 0xffff_ffff_ffff_ffff,
        ;
    }
    let wide: u128 = (a as u128) * (b as u128);
    (wide % 0x1_0000_0000_0000_0000u128) as u64
}

} // verus!
