//! Sampled function values, carried as IEEE-754 single-precision bit patterns.
//!
//! The chart engine never computes with machine floating-point values: a
//! sample is the `u32` bit pattern of one. Everything the engine needs
//! from a sample is arithmetic on the pattern: its class (finite, normal)
//! and the numeric order of the values two patterns stand for. Both are
//! stated here as spec functions and computed by verified code.

use vstd::prelude::*;

verus! {

/// Bit pattern of the value 0.0, the starting point of a chart's y-range.
pub const ZERO_BITS: u32 = 0;

/// Order key of a non-NaN bit pattern: maps patterns to integers so that
/// the numeric order of the encoded values is the integer order of the
/// keys. Non-negative values (sign bit clear) sit above `0x8000_0000` in
/// magnitude order; negative values mirror below it. Both zeros get the
/// key `0x8000_0000`, so `-0.0` and `+0.0` compare equal.
pub open spec fn key(b: u32) -> int {
    if b < 0x8000_0000 {
        0x8000_0000 + b as int
    } else {
        0x1_0000_0000 - b as int
    }
}

/// The exponent field of a bit pattern (bits 23..31).
pub open spec fn exp_bits(b: u32) -> int {
    ((b as int) / 0x80_0000) % 0x100
}

/// A pattern encodes a finite value (not an infinity, not a NaN).
pub open spec fn is_finite(b: u32) -> bool {
    exp_bits(b) != 0xFF
}

/// A pattern encodes a normal value: finite, non-zero and not subnormal.
/// Only normal samples are rasterized.
pub open spec fn is_normal(b: u32) -> bool {
    exp_bits(b) != 0 && exp_bits(b) != 0xFF
}

/// The pattern encoding the smaller value; the left one on a tie.
pub open spec fn min_bits(a: u32, b: u32) -> u32 {
    if key(a) <= key(b) {
        a
    } else {
        b
    }
}

/// The pattern encoding the larger value; the left one on a tie.
pub open spec fn max_bits(a: u32, b: u32) -> u32 {
    if key(a) >= key(b) {
        a
    } else {
        b
    }
}

/// Minimum of the finite samples of a sequence, `None` when it has none.
pub open spec fn finite_min(ys: Seq<u32>) -> Option<u32>
    decreases ys.len(),
{
    if ys.len() == 0 {
        None
    } else {
        let rest = finite_min(ys.drop_last());
        if !is_finite(ys.last()) {
            rest
        } else {
            match rest {
                None => Some(ys.last()),
                Some(m) => Some(min_bits(m, ys.last())),
            }
        }
    }
}

/// Maximum of the finite samples of a sequence, `None` when it has none.
pub open spec fn finite_max(ys: Seq<u32>) -> Option<u32>
    decreases ys.len(),
{
    if ys.len() == 0 {
        None
    } else {
        let rest = finite_max(ys.drop_last());
        if !is_finite(ys.last()) {
            rest
        } else {
            match rest {
                None => Some(ys.last()),
                Some(m) => Some(max_bits(m, ys.last())),
            }
        }
    }
}

/// Lower bound a plot call discovers: the minimum over the finite
/// samples, or 0.0 when the sequence is empty or has no finite sample.
pub open spec fn seq_min(ys: Seq<u32>) -> u32 {
    match finite_min(ys) {
        None => ZERO_BITS,
        Some(m) => m,
    }
}

/// Upper bound a plot call discovers, the counterpart of [`seq_min`].
pub open spec fn seq_max(ys: Seq<u32>) -> u32 {
    match finite_max(ys) {
        None => ZERO_BITS,
        Some(m) => m,
    }
}

/// Whether a sample would be rasterized.
pub fn is_normal_value(b: u32) -> (r: bool)
    ensures
        r == is_normal(b),
{
    let e: u32 = (b / 0x80_0000) % 0x100;
    e != 0 && e != 0xFF
}

/// Whether a sample takes part in range discovery.
pub fn is_finite_value(b: u32) -> (r: bool)
    ensures
        r == is_finite(b),
{
    let e: u32 = (b / 0x80_0000) % 0x100;
    e != 0xFF
}

fn key_value(b: u32) -> (r: u64)
    ensures
        r as int == key(b),
{
    if b < 0x8000_0000 {
        0x8000_0000u64 + b as u64
    } else {
        0x1_0000_0000u64 - b as u64
    }
}

/// The pattern of the smaller of the two encoded values.
pub fn min_value(a: u32, b: u32) -> (r: u32)
    ensures
        r == min_bits(a, b),
{
    if key_value(a) <= key_value(b) {
        a
    } else {
        b
    }
}

/// The pattern of the larger of the two encoded values.
pub fn max_value(a: u32, b: u32) -> (r: u32)
    ensures
        r == max_bits(a, b),
{
    if key_value(a) >= key_value(b) {
        a
    } else {
        b
    }
}

/// Range discovery over one plot call's samples: the minimum and maximum
/// of the finite samples, both 0.0 when no sample is finite.
pub fn range_values(ys: &Vec<u32>) -> (r: (u32, u32))
    ensures
        r.0 == seq_min(ys@),
        r.1 == seq_max(ys@),
{
    let mut mn: Option<u32> = None;
    let mut mx: Option<u32> = None;
    let n = ys.len();
    for i in 0..n
        invariant
            n == ys@.len(),
            mn == finite_min(ys@.subrange(0, i as int)),
            mx == finite_max(ys@.subrange(0, i as int)),
            mn is Some <==> mx is Some,
    {
        proof {
            assert(ys@.subrange(0, i + 1).drop_last() =~= ys@.subrange(0, i as int));
            assert(ys@.subrange(0, i + 1).last() == ys@[i as int]);
        }
        let y = ys[i];
        if is_finite_value(y) {
            mn = match mn {
                None => Some(y),
                Some(m) => Some(min_value(m, y)),
            };
            mx = match mx {
                None => Some(y),
                Some(m) => Some(max_value(m, y)),
            };
        }
    }
    proof {
        assert(ys@.subrange(0, n as int) =~= ys@);
    }
    match (mn, mx) {
        (Some(a), Some(b)) => (a, b),
        _ => (ZERO_BITS, ZERO_BITS),
    }
}

/// A sequence's finite minimum is itself a finite sample.
pub proof fn lemma_finite_min_is_finite(ys: Seq<u32>)
    ensures
        finite_min(ys) matches Some(m) ==> is_finite(m),
        finite_max(ys) matches Some(m) ==> is_finite(m),
        is_finite(seq_min(ys)),
        is_finite(seq_max(ys)),
    decreases ys.len(),
{
    if ys.len() > 0 {
        lemma_finite_min_is_finite(ys.drop_last());
    }
    assert(is_finite(ZERO_BITS));
}

/// The discovered lower bound never exceeds the discovered upper bound.
pub proof fn lemma_seq_min_le_seq_max(ys: Seq<u32>)
    ensures
        key(seq_min(ys)) <= key(seq_max(ys)),
    decreases ys.len(),
{
    if ys.len() > 0 {
        lemma_seq_min_le_seq_max(ys.drop_last());
    }
}

} // verus!
