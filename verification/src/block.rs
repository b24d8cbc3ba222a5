//! Audio blocks: fixed-size runs of samples and the bulk operations the
//! mixer performs on them (silence, scaled accumulation, sanitising what an
//! effect returned, and the final output clamp).

use vstd::prelude::*;
use crate::sample::{
    sat64, scaled_mul, mix_step, clamp_out, sanitize, sat_add, apply_gain, clamp_sample,
    sanitize_sample, OUTPUT_LIMIT,
};

verus! {

/// A freshly allocated block of silence.
pub fn silence(len: usize) -> (v: Vec<i64>)
    ensures
        v@.len() == len,
        forall|i: int| 0 <= i < len ==> v@[i] == 0i64,
{
    let mut v: Vec<i64> = Vec::new();
    let mut k: usize = 0;
    while k < len
        invariant
            k <= len,
            v@.len() == k,
            forall|i: int| 0 <= i < k ==> v@[i] == 0i64,
        decreases len - k,
    {
        v.push(0);
        k = k + 1;
    }
    v
}

/// Accumulate `src` scaled by `gain` onto `dst`, sample by sample, saturating.
pub fn accumulate_scaled(dst: &mut Vec<i64>, src: &Vec<i64>, gain: i64)
    requires
        old(dst)@.len() == src@.len(),
    ensures
        final(dst)@.len() == src@.len(),
        forall|i: int|
            0 <= i < src@.len() ==> final(dst)@[i] as int == mix_step(
                old(dst)@[i] as int,
                src@[i] as int,
                gain as int,
            ),
{
    let n = src.len();
    let mut k: usize = 0;
    while k < n
        invariant
            n == src@.len(),
            dst@.len() == n,
            k <= n,
            forall|i: int|
                0 <= i < k ==> dst@[i] as int == mix_step(
                    old(dst)@[i] as int,
                    src@[i] as int,
                    gain as int,
                ),
            forall|i: int| k <= i < n ==> dst@[i] == old(dst)@[i],
        decreases n - k,
    {
        let scaled = apply_gain(src[k], gain);
        let mixed = sat_add(dst[k], scaled);
        dst.set(k, mixed);
        k = k + 1;
    }
}

/// Scale every sample of a block by a gain, in place.
pub fn scale_block(b: &mut Vec<i64>, gain: i64)
    ensures
        final(b)@.len() == old(b)@.len(),
        forall|i: int|
            0 <= i < old(b)@.len() ==> final(b)@[i] as int == sat64(
                scaled_mul(old(b)@[i] as int, gain as int),
            ),
{
    let n = b.len();
    let mut k: usize = 0;
    while k < n
        invariant
            b@.len() == n,
            old(b)@.len() == n,
            k <= n,
            forall|i: int|
                0 <= i < k ==> b@[i] as int == sat64(scaled_mul(old(b)@[i] as int, gain as int)),
            forall|i: int| k <= i < n ==> b@[i] == old(b)@[i],
        decreases n - k,
    {
        let scaled = apply_gain(b[k], gain);
        b.set(k, scaled);
        k = k + 1;
    }
}

/// Replace every non-finite sample of a block with silence. Returns whether
/// any sample had to be replaced, so the caller can record a warning.
pub fn sanitize_block(b: &mut Vec<i64>) -> (degraded: bool)
    ensures
        final(b)@.len() == old(b)@.len(),
        forall|i: int|
            0 <= i < old(b)@.len() ==> final(b)@[i] as int == sanitize(old(b)@[i] as int),
        degraded == exists|i: int|
            0 <= i < old(b)@.len() && sanitize(old(b)@[i] as int) != old(b)@[i] as int,
{
    let n = b.len();
    let mut k: usize = 0;
    let mut degraded = false;
    while k < n
        invariant
            b@.len() == n,
            old(b)@.len() == n,
            k <= n,
            forall|i: int| 0 <= i < k ==> b@[i] as int == sanitize(old(b)@[i] as int),
            forall|i: int| k <= i < n ==> b@[i] == old(b)@[i],
            degraded == exists|i: int|
                0 <= i < k && sanitize(old(b)@[i] as int) != old(b)@[i] as int,
        decreases n - k,
    {
        let s = b[k];
        let clean = sanitize_sample(s);
        if clean != s {
            degraded = true;
        }
        b.set(k, clean);
        k = k + 1;
    }
    degraded
}

/// Clamp every sample of a block into the valid output range.
pub fn clamp_block(b: &mut Vec<i64>)
    ensures
        final(b)@.len() == old(b)@.len(),
        forall|i: int|
            0 <= i < old(b)@.len() ==> final(b)@[i] as int == clamp_out(old(b)@[i] as int),
        forall|i: int|
            0 <= i < old(b)@.len() ==> -(OUTPUT_LIMIT as int) <= #[trigger] final(b)@[i] as int
                <= OUTPUT_LIMIT as int,
{
    let n = b.len();
    let mut k: usize = 0;
    while k < n
        invariant
            b@.len() == n,
            old(b)@.len() == n,
            k <= n,
            forall|i: int| 0 <= i < k ==> b@[i] as int == clamp_out(old(b)@[i] as int),
            forall|i: int| k <= i < n ==> b@[i] == old(b)@[i],
        decreases n - k,
    {
        let c = clamp_sample(b[k]);
        b.set(k, c);
        k = k + 1;
    }
    assert forall|i: int| 0 <= i < n implies -(OUTPUT_LIMIT as int) <= #[trigger] b@[i] as int
        <= OUTPUT_LIMIT as int by {
        assert(b@[i] as int == clamp_out(old(b)@[i] as int));
    };
}

} // verus!
