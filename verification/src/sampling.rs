//! Stratified sample jitter and the renderer's index arithmetic.
//!
//! A worker draws one sample per pixel per pass. The sub-pixel offset of
//! sample `s` comes from the fixed low-discrepancy pattern
//! `(0,0),(0,1),(1,0),(1,1)` repeating, shuffled once per worker so the
//! stratification leaves no visible pattern; the embedding application
//! combines each entry with a fresh uniform draw. This module also holds the
//! flat-buffer index arithmetic (a pixel index splits into line and column)
//! and the progress rule: a processed sample reports its pixel's remaining
//! samples when the pixel just converged, and one otherwise.

use rand::seq::SliceRandom;
use vstd::prelude::*;

verus! {

/// Sub-pixel jitter of sample `s` before shuffling: the pattern
/// `(0,0),(0,1),(1,0),(1,1)` repeating.
pub open spec fn jitter_at(s: int) -> (u8, u8) {
    ((((s / 2) % 2) as u8), ((s % 2) as u8))
}

/// The unshuffled jitter pattern of a whole per-pixel sample budget.
pub open spec fn jitter_seq(n: int) -> Seq<(u8, u8)> {
    Seq::new(n as nat, |s: int| jitter_at(s))
}

/// The stratified jitter pattern in its generation order: entry `s` is
/// `jitter_at(s)`.
pub fn jitter_pattern(samples_per_pixel: u32) -> (r: Vec<(u8, u8)>)
    ensures
        r@.len() == samples_per_pixel,
        forall|s: int| 0 <= s < samples_per_pixel ==> #[trigger] r@[s] == jitter_at(s),
{
    let mut ret: Vec<(u8, u8)> = Vec::with_capacity(samples_per_pixel as usize);
    for s in 0..samples_per_pixel
        invariant
            ret@.len() == s,
            forall|k: int| 0 <= k < s ==> #[trigger] ret@[k] == jitter_at(k),
    {
        let sdiv: u32 = s / 2;
        let jitteri: u8 = (sdiv % 2) as u8;
        let jitterj: u8 = (s % 2) as u8;
        ret.push((jitteri, jitterj));
    }
    ret
}

/// Relies on rand's SliceRandom::shuffle: it permutes the slice in place,
/// so the entries after the call are the entries before it, rearranged.
#[verifier::external_body]
fn shuffle_in_place(v: &mut Vec<(u8, u8)>)
    ensures
        final(v)@.len() == old(v)@.len(),
        final(v)@.to_multiset() == old(v)@.to_multiset(),
{
    v.shuffle(&mut rand::thread_rng());
}

/// A worker's jitter table: the stratified pattern of `jitter_seq`,
/// rearranged by a random shuffle. Which order comes out is left open; the
/// entries are exactly the pattern's.
pub fn shuffled_jitter_pattern(samples_per_pixel: u32) -> (r: Vec<(u8, u8)>)
    ensures
        r@.len() == samples_per_pixel,
        r@.to_multiset() == jitter_seq(samples_per_pixel as int).to_multiset(),
{
    let mut ret = jitter_pattern(samples_per_pixel);
    proof {
        assert(ret@ =~= jitter_seq(samples_per_pixel as int));
    }
    shuffle_in_place(&mut ret);
    ret
}

/// Splits a flat row-major pixel index into its image line and column.
pub fn pixel_line_col(pxl_idx: u32, image_width: u32) -> (r: (u32, u32))
    requires
        image_width > 0,
    ensures
        r.0 == pxl_idx / image_width,
        r.1 == pxl_idx % image_width,
        r.0 * image_width + r.1 == pxl_idx,
        r.1 < image_width,
{
    let line: u32 = pxl_idx / image_width;
    proof {
        vstd::arithmetic::div_mod::lemma_fundamental_div_mod(
            pxl_idx as int,
            image_width as int,
        );
        vstd::arithmetic::div_mod::lemma_mod_bound(pxl_idx as int, image_width as int);
    }
    let col: u32 = pxl_idx - image_width * line;
    (line, col)
}

/// How much a processed pixel-sample advances the shared progress counter:
/// by the pixel's remaining sample budget when this sample just retired it
/// (so convergence reports the pixel as fully complete at once), by one
/// otherwise. `n` is the pixel's sample count after the sample was folded in.
pub fn progress_increment(done: bool, samples_per_pixel: u32, n: u32) -> (r: u32)
    requires
        n <= samples_per_pixel,
        done ==> n >= 1,
    ensures
        r == if done {
            samples_per_pixel - n + 1
        } else {
            1int
        },
{
    if done {
        samples_per_pixel - n + 1
    } else {
        1
    }
}

} // verus!
