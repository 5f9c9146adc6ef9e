//! Double-buffered per-worker pixel work lists.
//!
//! Each worker owns the pixel indices a static partition assigned to it and
//! keeps them in two buffers: the primary list holds the pixels of the
//! current sample pass, the secondary accumulates those that must be
//! revisited. Processing a pixel appends it to the secondary list unless its
//! estimate converged; at the end of a pass the two buffers are swapped and
//! the secondary is emptied, so shrinking lists are rebuilt without
//! reallocation. The lemmas at the end state the pass discipline's laws:
//! a pass conserves the assigned pixels up to the ones it retires, keeps
//! them duplicate-free, and never re-queues a retired pixel; and distinct
//! workers' assignments never share a pixel.

use vstd::prelude::*;

verus! {

use crate::sampling::progress_increment;
use crate::stats::{fp_bit, Stats, CONVERGENCE_THRESHOLD};

/// The pixel indices of `assigned` that carry the worker id `tid`, in
/// increasing order.
pub open spec fn indices_assigned_to(assigned: Seq<u32>, tid: u32) -> Seq<usize>
    decreases assigned.len(),
{
    if assigned.len() == 0 {
        Seq::empty()
    } else {
        let rest = indices_assigned_to(assigned.drop_last(), tid);
        if assigned.last() == tid {
            rest.push((assigned.len() - 1) as usize)
        } else {
            rest
        }
    }
}

/// The pixels a pass re-queues: those of `active`, in order, whose decision
/// in `done` was to keep sampling.
pub open spec fn surviving(active: Seq<usize>, done: Seq<bool>) -> Seq<usize>
    decreases active.len(),
{
    if active.len() == 0 || done.len() == 0 {
        Seq::empty()
    } else {
        let rest = surviving(active.drop_last(), done.drop_last());
        if done.last() {
            rest
        } else {
            rest.push(active.last())
        }
    }
}

/// The pixels a pass retires: those of `active` whose decision in `done`
/// declared them converged.
pub open spec fn retired(active: Seq<usize>, done: Seq<bool>) -> Seq<usize>
    decreases active.len(),
{
    if active.len() == 0 || done.len() == 0 {
        Seq::empty()
    } else {
        let rest = retired(active.drop_last(), done.drop_last());
        if done.last() {
            rest.push(active.last())
        } else {
            rest
        }
    }
}

/// A worker's work list for the current pass and the list it builds for the
/// next one.
pub struct ThreadPixels {
    /// Pixel indices of the current pass; only the first `len` are live.
    pub list: Vec<usize>,
    /// Number of live entries of `list`.
    pub len: usize,
    /// Pixel indices re-queued for the next pass; only the first
    /// `backbuff_len` are live, the rest is scratch space.
    pub backbuff_list: Vec<usize>,
    /// Number of live entries of `backbuff_list`.
    pub backbuff_len: usize,
}

impl ThreadPixels {
    /// Both buffers are equally long and the live counts stay within them.
    pub open spec fn wf(&self) -> bool {
        &&& self.len <= self.list@.len()
        &&& self.backbuff_len <= self.backbuff_list@.len()
        &&& self.list@.len() == self.backbuff_list@.len()
    }

    /// The live pixels of the current pass.
    pub open spec fn active(&self) -> Seq<usize> {
        self.list@.take(self.len as int)
    }

    /// The pixels re-queued so far for the next pass.
    pub open spec fn pending(&self) -> Seq<usize> {
        self.backbuff_list@.take(self.backbuff_len as int)
    }

    /// Empty work list; `expected_max_size` only pre-sizes the buffers.
    pub fn new(expected_max_size: usize) -> (tp: Self)
        ensures
            tp.wf(),
            tp.active() == Seq::<usize>::empty(),
            tp.pending() == Seq::<usize>::empty(),
            tp.len == 0,
            tp.backbuff_len == 0,
            tp.list@.len() == 0,
            tp.backbuff_list@.len() == 0,
    {
        let tp = ThreadPixels {
            list: Vec::with_capacity(expected_max_size),
            len: 0,
            backbuff_list: Vec::with_capacity(expected_max_size),
            backbuff_len: 0,
        };
        proof {
            assert(tp.active() =~= Seq::<usize>::empty());
            assert(tp.pending() =~= Seq::<usize>::empty());
        }
        tp
    }

    /// Appends a pixel to the current pass; the secondary buffer grows by a
    /// scratch entry so that it can always hold every re-queued pixel.
    pub fn push(&mut self, pxl_idx: usize)
        requires
            old(self).wf(),
            old(self).len < usize::MAX,
            old(self).len == old(self).list@.len(),
        ensures
            final(self).wf(),
            final(self).len == old(self).len + 1,
            final(self).len == final(self).list@.len(),
            final(self).active() == old(self).active().push(pxl_idx),
            final(self).pending() == old(self).pending(),
            final(self).backbuff_len == old(self).backbuff_len,
    {
        self.list.push(pxl_idx);
        self.len = self.len + 1;
        // Scratch value: only the first `backbuff_len` entries are ever read.
        self.backbuff_list.push(9999);
        proof {
            assert(self.active() =~= old(self).active().push(pxl_idx));
            assert(self.pending() =~= old(self).pending());
        }
    }

    /// Drops the buffers' spare capacity; the lists themselves are unchanged.
    pub fn shrink_to_fit(&mut self)
        requires
            old(self).wf(),
        ensures
            final(self).wf(),
            final(self).list@ == old(self).list@,
            final(self).backbuff_list@ == old(self).backbuff_list@,
            final(self).active() == old(self).active(),
            final(self).pending() == old(self).pending(),
            final(self).len == old(self).len,
            final(self).backbuff_len == old(self).backbuff_len,
    {
        vec_shrink_to_fit(&mut self.list);
        vec_shrink_to_fit(&mut self.backbuff_list);
    }

    /// Makes the re-queued pixels the next pass's work list and empties the
    /// secondary buffer.
    pub fn swap_buffers(&mut self)
        requires
            old(self).wf(),
        ensures
            final(self).wf(),
            final(self).active() == old(self).pending(),
            final(self).pending() == Seq::<usize>::empty(),
            final(self).len == old(self).backbuff_len,
            final(self).backbuff_len == 0,
    {
        core::mem::swap(&mut self.list, &mut self.backbuff_list);
        self.len = self.backbuff_len;
        self.backbuff_len = 0;
        proof {
            assert(self.pending() =~= Seq::<usize>::empty());
        }
    }

    /// Processes position `i` of the current pass: the pixel is re-queued
    /// into the secondary buffer unless `done` retires it.
    pub fn add_run(&mut self, i: usize, done: bool)
        requires
            old(self).wf(),
            i < old(self).len,
            old(self).backbuff_len <= i,
        ensures
            final(self).wf(),
            final(self).list == old(self).list,
            final(self).len == old(self).len,
            final(self).active() == old(self).active(),
            final(self).backbuff_len == old(self).backbuff_len + (if done { 0int } else { 1int }),
            final(self).pending() == (if done {
                old(self).pending()
            } else {
                old(self).pending().push(old(self).active()[i as int])
            }),
    {
        let b: usize = self.backbuff_len;
        self.backbuff_list[b] = self.list[i];
        if !done {
            self.backbuff_len = self.backbuff_len + 1;
        }
        proof {
            assert(self.active() =~= old(self).active());
            if done {
                assert(self.pending() =~= old(self).pending());
            } else {
                assert(self.pending() =~= old(self).pending().push(
                    old(self).active()[i as int],
                ));
            }
        }
    }
}

/// Relies on std's Vec::shrink_to_fit: it only drops excess capacity, the
/// contents are unchanged.
#[verifier::external_body]
fn vec_shrink_to_fit(v: &mut Vec<usize>)
    ensures
        final(v)@ == old(v)@,
{
    v.shrink_to_fit()
}

/// Builds a worker's initial work list: all pixel indices that the static
/// partition `assigned_thread` maps to worker `tid`, in increasing order,
/// with nothing re-queued yet.
pub fn build_work_list(assigned_thread: &Vec<u32>, tid: u32) -> (tp: ThreadPixels)
    ensures
        tp.wf(),
        tp.active() == indices_assigned_to(assigned_thread@, tid),
        tp.pending() == Seq::<usize>::empty(),
        tp.len == tp.list@.len(),
        tp.backbuff_len == 0,
{
    let image_size: usize = assigned_thread.len();
    let mut tp = ThreadPixels::new(image_size);
    for pos in 0..image_size
        invariant
            tp.wf(),
            tp.len == tp.list@.len(),
            tp.len <= pos,
            pos <= image_size,
            image_size == assigned_thread@.len(),
            tp.active() == indices_assigned_to(assigned_thread@.take(pos as int), tid),
            tp.pending() == Seq::<usize>::empty(),
            tp.backbuff_len == 0,
    {
        proof {
            assert(assigned_thread@.take(pos as int + 1).drop_last() =~= assigned_thread@.take(
                pos as int,
            ));
        }
        if assigned_thread[pos] == tid {
            tp.push(pos);
        }
    }
    proof {
        assert(assigned_thread@.take(image_size as int) =~= assigned_thread@);
    }
    tp.shrink_to_fit();
    tp
}

/// One pixel-sample's bookkeeping, as the render loop performs it: folds
/// the sample's quantized mean and hit object id into the pixel's
/// statistics, re-queues the pixel at position `i` of the current pass
/// unless this sample just retired it, and returns by how much the shared
/// progress counter advances — the pixel's whole remaining budget on
/// convergence, one otherwise.
pub fn process_pixel_sample(
    tp: &mut ThreadPixels,
    stats: &mut Stats,
    i: usize,
    quantized: (u8, u8, u8),
    obj_id: u64,
    samples_per_pixel: u32,
) -> (log: u32)
    requires
        old(tp).wf(),
        i < old(tp).len,
        old(tp).backbuff_len <= i,
        old(stats).wf(),
        old(stats).n < samples_per_pixel,
    ensures
        final(stats).n == old(stats).n + 1,
        final(stats).color == quantized,
        final(stats).bad_avgs == if quantized == old(stats).color {
            old(stats).bad_avgs + 1
        } else {
            0int
        },
        final(stats).fingerprint == old(stats).fingerprint | fp_bit(obj_id),
        final(stats).wf(),
        final(tp).wf(),
        final(tp).active() == old(tp).active(),
        final(tp).len == old(tp).len,
        ({
            let done = final(stats).bad_avgs >= CONVERGENCE_THRESHOLD;
            &&& final(tp).pending() == (if done {
                old(tp).pending()
            } else {
                old(tp).pending().push(old(tp).active()[i as int])
            })
            &&& final(tp).backbuff_len == old(tp).backbuff_len + (if done {
                0int
            } else {
                1int
            })
            &&& log == (if done {
                samples_per_pixel - final(stats).n + 1
            } else {
                1int
            })
        }),
{
    let done = stats.add(quantized, obj_id);
    tp.add_run(i, done);
    progress_increment(done, samples_per_pixel, stats.n)
}

/// Unfolding of `surviving` along a pass: processing position `i` (as
/// `add_run` does) extends the pixels re-queued from the first `i` positions
/// by `active[i]` exactly when the pixel was not retired.
pub proof fn lemma_surviving_step(active: Seq<usize>, done: Seq<bool>, i: int)
    requires
        done.len() == active.len(),
        0 <= i < active.len(),
    ensures
        surviving(active.take(i + 1), done.take(i + 1)) == (if done[i] {
            surviving(active.take(i), done.take(i))
        } else {
            surviving(active.take(i), done.take(i)).push(active[i])
        }),
{
    assert(active.take(i + 1).drop_last() =~= active.take(i));
    assert(done.take(i + 1).drop_last() =~= done.take(i));
}

/// A pass only re-queues pixels of its own work list.
pub proof fn lemma_surviving_elements(active: Seq<usize>, done: Seq<bool>)
    requires
        done.len() == active.len(),
    ensures
        forall|p: usize| surviving(active, done).contains(p) ==> active.contains(p),
{
    broadcast use vstd::seq_lib::group_to_multiset_ensures;
    broadcast use vstd::multiset::group_multiset_axioms;

    lemma_pass_conserves_pixels(active, done);
    assert forall|p: usize| surviving(active, done).contains(p) implies active.contains(p) by {
        assert(surviving(active, done).to_multiset().count(p) > 0);
        assert(active.to_multiset().count(p) > 0);
    }
}

/// A pass retires the pixel of every position whose decision declared it
/// converged.
pub proof fn lemma_retired_contains(active: Seq<usize>, done: Seq<bool>, i: int)
    requires
        done.len() == active.len(),
        0 <= i < active.len(),
        done[i],
    ensures
        retired(active, done).contains(active[i]),
    decreases active.len(),
{
    broadcast use vstd::seq_lib::group_seq_properties;

    if i == active.len() - 1 {
        assert(retired(active, done) == retired(active.drop_last(), done.drop_last()).push(
            active.last(),
        ));
    } else {
        lemma_retired_contains(active.drop_last(), done.drop_last(), i);
    }
}

/// A pass conserves pixels: the re-queued and the retired pixels together
/// are exactly the pixels of the pass's work list.
pub proof fn lemma_pass_conserves_pixels(active: Seq<usize>, done: Seq<bool>)
    requires
        done.len() == active.len(),
    ensures
        surviving(active, done).to_multiset().add(retired(active, done).to_multiset())
            =~= active.to_multiset(),
    decreases active.len(),
{
    broadcast use vstd::seq_lib::group_to_multiset_ensures;

    if active.len() == 0 {
    } else {
        let a = active.drop_last();
        let d = done.drop_last();
        lemma_pass_conserves_pixels(a, d);
        assert(a.push(active.last()) =~= active);
    }
}

/// A pass never duplicates work: if the work list holds each pixel once, so
/// does the list of re-queued pixels.
pub proof fn lemma_surviving_no_duplicates(active: Seq<usize>, done: Seq<bool>)
    requires
        done.len() == active.len(),
        active.no_duplicates(),
    ensures
        surviving(active, done).no_duplicates(),
{
    broadcast use vstd::seq_lib::group_to_multiset_ensures;
    broadcast use vstd::multiset::group_multiset_axioms;

    lemma_pass_conserves_pixels(active, done);
    active.lemma_multiset_has_no_duplicates();
    let s = surviving(active, done);
    assert forall|x: usize| s.to_multiset().contains(x) implies s.to_multiset().count(x)
        == 1 by {
        assert(active.to_multiset().count(x) > 0);
    }
    s.lemma_multiset_has_no_duplicates_conv();
}

/// A retired pixel is never re-queued: once a pass's decision declares a
/// pixel of a duplicate-free work list done, that pixel is absent from the
/// list handed to the next pass.
pub proof fn lemma_converged_not_requeued(active: Seq<usize>, done: Seq<bool>, i: int)
    requires
        done.len() == active.len(),
        active.no_duplicates(),
        0 <= i < active.len(),
        done[i],
    ensures
        !surviving(active, done).contains(active[i]),
{
    broadcast use vstd::seq_lib::group_to_multiset_ensures;
    broadcast use vstd::multiset::group_multiset_axioms;

    lemma_pass_conserves_pixels(active, done);
    active.lemma_multiset_has_no_duplicates();
    lemma_retired_contains(active, done, i);
    let p = active[i];
    assert(active.contains(p));
    assert(active.to_multiset().count(p) == 1);
    assert(retired(active, done).to_multiset().count(p) > 0);
    if surviving(active, done).contains(p) {
        assert(surviving(active, done).to_multiset().count(p) > 0);
    }
}

/// A pass that re-queues every pixel it processes hands the next pass
/// exactly its own work list, in order.
pub proof fn lemma_surviving_all_requeued(active: Seq<usize>, done: Seq<bool>)
    requires
        done.len() == active.len(),
        forall|i: int| 0 <= i < done.len() ==> !done[i],
    ensures
        surviving(active, done) == active,
    decreases active.len(),
{
    if active.len() == 0 {
        assert(surviving(active, done) =~= active);
    } else {
        lemma_surviving_all_requeued(active.drop_last(), done.drop_last());
        assert(surviving(active, done) =~= active);
    }
}

/// Whether each pass's decision list matches the length of the work list it
/// is applied to.
pub open spec fn passes_wf(assigned: Seq<usize>, decisions: Seq<Seq<bool>>) -> bool
    decreases decisions.len(),
{
    decisions.len() == 0 || (decisions.first().len() == assigned.len() && passes_wf(
        surviving(assigned, decisions.first()),
        decisions.drop_first(),
    ))
}

/// The work list left after running the passes of `decisions`, in order,
/// starting from the static assignment.
pub open spec fn after_passes(assigned: Seq<usize>, decisions: Seq<Seq<bool>>) -> Seq<usize>
    decreases decisions.len(),
{
    if decisions.len() == 0 {
        assigned
    } else {
        after_passes(surviving(assigned, decisions.first()), decisions.drop_first())
    }
}

/// Work-list invariant over whole renders: after any number of pass/swap
/// cycles the worker's list still holds each pixel at most once and holds
/// only pixels of its original static assignment — work neither leaks in
/// from elsewhere nor gets duplicated.
pub proof fn lemma_after_passes_stays_assigned(assigned: Seq<usize>, decisions: Seq<Seq<bool>>)
    requires
        passes_wf(assigned, decisions),
        assigned.no_duplicates(),
    ensures
        after_passes(assigned, decisions).no_duplicates(),
        forall|p: usize| after_passes(assigned, decisions).contains(p) ==> assigned.contains(p),
    decreases decisions.len(),
{
    if decisions.len() == 0 {
    } else {
        let next = surviving(assigned, decisions.first());
        lemma_surviving_no_duplicates(assigned, decisions.first());
        lemma_surviving_elements(assigned, decisions.first());
        lemma_after_passes_stays_assigned(next, decisions.drop_first());
    }
}

/// Work-list conservation: as long as no pixel converges, any number of
/// pass/swap cycles hands back exactly the original static assignment.
/// (A converged pixel is deliberately retired from both lists; with
/// retirement, `lemma_pass_conserves_pixels` accounts for every pixel.)
pub proof fn lemma_after_passes_requeue_all(assigned: Seq<usize>, decisions: Seq<Seq<bool>>)
    requires
        passes_wf(assigned, decisions),
        forall|k: int, i: int|
            0 <= k < decisions.len() && 0 <= i < decisions[k].len() ==> !decisions[k][i],
    ensures
        after_passes(assigned, decisions) == assigned,
    decreases decisions.len(),
{
    if decisions.len() == 0 {
    } else {
        assert(decisions[0] == decisions.first());
        lemma_surviving_all_requeued(assigned, decisions.first());
        assert forall|k: int, i: int|
            0 <= k < decisions.drop_first().len() && 0 <= i < decisions.drop_first()[k].len()
            implies !decisions.drop_first()[k][i] by {
            assert(decisions.drop_first()[k] == decisions[k + 1]);
        }
        lemma_after_passes_requeue_all(assigned, decisions.drop_first());
    }
}

/// Retirement is for good: a pixel absent from a pass's work list (for
/// instance one whose convergence was just reported, by
/// `lemma_converged_not_requeued`) is absent from every later pass's list.
pub proof fn lemma_retired_never_returns(active: Seq<usize>, decisions: Seq<Seq<bool>>, p: usize)
    requires
        passes_wf(active, decisions),
        !active.contains(p),
    ensures
        !after_passes(active, decisions).contains(p),
    decreases decisions.len(),
{
    if decisions.len() == 0 {
    } else {
        let next = surviving(active, decisions.first());
        lemma_surviving_elements(active, decisions.first());
        lemma_retired_never_returns(next, decisions.drop_first(), p);
    }
}

/// The indices of a worker's assignment are in-range, name that worker, and
/// are strictly increasing (so duplicate-free).
pub proof fn lemma_indices_assigned_to_bounds(assigned: Seq<u32>, tid: u32)
    requires
        assigned.len() <= usize::MAX,
    ensures
        forall|j: int|
            0 <= j < indices_assigned_to(assigned, tid).len()
                ==> #[trigger] indices_assigned_to(assigned, tid)[j] < assigned.len()
                && assigned[indices_assigned_to(assigned, tid)[j] as int] == tid,
        forall|j1: int, j2: int|
            0 <= j1 < j2 < indices_assigned_to(assigned, tid).len()
                ==> #[trigger] indices_assigned_to(assigned, tid)[j1]
                < #[trigger] indices_assigned_to(assigned, tid)[j2],
        indices_assigned_to(assigned, tid).no_duplicates(),
    decreases assigned.len(),
{
    broadcast use vstd::seq_lib::group_seq_properties;

    if assigned.len() == 0 {
    } else {
        let a = assigned.drop_last();
        lemma_indices_assigned_to_bounds(a, tid);
        let rest = indices_assigned_to(a, tid);
        let full = indices_assigned_to(assigned, tid);
        assert forall|j: int| 0 <= j < full.len() implies full[j] < assigned.len() && assigned[
        full[j] as int] == tid by {
            if j < rest.len() {
                assert(full[j] == rest[j]);
                assert(a[rest[j] as int] == assigned[rest[j] as int]);
            } else {
                assert(full == rest.push((assigned.len() - 1) as usize));
                assert(full[j] == assigned.len() - 1);
            }
        }
        assert forall|j1: int, j2: int| 0 <= j1 < j2 < full.len() implies full[j1]
            < full[j2] by {
            if j2 < rest.len() {
                assert(full[j1] == rest[j1] && full[j2] == rest[j2]);
            } else {
                assert(full[j1] == rest[j1] < a.len());
            }
        }
        assert forall|j1: int, j2: int|
            0 <= j1 < full.len() && 0 <= j2 < full.len() && j1 != j2 implies full[j1] != full[
        j2] by {
            if j1 < j2 {
                assert(full[j1] < full[j2]);
            } else {
                assert(full[j2] < full[j1]);
            }
        }
    }
}

/// No cross-worker leakage: two different workers' static assignments never
/// share a pixel.
pub proof fn lemma_workers_disjoint(assigned: Seq<u32>, tid1: u32, tid2: u32)
    requires
        assigned.len() <= usize::MAX,
        tid1 != tid2,
    ensures
        forall|p: usize|
            indices_assigned_to(assigned, tid1).contains(p) ==> !indices_assigned_to(
                assigned,
                tid2,
            ).contains(p),
{
    lemma_indices_assigned_to_bounds(assigned, tid1);
    lemma_indices_assigned_to_bounds(assigned, tid2);
    assert forall|p: usize|
        indices_assigned_to(assigned, tid1).contains(p) implies !indices_assigned_to(
        assigned,
        tid2,
    ).contains(p) by {
        let j1 = choose|j: int|
            0 <= j < indices_assigned_to(assigned, tid1).len() && indices_assigned_to(
                assigned,
                tid1,
            )[j] == p;
        if indices_assigned_to(assigned, tid2).contains(p) {
            let j2 = choose|j: int|
                0 <= j < indices_assigned_to(assigned, tid2).len() && indices_assigned_to(
                    assigned,
                    tid2,
                )[j] == p;
            assert(assigned[p as int] == tid1 && assigned[p as int] == tid2);
        }
    }
}

} // verus!
