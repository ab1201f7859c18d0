//! The rule by which the progress monitor reads the shared counter.
//!
//! Every worker adds one to the counter for each file of its slice that it
//! has finished, left out or not.  The slices cover the file list once, so
//! the counter reaches the number of files exactly when all workers are done.

use vstd::prelude::*;
use crate::partition::{lemma_slice_start_bounds, slice_of, slice_start};

verus! {

/// What the monitor does after it has read the counter.
#[derive(Debug, Clone, Copy, PartialEq, Eq, Structural)]
pub enum Poll {
    /// Report, wait, and read again.
    Again,
    /// Report and stop.
    Stop,
}

/// The monitor stops once the counter has reached the number of files.
pub open spec fn poll_of(count: nat, total: nat) -> Poll {
    if count >= total {
        Poll::Stop
    } else {
        Poll::Again
    }
}

/// Decides what the monitor does after it has read `count` of `total` files.
pub fn poll(count: usize, total: usize) -> (next: Poll)
    ensures
        next == poll_of(count as nat, total as nat),
{
    if count >= total {
        Poll::Stop
    } else {
        Poll::Again
    }
}

/// The sum of `counts`: what the counter shows when worker `i` has finished
/// `counts[i]` files.
pub open spec fn counted(counts: Seq<nat>) -> nat
    decreases counts.len(),
{
    if counts.len() == 0 {
        0
    } else {
        counted(counts.drop_last()) + counts.last()
    }
}

/// How many files each of `workers` workers gets of `items`.
pub open spec fn slice_lens<T>(items: Seq<T>, workers: nat) -> Seq<nat> {
    Seq::new(workers, |i: int| slice_of(items, workers, i as nat).len())
}

proof fn lemma_slice_lens_prefix<T>(items: Seq<T>, workers: nat, count: nat)
    requires
        workers >= 1,
        count <= workers,
    ensures
        counted(slice_lens(items, workers).take(count as int)) == slice_start(
            items.len(),
            workers,
            count,
        ),
    decreases count,
{
    lemma_slice_start_bounds(items.len(), workers, count);
    if count > 0 {
        let before = (count - 1) as nat;
        lemma_slice_lens_prefix(items, workers, before);
        lemma_slice_start_bounds(items.len(), workers, before);
        let head = slice_lens(items, workers).take(count as int);
        assert(head.drop_last() =~= slice_lens(items, workers).take(before as int));
        assert(head.last() == slice_of(items, workers, before).len());
    }
}

proof fn lemma_counted_bounded(done: Seq<nat>, most: Seq<nat>)
    requires
        done.len() == most.len(),
        forall|i: int| 0 <= i < done.len() ==> done[i] <= most[i],
    ensures
        counted(done) <= counted(most),
        counted(done) == counted(most) <==> done == most,
    decreases done.len(),
{
    if done.len() > 0 {
        lemma_counted_bounded(done.drop_last(), most.drop_last());
        if done.drop_last() == most.drop_last() && done.last() == most.last() {
            assert forall|i: int| 0 <= i < done.len() implies done[i] == most[i] by {
                if i < done.len() - 1 {
                    assert(done.drop_last()[i] == most.drop_last()[i]);
                }
            }
            assert(done =~= most);
        }
    } else {
        assert(done =~= most);
    }
}

/// The slices' lengths add up to the length of the list.
pub proof fn lemma_slice_lens_add_up<T>(items: Seq<T>, workers: nat)
    requires
        workers >= 1,
    ensures
        counted(slice_lens(items, workers)) == items.len(),
{
    lemma_slice_lens_prefix(items, workers, workers);
    lemma_slice_start_bounds(items.len(), workers, workers);
    assert(slice_lens(items, workers).take(workers as int) =~= slice_lens(items, workers));
}

/// The monitor stops exactly when every worker has finished its slice: as
/// long as one worker has a file left, the counter is short of the number
/// of files, and it never passes it.
pub proof fn lemma_monitor_follows_workers<T>(items: Seq<T>, workers: nat, done: Seq<nat>)
    requires
        workers >= 1,
        done.len() == workers,
        forall|i: int| 0 <= i < workers ==> done[i] <= slice_of(items, workers, i as nat).len(),
    ensures
        counted(done) <= items.len(),
        poll_of(counted(done), items.len()) == Poll::Stop <==> done == slice_lens(items, workers),
{
    lemma_slice_lens_add_up(items, workers);
    lemma_counted_bounded(done, slice_lens(items, workers));
}

} // verus!
