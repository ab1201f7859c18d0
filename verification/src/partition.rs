//! Splitting a file list into contiguous slices, one per worker.

use vstd::prelude::*;

verus! {

/// The quotient `files / workers`, rounded up.
pub open spec fn chunk_len(files: nat, workers: nat) -> nat
    recommends
        workers >= 1,
{
    if files % workers == 0 {
        files / workers
    } else {
        files / workers + 1
    }
}

/// Where slice `index` begins: `index` whole chunks in, but never past the end.
pub open spec fn slice_start(files: nat, workers: nat, index: nat) -> nat {
    if index * chunk_len(files, workers) <= files {
        index * chunk_len(files, workers)
    } else {
        files
    }
}

/// The items of slice `index` when `items` is split among `workers` workers.
pub open spec fn slice_of<T>(items: Seq<T>, workers: nat, index: nat) -> Seq<T> {
    items.subrange(
        slice_start(items.len(), workers, index) as int,
        slice_start(items.len(), workers, index + 1) as int,
    )
}

/// All `workers` slices of `items`, in worker order.
pub open spec fn slices_of<T>(items: Seq<T>, workers: nat) -> Seq<Seq<T>> {
    Seq::new(workers, |index: int| slice_of(items, workers, index as nat))
}

/// The chunk length is the least `c` with `c * workers >= files`.
pub proof fn lemma_chunk_len_is_ceiling(files: nat, workers: nat)
    requires
        workers >= 1,
    ensures
        chunk_len(files, workers) * workers >= files,
        chunk_len(files, workers) >= 1 ==> (chunk_len(files, workers) - 1) * workers < files,
        chunk_len(files, workers) <= files,
{
    let q = files / workers;
    let r = files % workers;
    assert(files == workers * q + r && 0 <= r < workers) by {
        vstd::arithmetic::div_mod::lemma_fundamental_div_mod(files as int, workers as int);
    }
    assert(q * workers == workers * q) by (nonlinear_arith);
    assert((q + 1) * workers == workers * q + workers) by (nonlinear_arith);
    assert((q - 1) * workers == workers * q - workers) by (nonlinear_arith);
    assert(q <= workers * q) by (nonlinear_arith)
        requires
            workers >= 1,
            q >= 0,
    ;
}

/// Slice starts never go backwards, begin at 0, stay within the list, and
/// reach its end at index `workers`.
pub proof fn lemma_slice_start_bounds(files: nat, workers: nat, index: nat)
    requires
        workers >= 1,
    ensures
        slice_start(files, workers, 0) == 0,
        slice_start(files, workers, index) <= slice_start(files, workers, index + 1) <= files,
        slice_start(files, workers, index + 1) - slice_start(files, workers, index) <= chunk_len(
            files,
            workers,
        ),
        index >= workers ==> slice_start(files, workers, index) == files,
{
    let c = chunk_len(files, workers);
    lemma_chunk_len_is_ceiling(files, workers);
    assert(0 * c == 0) by (nonlinear_arith);
    assert((index + 1) * c == index * c + c) by (nonlinear_arith);
    if index >= workers {
        assert(index * c >= workers * c) by (nonlinear_arith)
            requires
                index >= workers,
                c >= 0,
        ;
        assert(workers * c == c * workers) by (nonlinear_arith);
    }
}

/// The first `count` slices, joined in order, are the items before the start
/// of slice `count`.
pub proof fn lemma_slices_prefix<T>(items: Seq<T>, workers: nat, count: nat)
    requires
        workers >= 1,
        count <= workers,
    ensures
        slices_of(items, workers).take(count as int).flatten() == items.take(
            slice_start(items.len(), workers, count) as int,
        ),
    decreases count,
{
    let all = slices_of(items, workers);
    if count == 0 {
        lemma_slice_start_bounds(items.len(), workers, 0);
        assert(all.take(0).flatten() =~= Seq::<T>::empty());
        assert(items.take(0) =~= Seq::<T>::empty());
    } else {
        let before = (count - 1) as nat;
        lemma_slices_prefix(items, workers, before);
        lemma_slice_start_bounds(items.len(), workers, before);
        assert(all.take(count as int) =~= all.take(before as int).push(all[before as int]));
        all.take(before as int).lemma_flatten_push(all[before as int]);
        assert(all[before as int] == slice_of(items, workers, before));
        assert(items.take(slice_start(items.len(), workers, before) as int) + slice_of(
            items,
            workers,
            before,
        ) =~= items.take(slice_start(items.len(), workers, count) as int));
    }
}

/// Splitting covers the list exactly once and keeps its order: the slices,
/// joined in worker order, are the list itself.  There are `workers` slices,
/// so at most that many are non-empty, and each holds at most one chunk.
pub proof fn lemma_partition_covers<T>(items: Seq<T>, workers: nat)
    requires
        workers >= 1,
    ensures
        slices_of(items, workers).len() == workers,
        slices_of(items, workers).flatten() == items,
        forall|index: int|
            0 <= index < workers ==> (#[trigger] slices_of(items, workers)[index]).len()
                <= chunk_len(items.len(), workers),
{
    let all = slices_of(items, workers);
    lemma_slices_prefix(items, workers, workers);
    lemma_slice_start_bounds(items.len(), workers, workers);
    assert(all.take(workers as int) =~= all);
    assert(items.take(items.len() as int) =~= items);
    assert forall|index: int| 0 <= index < workers implies (#[trigger] all[index]).len()
        <= chunk_len(items.len(), workers) by {
        lemma_slice_start_bounds(items.len(), workers, index as nat);
    }
}

/// Two different slices share no position of the list: the earlier one ends
/// before the later one begins.
pub proof fn lemma_slices_disjoint(files: nat, workers: nat, first: nat, second: nat)
    requires
        workers >= 1,
        first < second,
    ensures
        slice_start(files, workers, first + 1) <= slice_start(files, workers, second),
    decreases second - first,
{
    if first + 1 < second {
        lemma_slices_disjoint(files, workers, first + 1, second);
        lemma_slice_start_bounds(files, workers, first + 1);
    }
}

/// Chunk size for `files` items and `workers` workers.
pub fn chunk_size(files: usize, workers: usize) -> (c: usize)
    requires
        workers >= 1,
    ensures
        c == chunk_len(files as nat, workers as nat),
{
    let whole: usize = files / workers;
    if files % workers == 0 {
        whole
    } else {
        proof {
            lemma_chunk_len_is_ceiling(files as nat, workers as nat);
        }
        whole + 1
    }
}

/// The half-open index range of every slice, in worker order.
pub fn partition_bounds(files: usize, workers: usize) -> (bounds: Vec<(usize, usize)>)
    requires
        workers >= 1,
    ensures
        bounds.len() == workers,
        forall|index: int|
            0 <= index < workers ==> #[trigger] bounds[index] == (
                slice_start(files as nat, workers as nat, index as nat) as usize,
                slice_start(files as nat, workers as nat, (index + 1) as nat) as usize,
            ),
{
    let chunk: usize = chunk_size(files, workers);
    let mut bounds: Vec<(usize, usize)> = Vec::new();
    let mut start: usize = 0;
    let mut worker: usize = 0;
    proof {
        lemma_slice_start_bounds(files as nat, workers as nat, 0);
    }
    while worker < workers
        invariant
            workers >= 1,
            worker <= workers,
            chunk == chunk_len(files as nat, workers as nat),
            bounds.len() == worker,
            start == slice_start(files as nat, workers as nat, worker as nat),
            start <= files,
            forall|index: int|
                0 <= index < worker ==> #[trigger] bounds[index] == (
                    slice_start(files as nat, workers as nat, index as nat) as usize,
                    slice_start(files as nat, workers as nat, (index + 1) as nat) as usize,
                ),
        decreases workers - worker,
    {
        let end: usize = if chunk > files - start {
            files
        } else {
            start + chunk
        };
        proof {
            lemma_slice_start_bounds(files as nat, workers as nat, worker as nat);
            assert((worker + 1) * chunk == worker * chunk + chunk) by (nonlinear_arith);
        }
        bounds.push((start, end));
        start = end;
        worker = worker + 1;
    }
    bounds
}

/// The contents of a list of slices.
pub open spec fn part_views(parts: Seq<Vec<String>>) -> Seq<Seq<String>> {
    parts.map_values(|part: Vec<String>| part@)
}

/// Splits `files` into `workers` contiguous slices of one chunk each, the
/// last ones shorter or empty where the list runs out.  The slices, one
/// after the other, are the list.
pub fn partition(files: &Vec<String>, workers: usize) -> (parts: Vec<Vec<String>>)
    requires
        workers >= 1,
    ensures
        parts.len() == workers,
        part_views(parts@) == slices_of(files@, workers as nat),
        part_views(parts@).flatten() == files@,
{
    let bounds = partition_bounds(files.len(), workers);
    let mut parts: Vec<Vec<String>> = Vec::new();
    let mut worker: usize = 0;
    while worker < workers
        invariant
            workers >= 1,
            worker <= workers,
            bounds.len() == workers,
            parts.len() == worker,
            forall|index: int|
                0 <= index < workers ==> #[trigger] bounds[index] == (
                    slice_start(files.len() as nat, workers as nat, index as nat) as usize,
                    slice_start(files.len() as nat, workers as nat, (index + 1) as nat) as usize,
                ),
            forall|index: int|
                0 <= index < worker ==> (#[trigger] parts[index])@ == slice_of(
                    files@,
                    workers as nat,
                    index as nat,
                ),
        decreases workers - worker,
    {
        let (start, end) = bounds[worker];
        proof {
            lemma_slice_start_bounds(files.len() as nat, workers as nat, worker as nat);
        }
        let mut part: Vec<String> = Vec::new();
        let mut at: usize = start;
        while at < end
            invariant
                start <= at <= end <= files.len(),
                part@ == files@.subrange(start as int, at as int),
            decreases end - at,
        {
            part.push(files[at].clone());
            at = at + 1;
            assert(part@ =~= files@.subrange(start as int, at as int));
        }
        parts.push(part);
        worker = worker + 1;
    }
    proof {
        assert(part_views(parts@) =~= slices_of(files@, workers as nat));
        lemma_partition_covers(files@, workers as nat);
    }
    parts
}

} // verus!
