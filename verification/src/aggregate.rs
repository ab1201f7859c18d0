//! Merging what the workers found into one collection.
//!
//! The partial results are joined in the order of the workers, whatever the
//! order in which the workers finished, so that one split of one file list
//! always merges into the same collection.

use vstd::prelude::*;
use crate::indexer::{code_base, empty_code_base, file_paths_of, CodeBaseView};
use crate::llm::{file_views, morphism_views, object_views};
use crate::partition::{lemma_slice_start_bounds, slice_of, slice_start};

verus! {

/// `base` with the entities of `partial` added at the end of each kind.
pub open spec fn joined(base: CodeBaseView, partial: CodeBaseView) -> CodeBaseView {
    CodeBaseView {
        files: base.files + partial.files,
        objects: base.objects + partial.objects,
        morphisms: base.morphisms + partial.morphisms,
    }
}

/// The partial results joined in order.
pub open spec fn merged(partials: Seq<CodeBaseView>) -> CodeBaseView
    decreases partials.len(),
{
    if partials.len() == 0 {
        empty_code_base()
    } else {
        joined(merged(partials.drop_last()), partials.last())
    }
}

/// The views of a list of collections.
pub open spec fn code_base_views(partials: Seq<code_base>) -> Seq<CodeBaseView> {
    partials.map_values(|p: code_base| p@)
}

/// Merging keeps every entity and the order of the workers: each kind of
/// the merged collection is the partial results' lists of that kind, one
/// after the other.
pub proof fn lemma_merged_is_concatenation(partials: Seq<CodeBaseView>)
    ensures
        merged(partials).files == partials.map_values(|p: CodeBaseView| p.files).flatten(),
        merged(partials).objects == partials.map_values(|p: CodeBaseView| p.objects).flatten(),
        merged(partials).morphisms == partials.map_values(
            |p: CodeBaseView| p.morphisms,
        ).flatten(),
    decreases partials.len(),
{
    let files = partials.map_values(|p: CodeBaseView| p.files);
    let objects = partials.map_values(|p: CodeBaseView| p.objects);
    let morphisms = partials.map_values(|p: CodeBaseView| p.morphisms);
    if partials.len() == 0 {
        assert(files.flatten() =~= Seq::empty());
        assert(objects.flatten() =~= Seq::empty());
        assert(morphisms.flatten() =~= Seq::empty());
    } else {
        let head = partials.drop_last();
        lemma_merged_is_concatenation(head);
        let last = partials.last();
        assert(files =~= head.map_values(|p: CodeBaseView| p.files).push(last.files));
        assert(objects =~= head.map_values(|p: CodeBaseView| p.objects).push(last.objects));
        assert(morphisms =~= head.map_values(|p: CodeBaseView| p.morphisms).push(last.morphisms));
        head.map_values(|p: CodeBaseView| p.files).lemma_flatten_push(last.files);
        head.map_values(|p: CodeBaseView| p.objects).lemma_flatten_push(last.objects);
        head.map_values(|p: CodeBaseView| p.morphisms).lemma_flatten_push(last.morphisms);
    }
}

/// The merged collection holds as many files as the partial results hold
/// together.
pub proof fn lemma_merged_file_count(partials: Seq<CodeBaseView>)
    ensures
        merged(partials).files.len() == file_count(partials),
    decreases partials.len(),
{
    if partials.len() > 0 {
        lemma_merged_file_count(partials.drop_last());
    }
}

/// How many files the partial results hold together.
pub open spec fn file_count(partials: Seq<CodeBaseView>) -> nat
    decreases partials.len(),
{
    if partials.len() == 0 {
        0
    } else {
        file_count(partials.drop_last()) + partials.last().files.len()
    }
}

proof fn lemma_merge_follows_prefix(
    paths: Seq<Seq<char>>,
    workers: nat,
    partials: Seq<CodeBaseView>,
    count: nat,
)
    requires
        workers >= 1,
        count <= workers,
        partials.len() == workers,
        forall|i: int|
            0 <= i < workers ==> file_paths_of(#[trigger] partials[i]) == slice_of(
                paths,
                workers,
                i as nat,
            ),
    ensures
        file_paths_of(merged(partials.take(count as int))) == paths.take(
            slice_start(paths.len(), workers, count) as int,
        ),
    decreases count,
{
    lemma_slice_start_bounds(paths.len(), workers, count);
    if count == 0 {
        assert(file_paths_of(merged(partials.take(0))) =~= paths.take(0));
    } else {
        let before = (count - 1) as nat;
        lemma_merge_follows_prefix(paths, workers, partials, before);
        lemma_slice_start_bounds(paths.len(), workers, before);
        let head = partials.take(count as int);
        assert(head.drop_last() =~= partials.take(before as int));
        assert(head.last() == partials[before as int]);
        assert(file_paths_of(merged(head)) =~= file_paths_of(merged(head.drop_last()))
            + file_paths_of(head.last()));
        assert(paths.take(slice_start(paths.len(), workers, before) as int) + slice_of(
            paths,
            workers,
            before,
        ) =~= paths.take(slice_start(paths.len(), workers, count) as int));
    }
}

/// Where every worker has a record for each file of its slice, in the order
/// of the slice, the merged collection has a record for each file of the
/// list, in the order of the list, whichever worker finished first.
pub proof fn lemma_merge_follows_the_list(
    paths: Seq<Seq<char>>,
    workers: nat,
    partials: Seq<CodeBaseView>,
)
    requires
        workers >= 1,
        partials.len() == workers,
        forall|i: int|
            0 <= i < workers ==> file_paths_of(#[trigger] partials[i]) == slice_of(
                paths,
                workers,
                i as nat,
            ),
    ensures
        file_paths_of(merged(partials)) == paths,
        merged(partials).files.len() == paths.len(),
{
    lemma_merge_follows_prefix(paths, workers, partials, workers);
    lemma_slice_start_bounds(paths.len(), workers, workers);
    assert(partials.take(workers as int) =~= partials);
    assert(paths.take(paths.len() as int) =~= paths);
}

impl code_base {
    /// Adds the entities of `partial` at the end, each kind in its order.
    pub fn absorb(&mut self, partial: code_base)
        ensures
            final(self)@ == joined(old(self)@, partial@),
    {
        let mut partial = partial;
        let ghost added = partial;
        let ghost kept = *self;
        self.files.append(&mut partial.files);
        self.objects.append(&mut partial.objects);
        self.morphisms.append(&mut partial.morphisms);
        assert(file_views(self.files@) =~= file_views(kept.files@) + file_views(added.files@));
        assert(object_views(self.objects@) =~= object_views(kept.objects@) + object_views(
            added.objects@,
        ));
        assert(morphism_views(self.morphisms@) =~= morphism_views(kept.morphisms@)
            + morphism_views(added.morphisms@));
    }
}

/// Merges the partial results, given in the order of the workers, into one
/// collection.
pub fn merge(partials: Vec<code_base>) -> (all: code_base)
    ensures
        all@ == merged(code_base_views(partials@)),
{
    let ghost input = partials@;
    let mut all = code_base::default();
    assert(code_base_views(input.take(0)) =~= Seq::empty());
    for partial in it: partials
        invariant
            it.seq() == input,
            all@ == merged(code_base_views(input.take(it.index() as int))),
    {
        let ghost done = it.index() as int;
        all.absorb(partial);
        assert(code_base_views(input.take(done + 1)).drop_last() =~= code_base_views(
            input.take(done),
        ));
        assert(code_base_views(input.take(done + 1)).last() == input[done]@);
    }
    assert(input.take(input.len() as int) =~= input);
    all
}

} // verus!
