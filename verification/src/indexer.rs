//! The merged collection of entities and the similarity search over it.

use vstd::prelude::*;
use crate::text::same_text;
use crate::llm::{
    copy_bits, copy_files, copy_morphisms, copy_objects, file_views, morphism_views, object_views,
    File, FileView, Morphism, MorphismView, Object, ObjectView,
};
use crate::rank::{rank_first, ranking};
use crate::score::similarity_key;

verus! {

/// Every entity found so far, each kind in the order in which it was added.
/// Nothing is ever merged or removed: two entities of one name stay two.
#[allow(non_camel_case_types)]
#[derive(Debug)]
pub struct code_base {
    pub files: Vec<File>,
    pub objects: Vec<Object>,
    pub morphisms: Vec<Morphism>,
}

/// What a `code_base` holds.
pub struct CodeBaseView {
    pub files: Seq<FileView>,
    pub objects: Seq<ObjectView>,
    pub morphisms: Seq<MorphismView>,
}

impl View for code_base {
    type V = CodeBaseView;

    open spec fn view(&self) -> CodeBaseView {
        CodeBaseView {
            files: file_views(self.files@),
            objects: object_views(self.objects@),
            morphisms: morphism_views(self.morphisms@),
        }
    }
}

/// The answer to a query: the entities of the kind asked for, best first.
#[allow(non_camel_case_types)]
#[derive(Debug)]
pub struct query_result {
    pub relevant_files: Vec<File>,
    pub relevant_objects: Vec<Object>,
    pub relevant_morphisms: Vec<Morphism>,
}

/// What a `query_result` holds.
pub struct QueryResultView {
    pub relevant_files: Seq<FileView>,
    pub relevant_objects: Seq<ObjectView>,
    pub relevant_morphisms: Seq<MorphismView>,
}

impl View for query_result {
    type V = QueryResultView;

    open spec fn view(&self) -> QueryResultView {
        QueryResultView {
            relevant_files: file_views(self.relevant_files@),
            relevant_objects: object_views(self.relevant_objects@),
            relevant_morphisms: morphism_views(self.relevant_morphisms@),
        }
    }
}

/// The paths of the files of a collection, in order.
pub open spec fn file_paths_of(base: CodeBaseView) -> Seq<Seq<char>> {
    base.files.map_values(|f: FileView| f.path)
}

/// The collection without any entity.
pub open spec fn empty_code_base() -> CodeBaseView {
    CodeBaseView { files: Seq::empty(), objects: Seq::empty(), morphisms: Seq::empty() }
}

/// The answer without any entity.
pub open spec fn empty_result() -> QueryResultView {
    QueryResultView {
        relevant_files: Seq::empty(),
        relevant_objects: Seq::empty(),
        relevant_morphisms: Seq::empty(),
    }
}

impl Clone for code_base {
    fn clone(&self) -> (copy: Self)
        ensures
            copy@ == self@,
    {
        code_base {
            files: copy_files(&self.files),
            objects: copy_objects(&self.objects),
            morphisms: copy_morphisms(&self.morphisms),
        }
    }
}

impl Clone for query_result {
    fn clone(&self) -> (copy: Self)
        ensures
            copy@ == self@,
    {
        query_result {
            relevant_files: copy_files(&self.relevant_files),
            relevant_objects: copy_objects(&self.relevant_objects),
            relevant_morphisms: copy_morphisms(&self.relevant_morphisms),
        }
    }
}

impl Default for code_base {
    fn default() -> (base: Self)
        ensures
            base@ == empty_code_base(),
    {
        let base = code_base { files: Vec::new(), objects: Vec::new(), morphisms: Vec::new() };
        assert(base@.files =~= Seq::empty());
        assert(base@.objects =~= Seq::empty());
        assert(base@.morphisms =~= Seq::empty());
        base
    }
}

impl Default for query_result {
    fn default() -> (result: Self)
        ensures
            result@ == empty_result(),
    {
        let result = query_result {
            relevant_files: Vec::new(),
            relevant_objects: Vec::new(),
            relevant_morphisms: Vec::new(),
        };
        assert(result@.relevant_files =~= Seq::empty());
        assert(result@.relevant_objects =~= Seq::empty());
        assert(result@.relevant_morphisms =~= Seq::empty());
        result
    }
}

/// The kind of entity that a query asks for.
#[derive(Debug, Clone, Copy, PartialEq, Eq, Structural)]
pub enum QueryKind {
    File,
    Object,
    Morphism,
}

/// The kind that a query type names: `file`, `object` or `morphism`, and no
/// kind for any other text.
pub open spec fn kind_of(query_type: Seq<char>) -> Option<QueryKind> {
    if query_type == "file"@ {
        Some(QueryKind::File)
    } else if query_type == "object"@ {
        Some(QueryKind::Object)
    } else if query_type == "morphism"@ {
        Some(QueryKind::Morphism)
    } else {
        None
    }
}

/// Reads the kind of entity out of a query type.
pub fn query_kind(query_type: &str) -> (kind: Option<QueryKind>)
    ensures
        kind == kind_of(query_type@),
{
    if same_text(query_type, "file") {
        Some(QueryKind::File)
    } else if same_text(query_type, "object") {
        Some(QueryKind::Object)
    } else if same_text(query_type, "morphism") {
        Some(QueryKind::Morphism)
    } else {
        None
    }
}

/// The embeddings of the entities of `kind`, in their order; none where
/// there is no kind.
pub open spec fn embeddings_of(base: CodeBaseView, kind: Option<QueryKind>) -> Seq<Seq<u32>> {
    match kind {
        Some(QueryKind::File) => base.files.map_values(|f: FileView| f.embedding),
        Some(QueryKind::Object) => base.objects.map_values(|o: ObjectView| o.embedding),
        Some(QueryKind::Morphism) => base.morphisms.map_values(|m: MorphismView| m.embedding),
        None => Seq::empty(),
    }
}

/// The components of a list of embeddings.
pub open spec fn bit_rows(rows: Seq<Vec<u32>>) -> Seq<Seq<u32>> {
    rows.map_values(|row: Vec<u32>| row@)
}

/// The embeddings that a query of type `query_type` is to be compared
/// with: those of the entities of the kind asked for, in their order.
pub fn target_embeddings(code_base: &code_base, query_type: &str) -> (rows: Vec<Vec<u32>>)
    ensures
        bit_rows(rows@) == embeddings_of(code_base@, kind_of(query_type@)),
{
    let mut rows: Vec<Vec<u32>> = Vec::new();
    match query_kind(query_type) {
        Some(QueryKind::File) => {
            let mut at: usize = 0;
            while at < code_base.files.len()
                invariant
                    at <= code_base.files.len(),
                    rows.len() == at,
                    forall|i: int|
                        0 <= i < at ==> (#[trigger] rows[i])@ == code_base.files[i].embedding@,
                decreases code_base.files.len() - at,
            {
                rows.push(copy_bits(&code_base.files[at].embedding));
                at = at + 1;
            }
        },
        Some(QueryKind::Object) => {
            let mut at: usize = 0;
            while at < code_base.objects.len()
                invariant
                    at <= code_base.objects.len(),
                    rows.len() == at,
                    forall|i: int|
                        0 <= i < at ==> (#[trigger] rows[i])@ == code_base.objects[i].embedding@,
                decreases code_base.objects.len() - at,
            {
                rows.push(copy_bits(&code_base.objects[at].embedding));
                at = at + 1;
            }
        },
        Some(QueryKind::Morphism) => {
            let mut at: usize = 0;
            while at < code_base.morphisms.len()
                invariant
                    at <= code_base.morphisms.len(),
                    rows.len() == at,
                    forall|i: int|
                        0 <= i < at ==> (#[trigger] rows[i])@
                            == code_base.morphisms[i].embedding@,
                decreases code_base.morphisms.len() - at,
            {
                rows.push(copy_bits(&code_base.morphisms[at].embedding));
                at = at + 1;
            }
        },
        None => {},
    }
    assert(bit_rows(rows@) =~= embeddings_of(code_base@, kind_of(query_type@)));
    rows
}

/// The items of `source` at the positions that `order` lists, in that order.
pub open spec fn pick<T>(source: Seq<T>, order: Seq<usize>) -> Seq<T> {
    Seq::new(order.len(), |i: int| source[order[i] as int])
}

/// How many entities get a score: scores and entities are paired position by
/// position, as far as both lists go.
pub open spec fn paired(entities: nat, sims: nat) -> nat {
    if entities <= sims {
        entities
    } else {
        sims
    }
}

/// The scored entities of `source`, ranked by their scores.
pub open spec fn ranked<T>(source: Seq<T>, sims: Seq<u32>) -> Seq<T> {
    pick(source, ranking(sims.take(paired(source.len(), sims.len()) as int)))
}

/// The answer to a query of type `query_type` when the entities of that kind
/// have the scores `sims`; `None` stands for a query that could not be
/// embedded.
pub open spec fn search_result(
    base: CodeBaseView,
    sims: Option<Seq<u32>>,
    query_type: Seq<char>,
) -> QueryResultView {
    match (sims, kind_of(query_type)) {
        (Some(s), Some(QueryKind::File)) => QueryResultView {
            relevant_files: ranked(base.files, s),
            ..empty_result()
        },
        (Some(s), Some(QueryKind::Object)) => QueryResultView {
            relevant_objects: ranked(base.objects, s),
            ..empty_result()
        },
        (Some(s), Some(QueryKind::Morphism)) => QueryResultView {
            relevant_morphisms: ranked(base.morphisms, s),
            ..empty_result()
        },
        _ => empty_result(),
    }
}

/// The views of a list of scores that may be missing.
pub open spec fn scores_view(similarities: Option<&Vec<u32>>) -> Option<Seq<u32>> {
    match similarities {
        Some(sims) => Some(sims@),
        None => None,
    }
}

fn shorter(a: usize, b: usize) -> (least: usize)
    ensures
        least == paired(a as nat, b as nat),
{
    if a <= b {
        a
    } else {
        b
    }
}

fn rank_files(files: &Vec<File>, sims: &Vec<u32>) -> (out: Vec<File>)
    ensures
        file_views(out@) == ranked(file_views(files@), sims@),
{
    let order = rank_first(sims, shorter(files.len(), sims.len()));
    let mut out: Vec<File> = Vec::new();
    let mut at: usize = 0;
    while at < order.len()
        invariant
            at <= order.len(),
            out.len() == at,
            forall|i: int| 0 <= i < order.len() ==> (#[trigger] order[i]) < files.len(),
            forall|i: int| 0 <= i < at ==> (#[trigger] out[i])@ == files[order[i] as int]@,
        decreases order.len() - at,
    {
        out.push(files[order[at]].clone());
        at = at + 1;
    }
    assert(file_views(out@) =~= ranked(file_views(files@), sims@));
    out
}

fn rank_objects(objects: &Vec<Object>, sims: &Vec<u32>) -> (out: Vec<Object>)
    ensures
        object_views(out@) == ranked(object_views(objects@), sims@),
{
    let order = rank_first(sims, shorter(objects.len(), sims.len()));
    let mut out: Vec<Object> = Vec::new();
    let mut at: usize = 0;
    while at < order.len()
        invariant
            at <= order.len(),
            out.len() == at,
            forall|i: int| 0 <= i < order.len() ==> (#[trigger] order[i]) < objects.len(),
            forall|i: int| 0 <= i < at ==> (#[trigger] out[i])@ == objects[order[i] as int]@,
        decreases order.len() - at,
    {
        out.push(objects[order[at]].clone());
        at = at + 1;
    }
    assert(object_views(out@) =~= ranked(object_views(objects@), sims@));
    out
}

fn rank_morphisms(morphisms: &Vec<Morphism>, sims: &Vec<u32>) -> (out: Vec<Morphism>)
    ensures
        morphism_views(out@) == ranked(morphism_views(morphisms@), sims@),
{
    let order = rank_first(sims, shorter(morphisms.len(), sims.len()));
    let mut out: Vec<Morphism> = Vec::new();
    let mut at: usize = 0;
    while at < order.len()
        invariant
            at <= order.len(),
            out.len() == at,
            forall|i: int| 0 <= i < order.len() ==> (#[trigger] order[i]) < morphisms.len(),
            forall|i: int| 0 <= i < at ==> (#[trigger] out[i])@ == morphisms[order[i] as int]@,
        decreases order.len() - at,
    {
        out.push(morphisms[order[at]].clone());
        at = at + 1;
    }
    assert(morphism_views(out@) =~= ranked(morphism_views(morphisms@), sims@));
    out
}

/// Answers a query of type `query_type` over `code_base`.
///
/// `similarities` holds, for the entities of the kind asked for and in their
/// order, the similarity of each to the query; `None` says that the query
/// could not be embedded.  The answer lists those entities by descending
/// similarity, entities of equal similarity in the order in which they stand, and
/// leaves the two other kinds empty.  A query that could not be embedded, or
/// whose type names no kind, has the empty answer.
pub fn search_codebase(
    code_base: &code_base,
    similarities: Option<&Vec<u32>>,
    query_type: &str,
) -> (result: query_result)
    ensures
        result@ == search_result(code_base@, scores_view(similarities), query_type@),
{
    let mut result = query_result::default();
    match similarities {
        None => {},
        Some(sims) => {
            match query_kind(query_type) {
                Some(QueryKind::File) => {
                    result.relevant_files = rank_files(&code_base.files, sims);
                },
                Some(QueryKind::Object) => {
                    result.relevant_objects = rank_objects(&code_base.objects, sims);
                },
                Some(QueryKind::Morphism) => {
                    result.relevant_morphisms = rank_morphisms(&code_base.morphisms, sims);
                },
                None => {},
            }
        },
    }
    result
}

/// An answer holds entities of one kind at most.
pub proof fn lemma_one_kind_only(base: CodeBaseView, sims: Option<Seq<u32>>, query_type: Seq<char>)
    ensures
        ({
            let answer = search_result(base, sims, query_type);
            &&& answer.relevant_files.len() == 0 || (answer.relevant_objects.len() == 0
                && answer.relevant_morphisms.len() == 0)
            &&& answer.relevant_objects.len() == 0 || answer.relevant_morphisms.len() == 0
        }),
{
}

/// Nothing is cut off: where every entity has a score, the ranked list is as
/// long as the list of entities, and every entity occurs in it.
pub proof fn lemma_ranked_keeps_every_entity<T>(source: Seq<T>, sims: Seq<u32>, position: int)
    requires
        sims.len() == source.len(),
        source.len() <= usize::MAX,
        0 <= position < source.len(),
    ensures
        ranked(source, sims).len() == source.len(),
        ranked(source, sims).contains(source[position]),
{
    assert(sims.take(sims.len() as int) =~= sims);
    crate::rank::lemma_ranking_exists(sims);
    let order = ranking(sims);
    assert(order.contains(position as usize));
    let at = choose|at: int| 0 <= at < order.len() && order[at] == position as usize;
    assert(ranked(source, sims)[at] == source[position]);
}

/// The ranked list follows the scores: they never rise along it, and of two
/// entities with equal scores the one that stood first in the collection
/// comes first.
pub proof fn lemma_ranked_is_ordered<T>(source: Seq<T>, sims: Seq<u32>, i: int, j: int)
    requires
        sims.len() == source.len(),
        source.len() <= usize::MAX,
        0 <= i < j < source.len(),
    ensures
        ranked(source, sims)[i] == source[ranking(sims)[i] as int],
        ranked(source, sims)[j] == source[ranking(sims)[j] as int],
        similarity_key(sims[ranking(sims)[i] as int]) >= similarity_key(
            sims[ranking(sims)[j] as int],
        ),
        similarity_key(sims[ranking(sims)[i] as int]) == similarity_key(
            sims[ranking(sims)[j] as int],
        ) ==> ranking(sims)[i] < ranking(sims)[j],
{
    assert(sims.take(sims.len() as int) =~= sims);
    crate::rank::lemma_ranking_exists(sims);
    crate::rank::lemma_ranking_stable(sims, ranking(sims), i, j);
}

/// A search over a collection without entities has the empty answer,
/// whatever the query type and the scores.
pub proof fn lemma_search_empty(sims: Option<Seq<u32>>, query_type: Seq<char>)
    ensures
        search_result(empty_code_base(), sims, query_type) == empty_result(),
{
    match sims {
        Some(s) => {
            assert(s.take(0) =~= Seq::<u32>::empty());
            crate::rank::lemma_ranking_exists(Seq::<u32>::empty());
            assert(ranked(Seq::<FileView>::empty(), s) =~= Seq::empty());
            assert(ranked(Seq::<ObjectView>::empty(), s) =~= Seq::empty());
            assert(ranked(Seq::<MorphismView>::empty(), s) =~= Seq::empty());
        },
        None => {},
    }
}

} // verus!
