//! One worker of the indexing pipeline, as a machine that is told what
//! happened and says what to do next.
//!
//! A worker owns a slice of the file list and walks it in order.  For each
//! file it asks for the file to be read, for its text to be canonicalized,
//! and for the description of the file and of each of its objects and
//! morphisms to be embedded.  A file that cannot be read or canonicalized is
//! left out and the worker moves on; a description that cannot be embedded
//! leaves its record with the empty embedding.  What the worker finds it
//! keeps to itself until it is asked to hand it over.

use vstd::prelude::*;
use crate::indexer::{code_base, empty_code_base, file_paths_of, CodeBaseView};
use crate::json::{document_of, parse_document};
use crate::llm::{
    file_name_of, file_of, file_views, morphism_views, morphisms_of, object_views,
    objects_of, records_from, texts, File, FileView, Morphism, MorphismView, Object, ObjectView,
};
use crate::oracle::{build_prompt, canonical_json, canonical_json_of, BASE_PROMPT};

verus! {

/// What the caller is to do next.
#[derive(Debug)]
pub enum Action {
    /// Read the file at this path.
    Read(String),
    /// Send this request to the canonicalization oracle.
    Canonicalize(String),
    /// Send this text to the embedding oracle.
    Embed(String),
    /// Nothing: every file of the slice is finished.
    Done,
}

/// What an `Action` holds.
pub enum ActionView {
    Read(Seq<char>),
    Canonicalize(Seq<char>),
    Embed(Seq<char>),
    Done,
}

impl View for Action {
    type V = ActionView;

    open spec fn view(&self) -> ActionView {
        match self {
            Action::Read(path) => ActionView::Read(path@),
            Action::Canonicalize(prompt) => ActionView::Canonicalize(prompt@),
            Action::Embed(text) => ActionView::Embed(text@),
            Action::Done => ActionView::Done,
        }
    }
}

/// What happened when the caller did what it was asked to do.  `None` says
/// that it failed.
#[derive(Debug)]
pub enum Event {
    /// The text of the file.
    Read(Option<String>),
    /// The body of the canonicalization oracle's reply.
    Canonicalized(Option<String>),
    /// The embedding, as the bit patterns of its components.
    Embedded(Option<Vec<u32>>),
}

/// What an `Event` holds.
pub enum EventView {
    Read(Option<Seq<char>>),
    Canonicalized(Option<Seq<char>>),
    Embedded(Option<Seq<u32>>),
}

impl View for Event {
    type V = EventView;

    open spec fn view(&self) -> EventView {
        match self {
            Event::Read(Some(text)) => EventView::Read(Some(text@)),
            Event::Read(None) => EventView::Read(None),
            Event::Canonicalized(Some(body)) => EventView::Canonicalized(Some(body@)),
            Event::Canonicalized(None) => EventView::Canonicalized(None),
            Event::Embedded(Some(bits)) => EventView::Embedded(Some(bits@)),
            Event::Embedded(None) => EventView::Embedded(None),
        }
    }
}

/// The record of the file in progress whose description is embedded next.
#[derive(Debug, Clone, Copy, PartialEq, Eq, Structural)]
pub enum Cursor {
    File,
    Object(usize),
    Morphism(usize),
}

/// Where a worker stands with the file in progress.
pub enum StageView {
    /// It waits for the text of the file.
    Reading,
    /// It waits for the canonicalization that it asked for with `prompt`.
    Canonicalizing { prompt: Seq<char> },
    /// It waits for the embedding of the record at `cursor`.
    Embedding {
        file: FileView,
        objects: Seq<ObjectView>,
        morphisms: Seq<MorphismView>,
        cursor: Cursor,
    },
    /// No file is left.
    Done,
}

/// What a worker holds.
pub struct WorkerView {
    /// The paths of its slice.
    pub paths: Seq<Seq<char>>,
    /// The file name of each path.
    pub names: Seq<Seq<char>>,
    /// How many files of the slice are finished.
    pub next: nat,
    pub stage: StageView,
    /// The records of the finished files.
    pub found: CodeBaseView,
}

/// Whether `cursor` points at a record of a file with that many objects and
/// morphisms.
pub open spec fn cursor_fits(cursor: Cursor, objects: nat, morphisms: nat) -> bool {
    match cursor {
        Cursor::File => true,
        Cursor::Object(i) => i < objects,
        Cursor::Morphism(i) => i < morphisms,
    }
}

/// The record after the one at `cursor`: the file first, then the objects,
/// then the morphisms, each kind in order; nothing after the last.
pub open spec fn next_cursor(cursor: Cursor, objects: nat, morphisms: nat) -> Option<Cursor> {
    match cursor {
        Cursor::File => if objects > 0 {
            Some(Cursor::Object(0))
        } else if morphisms > 0 {
            Some(Cursor::Morphism(0))
        } else {
            None
        },
        Cursor::Object(i) => if i + 1 < objects {
            Some(Cursor::Object((i + 1) as usize))
        } else if morphisms > 0 {
            Some(Cursor::Morphism(0))
        } else {
            None
        },
        Cursor::Morphism(i) => if i + 1 < morphisms {
            Some(Cursor::Morphism((i + 1) as usize))
        } else {
            None
        },
    }
}

/// The description of the record at `cursor`.
pub open spec fn target_text(
    file: FileView,
    objects: Seq<ObjectView>,
    morphisms: Seq<MorphismView>,
    cursor: Cursor,
) -> Seq<char> {
    match cursor {
        Cursor::File => file.description,
        Cursor::Object(i) => objects[i as int].description,
        Cursor::Morphism(i) => morphisms[i as int].description,
    }
}

/// The embedding that a reply of the embedding oracle stands for: the
/// empty one where the call failed.
pub open spec fn embedding_or_empty(reply: Option<Seq<u32>>) -> Seq<u32> {
    match reply {
        Some(bits) => bits,
        None => Seq::empty(),
    }
}

/// The stage with the embedding `bits` given to the record at `cursor`,
/// and `cursor` moved to `moved`.
pub open spec fn embedded_stage(
    file: FileView,
    objects: Seq<ObjectView>,
    morphisms: Seq<MorphismView>,
    cursor: Cursor,
    bits: Seq<u32>,
    moved: Cursor,
) -> StageView {
    match cursor {
        Cursor::File => StageView::Embedding {
            file: FileView { embedding: bits, ..file },
            objects,
            morphisms,
            cursor: moved,
        },
        Cursor::Object(i) => StageView::Embedding {
            file,
            objects: objects.update(i as int, ObjectView { embedding: bits, ..objects[i as int] }),
            morphisms,
            cursor: moved,
        },
        Cursor::Morphism(i) => StageView::Embedding {
            file,
            objects,
            morphisms: morphisms.update(
                i as int,
                MorphismView { embedding: bits, ..morphisms[i as int] },
            ),
            cursor: moved,
        },
    }
}

/// The stage in which a worker with `files` files begins file `next`.
pub open spec fn opening_stage(files: nat, next: nat) -> StageView {
    if next < files {
        StageView::Reading
    } else {
        StageView::Done
    }
}

/// The worker after the file in progress is finished.
pub open spec fn moved_on(worker: WorkerView) -> WorkerView {
    WorkerView {
        next: worker.next + 1,
        stage: opening_stage(worker.paths.len(), worker.next + 1),
        ..worker
    }
}

/// The records found, with those of one more file added at the end.
pub open spec fn committed(found: CodeBaseView, stage: StageView) -> CodeBaseView {
    match stage {
        StageView::Embedding { file, objects, morphisms, cursor } => CodeBaseView {
            files: found.files.push(file),
            objects: found.objects + objects,
            morphisms: found.morphisms + morphisms,
        },
        _ => found,
    }
}

/// The stage that the body of a canonicalization reply leads to for the
/// file named `name` at `path`: embedding the file's description, where the
/// body carries a JSON description; nothing where it carries none.
pub open spec fn canonicalized_stage(body: Seq<char>, name: Seq<char>, path: Seq<char>) -> Option<
    StageView,
> {
    match canonical_json_of(body) {
        Ok(json) => match document_of(json) {
            Some(document) => Some(
                StageView::Embedding {
                    file: file_of(document, name, path),
                    objects: objects_of(document),
                    morphisms: morphisms_of(document),
                    cursor: Cursor::File,
                },
            ),
            None => None,
        },
        Err(_) => None,
    }
}

/// What a worker asks for.
pub open spec fn pending_of(worker: WorkerView) -> ActionView {
    match worker.stage {
        StageView::Reading => ActionView::Read(worker.paths[worker.next as int]),
        StageView::Canonicalizing { prompt } => ActionView::Canonicalize(prompt),
        StageView::Embedding { file, objects, morphisms, cursor } => ActionView::Embed(
            target_text(file, objects, morphisms, cursor),
        ),
        StageView::Done => ActionView::Done,
    }
}

/// The worker after `event`.  An event that does not answer what the worker
/// asked for changes nothing.
pub open spec fn step_of(worker: WorkerView, event: EventView) -> WorkerView {
    match (worker.stage, event) {
        (StageView::Reading, EventView::Read(Some(text))) => WorkerView {
            stage: StageView::Canonicalizing { prompt: BASE_PROMPT@ + text },
            ..worker
        },
        (StageView::Reading, EventView::Read(None)) => moved_on(worker),
        (StageView::Canonicalizing { prompt }, EventView::Canonicalized(Some(body))) => {
            match canonicalized_stage(
                body,
                worker.names[worker.next as int],
                worker.paths[worker.next as int],
            ) {
                Some(stage) => WorkerView { stage, ..worker },
                None => moved_on(worker),
            }
        },
        (StageView::Canonicalizing { prompt }, EventView::Canonicalized(None)) => moved_on(worker),
        (StageView::Embedding { file, objects, morphisms, cursor }, EventView::Embedded(reply)) => {
            let bits = embedding_or_empty(reply);
            match next_cursor(cursor, objects.len(), morphisms.len()) {
                Some(moved) => WorkerView {
                    stage: embedded_stage(file, objects, morphisms, cursor, bits, moved),
                    ..worker
                },
                None => moved_on(
                    WorkerView {
                        found: committed(
                            worker.found,
                            embedded_stage(file, objects, morphisms, cursor, bits, cursor),
                        ),
                        ..worker
                    },
                ),
            }
        },
        _ => worker,
    }
}

/// What holds of every worker.
pub open spec fn well_formed(worker: WorkerView) -> bool {
    &&& worker.names.len() == worker.paths.len()
    &&& worker.next <= worker.paths.len()
    &&& (worker.stage is Done <==> worker.next == worker.paths.len())
    &&& worker.found.files.len() <= worker.next
    &&& (worker.found.files.len() == worker.next ==> file_paths_of(worker.found)
        == worker.paths.take(worker.next as int))
    &&& match worker.stage {
        StageView::Embedding { file, objects, morphisms, cursor } => {
            &&& cursor_fits(cursor, objects.len(), morphisms.len())
            &&& file.path == worker.paths[worker.next as int]
            &&& file.name == worker.names[worker.next as int]
        },
        _ => true,
    }
}

/// A worker at the start of its slice.
pub open spec fn fresh(paths: Seq<Seq<char>>, names: Seq<Seq<char>>) -> WorkerView {
    WorkerView {
        paths,
        names,
        next: 0,
        stage: opening_stage(paths.len(), 0),
        found: empty_code_base(),
    }
}

enum Stage {
    Reading,
    Canonicalizing { prompt: String },
    Embedding { file: File, objects: Vec<Object>, morphisms: Vec<Morphism>, cursor: Cursor },
    Done,
}

impl View for Stage {
    type V = StageView;

    closed spec fn view(&self) -> StageView {
        match self {
            Stage::Reading => StageView::Reading,
            Stage::Canonicalizing { prompt } => StageView::Canonicalizing { prompt: prompt@ },
            Stage::Embedding { file, objects, morphisms, cursor } => StageView::Embedding {
                file: file@,
                objects: object_views(objects@),
                morphisms: morphism_views(morphisms@),
                cursor: *cursor,
            },
            Stage::Done => StageView::Done,
        }
    }
}

/// A worker and its slice of the file list.
pub struct IndexWorker {
    paths: Vec<String>,
    names: Vec<String>,
    next: usize,
    stage: Stage,
    found: code_base,
}

impl View for IndexWorker {
    type V = WorkerView;

    closed spec fn view(&self) -> WorkerView {
        WorkerView {
            paths: texts(self.paths@),
            names: texts(self.names@),
            next: self.next as nat,
            stage: self.stage@,
            found: self.found@,
        }
    }
}

fn advance_cursor(cursor: Cursor, objects: usize, morphisms: usize) -> (moved: Option<Cursor>)
    requires
        cursor_fits(cursor, objects as nat, morphisms as nat),
    ensures
        moved == next_cursor(cursor, objects as nat, morphisms as nat),
        match moved {
            Some(c) => cursor_fits(c, objects as nat, morphisms as nat),
            None => true,
        },
{
    match cursor {
        Cursor::File => if objects > 0 {
            Some(Cursor::Object(0))
        } else if morphisms > 0 {
            Some(Cursor::Morphism(0))
        } else {
            None
        },
        Cursor::Object(i) => if i + 1 < objects {
            Some(Cursor::Object(i + 1))
        } else if morphisms > 0 {
            Some(Cursor::Morphism(0))
        } else {
            None
        },
        Cursor::Morphism(i) => if i + 1 < morphisms {
            Some(Cursor::Morphism(i + 1))
        } else {
            None
        },
    }
}

impl IndexWorker {
    #[verifier::type_invariant]
    spec fn sound(self) -> bool {
        well_formed(self@)
    }

    /// A worker for the files at `paths`, none of them begun.  The name of
    /// each file is the final component of its path.
    pub fn new(paths: Vec<String>) -> (worker: IndexWorker)
        ensures
            worker@ == fresh(texts(paths@), worker@.names),
            well_formed(worker@),
    {
        let mut names: Vec<String> = Vec::new();
        let mut at: usize = 0;
        while at < paths.len()
            invariant
                at <= paths.len(),
                names.len() == at,
            decreases paths.len() - at,
        {
            names.push(file_name_of(paths[at].as_str()));
            at = at + 1;
        }
        let stage = if paths.len() > 0 {
            Stage::Reading
        } else {
            Stage::Done
        };
        let found = code_base::default();
        assert(file_paths_of(found@) =~= texts(paths@).take(0));
        IndexWorker { paths, names, next: 0, stage, found }
    }

    /// How many files of the slice are finished, left out or not.
    pub fn processed(&self) -> (count: usize)
        ensures
            count == self@.next,
    {
        self.next
    }

    /// How many files the slice holds.
    pub fn total(&self) -> (count: usize)
        ensures
            count == self@.paths.len(),
    {
        self.paths.len()
    }

    /// Whether every file of the slice is finished.
    pub fn is_done(&self) -> (done: bool)
        ensures
            done == (self@.stage is Done),
            done == (self@.next == self@.paths.len()),
    {
        proof {
            use_type_invariant(self);
        }
        self.next >= self.paths.len()
    }

    /// What the worker asks for now.
    pub fn pending(&self) -> (action: Action)
        ensures
            action@ == pending_of(self@),
            well_formed(self@),
    {
        proof {
            use_type_invariant(self);
        }
        match &self.stage {
            Stage::Reading => Action::Read(self.paths[self.next].clone()),
            Stage::Canonicalizing { prompt } => Action::Canonicalize(prompt.clone()),
            Stage::Embedding { file, objects, morphisms, cursor } => match cursor {
                Cursor::File => Action::Embed(file.description.clone()),
                Cursor::Object(i) => Action::Embed(objects[*i].description.clone()),
                Cursor::Morphism(i) => Action::Embed(morphisms[*i].description.clone()),
            },
            Stage::Done => Action::Done,
        }
    }

    /// The records of the files finished so far.
    pub fn found(&self) -> (found: &code_base)
        ensures
            found@ == self@.found,
    {
        &self.found
    }

    /// Hands over the records of the files finished so far.
    pub fn into_found(self) -> (found: code_base)
        ensures
            found@ == self@.found,
    {
        self.found
    }

    fn move_on(paths: Vec<String>, names: Vec<String>, next: usize, found: code_base) -> (after:
        IndexWorker)
        requires
            names.len() == paths.len(),
            next < paths.len(),
            found.files.len() <= next + 1,
            found.files.len() == next + 1 ==> file_paths_of(found@) == texts(paths@).take(
                next + 1,
            ),
        ensures
            after@.paths == texts(paths@),
            after@.names == texts(names@),
            after@.next == next + 1,
            after@.stage == opening_stage(paths.len() as nat, (next + 1) as nat),
            after@.found == found@,
    {
        let stage = if next + 1 < paths.len() {
            Stage::Reading
        } else {
            Stage::Done
        };
        IndexWorker { paths, names, next: next + 1, stage, found }
    }

    /// Takes in what happened and moves to the next request.
    pub fn step(self, event: Event) -> (after: IndexWorker)
        ensures
            after@ == step_of(self@, event@),
            well_formed(self@),
            well_formed(after@),
    {
        let ghost before = self@;
        proof {
            use_type_invariant(&self);
            lemma_step_well_formed(before, event@);
        }
        let IndexWorker { paths, names, next, stage, found } = self;
        match (stage, event) {
            (Stage::Reading, Event::Read(Some(text))) => {
                let prompt = build_prompt(text.as_str());
                IndexWorker { paths, names, next, stage: Stage::Canonicalizing { prompt }, found }
            },
            (Stage::Reading, Event::Read(None)) => Self::move_on(paths, names, next, found),
            (Stage::Canonicalizing { prompt }, Event::Canonicalized(Some(body))) => {
                let document = match canonical_json(body.as_str()) {
                    Ok(json) => parse_document(json.as_str()),
                    Err(_) => None,
                };
                match document {
                    Some(document) => {
                        let (file, objects, morphisms) = records_from(
                            &document,
                            names[next].clone(),
                            paths[next].clone(),
                        );
                        let stage = Stage::Embedding { file, objects, morphisms, cursor: Cursor::File };
                        IndexWorker { paths, names, next, stage, found }
                    },
                    None => Self::move_on(paths, names, next, found),
                }
            },
            (Stage::Canonicalizing { prompt }, Event::Canonicalized(None)) => Self::move_on(
                paths,
                names,
                next,
                found,
            ),
            (Stage::Embedding { file, objects, morphisms, cursor }, Event::Embedded(reply)) => {
                let bits = match reply {
                    Some(bits) => bits,
                    None => Vec::new(),
                };
                let mut file = file;
                let mut objects = objects;
                let mut morphisms = morphisms;
                let ghost old_objects = objects@;
                let ghost old_morphisms = morphisms@;
                match cursor {
                    Cursor::File => {
                        file.embedding = bits;
                    },
                    Cursor::Object(i) => {
                        let mut object = objects[i].clone();
                        object.embedding = bits;
                        objects.set(i, object);
                        assert(object_views(objects@) =~= object_views(old_objects).update(
                            i as int,
                            ObjectView { embedding: bits@, ..object_views(old_objects)[i as int] },
                        ));
                    },
                    Cursor::Morphism(i) => {
                        let mut morphism = morphisms[i].clone();
                        morphism.embedding = bits;
                        morphisms.set(i, morphism);
                        assert(morphism_views(morphisms@) =~= morphism_views(old_morphisms).update(
                            i as int,
                            MorphismView {
                                embedding: bits@,
                                ..morphism_views(old_morphisms)[i as int]
                            },
                        ));
                    },
                }
                match advance_cursor(cursor, objects.len(), morphisms.len()) {
                    Some(moved) => {
                        let stage = Stage::Embedding { file, objects, morphisms, cursor: moved };
                        IndexWorker { paths, names, next, stage, found }
                    },
                    None => {
                        let mut found = found;
                        let ghost kept = found;
                        let ghost last_objects = objects@;
                        let ghost last_morphisms = morphisms@;
                        found.files.push(file);
                        found.objects.append(&mut objects);
                        found.morphisms.append(&mut morphisms);
                        assert(file_views(found.files@) =~= file_views(kept.files@).push(file@));
                        assert(object_views(found.objects@) =~= object_views(kept.objects@)
                            + object_views(last_objects));
                        assert(morphism_views(found.morphisms@) =~= morphism_views(kept.morphisms@)
                            + morphism_views(last_morphisms));
                        Self::move_on(paths, names, next, found)
                    },
                }
            },
            (stage, _) => IndexWorker { paths, names, next, stage, found },
        }
    }
}

/// Every step leaves a worker well-formed.
pub proof fn lemma_step_well_formed(worker: WorkerView, event: EventView)
    requires
        well_formed(worker),
    ensures
        well_formed(step_of(worker, event)),
{
    let after = step_of(worker, event);
    if after.found.files.len() == after.next && after.next == worker.next + 1 {
        assert(file_paths_of(after.found) =~= worker.paths.take(worker.next as int).push(
            worker.paths[worker.next as int],
        ));
        assert(file_paths_of(after.found) =~= after.paths.take(after.next as int));
    }
}

/// A worker that is done and has a record for every file of its slice has
/// them in the order of the slice.
pub proof fn lemma_done_without_loss(worker: WorkerView)
    requires
        well_formed(worker),
        worker.stage is Done,
        worker.found.files.len() == worker.paths.len(),
    ensures
        file_paths_of(worker.found) == worker.paths,
{
    assert(worker.paths.take(worker.paths.len() as int) =~= worker.paths);
}

/// A step never takes back what was found, nor a finished file: the count
/// of finished files stays or grows by one, and the records found before
/// are the first of those found after.  The slice itself never changes.
pub proof fn lemma_step_only_adds(worker: WorkerView, event: EventView)
    requires
        well_formed(worker),
    ensures
        step_of(worker, event).paths == worker.paths,
        step_of(worker, event).names == worker.names,
        worker.next <= step_of(worker, event).next <= worker.next + 1,
        worker.found.files.is_prefix_of(step_of(worker, event).found.files),
        worker.found.objects.is_prefix_of(step_of(worker, event).found.objects),
        worker.found.morphisms.is_prefix_of(step_of(worker, event).found.morphisms),
        step_of(worker, event).found.files.len() <= worker.found.files.len() + 1,
        step_of(worker, event).found != worker.found ==> step_of(worker, event).next == worker.next
            + 1,
{
}

/// A file that cannot be read, or that the oracle fails to canonicalize,
/// costs nothing but itself: the worker keeps what it found and goes on
/// with the next file of its slice.
pub proof fn lemma_failure_is_local(worker: WorkerView, event: EventView)
    requires
        well_formed(worker),
        (worker.stage is Reading && event == EventView::Read(None)) || (worker.stage
            is Canonicalizing && event == EventView::Canonicalized(None)),
    ensures
        step_of(worker, event).found == worker.found,
        step_of(worker, event).next == worker.next + 1,
        step_of(worker, event).stage == opening_stage(worker.paths.len(), worker.next + 1),
{
}

/// An embedding that fails does not cost the record: the record at the
/// cursor gets the empty embedding, and the file is committed once its last
/// record is through.
pub proof fn lemma_failed_embedding_keeps_record(worker: WorkerView)
    requires
        well_formed(worker),
        worker.stage is Embedding,
    ensures
        step_of(worker, EventView::Embedded(None)) == step_of(
            worker,
            EventView::Embedded(Some(Seq::empty())),
        ),
        step_of(worker, EventView::Embedded(None)).next == worker.next + 1 ==> step_of(
            worker,
            EventView::Embedded(None),
        ).found.files.len() == worker.found.files.len() + 1,
{
}

} // verus!
