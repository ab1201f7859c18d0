use indexer::aggregate::merge;
use indexer::indexer::{code_base, search_codebase};
use indexer::llm::File;
use indexer::oracle::build_prompt;
use indexer::partition::partition;
use indexer::progress::{poll, Poll};
use indexer::worker::{Action, Event, IndexWorker};

fn reply(text: &str) -> String {
    format!(
        "{{\"output\":[{{\"content\":[{{\"text\":{}}}]}}]}}",
        serde_json::Value::String(text.to_string())
    )
}

fn description(language: &str, objects: &[&str], morphisms: &[&str]) -> String {
    let objects: Vec<String> = objects
        .iter()
        .map(|o| format!("{{\"name\": \"{o}\", \"type\": \"class\", \"description\": \"object {o}\"}}"))
        .collect();
    let morphisms: Vec<String> = morphisms
        .iter()
        .map(|m| format!("{{\"name\": \"{m}\", \"type\": \"function\", \"description\": \"morphism {m}\"}}"))
        .collect();
    format!(
        "{{\"General Information\": {{\"Language\": \"{language}\", \"Description\": \"a {language} file\"}}, \"Objects\": [{}], \"Morphisms\": [{}]}}",
        objects.join(", "),
        morphisms.join(", ")
    )
}

fn paths(names: &[&str]) -> Vec<String> {
    names.iter().map(|n| n.to_string()).collect()
}

fn read(text: &str) -> Event {
    Event::Read(Some(text.to_string()))
}

fn canonicalized(text: &str) -> Event {
    Event::Canonicalized(Some(reply(text)))
}

fn embedded(bits: &[u32]) -> Event {
    Event::Embedded(Some(bits.to_vec()))
}

fn asks_read(worker: &IndexWorker) -> String {
    match worker.pending() {
        Action::Read(path) => path,
        other => panic!("asks for {other:?}"),
    }
}

fn asks_canonicalize(worker: &IndexWorker) -> String {
    match worker.pending() {
        Action::Canonicalize(prompt) => prompt,
        other => panic!("asks for {other:?}"),
    }
}

fn asks_embed(worker: &IndexWorker) -> String {
    match worker.pending() {
        Action::Embed(text) => text,
        other => panic!("asks for {other:?}"),
    }
}

fn run(slice: Vec<String>) -> code_base {
    let mut worker = IndexWorker::new(slice);
    let mut count: u32 = 0;
    loop {
        let event = match worker.pending() {
            Action::Done => break,
            Action::Read(path) => read(&format!("source of {path}")),
            Action::Canonicalize(_) => canonicalized(&description("Rust", &["O"], &["m"])),
            Action::Embed(_) => {
                count += 1;
                embedded(&[count])
            }
        };
        worker = worker.step(event);
    }
    worker.into_found()
}

#[test]
fn a_worker_without_files_is_done() {
    let worker = IndexWorker::new(Vec::new());
    assert!(matches!(worker.pending(), Action::Done));
    assert!(worker.is_done());
    assert_eq!(worker.processed(), 0);
    assert_eq!(worker.total(), 0);
    let worker = worker.step(Event::Read(None));
    assert!(worker.is_done());
    let found = worker.into_found();
    assert!(found.files.is_empty() && found.objects.is_empty() && found.morphisms.is_empty());
}

#[test]
fn one_file_goes_through_every_stage() {
    let worker = IndexWorker::new(paths(&["/src/zoo/dog.py"]));
    assert_eq!(worker.total(), 1);
    assert_eq!(asks_read(&worker), "/src/zoo/dog.py");
    let worker = worker.step(read("class Dog: pass"));
    assert_eq!(asks_canonicalize(&worker), build_prompt("class Dog: pass"));
    assert_eq!(worker.processed(), 0);
    let worker = worker.step(canonicalized(&description("Python", &["Dog", "Cat"], &["speak"])));
    assert_eq!(asks_embed(&worker), "a Python file");
    let worker = worker.step(embedded(&[1, 2]));
    assert_eq!(asks_embed(&worker), "object Dog");
    let worker = worker.step(embedded(&[3, 4]));
    assert_eq!(asks_embed(&worker), "object Cat");
    assert!(worker.found().files.is_empty());
    let worker = worker.step(Event::Embedded(None));
    assert_eq!(asks_embed(&worker), "morphism speak");
    assert_eq!(worker.processed(), 0);
    assert!(!worker.is_done());
    let worker = worker.step(embedded(&[5, 6]));
    assert!(matches!(worker.pending(), Action::Done));
    assert!(worker.is_done());
    assert_eq!(worker.processed(), 1);
    let found = worker.into_found();
    assert_eq!(found.files.len(), 1);
    assert_eq!(found.files[0].name, "dog.py");
    assert_eq!(found.files[0].path, "/src/zoo/dog.py");
    assert_eq!(found.files[0].language, "Python");
    assert_eq!(found.files[0].description, "a Python file");
    assert_eq!(found.files[0].embedding, vec![1, 2]);
    assert_eq!(found.objects.len(), 2);
    assert_eq!(found.objects[0].name, "Dog");
    assert_eq!(found.objects[0].embedding, vec![3, 4]);
    assert_eq!(found.objects[1].name, "Cat");
    assert!(found.objects[1].embedding.is_empty());
    assert_eq!(found.morphisms.len(), 1);
    assert_eq!(found.morphisms[0].name, "speak");
    assert_eq!(found.morphisms[0].embedding, vec![5, 6]);
}

#[test]
fn a_file_without_entities_needs_one_embedding() {
    let worker = IndexWorker::new(paths(&["a.rs", "b.rs"]));
    let worker = worker.step(read("x")).step(canonicalized("{}"));
    assert_eq!(asks_embed(&worker), "");
    let worker = worker.step(embedded(&[9]));
    assert_eq!(asks_read(&worker), "b.rs");
    assert_eq!(worker.processed(), 1);
    assert_eq!(worker.found().files.len(), 1);
    assert_eq!(worker.found().files[0].embedding, vec![9]);
}

#[test]
fn morphisms_follow_the_file_when_there_are_no_objects() {
    let worker = IndexWorker::new(paths(&["a.rs"]));
    let worker = worker.step(read("x")).step(canonicalized(&description("C", &[], &["f", "g"])));
    let worker = worker.step(embedded(&[1]));
    assert_eq!(asks_embed(&worker), "morphism f");
    let worker = worker.step(embedded(&[2]));
    assert_eq!(asks_embed(&worker), "morphism g");
    let worker = worker.step(embedded(&[3]));
    assert!(worker.is_done());
    let found = worker.into_found();
    assert!(found.objects.is_empty());
    assert_eq!(found.morphisms[0].embedding, vec![2]);
    assert_eq!(found.morphisms[1].embedding, vec![3]);
}

#[test]
fn an_unreadable_file_is_left_out() {
    let worker = IndexWorker::new(paths(&["gone.rs", "here.rs"]));
    let worker = worker.step(Event::Read(None));
    assert_eq!(worker.processed(), 1);
    assert_eq!(asks_read(&worker), "here.rs");
    let worker = worker.step(read("x")).step(canonicalized("{}")).step(embedded(&[1]));
    assert!(worker.is_done());
    assert_eq!(worker.processed(), 2);
    let found = worker.into_found();
    assert_eq!(found.files.len(), 1);
    assert_eq!(found.files[0].name, "here.rs");
}

#[test]
fn a_failed_canonicalization_leaves_the_file_out() {
    for failure in [
        Event::Canonicalized(None),
        Event::Canonicalized(Some("<html>".to_string())),
        Event::Canonicalized(Some("{\"error\": 1}".to_string())),
        Event::Canonicalized(Some(reply("no description here"))),
        Event::Canonicalized(Some(reply("{'not': 'json'}"))),
    ] {
        let worker = IndexWorker::new(paths(&["bad.rs", "good.rs"]));
        let worker = worker.step(read("x")).step(failure);
        assert_eq!(worker.processed(), 1);
        assert!(worker.found().files.is_empty());
        assert_eq!(asks_read(&worker), "good.rs");
        let worker = worker.step(read("y")).step(canonicalized("{}")).step(embedded(&[]));
        assert!(worker.is_done());
        let found = worker.into_found();
        assert_eq!(found.files.len(), 1);
        assert_eq!(found.files[0].name, "good.rs");
    }
}

#[test]
fn an_event_that_answers_nothing_changes_nothing() {
    let worker = IndexWorker::new(paths(&["a.rs"]));
    let worker = worker.step(embedded(&[1])).step(canonicalized("{}"));
    assert_eq!(asks_read(&worker), "a.rs");
    assert_eq!(worker.processed(), 0);
    let worker = worker.step(read("x")).step(read("y")).step(Event::Embedded(None));
    assert_eq!(asks_canonicalize(&worker), build_prompt("x"));
    let worker =
        worker.step(canonicalized("{}")).step(Event::Read(None)).step(Event::Canonicalized(None));
    assert_eq!(asks_embed(&worker), "");
    assert_eq!(worker.processed(), 0);
    let worker = worker.step(embedded(&[4])).step(embedded(&[5])).step(read("z"));
    assert!(worker.is_done());
    assert_eq!(worker.processed(), 1);
    assert_eq!(worker.into_found().files[0].embedding, vec![4]);
}

#[test]
fn a_failed_embedding_of_the_second_file_keeps_both_files() {
    let worker = IndexWorker::new(paths(&["one.rs", "two.rs"]));
    let first = [1.0f32.to_bits(), 0.0f32.to_bits()];
    let worker = worker.step(read("1")).step(canonicalized("{}")).step(embedded(&first));
    let worker = worker.step(read("2")).step(canonicalized("{}")).step(Event::Embedded(None));
    assert!(worker.is_done());
    let found = worker.into_found();
    assert_eq!(found.files.len(), 2);
    assert_eq!(found.files[0].embedding, first.to_vec());
    assert_eq!(found.files[1].name, "two.rs");
    assert!(found.files[1].embedding.is_empty());
    let sims = vec![1.0f32.to_bits(), 0.0f32.to_bits()];
    let result = search_codebase(&found, Some(&sims), "file");
    let names: Vec<&str> = result.relevant_files.iter().map(|f| f.name.as_str()).collect();
    assert_eq!(names, vec!["one.rs", "two.rs"]);
}

#[test]
fn ten_files_among_four_workers_merge_into_ten() {
    let files: Vec<String> = (0..10).map(|i| format!("/repo/f{i}.rs")).collect();
    let slices = partition(&files, 4);
    let sizes: Vec<usize> = slices.iter().map(|s| s.len()).collect();
    assert_eq!(sizes, vec![3, 3, 3, 1]);
    // The workers finish last to first; the merge goes by their index.
    let mut partials: Vec<Option<code_base>> = vec![None, None, None, None];
    for index in [3usize, 1, 2, 0] {
        partials[index] = Some(run(slices[index].clone()));
    }
    let all = merge(partials.into_iter().map(|p| p.unwrap()).collect());
    assert_eq!(all.files.len(), 10);
    assert_eq!(all.objects.len(), 10);
    assert_eq!(all.morphisms.len(), 10);
    let merged_paths: Vec<String> = all.files.iter().map(|f| f.path.clone()).collect();
    assert_eq!(merged_paths, files);
    assert_eq!(all.files[9].name, "f9.rs");
}

fn stub(name: &str) -> File {
    File { name: name.to_string(), ..File::default() }
}

#[test]
fn merging_keeps_the_order_of_the_workers() {
    let first = code_base { files: vec![stub("a"), stub("b")], ..code_base::default() };
    let second = code_base::default();
    let third = code_base { files: vec![stub("c")], ..code_base::default() };
    let all = merge(vec![first, second, third]);
    let names: Vec<&str> = all.files.iter().map(|f| f.name.as_str()).collect();
    assert_eq!(names, vec!["a", "b", "c"]);
    let none = merge(Vec::new());
    assert!(none.files.is_empty() && none.objects.is_empty() && none.morphisms.is_empty());
}

#[test]
fn absorbing_adds_at_the_end() {
    let mut base = code_base { files: vec![stub("a")], ..code_base::default() };
    base.absorb(code_base { files: vec![stub("b"), stub("a")], ..code_base::default() });
    let names: Vec<&str> = base.files.iter().map(|f| f.name.as_str()).collect();
    assert_eq!(names, vec!["a", "b", "a"]);
}

#[test]
fn the_monitor_stops_when_every_file_is_counted() {
    assert_eq!(poll(0, 10), Poll::Again);
    assert_eq!(poll(9, 10), Poll::Again);
    assert_eq!(poll(10, 10), Poll::Stop);
    assert_eq!(poll(11, 10), Poll::Stop);
    assert_eq!(poll(0, 0), Poll::Stop);
}
