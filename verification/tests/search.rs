use indexer::indexer::{code_base, query_kind, search_codebase, target_embeddings, QueryKind};
use indexer::llm::{File, Morphism, Object};
use indexer::rank::rank;

fn cosine(a: &[f32], b: &[f32]) -> f32 {
    let dot: f32 = a.iter().zip(b.iter()).map(|(x, y)| x * y).sum();
    let ma: f32 = a.iter().map(|x| x * x).sum::<f32>().sqrt();
    let mb: f32 = b.iter().map(|x| x * x).sum::<f32>().sqrt();
    if ma == 0.0 || mb == 0.0 {
        return 0.0;
    }
    dot / (ma * mb)
}

fn bits(v: &[f32]) -> Vec<u32> {
    v.iter().map(|x| x.to_bits()).collect()
}

fn floats(v: &[u32]) -> Vec<f32> {
    v.iter().map(|x| f32::from_bits(*x)).collect()
}

fn morphism(name: &str, embedding: &[f32]) -> Morphism {
    Morphism {
        name: name.to_string(),
        morph_type: "function".to_string(),
        dependencies: Vec::new(),
        description: String::new(),
        embedding: bits(embedding),
    }
}

fn object(name: &str, embedding: &[f32]) -> Object {
    Object {
        name: name.to_string(),
        obj_type: "class".to_string(),
        morphisms: vec!["run".to_string()],
        dependencies: Vec::new(),
        description: format!("about {name}"),
        embedding: bits(embedding),
    }
}

fn file(name: &str, embedding: &[f32]) -> File {
    File {
        size: 0,
        name: name.to_string(),
        path: format!("/src/{name}"),
        language: "Rust".to_string(),
        description: String::new(),
        embedding: bits(embedding),
    }
}

fn sample() -> code_base {
    code_base {
        files: vec![file("a.rs", &[0.0, 1.0]), file("b.rs", &[1.0, 1.0]), file("c.rs", &[])],
        objects: vec![object("Low", &[-1.0, 0.0]), object("High", &[2.0, 0.0])],
        morphisms: vec![
            morphism("first", &[1.0, 0.0]),
            morphism("second", &[0.0, 1.0]),
            morphism("third", &[0.7, 0.7]),
        ],
    }
}

fn similarities(base: &code_base, query: &[f32], query_type: &str) -> Vec<u32> {
    target_embeddings(base, query_type)
        .iter()
        .map(|e| cosine(query, &floats(e)).to_bits())
        .collect()
}

#[test]
fn three_morphisms_rank_by_cosine() {
    let base = sample();
    let sims = similarities(&base, &[1.0, 0.0], "morphism");
    assert_eq!(f32::from_bits(sims[0]), 1.0);
    assert_eq!(f32::from_bits(sims[1]), 0.0);
    assert!((f32::from_bits(sims[2]) - 0.70710677).abs() < 1e-6);
    let result = search_codebase(&base, Some(&sims), "morphism");
    let names: Vec<&str> = result.relevant_morphisms.iter().map(|m| m.name.as_str()).collect();
    assert_eq!(names, vec!["first", "third", "second"]);
    assert!(result.relevant_files.is_empty());
    assert!(result.relevant_objects.is_empty());
}

#[test]
fn equal_scores_keep_their_order() {
    let sims = bits(&[0.5, 1.0, 0.5, 1.0, 0.5]);
    assert_eq!(rank(&sims), vec![1, 3, 0, 2, 4]);
    let base = code_base {
        files: Vec::new(),
        objects: Vec::new(),
        morphisms: vec![
            morphism("a", &[]),
            morphism("b", &[]),
            morphism("c", &[]),
            morphism("d", &[]),
            morphism("e", &[]),
        ],
    };
    let result = search_codebase(&base, Some(&sims), "morphism");
    let names: Vec<&str> = result.relevant_morphisms.iter().map(|m| m.name.as_str()).collect();
    assert_eq!(names, vec!["b", "d", "a", "c", "e"]);
}

#[test]
fn files_rank_and_keep_their_fields() {
    let base = sample();
    let sims = similarities(&base, &[1.0, 0.0], "file");
    let result = search_codebase(&base, Some(&sims), "file");
    let names: Vec<&str> = result.relevant_files.iter().map(|f| f.name.as_str()).collect();
    assert_eq!(names, vec!["b.rs", "a.rs", "c.rs"]);
    assert_eq!(result.relevant_files[0].path, "/src/b.rs");
    assert_eq!(result.relevant_files[0].language, "Rust");
    assert_eq!(result.relevant_files[0].embedding, bits(&[1.0, 1.0]));
    assert!(result.relevant_objects.is_empty());
    assert!(result.relevant_morphisms.is_empty());
}

#[test]
fn objects_rank_and_keep_their_fields() {
    let base = sample();
    let sims = similarities(&base, &[1.0, 0.0], "object");
    let result = search_codebase(&base, Some(&sims), "object");
    let names: Vec<&str> = result.relevant_objects.iter().map(|o| o.name.as_str()).collect();
    assert_eq!(names, vec!["High", "Low"]);
    assert_eq!(result.relevant_objects[0].morphisms, vec!["run".to_string()]);
    assert_eq!(result.relevant_objects[0].description, "about High");
    assert!(result.relevant_files.is_empty());
    assert!(result.relevant_morphisms.is_empty());
}

#[test]
fn an_empty_collection_has_the_empty_answer() {
    let base = code_base::default();
    for query_type in ["file", "object", "morphism", "other"] {
        let sims = similarities(&base, &[1.0, 0.0], query_type);
        assert!(sims.is_empty());
        let result = search_codebase(&base, Some(&sims), query_type);
        assert!(result.relevant_files.is_empty());
        assert!(result.relevant_objects.is_empty());
        assert!(result.relevant_morphisms.is_empty());
    }
}

#[test]
fn a_query_without_embedding_has_the_empty_answer() {
    let base = sample();
    let result = search_codebase(&base, None, "morphism");
    assert!(result.relevant_files.is_empty());
    assert!(result.relevant_objects.is_empty());
    assert!(result.relevant_morphisms.is_empty());
}

#[test]
fn an_unknown_query_type_has_the_empty_answer() {
    let base = sample();
    let sims = bits(&[1.0, 0.5, 0.0]);
    for query_type in ["", "files", "File", "morphisms", "class"] {
        let result = search_codebase(&base, Some(&sims), query_type);
        assert!(result.relevant_files.is_empty());
        assert!(result.relevant_objects.is_empty());
        assert!(result.relevant_morphisms.is_empty());
        assert!(target_embeddings(&base, query_type).is_empty());
    }
}

#[test]
fn query_types_name_their_kinds() {
    assert_eq!(query_kind("file"), Some(QueryKind::File));
    assert_eq!(query_kind("object"), Some(QueryKind::Object));
    assert_eq!(query_kind("morphism"), Some(QueryKind::Morphism));
    assert_eq!(query_kind("Morphism"), None);
    assert_eq!(query_kind(""), None);
}

#[test]
fn scores_pair_with_entities_as_far_as_both_go() {
    let base = sample();
    let two = bits(&[0.1, 0.9]);
    let result = search_codebase(&base, Some(&two), "morphism");
    let names: Vec<&str> = result.relevant_morphisms.iter().map(|m| m.name.as_str()).collect();
    assert_eq!(names, vec!["second", "first"]);
    let five = bits(&[0.1, 0.9, 0.5, 2.0, 3.0]);
    let result = search_codebase(&base, Some(&five), "morphism");
    let names: Vec<&str> = result.relevant_morphisms.iter().map(|m| m.name.as_str()).collect();
    assert_eq!(names, vec!["second", "third", "first"]);
}

#[test]
fn a_copy_of_a_collection_holds_the_same() {
    let base = sample();
    let copy = base.clone();
    assert_eq!(copy.files.len(), 3);
    assert_eq!(copy.files[1].name, "b.rs");
    assert_eq!(copy.objects[1].name, "High");
    assert_eq!(copy.morphisms[2].embedding, base.morphisms[2].embedding);
    let sims = bits(&[0.1, 0.2, 0.3]);
    let answer = search_codebase(&base, Some(&sims), "morphism");
    let again = answer.clone();
    assert_eq!(again.relevant_morphisms.len(), 3);
    assert_eq!(again.relevant_morphisms[0].name, "third");
}

#[test]
fn target_embeddings_follow_the_kind() {
    let base = sample();
    assert_eq!(
        target_embeddings(&base, "file"),
        vec![bits(&[0.0, 1.0]), bits(&[1.0, 1.0]), Vec::new()]
    );
    assert_eq!(target_embeddings(&base, "object"), vec![bits(&[-1.0, 0.0]), bits(&[2.0, 0.0])]);
    assert_eq!(target_embeddings(&base, "morphism").len(), 3);
}

#[test]
fn searching_twice_gives_the_same_order() {
    let base = sample();
    let sims = similarities(&base, &[0.3, 0.4], "morphism");
    let first = search_codebase(&base, Some(&sims), "morphism");
    let second = search_codebase(&base, Some(&sims), "morphism");
    let a: Vec<&str> = first.relevant_morphisms.iter().map(|m| m.name.as_str()).collect();
    let b: Vec<&str> = second.relevant_morphisms.iter().map(|m| m.name.as_str()).collect();
    assert_eq!(a, b);
}

#[test]
fn a_degenerate_embedding_scores_zero_and_still_ranks() {
    let base = sample();
    let sims = similarities(&base, &[0.0, 1.0], "file");
    assert_eq!(f32::from_bits(sims[2]), 0.0);
    let result = search_codebase(&base, Some(&sims), "file");
    let names: Vec<&str> = result.relevant_files.iter().map(|f| f.name.as_str()).collect();
    assert_eq!(names, vec!["a.rs", "b.rs", "c.rs"]);
}
