use indexer::llm::{join, File, Morphism, Object};

fn strings(items: &[&str]) -> Vec<String> {
    items.iter().map(|s| s.to_string()).collect()
}

#[test]
fn a_file_in_one_line() {
    let file = File {
        size: 12,
        name: "dog.py".to_string(),
        path: "/zoo/dog.py".to_string(),
        language: "Python".to_string(),
        description: "A dog.".to_string(),
        embedding: vec![1, 2],
    };
    assert_eq!(
        file.display(),
        "File(name: dog.py, path: /zoo/dog.py, language: Python, description: A dog.)"
    );
    assert_eq!(File::default().display(), "File(name: , path: , language: , description: )");
}

#[test]
fn an_object_in_one_line() {
    let object = Object {
        name: "Dog".to_string(),
        obj_type: "class".to_string(),
        morphisms: strings(&["speak", "say \"hi\""]),
        dependencies: strings(&["Animal", "Sound"]),
        description: "A dog.".to_string(),
        embedding: Vec::new(),
    };
    assert_eq!(
        object.display(),
        "Object(name: Dog, type: class, morphisms: [\"speak\", \"say \\\"hi\\\"\"], dependencies: Animal, Sound, description: A dog.)"
    );
    assert_eq!(
        object.display_with("<none>"),
        "Object(name: Dog, type: class, morphisms: <none>, dependencies: Animal, Sound, description: A dog.)"
    );
    assert_eq!(
        Object::default().display(),
        "Object(name: , type: , morphisms: [], dependencies: , description: )"
    );
}

#[test]
fn a_morphism_in_one_line() {
    let morphism = Morphism {
        name: "speak".to_string(),
        morph_type: "method".to_string(),
        dependencies: strings(&["self"]),
        description: "Says woof.".to_string(),
        embedding: Vec::new(),
    };
    assert_eq!(
        morphism.display(),
        "Morphism(name: speak, type: method, dependencies: self, description: Says woof.)"
    );
}

#[test]
fn joining_puts_the_separator_between() {
    assert_eq!(join(&strings(&[]), ", "), "");
    assert_eq!(join(&strings(&["a"]), ", "), "a");
    assert_eq!(join(&strings(&["a", "b", "c"]), ", "), "a, b, c");
    assert_eq!(join(&strings(&["", ""]), "-"), "-");
}

#[test]
fn clones_hold_the_same() {
    let object = Object {
        name: "Dog".to_string(),
        obj_type: "class".to_string(),
        morphisms: strings(&["speak"]),
        dependencies: strings(&["Animal"]),
        description: "A dog.".to_string(),
        embedding: vec![7, 8, 9],
    };
    let copy = object.clone();
    assert_eq!(copy.name, "Dog");
    assert_eq!(copy.morphisms, object.morphisms);
    assert_eq!(copy.dependencies, object.dependencies);
    assert_eq!(copy.embedding, vec![7, 8, 9]);
    assert_eq!(copy.display(), object.display());
}
