use indexer::walk::{DirEntry, FileWalk};

fn file(path: &str) -> DirEntry {
    DirEntry { path: path.to_string(), is_file: true, is_dir: false }
}

fn dir(path: &str) -> DirEntry {
    DirEntry { path: path.to_string(), is_file: false, is_dir: true }
}

#[test]
fn a_walk_begins_at_its_root() {
    let mut walk = FileWalk::new("/repo");
    assert!(!walk.is_finished());
    assert_eq!(walk.next_dir(), Some("/repo".to_string()));
    assert!(walk.is_finished());
    assert_eq!(walk.next_dir(), None);
    assert!(walk.into_files().is_empty());
}

#[test]
fn the_directory_reported_last_is_listed_next() {
    let mut walk = FileWalk::new("r");
    assert_eq!(walk.next_dir(), Some("r".to_string()));
    walk.visit(vec![file("r/a"), dir("r/d1"), file("r/b"), dir("r/d2")]);
    assert_eq!(walk.next_dir(), Some("r/d2".to_string()));
    walk.visit(vec![file("r/d2/x"), dir("r/d2/deep")]);
    assert_eq!(walk.next_dir(), Some("r/d2/deep".to_string()));
    walk.visit(Vec::new());
    assert_eq!(walk.next_dir(), Some("r/d1".to_string()));
    walk.visit(vec![file("r/d1/y")]);
    assert_eq!(walk.next_dir(), None);
    assert!(walk.is_finished());
    assert_eq!(walk.into_files(), vec!["r/a", "r/b", "r/d2/x", "r/d1/y"]);
}

#[test]
fn an_entry_that_is_neither_is_passed_over() {
    let mut walk = FileWalk::new("r");
    walk.next_dir();
    walk.visit(vec![
        DirEntry { path: "r/socket".to_string(), is_file: false, is_dir: false },
        DirEntry { path: "r/both".to_string(), is_file: true, is_dir: true },
    ]);
    assert_eq!(walk.stack, vec!["r/both"]);
    assert_eq!(walk.files, vec!["r/both"]);
}
