use living_docs_core::fingerprint::{fingerprint_of, is_record_file};

fn files(list: &[(&str, &str)]) -> Vec<(String, Vec<u8>)> {
    list.iter().map(|(p, c)| (p.to_string(), c.as_bytes().to_vec())).collect()
}

#[test]
fn the_fingerprint_of_an_empty_tree_hashes_an_empty_set() {
    assert_eq!(
        fingerprint_of(&Vec::new()),
        "e3b0c44298fc1c149afbf4c8996fb92427ae41e4649b934ca495991b7852b855"
    );
}

#[test]
fn the_fingerprint_is_independent_of_the_order_files_were_found_in() {
    let a = files(&[("adr/0001-a.md", "one"), ("issues/0002-b.md", "two")]);
    let b = files(&[("issues/0002-b.md", "two"), ("adr/0001-a.md", "one")]);
    assert_eq!(fingerprint_of(&a), fingerprint_of(&b));
}

#[test]
fn the_fingerprint_changes_when_one_byte_changes() {
    let a = files(&[("adr/0001-a.md", "one")]);
    let b = files(&[("adr/0001-a.md", "onf")]);
    assert_ne!(fingerprint_of(&a), fingerprint_of(&b));
}

#[test]
fn the_fingerprint_changes_when_a_path_is_renamed_with_identical_content() {
    let a = files(&[("adr/0001-a.md", "one")]);
    let b = files(&[("adr/0001-b.md", "one")]);
    assert_ne!(fingerprint_of(&a), fingerprint_of(&b));
}

#[test]
fn the_fingerprint_is_deterministic() {
    let a = files(&[("adr/0001-a.md", "one"), ("constitution.md", "c")]);
    assert_eq!(fingerprint_of(&a), fingerprint_of(&a.clone()));
    assert_eq!(fingerprint_of(&a).len(), 64);
}

#[test]
fn reserved_and_non_markdown_files_are_not_record_files() {
    assert!(is_record_file("adr/0001-a.md"));
    assert!(!is_record_file("adr/index.md"));
    assert!(!is_record_file("log.md"));
    assert!(!is_record_file("notes.txt"));
}
