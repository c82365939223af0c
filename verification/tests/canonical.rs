use living_docs_core::check::canonical::check_canonical_frontmatter;
use living_docs_core::check::reporter::Reporter;
use living_docs_core::doc_type::{doc_types, spec_for, spec_for_dir, Identity};
use living_docs_core::frontmatter::frontmatter_block;
use living_docs_core::record::{extract_record, to_canonical_markdown};
use living_docs_core::store::MapStore;

fn store_with(path: &str, contents: &str) -> (MapStore, Vec<String>) {
    let store = MapStore::seeded(&[(path, contents)]);
    (store, vec![path.to_string()])
}

fn run(store: &MapStore, all_md: &Vec<String>) -> Vec<(String, String)> {
    let mut reporter = Reporter::new();
    check_canonical_frontmatter(store, &"/bundle".to_string(), all_md, &mut reporter);
    reporter.into_violations()
}

#[test]
fn frontmatter_block_slices_between_the_fences() {
    assert_eq!(
        frontmatter_block("---\ntype: ADR\n---\n\nBody.\n"),
        Some("type: ADR".to_string())
    );
}

#[test]
fn frontmatter_block_is_none_without_a_leading_fence() {
    assert_eq!(frontmatter_block("# No frontmatter\n"), None);
}

#[test]
fn check_canonical_frontmatter_accepts_an_already_canonical_record() {
    let canonical = "---\ntype: ADR\ntitle: Quokka Caching\ndescription: Adopt quokka caching.\n---\n\n# Quokka Caching\n\nBody.\n";
    let (store, all_md) = store_with("/bundle/adr/0001-doc.md", canonical);

    assert!(run(&store, &all_md).is_empty());
}

#[test]
fn check_canonical_frontmatter_flags_a_trailing_yaml_comment() {
    let commented = "---\ntype: ADR\ntitle: Quokka Caching\ndescription: Adopt quokka caching.  # a comment\n---\n\n# Quokka Caching\n\nBody.\n";
    let (store, all_md) = store_with("/bundle/adr/0001-doc.md", commented);

    let violations = run(&store, &all_md);
    assert_eq!(violations.len(), 1);
    assert!(violations[0].1.contains("living-docs fmt"));
}

#[test]
fn check_canonical_frontmatter_flags_reordered_keys() {
    let reordered = "---\ntitle: Quokka Caching\ntype: ADR\ndescription: Adopt quokka caching.\n---\n\n# Quokka Caching\n\nBody.\n";
    let (store, all_md) = store_with("/bundle/adr/0001-doc.md", reordered);

    assert_eq!(run(&store, &all_md).len(), 1);
}

#[test]
fn check_canonical_frontmatter_flags_extra_spacing_around_a_value() {
    let spaced = "---\ntype: ADR\ntitle: Quokka Caching\ndescription: Adopt quokka caching.   \n---\n\n# Quokka Caching\n\nBody.\n";
    let (store, all_md) = store_with("/bundle/adr/0001-doc.md", spaced);

    assert_eq!(run(&store, &all_md).len(), 1);
}

#[test]
fn check_canonical_frontmatter_skips_records_outside_cli_owned_directories() {
    let outside_dir = "reference";
    assert!(spec_for_dir(outside_dir).is_none());

    let commented = "---\ntype: Research\ntitle: Field Notes  # a comment\n---\n\nBody.\n";
    for path in [
        format!("/bundle/{outside_dir}/0001-notes.md"),
        "/bundle/0001-notes.md".to_string(),
    ] {
        let (store, all_md) = store_with(&path, commented);
        assert!(run(&store, &all_md).is_empty());
    }
}

#[test]
fn check_canonical_frontmatter_flags_every_cli_owned_directory() {
    let commented = "---\ntype: ADR\ntitle: X  # comment\n---\n\nBody.\n";
    for spec in doc_types() {
        let Identity::Numbered { dir } = spec.identity else {
            continue;
        };
        let path = format!("/bundle/{dir}/0001-doc.md");
        let (store, all_md) = store_with(&path, commented);
        assert_eq!(run(&store, &all_md).len(), 1);
    }
}

fn assert_constitution_md_is_still_the_registered_singleton() {
    let spec = spec_for("constitution").expect("constitution is a registered token");
    assert_eq!(spec.identity, Identity::Singleton { file: "constitution.md" });
}

#[test]
fn check_canonical_frontmatter_flags_a_hand_written_bundle_root_singleton() {
    assert_constitution_md_is_still_the_registered_singleton();
    let commented = "---\ntype: Constitution\ntitle: X  # comment\n---\n\nBody.\n".to_string();
    let (store, all_md) = store_with("/bundle/constitution.md", &commented);

    let violations = run(&store, &all_md);
    assert_eq!(violations.len(), 1);
    assert!(violations[0].1.contains("living-docs fmt"));
}

#[test]
fn check_canonical_frontmatter_does_not_flag_the_singleton_filename_nested_in_a_subdirectory() {
    assert_constitution_md_is_still_the_registered_singleton();
    let commented = "---\ntype: Constitution\ntitle: X  # comment\n---\n\nBody.\n".to_string();
    let (store, all_md) = store_with("/bundle/reference/constitution.md", &commented);

    assert!(run(&store, &all_md).is_empty());
}

#[test]
fn check_canonical_frontmatter_accepts_the_canonical_bundle_root_singleton() {
    assert_constitution_md_is_still_the_registered_singleton();
    let hand_written = "---\ntype: Constitution\ntitle: X\n---\n\nBody.\n";
    let canonical = to_canonical_markdown(&extract_record("/bundle/constitution.md", hand_written));
    let (store, all_md) = store_with("/bundle/constitution.md", &canonical);

    assert!(run(&store, &all_md).is_empty());
}

#[test]
fn check_canonical_frontmatter_skips_a_record_with_no_frontmatter_block() {
    let (store, all_md) = store_with("/bundle/adr/notes.md", "# Just a heading\n\nBody.\n");

    assert!(run(&store, &all_md).is_empty());
}

#[test]
fn check_canonical_frontmatter_skips_reserved_files() {
    let commented = "---\ntype: ADR\ntitle: X  # comment\n---\n\nBody.\n";
    let (store, all_md) = store_with("/bundle/adr/index.md", commented);

    assert!(run(&store, &all_md).is_empty());
}

#[test]
fn check_canonical_frontmatter_accepts_the_same_record_after_a_fmt_pass() {
    let commented = "---\ntype: ADR\ntitle: Quokka Caching\ndescription: Adopt quokka caching.  # a comment\n---\n\n# Quokka Caching\n\nBody.\n";
    let fmt_pass = to_canonical_markdown(&extract_record("/bundle/adr/0001-doc.md", commented));
    let (store, all_md) = store_with("/bundle/adr/0001-doc.md", &fmt_pass);

    assert!(run(&store, &all_md).is_empty());
}
