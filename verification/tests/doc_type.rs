use living_docs_core::doc_type::{doc_types, spec_for_dir, spec_for_frontmatter};

#[test]
fn every_row_is_found_by_its_frontmatter_value() {
    for row in doc_types() {
        let found = spec_for_frontmatter(row.frontmatter).unwrap();
        assert_eq!(found.token, row.token);
    }
    assert!(spec_for_frontmatter("Context").is_none());
    assert!(spec_for_frontmatter("adr").is_none());
}

#[test]
fn every_directory_finds_its_row_and_no_singleton_is_found() {
    assert_eq!(spec_for_dir("adr").unwrap().token, "adr");
    assert_eq!(spec_for_dir("prd").unwrap().token, "prd");
    assert_eq!(spec_for_dir("issues").unwrap().token, "issue");
    assert_eq!(spec_for_dir("research").unwrap().token, "research");
    assert_eq!(spec_for_dir("architecture").unwrap().token, "view");
    assert!(spec_for_dir("constitution.md").is_none());
    assert!(spec_for_dir("reference").is_none());
}
