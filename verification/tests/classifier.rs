use living_docs_core::commands::scorecard::classifier::{classify, rules, Category};

#[test]
fn a_citation_phrasing_classifies_as_citation() {
    assert_eq!(classify("This comment cites an ADR, remove it"), Category::Citation);
}

#[test]
fn an_index_phrasing_classifies_as_index_row() {
    assert_eq!(
        classify("record is an orphan record, add its index row"),
        Category::IndexRow
    );
}

#[test]
fn a_frontmatter_phrasing_classifies_as_frontmatter() {
    assert_eq!(classify("non-canonical frontmatter, run fmt"), Category::Frontmatter);
}

#[test]
fn an_envelope_phrasing_classifies_as_envelope_protocol() {
    assert_eq!(
        classify("the response envelope is malformed"),
        Category::EnvelopeProtocol
    );
}

#[test]
fn an_unmatched_finding_is_unclassified_not_guessed() {
    let category = classify("the algorithm has an off-by-one error in the loop bound");
    assert_eq!(category, Category::Unclassified);
    assert!(!category.is_doc_trail());
}

#[test]
fn every_doc_trail_category_is_reachable_from_the_table() {
    for expected in [
        Category::Citation,
        Category::IndexRow,
        Category::Frontmatter,
        Category::EnvelopeProtocol,
    ] {
        assert!(
            rules().iter().any(|(c, _)| *c == expected),
            "{expected:?} has no phrasing rule",
        );
    }
}

#[test]
fn matching_ignores_case_and_the_first_rule_wins() {
    assert_eq!(classify("THE ENVELOPE CITES AN ADR"), Category::Citation);
    assert!(Category::Frontmatter.is_doc_trail());
}
