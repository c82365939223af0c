use living_docs_core::check::reporter::Reporter;
use living_docs_core::check::size::{body_line_count, check_body_size, over_target_body_lines};
use living_docs_core::doc_type::{doc_types, spec_for_frontmatter, BodySize};
use living_docs_core::store::MapStore;

fn doc_with_body_lines(doc_type: &str, body_lines: usize) -> String {
    doc_with_status_and_body_lines(doc_type, None, body_lines)
}

fn doc_with_status_and_body_lines(doc_type: &str, status: Option<&str>, body_lines: usize) -> String {
    let body = (0..body_lines)
        .map(|i| format!("line {i}"))
        .collect::<Vec<_>>()
        .join("\n");
    let status_line = status.map_or(String::new(), |status| format!("status: {status}\n"));
    format!("---\ntype: {doc_type}\n{status_line}---\n{body}")
}

#[test]
fn a_deprecated_adr_over_target_is_not_flagged() {
    assert_eq!(
        over_target_body_lines(&doc_with_status_and_body_lines("ADR", Some("Deprecated"), 121)),
        None
    );
}

#[test]
fn a_superseded_adr_over_target_is_not_flagged() {
    assert_eq!(
        over_target_body_lines(&doc_with_status_and_body_lines("ADR", Some("Superseded"), 121)),
        None
    );
}

#[test]
fn an_accepted_adr_over_target_is_still_flagged() {
    assert_eq!(
        over_target_body_lines(&doc_with_status_and_body_lines("ADR", Some("Accepted"), 121)),
        Some(121)
    );
}

#[test]
fn a_case_insensitive_deprecated_status_is_not_flagged() {
    assert_eq!(
        over_target_body_lines(&doc_with_status_and_body_lines("ADR", Some("deprecated"), 121)),
        None
    );
}

#[test]
fn body_line_count_excludes_the_frontmatter_block() {
    assert_eq!(body_line_count("---\ntype: ADR\n---\none\ntwo\n"), 2);
}

#[test]
fn body_line_count_without_frontmatter_counts_every_line() {
    assert_eq!(body_line_count("one\ntwo\nthree\n"), 3);
}

#[test]
fn a_body_at_exactly_the_warn_threshold_is_not_flagged() {
    assert_eq!(over_target_body_lines(&doc_with_body_lines("ADR", 120)), None);
}

#[test]
fn a_body_one_line_over_the_warn_threshold_is_flagged_with_its_count() {
    assert_eq!(over_target_body_lines(&doc_with_body_lines("ADR", 121)), Some(121));
}

#[test]
fn research_is_exempt_regardless_of_length() {
    assert_eq!(over_target_body_lines(&doc_with_body_lines("Research", 400)), None);
}

#[test]
fn a_type_absent_from_the_registry_is_exempt_regardless_of_length() {
    assert!(spec_for_frontmatter("Context").is_none());
    assert_eq!(over_target_body_lines(&doc_with_body_lines("Context", 400)), None);
}

#[test]
fn every_registry_row_is_flagged_exactly_when_its_body_size_is_targeted() {
    let mut saw_targeted = false;
    let mut saw_exempt = false;
    for spec in doc_types() {
        let over_target = over_target_body_lines(&doc_with_body_lines(spec.frontmatter, 121));
        match spec.body_size {
            BodySize::Targeted => {
                saw_targeted = true;
                assert_eq!(over_target, Some(121), "{}", spec.frontmatter);
            }
            BodySize::Exempt => {
                saw_exempt = true;
                assert_eq!(over_target, None, "{}", spec.frontmatter);
            }
        }
    }
    assert!(saw_targeted);
    assert!(saw_exempt);
}

#[test]
fn check_body_size_advises_with_the_exact_message_and_never_fails() {
    let store = MapStore::seeded(&[("/b/adr/0001-x.md", &doc_with_body_lines("ADR", 121))]);
    let all_md = store.all_paths();
    let mut reporter = Reporter::new();

    check_body_size(&store, &all_md, &mut reporter);

    assert!(reporter.is_ok());
    assert_eq!(reporter.advisories.len(), 1);
    assert_eq!(reporter.advisories[0].kind, "size");
    assert_eq!(
        reporter.advisories[0].message,
        "SIZE body 121 lines exceeds the 120-line advisory target (aim ~100)"
    );
}
