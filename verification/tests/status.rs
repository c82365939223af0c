use living_docs_core::commands::status::{status, validate_status};
use living_docs_core::doc_type::{doc_types, spec_for};
use living_docs_core::store::MapStore;

fn bundle() -> String {
    "/bundle".to_string()
}

#[test]
fn validate_status_accepts_every_type_s_own_vocabulary() {
    for spec in doc_types() {
        for value in spec.status_vocabulary.iter() {
            assert!(
                validate_status(value, &spec).is_ok(),
                "expected {value} to be valid for {}",
                spec.token
            );
        }
    }
}

#[test]
fn validate_status_rejects_a_value_from_a_different_type_s_vocabulary() {
    let issue_spec = spec_for("issue").unwrap();

    let err = validate_status("Proposed", &issue_spec)
        .expect_err("an ADR-only value must be rejected for an Issue");

    assert!(err.contains("open"), "got: {err}");
    assert!(err.contains("in-progress"), "got: {err}");
    assert!(err.contains("closed"), "got: {err}");
    assert!(!err.contains("Proposed, Accepted"), "got: {err}");
}

#[test]
fn validate_status_rejects_superseded_case_insensitively_with_a_supersede_hint_for_every_type() {
    for spec in doc_types() {
        for value in ["Superseded", "superseded", "SUPERSEDED"] {
            let err = validate_status(value, &spec)
                .expect_err("Superseded must be rejected for every type");
            assert!(err.contains("living-docs supersede"), "got: {err}");
        }
    }
}

#[test]
fn validate_status_rejects_an_unknown_value_and_names_the_records_own_type_s_vocabulary() {
    let adr_spec = spec_for("adr").unwrap();

    let err = validate_status("Acepted", &adr_spec).expect_err("typo status must be rejected");

    assert!(err.contains("Proposed"), "got: {err}");
    assert!(err.contains("Accepted"), "got: {err}");
    assert!(err.contains("Deprecated"), "got: {err}");
}

const RECORD: &str =
    "---\ntype: ADR\nstatus: Proposed\nsupersedes:\nsuperseded_by:\n---\n\n# Record\n";

#[test]
fn status_sets_the_status_field_and_preserves_the_rest_of_the_record() {
    let mut store = MapStore::seeded(&[("/bundle/adr/0001-record.md", RECORD)]);

    status(&mut store, &bundle(), "0001", "Accepted").expect("status should succeed");

    let updated = store.read_str("/bundle/adr/0001-record.md").unwrap();
    assert!(updated.contains("status: Accepted"), "got: {updated}");
    assert!(updated.contains("# Record\n"), "got: {updated}");
    assert!(updated.contains("supersedes:\n"), "got: {updated}");
}

#[test]
fn status_rejects_superseded_without_touching_the_store() {
    let mut store = MapStore::seeded(&[("/bundle/adr/0001-record.md", RECORD)]);

    let err = status(&mut store, &bundle(), "0001", "Superseded")
        .expect_err("Superseded must be rejected");

    assert!(err.contains("living-docs supersede"), "got: {err}");
    let unchanged = store.read_str("/bundle/adr/0001-record.md").unwrap();
    assert_eq!(unchanged, RECORD);
}

#[test]
fn status_fails_when_the_store_lists_no_record_for_a_number() {
    let mut store = MapStore::seeded(&[("/bundle/adr/0001-record.md", RECORD)]);

    let err = status(&mut store, &bundle(), "0099", "Accepted")
        .expect_err("status must fail when the record cannot be found");

    assert!(err.contains("no record found for 0099"), "got: {err}");
}

const ISSUE_RECORD: &str = "---\ntype: Issue\nstatus: open\n---\n\n# Record\n";

#[test]
fn status_validates_against_the_records_own_type_not_a_fixed_global_list() {
    let mut store = MapStore::seeded(&[("/bundle/issues/0001-record.md", ISSUE_RECORD)]);

    status(&mut store, &bundle(), "0001", "in-progress")
        .expect("in-progress is a valid Issue status");

    let updated = store.read_str("/bundle/issues/0001-record.md").unwrap();
    assert!(updated.contains("status: in-progress"), "got: {updated}");
}

#[test]
fn status_rejects_an_adr_only_value_for_an_issue_record() {
    let mut store = MapStore::seeded(&[("/bundle/issues/0001-record.md", ISSUE_RECORD)]);

    let err = status(&mut store, &bundle(), "0001", "Proposed")
        .expect_err("Proposed is not a valid Issue status");

    assert!(err.contains("open"), "got: {err}");
    assert!(err.contains("in-progress"), "got: {err}");
    assert!(err.contains("closed"), "got: {err}");
    let unchanged = store.read_str("/bundle/issues/0001-record.md").unwrap();
    assert_eq!(unchanged, ISSUE_RECORD);
}

#[test]
fn status_fails_when_the_records_type_frontmatter_is_unrecognized() {
    let record = "---\ntype: Glossary\nstatus: Active\n---\n\n# Record\n";
    let mut store = MapStore::seeded(&[("/bundle/adr/0001-record.md", record)]);

    let err = status(&mut store, &bundle(), "0001", "Accepted")
        .expect_err("an unrecognized type must be rejected");

    assert!(err.contains("Glossary"), "got: {err}");
}

#[test]
fn status_writes_exactly_the_canonical_record() {
    let mut store = MapStore::seeded(&[("/bundle/adr/0001-record.md", RECORD)]);
    status(&mut store, &bundle(), "1", "Accepted").expect("valid");
    assert_eq!(
        store.read_str("/bundle/adr/0001-record.md").unwrap(),
        "---\ntype: ADR\nstatus: Accepted\nsupersedes:\nsuperseded_by:\n---\n\n# Record\n"
    );
}
