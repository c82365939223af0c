use living_docs_core::commands::set::apply;
use living_docs_core::frontmatter::format_scalar;
use living_docs_core::record::extract_record;
use living_docs_core::store::MapStore;

const ADR: &str = "---\ntype: ADR\ntitle: A Decision\ndescription: <One sentence — the decision and its scope.>\nstatus: Proposed\nsupersedes:\nsuperseded_by:\n---\n\n# A Decision\n";
const PATH: &str = "/bundle/adr/0001-a-decision.md";

fn store() -> MapStore {
    MapStore::seeded(&[(PATH, ADR)])
}

fn bundle() -> String {
    "/bundle".to_string()
}

fn contents(store: &MapStore) -> String {
    store.read_str(PATH).expect("record present")
}

#[test]
fn set_status_updates_the_field_within_the_type_vocabulary() {
    let mut store = store();
    apply(&mut store, &bundle(), "0001", "status", "Accepted").expect("valid status");
    assert!(contents(&store).contains("status: Accepted\n"));
}

#[test]
fn set_status_rejects_a_value_outside_the_type_vocabulary_and_writes_nothing() {
    let mut store = store();
    let err = apply(&mut store, &bundle(), "0001", "status", "Ratified")
        .expect_err("Ratified is not an ADR status");
    assert!(err.contains("not a valid status"), "got: {err}");
    assert_eq!(contents(&store), ADR);
}

#[test]
fn set_status_reserves_superseded_for_the_supersede_verb() {
    let mut store = store();
    let err = apply(&mut store, &bundle(), "0001", "status", "Superseded")
        .expect_err("Superseded is set only via supersede");
    assert!(err.contains("living-docs supersede"), "got: {err}");
}

#[test]
fn set_status_deprecated_adds_the_deprecated_callout() {
    let mut store = store();
    apply(&mut store, &bundle(), "0001", "status", "Deprecated").expect("valid status");
    let contents = contents(&store);
    assert!(
        contents.contains(
            "> **DEPRECATED — do not act on this record.** It has no successor. \
             Run `living-docs read` for what is in force.\n\n# A Decision"
        ),
        "got: {contents}"
    );
}

#[test]
fn set_status_back_to_active_removes_the_callout_and_leaves_the_body_byte_identical() {
    let mut store = store();
    apply(&mut store, &bundle(), "0001", "status", "Deprecated").expect("valid status");
    apply(&mut store, &bundle(), "0001", "status", "Accepted").expect("valid status");

    let contents = contents(&store);
    let original_body = extract_record(PATH, ADR).body;
    let final_body = extract_record(PATH, &contents).body;

    assert!(!contents.contains("DEPRECATED"), "got: {contents}");
    assert_eq!(final_body, original_body, "got: {contents}");
}

#[test]
fn set_description_quotes_and_replaces_the_placeholder() {
    let mut store = store();
    apply(&mut store, &bundle(), "0001", "description", "Caching: a deep dive")
        .expect("any sentence is accepted");
    assert!(contents(&store).contains(&format!(
        "description: {}\n",
        format_scalar("Caching: a deep dive")
    )));
}

#[test]
fn set_owner_accepts_any_string() {
    let mut store = store();
    apply(&mut store, &bundle(), "0001", "owner", "carol@example.com").expect("any owner");
    assert!(contents(&store).contains("owner: carol@example.com\n"));
}

#[test]
fn set_rejects_an_unknown_field() {
    let mut store = store();
    let err = apply(&mut store, &bundle(), "0001", "labels", "urgent")
        .expect_err("labels is not a settable field");
    assert!(err.contains("not a settable field"), "got: {err}");
    assert_eq!(contents(&store), ADR);
}

#[test]
fn set_fails_when_the_record_cannot_be_found_and_leaves_it_unchanged() {
    let mut store = store();
    let err = apply(&mut store, &bundle(), "0099", "status", "Accepted")
        .expect_err("no such record");
    assert!(err.contains("no record found for 0099"), "got: {err}");
    assert_eq!(contents(&store), ADR);
}

#[test]
fn set_title_renames_and_reports_the_previous_path() {
    let mut store = store();
    let applied = apply(&mut store, &bundle(), "0001", "title", "Write-through cache")
        .expect("a live record may be retitled");
    assert_eq!(applied.path, "/bundle/adr/0001-write-through-cache.md");
    assert_eq!(applied.previous, Some(PATH.to_string()));
    assert!(applied.rewritten.is_empty());
    assert_eq!(store.read_str(PATH), None);
    let moved = store.read_str("/bundle/adr/0001-write-through-cache.md").unwrap();
    assert!(moved.contains("title: Write-through cache\n"), "got: {moved}");
    assert!(moved.contains("# 0001. Write-through cache") || moved.contains("# Write-through cache"), "got: {moved}");
}

#[test]
fn set_unknown_field_message_lists_the_settable_keys() {
    let mut store = store();
    let err = apply(&mut store, &bundle(), "0001", "labels", "urgent").unwrap_err();
    assert_eq!(
        err,
        "'labels' is not a settable field; expected one of status, description, owner, title"
    );
}
