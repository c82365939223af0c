use living_docs_core::commands::owner::owner;
use living_docs_core::frontmatter::format_scalar;
use living_docs_core::store::MapStore;

fn bundle() -> String {
    "/bundle".to_string()
}

const RECORD: &str = "---\ntype: ADR\ntitle: A Decision\ndescription: A one sentence summary.\nowner: alice\nstatus: Proposed\nsupersedes:\nsuperseded_by:\n---\n\n# A Decision\n";

#[test]
fn owner_sets_the_owner_field_and_preserves_the_rest_of_the_record() {
    let mut store = MapStore::seeded(&[("/bundle/adr/0001-a-decision.md", RECORD)]);

    owner(&mut store, &bundle(), "0001", "bob").expect("owner should succeed");

    let updated = store.read_str("/bundle/adr/0001-a-decision.md").unwrap();
    assert!(updated.contains("owner: bob\n"), "got: {updated}");
    assert!(updated.contains("title: A Decision"), "got: {updated}");
    assert!(updated.contains("status: Proposed"), "got: {updated}");
    assert!(updated.contains("supersedes:\n"), "got: {updated}");
    assert!(updated.contains("# A Decision\n"), "got: {updated}");
}

#[test]
fn owner_quotes_a_value_containing_a_colon_space_and_round_trips_through_format_scalar() {
    let mut store = MapStore::seeded(&[("/bundle/adr/0001-a-decision.md", RECORD)]);

    owner(&mut store, &bundle(), "0001", "Team: Platform").expect("owner should succeed");

    let updated = store.read_str("/bundle/adr/0001-a-decision.md").unwrap();
    assert!(
        updated.contains(&format!("owner: {}\n", format_scalar("Team: Platform"))),
        "got: {updated}"
    );
}

#[test]
fn owner_accepts_any_string_with_no_vocabulary_constraint() {
    let mut store = MapStore::seeded(&[("/bundle/adr/0001-a-decision.md", RECORD)]);

    owner(&mut store, &bundle(), "0001", "carol@example.com")
        .expect("owner places no constraint on the value's content");

    let updated = store.read_str("/bundle/adr/0001-a-decision.md").unwrap();
    assert!(updated.contains("owner: carol@example.com\n"));
}

#[test]
fn owner_fails_when_the_store_lists_no_record_for_a_number_and_leaves_it_unchanged() {
    let mut store = MapStore::seeded(&[("/bundle/adr/0001-a-decision.md", RECORD)]);

    let err = owner(&mut store, &bundle(), "0099", "bob")
        .expect_err("owner must fail when the record cannot be found");

    assert!(err.contains("no record found for 0099"), "got: {err}");
    let unchanged = store.read_str("/bundle/adr/0001-a-decision.md").unwrap();
    assert_eq!(unchanged, RECORD);
}

const ADR_RECORD_0029: &str = "---\ntype: ADR\ntitle: A Decision\ndescription: A one sentence summary.\nowner: alice\nstatus: Proposed\nsupersedes:\nsuperseded_by:\n---\n\n# A Decision\n";
const ISSUE_RECORD_0029: &str =
    "---\ntype: Issue\ntitle: A Bug\ndescription: <One sentence.>\nstatus: open\n---\n\n# A Bug\n";

#[test]
fn owner_resolves_a_type_qualified_reference_to_only_that_type_across_a_number_collision() {
    let mut store = MapStore::seeded(&[
        ("/bundle/adr/0029-collision.md", ADR_RECORD_0029),
        ("/bundle/issues/0029-collision.md", ISSUE_RECORD_0029),
    ]);

    owner(&mut store, &bundle(), "adr/0029", "bob").expect("a type-qualified reference must resolve");

    let adr = store.read_str("/bundle/adr/0029-collision.md").unwrap();
    let issue = store.read_str("/bundle/issues/0029-collision.md").unwrap();
    assert!(adr.contains("owner: bob\n"), "got: {adr}");
    assert_eq!(
        issue, ISSUE_RECORD_0029,
        "the colliding Issue must stay byte-identical"
    );
}

#[test]
fn owner_fails_loud_on_an_unqualified_cross_type_collision_and_writes_no_file() {
    let mut store = MapStore::seeded(&[
        ("/bundle/adr/0029-collision.md", ADR_RECORD_0029),
        ("/bundle/issues/0029-collision.md", ISSUE_RECORD_0029),
    ]);

    let err = owner(&mut store, &bundle(), "0029", "bob")
        .expect_err("an unqualified cross-type collision must be rejected");

    assert!(err.contains("/bundle/adr/0029-collision.md"), "got: {err}");
    assert!(err.contains("/bundle/issues/0029-collision.md"), "got: {err}");
    let adr = store.read_str("/bundle/adr/0029-collision.md").unwrap();
    let issue = store.read_str("/bundle/issues/0029-collision.md").unwrap();
    assert_eq!(adr, ADR_RECORD_0029, "no file may be written on an ambiguous reference");
    assert_eq!(issue, ISSUE_RECORD_0029, "no file may be written on an ambiguous reference");
}
