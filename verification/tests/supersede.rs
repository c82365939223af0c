use living_docs_core::commands::supersede::{
    apply_frontmatter_field, find_record, parse_record_number, parse_record_reference,
    set_frontmatter_fields, supersede,
};
use living_docs_core::store::MapStore;

fn bundle() -> String {
    "/bundle".to_string()
}

fn read(store: &MapStore, path: &str) -> Option<String> {
    store.read_str(path)
}

#[test]
fn apply_frontmatter_field_fills_an_existing_empty_key_line() {
    let contents = "---\ntype: ADR\nsupersedes:\nsuperseded_by:\n---\n\n# Body\n";
    let updated = apply_frontmatter_field(contents, "superseded_by", "0002").unwrap();
    assert!(updated.contains("superseded_by: 0002"));
    assert!(updated.contains("supersedes:\n"));
}

#[test]
fn apply_frontmatter_field_preserves_a_trailing_guidance_comment() {
    let contents =
        "---\nsupersedes:                 # NNNN of the ADR this replaces, if any\n---\n\n# Body\n";
    let updated = apply_frontmatter_field(contents, "supersedes", "0001").unwrap();
    assert!(updated.contains("supersedes: 0001 # NNNN of the ADR this replaces, if any"));
}

#[test]
fn apply_frontmatter_field_inserts_an_absent_key_before_the_closing_fence() {
    let contents = "---\ntype: BDR\nsuperseded_by:\n---\n\n# Body\n";
    let updated = apply_frontmatter_field(contents, "supersedes", "0001").unwrap();
    assert!(updated.contains("supersedes: 0001"));
    assert!(updated.contains("---\ntype: BDR\nsuperseded_by:\nsupersedes: 0001\n---"));
}

#[test]
fn apply_frontmatter_field_leaves_the_body_untouched() {
    let contents = "---\ntype: ADR\nsupersedes:\n---\n\n## Context\n\nSome body text.\n";
    let updated = apply_frontmatter_field(contents, "supersedes", "0001").unwrap();
    assert!(updated.contains("## Context\n\nSome body text.\n"));
}

#[test]
fn apply_frontmatter_field_without_a_frontmatter_block_returns_none() {
    assert_eq!(
        apply_frontmatter_field("no frontmatter here\n", "supersedes", "0001"),
        None
    );
}

#[test]
fn parse_record_number_rejects_non_numeric_input() {
    assert!(parse_record_number("abcd").is_err());
}

#[test]
fn parse_record_reference_accepts_a_bare_number_with_no_qualifier() {
    let (dir, number) = parse_record_reference("0028").expect("bare number must parse");

    assert_eq!(dir, None);
    assert_eq!(number, 28);
}

#[test]
fn parse_record_reference_resolves_a_type_qualifier_through_the_registry() {
    let (dir, number) = parse_record_reference("issue/0028").expect("qualifier must resolve");

    assert_eq!(dir, Some("issues"));
    assert_eq!(number, 28);
}

#[test]
fn parse_record_reference_rejects_an_unknown_type_qualifier() {
    let err = parse_record_reference("glossary/0028")
        .expect_err("an unregistered token must be rejected");

    assert!(err.contains("glossary"), "got: {err}");
    assert!(err.contains("issue"), "got: {err}");
}

const OLD_RECORD: &str =
    "---\ntype: ADR\nstatus: Proposed\nsupersedes:\nsuperseded_by:\n---\n\n# Old\n";
const NEW_RECORD: &str =
    "---\ntype: ADR\nstatus: Proposed\nsupersedes:\nsuperseded_by:\n---\n\n# New\n";

#[test]
fn supersede_persists_status_and_both_links_through_the_store_read_modify_write() {
    let mut store = MapStore::seeded(&[
        ("/bundle/adr/0001-old.md", OLD_RECORD),
        ("/bundle/adr/0002-new.md", NEW_RECORD),
    ]);

    supersede(&mut store, &bundle(), "0001", "0002").expect("supersede should succeed");

    let old = read(&store, "/bundle/adr/0001-old.md").expect("old record still present");
    let new = read(&store, "/bundle/adr/0002-new.md").expect("new record still present");

    assert!(old.contains("status: Superseded"), "got: {old}");
    assert!(old.contains("superseded_by: 0002"), "got: {old}");
    assert!(new.contains("supersedes: 0001"), "got: {new}");
}

#[test]
fn supersede_writes_the_superseded_callout_on_the_old_record_naming_the_new_records_filename_and_leaves_the_new_record_without_one(
) {
    let mut store = MapStore::seeded(&[
        ("/bundle/adr/0001-old.md", OLD_RECORD),
        ("/bundle/adr/0002-new.md", NEW_RECORD),
    ]);

    supersede(&mut store, &bundle(), "0001", "0002").expect("supersede should succeed");

    let old = read(&store, "/bundle/adr/0001-old.md").expect("old record still present");
    let new = read(&store, "/bundle/adr/0002-new.md").expect("new record still present");

    assert!(
        old.contains(
            "> **SUPERSEDED — do not act on this record.** Replaced by [0002](0002-new.md). \
             Run `living-docs read` for what is in force.\n\n# Old"
        ),
        "got: {old}"
    );
    assert!(
        !new.contains("SUPERSEDED") && !new.contains("DEPRECATED"),
        "got: {new}"
    );
}

#[test]
fn supersede_fails_when_the_store_lists_no_record_for_a_number() {
    let mut store = MapStore::seeded(&[("/bundle/adr/0001-old.md", OLD_RECORD)]);

    let err = supersede(&mut store, &bundle(), "0001", "0099")
        .expect_err("supersede must fail when the new record cannot be found");

    assert!(err.contains("no record found for 0099"), "got: {err}");
}

#[test]
fn find_record_matches_a_zero_padded_prefix_regardless_of_type_directory() {
    let store = MapStore::seeded(&[("/bundle/bdr/0007-behavior.md", NEW_RECORD)]);

    let found = find_record(&store, &bundle(), "7").expect("find_record should succeed");

    assert_eq!(found, "/bundle/bdr/0007-behavior.md".to_string());
}

#[test]
fn find_record_resolves_a_type_qualified_reference_to_only_that_type() {
    let store = MapStore::seeded(&[
        ("/bundle/adr/0028-collision.md", OLD_RECORD),
        ("/bundle/issues/0028-collision.md", NEW_RECORD),
    ]);

    let found = find_record(&store, &bundle(), "issue/0028")
        .expect("qualified reference must resolve");

    assert_eq!(found, "/bundle/issues/0028-collision.md".to_string());
}

#[test]
fn find_record_fails_loud_on_an_unqualified_cross_type_collision_naming_every_candidate() {
    let store = MapStore::seeded(&[
        ("/bundle/adr/0028-collision.md", OLD_RECORD),
        ("/bundle/issues/0028-collision.md", NEW_RECORD),
    ]);

    let err = find_record(&store, &bundle(), "0028")
        .expect_err("an unqualified cross-type collision must be rejected");

    assert!(err.contains("/bundle/adr/0028-collision.md"), "got: {err}");
    assert!(
        err.contains("/bundle/issues/0028-collision.md"),
        "got: {err}"
    );
    assert!(err.contains("0028"), "got: {err}");
}

#[test]
fn find_record_fails_when_the_named_type_has_no_matching_record() {
    let store = MapStore::seeded(&[("/bundle/adr/0028-decision.md", OLD_RECORD)]);

    let err = find_record(&store, &bundle(), "issue/0028")
        .expect_err("a qualifier naming a type with no match must fail");

    assert!(err.contains("issue/0028"), "got: {err}");
}

#[test]
fn supersede_honors_a_type_qualifier_and_leaves_the_colliding_other_type_record_untouched() {
    let mut store = MapStore::seeded(&[
        ("/bundle/adr/0028-old.md", OLD_RECORD),
        ("/bundle/issues/0028-old.md", NEW_RECORD),
        ("/bundle/adr/0029-new.md", NEW_RECORD),
    ]);

    supersede(&mut store, &bundle(), "adr/0028", "0029")
        .expect("supersede with a qualified old reference should succeed");

    let adr_old = read(&store, "/bundle/adr/0028-old.md").unwrap();
    let issue_old = read(&store, "/bundle/issues/0028-old.md").unwrap();

    assert!(adr_old.contains("status: Superseded"), "got: {adr_old}");
    assert_eq!(
        issue_old, NEW_RECORD,
        "colliding Issue record must stay byte-identical"
    );
}

#[test]
fn set_frontmatter_fields_inserts_an_absent_key_in_canonical_order() {
    let contents = "---\ntype: BDR\ntitle: A Behavior\ndescription: A summary.\n---\n\n## Context\n\nSome body text.\n";
    let mut store = MapStore::seeded(&[("/bundle/bdr/0001-a-behavior.md", contents)]);
    let path = "/bundle/bdr/0001-a-behavior.md".to_string();

    set_frontmatter_fields(
        &mut store,
        &path,
        &vec![("supersedes".to_string(), "0001".to_string())],
    )
    .expect("set_frontmatter_fields should succeed");

    let updated = read(&store, &path).unwrap();
    assert_eq!(
        updated,
        "---\ntype: BDR\ntitle: A Behavior\ndescription: A summary.\nsupersedes: 0001\n---\n\n## Context\n\nSome body text.\n",
        "got: {updated}"
    );
}

#[test]
fn set_frontmatter_fields_changing_an_existing_key_stays_canonical() {
    let contents =
        "---\ntype: ADR\ntitle: A Decision\ndescription: A summary.\nstatus: Proposed\n---\n\n# Body\n";
    let mut store = MapStore::seeded(&[("/bundle/adr/0001-a-decision.md", contents)]);
    let path = "/bundle/adr/0001-a-decision.md".to_string();

    set_frontmatter_fields(
        &mut store,
        &path,
        &vec![("status".to_string(), "Accepted".to_string())],
    )
    .expect("set_frontmatter_fields should succeed");

    let updated = read(&store, &path).unwrap();
    assert_eq!(
        updated,
        "---\ntype: ADR\ntitle: A Decision\ndescription: A summary.\nstatus: Accepted\n---\n\n# Body\n",
        "got: {updated}"
    );
}

#[test]
fn supersede_fails_loud_on_an_ambiguous_unqualified_reference_and_writes_neither_record() {
    let mut store = MapStore::seeded(&[
        ("/bundle/adr/0028-old.md", OLD_RECORD),
        ("/bundle/issues/0028-old.md", NEW_RECORD),
        ("/bundle/adr/0029-new.md", NEW_RECORD),
    ]);

    let err = supersede(&mut store, &bundle(), "0028", "0029")
        .expect_err("an ambiguous old reference must be rejected");

    assert!(err.contains("0028"), "got: {err}");
    let adr_old = read(&store, "/bundle/adr/0028-old.md").unwrap();
    let issue_old = read(&store, "/bundle/issues/0028-old.md").unwrap();
    assert_eq!(adr_old, OLD_RECORD, "ADR record must stay untouched");
    assert_eq!(issue_old, NEW_RECORD, "Issue record must stay untouched");
}

#[test]
fn set_frontmatter_fields_fails_on_an_unstored_path_and_writes_nothing() {
    let mut store = MapStore::seeded(&[("/bundle/adr/0001-old.md", OLD_RECORD)]);
    let err = set_frontmatter_fields(
        &mut store,
        &"/bundle/adr/0009-none.md".to_string(),
        &vec![("status".to_string(), "Accepted".to_string())],
    )
    .expect_err("nothing stored there");
    assert!(err.contains("/bundle/adr/0009-none.md"), "got: {err}");
    assert_eq!(read(&store, "/bundle/adr/0001-old.md").unwrap(), OLD_RECORD);
    assert_eq!(read(&store, "/bundle/adr/0009-none.md"), None);
}
