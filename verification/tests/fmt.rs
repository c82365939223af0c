use living_docs_core::commands::fmt::{
    canonicalize_bundle, canonicalize_record, is_reserved_file, outcome, Outcome, TargetKind,
};
use living_docs_core::store::MapStore;

fn contents(store: &MapStore, path: &str) -> String {
    store.read_str(path).unwrap_or_default()
}

#[test]
fn is_reserved_file_matches_index_and_log_only() {
    assert!(is_reserved_file("docs/index.md"));
    assert!(is_reserved_file("docs/adr/log.md"));
    assert!(!is_reserved_file("docs/adr/0001-doc.md"));
}

#[test]
fn canonicalize_record_leaves_a_frontmatter_free_file_untouched() {
    let mut store = MapStore::seeded(&[("/bundle/notes.md", "# Just a heading\n\nBody.\n")]);

    let rewritten = canonicalize_record(&mut store, &"/bundle/notes.md".to_string());

    assert!(!rewritten);
    assert_eq!(contents(&store, "/bundle/notes.md"), "# Just a heading\n\nBody.\n");
}

#[test]
fn canonicalize_record_leaves_an_already_canonical_record_byte_identical() {
    let canonical = "---\ntype: ADR\ntitle: Quokka Caching\ndescription: Adopt quokka caching.\n---\n\n# Quokka Caching\n\nBody.\n";
    let mut store = MapStore::seeded(&[("/bundle/adr/0001-doc.md", canonical)]);

    let rewritten = canonicalize_record(&mut store, &"/bundle/adr/0001-doc.md".to_string());

    assert!(!rewritten);
    assert_eq!(contents(&store, "/bundle/adr/0001-doc.md"), canonical);
}

#[test]
fn run_a_second_time_over_a_freshly_canonicalized_record_rewrites_nothing() {
    let mut store = MapStore::seeded(&[(
        "/bundle/adr/0001-doc.md",
        "---\ntitle: Quokka Caching\ntype: ADR\ndescription: Adopt quokka caching.\n---\n# Quokka Caching\n\nBody.\n",
    )]);
    let all = store.list(&"/bundle".to_string());

    let first = canonicalize_bundle(&mut store, &all);
    let after_first_pass = contents(&store, "/bundle/adr/0001-doc.md");
    let rewritten_second_pass = canonicalize_record(&mut store, &"/bundle/adr/0001-doc.md".to_string());

    assert_eq!(first, vec!["/bundle/adr/0001-doc.md".to_string()]);
    assert!(!rewritten_second_pass);
    assert_eq!(contents(&store, "/bundle/adr/0001-doc.md"), after_first_pass);
}

#[test]
fn canonicalize_record_leaves_a_hard_wrapped_paragraph_body_byte_identical() {
    let text = "---\ntype: ADR\ntitle: Quokka Caching\ndescription: Adopt quokka caching.\n---\n\n# Quokka Caching\n\nThis paragraph\nwraps over\nthree lines.\n";
    let mut store = MapStore::seeded(&[("/bundle/adr/0001-doc.md", text)]);

    let rewritten = canonicalize_record(&mut store, &"/bundle/adr/0001-doc.md".to_string());

    assert!(!rewritten);
    assert_eq!(contents(&store, "/bundle/adr/0001-doc.md"), text);
}

#[test]
fn canonicalize_record_leaves_a_multi_line_reference_list_line_count_unchanged() {
    let text = "---\ntitle: Quokka Caching\ntype: ADR\ndescription: Adopt quokka caching.\n---\n\n# Quokka Caching\n\nBody.\n\n# References\n\n- First reference\n- Second reference\n- Third reference\n";
    let mut store = MapStore::seeded(&[("/bundle/adr/0001-doc.md", text)]);

    canonicalize_record(&mut store, &"/bundle/adr/0001-doc.md".to_string());

    let rewritten = contents(&store, "/bundle/adr/0001-doc.md");
    assert_eq!(text.lines().count(), rewritten.lines().count());
    assert!(rewritten.contains("- First reference\n- Second reference\n- Third reference\n"));
}

#[test]
fn canonicalize_record_leaves_a_fenced_code_block_in_the_body_untouched() {
    let canonical = "---\ntype: ADR\ntitle: Quokka Caching\ndescription: Adopt quokka caching.\n---\n\n# Quokka Caching\n\n```\ncode line\n```\n";
    let mut store = MapStore::seeded(&[("/bundle/adr/0001-doc.md", canonical)]);

    let rewritten = canonicalize_record(&mut store, &"/bundle/adr/0001-doc.md".to_string());

    assert!(!rewritten);
    assert_eq!(contents(&store, "/bundle/adr/0001-doc.md"), canonical);
}

fn superseded_record(body_heading: &str) -> String {
    format!(
        "---\ntype: ADR\ntitle: Old\ndescription: d\nstatus: Superseded\nsuperseded_by: 0002\n---\n\n# {body_heading}\n\nBody text.\n"
    )
}

#[test]
fn canonicalize_record_adds_a_missing_callout_to_a_retired_record() {
    let mut store = MapStore::seeded(&[
        ("/bundle/adr/0001-old.md", &superseded_record("Old")),
        ("/bundle/adr/0002-new-record.md", "---\ntype: ADR\ntitle: New\ndescription: d\n---\n\n# New\n"),
    ]);

    let rewritten = canonicalize_record(&mut store, &"/bundle/adr/0001-old.md".to_string());

    assert!(rewritten);
    let text = contents(&store, "/bundle/adr/0001-old.md");
    assert!(text.contains(
        "> **SUPERSEDED — do not act on this record.** Replaced by [0002](0002-new-record.md)."
    ));
    assert!(text.contains("# Old"));
}

#[test]
fn canonicalize_record_removes_a_stale_callout_from_an_active_record() {
    let stale = "---\ntype: ADR\ntitle: Active\ndescription: d\nstatus: Accepted\n---\n\n\
                 > **SUPERSEDED — do not act on this record.** Replaced by [0002](0002.md). \
                 Run `living-docs read` for what is in force.\n\n# Active\n\nBody text.\n";
    let mut store = MapStore::seeded(&[("/bundle/adr/0003-active.md", stale)]);

    let rewritten = canonicalize_record(&mut store, &"/bundle/adr/0003-active.md".to_string());

    assert!(rewritten);
    let text = contents(&store, "/bundle/adr/0003-active.md");
    assert!(!text.contains("SUPERSEDED"));
    assert!(text.contains("# Active"));
}

#[test]
fn a_second_canonicalize_after_reconciling_the_callout_rewrites_nothing() {
    let mut store = MapStore::seeded(&[
        ("/bundle/adr/0001-old.md", &superseded_record("Old")),
        ("/bundle/adr/0002-new-record.md", "---\ntype: ADR\ntitle: New\ndescription: d\n---\n\n# New\n"),
    ]);

    canonicalize_record(&mut store, &"/bundle/adr/0001-old.md".to_string());
    let rewritten_again = canonicalize_record(&mut store, &"/bundle/adr/0001-old.md".to_string());

    assert!(!rewritten_again);
}

#[test]
fn outcome_in_check_mode_reports_pending_records_and_writes_nothing() {
    let non_canonical =
        "---\ntitle: Quokka Caching\ntype: ADR\ndescription: Adopt quokka caching.\n---\n\n# Quokka Caching\n\nBody.\n";
    let mut store = MapStore::seeded(&[
        ("/root/adr/0001-doc.md", non_canonical),
        ("/root/adr/index.md", "# Index\n"),
    ]);

    let result = outcome(&mut store, &"/root".to_string(), TargetKind::Directory, true);

    match result {
        Ok(Outcome::Pending(paths)) => assert_eq!(paths, vec!["/root/adr/0001-doc.md".to_string()]),
        other => panic!("unexpected {other:?}"),
    }
    assert_eq!(contents(&store, "/root/adr/0001-doc.md"), non_canonical);
}

#[test]
fn outcome_for_a_single_file_canonicalizes_only_that_file() {
    let non_canonical =
        "---\ntitle: Quokka Caching\ntype: ADR\ndescription: Adopt quokka caching.\n---\n\n# Quokka Caching\n\nBody.\n";
    let other = "---\ntitle: Other\ntype: ADR\ndescription: Other doc.\n---\n\n# Other\n\nBody.\n";
    let mut store = MapStore::seeded(&[("/r/adr/0001-doc.md", non_canonical), ("/r/adr/0002-other.md", other)]);

    let result = outcome(&mut store, &"/r/adr/0001-doc.md".to_string(), TargetKind::File, false);

    assert!(matches!(result, Ok(Outcome::Rewritten(ref p)) if p.len() == 1));
    assert_eq!(
        contents(&store, "/r/adr/0001-doc.md"),
        "---\ntype: ADR\ntitle: Quokka Caching\ndescription: Adopt quokka caching.\n---\n\n# Quokka Caching\n\nBody.\n"
    );
    assert_eq!(contents(&store, "/r/adr/0002-other.md"), other);
}

#[test]
fn outcome_names_a_missing_target() {
    let mut store = MapStore::new();
    let result = outcome(&mut store, &"/nowhere".to_string(), TargetKind::Missing, false);
    assert_eq!(result.err(), Some("bundle root not found: /nowhere".to_string()));
}

#[test]
fn a_stale_callout_followed_by_two_blank_lines_takes_a_second_pass_to_settle() {
    let path = "/bundle/adr/0001-doc.md";
    let mut store = MapStore::seeded(&[(
        path,
        "---\ntype: ADR\nstatus: Accepted\n---\n\n> **SUPERSEDED — stale.\n\n\nBody.\n",
    )]);

    assert!(canonicalize_record(&mut store, &path.to_string()));
    assert_eq!(
        contents(&store, path),
        "---\ntype: ADR\nstatus: Accepted\n---\n\n\nBody.\n"
    );
    assert!(canonicalize_record(&mut store, &path.to_string()));
    assert_eq!(contents(&store, path), "---\ntype: ADR\nstatus: Accepted\n---\n\nBody.\n");
    assert!(!canonicalize_record(&mut store, &path.to_string()));
}

#[test]
fn one_pass_settles_an_active_record_that_opened_with_two_callouts() {
    let deprecated = "> **DEPRECATED — do not act on this record.** It has no successor. \
                      Run `living-docs read` for what is in force.";
    let record = format!(
        "---\ntitle: Active\ntype: ADR\nstatus: Accepted\n---\n\n{deprecated}\n\n{deprecated}\n\n# Active\n"
    );
    let mut store = MapStore::seeded(&[("/bundle/adr/0003-active.md", record.as_str())]);
    let path = "/bundle/adr/0003-active.md".to_string();
    assert!(canonicalize_record(&mut store, &path));
    assert!(!contents(&store, &path).contains("DEPRECATED"));
    assert!(!canonicalize_record(&mut store, &path));
}
