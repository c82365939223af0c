use living_docs_core::commands::index::{
    all_type_tokens, compute, fallback_preamble, find_boundary_offset, is_boundary_line, numbered_prefix,
};
use living_docs_core::store::MapStore;

/// ADR 0026 fitness function B (index half), extended by ADR 0036: the
/// token set `index` regenerates with no explicit type equals the
/// registry's Identity::Numbered plus Identity::Named token set, in the
/// registry's own order.
#[test]
fn all_type_tokens_matches_every_numbered_and_named_registry_token_in_order() {
    assert_eq!(
        all_type_tokens(),
        vec!["adr", "prd", "issue", "research", "view"]
    );
}

/// The `constitution` row is a deliberate exclusion, not an oversight:
/// a singleton has no directory index for the bare sweep to regenerate.
#[test]
fn all_type_tokens_excludes_the_constitution_singleton() {
    assert!(!all_type_tokens().contains(&"constitution".to_string()));
}

#[test]
fn numbered_prefix_accepts_four_digit_dash_form() {
    assert_eq!(numbered_prefix("0007-old.md"), Some(7));
}

#[test]
fn numbered_prefix_rejects_index_and_malformed_names() {
    assert_eq!(numbered_prefix("index.md"), None);
    assert_eq!(numbered_prefix("12-old.md"), None);
    assert_eq!(numbered_prefix("abcd-old.md"), None);
}

#[test]
fn fallback_preamble_is_minimal_for_a_fresh_file() {
    assert_eq!(fallback_preamble("", "adr"), "# ADRs\n\n");
}

#[test]
fn fallback_preamble_wraps_unmarked_existing_content() {
    assert_eq!(
        fallback_preamble("Custom intro.\n", "prd"),
        "Custom intro.\n\n"
    );
}

#[test]
fn find_boundary_offset_locates_the_adr_active_heading() {
    let existing = "# ADRs\n\nIntro.\n\n## Active\n\n* [0001 — X](0001-x.md) - Proposed\n";
    let offset = find_boundary_offset(existing).unwrap();
    assert_eq!(
        &existing[offset..],
        "## Active\n\n* [0001 — X](0001-x.md) - Proposed\n"
    );
}

#[test]
fn find_boundary_offset_locates_the_first_row_for_non_adr_types() {
    let existing = "# PRDs\n\nIntro.\n\n* [0001 — X](0001-x.md) - Draft\n";
    let offset = find_boundary_offset(existing).unwrap();
    assert_eq!(&existing[offset..], "* [0001 — X](0001-x.md) - Draft\n");
}

#[test]
fn find_boundary_offset_locates_a_legacy_heading_regardless_of_its_text() {
    let existing = "# Issues\n\nIntro.\n\n## Done\n\n* [0001 — X](0001-x.md) - closed\n";
    let offset = find_boundary_offset(existing).unwrap();
    assert_eq!(
        &existing[offset..],
        "## Done\n\n* [0001 — X](0001-x.md) - closed\n"
    );
}

#[test]
fn find_boundary_offset_locates_a_hand_maintained_table_header_row() {
    let existing = "# ADRs\n\nIntro.\n\n| # | Decision | Status |\n|---|---|---|\n| [0001](0001-x.md) | X | Accepted |\n";
    let offset = find_boundary_offset(existing).unwrap();
    assert_eq!(
        &existing[offset..],
        "| # | Decision | Status |\n|---|---|---|\n| [0001](0001-x.md) | X | Accepted |\n"
    );
}

#[test]
fn is_boundary_line_detects_a_numbered_listing_table_header() {
    assert!(is_boundary_line("| # | Decision | Status |"));
}

#[test]
fn is_boundary_line_detects_a_table_row_whose_first_cell_is_a_record_link() {
    assert!(is_boundary_line("| [0001](0001-x.md) | X | Accepted |"));
    assert!(is_boundary_line("| [0007-legacy-row | X | Accepted |"));
}

#[test]
fn is_boundary_line_ignores_an_unrelated_table_row() {
    assert!(!is_boundary_line("| Some | Other | Row |"));
    assert!(!is_boundary_line("Just prose, not a table at all."));
}

#[test]
fn compute_keeps_the_preamble_and_partitions_the_adr_listing() {
    let store = MapStore::seeded(&[
        ("docs/adr/index.md", "# ADRs\n\nIntro.\n\n## Active\n\nstale rows\n"),
        ("docs/adr/0002-new.md", "---\ntype: ADR\ntitle: New\nstatus: Accepted\n---\n"),
        (
            "docs/adr/0001-old.md",
            "---\ntype: ADR\ntitle: Old\nstatus: Superseded\nsuperseded_by: 0002\n---\n",
        ),
    ]);

    let (path, content) = compute(&store, &"docs".to_string(), "adr").unwrap();

    assert_eq!(path, "docs/adr/index.md");
    assert_eq!(
        content,
        "# ADRs\n\nIntro.\n\n## Active\n\n* [0002 — New](0002-new.md) - Accepted\n\n## Superseded\n\n_History only. Do not act on these records — run `living-docs effective` for what is in force._\n\n* [0001 — Old](0001-old.md) - Superseded by [0002](0002-new.md)\n"
    );
}

#[test]
fn compute_refuses_a_singleton_and_an_unknown_token() {
    let store = MapStore::new();
    assert_eq!(
        compute(&store, &"docs".to_string(), "constitution").unwrap_err(),
        "'constitution' has no directory index — it writes a single constitution.md at the bundle root, not a numbered series"
    );
    assert!(compute(&store, &"docs".to_string(), "nope").is_err());
}

#[test]
fn write_skips_a_type_with_no_directory_and_writes_one_that_has_records() {
    let mut store = MapStore::seeded(&[(
        "docs/issues/0001-a.md",
        "---\ntype: Issue\ntitle: A\nstatus: open\n---\n",
    )]);

    let written = living_docs_core::commands::index::write(&mut store, &"docs".to_string(), None).unwrap();

    assert_eq!(written, vec!["docs/issues/index.md".to_string()]);
    assert_eq!(
        store.read_str("docs/issues/index.md").unwrap(),
        "# Issues\n\n## Open\n\n* [0001 — A](0001-a.md) - open\n"
    );
}

#[test]
fn regenerating_an_index_a_second_time_rewrites_nothing() {
    let mut store = MapStore::seeded(&[
        (
            "docs/adr/index.md",
            "# ADRs\n\nHand-written intro.\n\n## Done\n\n* stale row\n",
        ),
        (
            "docs/adr/0001-first.md",
            "---\ntype: ADR\ntitle: First\nstatus: Accepted\n---\n",
        ),
        (
            "docs/adr/0002-second.md",
            "---\ntype: ADR\ntitle: Second\nstatus: Superseded\nsuperseded_by: 3\n---\n",
        ),
    ]);
    let docs = "docs".to_string();

    living_docs_core::commands::index::write(&mut store, &docs, Some("adr".to_string())).unwrap();
    let first = store.read_str("docs/adr/index.md").unwrap();
    assert!(first.starts_with("# ADRs\n\nHand-written intro.\n\n## Active\n"));

    living_docs_core::commands::index::write(&mut store, &docs, Some("adr".to_string())).unwrap();
    assert_eq!(store.read_str("docs/adr/index.md").unwrap(), first);
}
