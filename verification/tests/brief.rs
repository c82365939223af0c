use living_docs_core::commands::brief::constraints::constraint_for;
use living_docs_core::commands::brief::{brief_content, scaffold_brief, DiffContext};
use living_docs_core::doc_type::spec_for;
use living_docs_core::frontmatter::format_scalar;
use living_docs_core::store::MapStore;

const TEMPLATE: &str = "---\ntype: ADR\ntitle: <Short decision title>\nstatus: Proposed\ntimestamp: <ISO 8601 datetime>\n---\n\n# NNNN. <Short decision title>\n\n## Context\n\n<guidance with a [link](/research/NNNN-<slug>.md)>\n\n## Decision\n\nWe will <the choice>.\n\n## Consequences\n\n- <what this unlocks>\n\n# References\n\n[1] [<source>](<url>)\n";

fn briefed(diff: Option<&DiffContext>) -> String {
    brief_content(TEMPLATE, "adr", "ADR", "2026-07-19T00:00:00Z", 7, "Choose X", diff)
}

fn briefed_with_title(title: &str) -> String {
    brief_content(TEMPLATE, "adr", "ADR", "2026-07-19T00:00:00Z", 7, title, None)
}

#[test]
fn every_judgment_section_collapses_to_exactly_its_marker() {
    let content = briefed(None);
    assert!(content.contains("## Context\n\n<!-- judgment: context -->\n"));
    assert!(content.contains("## Decision\n\n<!-- judgment: decision -->\n"));
    assert!(content.contains("## Consequences\n\n<!-- judgment: consequences -->\n"));
    assert!(content.contains("# References\n\n<!-- judgment: references -->\n"));
    assert!(!content.contains("We will"));
    assert!(!content.contains("guidance with"));
}

#[test]
fn the_frontmatter_title_and_the_numbered_heading_are_filled() {
    let content = briefed(None);
    assert!(content.contains("title: Choose X\n"));
    assert!(content.contains("# 0007. Choose X\n"));
    assert!(!content.contains("<Short decision title>"));
}

#[test]
fn the_frontmatter_title_is_quoted_exactly_when_the_canonical_serializer_would_quote_it() {
    let content = briefed_with_title("Caching: A Deep Dive");
    assert!(content.contains(&format!(
        "title: {}\n",
        format_scalar("Caching: A Deep Dive")
    )));
}

#[test]
fn the_trail_comment_sits_under_the_title_heading() {
    let content = briefed(None);
    assert!(content.contains("# 0007. Choose X\n\n<!-- trail: motivated-by /research/NNNN-<slug>.md"));
}

#[test]
fn touched_files_land_verbatim_under_the_context_marker() {
    let diff = DiffContext {
        range: "HEAD~1..HEAD".to_string(),
        files: vec!["src/a.rs".to_string(), "docs/b.md".to_string()],
    };
    let content = briefed(Some(&diff));
    assert!(content.contains(
        "<!-- judgment: context -->\n\nTouched files (`git diff --name-only HEAD~1..HEAD`):\n\n- `src/a.rs`\n- `docs/b.md`"
    ));
}

#[test]
fn an_empty_diff_inserts_nothing() {
    let diff = DiffContext {
        range: "HEAD~1..HEAD".to_string(),
        files: Vec::new(),
    };
    assert_eq!(briefed(Some(&diff)), briefed(None));
}

#[test]
fn the_issue_intro_heading_is_both_a_slot_and_the_filled_title() {
    let template = "---\ntype: Issue\ntitle: <Issue title>\nstatus: open\ntimestamp: <ISO 8601 datetime>\n---\n\n## <Issue title>\n\n<intro guidance>\n\n### Scope\n\n<scope guidance>\n";
    let content = brief_content(template, "issue", "Issue", "2026-07-19T00:00:00Z", 3, "Fix It", None);
    assert!(content.contains("## Fix It\n\n<!-- trail: implements"));
    assert!(content.contains("<!-- judgment: context -->"));
    assert!(content.contains("### Scope\n\n<!-- judgment: scope -->"));
    assert!(!content.contains("intro guidance"));
}

#[test]
fn constitution_judgment_sections_collapse_while_structural_sections_stay_intact() {
    let template = spec_for("constitution")
        .expect("constitution must be registered")
        .template;
    let content = brief_content(
        template,
        "constitution",
        "Constitution",
        "2026-07-19T00:00:00Z",
        0,
        "Acme Constitution",
        None,
    );

    assert!(content.contains("## Product\n\n<!-- judgment: product -->\n"));
    assert!(content.contains("## Scope Boundaries\n\n<!-- judgment: scope-boundaries -->\n"));
    assert!(content.contains("## Non-negotiables\n\n<!-- judgment: non-negotiables -->\n"));
    assert!(content.contains("erDiagram"));
    assert!(content.contains("ENTITY_A ||--o{ ENTITY_B"));
    assert!(content.contains("<!-- Append amendments here"));
    assert!(!content.contains("<What the product is"));
    assert!(!content.contains("<Capability or domain"));
    assert!(!content.contains("<Non-negotiable 1>"));
}

#[test]
fn constitution_has_no_trail_comment_and_the_empty_trail_does_not_break_the_output() {
    let template = spec_for("constitution")
        .expect("constitution must be registered")
        .template;
    let content = brief_content(
        template,
        "constitution",
        "Constitution",
        "2026-07-19T00:00:00Z",
        0,
        "Acme Constitution",
        None,
    );

    assert!(!content.contains("<!-- trail:"));
    assert!(content.contains("# Product Constitution\n"));
}

#[test]
fn scaffold_brief_writes_a_singleton_constitution_with_no_number_or_slug() {
    let mut store = MapStore::new();

    let target = scaffold_brief(
        &mut store,
        &"/bundle".to_string(),
        "constitution",
        "Acme Constitution",
        "2026-07-19T00:00:00Z",
        None,
    )
    .expect("scaffold_brief should succeed");

    assert_eq!(target, "/bundle/constitution.md".to_string());
    let persisted = store
        .read(&target)
        .expect("scaffold_brief must persist through the store");
    assert!(persisted.contains("type: Constitution"));
    assert!(persisted.contains("<!-- judgment: product -->"));
}

#[test]
fn scaffold_brief_refuses_a_second_constitution() {
    let mut store = MapStore::seeded(&[("/bundle/constitution.md", "existing content")]);

    let err = scaffold_brief(
        &mut store,
        &"/bundle".to_string(),
        "constitution",
        "Acme Constitution",
        "2026-07-19T00:00:00Z",
        None,
    )
    .expect_err("a second constitution must be refused");

    assert!(err.contains("already exists"), "got: {err}");
    assert_eq!(store.read_str("/bundle/constitution.md").unwrap(), "existing content");
}

#[test]
fn scaffold_brief_numbers_past_the_largest_record_and_slugs_the_title() {
    let mut store = MapStore::seeded(&[
        ("/bundle/adr/0003-three.md", "x"),
        ("/bundle/adr/0011-eleven.md", "y"),
        ("/bundle/issues/0042-other.md", "z"),
    ]);
    let target = scaffold_brief(
        &mut store,
        &"/bundle".to_string(),
        "adr",
        "Choose X",
        "2026-07-19T00:00:00Z",
        None,
    )
    .expect("a fresh ADR");
    assert_eq!(target, "/bundle/adr/0012-choose-x.md");
    let written = store.read(&target).unwrap();
    assert!(written.contains("# 0012. Choose X\n"), "got: {written}");
    assert!(written.contains("timestamp: 2026-07-19T00:00:00Z\n"), "got: {written}");
}

#[test]
fn scaffold_brief_refuses_an_unknown_type() {
    let mut store = MapStore::new();
    let err = scaffold_brief(&mut store, &"/bundle".to_string(), "glossary", "X", "t", None)
        .expect_err("unknown type");
    assert!(err.contains("glossary"), "got: {err}");
}

#[test]
fn key_adr_slots_carry_a_constraint() {
    assert!(constraint_for("adr", "context").is_some());
    assert!(constraint_for("adr", "decision").is_some());
    assert!(constraint_for("adr", "consequences").is_some());
}

#[test]
fn an_unmapped_slot_carries_no_hint() {
    assert_eq!(constraint_for("adr", "references"), None);
    assert_eq!(constraint_for("view", "anything"), None);
}

#[test]
fn the_bdr_scenarios_hint_names_the_proves_line() {
    assert!(constraint_for("bdr", "scenarios").unwrap().contains("Proves:"));
}
