use living_docs_core::check::links::{check_links, link_destinations, resolve_destination};
use living_docs_core::check::reporter::Reporter;
use living_docs_core::store::MapStore;

#[test]
fn link_destinations_skips_fenced_code_and_keeps_order() {
    let contents = "[a](one.md) then ![img](pic.png)\n```\n[no](skip.md)\n```\n[b](two.md#part)\n";
    assert_eq!(
        link_destinations(contents),
        vec!["one.md".to_string(), "pic.png".to_string(), "two.md#part".to_string()]
    );
}

#[test]
fn resolve_destination_folds_dot_segments_and_roots_a_leading_slash() {
    assert_eq!(
        resolve_destination("/b/adr/0001-a.md", "./0002-b.md", "/b"),
        Some("/b/adr/0002-b.md".to_string())
    );
    assert_eq!(
        resolve_destination("/b/adr/0001-a.md", "../issues/0003-c.md#x", "/b"),
        Some("/b/issues/0003-c.md".to_string())
    );
    assert_eq!(
        resolve_destination("docs/adr/0001-a.md", "/issues/0002-y.md", "docs"),
        Some("docs/issues/0002-y.md".to_string())
    );
    assert_eq!(resolve_destination("/b/a.md", "https://example.com/x.md", "/b"), None);
    assert_eq!(resolve_destination("/b/a.md", "mailto:me@example.com", "/b"), None);
    assert_eq!(resolve_destination("/b/a.md", "#section", "/b"), None);
}

#[test]
fn check_links_reports_a_markdown_link_to_a_missing_record() {
    let store = MapStore::seeded(&[
        ("docs/adr/0001-a.md", "---\ntype: ADR\n---\n[gone](./0009-gone.md) [ok](./0002-b.md) [img](x.png)\n"),
        ("docs/adr/0002-b.md", "---\ntype: ADR\n---\n"),
    ]);
    let all_md = store.all_paths();
    let mut reporter = Reporter::new();

    check_links(&store, &"docs".to_string(), &all_md, &mut reporter);

    assert_eq!(reporter.violations.len(), 1);
    assert_eq!(reporter.violations[0].1, "broken link -> docs/adr/0009-gone.md");
}
