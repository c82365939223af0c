use living_docs_core::check::reporter::Reporter;
use living_docs_core::check::semantic::{diagram, duplicate};
use living_docs_core::store::MapStore;

fn diagram_advisories(files: &[(&str, &str)]) -> Vec<String> {
    let store = MapStore::seeded(files);
    let all = store.all_paths();
    let mut reporter = Reporter::new();
    diagram::check(&store, &"docs".to_string(), &all, &mut reporter);
    reporter.into_findings().1.into_iter().map(|(_, m)| m).collect()
}

fn duplicate_advisories(files: &[(&str, &str)]) -> Vec<String> {
    let store = MapStore::seeded(files);
    let all = store.all_paths();
    let mut reporter = Reporter::new();
    duplicate::check(&store, &all, &mut reporter);
    reporter.into_findings().1.into_iter().map(|(_, m)| m).collect()
}

fn view(nodes: &str) -> (String, String) {
    (
        "docs/architecture/context.md".to_string(),
        format!("---\ntype: Architecture View\ntitle: t\n---\n\n```mermaid\nflowchart LR\n{nodes}\n```\n"),
    )
}

const SCOPE: (&str, &str) = ("docs/architecture/diagram-scope.txt", "core\ncli\nweb\n");

#[test]
fn a_node_with_no_module_is_flagged() {
    let v = view("  A[core] --> B[ghost]\n");
    let out = diagram_advisories(&[SCOPE, (&v.0, &v.1)]);
    assert!(out.iter().any(|m| m.contains("node 'ghost'")), "got: {out:?}");
}

#[test]
fn a_module_with_no_node_is_flagged() {
    let v = view("  A[core] --> B[cli]\n");
    let out = diagram_advisories(&[SCOPE, (&v.0, &v.1)]);
    assert!(out.iter().any(|m| m.contains("module 'web'")), "got: {out:?}");
    assert!(!out.iter().any(|m| m.contains("module 'core'")));
}

#[test]
fn every_module_present_and_every_node_mapped_is_clean() {
    let v = view("  A[core] --> B[cli]\n  A --> C[web]\n");
    assert!(diagram_advisories(&[SCOPE, (&v.0, &v.1)]).is_empty());
}

#[test]
fn no_scope_file_is_a_no_op() {
    let v = view("  A[core] --> B[ghost]\n");
    assert!(
        diagram_advisories(&[(&v.0, &v.1)]).is_empty(),
        "without a scope file there is nothing to compare"
    );
}

#[test]
fn a_participant_declaration_is_a_node() {
    let seq = (
        "docs/architecture/flow.md".to_string(),
        "---\ntype: Architecture View\ntitle: t\n---\n\n```mermaid\nsequenceDiagram\nparticipant core\nparticipant ghost\n```\n".to_string(),
    );
    let out = diagram_advisories(&[SCOPE, (&seq.0, &seq.1)]);
    assert!(out.iter().any(|m| m.contains("node 'ghost'")), "got: {out:?}");
}

#[test]
fn missing_modules_are_named_in_sorted_order_with_the_exact_message() {
    let scope = ("docs/architecture/diagram-scope.txt", "# modules\nweb\n  cli  \n\ncore\ncli\n");
    let v = view("  A[nothing]\n");
    let out = diagram_advisories(&[scope, (&v.0, &v.1)]);
    assert_eq!(
        out,
        vec![
            "DIAGRAM node 'nothing' has no module in diagram-scope.txt — the diagram may be stale".to_string(),
            "DIAGRAM module 'cli' has no node in any architecture diagram — the diagram may be stale".to_string(),
            "DIAGRAM module 'core' has no node in any architecture diagram — the diagram may be stale".to_string(),
            "DIAGRAM module 'web' has no node in any architecture diagram — the diagram may be stale".to_string(),
        ]
    );
}

#[test]
fn a_participant_alias_and_a_containing_label_resolve_to_their_module() {
    let seq = (
        "docs/architecture/flow.md".to_string(),
        "---\ntype: Architecture View\ntitle: t\n---\n\n```mermaid\nsequenceDiagram\nparticipant X as Core\nactor Web (public)\n```\n```mermaid\nflowchart\n  C(\"cli\")\n```\n".to_string(),
    );
    assert!(diagram_advisories(&[SCOPE, (&seq.0, &seq.1)]).is_empty());
}

fn adr(number: &str, prose: &str) -> (String, String) {
    (
        format!("docs/adr/{number}-x.md"),
        format!("---\ntype: ADR\ntitle: t\nstatus: Accepted\n---\n\n## Decision\n\n{prose}\n"),
    )
}

#[test]
fn two_near_identical_records_of_the_same_type_are_flagged() {
    let prose = "the store port stays stable across every backend so callers never depend on a concrete adapter implementation detail";
    let a = adr("0001", prose);
    let b = adr("0002", prose);
    let out = duplicate_advisories(&[(&a.0, &a.1), (&b.0, &b.1)]);
    assert!(out.iter().any(|m| m.contains("DUPLICATE")), "got: {out:?}");
    assert_eq!(
        out,
        vec!["DUPLICATE near-duplicate of 0001-x.md (similarity 1.00) — one home per fact; cross-reference instead".to_string()]
    );
}

#[test]
fn two_distinct_records_are_not_flagged() {
    let a = adr("0001", "the storage backend is config-selected and mutually exclusive between file and database");
    let b = adr("0002", "mermaid validation runs in process via a pure rust parser rather than a docker shell out");
    assert!(duplicate_advisories(&[(&a.0, &a.1), (&b.0, &b.1)]).is_empty());
}

#[test]
fn records_of_different_types_are_never_compared() {
    let prose = "identical prose repeated across two records of different declared types entirely";
    let a = adr("0001", prose);
    let bdr = (
        "docs/bdr/0001-x.md".to_string(),
        format!("---\ntype: BDR\ntitle: t\nstatus: Accepted\n---\n\n## Scenarios\n\n{prose}\n"),
    );
    assert!(duplicate_advisories(&[(&a.0, &a.1), (&bdr.0, &bdr.1)]).is_empty());
}

#[test]
fn shared_madr_headings_alone_do_not_make_records_duplicates() {
    let a = adr("0001", "we chose sqlite for the local embedded read model because it needs no server");
    let b = adr("0002", "we chose axum for the web front because it reuses the one rust domain crate");
    assert!(duplicate_advisories(&[(&a.0, &a.1), (&b.0, &b.1)]).is_empty(), "boilerplate must be stripped");
}

#[test]
fn similarity_rounds_as_the_two_decimal_display_does() {
    assert_eq!(String::from_iter(duplicate::similarity(4, 5)), "0.80");
    assert_eq!(String::from_iter(duplicate::similarity(33, 40)), format!("{:.2}", 33.0f64 / 40.0));
    assert_eq!(String::from_iter(duplicate::similarity(163, 200)), format!("{:.2}", 163.0f64 / 200.0));
    assert_eq!(String::from_iter(duplicate::similarity(7, 8)), format!("{:.2}", 7.0f64 / 8.0));
    assert_eq!(String::from_iter(duplicate::similarity(161, 200)), format!("{:.2}", 161.0f64 / 200.0));
    for u in 1u128..60 {
        for s in 0..=u {
            if 5 * s >= 4 * u {
                assert_eq!(
                    String::from_iter(duplicate::similarity(s, u)),
                    format!("{:.2}", s as f64 / u as f64),
                    "{s}/{u}"
                );
            }
        }
    }
}

#[test]
fn a_short_record_is_never_compared() {
    let a = adr("0001", "too short to matter");
    let b = adr("0002", "too short to matter");
    assert!(duplicate_advisories(&[(&a.0, &a.1), (&b.0, &b.1)]).is_empty());
}
