use living_docs_core::check::placeholder::{check_placeholders, strip_inline_code, without_code};
use living_docs_core::check::reporter::Reporter;
use living_docs_core::store::MapStore;

fn violations(files: &[(&str, &str)]) -> Vec<(String, String)> {
    let store = MapStore::seeded(files);
    let all = store.all_paths();
    let mut reporter = Reporter::new();
    check_placeholders(&store, &all, &mut reporter);
    reporter.into_violations()
}

#[test]
fn an_unfilled_placeholder_in_a_record_body_is_a_violation() {
    let v = violations(&[(
        "docs/adr/0001-x.md",
        "---\ntype: ADR\n---\n\n## Decision\n\nWe will {{DECISION}}.\n",
    )]);
    assert_eq!(v.len(), 1);
    assert_eq!(v[0].1, "unfilled {{PLACEHOLDER}} — fill the slot or remove it");
}

#[test]
fn a_placeholder_shown_inside_code_formatting_is_not_flagged() {
    assert!(violations(&[(
        "docs/adr/0001-x.md",
        "---\ntype: ADR\n---\n\nThe template ships `{{DECISION}}` as a slot.\n",
    )])
    .is_empty());
}

#[test]
fn a_fully_filled_record_is_clean() {
    assert!(violations(&[(
        "docs/adr/0001-x.md",
        "---\ntype: ADR\n---\n\n## Decision\n\nWe will ship it.\n",
    )])
    .is_empty());
}

#[test]
fn a_placeholder_carrying_its_hint_is_still_a_violation() {
    let v = violations(&[(
        "docs/adr/0001-x.md",
        "---\ntype: ADR\n---\n\n## Context\n\n{{CONTEXT: the forces at play; no solution here, <= 80 words}}\n",
    )]);
    assert_eq!(v.len(), 1);
}

#[test]
fn without_code_drops_fences_and_inline_spans() {
    let text: Vec<char> = "a `b` c\n```\nhidden\n```\nd\n".chars().collect();
    let out: String = without_code(&text).into_iter().collect();
    assert_eq!(out, "a  c\nd\n");
    let line: Vec<char> = "x`y`z".chars().collect();
    let stripped: String = strip_inline_code(&line).into_iter().collect();
    assert_eq!(stripped, "xz");
}
