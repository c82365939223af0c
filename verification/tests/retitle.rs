use living_docs_core::commands::set::retitle::{apply, replace_heading};
use living_docs_core::store::MapStore;

fn adr(status: &str) -> String {
    format!("---\ntype: ADR\ntitle: A Decision\ndescription: A decision.\nstatus: {status}\n---\n\n# 0001. A Decision\n\nBody.\n")
}

const ADR_PATH: &str = "/bundle/adr/0001-a-decision.md";

fn bundle() -> String {
    "/bundle".to_string()
}

fn store(status: &str) -> MapStore {
    let contents = adr(status);
    MapStore::seeded(&[(ADR_PATH, contents.as_str())])
}

fn path(p: &str) -> String {
    p.to_string()
}

#[test]
fn retitle_rewrites_frontmatter_heading_and_filename() {
    let mut store = store("Proposed");
    let retitled = apply(&mut store, &bundle(), &path(ADR_PATH), "Cache is write-through")
        .expect("proposed");

    let contents = store
        .read_str("/bundle/adr/0001-cache-is-write-through.md")
        .expect("renamed file");
    assert_eq!(retitled.path, "/bundle/adr/0001-cache-is-write-through.md".to_string());
    assert!(contents.contains("title: Cache is write-through\n"), "{contents}");
    assert!(contents.contains("# 0001. Cache is write-through\n"), "{contents}");
    assert!(store.read_str(ADR_PATH).is_none(), "old file still present");
}

#[test]
fn retitle_is_allowed_on_an_accepted_record() {
    let mut store = store("Accepted");
    apply(&mut store, &bundle(), &path(ADR_PATH), "Still revisable").expect("accepted is not closed");
    assert!(store.read_str("/bundle/adr/0001-still-revisable.md").is_some());
}

#[test]
fn retitle_is_refused_on_a_terminal_record_and_writes_nothing() {
    let mut store = store("Deprecated");
    let err = apply(&mut store, &bundle(), &path(ADR_PATH), "Too late").expect_err("terminal status");

    assert!(err.contains("living-docs supersede"), "got: {err}");
    assert_eq!(store.read_str(ADR_PATH), Some(adr("Deprecated")));
}

#[test]
fn retitle_is_refused_on_a_superseded_record() {
    let mut store = store("Superseded");
    let err = apply(&mut store, &bundle(), &path(ADR_PATH), "Too late").expect_err("superseded");
    assert!(err.contains("living-docs supersede"), "got: {err}");
}

#[test]
fn retitle_is_refused_when_the_new_slug_is_taken_and_writes_nothing() {
    let taken = "---\ntype: Architecture View\ntitle: System Context\nkind: context\n---\n\n# System Context\n";
    let moving = "---\ntype: Architecture View\ntitle: Container View\nkind: container\n---\n\n# Container View\n";
    let mut store = MapStore::seeded(&[
        ("/bundle/architecture/system-context.md", taken),
        ("/bundle/architecture/container-view.md", moving),
    ]);

    let err = apply(
        &mut store,
        &bundle(),
        &path("/bundle/architecture/container-view.md"),
        "System Context",
    )
    .expect_err("a named record's slug is its whole filename");

    assert!(err.contains("already holds that slug"), "got: {err}");
    assert_eq!(
        store.read_str("/bundle/architecture/container-view.md"),
        Some(moving.to_string())
    );
}

#[test]
fn retitle_refuses_a_title_with_no_slug() {
    let mut store = store("Proposed");
    let err = apply(&mut store, &bundle(), &path(ADR_PATH), "!!!").expect_err("empty slug");
    assert!(err.contains("has no slug"), "got: {err}");
    assert_eq!(store.read_str(ADR_PATH), Some(adr("Proposed")));
}

#[test]
fn retitle_repoints_every_in_bundle_reference_to_the_old_filename() {
    let citing = "---\ntype: Issue\ntitle: Cites\nstatus: open\n---\n\n# 0009. Cites\n\nSee [ADR 0001](/adr/0001-a-decision.md) and `0001-a-decision.md`.\n";
    let accepted = adr("Accepted");
    let mut store = MapStore::seeded(&[
        (ADR_PATH, accepted.as_str()),
        ("/bundle/issues/0009-cites.md", citing),
    ]);

    let retitled = apply(&mut store, &bundle(), &path(ADR_PATH), "Write-through cache").expect("live");

    let cites = store.read_str("/bundle/issues/0009-cites.md").expect("citing record");
    assert!(cites.contains("/adr/0001-write-through-cache.md"), "{cites}");
    assert!(!cites.contains("0001-a-decision.md"), "{cites}");
    assert_eq!(retitled.rewritten, vec!["/bundle/issues/0009-cites.md".to_string()]);
}

#[test]
fn retitle_of_a_named_record_renames_it_to_the_bare_slug() {
    let view = "---\ntype: Architecture View\ntitle: Context View\nkind: context\n---\n\n# Context View\n\nBody.\n";
    let mut store = MapStore::seeded(&[("/bundle/architecture/context-view.md", view)]);

    apply(
        &mut store,
        &bundle(),
        &path("/bundle/architecture/context-view.md"),
        "System Context",
    )
    .expect("a view has no status vocabulary");

    let contents = store
        .read_str("/bundle/architecture/system-context.md")
        .expect("renamed view");
    assert!(contents.contains("# System Context\n"), "{contents}");
}

#[test]
fn retitle_of_a_singleton_rewrites_the_record_without_renaming_it() {
    let constitution = "---\ntype: Constitution\ntitle: Old Name\n---\n\n# Old Name\n\nBody.\n";
    let mut store = MapStore::seeded(&[("/bundle/constitution.md", constitution)]);

    let retitled = apply(
        &mut store,
        &bundle(),
        &path("/bundle/constitution.md"),
        "Product Constitution",
    )
    .expect("a singleton keeps its filename");

    let contents = store.read_str("/bundle/constitution.md").expect("same path");
    assert_eq!(retitled.path, "/bundle/constitution.md".to_string());
    assert!(contents.contains("title: Product Constitution\n"), "{contents}");
    assert!(contents.contains("# Product Constitution\n"), "{contents}");
}

#[test]
fn replace_heading_keeps_the_level_and_the_number() {
    assert_eq!(
        replace_heading("---\ntitle: X\n---\n\n## 0061. Old\n\nBody\n", "New"),
        Some("---\ntitle: X\n---\n\n## 0061. New\n\nBody\n".to_string())
    );
    assert_eq!(replace_heading("no heading here\n", "New"), None);
    assert_eq!(replace_heading("---\ntitle: X\n", "New"), None);
}

#[test]
fn retitle_leaves_a_record_that_does_not_name_the_old_file_alone() {
    let other = "---\ntype: Issue\ntitle: Other\nstatus: open\n---\n\n# 0002. Other\n";
    let proposed = adr("Proposed");
    let mut store = MapStore::seeded(&[(ADR_PATH, proposed.as_str()), ("/bundle/issues/0002-other.md", other)]);
    let retitled = apply(&mut store, &bundle(), &path(ADR_PATH), "New").expect("live");
    assert!(retitled.rewritten.is_empty());
    assert_eq!(store.read_str("/bundle/issues/0002-other.md"), Some(other.to_string()));
}
