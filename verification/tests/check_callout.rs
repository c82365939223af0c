use living_docs_core::callout::{expected, successor_filename};
use living_docs_core::check::callout::check_callouts;
use living_docs_core::check::reporter::Reporter;
use living_docs_core::store::MapStore;

fn seeded(seed: &[(&str, &str)]) -> (MapStore, Vec<String>) {
    let store = MapStore::seeded(seed);
    let all_md = store.all_paths();
    (store, all_md)
}

#[test]
fn check_callouts_reports_a_retired_record_without_its_callout() {
    let (store, all_md) = seeded(&[
        (
            "/bundle/adr/0001-old.md",
            "---\ntype: ADR\nstatus: Superseded\nsuperseded_by: 0002\n---\n# Old\n",
        ),
        ("/bundle/adr/0002-new.md", "---\ntype: ADR\nstatus: Accepted\n---\n# New\n"),
    ]);
    let mut reporter = Reporter::new();

    check_callouts(&store, &all_md, &mut reporter);

    assert!(!reporter.is_ok());
}

#[test]
fn check_callouts_passes_a_retired_record_whose_callout_matches_expected() {
    let old_path = "/bundle/adr/0001-old.md";
    let new_path = "/bundle/adr/0002-new.md";
    let probe = MapStore::seeded(&[(old_path, ""), (new_path, "---\ntype: ADR\n---\n# New\n")]);
    let successor = successor_filename(&probe, old_path, "0002");
    let line = expected(Some("Superseded"), Some(successor.as_str())).unwrap();

    let old = format!(
        "---\ntype: ADR\nstatus: Superseded\nsuperseded_by: 0002\n---\n\n{line}\n\n# Old\n"
    );
    let (store, all_md) = seeded(&[(old_path, &old), (new_path, "---\ntype: ADR\n---\n# New\n")]);
    let mut reporter = Reporter::new();

    check_callouts(&store, &all_md, &mut reporter);

    assert!(reporter.is_ok());
}

#[test]
fn check_callouts_reports_an_active_record_opening_with_a_retired_callout() {
    let line = expected(Some("Deprecated"), None).unwrap();
    let (store, all_md) = seeded(&[(
        "/bundle/adr/0003-active.md",
        &format!("---\ntype: ADR\nstatus: Accepted\n---\n\n{line}\n\n# Active\n"),
    )]);
    let mut reporter = Reporter::new();

    check_callouts(&store, &all_md, &mut reporter);

    assert!(!reporter.is_ok());
}

#[test]
fn check_callouts_passes_an_active_record_without_a_callout() {
    let (store, all_md) = seeded(&[(
        "/bundle/adr/0004-active.md",
        "---\ntype: ADR\nstatus: Accepted\n---\n# Active\n",
    )]);
    let mut reporter = Reporter::new();

    check_callouts(&store, &all_md, &mut reporter);

    assert!(reporter.is_ok());
}
