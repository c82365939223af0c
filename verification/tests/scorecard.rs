use living_docs_core::commands::scorecard::{compute, render_table, Freshness, Grade, Scorecard};
use living_docs_core::record::{extract_record, to_canonical_markdown};
use living_docs_core::store::MapStore;

fn canonical(path: &str, hand_written: &str) -> String {
    to_canonical_markdown(&extract_record(path, hand_written))
}

fn adr_body(title: &str, owner: Option<&str>, superseded_by: Option<&str>) -> String {
    let owner_line = owner.map(|o| format!("owner: {o}\n")).unwrap_or_default();
    let (status, superseded_by_line) = match superseded_by {
        Some(target) => ("Superseded", format!("superseded_by: \"{target}\"\n")),
        None => ("Accepted", String::new()),
    };
    format!(
        "---\ntype: ADR\ntitle: {title}\ndescription: A decision.\n{owner_line}status: {status}\n{superseded_by_line}---\n\n# {title}\n\nBody.\n"
    )
}

const ROOT_INDEX: &str =
    "# Docs Index\n\n- [ADRs](/adr/index.md)\n- [Context](/context/index.md)\n";
const CONTEXT_INDEX: &str = "# Context Index\n\n- [Glossary](/context/glossary.md)\n";
const GLOSSARY: &str =
    "---\ntype: Context\ntitle: Glossary\n---\n\n# Glossary\n\nTerm — definition.\n";

fn build_conformant_bundle() -> MapStore {
    let mut store = MapStore::new();
    store.write_str("docs/index.md", ROOT_INDEX);
    store.write_str(
        "docs/adr/index.md",
        "# ADR Index\n\n- [First Decision](/adr/0001-first-decision.md)\n",
    );
    store.write_str("docs/context/index.md", CONTEXT_INDEX);
    store.write_str("docs/context/glossary.md", GLOSSARY);
    store.write_str(
        "docs/constitution.md",
        &canonical(
            "docs/constitution.md",
            "---\ntype: Constitution\ntitle: Project Constitution\n---\n\n# Project Constitution\n\nBody.\n",
        ),
    );
    store.write_str(
        "docs/adr/0001-first-decision.md",
        &canonical(
            "docs/adr/0001-first-decision.md",
            &adr_body("First Decision", Some("alice"), None),
        ),
    );
    store
}

fn bundle() -> String {
    "docs".to_string()
}

#[test]
fn a_conformant_tree_grades_every_measured_attribute_agent_ready_and_overall_agent_ready() {
    let store = build_conformant_bundle();

    let scorecard = compute(&store, &bundle(), None);

    assert_eq!(scorecard.trusted, Grade::AgentReady);
    assert_eq!(scorecard.contextual, Grade::AgentReady);
    assert_eq!(scorecard.traceable, Grade::AgentReady);
    assert_eq!(scorecard.governed, Grade::AgentReady);
    assert_eq!(scorecard.overall, Grade::AgentReady);
}

#[test]
fn removing_the_owner_from_an_owner_requiring_record_drops_only_governed() {
    let mut store = build_conformant_bundle();
    store.write_str(
        "docs/adr/0001-first-decision.md",
        &canonical(
            "docs/adr/0001-first-decision.md",
            &adr_body("First Decision", None, None),
        ),
    );

    let scorecard = compute(&store, &bundle(), None);

    assert_eq!(scorecard.governed, Grade::HumanEra);
    assert_eq!(scorecard.trusted, Grade::AgentReady);
    assert_eq!(scorecard.contextual, Grade::AgentReady);
    assert_eq!(scorecard.traceable, Grade::AgentReady);
    assert_eq!(scorecard.overall, Grade::HumanEra);
}

#[test]
fn an_open_moved_source_advisory_drops_only_traceable_to_in_transition() {
    let mut store = build_conformant_bundle();
    store.write_str(
        "docs/adr/0002-old-decision.md",
        &canonical(
            "docs/adr/0002-old-decision.md",
            &adr_body("Old Decision", Some("alice"), Some("0003")),
        ),
    );
    store.write_str(
        "docs/adr/0003-new-decision.md",
        &canonical(
            "docs/adr/0003-new-decision.md",
            &adr_body("New Decision", Some("alice"), None),
        ),
    );
    store.write_str(
        "docs/adr/index.md",
        "# ADR Index\n\n- [First Decision](/adr/0001-first-decision.md)\n- [Old Decision](/adr/0002-old-decision.md)\n- [New Decision](/adr/0003-new-decision.md)\n",
    );
    store.write_str(
        "docs/context/glossary.md",
        "---\ntype: Context\ntitle: Glossary\n---\n\n# Glossary\n\nSee the [old decision](/adr/0002-old-decision.md).\n",
    );

    let scorecard = compute(&store, &bundle(), None);

    assert_eq!(scorecard.traceable, Grade::InTransition);
    assert_eq!(scorecard.trusted, Grade::AgentReady);
    assert_eq!(scorecard.contextual, Grade::AgentReady);
    assert_eq!(scorecard.governed, Grade::AgentReady);
    assert_eq!(scorecard.overall, Grade::InTransition);
}

#[test]
fn an_absent_freshness_signal_renders_not_measured_and_never_drags_down_trusted() {
    let store = build_conformant_bundle();

    let scorecard = compute(&store, &bundle(), None);

    assert!(scorecard.freshness.is_none());
    assert_eq!(scorecard.trusted, Grade::AgentReady);
    assert_eq!(scorecard.overall, Grade::AgentReady);
    assert!(render_table(&scorecard).contains("freshness: not measured"));
}

#[test]
fn a_stale_freshness_signal_demotes_trusted_to_in_transition() {
    let store = build_conformant_bundle();

    let scorecard = compute(&store, &bundle(), Some(Freshness::Stale));

    assert_eq!(scorecard.trusted, Grade::InTransition);
    assert_eq!(scorecard.overall, Grade::InTransition);
}

#[test]
fn a_missing_glossary_drops_contextual_to_human_era() {
    let mut store = MapStore::new();
    store.write_str("docs/index.md", ROOT_INDEX);
    store.write_str(
        "docs/constitution.md",
        &canonical(
            "docs/constitution.md",
            "---\ntype: Constitution\ntitle: Project Constitution\n---\n\n# Project Constitution\n\nBody.\n",
        ),
    );

    let scorecard = compute(&store, &bundle(), None);

    assert_eq!(scorecard.contextual, Grade::HumanEra);
    assert_eq!(scorecard.governed, Grade::NotMeasured);
    assert_eq!(scorecard.overall, Grade::HumanEra);
}

#[test]
fn render_table_aligns_five_rows_with_the_freshness_note_on_trusted() {
    let scorecard = Scorecard {
        trusted: Grade::AgentReady,
        contextual: Grade::HumanEra,
        traceable: Grade::InTransition,
        governed: Grade::NotMeasured,
        freshness: Some(Freshness::Fresh),
        overall: Grade::HumanEra,
    };
    assert_eq!(
        render_table(&scorecard),
        "Trusted     agent-ready  (freshness: fresh)\nContextual  human-era\nTraceable   in-transition\nGoverned    not measured\nOverall     human-era"
    );
    assert_eq!(Grade::NotMeasured.as_str(), "not measured");
}
