use living_docs_core::check::impact::{annotated_removed, impact_paths, impact_segment, is_path_shaped};

#[test]
fn impact_paths_takes_only_path_shaped_tokens_and_skips_descriptive_ones() {
    let segment = "**Implementation impact:** `living-docs-core/src/a.rs`, the `check` pass, `living-docs-core` crate, `.github/workflows/x.yml`.";
    assert_eq!(
        impact_paths(segment),
        vec!["living-docs-core/src/a.rs".to_string(), ".github/workflows/x.yml".to_string()]
    );
}

#[test]
fn impact_paths_skips_a_path_annotated_as_removed() {
    let segment = "**Implementation impact:** `src/old.rs` (removed), `src/new.rs`.";
    assert_eq!(impact_paths(segment), vec!["src/new.rs".to_string()]);
}

#[test]
fn impact_segment_stops_at_the_next_bold_label() {
    let contents = "## Verification\n\n**Implementation impact:** `src/a.rs`.\n\n**Verification criteria:**\n- `src/should-not-appear.rs`\n";
    let segment = impact_segment(contents);
    assert!(segment.contains("src/a.rs"));
    assert!(!segment.contains("should-not-appear"));
}

#[test]
fn impact_segment_ignores_the_template_guidance_comment_example() {
    let contents = "<!-- Implementation impact: files, e.g. `src/store.py`. -->\n\n**Implementation impact:** `src/real.rs`.";
    assert_eq!(impact_paths(&impact_segment(contents)), vec!["src/real.rs".to_string()]);
}

#[test]
fn path_shape_and_removal_notes_are_read_exactly() {
    assert!(is_path_shaped("src/a.rs"));
    assert!(!is_path_shaped("src/Makefile"));
    assert!(!is_path_shaped("a.rs"));
    let seg: Vec<char> = "`x/y.rs` (Deleted in 0003)".chars().collect();
    assert!(annotated_removed(&seg, 8));
    assert!(!annotated_removed(&seg, 100));
}
