use living_docs_core::commands::scorecard::consumption::{day_number, render_block, summarize};

fn read_line(ts: &str, tokens: u64, status: &str) -> String {
    format!("{{\"ts\":\"{ts}\",\"path\":\"docs/adr/0001-x.md\",\"tokens\":{tokens},\"status\":\"{status}\"}}")
}

#[test]
fn summarize_computes_token_sum_median_p90_and_stale_reads() {
    let jsonl = [
        read_line("2026-09-01T00:00:00Z", 100, "Accepted"),
        read_line("2026-09-01T00:00:00Z", 200, "Superseded"),
        read_line("2026-09-01T00:00:00Z", 300, "Deprecated"),
        read_line("2026-09-01T00:00:00Z", 400, "Accepted"),
    ]
    .join("\n");
    let c = summarize(&jsonl, None, None);
    assert_eq!(c.reads, 4);
    assert_eq!(c.tokens_sum, 1000);
    assert_eq!(c.stale_reads, 2, "Superseded + Deprecated");
    assert_eq!(c.tokens_median, 300);
    assert_eq!(c.tokens_p90, 400);
}

#[test]
fn since_filters_to_the_window_ending_at_the_newest_read() {
    let jsonl = [
        read_line("2026-01-01T00:00:00Z", 100, "Accepted"),
        read_line("2026-09-20T00:00:00Z", 200, "Accepted"),
        read_line("2026-09-25T00:00:00Z", 300, "Accepted"),
    ]
    .join("\n");
    let c = summarize(&jsonl, None, Some(30));
    assert_eq!(c.reads, 2, "only the two September reads fall within 30 days of the newest");
    assert_eq!(c.tokens_sum, 500);
}

#[test]
fn missing_capture_reads_as_zero_not_an_error() {
    let c = summarize("", None, None);
    assert_eq!(c.reads, 0);
    assert_eq!(c.tokens_median, 0);
    assert!(c.findings.is_none());
}

#[test]
fn a_malformed_line_is_skipped_rather_than_failing() {
    let jsonl = format!("not json\n{}", read_line("2026-09-01T00:00:00Z", 42, "Accepted"));
    let c = summarize(&jsonl, None, None);
    assert_eq!(c.reads, 1);
    assert_eq!(c.tokens_sum, 42);
}

#[test]
fn findings_share_counts_doc_trail_and_unclassified() {
    let findings = [
        "{\"text\":\"this comment cites an ADR\"}",
        "{\"text\":\"non-canonical frontmatter\"}",
        "{\"text\":\"off-by-one in the loop bound\"}",
    ]
    .join("\n");
    let c = summarize("", Some(&findings), None);
    let share = c.findings.expect("findings supplied");
    assert_eq!(share.total, 3);
    assert_eq!(share.doc_trail, 2);
    assert_eq!(share.unclassified, 1);
}

#[test]
fn render_block_names_the_three_metrics() {
    let jsonl = read_line("2026-09-01T00:00:00Z", 100, "Superseded");
    let block = render_block(&summarize(&jsonl, None, None));
    assert!(block.contains("consumption —"));
    assert!(block.contains("1 doc reads"));
    assert!(block.contains("1 stale reads"));
    assert!(block.contains("findings: not measured"));
}

#[test]
fn render_block_lays_out_both_lines_exactly() {
    let jsonl = [
        read_line("2026-09-01T00:00:00Z", 10, "Accepted"),
        read_line("2026-09-01T00:00:00Z", 30, "Accepted"),
        read_line("2026-09-01T00:00:00Z", 20, "Accepted"),
    ]
    .join("\n");
    let findings = "{\"text\":\"frontmatter\"}\n{\"text\":\"nothing\"}";
    let block = render_block(&summarize(&jsonl, Some(findings), None));
    assert_eq!(
        block,
        "consumption — 3 doc reads, tokens sum 60 median 20 p90 30, 0 stale reads\n             findings: 1/2 doc-trail (1 unclassified)"
    );
}

#[test]
fn an_undated_read_stays_inside_any_window() {
    let jsonl = format!(
        "{}\n{{\"tokens\":5}}",
        read_line("2026-09-01T00:00:00Z", 1, "Accepted")
    );
    let c = summarize(&jsonl, None, Some(0));
    assert_eq!(c.reads, 2);
    assert_eq!(c.tokens_sum, 6);
}

#[test]
fn day_number_reads_the_first_ten_bytes_of_the_timestamp() {
    let chars = |s: &str| s.chars().collect::<Vec<char>>();
    assert_eq!(day_number(&chars("2024-01-02T00:00:00Z")), Some(2024 * 372 + 31 + 2));
    assert_eq!(day_number(&chars("2024-1-1-é")), None);
    assert_eq!(day_number(&chars("2024-01-02é")), Some(2024 * 372 + 31 + 2));
    assert_eq!(day_number(&chars("2024-01")), None);
}
