//! Consumption metrics: what agents actually read from the docs. Fed by a
//! doc-read capture (one JSON line per read) and an optional review-findings
//! capture. Pure over the captured text — the front reads the files and
//! hands their contents here. A missing capture is "not measured", never an
//! error.

use crate::commands::scorecard::classifier::{
    category_for, classify, rules_from, Category, PHRASINGS,
};
use crate::commands::scorecard::inflation::{byte_prefix, byte_prefix_from, lemma_byte_prefix_short};
use crate::record::opt_view;
use crate::text::{
    all_ascii_digits, chars_of, decimal, decimal_exec, digits_value, eq_ignore_case,
    eq_ignore_case_str, extend, extend_str, lines, lines_exec, parse_digits, slice,
    split_char, split_exec, string_of, trim, trim_exec, all_digits_exec,
};
use vstd::prelude::*;

verus! {

/// The three consumption metrics over a capture window.
#[derive(Debug)]
pub struct Consumption {
    pub reads: usize,
    pub tokens_sum: u64,
    pub tokens_median: u64,
    pub tokens_p90: u64,
    pub stale_reads: usize,
    pub findings: Option<FindingShare>,
}

/// The doc-trail share of review findings.
#[derive(Debug, Clone, Copy, PartialEq, Eq, Structural)]
pub struct FindingShare {
    pub total: usize,
    pub doc_trail: usize,
    pub unclassified: usize,
}

/// One captured read.
#[derive(Clone, Copy, PartialEq, Eq, Structural)]
pub struct Read {
    pub tokens: u64,
    pub stale: bool,
    pub day: Option<i64>,
}

/// What `serde_json::from_str::<Value>` makes of one capture line: `None`
/// when it is no JSON, else the `tokens` member as a `u64` and the
/// `status`, `ts` and `text` members as strings, each `None` when absent or
/// of another JSON type.
pub uninterp spec fn json_members(line: Seq<char>) -> Option<
    (Option<u64>, Option<Seq<char>>, Option<Seq<char>>, Option<Seq<char>>),
>;

/// Reads one capture line as JSON and picks out the members the metrics
/// use (`serde_json::from_str`, then `Value::get` with `as_u64`/`as_str`).
#[verifier::external_body]
fn json_line_members(line: &str) -> (r: Option<
    (Option<u64>, Option<String>, Option<String>, Option<String>),
>)
    ensures
        json_members(line@) == match r {
            None => None,
            Some(m) => Some((m.0, opt_view(m.1), opt_view(m.2), opt_view(m.3))),
        },
{
    match serde_json::from_str::<serde_json::Value>(line) {
        Err(_) => None,
        Ok(v) => Some((
            v.get("tokens").and_then(serde_json::Value::as_u64),
            v.get("status").and_then(serde_json::Value::as_str).map(str::to_string),
            v.get("ts").and_then(serde_json::Value::as_str).map(str::to_string),
            v.get("text").and_then(serde_json::Value::as_str).map(str::to_string),
        )),
    }
}

/// `slice::sort_unstable` on token counts: the result is sorted and holds
/// the same values.
#[verifier::external_body]
fn sort_tokens(v: &mut Vec<u64>)
    ensures
        sorted(final(v)@),
        final(v)@.to_multiset() == old(v)@.to_multiset(),
{
    v.sort_unstable();
}

/// `s` is in ascending order.
pub open spec fn sorted(s: Seq<u64>) -> bool {
    forall|i: int, j: int| 0 <= i <= j < s.len() ==> s[i] <= s[j]
}

/// A status that makes a read stale.
pub open spec fn stale_status(s: Seq<char>) -> bool {
    eq_ignore_case(s, "superseded"@) || eq_ignore_case(s, "deprecated"@)
}

/// An `i64` as `str::parse` reads one date part: an optional `+`, then
/// one or more ASCII digits. (A part never holds `-`: parts are split on
/// it.)
pub open spec fn part_value(p: Seq<char>) -> Option<int> {
    let d = if p.len() > 0 && p[0] == '+' {
        p.skip(1)
    } else {
        p
    };
    if d.len() > 0 && all_ascii_digits(d) {
        Some(digits_value(d) as int)
    } else {
        None
    }
}

/// A coarse day number from an ISO `YYYY-MM-DD…` timestamp:
/// `year*372 + month*31 + day`, read from its first ten UTF-8 bytes; none
/// when byte ten falls inside a character or past the end.
pub open spec fn day_of(ts: Seq<char>) -> Option<int> {
    match byte_prefix_from(ts, 10, 0) {
    None => None,
    Some(date) => {
        let parts = split_char(date, '-');
        if parts.len() < 3 {
            None
        } else {
            match (part_value(parts[0]), part_value(parts[1]), part_value(parts[2])) {
                (Some(y), Some(m), Some(d)) => Some(y * 372 + m * 31 + d),
                _ => None,
            }
        }
    },
    }
}

/// One capture line read as a read, when it is JSON.
pub open spec fn read_of(line: Seq<char>) -> Option<Read> {
    match json_members(trim(line)) {
        None => None,
        Some(m) => Some(
            Read {
                tokens: match m.0 {
                    Some(t) => t,
                    None => 0,
                },
                stale: match m.1 {
                    Some(s) => stale_status(s),
                    None => false,
                },
                day: match m.2 {
                    Some(ts) => match day_of(ts) {
                        Some(d) => Some(d as i64),
                        None => None,
                    },
                    None => None,
                },
            },
        ),
    }
}

/// The reads a capture holds, one per JSON line, in order.
pub open spec fn reads_from(ls: Seq<Seq<char>>) -> Seq<Read>
    decreases ls.len(),
{
    if ls.len() == 0 {
        Seq::<Read>::empty()
    } else {
        reads_from(ls.drop_last()) + match read_of(ls.last()) {
            Some(r) => seq![r],
            None => Seq::<Read>::empty(),
        }
    }
}

/// The newest day among `rs`.
pub open spec fn newest_day(rs: Seq<Read>) -> Option<i64>
    decreases rs.len(),
{
    if rs.len() == 0 {
        None
    } else {
        let rest = newest_day(rs.drop_last());
        match rs.last().day {
            None => rest,
            Some(d) => match rest {
                Some(n) => if n >= d {
                    Some(n)
                } else {
                    Some(d)
                },
                None => Some(d),
            },
        }
    }
}

/// Whether a read falls in the window of `since` days ending at `newest`.
pub open spec fn in_window(r: Read, newest: i64, since: i64) -> bool {
    match r.day {
        None => true,
        Some(d) => newest - d <= since && newest - d >= 0,
    }
}

/// The reads kept by the window: all of them without a window or without
/// any dated read.
pub open spec fn windowed(rs: Seq<Read>, since: Option<i64>) -> Seq<Read> {
    match since {
        None => rs,
        Some(s) => match newest_day(rs) {
            None => rs,
            Some(n) => rs.filter(|r: Read| in_window(r, n, s)),
        },
    }
}

/// The sum of the reads' tokens.
pub open spec fn token_sum(rs: Seq<Read>) -> nat
    decreases rs.len(),
{
    if rs.len() == 0 {
        0
    } else {
        token_sum(rs.drop_last()) + rs.last().tokens as nat
    }
}

/// How many reads are stale.
pub open spec fn stale_count(rs: Seq<Read>) -> nat
    decreases rs.len(),
{
    if rs.len() == 0 {
        0
    } else {
        stale_count(rs.drop_last()) + if rs.last().stale {
            1nat
        } else {
            0nat
        }
    }
}

/// Nearest-rank percentile `p` of a sorted sequence; 0 when empty.
pub open spec fn percentile_of(s: Seq<u64>, p: nat) -> u64 {
    if s.len() == 0 {
        0
    } else {
        let idx = (p * (s.len() - 1) + 50) / 100;
        s[if idx < s.len() - 1 {
            idx
        } else {
            s.len() - 1
        }]
    }
}

/// The texts of a findings capture's JSON lines that carry one.
pub open spec fn finding_texts(ls: Seq<Seq<char>>) -> Seq<Seq<char>>
    decreases ls.len(),
{
    if ls.len() == 0 {
        Seq::<Seq<char>>::empty()
    } else {
        finding_texts(ls.drop_last()) + match json_members(trim(ls.last())) {
            Some(m) => match m.3 {
                Some(t) => seq![t],
                None => Seq::<Seq<char>>::empty(),
            },
            None => Seq::<Seq<char>>::empty(),
        }
    }
}

/// How many of `ts` classify as `Unclassified`.
pub open spec fn unclassified_count(ts: Seq<Seq<char>>) -> nat
    decreases ts.len(),
{
    if ts.len() == 0 {
        0
    } else {
        unclassified_count(ts.drop_last()) + if category_for(
            rules_from(lines(PHRASINGS@)),
            ts.last(),
        ) == Category::Unclassified {
            1nat
        } else {
            0nat
        }
    }
}

/// The share a findings capture yields.
pub open spec fn share_of(jsonl: Seq<char>) -> FindingShare {
    let ts = finding_texts(lines(jsonl));
    let u = unclassified_count(ts);
    FindingShare {
        total: ts.len() as usize,
        doc_trail: (ts.len() - u) as usize,
        unclassified: u as usize,
    }
}

fn part_value_exec(p: &Vec<char>) -> (r: Option<i64>)
    requires
        p.len() <= 10,
    ensures
        r matches Some(v) ==> part_value(p@) == Some(v as int) && 0 <= v < 10000000000,
        r is None ==> part_value(p@) is None,
{
    let d = if p.len() > 0 && p[0] == '+' {
        slice(p, 1, p.len())
    } else {
        p.clone()
    };
    if d.len() == 0 || !all_digits_exec(&d) {
        return None;
    }
    proof {
        lemma_digits_bound(d@);
    }
    match parse_digits(&d) {
        Some(n) => Some(n as i64),
        None => None,
    }
}

proof fn lemma_digits_bound(s: Seq<char>)
    requires
        all_ascii_digits(s),
        s.len() <= 10,
    ensures
        digits_value(s) < 10000000000,
{
    crate::record::lemma_digits_value_bound(s);
    crate::record::lemma_pow10_mono(s.len(), 10);
    assert(crate::record::pow10(10) == 10000000000) by {
        reveal_with_fuel(crate::record::pow10, 11);
    }
}

/// The day number of a `YYYY-MM-DD…` timestamp.
pub fn day_number(ts: &Vec<char>) -> (r: Option<i64>)
    ensures
        r matches Some(v) ==> day_of(ts@) == Some(v as int),
        r is None ==> day_of(ts@) is None,
{
    let head = match byte_prefix(ts, 10) {
        Some(h) => h,
        None => return None,
    };
    proof {
        assert(ts@.take(0) =~= Seq::<char>::empty());
        lemma_byte_prefix_short(ts@, 10, 0);
    }
    let parts = split_exec(&head, '-');
    if parts.len() < 3 {
        return None;
    }
    proof {
        lemma_split_parts_short(head@, '-');
    }
    let y = match part_value_exec(&parts[0]) {
        Some(v) => v,
        None => return None,
    };
    let m = match part_value_exec(&parts[1]) {
        Some(v) => v,
        None => return None,
    };
    let d = match part_value_exec(&parts[2]) {
        Some(v) => v,
        None => return None,
    };
    Some(y * 372 + m * 31 + d)
}

proof fn lemma_split_parts_short(s: Seq<char>, c: char)
    ensures
        forall|i: int| 0 <= i < split_char(s, c).len() ==> (#[trigger] split_char(s, c)[i]).len()
            <= s.len(),
    decreases s.len(),
{
    if s.len() > 0 {
        lemma_split_parts_short(s.drop_last(), c);
        crate::text::lemma_split_nonempty(s.drop_last(), c);
    }
}

fn is_stale_status(status: &Vec<char>) -> (r: bool)
    ensures
        r == stale_status(status@),
{
    eq_ignore_case_str(status, "superseded") || eq_ignore_case_str(status, "deprecated")
}

fn parse_read_line(line: &Vec<char>) -> (r: Option<Read>)
    ensures
        r == read_of(line@),
{
    let t = string_of(&trim_exec(line));
    match json_line_members(t.as_str()) {
        None => None,
        Some(m) => {
            let tokens = match m.0 {
                Some(n) => n,
                None => 0,
            };
            let stale = match &m.1 {
                Some(s) => is_stale_status(&chars_of(s.as_str())),
                None => false,
            };
            let day = match &m.2 {
                Some(ts) => day_number(&chars_of(ts.as_str())),
                None => None,
            };
            Some(Read { tokens, stale, day })
        },
    }
}

fn parse_reads(jsonl: &str) -> (r: Vec<Read>)
    ensures
        r@ == reads_from(lines(jsonl@)),
{
    let ls = lines_exec(&chars_of(jsonl));
    let ghost lv = ls@.map_values(|v: Vec<char>| v@);
    let mut out: Vec<Read> = Vec::new();
    let mut i: usize = 0;
    while i < ls.len()
        invariant
            i <= ls.len(),
            lv == ls@.map_values(|v: Vec<char>| v@),
            lv == lines(jsonl@),
            out@ == reads_from(lv.take(i as int)),
        decreases ls.len() - i,
    {
        proof {
            assert(lv.take(i + 1).drop_last() == lv.take(i as int));
            assert(lv.take(i + 1).last() == ls@[i as int]@);
        }
        match parse_read_line(&ls[i]) {
            Some(r) => out.push(r),
            None => {
                assert(reads_from(lv.take(i + 1)) =~= reads_from(lv.take(i as int)));
            },
        }
        i += 1;
    }
    assert(lv.take(ls.len() as int) == lv);
    out
}

fn newest(reads: &Vec<Read>) -> (r: Option<i64>)
    ensures
        r == newest_day(reads@),
{
    let mut n: Option<i64> = None;
    let mut i: usize = 0;
    while i < reads.len()
        invariant
            i <= reads.len(),
            n == newest_day(reads@.take(i as int)),
        decreases reads.len() - i,
    {
        proof {
            assert(reads@.take(i + 1).drop_last() == reads@.take(i as int));
            assert(reads@.take(i + 1).last() == reads@[i as int]);
        }
        match reads[i].day {
            None => {},
            Some(d) => {
                n = match n {
                    Some(m) => if m >= d {
                        Some(m)
                    } else {
                        Some(d)
                    },
                    None => Some(d),
                };
            },
        }
        i += 1;
    }
    assert(reads@.take(reads.len() as int) == reads@);
    n
}

fn within_window(reads: Vec<Read>, since_days: Option<i64>) -> (r: Vec<Read>)
    ensures
        r@ == windowed(reads@, since_days),
{
    let since = match since_days {
        None => return reads,
        Some(s) => s,
    };
    let n = match newest(&reads) {
        None => return reads,
        Some(n) => n,
    };
    let mut out: Vec<Read> = Vec::new();
    let mut i: usize = 0;
    while i < reads.len()
        invariant
            i <= reads.len(),
            out@ == reads@.take(i as int).filter(|r: Read| in_window(r, n, since)),
        decreases reads.len() - i,
    {
        proof {
            assert(reads@.take(i + 1) == reads@.take(i as int).push(reads@[i as int]));
            reads@.take(i as int).lemma_filter_push(
                reads@[i as int],
                |r: Read| in_window(r, n, since),
            );
        }
        let r = reads[i];
        let keep = match r.day {
            None => true,
            Some(d) => (n as i128) - (d as i128) <= since as i128 && (n as i128) - (d as i128)
                >= 0,
        };
        if keep {
            out.push(r);
        }
        i += 1;
    }
    assert(reads@.take(reads.len() as int) == reads@);
    out
}

/// Nearest-rank percentile `p` of a sorted slice; 0 when empty.
fn percentile(sorted: &Vec<u64>, p: usize) -> (r: u64)
    requires
        p <= 100,
    ensures
        r == percentile_of(sorted@, p as nat),
{
    if sorted.len() == 0 {
        return 0;
    }
    let n = sorted.len() - 1;
    assert(p * n <= 100 * n) by (nonlinear_arith)
        requires
            p <= 100,
    ;
    let idx = ((p as u128) * (n as u128) + 50) / 100;
    assert(idx <= n + 1) by (nonlinear_arith)
        requires
            idx == (p * n + 50) / 100,
            p <= 100,
    ;
    let k = if idx < n as u128 {
        idx as usize
    } else {
        n
    };
    sorted[k]
}

fn finding_text(line: &Vec<char>) -> (r: Option<String>)
    ensures
        opt_view(r) == match json_members(trim(line@)) {
            Some(m) => m.3,
            None => None,
        },
{
    let t = string_of(&trim_exec(line));
    match json_line_members(t.as_str()) {
        None => None,
        Some(m) => m.3,
    }
}

fn summarize_findings(jsonl: &str) -> (r: FindingShare)
    ensures
        r == share_of(jsonl@),
{
    let ls = lines_exec(&chars_of(jsonl));
    let ghost lv = ls@.map_values(|v: Vec<char>| v@);
    let mut total: usize = 0;
    let mut unclassified: usize = 0;
    let mut i: usize = 0;
    while i < ls.len()
        invariant
            i <= ls.len(),
            lv == ls@.map_values(|v: Vec<char>| v@),
            lv == lines(jsonl@),
            total == finding_texts(lv.take(i as int)).len(),
            unclassified == unclassified_count(finding_texts(lv.take(i as int))),
            unclassified <= total <= i,
        decreases ls.len() - i,
    {
        let ghost ts = finding_texts(lv.take(i as int));
        proof {
            assert(lv.take(i + 1).drop_last() == lv.take(i as int));
            assert(lv.take(i + 1).last() == ls@[i as int]@);
        }
        match finding_text(&ls[i]) {
            Some(text) => {
                proof {
                    let ts2 = finding_texts(lv.take(i + 1));
                    assert(ts2 == ts.push(text@));
                    assert(ts2.drop_last() == ts);
                }
                if classify(text.as_str()) == Category::Unclassified {
                    unclassified += 1;
                }
                total += 1;
            },
            None => {
                assert(finding_texts(lv.take(i + 1)) =~= ts);
            },
        }
        i += 1;
    }
    assert(lv.take(ls.len() as int) == lv);
    FindingShare { total, doc_trail: total - unclassified, unclassified }
}

/// The window-filtered reads of a capture.
pub open spec fn window_of(reads_jsonl: Seq<char>, since_days: Option<i64>) -> Seq<Read> {
    windowed(reads_from(lines(reads_jsonl)), since_days)
}

/// Summarizes a doc-read capture (and an optional findings capture) over
/// the window `since_days`, measured back from the newest captured read so
/// that the summary needs no wall clock. The token sum wraps at `u64`.
pub fn summarize(reads_jsonl: &str, findings_jsonl: Option<&str>, since_days: Option<i64>) -> (r:
    Consumption)
    ensures
        r.reads == window_of(reads_jsonl@, since_days).len(),
        r.tokens_sum == token_sum(window_of(reads_jsonl@, since_days)) % 0x1_0000_0000_0000_0000,
        r.stale_reads == stale_count(window_of(reads_jsonl@, since_days)),
        exists|s: Seq<u64>|
            sorted(s) && s.to_multiset() == window_of(reads_jsonl@, since_days).map_values(
                |x: Read| x.tokens,
            ).to_multiset() && r.tokens_median == percentile_of(s, 50) && r.tokens_p90
                == percentile_of(s, 90),
        r.findings == match findings_jsonl {
            Some(f) => Some(share_of(f@)),
            None => None,
        },
{
    let reads = within_window(parse_reads(reads_jsonl), since_days);
    let ghost w = reads@;
    let mut tokens: Vec<u64> = Vec::new();
    let mut sum: u64 = 0;
    let mut stale: usize = 0;
    let mut i: usize = 0;
    while i < reads.len()
        invariant
            i <= reads.len(),
            w == reads@,
            tokens@ == w.take(i as int).map_values(|x: Read| x.tokens),
            sum == token_sum(w.take(i as int)) % 0x1_0000_0000_0000_0000,
            stale == stale_count(w.take(i as int)),
            stale <= i,
        decreases reads.len() - i,
    {
        proof {
            assert(w.take(i + 1).drop_last() == w.take(i as int));
            assert(w.take(i + 1).last() == w[i as int]);
        }
        tokens.push(reads[i].tokens);
        sum = sum.wrapping_add(reads[i].tokens);
        if reads[i].stale {
            stale += 1;
        }
        i += 1;
        assert(tokens@ =~= w.take(i as int).map_values(|x: Read| x.tokens));
    }
    assert(w.take(reads.len() as int) == w);
    let ghost unsorted = tokens@;
    sort_tokens(&mut tokens);
    let median = percentile(&tokens, 50);
    let p90 = percentile(&tokens, 90);
    let findings = match findings_jsonl {
        Some(f) => Some(summarize_findings(f)),
        None => None,
    };
    assert(sorted(tokens@) && tokens@.to_multiset() == unsorted.to_multiset());
    Consumption {
        reads: reads.len(),
        tokens_sum: sum,
        tokens_median: median,
        tokens_p90: p90,
        stale_reads: stale,
        findings,
    }
}

/// The rendered consumption block.
pub open spec fn block_text(c: Consumption) -> Seq<char> {
    "consumption — "@ + decimal(c.reads as nat) + " doc reads, tokens sum "@ + decimal(
        c.tokens_sum as nat,
    ) + " median "@ + decimal(c.tokens_median as nat) + " p90 "@ + decimal(
        c.tokens_p90 as nat,
    ) + ", "@ + decimal(c.stale_reads as nat) + " stale reads\n"@ + Seq::new(
        13,
        |i: int| ' ',
    ) + match c.findings {
        Some(s) => "findings: "@ + decimal(s.doc_trail as nat) + "/"@ + decimal(s.total as nat)
            + " doc-trail ("@ + decimal(s.unclassified as nat) + " unclassified)"@,
        None => "findings: not measured"@,
    }
}

/// Renders the consumption metrics as a two-line block.
pub fn render_block(consumption: &Consumption) -> (r: String)
    ensures
        r@ == block_text(*consumption),
{
    let mut out = chars_of("consumption — ");
    extend(&mut out, &decimal_exec(consumption.reads as u64));
    extend_str(&mut out, " doc reads, tokens sum ");
    extend(&mut out, &decimal_exec(consumption.tokens_sum));
    extend_str(&mut out, " median ");
    extend(&mut out, &decimal_exec(consumption.tokens_median));
    extend_str(&mut out, " p90 ");
    extend(&mut out, &decimal_exec(consumption.tokens_p90));
    extend_str(&mut out, ", ");
    extend(&mut out, &decimal_exec(consumption.stale_reads as u64));
    extend_str(&mut out, " stale reads\n");
    let ghost head = out@;
    let mut k: usize = 0;
    while k < 13
        invariant
            k <= 13,
            out@ == head + Seq::new(k as nat, |i: int| ' '),
        decreases 13 - k,
    {
        out.push(' ');
        k += 1;
        assert(out@ =~= head + Seq::new(k as nat, |i: int| ' '));
    }
    match &consumption.findings {
        Some(share) => {
            extend_str(&mut out, "findings: ");
            extend(&mut out, &decimal_exec(share.doc_trail as u64));
            extend_str(&mut out, "/");
            extend(&mut out, &decimal_exec(share.total as u64));
            extend_str(&mut out, " doc-trail (");
            extend(&mut out, &decimal_exec(share.unclassified as u64));
            extend_str(&mut out, " unclassified)");
        },
        None => {
            extend_str(&mut out, "findings: not measured");
        },
    }
    assert(out@ =~= block_text(*consumption));
    string_of(&out)
}

} // verus!
