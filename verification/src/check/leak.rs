//! `LEAK` advisories: content that landed in the wrong record type,
//! detected by pattern and structure alone. Advisory, never gating. The
//! detectable cases: a Given/When/Then scenario in an ADR or PRD body, a
//! JSON/data fenced block in an ADR outside `## Verification`, an unfilled
//! `{{PLACEHOLDER}}` in any record, a BDR scenario with no `Proves:` line,
//! and a deferred "Needs an ADR/BDR" in an issue body.

use crate::check::placeholder::{code_free, without_code};
use crate::check::records::{reserved, reserved_path};
use crate::check::reporter::{lemma_per_path_step, per_path, Reporter};
use crate::frontmatter::{body_of, scalar};
use crate::path::file_name_or_empty;
use crate::pattern::{regex_found, regex_is_match};
use crate::record::{extract_record, extracted};
use crate::store::{path_views, MapStore};
use crate::text::{
    chars_of, chars_of_string, contains, contains_str, eq_str, has_prefix, join, join_lines,
    lines, lines_exec, lowercase, lowercase_exec, nl, starts_with_str, string_of, trim, trim_exec,
    trim_start, trim_start_exec,
};
use vstd::prelude::*;

verus! {

pub open spec fn placeholder_leak_message() -> Seq<char> {
    "LEAK unfilled {{PLACEHOLDER}} — fill it or remove the slot"@
}

pub open spec fn gwt_message() -> Seq<char> {
    "LEAK Given/When/Then scenario — target behavior belongs in a BDR, not an ADR/PRD"@
}

pub open spec fn data_message() -> Seq<char> {
    "LEAK data/JSON block in an ADR — test output and benchmarks belong in an issue or research"@
}

pub open spec fn proves_message() -> Seq<char> {
    "LEAK BDR scenario has no `Proves:` line — cite the requirement each proves"@
}

pub open spec fn deferred_message() -> Seq<char> {
    "LEAK deferred decision (\"Needs an ADR/BDR\") — decide in the issue now, or open the record now"@
}

/// The pattern of an unfilled slot as the leak check reads it.
pub open spec fn leak_placeholder_pattern() -> Seq<char> {
    "\\{\\{[A-Za-z0-9_ ]+\\}\\}"@
}

/// A Gherkin step line for `Given`, `When` and `Then`, tolerating a
/// leading list, number or bold marker.
pub open spec fn given_pattern() -> Seq<char> {
    "(?im)^\\s*(?:[-*]\\s*|\\d+\\.\\s*)?\\*{0,2}Given\\b"@
}

pub open spec fn when_pattern() -> Seq<char> {
    "(?im)^\\s*(?:[-*]\\s*|\\d+\\.\\s*)?\\*{0,2}When\\b"@
}

pub open spec fn then_pattern() -> Seq<char> {
    "(?im)^\\s*(?:[-*]\\s*|\\d+\\.\\s*)?\\*{0,2}Then\\b"@
}

/// A deferred decision.
pub open spec fn deferral_pattern() -> Seq<char> {
    "(?i)needs an?\\s+(adr|bdr)"@
}

/// `text` holds a full Given/When/Then triple of step lines.
pub open spec fn gwt_scenario(text: Seq<char>) -> bool {
    regex_found(given_pattern(), text) && regex_found(when_pattern(), text) && regex_found(
        then_pattern(),
        text,
    )
}

/// Whether the lines `ls` end inside a `## Verification` section, and the
/// lines kept outside it.
pub open spec fn prose_state(ls: Seq<Seq<char>>) -> (bool, Seq<Seq<char>>)
    decreases ls.len(),
{
    if ls.len() == 0 {
        (false, Seq::<Seq<char>>::empty())
    } else {
        let (skipping, kept) = prose_state(ls.drop_last());
        let l = ls.last();
        let t = trim(l);
        if has_prefix(t, "## Verification"@) {
            (true, kept)
        } else {
            let still = skipping && !(has_prefix(t, "## "@) || t == "# References"@);
            if still {
                (true, kept)
            } else {
                (false, kept.push(l))
            }
        }
    }
}

/// The body with its `## Verification` section removed.
pub open spec fn decision_text(body: Seq<char>) -> Seq<char> {
    join(prose_state(lines(body)).1, nl())
}

/// Line `i` of `ls` opens a data fence: a ```json fence, or a fence whose
/// next line opens with `{` or `[`.
pub open spec fn data_fence_at(ls: Seq<Seq<char>>, i: int) -> bool {
    let t = trim_start(ls[i]);
    has_prefix(t, "```json"@) || (has_prefix(t, "```"@) && i + 1 < ls.len() && (has_prefix(
        trim_start(ls[i + 1]),
        "{"@,
    ) || has_prefix(trim_start(ls[i + 1]), "["@)))
}

/// `prose` holds a data fence.
pub open spec fn data_fence(prose: Seq<char>) -> bool {
    exists|i: int| 0 <= i < lines(prose).len() && #[trigger] data_fence_at(lines(prose), i)
}

/// The leaks an ADR's decision prose carries: a scenario, then a data
/// fence.
pub open spec fn adr_messages(body: Seq<char>) -> Seq<Seq<char>> {
    let prose = decision_text(body);
    (if gwt_scenario(code_free(prose)) {
        seq![gwt_message()]
    } else {
        Seq::<Seq<char>>::empty()
    }) + (if data_fence(prose) {
        seq![data_message()]
    } else {
        Seq::<Seq<char>>::empty()
    })
}

/// The leak messages of a record of type `t` with body `body`, in order.
pub open spec fn leak_messages(t: Seq<char>, body: Seq<char>) -> Seq<Seq<char>> {
    let first = if regex_found(leak_placeholder_pattern(), code_free(body)) {
        seq![placeholder_leak_message()]
    } else {
        Seq::<Seq<char>>::empty()
    };
    let rest = if t == "ADR"@ {
        adr_messages(body)
    } else if t == "PRD"@ && gwt_scenario(code_free(body)) {
        seq![gwt_message()]
    } else if t == "BDR"@ && gwt_scenario(code_free(body)) && !contains(
        lowercase(body),
        "proves:"@,
    ) {
        seq![proves_message()]
    } else if t == "Issue"@ && regex_found(deferral_pattern(), body) {
        seq![deferred_message()]
    } else {
        Seq::<Seq<char>>::empty()
    };
    first + rest
}

/// The leak advisories of one listed path.
pub open spec fn leak_advisories(store: MapStore, f: Seq<char>) -> Seq<(Seq<char>, Seq<char>, Seq<char>)> {
    if reserved(file_name_or_empty(f)) {
        Seq::<(Seq<char>, Seq<char>, Seq<char>)>::empty()
    } else {
        match store.get(f) {
            None => Seq::<(Seq<char>, Seq<char>, Seq<char>)>::empty(),
            Some(c) => {
                let r = extracted(f, c);
                leak_messages(r.doc_type, r.body).map_values(
                    |m: Seq<char>| (f, "leak"@, m),
                )
            },
        }
    }
}

fn has_gwt_scenario(text: &Vec<char>) -> (r: bool)
    ensures
        r == gwt_scenario(text@),
{
    let s = string_of(text);
    regex_is_match("(?im)^\\s*(?:[-*]\\s*|\\d+\\.\\s*)?\\*{0,2}Given\\b", s.as_str())
        && regex_is_match("(?im)^\\s*(?:[-*]\\s*|\\d+\\.\\s*)?\\*{0,2}When\\b", s.as_str())
        && regex_is_match("(?im)^\\s*(?:[-*]\\s*|\\d+\\.\\s*)?\\*{0,2}Then\\b", s.as_str())
}

/// The body with its `## Verification` section removed: from that heading
/// to the next `## ` heading or `# References`.
pub fn decision_prose(body: &Vec<char>) -> (r: Vec<char>)
    ensures
        r@ == decision_text(body@),
{
    let ls = lines_exec(body);
    let ghost lv = ls@.map_values(|v: Vec<char>| v@);
    let mut kept: Vec<Vec<char>> = Vec::new();
    let mut skipping = false;
    let mut i: usize = 0;
    while i < ls.len()
        invariant
            i <= ls.len(),
            lv == ls@.map_values(|v: Vec<char>| v@),
            lv == lines(body@),
            (skipping, kept@.map_values(|v: Vec<char>| v@)) == prose_state(lv.take(i as int)),
        decreases ls.len() - i,
    {
        proof {
            assert(lv.take(i + 1).drop_last() == lv.take(i as int));
            assert(lv.take(i + 1).last() == ls@[i as int]@);
        }
        let l = &ls[i];
        let t = trim_exec(l);
        if starts_with_str(&t, "## Verification") {
            skipping = true;
        } else {
            if skipping && !(starts_with_str(&t, "## ") || eq_str(&t, "# References")) {
            } else {
                skipping = false;
                let ghost before = kept@.map_values(|v: Vec<char>| v@);
                kept.push(l.clone());
                assert(kept@.map_values(|v: Vec<char>| v@) =~= before.push(l@));
            }
        }
        i += 1;
    }
    assert(lv.take(ls.len() as int) == lv);
    join_lines(&kept)
}

/// Whether `prose` holds a ```json fence, or a fence whose first line opens
/// with `{` or `[`.
pub fn has_data_fence(prose: &Vec<char>) -> (r: bool)
    ensures
        r == data_fence(prose@),
{
    let ls = lines_exec(prose);
    let ghost lv = ls@.map_values(|v: Vec<char>| v@);
    let mut i: usize = 0;
    while i < ls.len()
        invariant
            i <= ls.len(),
            lv == ls@.map_values(|v: Vec<char>| v@),
            lv == lines(prose@),
            forall|j: int| 0 <= j < i ==> !#[trigger] data_fence_at(lv, j),
        decreases ls.len() - i,
    {
        assert(lv[i as int] == ls@[i as int]@);
        let t = trim_start_exec(&ls[i]);
        if starts_with_str(&t, "```json") {
            assert(data_fence_at(lv, i as int));
            return true;
        }
        if starts_with_str(&t, "```") && i + 1 < ls.len() {
            assert(lv[i + 1] == ls@[i + 1]@);
            let next = trim_start_exec(&ls[i + 1]);
            if starts_with_str(&next, "{") || starts_with_str(&next, "[") {
                assert(data_fence_at(lv, i as int));
                return true;
            }
        }
        i += 1;
    }
    false
}

/// Appends the leaks an ADR's decision prose carries.
fn push_adr_leaks(body: &Vec<char>, out: &mut Vec<String>)
    ensures
        path_views(final(out)@) == path_views(old(out)@) + adr_messages(body@),
{
    let prose = decision_prose(body);
    if has_gwt_scenario(&without_code(&prose)) {
        out.push(
            "LEAK Given/When/Then scenario — target behavior belongs in a BDR, not an ADR/PRD".to_string(),
        );
    }
    if has_data_fence(&prose) {
        out.push(
            "LEAK data/JSON block in an ADR — test output and benchmarks belong in an issue or research".to_string(),
        );
    }
    assert(path_views(out@) =~= path_views(old(out)@) + adr_messages(body@));
}

/// The leak messages of a record of type `doc_type` with body `body`.
pub fn leaks(doc_type: &str, body: &str) -> (r: Vec<String>)
    ensures
        path_views(r@) == leak_messages(doc_type@, body@),
{
    let b = chars_of(body);
    let t = chars_of(doc_type);
    let mut out: Vec<String> = Vec::new();
    let free = without_code(&b);
    if regex_is_match("\\{\\{[A-Za-z0-9_ ]+\\}\\}", string_of(&free).as_str()) {
        out.push("LEAK unfilled {{PLACEHOLDER}} — fill it or remove the slot".to_string());
    }
    let ghost first = path_views(out@);
    let ghost rest = leak_messages(doc_type@, body@).skip(first.len() as int);
    if eq_str(&t, "ADR") {
        push_adr_leaks(&b, &mut out);
    } else if eq_str(&t, "PRD") && has_gwt_scenario(&free) {
        out.push(
            "LEAK Given/When/Then scenario — target behavior belongs in a BDR, not an ADR/PRD".to_string(),
        );
    } else if eq_str(&t, "BDR") && has_gwt_scenario(&free) && !contains_str(
        &lowercase_exec(&b),
        "proves:",
    ) {
        out.push(
            "LEAK BDR scenario has no `Proves:` line — cite the requirement each proves".to_string(),
        );
    } else if eq_str(&t, "Issue") && regex_is_match("(?i)needs an?\\s+(adr|bdr)", body) {
        out.push(
            "LEAK deferred decision (\"Needs an ADR/BDR\") — decide in the issue now, or open the record now".to_string(),
        );
    }
    assert(path_views(out@) =~= leak_messages(doc_type@, body@));
    out
}

/// Advises, with kind `leak`, on every record whose body carries content
/// that belongs in another record type. Never a violation.
pub fn check_leak(store: &MapStore, all_md: &Vec<String>, reporter: &mut Reporter)
    ensures
        final(reporter).viols() == old(reporter).viols(),
        final(reporter).advs() == old(reporter).advs() + per_path(
            path_views(all_md@),
            |f: Seq<char>| leak_advisories(*store, f),
        ),
{
    let ghost ps = path_views(all_md@);
    let ghost h = |f: Seq<char>| leak_advisories(*store, f);
    let mut i: usize = 0;
    assert(ps.take(0) =~= Seq::<Seq<char>>::empty());
    while i < all_md.len()
        invariant
            i <= all_md.len(),
            ps == path_views(all_md@),
            h == (|f: Seq<char>| leak_advisories(*store, f)),
            reporter.viols() == old(reporter).viols(),
            reporter.advs() == old(reporter).advs() + per_path(ps.take(i as int), h),
        decreases all_md.len() - i,
    {
        proof {
            lemma_per_path_step(ps, h, i as int);
        }
        let f = &all_md[i];
        let ghost ba = reporter.advs();
        let ghost fv = f@;
        if !reserved_path(f) {
            match store.read(f) {
                None => {
                    assert(ba + Seq::<(Seq<char>, Seq<char>, Seq<char>)>::empty() =~= ba);
                },
                Some(contents) => {
                    let rec = extract_record(f.as_str(), contents.as_str());
                    let ms = leaks(rec.doc_type.as_str(), rec.body.as_str());
                    let ghost mv = path_views(ms@).map_values(
                        |m: Seq<char>| (fv, "leak"@, m),
                    );
                    let mut j: usize = 0;
                    while j < ms.len()
                        invariant
                            j <= ms.len(),
                            mv == path_views(ms@).map_values(|m: Seq<char>| (fv, "leak"@, m)),
                            fv == f@,
                            reporter.advs() == ba + mv.take(j as int),
                            reporter.viols() == old(reporter).viols(),
                        decreases ms.len() - j,
                    {
                        let m = ms[j].clone();
                        reporter.advise(f, "leak", m);
                        j += 1;
                        assert(reporter.advs() =~= ba + mv.take(j as int));
                    }
                    assert(mv.take(ms.len() as int) == mv);
                },
            }
        } else {
            assert(ba + Seq::<(Seq<char>, Seq<char>, Seq<char>)>::empty() =~= ba);
        }
        i += 1;
    }
    assert(ps.take(all_md.len() as int) == ps);
}

} // verus!
