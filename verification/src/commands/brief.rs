//! `living-docs brief`: `new` plus deterministic pre-fill — the frontmatter
//! title, the numbered title heading, a trail comment naming the records
//! the type conventionally links, and every judgment section collapsed to a
//! byte-identical `<!-- judgment: <name> -->` marker an agent can locate
//! without re-reading the file. The tool derives facts only; it never
//! writes rationale prose.

pub mod constraints;

use crate::commands::index::{numbered_prefix, numbered_value, unsupported_message};
use crate::commands::supersede::{apply_frontmatter_field, with_field};
use crate::doc_type::{row_for_token, spec_for, DocTypeSpec, Identity, IdentityV, TypeRow};
use crate::frontmatter::{format_scalar, formatted};
use crate::path::{file_name_or_empty, file_name_or_empty_exec, join_path, join_path_exec, join_path_str, slug, slugify};
use crate::store::{path_views, MapStore};
use crate::text::{
    chars_of, chars_of_string, eq_str, extend, extend_str, has_prefix, join, lines, nl,
    starts_with_str, string_of,
};
use vstd::prelude::*;

verus! {

/// The files a git range touched, resolved by the command-line front
/// (`git diff --name-only <range>`) so the library stays free of I/O.
pub struct DiffContext {
    pub range: String,
    pub files: Vec<String>,
}

/// The views of a slot table.
pub open spec fn slot_views(v: Seq<(&'static str, &'static str)>) -> Seq<(Seq<char>, Seq<char>)> {
    v.map_values(|p: (&'static str, &'static str)| (p.0@, p.1@))
}

/// Judgment sections per doc type: heading line and marker name. What a
/// slot heading opens, up to the next heading, is judgment the author owns;
/// the structural sections keep their template scaffolding.
pub open spec fn slots(doc_type: Seq<char>) -> Seq<(Seq<char>, Seq<char>)> {
    if doc_type == "adr"@ {
        seq![
            ("## Context"@, "context"@),
            ("## Decision"@, "decision"@),
            ("## Consequences"@, "consequences"@),
            ("# References"@, "references"@),
        ]
    } else if doc_type == "bdr"@ {
        seq![
            ("## Context"@, "context"@),
            ("## Textual Description"@, "textual-description"@),
            ("## Scenarios"@, "scenarios"@),
            ("## Related"@, "related"@),
        ]
    } else if doc_type == "prd"@ {
        seq![
            ("## Problem / Motivation"@, "problem-motivation"@),
            ("## Goals"@, "goals"@),
            ("## Non-goals"@, "non-goals"@),
            ("## Requirements"@, "requirements"@),
            ("## Acceptance criteria"@, "acceptance-criteria"@),
            ("## Success metrics"@, "success-metrics"@),
            ("## Behavior (BDRs)"@, "behavior-bdrs"@),
            ("## Open questions"@, "open-questions"@),
            ("## Decision log"@, "decision-log"@),
            ("## Related"@, "related"@),
        ]
    } else if doc_type == "issue"@ {
        seq![
            ("## <Issue title>"@, "context"@),
            ("### Scope"@, "scope"@),
            ("### Acceptance"@, "acceptance"@),
            ("### Plan"@, "plan"@),
        ]
    } else if doc_type == "research"@ {
        seq![
            ("## Question"@, "question"@),
            ("## Method"@, "method"@),
            ("## Implications"@, "implications"@),
            ("## Open Questions"@, "open-questions"@),
            ("# References"@, "references"@),
        ]
    } else if doc_type == "constitution"@ {
        seq![
            ("## Product"@, "product"@),
            ("## Scope Boundaries"@, "scope-boundaries"@),
            ("## Non-negotiables"@, "non-negotiables"@),
        ]
    } else {
        Seq::empty()
    }
}

/// The judgment slots of `doc_type`.
pub fn slots_for(doc_type: &str) -> (r: Vec<(&'static str, &'static str)>)
    ensures
        slot_views(r@) == slots(doc_type@),
{
    let d = chars_of(doc_type);
    let r = if eq_str(&d, "adr") {
        vec![
            ("## Context", "context"),
            ("## Decision", "decision"),
            ("## Consequences", "consequences"),
            ("# References", "references"),
        ]
    } else if eq_str(&d, "bdr") {
        vec![
            ("## Context", "context"),
            ("## Textual Description", "textual-description"),
            ("## Scenarios", "scenarios"),
            ("## Related", "related"),
        ]
    } else if eq_str(&d, "prd") {
        vec![
            ("## Problem / Motivation", "problem-motivation"),
            ("## Goals", "goals"),
            ("## Non-goals", "non-goals"),
            ("## Requirements", "requirements"),
            ("## Acceptance criteria", "acceptance-criteria"),
            ("## Success metrics", "success-metrics"),
            ("## Behavior (BDRs)", "behavior-bdrs"),
            ("## Open questions", "open-questions"),
            ("## Decision log", "decision-log"),
            ("## Related", "related"),
        ]
    } else if eq_str(&d, "issue") {
        vec![
            ("## <Issue title>", "context"),
            ("### Scope", "scope"),
            ("### Acceptance", "acceptance"),
            ("### Plan", "plan"),
        ]
    } else if eq_str(&d, "research") {
        vec![
            ("## Question", "question"),
            ("## Method", "method"),
            ("## Implications", "implications"),
            ("## Open Questions", "open-questions"),
            ("# References", "references"),
        ]
    } else if eq_str(&d, "constitution") {
        vec![
            ("## Product", "product"),
            ("## Scope Boundaries", "scope-boundaries"),
            ("## Non-negotiables", "non-negotiables"),
        ]
    } else {
        Vec::new()
    };
    assert(slot_views(r@) =~= slots(doc_type@));
    r
}

/// The marker of the first slot whose heading is `line`.
pub open spec fn marker_in(slots: Seq<(Seq<char>, Seq<char>)>, line: Seq<char>, i: int) -> Option<
    Seq<char>,
>
    decreases slots.len() - i,
{
    if i < 0 || i >= slots.len() {
        None
    } else if slots[i].0 == line {
        Some(slots[i].1)
    } else {
        marker_in(slots, line, i + 1)
    }
}

/// The marker `line` opens, among `slots`.
pub fn marker_for_heading(line: &Vec<char>, slots: &Vec<(&'static str, &'static str)>) -> (r: Option<
    &'static str,
>)
    ensures
        r matches Some(m) ==> marker_in(slot_views(slots@), line@, 0) == Some(m@),
        r is None ==> marker_in(slot_views(slots@), line@, 0) is None,
{
    let ghost sv = slot_views(slots@);
    let mut i: usize = 0;
    while i < slots.len()
        invariant
            i <= slots.len(),
            sv == slot_views(slots@),
            marker_in(sv, line@, 0) == marker_in(sv, line@, i as int),
        decreases slots.len() - i,
    {
        let (heading, marker) = slots[i];
        assert(sv[i as int] == (heading@, marker@));
        if eq_str(line, heading) {
            return Some(marker);
        }
        i += 1;
    }
    None
}

/// The first line at or after `k` that opens with `#`, or the line count.
pub open spec fn next_heading(ls: Seq<Seq<char>>, k: int) -> int
    decreases ls.len() - k,
{
    if k < 0 || k >= ls.len() {
        ls.len() as int
    } else if has_prefix(ls[k], "#"@) {
        k
    } else {
        next_heading(ls, k + 1)
    }
}

/// The next heading lies between `k` and the line count.
pub proof fn lemma_next_heading_bounds(ls: Seq<Seq<char>>, k: int)
    requires
        0 <= k,
    ensures
        k <= next_heading(ls, k) || (k > ls.len() && next_heading(ls, k) == ls.len()),
        next_heading(ls, k) <= ls.len(),
    decreases ls.len() - k,
{
    if k < ls.len() && !has_prefix(ls[k], "#"@) {
        lemma_next_heading_bounds(ls, k + 1);
    }
}

/// The index of the first line at or after `from` that opens with `#`.
pub fn next_heading_index(lines: &Vec<Vec<char>>, from: usize) -> (r: usize)
    requires
        from <= lines.len(),
    ensures
        r as int == next_heading(lines@.map_values(|v: Vec<char>| v@), from as int),
        from <= r <= lines.len(),
{
    let ghost lv = lines@.map_values(|v: Vec<char>| v@);
    let mut i = from;
    while i < lines.len()
        invariant
            from <= i <= lines.len(),
            lv == lines@.map_values(|v: Vec<char>| v@),
            next_heading(lv, from as int) == next_heading(lv, i as int),
        decreases lines.len() - i,
    {
        assert(lv[i as int] == lines@[i as int]@);
        if starts_with_str(&lines[i], "#") {
            return i;
        }
        i += 1;
    }
    i
}

/// The marker line a slot collapses to.
pub open spec fn marker_line(marker: Seq<char>) -> Seq<char> {
    "<!-- judgment: "@ + marker + " -->"@
}

/// The lines from `i` on with every slot's section collapsed to its
/// heading, a blank line and its marker (then a blank line before the next
/// heading, when there is one).
pub open spec fn collapsed(ls: Seq<Seq<char>>, slots: Seq<(Seq<char>, Seq<char>)>, i: int) -> Seq<
    Seq<char>,
>
    decreases ls.len() - i,
{
    if i < 0 || i >= ls.len() {
        Seq::empty()
    } else {
        match marker_in(slots, ls[i], 0) {
            None => seq![ls[i]] + collapsed(ls, slots, i + 1),
            Some(m) => {
                let j = next_heading(ls, i + 1);
                proof {
                    lemma_next_heading_bounds(ls, i + 1);
                }
                seq![ls[i], Seq::empty(), marker_line(m)] + (if j < ls.len() {
                    seq![Seq::<char>::empty()]
                } else {
                    Seq::<Seq<char>>::empty()
                }) + collapsed(ls, slots, j)
            },
        }
    }
}

/// `content` with each judgment section of `slots` collapsed to its marker.
pub open spec fn sections_replaced(content: Seq<char>, slots: Seq<(Seq<char>, Seq<char>)>) -> Seq<char> {
    join(collapsed(lines(content), slots, 0), nl()) + "\n"@
}

/// Collapses every judgment section of `content` to its marker.
pub fn replace_judgment_sections(content: &str, slots: &Vec<(&'static str, &'static str)>) -> (r:
    String)
    ensures
        r@ == sections_replaced(content@, slot_views(slots@)),
{
    let ls = crate::text::lines_of(content);
    let ghost lv = ls@.map_values(|v: Vec<char>| v@);
    let ghost sv = slot_views(slots@);
    let mut out: Vec<Vec<char>> = Vec::new();
    let mut i: usize = 0;
    while i < ls.len()
        invariant
            i <= ls.len(),
            lv == ls@.map_values(|v: Vec<char>| v@),
            sv == slot_views(slots@),
            out@.map_values(|v: Vec<char>| v@) + collapsed(lv, sv, i as int) == collapsed(lv, sv, 0),
        decreases ls.len() - i,
    {
        let ghost before = out@.map_values(|v: Vec<char>| v@);
        assert(lv[i as int] == ls@[i as int]@);
        out.push(ls[i].clone());
        match marker_for_heading(&ls[i], slots) {
            None => {
                assert(out@.map_values(|v: Vec<char>| v@) == before.push(lv[i as int]));
                assert(before + collapsed(lv, sv, i as int) == out@.map_values(|v: Vec<char>| v@)
                    + collapsed(lv, sv, i + 1));
                i += 1;
            },
            Some(marker) => {
                out.push(Vec::new());
                let mut m = chars_of("<!-- judgment: ");
                extend_str(&mut m, marker);
                extend_str(&mut m, " -->");
                out.push(m);
                let j = next_heading_index(&ls, i + 1);
                if j < ls.len() {
                    out.push(Vec::new());
                }
                proof {
                    let added = out@.map_values(|v: Vec<char>| v@).skip(before.len() as int);
                    assert(out@.map_values(|v: Vec<char>| v@) == before + added);
                    assert(added == seq![lv[i as int], Seq::<char>::empty(), marker_line(marker@)]
                        + (if j < ls.len() {
                        seq![Seq::<char>::empty()]
                    } else {
                        Seq::<Seq<char>>::empty()
                    }));
                    assert(before + collapsed(lv, sv, i as int) == out@.map_values(
                        |v: Vec<char>| v@,
                    ) + collapsed(lv, sv, j as int));
                }
                i = j;
            },
        }
    }
    assert(collapsed(lv, sv, i as int) == Seq::<Seq<char>>::empty());
    assert(out@.map_values(|v: Vec<char>| v@) == collapsed(lv, sv, 0));
    let mut text = crate::text::join_lines(&out);
    extend_str(&mut text, "\n");
    string_of(&text)
}


/// The marker a diff's touched files land under, per doc type.
pub open spec fn context_marker(doc_type: Seq<char>) -> Seq<char> {
    if doc_type == "prd"@ {
        "problem-motivation"@
    } else if doc_type == "research"@ {
        "question"@
    } else if doc_type == "constitution"@ {
        "product"@
    } else {
        "context"@
    }
}

/// The slot a diff's touched files land under.
pub fn context_marker_for(doc_type: &str) -> (r: &'static str)
    ensures
        r@ == context_marker(doc_type@),
{
    let d = chars_of(doc_type);
    if eq_str(&d, "prd") {
        "problem-motivation"
    } else if eq_str(&d, "research") {
        "question"
    } else if eq_str(&d, "constitution") {
        "product"
    } else {
        "context"
    }
}

/// The trail stub under a type's title heading. It lives inside a comment
/// so an unfilled scaffold carries no dangling markdown link.
pub open spec fn trail(doc_type: Seq<char>) -> Seq<char> {
    if doc_type == "adr"@ {
        "<!-- trail: motivated-by /research/NNNN-<slug>.md · /prd/NNNN-<slug>.md · tracked-by /issues/NNNN-<slug>.md -->"@
    } else if doc_type == "bdr"@ {
        "<!-- trail: spawned-by /prd/NNNN-<slug>.md · /adr/NNNN-<slug>.md · tracked-by /issues/NNNN-<slug>.md -->"@
    } else if doc_type == "prd"@ {
        "<!-- trail: constitution /constitution.md · behavior /bdr/NNNN-<slug>.md · tracked-by /issues/NNNN-<slug>.md -->"@
    } else if doc_type == "issue"@ {
        "<!-- trail: implements /adr/NNNN-<slug>.md · part-of /prd/NNNN-<slug>.md -->"@
    } else if doc_type == "research"@ {
        "<!-- trail: motivates /adr/NNNN-<slug>.md · /prd/NNNN-<slug>.md · tracked-by /issues/NNNN-<slug>.md -->"@
    } else {
        ""@
    }
}

/// The trail comment of `doc_type`.
pub fn trail_comment_for(doc_type: &str) -> (r: &'static str)
    ensures
        r@ == trail(doc_type@),
{
    let d = chars_of(doc_type);
    if eq_str(&d, "adr") {
        "<!-- trail: motivated-by /research/NNNN-<slug>.md · /prd/NNNN-<slug>.md · tracked-by /issues/NNNN-<slug>.md -->"
    } else if eq_str(&d, "bdr") {
        "<!-- trail: spawned-by /prd/NNNN-<slug>.md · /adr/NNNN-<slug>.md · tracked-by /issues/NNNN-<slug>.md -->"
    } else if eq_str(&d, "prd") {
        "<!-- trail: constitution /constitution.md · behavior /bdr/NNNN-<slug>.md · tracked-by /issues/NNNN-<slug>.md -->"
    } else if eq_str(&d, "issue") {
        "<!-- trail: implements /adr/NNNN-<slug>.md · part-of /prd/NNNN-<slug>.md -->"
    } else if eq_str(&d, "research") {
        "<!-- trail: motivates /adr/NNNN-<slug>.md · /prd/NNNN-<slug>.md · tracked-by /issues/NNNN-<slug>.md -->"
    } else {
        ""
    }
}

/// Whether `line` is the template's title heading placeholder.
pub open spec fn is_title_placeholder(line: Seq<char>, doc_type: Seq<char>) -> bool {
    if doc_type == "issue"@ {
        line == "## <Issue title>"@
    } else {
        has_prefix(line, "# NNNN. <"@)
    }
}

/// Whether `line` is the title heading placeholder of `doc_type`.
pub fn is_title_heading_placeholder(line: &Vec<char>, doc_type: &str) -> (r: bool)
    ensures
        r == is_title_placeholder(line@, doc_type@),
{
    let d = chars_of(doc_type);
    if eq_str(&d, "issue") {
        eq_str(line, "## <Issue title>")
    } else {
        starts_with_str(line, "# NNNN. <")
    }
}

/// The filled title heading, a blank line and the trail comment.
pub open spec fn heading_with_trail(doc_type: Seq<char>, number: u32, title: Seq<char>) -> Seq<char> {
    (if doc_type == "issue"@ {
        "## "@ + title
    } else {
        "# "@ + crate::text::pad4(number as nat) + ". "@ + title
    }) + "\n\n"@ + trail(doc_type)
}

/// The filled title heading with its trail comment.
pub fn filled_heading_with_trail(doc_type: &str, number: u32, title: &str) -> (r: Vec<char>)
    ensures
        r@ == heading_with_trail(doc_type@, number, title@),
{
    let d = chars_of(doc_type);
    let mut h = if eq_str(&d, "issue") {
        chars_of("## ")
    } else {
        let mut h = chars_of("# ");
        extend(&mut h, &crate::text::pad4_exec(number as u64));
        extend_str(&mut h, ". ");
        h
    };
    extend_str(&mut h, title);
    extend_str(&mut h, "\n\n");
    extend_str(&mut h, trail_comment_for(doc_type));
    h
}

/// A line with the title placeholder filled.
pub open spec fn titled_line(line: Seq<char>, doc_type: Seq<char>, number: u32, title: Seq<char>) -> Seq<char> {
    if is_title_placeholder(line, doc_type) {
        heading_with_trail(doc_type, number, title)
    } else {
        line
    }
}

/// `content` with its title heading placeholder filled.
pub open spec fn titled(content: Seq<char>, doc_type: Seq<char>, number: u32, title: Seq<char>) -> Seq<char> {
    join(lines(content).map_values(|l: Seq<char>| titled_line(l, doc_type, number, title)), nl())
        + "\n"@
}

/// Fills the title heading placeholder of `content`.
pub fn fill_title_heading(content: &str, doc_type: &str, number: u32, title: &str) -> (r: String)
    ensures
        r@ == titled(content@, doc_type@, number, title@),
{
    let ls = crate::text::lines_of(content);
    let ghost lv = ls@.map_values(|v: Vec<char>| v@);
    let ghost f = |l: Seq<char>| titled_line(l, doc_type@, number, title@);
    let mut out: Vec<Vec<char>> = Vec::new();
    let mut i: usize = 0;
    while i < ls.len()
        invariant
            i <= ls.len(),
            lv == ls@.map_values(|v: Vec<char>| v@),
            f == (|l: Seq<char>| titled_line(l, doc_type@, number, title@)),
            out@.map_values(|v: Vec<char>| v@) == lv.take(i as int).map_values(f),
        decreases ls.len() - i,
    {
        assert(lv[i as int] == ls@[i as int]@);
        if is_title_heading_placeholder(&ls[i], doc_type) {
            out.push(filled_heading_with_trail(doc_type, number, title));
        } else {
            out.push(ls[i].clone());
        }
        assert(lv.take(i + 1).map_values(f) =~= lv.take(i as int).map_values(f).push(f(lv[i as int])));
        i += 1;
    }
    assert(lv.take(ls.len() as int) == lv);
    let mut text = crate::text::join_lines(&out);
    extend_str(&mut text, "\n");
    string_of(&text)
}

/// The lines a diff's touched files add under the context marker.
pub open spec fn touched_block(range: Seq<char>, files: Seq<Seq<char>>) -> Seq<Seq<char>> {
    seq![
        Seq::<char>::empty(),
        "Touched files (`git diff --name-only "@ + range + "`):"@,
        Seq::<char>::empty(),
    ] + files.map_values(|f: Seq<char>| "- `"@ + f + "`"@)
}

/// The lines from `i` on, each marker line followed by the touched block.
pub open spec fn with_touched(
    ls: Seq<Seq<char>>,
    marker: Seq<char>,
    range: Seq<char>,
    files: Seq<Seq<char>>,
    i: int,
) -> Seq<Seq<char>>
    decreases ls.len() - i,
{
    if i < 0 || i >= ls.len() {
        Seq::empty()
    } else {
        seq![ls[i]] + (if ls[i] == marker {
            touched_block(range, files)
        } else {
            Seq::<Seq<char>>::empty()
        }) + with_touched(ls, marker, range, files, i + 1)
    }
}

/// `content` with the touched files listed under `marker`'s line.
pub open spec fn touched(content: Seq<char>, marker: Seq<char>, range: Seq<char>, files: Seq<Seq<char>>) -> Seq<char> {
    join(with_touched(lines(content), marker_line(marker), range, files, 0), nl()) + "\n"@
}

/// Lists the files `diff` touched under the `context_marker` slot.
pub fn insert_touched_files(content: &str, context_marker: &str, diff: &DiffContext) -> (r: String)
    ensures
        r@ == touched(content@, context_marker@, diff.range@, crate::store::path_views(diff.files@)),
{
    let ls = crate::text::lines_of(content);
    let ghost lv = ls@.map_values(|v: Vec<char>| v@);
    let ghost fv = crate::store::path_views(diff.files@);
    let ghost ml = marker_line(context_marker@);
    let mut marker = chars_of("<!-- judgment: ");
    extend_str(&mut marker, context_marker);
    extend_str(&mut marker, " -->");
    let mut block: Vec<Vec<char>> = Vec::new();
    block.push(Vec::new());
    let mut header = chars_of("Touched files (`git diff --name-only ");
    extend_str(&mut header, diff.range.as_str());
    extend_str(&mut header, "`):");
    block.push(header);
    block.push(Vec::new());
    let mut k: usize = 0;
    while k < diff.files.len()
        invariant
            k <= diff.files.len(),
            fv == crate::store::path_views(diff.files@),
            block@.map_values(|v: Vec<char>| v@) == seq![
                Seq::<char>::empty(),
                "Touched files (`git diff --name-only "@ + diff.range@ + "`):"@,
                Seq::<char>::empty(),
            ] + fv.take(k as int).map_values(|f: Seq<char>| "- `"@ + f + "`"@),
        decreases diff.files.len() - k,
    {
        let ghost bb = block@.map_values(|v: Vec<char>| v@);
        let mut item = chars_of("- `");
        extend_str(&mut item, diff.files[k].as_str());
        extend_str(&mut item, "`");
        block.push(item);
        assert(fv[k as int] == diff.files@[k as int]@);
        assert(block@.map_values(|v: Vec<char>| v@) =~= bb.push("- `"@ + fv[k as int] + "`"@));
        assert(fv.take(k + 1).map_values(|f: Seq<char>| "- `"@ + f + "`"@) =~= fv.take(
            k as int,
        ).map_values(|f: Seq<char>| "- `"@ + f + "`"@).push("- `"@ + fv[k as int] + "`"@));
        k += 1;
    }
    assert(fv.take(diff.files.len() as int) == fv);
    let ghost bv = block@.map_values(|v: Vec<char>| v@);
    assert(bv == touched_block(diff.range@, fv));
    let mut out: Vec<Vec<char>> = Vec::new();
    let mut i: usize = 0;
    while i < ls.len()
        invariant
            i <= ls.len(),
            lv == ls@.map_values(|v: Vec<char>| v@),
            marker@ == ml,
            bv == block@.map_values(|v: Vec<char>| v@),
            bv == touched_block(diff.range@, fv),
            out@.map_values(|v: Vec<char>| v@) + with_touched(lv, ml, diff.range@, fv, i as int)
                == with_touched(lv, ml, diff.range@, fv, 0),
        decreases ls.len() - i,
    {
        let ghost before = out@.map_values(|v: Vec<char>| v@);
        assert(lv[i as int] == ls@[i as int]@);
        out.push(ls[i].clone());
        if crate::text::eq(&ls[i], &marker) {
            let mut j: usize = 0;
            while j < block.len()
                invariant
                    j <= block.len(),
                    i < lv.len(),
                    bv == block@.map_values(|v: Vec<char>| v@),
                    out@.map_values(|v: Vec<char>| v@) == before.push(lv[i as int]) + bv.take(
                        j as int,
                    ),
                decreases block.len() - j,
            {
                let ghost ob = out@.map_values(|v: Vec<char>| v@);
                out.push(block[j].clone());
                assert(out@.map_values(|v: Vec<char>| v@) =~= ob.push(bv[j as int]));
                assert(bv.take(j + 1) == bv.take(j as int).push(bv[j as int]));
                j += 1;
            }
            assert(bv.take(block.len() as int) == bv);
        }
        proof {
            let step = seq![lv[i as int]] + (if lv[i as int] == ml {
                touched_block(diff.range@, fv)
            } else {
                Seq::<Seq<char>>::empty()
            });
            assert(out@.map_values(|v: Vec<char>| v@) == before + step);
            assert(with_touched(lv, ml, diff.range@, fv, i as int) == step + with_touched(
                lv,
                ml,
                diff.range@,
                fv,
                i + 1,
            ));
        }
        i += 1;
    }
    assert(with_touched(lv, ml, diff.range@, fv, i as int) == Seq::<Seq<char>>::empty());
    assert(out@.map_values(|v: Vec<char>| v@) == with_touched(lv, ml, diff.range@, fv, 0));
    let mut text = crate::text::join_lines(&out);
    extend_str(&mut text, "\n");
    string_of(&text)
}


/// `contents` with `key` set to `value` in its frontmatter; unchanged when
/// it has no frontmatter block.
pub open spec fn field_or_same(contents: Seq<char>, key: Seq<char>, value: Seq<char>) -> Seq<char> {
    match with_field(contents, key, value) {
        Some(t) => t,
        None => contents,
    }
}

fn set_field_or_keep(contents: String, key: &str, value: &str) -> (r: String)
    ensures
        r@ == field_or_same(contents@, key@, value@),
{
    match apply_frontmatter_field(contents.as_str(), key, value) {
        Some(t) => t,
        None => contents,
    }
}

/// The views of a diff: its range and its files.
pub open spec fn diff_view(diff: Option<&DiffContext>) -> Option<(Seq<char>, Seq<Seq<char>>)> {
    match diff {
        Some(d) => Some((d.range@, path_views(d.files@))),
        None => None,
    }
}

/// What `brief` writes for `doc_type` from its `template`: the frontmatter
/// `type:`, `timestamp:` and `title:` filled, every judgment section
/// collapsed to its marker, the title heading numbered with its trail, and
/// the files a non-empty diff touched listed under the context slot.
pub open spec fn briefed(
    template: Seq<char>,
    doc_type: Seq<char>,
    frontmatter_type: Seq<char>,
    timestamp: Seq<char>,
    number: u32,
    title: Seq<char>,
    diff: Option<(Seq<char>, Seq<Seq<char>>)>,
) -> Seq<char> {
    let filled = field_or_same(
        field_or_same(template, "type"@, frontmatter_type),
        "timestamp"@,
        timestamp,
    );
    let named = field_or_same(filled, "title"@, formatted(title));
    let headed = titled(sections_replaced(named, slots(doc_type)), doc_type, number, title);
    match diff {
        Some((range, files)) => if files.len() > 0 {
            touched(headed, context_marker(doc_type), range, files)
        } else {
            headed
        },
        None => headed,
    }
}

/// The scaffold `brief` writes for a `doc_type` record.
pub fn brief_content(
    template: &str,
    doc_type: &str,
    frontmatter_type: &str,
    timestamp: &str,
    number: u32,
    title: &str,
    diff: Option<&DiffContext>,
) -> (r: String)
    ensures
        r@ == briefed(template@, doc_type@, frontmatter_type@, timestamp@, number, title@, diff_view(diff)),
{
    let typed = set_field_or_keep(template.to_string(), "type", frontmatter_type);
    let filled = set_field_or_keep(typed, "timestamp", timestamp);
    let named = set_field_or_keep(filled, "title", format_scalar(title).as_str());
    let slotted = replace_judgment_sections(named.as_str(), &slots_for(doc_type));
    let headed = fill_title_heading(slotted.as_str(), doc_type, number, title);
    match diff {
        Some(d) => {
            if d.files.len() > 0 {
                insert_touched_files(headed.as_str(), context_marker_for(doc_type), d)
            } else {
                headed
            }
        },
        None => headed,
    }
}

/// The number a record path's filename carries, zero for none.
pub open spec fn number_of(p: Seq<char>) -> nat {
    match numbered_value(file_name_or_empty(p)) {
        Some(n) => n as nat,
        None => 0,
    }
}

/// The largest number among `ps`, zero for none.
pub open spec fn max_number(ps: Seq<Seq<char>>) -> nat
    decreases ps.len(),
{
    if ps.len() == 0 {
        0
    } else {
        let m = max_number(ps.drop_last());
        let n = number_of(ps.last());
        if n > m {
            n
        } else {
            m
        }
    }
}

proof fn lemma_numbered_value_bound(name: Seq<char>)
    ensures
        numbered_value(name) matches Some(n) ==> n < 10000,
{
    if numbered_value(name) is Some {
        crate::record::lemma_digits_value_bound(name.take(4));
        assert(crate::record::pow10(4) == 10000) by {
            reveal_with_fuel(crate::record::pow10, 5);
        }
    }
}

/// The number the next record in `dir` takes: one past the largest number
/// any record there carries.
pub fn next_number(store: &MapStore, dir: &String) -> (r: u32)
    ensures
        r == max_number(store.listed(dir@)) + 1,
{
    let listed = store.list(dir);
    let ghost lv = store.listed(dir@);
    let mut best: u32 = 0;
    let mut i: usize = 0;
    while i < listed.len()
        invariant
            i <= listed.len(),
            path_views(listed@) == lv,
            best == max_number(lv.take(i as int)),
            best < 10000,
        decreases listed.len() - i,
    {
        let name = file_name_or_empty_exec(&chars_of(listed[i].as_str()));
        let n = match numbered_prefix(string_of(&name).as_str()) {
            Some(n) => n,
            None => 0,
        };
        proof {
            assert(listed@[i as int]@ == lv[i as int]);
            lemma_numbered_value_bound(name@);
            assert(lv.take(i + 1).drop_last() == lv.take(i as int));
        }
        if n > best {
            best = n;
        }
        i += 1;
    }
    assert(lv.take(listed.len() as int) == lv);
    best + 1
}

/// Where a brief of a `row` record titled `title` goes, and the number its
/// heading takes (zero when it has none).
pub open spec fn brief_target(store: MapStore, docs_dir: Seq<char>, row: TypeRow, title: Seq<char>) -> (
    Seq<char>,
    u32,
) {
    match row.identity {
        IdentityV::Numbered { dir } => {
            let d = join_path(docs_dir, dir);
            let n = (max_number(store.listed(d)) + 1) as u32;
            (join_path(d, crate::text::pad4(n as nat) + "-"@ + slug(title) + ".md"@), n)
        },
        IdentityV::Named { dir } => (join_path(join_path(docs_dir, dir), slug(title) + ".md"@), 0),
        IdentityV::Singleton { file } => (join_path(docs_dir, file), 0),
    }
}

/// What `brief` is owed before it writes: the target path and its
/// content, or why it refuses.
pub open spec fn brief_plan(
    store: MapStore,
    docs_dir: Seq<char>,
    doc_type: Seq<char>,
    title: Seq<char>,
    timestamp: Seq<char>,
    diff: Option<(Seq<char>, Seq<Seq<char>>)>,
) -> Result<(Seq<char>, Seq<char>), Seq<char>> {
    match row_for_token(doc_type) {
        None => Err(unsupported_message(doc_type)),
        Some(row) => {
            let (target, n) = brief_target(store, docs_dir, row, title);
            if store.get(target) is Some {
                Err(target + " already exists"@)
            } else {
                Ok((target, briefed(row.template, doc_type, row.frontmatter, timestamp, n, title, diff)))
            }
        },
    }
}

/// Resolves where a brief of a `spec` record titled `title` goes, and the
/// number its heading takes: a numbered type takes the next free number
/// and the slugified title, a named type the slug alone, a singleton its
/// fixed file with no number.
fn brief_target_for(store: &MapStore, docs_dir: &String, spec: &DocTypeSpec, title: &str) -> (r: (
    String,
    u32,
))
    ensures
        (r.0@, r.1) == brief_target(*store, docs_dir@, spec.view(), title@),
{
    let root = chars_of(docs_dir.as_str());
    let slug_text = chars_of_string(&slugify(title));
    let (target, number) = match spec.identity {
        Identity::Numbered { dir } => {
            let d = join_path_str(&root, dir);
            let n = next_number(store, &string_of(&d));
            let mut name = crate::text::pad4_exec(n as u64);
            extend_str(&mut name, "-");
            extend(&mut name, &slug_text);
            extend_str(&mut name, ".md");
            (join_path_exec(&d, &name), n)
        },
        Identity::Named { dir } => {
            let d = join_path_str(&root, dir);
            let mut name = slug_text;
            extend_str(&mut name, ".md");
            (join_path_exec(&d, &name), 0)
        },
        Identity::Singleton { file } => (join_path_str(&root, file), 0),
    };
    (string_of(&target), number)
}

/// Writes a pre-filled `doc_type` record titled `title` and returns where;
/// refuses an unknown type and a target that already holds a record.
pub fn scaffold_brief(
    store: &mut MapStore,
    docs_dir: &String,
    doc_type: &str,
    title: &str,
    timestamp: &str,
    diff: Option<&DiffContext>,
) -> (r: Result<String, String>)
    ensures
        r matches Err(m) ==> brief_plan(*old(store), docs_dir@, doc_type@, title@, timestamp@, diff_view(diff))
            == Err::<(Seq<char>, Seq<char>), Seq<char>>(m@) && *final(store) == *old(store),
        r matches Ok(p) ==> (brief_plan(*old(store), docs_dir@, doc_type@, title@, timestamp@, diff_view(diff))
            matches Ok((t, c)) && p@ == t && forall|q: Seq<char>| #[trigger]
            final(store).get(q) == if q == t {
            Some(c)
        } else {
            old(store).get(q)
        }),
        brief_plan(*old(store), docs_dir@, doc_type@, title@, timestamp@, diff_view(diff)) is Ok
            ==> r is Ok,
{
    let spec = match spec_for(doc_type) {
        Some(s) => s,
        None => {
            let mut m = chars_of("unsupported type '");
            extend_str(&mut m, doc_type);
            extend_str(&mut m, "' — run with a registered type token");
            return Err(string_of(&m));
        },
    };
    let (target, number) = brief_target_for(store, docs_dir, &spec, title);
    if store.read(&target).is_some() {
        let mut m = chars_of_string(&target);
        extend_str(&mut m, " already exists");
        return Err(string_of(&m));
    }
    let content = brief_content(spec.template, doc_type, spec.frontmatter, timestamp, number, title, diff);
    store.write(&target, &content);
    Ok(target)
}


/// Every slot heading of `slots` opens with `#`, so neither a blank line
/// nor a marker line is ever taken for one.
pub open spec fn headings_are_headings(slots: Seq<(Seq<char>, Seq<char>)>) -> bool {
    forall|k: int| 0 <= k < slots.len() ==> has_prefix(#[trigger] slots[k].0, "#"@)
}

proof fn lemma_marker_in_heading(slots: Seq<(Seq<char>, Seq<char>)>, line: Seq<char>, i: int)
    requires
        headings_are_headings(slots),
        0 <= i,
    ensures
        marker_in(slots, line, i) is Some ==> has_prefix(line, "#"@),
    decreases slots.len() - i,
{
    if i < slots.len() && slots[i].0 != line {
        lemma_marker_in_heading(slots, line, i + 1);
    }
}

proof fn lemma_marker_line_not_heading(m: Seq<char>)
    ensures
        !has_prefix(marker_line(m), "#"@),
        !has_prefix(Seq::<char>::empty(), "#"@),
{
    reveal_strlit("<!-- judgment: ");
    reveal_strlit("#");
    assert(marker_line(m)[0] == '<');
    assert("#"@ =~= seq!['#']);
    if has_prefix(marker_line(m), "#"@) {
        assert(marker_line(m).subrange(0, 1)[0] == marker_line(m)[0]);
        assert("#"@[0] == '#');
    }
}

/// In collapsed lines, every slot heading is followed by a blank line and
/// exactly its marker: the marker an author looks for sits where the
/// heading says.
pub open spec fn markers_follow_headings(xs: Seq<Seq<char>>, slots: Seq<(Seq<char>, Seq<char>)>) -> bool {
    forall|k: int|
        0 <= k < xs.len() && #[trigger] marker_in(slots, xs[k], 0) is Some ==> k + 2 < xs.len()
            && xs[k + 1] == Seq::<char>::empty() && xs[k + 2] == marker_line(
            marker_in(slots, xs[k], 0)->Some_0,
        )
}

proof fn lemma_collapsed_markers(ls: Seq<Seq<char>>, slots: Seq<(Seq<char>, Seq<char>)>, i: int)
    requires
        headings_are_headings(slots),
        0 <= i,
    ensures
        markers_follow_headings(collapsed(ls, slots, i), slots),
    decreases ls.len() - i,
{
    if i < ls.len() {
        let xs = collapsed(ls, slots, i);
        match marker_in(slots, ls[i], 0) {
            None => {
                let rest = collapsed(ls, slots, i + 1);
                lemma_collapsed_markers(ls, slots, i + 1);
                assert(xs == seq![ls[i]] + rest);
                assert forall|k: int|
                    0 <= k < xs.len() && #[trigger] marker_in(slots, xs[k], 0) is Some implies k
                    + 2 < xs.len() && xs[k + 1] == Seq::<char>::empty() && xs[k + 2]
                    == marker_line(marker_in(slots, xs[k], 0)->Some_0) by {
                    if k > 0 {
                        assert(xs[k] == rest[k - 1]);
                        assert(marker_in(slots, rest[k - 1], 0) is Some);
                        assert(xs[k + 1] == rest[k]);
                        assert(xs[k + 2] == rest[k + 1]);
                    }
                }
            },
            Some(m) => {
                let j = next_heading(ls, i + 1);
                lemma_next_heading_bounds(ls, i + 1);
                let rest = collapsed(ls, slots, j);
                lemma_collapsed_markers(ls, slots, j);
                let e = if j < ls.len() {
                    seq![Seq::<char>::empty()]
                } else {
                    Seq::<Seq<char>>::empty()
                };
                let head = seq![ls[i], Seq::<char>::empty(), marker_line(m)] + e;
                assert(xs == head + rest);
                lemma_marker_line_not_heading(m);
                assert forall|k: int|
                    0 <= k < xs.len() && #[trigger] marker_in(slots, xs[k], 0) is Some implies k
                    + 2 < xs.len() && xs[k + 1] == Seq::<char>::empty() && xs[k + 2]
                    == marker_line(marker_in(slots, xs[k], 0)->Some_0) by {
                    if k == 0 {
                        assert(xs[0] == ls[i]);
                    } else if k < head.len() {
                        assert(xs[k] == head[k]);
                        lemma_marker_in_heading(slots, xs[k], 0);
                    } else {
                        assert(xs[k] == rest[k - head.len()]);
                        assert(xs[k + 1] == rest[k + 1 - head.len()]);
                        assert(xs[k + 2] == rest[k + 2 - head.len()]);
                    }
                }
            },
        }
    }
}

/// The scaffold's judgment sections: in the lines `replace_judgment_sections`
/// produces, every slot heading is followed by a blank line and exactly
/// its `<!-- judgment: <name> -->` marker.
pub proof fn lemma_every_slot_collapses_to_its_marker(content: Seq<char>, doc_type: Seq<char>)
    ensures
        markers_follow_headings(collapsed(lines(content), slots(doc_type), 0), slots(doc_type)),
{
    reveal_strlit("#");
    reveal_strlit("## Context");
    reveal_strlit("## Decision");
    reveal_strlit("## Consequences");
    reveal_strlit("# References");
    reveal_strlit("## Textual Description");
    reveal_strlit("## Scenarios");
    reveal_strlit("## Related");
    reveal_strlit("## Problem / Motivation");
    reveal_strlit("## Goals");
    reveal_strlit("## Non-goals");
    reveal_strlit("## Requirements");
    reveal_strlit("## Acceptance criteria");
    reveal_strlit("## Success metrics");
    reveal_strlit("## Behavior (BDRs)");
    reveal_strlit("## Open questions");
    reveal_strlit("## Decision log");
    reveal_strlit("## <Issue title>");
    reveal_strlit("### Scope");
    reveal_strlit("### Acceptance");
    reveal_strlit("### Plan");
    reveal_strlit("## Question");
    reveal_strlit("## Method");
    reveal_strlit("## Implications");
    reveal_strlit("## Open Questions");
    reveal_strlit("## Product");
    reveal_strlit("## Scope Boundaries");
    reveal_strlit("## Non-negotiables");
    let s = slots(doc_type);
    assert("#"@ =~= seq!['#']);
    assert forall|k: int| 0 <= k < s.len() implies has_prefix(#[trigger] s[k].0, "#"@) by {
        assert(s[k].0.len() > 0 && s[k].0[0] == '#');
        assert(s[k].0.take(1) =~= seq![s[k].0[0]]);
    }
    lemma_collapsed_markers(lines(content), s, 0);
}

} // verus!
