//! `living-docs why <path>`: inverts the `**Implementation impact:**` lists
//! so "which records govern this file" is answered by query rather than by a
//! citation rotting in a code comment. A query path is matched against each
//! impact entry as exact, directory prefix or glob, ranked most specific
//! first, over the records in force (stale proposals left out unless asked
//! for).

use crate::check::impact::{annotated_removed, impact_segment, impact_text, removed_after};
use crate::check::links::lemma_find_char_in_range;
use crate::check::liveness::{is_stale_proposed, stale_proposed};
use crate::check::records::reserved;
use crate::commands::effective::in_force;
use crate::path::{file_name_or_empty, file_name_or_empty_exec};
use crate::pattern::{escaped, regex_escape, regex_found, regex_is_match};
use crate::record::{extract_record, extracted, opt_view, RecordV};
use crate::store::{path_views, MapStore};
use crate::text::{
    chars_of, chars_of_string, contains, eq, eq_ignore_case_str, eq_str, extend, extend_str,
    find_char_from, find_char_from_exec, has_char, has_prefix, join, lines, pad4_signed, slice,
    starts_with, string_of, trim, trim_end, trim_exec,
};
use vstd::prelude::*;

verus! {

/// The query: the paths asked about (one, or the files a diff range
/// touched, resolved by the command-line front) and whether stale records
/// are included.
pub struct Query {
    pub paths: Vec<String>,
    pub include_stale: bool,
}

/// A record that governs a queried path.
pub struct Match {
    pub doc_type: String,
    pub number: Option<i32>,
    pub title: String,
    pub status: String,
    pub criteria: Vec<String>,
    pub specificity: u8,
}

/// The mathematical form of a [`Match`].
pub struct MatchV {
    pub doc_type: Seq<char>,
    pub number: Option<int>,
    pub title: Seq<char>,
    pub status: Seq<char>,
    pub criteria: Seq<Seq<char>>,
    pub specificity: int,
}

impl Match {
    pub open spec fn view(&self) -> MatchV {
        MatchV {
            doc_type: self.doc_type@,
            number: match self.number {
                Some(n) => Some(n as int),
                None => None,
            },
            title: self.title@,
            status: self.status@,
            criteria: path_views(self.criteria@),
            specificity: self.specificity as int,
        }
    }
}

pub open spec fn matches_view(v: Seq<Match>) -> Seq<MatchV> {
    v.map_values(|m: Match| m.view())
}

// ---------------------------------------------------------------------
// Globs
// ---------------------------------------------------------------------

/// The regular expression body of `glob` from index `i`: `**` crosses
/// directories, `*` stays within one, everything else is literal.
pub open spec fn glob_body(glob: Seq<char>, i: int) -> Seq<char>
    decreases glob.len() - i,
{
    if i < 0 || i >= glob.len() {
        Seq::empty()
    } else if glob[i] == '*' {
        if i + 1 < glob.len() && glob[i + 1] == '*' {
            ".*"@ + glob_body(glob, i + 2)
        } else {
            "[^/]*"@ + glob_body(glob, i + 1)
        }
    } else {
        escaped(seq![glob[i]]) + glob_body(glob, i + 1)
    }
}

/// The anchored regular expression a glob stands for.
pub open spec fn glob_regex(glob: Seq<char>) -> Seq<char> {
    "^"@ + glob_body(glob, 0) + "$"@
}

/// The anchored regular expression `glob` stands for.
pub fn glob_to_regex(glob: &str) -> (r: String)
    ensures
        r@ == glob_regex(glob@),
{
    let g = chars_of(glob);
    let mut re = chars_of("^");
    let mut i: usize = 0;
    while i < g.len()
        invariant
            i <= g.len() + 1,
            g@ == glob@,
            re@ + glob_body(glob@, i as int) == "^"@ + glob_body(glob@, 0),
        decreases g.len() + 1 - i,
    {
        let ghost before = re@;
        if g[i] == '*' {
            if i + 1 < g.len() && g[i + 1] == '*' {
                extend_str(&mut re, ".*");
                assert(before + glob_body(glob@, i as int) == re@ + glob_body(glob@, i + 2));
                i += 2;
            } else {
                extend_str(&mut re, "[^/]*");
                assert(before + glob_body(glob@, i as int) == re@ + glob_body(glob@, i + 1));
                i += 1;
            }
        } else {
            let one = string_of(&vec![g[i]]);
            assert(one@ == seq![g@[i as int]]);
            extend_str(&mut re, regex_escape(one.as_str()).as_str());
            assert(before + glob_body(glob@, i as int) == re@ + glob_body(glob@, i + 1));
            i += 1;
        }
    }
    assert(glob_body(glob@, i as int) == Seq::<char>::empty());
    extend_str(&mut re, "$");
    string_of(&re)
}

/// Whether `path` matches `glob`.
pub fn glob_matches(glob: &str, path: &str) -> (r: bool)
    ensures
        r == regex_found(glob_regex(glob@), path@),
{
    let re = glob_to_regex(glob);
    regex_is_match(re.as_str(), path)
}

// ---------------------------------------------------------------------
// Matching
// ---------------------------------------------------------------------

/// `s` with every trailing `/` removed (`trim_end_matches('/')`).
pub open spec fn without_trailing_slashes(s: Seq<char>) -> Seq<char>
    decreases s.len(),
{
    if s.len() > 0 && s.last() == '/' {
        without_trailing_slashes(s.drop_last())
    } else {
        s
    }
}

/// How specifically an impact entry names `path`: exactly (0), as a
/// directory above it (1), or by a glob (2); `None` when it does not.
pub open spec fn specificity(entry: Seq<char>, path: Seq<char>) -> Option<int> {
    if entry.contains('*') {
        if regex_found(glob_regex(entry), path) {
            Some(2)
        } else {
            None
        }
    } else {
        let e = without_trailing_slashes(entry);
        if e == path {
            Some(0)
        } else if has_prefix(path, e + "/"@) {
            Some(1)
        } else {
            None
        }
    }
}

fn trim_trailing_slashes(s: &Vec<char>) -> (r: Vec<char>)
    ensures
        r@ == without_trailing_slashes(s@),
{
    let mut k = s.len();
    assert(s@.take(k as int) == s@);
    while k > 0 && s[k - 1] == '/'
        invariant
            k <= s.len(),
            without_trailing_slashes(s@) == without_trailing_slashes(s@.take(k as int)),
        decreases k,
    {
        assert(s@.take(k as int).drop_last() == s@.take(k - 1));
        k -= 1;
    }
    let r = slice(s, 0, k);
    assert(r@ == s@.take(k as int));
    r
}

/// How specifically `entry` names `path`.
pub fn match_specificity(entry: &str, path: &str) -> (r: Option<u8>)
    ensures
        r matches Some(n) ==> specificity(entry@, path@) == Some(n as int),
        r is None ==> specificity(entry@, path@) is None,
{
    let e = chars_of(entry);
    if has_char(&e, '*') {
        return if glob_matches(entry, path) {
            Some(2)
        } else {
            None
        };
    }
    let t = trim_trailing_slashes(&e);
    let p = chars_of(path);
    if eq(&t, &p) {
        return Some(0);
    }
    let mut dir = t;
    extend_str(&mut dir, "/");
    if starts_with(&p, &dir) {
        Some(1)
    } else {
        None
    }
}

/// The smaller of two optional specificities.
pub open spec fn min_opt(a: Option<int>, b: Option<int>) -> Option<int> {
    match (a, b) {
        (None, _) => b,
        (_, None) => a,
        (Some(x), Some(y)) => Some(
            if x <= y {
                x
            } else {
                y
            },
        ),
    }
}

/// The most specific match of `entry` against any of `paths`.
pub open spec fn best_for_entry(entry: Seq<char>, paths: Seq<Seq<char>>) -> Option<int>
    decreases paths.len(),
{
    if paths.len() == 0 {
        None
    } else {
        min_opt(best_for_entry(entry, paths.drop_last()), specificity(entry, paths.last()))
    }
}

/// The most specific match of any of `entries` against any of `paths`.
pub open spec fn best(entries: Seq<Seq<char>>, paths: Seq<Seq<char>>) -> Option<int>
    decreases entries.len(),
{
    if entries.len() == 0 {
        None
    } else {
        min_opt(best(entries.drop_last(), paths), best_for_entry(entries.last(), paths))
    }
}

fn min_u8(a: Option<u8>, b: Option<u8>) -> (r: Option<u8>)
    ensures
        match r {
            Some(x) => min_opt(
                match a {
                    Some(y) => Some(y as int),
                    None => None,
                },
                match b {
                    Some(y) => Some(y as int),
                    None => None,
                },
            ) == Some(x as int),
            None => min_opt(
                match a {
                    Some(y) => Some(y as int),
                    None => None,
                },
                match b {
                    Some(y) => Some(y as int),
                    None => None,
                },
            ) is None,
        },
{
    match (a, b) {
        (None, _) => b,
        (_, None) => a,
        (Some(x), Some(y)) => Some(
            if x <= y {
                x
            } else {
                y
            },
        ),
    }
}

pub open spec fn opt_int(o: Option<u8>) -> Option<int> {
    match o {
        Some(y) => Some(y as int),
        None => None,
    }
}

/// The most specific match of any entry against any query path.
pub fn best_specificity(entries: &Vec<String>, paths: &Vec<String>) -> (r: Option<u8>)
    ensures
        opt_int(r) == best(path_views(entries@), path_views(paths@)),
{
    let ghost ev = path_views(entries@);
    let ghost pv = path_views(paths@);
    let mut acc: Option<u8> = None;
    let mut i: usize = 0;
    while i < entries.len()
        invariant
            i <= entries.len(),
            ev == path_views(entries@),
            pv == path_views(paths@),
            opt_int(acc) == best(ev.take(i as int), pv),
        decreases entries.len() - i,
    {
        let mut inner: Option<u8> = None;
        let mut j: usize = 0;
        while j < paths.len()
            invariant
                j <= paths.len(),
                i < entries.len(),
                ev == path_views(entries@),
                pv == path_views(paths@),
                opt_int(inner) == best_for_entry(ev[i as int], pv.take(j as int)),
            decreases paths.len() - j,
        {
            let s = match_specificity(entries[i].as_str(), paths[j].as_str());
            proof {
                assert(pv.take(j + 1).drop_last() == pv.take(j as int));
                assert(pv.take(j + 1).last() == paths@[j as int]@);
                assert(ev[i as int] == entries@[i as int]@);
            }
            inner = min_u8(inner, s);
            j += 1;
        }
        assert(pv.take(paths.len() as int) == pv);
        proof {
            assert(ev.take(i + 1).drop_last() == ev.take(i as int));
            assert(ev.take(i + 1).last() == ev[i as int]);
        }
        acc = min_u8(acc, inner);
        i += 1;
    }
    assert(ev.take(entries.len() as int) == ev);
    acc
}

/// A backtick token shaped like an impact entry: it names a path (a `/`)
/// or a glob (a `*`).
pub open spec fn entry_shaped(token: Seq<char>) -> bool {
    token.contains('/') || token.contains('*')
}

/// The entry-shaped backtick tokens of `segment` from `k` on that are not
/// annotated as removed.
pub open spec fn entries_from(segment: Seq<char>, k: int) -> Seq<Seq<char>>
    decreases segment.len() + 1 - k,
{
    if k < 0 || k > segment.len() {
        Seq::<Seq<char>>::empty()
    } else {
        match find_char_from(segment, '`', k) {
            None => Seq::<Seq<char>>::empty(),
            Some(o) => match find_char_from(segment, '`', o + 1) {
                None => Seq::<Seq<char>>::empty(),
                Some(c) => {
                    proof {
                        lemma_find_char_in_range(segment, '`', k);
                        lemma_find_char_in_range(segment, '`', o + 1);
                    }
                    let tok = segment.subrange(o + 1, c);
                    (if entry_shaped(tok) && !removed_after(segment, c + 1) {
                        seq![tok]
                    } else {
                        Seq::<Seq<char>>::empty()
                    }) + entries_from(segment, c + 1)
                },
            },
        }
    }
}

/// The impact entries of a record body.
pub open spec fn entries_of(body: Seq<char>) -> Seq<Seq<char>> {
    entries_from(impact_text(body), 0)
}

/// The path and glob entries of a record body's impact block, in order.
pub fn path_entries(body: &str) -> (r: Vec<String>)
    ensures
        path_views(r@) == entries_of(body@),
{
    let segment = impact_segment(body);
    let s = chars_of_string(&segment);
    let mut out: Vec<String> = Vec::new();
    let mut k: usize = 0;
    while k <= s.len()
        invariant
            k <= s.len() + 1,
            s@ == segment@,
            entries_from(segment@, 0) == path_views(out@) + entries_from(segment@, k as int),
        ensures
            entries_from(segment@, 0) == path_views(out@),
        decreases s.len() + 1 - k,
    {
        let ghost before = path_views(out@);
        let o = match find_char_from_exec(&s, '`', k) {
            None => {
                assert(before + entries_from(segment@, k as int) =~= before);
                break;
            },
            Some(o) => o,
        };
        proof {
            lemma_find_char_in_range(s@, '`', k as int);
        }
        let c = match find_char_from_exec(&s, '`', o + 1) {
            None => {
                assert(before + entries_from(segment@, k as int) =~= before);
                break;
            },
            Some(c) => c,
        };
        proof {
            lemma_find_char_in_range(s@, '`', o + 1);
        }
        let tok = slice(&s, o + 1, c);
        let keep = (has_char(&tok, '/') || has_char(&tok, '*')) && !annotated_removed(&s, c + 1);
        if keep {
            out.push(string_of(&tok));
        }
        assert(entries_from(segment@, k as int) == (if keep {
            seq![segment@.subrange(o + 1, c as int)]
        } else {
            Seq::<Seq<char>>::empty()
        }) + entries_from(segment@, c + 1));
        assert(before + entries_from(segment@, k as int) =~= path_views(out@) + entries_from(
            segment@,
            c + 1,
        ));
        k = c + 1;
        if k > s.len() {
            assert(path_views(out@) + entries_from(segment@, k as int) =~= path_views(out@));
            break;
        }
    }
    out
}

// ---------------------------------------------------------------------
// Verification criteria
// ---------------------------------------------------------------------

/// After reading lines `ls`: inside the criteria block, stopped, and the
/// items kept.
pub open spec fn criteria_state(ls: Seq<Seq<char>>) -> (bool, bool, Seq<Seq<char>>)
    decreases ls.len(),
{
    if ls.len() == 0 {
        (false, false, Seq::<Seq<char>>::empty())
    } else {
        let (inside, stopped, kept) = criteria_state(ls.drop_last());
        let l = ls.last();
        let t = trim(l);
        if stopped {
            (inside, stopped, kept)
        } else if contains(l, "**Verification criteria:"@) {
            (true, false, kept)
        } else if !inside {
            (inside, stopped, kept)
        } else if has_prefix(t, "- "@) {
            (inside, stopped, kept.push(t.skip(2)))
        } else if t.len() == 0 || has_prefix(t, "**"@) || has_prefix(t, "#"@) {
            (inside, true, kept)
        } else {
            (inside, stopped, kept)
        }
    }
}

/// The record's `**Verification criteria:**` bullet items, in order, up to
/// the next bold label, heading or blank line.
pub open spec fn criteria_of(contents: Seq<char>) -> Seq<Seq<char>> {
    criteria_state(lines(contents)).2
}

proof fn lemma_criteria_stopped(ls: Seq<Seq<char>>, k: int)
    requires
        0 <= k <= ls.len(),
        criteria_state(ls.take(k)).1,
    ensures
        criteria_state(ls) == criteria_state(ls.take(k)),
    decreases ls.len() - k,
{
    if k < ls.len() {
        assert(ls.take(k + 1).drop_last() == ls.take(k));
        lemma_criteria_stopped(ls, k + 1);
    } else {
        assert(ls.take(k) == ls);
    }
}

/// The verification criteria of a record's text.
pub fn verification_criteria(contents: &str) -> (r: Vec<String>)
    ensures
        path_views(r@) == criteria_of(contents@),
{
    let ls = crate::text::lines_of(contents);
    let ghost lv = ls@.map_values(|v: Vec<char>| v@);
    let mut out: Vec<String> = Vec::new();
    let mut inside = false;
    let mut i: usize = 0;
    while i < ls.len()
        invariant
            i <= ls.len(),
            lv == ls@.map_values(|v: Vec<char>| v@),
            lv == lines(contents@),
            criteria_state(lv.take(i as int)) == (inside, false, path_views(out@)),
        decreases ls.len() - i,
    {
        proof {
            assert(lv.take(i + 1).drop_last() == lv.take(i as int));
            assert(lv.take(i + 1).last() == ls@[i as int]@);
        }
        let l = &ls[i];
        if crate::text::contains_str(l, "**Verification criteria:") {
            inside = true;
            i += 1;
            continue;
        }
        if !inside {
            i += 1;
            continue;
        }
        let t = trim_exec(l);
        if crate::text::starts_with_str(&t, "- ") {
            proof {
                reveal_strlit("- ");
            }
            let ghost before = path_views(out@);
            out.push(string_of(&slice(&t, 2, t.len())));
            assert(path_views(out@) =~= before.push(t@.skip(2)));
            i += 1;
        } else if t.len() == 0 || crate::text::starts_with_str(&t, "**")
            || crate::text::starts_with_str(&t, "#") {
            proof {
                assert(criteria_state(lv.take(i + 1)) == (inside, true, path_views(out@)));
                lemma_criteria_stopped(lv, i + 1);
            }
            return out;
        } else {
            i += 1;
        }
    }
    assert(lv.take(ls.len() as int) == lv);
    out
}

// ---------------------------------------------------------------------
// Selection, ranking, rendering
// ---------------------------------------------------------------------

/// The match a record at `p` holding `contents` makes for `paths`, if any:
/// a typed record in force whose impact entries name one of the paths.
pub open spec fn match_of(p: Seq<char>, contents: Seq<char>, paths: Seq<Seq<char>>) -> Option<MatchV> {
    let r = extracted(p, contents);
    if r.doc_type.len() == 0 || !in_force(r) {
        None
    } else {
        match best(entries_of(r.body), paths) {
            None => None,
            Some(s) => Some(
                MatchV {
                    doc_type: r.doc_type,
                    number: r.number,
                    title: r.title,
                    status: match r.status {
                        Some(x) => x,
                        None => Seq::empty(),
                    },
                    criteria: criteria_of(contents),
                    specificity: s,
                },
            ),
        }
    }
}

/// The match the record stored at `p` makes.
pub fn match_for(store: &MapStore, path: &String, query_paths: &Vec<String>) -> (r: Option<Match>)
    ensures
        r matches Some(m) ==> (store.get(path@) matches Some(c) && match_of(
            path@,
            c,
            path_views(query_paths@),
        ) == Some(m.view())),
        r is None ==> (store.get(path@) matches Some(c) ==> match_of(
            path@,
            c,
            path_views(query_paths@),
        ) is None),
{
    let contents = match store.read(path) {
        Some(c) => c,
        None => return None,
    };
    let record = extract_record(path.as_str(), contents.as_str());
    if chars_of_string(&record.doc_type).len() == 0 {
        return None;
    }
    let live = match &record.status {
        Some(s) => {
            let c = chars_of_string(s);
            !(eq_ignore_case_str(&c, "superseded") || eq_ignore_case_str(&c, "deprecated"))
        },
        None => true,
    };
    if !live {
        return None;
    }
    let entries = path_entries(record.body.as_str());
    let s = match best_specificity(&entries, query_paths) {
        Some(s) => s,
        None => return None,
    };
    let status = match &record.status {
        Some(x) => x.clone(),
        None => String::new(),
    };
    Some(
        Match {
            doc_type: record.doc_type,
            number: record.number,
            title: record.title,
            status,
            criteria: verification_criteria(contents.as_str()),
            specificity: s,
        },
    )
}

/// The rank of a type among matches of equal specificity.
pub open spec fn type_order(doc_type: Seq<char>) -> int {
    if doc_type == "PRD"@ {
        0
    } else if doc_type == "ADR"@ {
        1
    } else if doc_type == "BDR"@ {
        2
    } else {
        3
    }
}

/// Whether `a` ranks no later than `b`: most specific first, then PRD,
/// ADR, BDR, the rest, then by number (none last).
pub open spec fn match_le(a: MatchV, b: MatchV) -> bool {
    let na = match a.number {
        Some(n) => n,
        None => i32::MAX as int,
    };
    let nb = match b.number {
        Some(n) => n,
        None => i32::MAX as int,
    };
    a.specificity < b.specificity || (a.specificity == b.specificity && (type_order(a.doc_type)
        < type_order(b.doc_type) || (type_order(a.doc_type) == type_order(b.doc_type) && na
        <= nb)))
}

/// Where a stable insertion puts `m` among the sorted `s`, from `i` on.
pub open spec fn match_insert_at(s: Seq<MatchV>, m: MatchV, i: int) -> int
    decreases s.len() - i,
{
    if i < 0 || i >= s.len() {
        s.len() as int
    } else if match_le(s[i], m) {
        match_insert_at(s, m, i + 1)
    } else {
        i
    }
}

/// `ms` stably sorted by rank.
pub open spec fn ranked_matches(ms: Seq<MatchV>) -> Seq<MatchV>
    decreases ms.len(),
{
    if ms.len() == 0 {
        Seq::empty()
    } else {
        let s = ranked_matches(ms.drop_last());
        s.insert(match_insert_at(s, ms.last(), 0), ms.last())
    }
}

proof fn lemma_match_insert_at_bound(s: Seq<MatchV>, m: MatchV, i: int)
    requires
        0 <= i <= s.len(),
    ensures
        i <= match_insert_at(s, m, i) <= s.len(),
    decreases s.len() - i,
{
    if i < s.len() && match_le(s[i], m) {
        lemma_match_insert_at_bound(s, m, i + 1);
    }
}

fn order_of(doc_type: &String) -> (r: u8)
    ensures
        r as int == type_order(doc_type@),
{
    let d = chars_of_string(doc_type);
    if eq_str(&d, "PRD") {
        0
    } else if eq_str(&d, "ADR") {
        1
    } else if eq_str(&d, "BDR") {
        2
    } else {
        3
    }
}

fn le(a: &Match, b: &Match) -> (r: bool)
    ensures
        r == match_le(a.view(), b.view()),
{
    let ta = order_of(&a.doc_type);
    let tb = order_of(&b.doc_type);
    let na: i32 = match a.number {
        Some(n) => n,
        None => i32::MAX,
    };
    let nb: i32 = match b.number {
        Some(n) => n,
        None => i32::MAX,
    };
    a.specificity < b.specificity || (a.specificity == b.specificity && (ta < tb || (ta == tb
        && na <= nb)))
}

fn insert_match(sorted: &mut Vec<Match>, m: Match)
    ensures
        matches_view(final(sorted)@) == matches_view(old(sorted)@).insert(
            match_insert_at(matches_view(old(sorted)@), m.view(), 0),
            m.view(),
        ),
{
    let ghost sv = matches_view(sorted@);
    let mut i: usize = 0;
    while i < sorted.len() && le(&sorted[i], &m)
        invariant
            i <= sorted.len(),
            sv == matches_view(sorted@),
            match_insert_at(sv, m.view(), 0) == match_insert_at(sv, m.view(), i as int),
        decreases sorted.len() - i,
    {
        assert(sv[i as int] == sorted@[i as int].view());
        i += 1;
    }
    if i < sorted.len() {
        assert(sv[i as int] == sorted@[i as int].view());
    }
    let ghost mv = m.view();
    sorted.insert(i, m);
    assert(matches_view(sorted@) =~= sv.insert(i as int, mv));
}

/// The label of a match: its type, and its number when it has one.
pub open spec fn match_label(m: MatchV) -> Seq<char> {
    match m.number {
        Some(n) => m.doc_type + " "@ + pad4_signed(n),
        None => m.doc_type,
    }
}

/// The criteria lines under a match.
pub open spec fn criteria_lines(cs: Seq<Seq<char>>) -> Seq<char>
    decreases cs.len(),
{
    if cs.len() == 0 {
        Seq::empty()
    } else {
        criteria_lines(cs.drop_last()) + "\n    - "@ + cs.last()
    }
}

/// The block a match renders to.
pub open spec fn match_block(m: MatchV) -> Seq<char> {
    "["@ + match_label(m) + "] "@ + m.title + " ("@ + m.status + ")"@ + criteria_lines(m.criteria)
}

/// What `why` prints for the ranked matches: one block each, nothing when
/// there is none.
pub open spec fn why_text(ms: Seq<MatchV>) -> Seq<char> {
    if ms.len() == 0 {
        Seq::empty()
    } else {
        join(ms.map_values(|m: MatchV| match_block(m)), "\n"@) + "\n"@
    }
}

fn render_match(m: &Match) -> (r: Vec<char>)
    ensures
        r@ == match_block(m.view()),
{
    let mut b = chars_of("[");
    extend_str(&mut b, m.doc_type.as_str());
    match m.number {
        Some(n) => {
            extend_str(&mut b, " ");
            extend(&mut b, &crate::text::pad4_signed_exec(n));
        },
        None => {},
    }
    extend_str(&mut b, "] ");
    extend_str(&mut b, m.title.as_str());
    extend_str(&mut b, " (");
    extend_str(&mut b, m.status.as_str());
    extend_str(&mut b, ")");
    let ghost head = b@;
    let ghost cv = path_views(m.criteria@);
    let mut i: usize = 0;
    while i < m.criteria.len()
        invariant
            i <= m.criteria.len(),
            cv == path_views(m.criteria@),
            b@ == head + criteria_lines(cv.take(i as int)),
        decreases m.criteria.len() - i,
    {
        extend_str(&mut b, "\n    - ");
        extend_str(&mut b, m.criteria[i].as_str());
        assert(cv.take(i + 1).drop_last() == cv.take(i as int));
        assert(cv.take(i + 1).last() == m.criteria@[i as int]@);
        i += 1;
    }
    assert(cv.take(m.criteria.len() as int) == cv);
    b
}

fn render(matches: &Vec<Match>) -> (r: String)
    ensures
        r@ == why_text(matches_view(matches@)),
{
    if matches.len() == 0 {
        return String::new();
    }
    let ghost mv = matches_view(matches@);
    let ghost f = |m: MatchV| match_block(m);
    let mut blocks: Vec<Vec<char>> = Vec::new();
    let mut i: usize = 0;
    while i < matches.len()
        invariant
            i <= matches.len(),
            mv == matches_view(matches@),
            f == (|m: MatchV| match_block(m)),
            blocks@.map_values(|b: Vec<char>| b@) == mv.take(i as int).map_values(f),
        decreases matches.len() - i,
    {
        blocks.push(render_match(&matches[i]));
        assert(mv[i as int] == matches@[i as int].view());
        assert(mv.take(i + 1).map_values(f) =~= mv.take(i as int).map_values(f).push(
            f(mv[i as int]),
        ));
        i += 1;
    }
    assert(mv.take(matches.len() as int) == mv);
    let mut out = crate::text::join_exec(&blocks, &chars_of("\n"));
    extend_str(&mut out, "\n");
    string_of(&out)
}

/// The matches of the records `ps` in order, leaving out reserved files,
/// stale proposals unless they are asked for, and records that match
/// nothing.
pub open spec fn matches_in(
    store: MapStore,
    bundle: Seq<char>,
    all: Seq<Seq<char>>,
    ps: Seq<Seq<char>>,
    paths: Seq<Seq<char>>,
    include_stale: bool,
) -> Seq<MatchV>
    decreases ps.len(),
{
    if ps.len() == 0 {
        Seq::empty()
    } else {
        let rest = matches_in(store, bundle, all, ps.drop_last(), paths, include_stale);
        let p = ps.last();
        if reserved(file_name_or_empty(p)) || (!include_stale && stale_proposed(store, p, bundle, all)) {
            rest
        } else {
            match store.get(p) {
                None => rest,
                Some(c) => match match_of(p, c, paths) {
                    None => rest,
                    Some(m) => rest.push(m),
                },
            }
        }
    }
}

/// What `why` answers for the records under `bundle`.
pub open spec fn why_answer(store: MapStore, bundle: Seq<char>, paths: Seq<Seq<char>>, include_stale: bool) -> Seq<char> {
    let all = store.listed(bundle);
    why_text(ranked_matches(matches_in(store, bundle, all, all, paths, include_stale)))
}

/// The records that govern the queried paths, ranked, with their
/// verification criteria; empty when nothing matches.
pub fn compile(store: &MapStore, bundle: &String, query: &Query) -> (r: String)
    ensures
        r@ == why_answer(*store, bundle@, path_views(query.paths@), query.include_stale),
{
    let all_md = store.list(bundle);
    let ghost all = path_views(all_md@);
    let ghost pv = path_views(query.paths@);
    let mut sorted: Vec<Match> = Vec::new();
    let mut i: usize = 0;
    while i < all_md.len()
        invariant
            i <= all_md.len(),
            all == path_views(all_md@),
            all == store.listed(bundle@),
            pv == path_views(query.paths@),
            matches_view(sorted@) == ranked_matches(
                matches_in(*store, bundle@, all, all.take(i as int), pv, query.include_stale),
            ),
        decreases all_md.len() - i,
    {
        let p = &all_md[i];
        proof {
            assert(all.take(i + 1).drop_last() == all.take(i as int));
            assert(all.take(i + 1).last() == p@);
        }
        let ghost prev = matches_in(*store, bundle@, all, all.take(i as int), pv, query.include_stale);
        let name = file_name_or_empty_exec(&chars_of_string(p));
        let skip = eq_str(&name, "index.md") || eq_str(&name, "log.md") || (!query.include_stale
            && is_stale_proposed(store, p, bundle, &all_md));
        if !skip {
            match match_for(store, p, &query.paths) {
                Some(m) => {
                    proof {
                        let next = matches_in(*store, bundle@, all, all.take(i + 1), pv, query.include_stale);
                        assert(next == prev.push(m.view()));
                        assert(next.drop_last() == prev);
                    }
                    insert_match(&mut sorted, m);
                },
                None => {},
            }
        }
        i += 1;
    }
    assert(all.take(all_md.len() as int) == all);
    render(&sorted)
}


proof fn lemma_ranked_matches_multiset(ms: Seq<MatchV>)
    ensures
        ranked_matches(ms).to_multiset() == ms.to_multiset(),
    decreases ms.len(),
{
    if ms.len() == 0 {
        assert(ranked_matches(ms) =~= ms);
    } else {
        lemma_ranked_matches_multiset(ms.drop_last());
        let s = ranked_matches(ms.drop_last());
        lemma_match_insert_at_bound(s, ms.last(), 0);
        vstd::seq_lib::to_multiset_insert(s, match_insert_at(s, ms.last(), 0), ms.last());
        vstd::seq_lib::to_multiset_build(ms.drop_last(), ms.last());
        assert(ms.drop_last().push(ms.last()) == ms);
    }
}

proof fn lemma_matches_in_force(
    store: MapStore,
    bundle: Seq<char>,
    all: Seq<Seq<char>>,
    ps: Seq<Seq<char>>,
    paths: Seq<Seq<char>>,
    include_stale: bool,
    m: MatchV,
)
    requires
        matches_in(store, bundle, all, ps, paths, include_stale).contains(m),
    ensures
        exists|k: int, c: Seq<char>|
            0 <= k < ps.len() && store.get(ps[k]) == Some(c) && in_force(extracted(ps[k], c))
                && #[trigger] match_of(ps[k], c, paths) == Some(m),
    decreases ps.len(),
{
    let rest = matches_in(store, bundle, all, ps.drop_last(), paths, include_stale);
    let here = matches_in(store, bundle, all, ps, paths, include_stale);
    if rest.contains(m) {
        lemma_matches_in_force(store, bundle, all, ps.drop_last(), paths, include_stale, m);
        let (k, c) = choose|k: int, c: Seq<char>|
            0 <= k < ps.drop_last().len() && store.get(ps.drop_last()[k]) == Some(c) && in_force(
                extracted(ps.drop_last()[k], c),
            ) && #[trigger] match_of(ps.drop_last()[k], c, paths) == Some(m);
        assert(ps[k] == ps.drop_last()[k]);
        assert(match_of(ps[k], c, paths) == Some(m));
    } else {
        let k = ps.len() - 1;
        assert(ps[k] == ps.last());
        if here != rest {
            let c = store.get(ps.last())->Some_0;
            let x = match_of(ps.last(), c, paths)->Some_0;
            assert(here == rest.push(x));
            let i = choose|i: int| 0 <= i < here.len() && here[i] == m;
            if i < rest.len() {
                assert(rest[i] == m);
            }
            assert(x == m);
            assert(match_of(ps[k], c, paths) == Some(m));
        }
    }
}

/// `why` answers with records in force only: every record it names is
/// neither `Superseded` nor `Deprecated`, and governs a queried path.
pub proof fn lemma_why_names_only_records_in_force(
    store: MapStore,
    bundle: Seq<char>,
    paths: Seq<Seq<char>>,
    include_stale: bool,
    m: MatchV,
)
    requires
        ranked_matches(
            matches_in(
                store,
                bundle,
                store.listed(bundle),
                store.listed(bundle),
                paths,
                include_stale,
            ),
        ).contains(m),
    ensures
        exists|p: Seq<char>, c: Seq<char>|
            store.listed(bundle).contains(p) && store.get(p) == Some(c) && in_force(extracted(p, c))
                && best(entries_of(extracted(p, c).body), paths) is Some && #[trigger] match_of(
                p,
                c,
                paths,
            ) == Some(m),
{
    let all = store.listed(bundle);
    let ms = matches_in(store, bundle, all, all, paths, include_stale);
    lemma_ranked_matches_multiset(ms);
    vstd::seq_lib::to_multiset_contains(ranked_matches(ms), m);
    vstd::seq_lib::to_multiset_contains(ms, m);
    lemma_matches_in_force(store, bundle, all, all, paths, include_stale, m);
    let (k, c) = choose|k: int, c: Seq<char>|
        0 <= k < all.len() && store.get(all[k]) == Some(c) && in_force(extracted(all[k], c))
            && #[trigger] match_of(all[k], c, paths) == Some(m);
    assert(all.contains(all[k]));
    assert(match_of(all[k], c, paths) == Some(m));
}

} // verus!
