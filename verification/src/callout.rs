//! The retired-record callout: the banner a Superseded or Deprecated
//! record's body must open with, so a reader that lands on the raw markdown
//! sees the stop rule first. Detection, reconciliation and the store-level
//! rewrite live here, shared by every command that writes a record.

use crate::frontmatter::{fence_close, fence_close_exec, fence_end};
use crate::path::{file_name, file_name_exec, join_path, parent, parent_exec};
use crate::record::{
    canonical, digit_run, digit_run_exec, extract_record, extracted, or_empty, to_canonical_markdown,
    RecordV,
};
use crate::store::{path_views, MapStore};
use crate::text::{
    chars_of, chars_of_string, eq, extend, extend_str, has_prefix, is_blank, is_blank_exec,
    join, join_exec, lemma_join_split, lemma_split_nonempty, lines, lines_exec, lowercase,
    lowercase_exec, slice, split_char, split_exec, starts_with, starts_with_str, string_of,
};
use vstd::prelude::*;

verus! {

pub open spec fn superseded_marker() -> Seq<char> {
    "> **SUPERSEDED"@
}

pub open spec fn deprecated_marker() -> Seq<char> {
    "> **DEPRECATED"@
}

/// The leading run of ASCII digits of `v`.
pub open spec fn number_prefix(v: Seq<char>) -> Seq<char> {
    v.take(digit_run(v, 0))
}

/// The callout of a Superseded record whose successor resolves to
/// `successor`: its leading digits are the link text, the whole of it the
/// link target.
pub open spec fn superseded_line(successor: Seq<char>) -> Seq<char> {
    "> **SUPERSEDED — do not act on this record.** Replaced by ["@ + number_prefix(successor)
        + "]("@ + successor + "). Run `living-docs read` for what is in force."@
}

/// The callout of a Deprecated record.
pub open spec fn deprecated_line() -> Seq<char> {
    "> **DEPRECATED — do not act on this record.** It has no successor. Run `living-docs read` for what is in force."@
}

/// The callout a record with `status` must open with: Superseded and
/// Deprecated (compared after lowercasing) have one, every other status
/// and an absent one have none.
pub open spec fn expected_line(status: Option<Seq<char>>, successor: Option<Seq<char>>) -> Option<
    Seq<char>,
> {
    match status {
        None => None,
        Some(s) => if lowercase(s) == "superseded"@ {
            Some(superseded_line(or_empty(successor)))
        } else if lowercase(s) == "deprecated"@ {
            Some(deprecated_line())
        } else {
            None
        },
    }
}

/// A line that opens a retired-record callout.
pub open spec fn is_callout_line(l: Seq<char>) -> bool {
    has_prefix(l, superseded_marker()) || has_prefix(l, deprecated_marker())
}

/// The index of the first non-blank line at or after `i`.
pub open spec fn first_nonblank(ls: Seq<Seq<char>>, i: int) -> Option<int>
    decreases ls.len() - i,
{
    if i < 0 || i >= ls.len() {
        None
    } else if !is_blank(ls[i]) {
        Some(i)
    } else {
        first_nonblank(ls, i + 1)
    }
}

/// The first non-blank line of `body` when it opens a callout.
pub open spec fn leading_line(body: Seq<char>) -> Option<Seq<char>> {
    let ls = lines(body);
    match first_nonblank(ls, 0) {
        None => None,
        Some(i) => if is_callout_line(ls[i]) {
            Some(ls[i])
        } else {
            None
        },
    }
}

/// The first non-blank of the lines `ls` opens a callout.
pub open spec fn lines_open_with_callout(ls: Seq<Seq<char>>) -> bool {
    match first_nonblank(ls, 0) {
        None => false,
        Some(i) => is_callout_line(ls[i]),
    }
}

/// The first non-blank line of `body`, split at each newline, opens a
/// callout.
pub open spec fn opens_with_callout(body: Seq<char>) -> bool {
    lines_open_with_callout(split_char(body, '\n'))
}

/// The lines `ls` with every callout they open with removed, each along
/// with one blank line right after it.
pub open spec fn strip_lines(ls: Seq<Seq<char>>) -> Seq<Seq<char>>
    decreases ls.len(),
{
    match first_nonblank(ls, 0) {
        None => ls,
        Some(i) => if i < 0 || i >= ls.len() || !is_callout_line(ls[i]) {
            ls
        } else {
            let r = ls.remove(i);
            let r2 = if i < r.len() && is_blank(r[i]) {
                r.remove(i)
            } else {
                r
            };
            strip_lines(r2)
        },
    }
}

/// `body` with every callout it opens with removed, each along with one
/// blank line right after it; unchanged when its first non-blank line is
/// no callout.
pub open spec fn stripped(body: Seq<char>) -> Seq<char> {
    if !opens_with_callout(body) {
        body
    } else {
        join(strip_lines(split_char(body, '\n')), seq!['\n'])
    }
}

/// `body` opening with `expected` and a blank line, or carrying no callout
/// when `expected` is `None`.
pub open spec fn reconciled(body: Seq<char>, expected: Option<Seq<char>>) -> Seq<char> {
    match expected {
        Some(l) => l + seq!['\n', '\n'] + stripped(body),
        None => stripped(body),
    }
}

/// `path` is `dir`'s bare `<id>.md` record or an `<id>-*.md` record
/// directly inside `dir`.
pub open spec fn record_id_matches(dir: Seq<char>, path: Seq<char>, id: Seq<char>) -> bool {
    parent(path) == Some(dir) && (path == join_path(dir, id + ".md"@) || has_prefix(
        match file_name(path) {
            Some(n) => n,
            None => Seq::<char>::empty(),
        },
        id + "-"@,
    ))
}

/// The first of `cs` from index `i` on that is `id`'s record in `dir`.
pub open spec fn sibling_from(cs: Seq<Seq<char>>, dir: Seq<char>, id: Seq<char>, i: int) -> Option<
    Seq<char>,
>
    decreases cs.len() - i,
{
    if i < 0 || i >= cs.len() {
        None
    } else if record_id_matches(dir, cs[i], id) {
        file_name(cs[i])
    } else {
        sibling_from(cs, dir, id, i + 1)
    }
}

/// The directory a record's siblings live in.
pub open spec fn dir_of(path: Seq<char>) -> Seq<char> {
    match parent(path) {
        Some(d) => d,
        None => seq!['.'],
    }
}

/// The link target a Superseded record's callout names: the filename of
/// the `superseded_by` record among the record's siblings, or the bare
/// number when none matches.
pub open spec fn successor_of(store: MapStore, path: Seq<char>, id: Seq<char>) -> Seq<char> {
    match sibling_from(store.listed(dir_of(path)), dir_of(path), id, 0) {
        Some(n) => n,
        None => id,
    }
}

/// Leading newlines dropped.
pub open spec fn skip_newlines(s: Seq<char>) -> Seq<char>
    decreases s.len(),
{
    if s.len() > 0 && s[0] == '\n' {
        skip_newlines(s.drop_first())
    } else {
        s
    }
}

/// The text with the gap between the closing frontmatter fence and the
/// body collapsed to a single newline.
pub open spec fn gap_normalized(c: Seq<char>) -> Seq<char> {
    match fence_close(c) {
        None => c,
        Some(k) => {
            let e = fence_end(c, k);
            c.take(e) + seq!['\n'] + skip_newlines(c.skip(e))
        },
    }
}

/// The record a reconcile writes for `contents` at `path`: its body with
/// the callout its status calls for.
#[verifier::opaque]
pub open spec fn reconciled_record(store: MapStore, path: Seq<char>, contents: Seq<char>) -> RecordV {
    let r = extracted(path, gap_normalized(contents));
    let successor = match r.superseded_by {
        Some(id) => Some(successor_of(store, path, id)),
        None => None,
    };
    RecordV { body: reconciled(r.body, expected_line(r.status, successor)), ..r }
}

// ---------------------------------------------------------------------

/// The leading digits of `v`.
pub fn number_prefix_exec(v: &Vec<char>) -> (r: Vec<char>)
    ensures
        r@ == number_prefix(v@),
{
    let n = digit_run_exec(v);
    slice(v, 0, n)
}

fn superseded_callout(successor: &Vec<char>) -> (r: Vec<char>)
    ensures
        r@ == superseded_line(successor@),
{
    let mut out = chars_of("> **SUPERSEDED — do not act on this record.** Replaced by [");
    let number = number_prefix_exec(successor);
    extend(&mut out, &number);
    extend_str(&mut out, "](");
    extend(&mut out, successor);
    extend_str(&mut out, "). Run `living-docs read` for what is in force.");
    out
}

/// The exact callout line a record with `status` must open with; `None`
/// for any status other than Superseded or Deprecated (after lowercasing).
/// For Superseded, `successor` is the resolved link target.
pub fn expected(status: Option<&str>, successor: Option<&str>) -> (r: Option<String>)
    ensures
        r matches Some(l) ==> expected_line(
            match status {
                Some(s) => Some(s@),
                None => None,
            },
            match successor {
                Some(s) => Some(s@),
                None => None,
            },
        ) == Some(l@),
        r is None ==> expected_line(
            match status {
                Some(s) => Some(s@),
                None => None,
            },
            match successor {
                Some(s) => Some(s@),
                None => None,
            },
        ) is None,
{
    let s = match status {
        Some(s) => s,
        None => return None,
    };
    let lower = lowercase_exec(&chars_of(s));
    if crate::text::eq_str(&lower, "superseded") {
        let succ = match successor {
            Some(x) => chars_of(x),
            None => Vec::new(),
        };
        Some(string_of(&superseded_callout(&succ)))
    } else if crate::text::eq_str(&lower, "deprecated") {
        Some(
            "> **DEPRECATED — do not act on this record.** It has no successor. Run `living-docs read` for what is in force.".to_string(),
        )
    } else {
        None
    }
}

/// Whether a line opens a callout.
pub fn is_callout_line_exec(l: &Vec<char>) -> (r: bool)
    ensures
        r == is_callout_line(l@),
{
    starts_with_str(l, "> **SUPERSEDED") || starts_with_str(l, "> **DEPRECATED")
}

/// The first non-blank line's index.
fn first_nonblank_exec(ls: &Vec<Vec<char>>) -> (r: Option<usize>)
    ensures
        r matches Some(i) ==> first_nonblank(ls@.map_values(|v: Vec<char>| v@), 0) == Some(
            i as int,
        ) && i < ls.len(),
        r is None ==> first_nonblank(ls@.map_values(|v: Vec<char>| v@), 0) is None,
{
    let ghost lv = ls@.map_values(|v: Vec<char>| v@);
    let mut i: usize = 0;
    while i < ls.len()
        invariant
            i <= ls.len(),
            lv == ls@.map_values(|v: Vec<char>| v@),
            first_nonblank(lv, 0) == first_nonblank(lv, i as int),
        decreases ls.len() - i,
    {
        if !is_blank_exec(&ls[i]) {
            return Some(i);
        }
        i += 1;
    }
    None
}

/// The first non-blank line of `body` when it opens a retired-record
/// callout, `None` otherwise.
pub fn leading(body: &str) -> (r: Option<String>)
    ensures
        r matches Some(l) ==> leading_line(body@) == Some(l@),
        r is None ==> leading_line(body@) is None,
{
    let ls = lines_exec(&chars_of(body));
    match first_nonblank_exec(&ls) {
        None => None,
        Some(i) => {
            if is_callout_line_exec(&ls[i]) {
                Some(string_of(&ls[i]))
            } else {
                None
            }
        },
    }
}

/// `body` with every callout it opens with (each with one blank line
/// after it) removed.
pub fn strip_leading_callout(body: &Vec<char>) -> (r: Vec<char>)
    ensures
        r@ == stripped(body@),
{
    let mut ls = split_exec(body, '\n');
    let ghost l0 = ls@.map_values(|v: Vec<char>| v@);
    assert(l0 == split_char(body@, '\n'));
    match first_nonblank_exec(&ls) {
        None => return body.clone(),
        Some(i) => {
            if !is_callout_line_exec(&ls[i]) {
                return body.clone();
            }
        },
    }
    assert(opens_with_callout(body@));
    loop
        invariant
            strip_lines(ls@.map_values(|v: Vec<char>| v@)) == strip_lines(l0),
        ensures
            strip_lines(l0) == ls@.map_values(|v: Vec<char>| v@),
        decreases ls.len(),
    {
        let ghost lv = ls@.map_values(|v: Vec<char>| v@);
        let i = match first_nonblank_exec(&ls) {
            None => break,
            Some(i) => i,
        };
        if !is_callout_line_exec(&ls[i]) {
            break;
        }
        ls.remove(i);
        assert(ls@.map_values(|v: Vec<char>| v@) =~= lv.remove(i as int));
        let ghost r = lv.remove(i as int);
        if i < ls.len() && is_blank_exec(&ls[i]) {
            ls.remove(i);
            assert(ls@.map_values(|v: Vec<char>| v@) =~= r.remove(i as int));
        }
    }
    let sep = vec!['\n'];
    assert(sep@ == seq!['\n']);
    join_exec(&ls, &sep)
}

/// Rewrites `body` so it opens with `expected` and a blank line when
/// `Some`, or carries no callout when `None`, first stripping any callout
/// it already opens with. The rest of the body is byte-identical.
pub fn reconcile_body(body: &str, expected: Option<&str>) -> (r: String)
    ensures
        r@ == reconciled(
            body@,
            match expected {
                Some(l) => Some(l@),
                None => None,
            },
        ),
{
    let stripped_body = strip_leading_callout(&chars_of(body));
    match expected {
        Some(line) => {
            let mut out = chars_of(line);
            out.push('\n');
            out.push('\n');
            extend(&mut out, &stripped_body);
            string_of(&out)
        },
        None => string_of(&stripped_body),
    }
}

/// Whether `path` is `id`'s record directly inside `dir`.
pub fn record_id_matches_exec(dir: &Vec<char>, path: &Vec<char>, id: &Vec<char>) -> (r: bool)
    ensures
        r == record_id_matches(dir@, path@, id@),
{
    let same_dir = match parent_exec(path) {
        Some(p) => eq(&p, dir),
        None => false,
    };
    if !same_dir {
        return false;
    }
    let mut bare_name = id.clone();
    extend_str(&mut bare_name, ".md");
    let bare = crate::path::join_path_exec(dir, &bare_name);
    if eq(path, &bare) {
        return true;
    }
    let name = match file_name_exec(path) {
        Some(n) => n,
        None => Vec::new(),
    };
    let mut prefix = id.clone();
    extend_str(&mut prefix, "-");
    starts_with(&name, &prefix)
}

/// The filename of `id`'s record among `candidates` in `dir`.
pub fn find_sibling(candidates: &Vec<String>, dir: &Vec<char>, id: &Vec<char>) -> (r: Option<
    Vec<char>,
>)
    ensures
        r matches Some(n) ==> sibling_from(path_views(candidates@), dir@, id@, 0) == Some(n@),
        r is None ==> sibling_from(path_views(candidates@), dir@, id@, 0) is None,
{
    let ghost cv = path_views(candidates@);
    let mut i: usize = 0;
    while i < candidates.len()
        invariant
            i <= candidates.len(),
            cv == path_views(candidates@),
            sibling_from(cv, dir@, id@, 0) == sibling_from(cv, dir@, id@, i as int),
        decreases candidates.len() - i,
    {
        let c = chars_of_string(&candidates[i]);
        if record_id_matches_exec(dir, &c, id) {
            return file_name_exec(&c);
        }
        i += 1;
    }
    None
}

/// The directory a record's siblings live in (`.` for a bare name).
pub fn dir_of_exec(path: &Vec<char>) -> (r: Vec<char>)
    ensures
        r@ == dir_of(path@),
{
    match parent_exec(path) {
        Some(d) => d,
        None => {
            let d = vec!['.'];
            assert(d@ == seq!['.']);
            d
        },
    }
}

/// Resolves `superseded_by` to a sibling filename in `path`'s own
/// directory — a `<NNNN>-*.md` or `<NNNN>.md` record the store lists
/// there — falling back to the bare number when no sibling matches.
pub fn successor_filename(store: &MapStore, path: &str, superseded_by: &str) -> (r: String)
    ensures
        r@ == successor_of(*store, path@, superseded_by@),
{
    let p = chars_of(path);
    let dir = dir_of_exec(&p);
    let candidates = store.list(&string_of(&dir));
    let id = chars_of(superseded_by);
    match find_sibling(&candidates, &dir, &id) {
        Some(n) => string_of(&n),
        None => superseded_by.to_string(),
    }
}

/// Leading newlines dropped.
fn skip_newlines_exec(s: &Vec<char>) -> (r: Vec<char>)
    ensures
        r@ == skip_newlines(s@),
{
    let mut i: usize = 0;
    assert(s@.skip(0) == s@);
    while i < s.len() && s[i] == '\n'
        invariant
            i <= s.len(),
            skip_newlines(s@) == skip_newlines(s@.skip(i as int)),
        decreases s.len() - i,
    {
        assert(s@.skip(i as int).drop_first() == s@.skip(i + 1));
        i += 1;
    }
    slice(s, i, s.len())
}

/// Collapses the gap between the closing frontmatter fence and the body to
/// a single newline, so that reading and re-serializing a record reaches a
/// fixed point instead of growing the gap.
pub fn normalize_frontmatter_gap(contents: &str) -> (r: String)
    ensures
        r@ == gap_normalized(contents@),
{
    let c = chars_of(contents);
    match fence_close_exec(&c) {
        None => contents.to_string(),
        Some(k) => {
            let e = 4 + k + 4;
            let mut out = slice(&c, 0, e);
            out.push('\n');
            let tail = skip_newlines_exec(&slice(&c, e, c.len()));
            extend(&mut out, &tail);
            string_of(&out)
        },
    }
}

/// The record `contents` at `path` becomes once its callout matches its
/// status.
pub fn reconciled_record_exec(store: &MapStore, path: &str, contents: &str) -> (r:
    crate::record::ExtractedRecord)
    ensures
        r.view() == reconciled_record(*store, path@, contents@),
{
    let normalized = normalize_frontmatter_gap(contents);
    let mut record = extract_record(path, normalized.as_str());
    let successor: Option<String> = match &record.superseded_by {
        Some(id) => Some(successor_filename(store, path, id.as_str())),
        None => None,
    };
    let line = expected(
        match &record.status {
            Some(s) => Some(s.as_str()),
            None => None,
        },
        match &successor {
            Some(s) => Some(s.as_str()),
            None => None,
        },
    );
    let body = reconcile_body(
        record.body.as_str(),
        match &line {
            Some(l) => Some(l.as_str()),
            None => None,
        },
    );
    record.set_body(body);
    proof {
        reveal(reconciled_record);
    }
    record
}

/// Reads the record at `path`, computes the callout its status calls for,
/// and rewrites it in canonical form only when the reconciled body differs
/// from the one it has. Returns whether it wrote; fails when nothing is
/// stored at `path`.
pub fn reconcile(store: &mut MapStore, path: &str) -> (r: Result<bool, String>)
    ensures
        r is Err <==> old(store).get(path@) is None,
        r matches Ok(false) ==> *final(store) == *old(store),
        r matches Ok(true) ==> old(store).get(path@) matches Some(c) && final(store).get(path@)
            == Some(canonical(reconciled_record(*old(store), path@, c))),
        r matches Ok(true) ==> forall|q: Seq<char>|
            q != path@ ==> #[trigger] final(store).get(q) == old(store).get(q),
        r is Ok ==> final(store).paths() == old(store).paths(),
        r matches Ok(b) ==> old(store).get(path@) matches Some(c) && (b <==> reconciled_record(
            *old(store),
            path@,
            c,
        ).body != extracted(path@, gap_normalized(c)).body),
{
    let contents = match store.read_str(path) {
        Some(c) => c,
        None => return Err("not found".to_string()),
    };
    let original = extract_record(path, normalize_frontmatter_gap(contents.as_str()).as_str());
    let record = reconciled_record_exec(store, path, contents.as_str());
    let a = chars_of_string(&record.body);
    let b = chars_of_string(&original.body);
    if eq(&a, &b) {
        return Ok(false);
    }
    let canonical_text = to_canonical_markdown(&record);
    proof {
        old(store).lemma_paths_match_get(path@);
    }
    store.write_str(path, canonical_text.as_str());
    Ok(true)
}

// ---------------------------------------------------------------------
// The idempotence of reconciliation.

proof fn lemma_digit_run_bound(s: Seq<char>, i: int)
    requires
        0 <= i <= s.len(),
    ensures
        0 <= digit_run(s, i) <= s.len() - i,
    decreases s.len() - i,
{
    if i < s.len() && crate::text::is_ascii_digit(s[i]) {
        lemma_digit_run_bound(s, i + 1);
    }
}

pub(crate) proof fn lemma_split_no_sep(s: Seq<char>, c: char)
    requires
        !s.contains(c),
    ensures
        split_char(s, c) == seq![s],
    decreases s.len(),
{
    if s.len() > 0 {
        let t = s.drop_last();
        assert(!t.contains(c)) by {
            if t.contains(c) {
                let i = choose|i: int| 0 <= i < t.len() && t[i] == c;
                assert(s[i] == c);
            }
        }
        lemma_split_no_sep(t, c);
        assert(s.last() != c);
        assert(t.push(s.last()) == s);
    } else {
        assert(s == Seq::<char>::empty());
    }
}

pub(crate) proof fn lemma_split_concat(p: Seq<char>, q: Seq<char>, c: char)
    ensures
        split_char(p + seq![c] + q, c) == split_char(p, c) + split_char(q, c),
    decreases q.len(),
{
    if q.len() == 0 {
        let s = p + seq![c];
        assert(s.drop_last() == p);
        assert(split_char(q, c) == seq![Seq::<char>::empty()]);
        assert(p + seq![c] + q == s);
    } else {
        let q2 = q.drop_last();
        let x = q.last();
        lemma_split_concat(p, q2, c);
        lemma_split_nonempty(q2, c);
        lemma_split_nonempty(p, c);
        let s = p + seq![c] + q;
        assert(s.drop_last() == p + seq![c] + q2);
        assert(s.last() == x);
        let a = split_char(p, c);
        let b = split_char(q2, c);
        if x == c {
            assert((a + b).push(Seq::<char>::empty()) == a + b.push(Seq::<char>::empty()));
        } else {
            assert((a + b).update((a + b).len() - 1, (a + b).last().push(x)) == a + b.update(
                b.len() - 1,
                b.last().push(x),
            ));
        }
    }
}

/// No piece of a split holds the separator.
pub(crate) proof fn lemma_split_parts_free(s: Seq<char>, c: char)
    ensures
        forall|i: int| 0 <= i < split_char(s, c).len() ==> !(#[trigger] split_char(s, c)[i]).contains(c),
    decreases s.len(),
{
    if s.len() > 0 {
        let t = s.drop_last();
        lemma_split_parts_free(t, c);
        lemma_split_nonempty(t, c);
        let p = split_char(t, c);
        let q = split_char(s, c);
        assert forall|i: int| 0 <= i < q.len() implies !(#[trigger] q[i]).contains(c) by {
            if s.last() == c {
                if i < p.len() {
                    assert(q[i] == p[i]);
                } else {
                    assert(q[i] == Seq::<char>::empty());
                }
            } else {
                if i < p.len() - 1 {
                    assert(q[i] == p[i]);
                } else {
                    assert(q[i] == p.last().push(s.last()));
                    assert(!p[p.len() - 1].contains(c));
                    if q[i].contains(c) {
                        let j = choose|j: int| 0 <= j < q[i].len() && q[i][j] == c;
                        if j < p.last().len() {
                            assert(p.last()[j] == c);
                        }
                    }
                }
            }
        }
    }
}

/// Splitting pieces joined by a separator none of them holds gives the
/// pieces back.
pub(crate) proof fn lemma_split_join(ls: Seq<Seq<char>>, c: char)
    requires
        ls.len() >= 1,
        forall|i: int| 0 <= i < ls.len() ==> !(#[trigger] ls[i]).contains(c),
    ensures
        split_char(join(ls, seq![c]), c) == ls,
    decreases ls.len(),
{
    if ls.len() == 1 {
        lemma_split_no_sep(ls[0], c);
        assert(ls == seq![ls[0]]);
    } else {
        let d = ls.drop_last();
        assert forall|i: int| 0 <= i < d.len() implies !(#[trigger] d[i]).contains(c) by {
            assert(d[i] == ls[i]);
        }
        lemma_split_join(d, c);
        assert(!ls[ls.len() - 1].contains(c));
        lemma_split_no_sep(ls.last(), c);
        lemma_split_concat(join(d, seq![c]), ls.last(), c);
        assert(join(ls, seq![c]) == join(d, seq![c]) + seq![c] + ls.last());
        assert(d + seq![ls.last()] == ls);
    }
}

/// The first non-blank line found from `j` on lies at or after `j`.
proof fn lemma_first_nonblank_range(ls: Seq<Seq<char>>, j: int)
    requires
        j >= 0,
    ensures
        first_nonblank(ls, j) matches Some(k) ==> j <= k < ls.len(),
    decreases ls.len() - j,
{
    if j < ls.len() && is_blank(ls[j]) {
        lemma_first_nonblank_range(ls, j + 1);
    }
}

/// What a strip leaves opens with no callout, and keeps every line free of
/// newlines when the lines it was given were.
proof fn lemma_strip_lines_clean(ls: Seq<Seq<char>>)
    ensures
        !lines_open_with_callout(strip_lines(ls)),
        (forall|i: int| 0 <= i < ls.len() ==> !(#[trigger] ls[i]).contains('\n')) ==> (forall|
            i: int,
        |
            0 <= i < strip_lines(ls).len() ==> !(#[trigger] strip_lines(ls)[i]).contains('\n')),
    decreases ls.len(),
{
    lemma_first_nonblank_range(ls, 0);
    match first_nonblank(ls, 0) {
        None => {},
        Some(i) => {
            if i < 0 || i >= ls.len() || !is_callout_line(ls[i]) {
            } else {
                let r = ls.remove(i);
                let r2 = if i < r.len() && is_blank(r[i]) {
                    r.remove(i)
                } else {
                    r
                };
                lemma_strip_lines_clean(r2);
                if forall|k: int| 0 <= k < ls.len() ==> !(#[trigger] ls[k]).contains('\n') {
                    assert forall|k: int| 0 <= k < r.len() implies !(#[trigger] r[k]).contains(
                        '\n',
                    ) by {
                        if k < i {
                            assert(r[k] == ls[k]);
                        } else {
                            assert(r[k] == ls[k + 1]);
                        }
                    }
                    assert forall|k: int| 0 <= k < r2.len() implies !(#[trigger] r2[k]).contains(
                        '\n',
                    ) by {
                        if r2 != r {
                            if k < i {
                                assert(r2[k] == r[k]);
                            } else {
                                assert(r2[k] == r[k + 1]);
                            }
                        }
                    }
                }
            }
        },
    }
}

/// A stripped body opens with no callout.
pub proof fn lemma_stripped_opens_with_no_callout(body: Seq<char>)
    ensures
        !opens_with_callout(stripped(body)),
{
    if opens_with_callout(body) {
        let ls = split_char(body, '\n');
        let s = strip_lines(ls);
        lemma_split_parts_free(body, '\n');
        lemma_strip_lines_clean(ls);
        if s.len() >= 1 {
            lemma_split_join(s, '\n');
        } else {
            assert(join(s, seq!['\n']) == Seq::<char>::empty());
            let e = split_char(Seq::<char>::empty(), '\n');
            assert(e == seq![Seq::<char>::empty()]);
            assert(is_blank(e[0]));
            assert(first_nonblank(e, 1) is None);
            assert(first_nonblank(e, 0) is None);
        }
    }
}

/// Stripping a second time changes nothing.
pub proof fn lemma_stripped_idempotent(body: Seq<char>)
    ensures
        stripped(stripped(body)) == stripped(body),
{
    lemma_stripped_opens_with_no_callout(body);
}

/// Stripping a body that opens with a callout line and a blank line, above
/// text that opens with no callout, gives back exactly that text.
proof fn lemma_strip_after_callout(l: Seq<char>, x: Seq<char>)
    requires
        is_callout_line(l),
        !l.contains('\n'),
        !opens_with_callout(x),
    ensures
        stripped(l + seq!['\n', '\n'] + x) == x,
{
    let c = '\n';
    let body = l + seq!['\n', '\n'] + x;
    assert(body == l + seq![c] + (seq![c] + x));
    assert(seq![c] + x == Seq::<char>::empty() + seq![c] + x);
    lemma_split_concat(l, seq![c] + x, c);
    lemma_split_concat(Seq::<char>::empty(), x, c);
    lemma_split_no_sep(l, c);
    assert(split_char(Seq::<char>::empty(), c) == seq![Seq::<char>::empty()]);
    let ls = split_char(body, c);
    assert(ls == seq![l] + (seq![Seq::<char>::empty()] + split_char(x, c)));
    reveal_strlit("> **SUPERSEDED");
    reveal_strlit("> **DEPRECATED");
    if has_prefix(l, superseded_marker()) {
        assert(l[0] == l.subrange(0, 14)[0]);
    } else {
        assert(l[0] == l.subrange(0, 14)[0]);
    }
    assert(l.len() > 0 && l[0] == '>');
    assert(!is_blank(l)) by {
        assert(!crate::text::is_ws(l[0]));
    }
    assert(ls[0] == l);
    assert(first_nonblank(ls, 0) == Some(0int));
    assert(opens_with_callout(body));
    let r = ls.remove(0);
    assert(r == seq![Seq::<char>::empty()] + split_char(x, c));
    assert(r[0] == Seq::<char>::empty());
    assert(is_blank(r[0]));
    let r2 = r.remove(0);
    assert(r2 == split_char(x, c));
    assert(strip_lines(ls) == strip_lines(r2));
    assert(strip_lines(r2) == r2);
    lemma_join_split(x, c);
}

/// Reconciling twice with the same callout gives what reconciling once
/// gives: a body that already opens with the expected callout and its
/// blank line is left exactly as it is.
pub proof fn lemma_reconcile_body_idempotent(body: Seq<char>, line: Seq<char>)
    requires
        is_callout_line(line),
        !line.contains('\n'),
    ensures
        reconciled(reconciled(body, Some(line)), Some(line)) == reconciled(body, Some(line)),
{
    lemma_stripped_opens_with_no_callout(body);
    lemma_strip_after_callout(line, stripped(body));
}

/// Reconciling is idempotent for every expectation a record can have:
/// none, or a single callout line.
pub proof fn lemma_reconciled_idempotent(body: Seq<char>, expected: Option<Seq<char>>)
    requires
        expected matches Some(l) ==> is_callout_line(l) && !l.contains('\n'),
    ensures
        reconciled(reconciled(body, expected), expected) == reconciled(body, expected),
        expected is None ==> !opens_with_callout(reconciled(body, expected)),
{
    match expected {
        Some(l) => lemma_reconcile_body_idempotent(body, l),
        None => lemma_stripped_idempotent(body),
    }
    lemma_stripped_opens_with_no_callout(body);
}

/// Dropping a trailing carriage return changes neither whether a line is
/// blank nor whether it opens a callout.
proof fn lemma_strip_cr_keeps_kind(l: Seq<char>)
    ensures
        is_blank(crate::text::strip_cr(l)) == is_blank(l),
        is_callout_line(crate::text::strip_cr(l)) == is_callout_line(l),
{
    reveal_strlit("> **SUPERSEDED");
    reveal_strlit("> **DEPRECATED");
    let t = crate::text::strip_cr(l);
    if l.len() > 0 && l.last() == '\r' {
        assert(crate::text::is_ws(l.last()));
        assert(is_blank(t) ==> is_blank(l)) by {
            if is_blank(t) {
                assert forall|i: int| 0 <= i < l.len() implies crate::text::is_ws(#[trigger] l[i]) by {
                    if i < t.len() {
                        assert(l[i] == t[i]);
                    }
                }
            }
        }
        assert(is_blank(l) ==> is_blank(t)) by {
            if is_blank(l) {
                assert forall|i: int| 0 <= i < t.len() implies crate::text::is_ws(#[trigger] t[i]) by {
                    assert(l[i] == t[i]);
                }
            }
        }
        let m1 = superseded_marker();
        let m2 = deprecated_marker();
        if has_prefix(l, m1) {
            assert(l.len() != 14) by {
                if l.len() == 14 {
                    assert(l.subrange(0, 14)[13] == l[13]);
                }
            }
            assert(t.subrange(0, 14) == l.subrange(0, 14));
        }
        if has_prefix(l, m2) {
            assert(l.len() != 14) by {
                if l.len() == 14 {
                    assert(l.subrange(0, 14)[13] == l[13]);
                }
            }
            assert(t.subrange(0, 14) == l.subrange(0, 14));
        }
        if has_prefix(t, m1) {
            assert(t.subrange(0, 14) == l.subrange(0, 14));
        }
        if has_prefix(t, m2) {
            assert(t.subrange(0, 14) == l.subrange(0, 14));
        }
    }
}

/// The first non-blank line of a split and of the same text's `lines` sit
/// at one index.
proof fn lemma_first_nonblank_of_lines(p: Seq<Seq<char>>, q: Seq<Seq<char>>, j: int)
    requires
        0 <= j,
        q.len() <= p.len(),
        forall|i: int| 0 <= i < q.len() ==> #[trigger] q[i] == crate::text::strip_cr(p[i]),
        forall|i: int| q.len() <= i < p.len() ==> is_blank(#[trigger] p[i]),
    ensures
        first_nonblank(p, j) == first_nonblank(q, j),
    decreases p.len() - j,
{
    if j < p.len() {
        if j < q.len() {
            lemma_strip_cr_keeps_kind(p[j]);
        }
        lemma_first_nonblank_of_lines(p, q, j + 1);
    }
}

/// A body opens with a callout line exactly when [`leading`] finds one.
pub proof fn lemma_leading_is_opening_callout(body: Seq<char>)
    ensures
        leading_line(body) is Some <==> opens_with_callout(body),
{
    let p = split_char(body, '\n');
    lemma_split_nonempty(body, '\n');
    let q0 = if p.last().len() == 0 {
        p.drop_last()
    } else {
        p
    };
    let q = crate::text::lines(body);
    assert(q == q0.map_values(|l: Seq<char>| crate::text::strip_cr(l)));
    assert forall|i: int| q.len() <= i < p.len() implies is_blank(#[trigger] p[i]) by {
        assert(i == p.len() - 1);
        assert(p[i].len() == 0);
    }
    lemma_first_nonblank_of_lines(p, q, 0);
    lemma_first_nonblank_range(p, 0);
    if let Some(i) = first_nonblank(p, 0) {
        if i < q.len() {
            lemma_strip_cr_keeps_kind(p[i]);
        }
    }
    lemma_first_nonblank_range(q, 0);
}

/// Adding a callout to a body that had none and then reconciling with none
/// expected gives the body back byte for byte.
pub proof fn lemma_callout_added_then_removed(body: Seq<char>, line: Seq<char>)
    requires
        is_callout_line(line),
        !line.contains('\n'),
        leading_line(body) is None,
    ensures
        reconciled(reconciled(body, Some(line)), None) == body,
{
    lemma_leading_is_opening_callout(body);
    lemma_strip_after_callout(line, body);
}

/// Every callout [`expected`] produces opens with its marker and is a
/// single line.
pub proof fn lemma_expected_is_callout(status: Option<Seq<char>>, successor: Option<Seq<char>>)
    requires
        successor matches Some(s) ==> !s.contains('\n'),
    ensures
        expected_line(status, successor) matches Some(l) ==> is_callout_line(l) && !l.contains(
            '\n',
        ),
{
    reveal_strlit("> **SUPERSEDED");
    reveal_strlit("> **DEPRECATED");
    reveal_strlit("> **SUPERSEDED — do not act on this record.** Replaced by [");
    reveal_strlit("](");
    reveal_strlit("). Run `living-docs read` for what is in force.");
    reveal_strlit(
        "> **DEPRECATED — do not act on this record.** It has no successor. Run `living-docs read` for what is in force.",
    );
    if let Some(l) = expected_line(status, successor) {
        let succ = or_empty(successor);
        if l == superseded_line(succ) {
            let head = "> **SUPERSEDED — do not act on this record.** Replaced by ["@;
            assert(l.subrange(0, 14) == head.subrange(0, 14));
            assert(head.subrange(0, 14) == superseded_marker());
            let np = number_prefix(succ);
            lemma_digit_run_bound(succ, 0);
            assert(!np.contains('\n')) by {
                if np.contains('\n') {
                    let i = choose|i: int| 0 <= i < np.len() && np[i] == '\n';
                    assert(succ[i] == '\n');
                }
            }
            assert(!l.contains('\n')) by {
                if l.contains('\n') {
                    let i = choose|i: int| 0 <= i < l.len() && l[i] == '\n';
                    let a = head;
                    let b = a + np;
                    let d = b + "]("@;
                    let e = d + succ;
                    if i < a.len() {
                        assert(a[i] == '\n');
                    } else if i < b.len() {
                        assert(np[i - a.len()] == '\n');
                    } else if i < d.len() {
                        assert("]("@[i - b.len()] == '\n');
                    } else if i < e.len() {
                        assert(succ[i - d.len()] == '\n');
                    } else {
                        assert("). Run `living-docs read` for what is in force."@[i - e.len()]
                            == '\n');
                    }
                }
            }
        } else {
            assert(l == deprecated_line());
            assert(l.subrange(0, 14) == deprecated_marker());
        }
    }
}

} // verus!
