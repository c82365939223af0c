//! Heading drift: a live record's first `# ` heading, its `NNNN. `
//! numbering aside, should read as the record's frontmatter `title`. A
//! drift is an advisory of kind `heading`; a superseded or deprecated
//! record is history and is never flagged.

use crate::check::records::{has_frontmatter, opens_with_fence, reserved, reserved_path};
use crate::check::reporter::{lemma_per_path_step, per_path, Reporter};
use crate::frontmatter::{body_exec, body_of, scalar, scalar_exec};
use crate::record::{digit_run, digit_run_exec};
use crate::path::file_name_or_empty;
use crate::store::{path_views, MapStore};
use crate::text::{
    chars_of, chars_of_string, eq, eq_ignore_case, eq_ignore_case_str, extend, extend_str,
    has_prefix, lines, lines_exec, slice, starts_with_str, string_of, trim, trim_exec,
};
use vstd::prelude::*;

verus! {

/// A status that retires a record from heading checks.
pub open spec fn retired_status(s: Seq<char>) -> bool {
    eq_ignore_case(s, "superseded"@) || eq_ignore_case(s, "deprecated"@)
}

/// The index of the first `# ` heading line at or after `i`.
pub open spec fn first_heading(ls: Seq<Seq<char>>, i: int) -> Option<int>
    decreases ls.len() - i,
{
    if i < 0 || i >= ls.len() {
        None
    } else if has_prefix(ls[i], "# "@) {
        Some(i)
    } else {
        first_heading(ls, i + 1)
    }
}

/// A heading's text with a leading `NNNN. ` record number removed.
pub open spec fn unnumbered(t: Seq<char>) -> Seq<char> {
    let n = digit_run(t, 0);
    if n > 0 && has_prefix(t.skip(n), ". "@) {
        trim(t.skip(n + 2))
    } else {
        t
    }
}

/// The text of the first `# ` heading of `body`, unnumbered.
pub open spec fn heading_text(body: Seq<char>) -> Option<Seq<char>> {
    let ls = lines(body);
    match first_heading(ls, 0) {
        None => None,
        Some(i) => Some(unnumbered(trim(ls[i].skip(2)))),
    }
}

/// The advisory message for a heading `h` that drifted from `title`.
pub open spec fn drift_message(title: Seq<char>, h: Seq<char>) -> Seq<char> {
    "HEADING drift: `# "@ + h + "` does not match title `"@ + title + "`"@
}

/// The heading advisory for one listed path.
pub open spec fn heading_advisories(store: MapStore, f: Seq<char>) -> Seq<
    (Seq<char>, Seq<char>, Seq<char>),
> {
    match store.get(f) {
        None => Seq::<(Seq<char>, Seq<char>, Seq<char>)>::empty(),
        Some(c) => if reserved(file_name_or_empty(f)) || !opens_with_fence(c) {
            Seq::<(Seq<char>, Seq<char>, Seq<char>)>::empty()
        } else if scalar(c, "status"@) matches Some(s) && retired_status(s) {
            Seq::<(Seq<char>, Seq<char>, Seq<char>)>::empty()
        } else {
            match (scalar(c, "title"@), heading_text(body_of(c))) {
                (Some(t), Some(h)) => if h != t {
                    seq![(f, "heading"@, drift_message(t, h))]
                } else {
                    Seq::<(Seq<char>, Seq<char>, Seq<char>)>::empty()
                },
                _ => Seq::<(Seq<char>, Seq<char>, Seq<char>)>::empty(),
            }
        },
    }
}

fn first_heading_exec(ls: &Vec<Vec<char>>) -> (r: Option<usize>)
    ensures
        r matches Some(i) ==> first_heading(ls@.map_values(|v: Vec<char>| v@), 0) == Some(
            i as int,
        ) && i < ls.len() && has_prefix(ls@[i as int]@, "# "@),
        r is None ==> first_heading(ls@.map_values(|v: Vec<char>| v@), 0) is None,
{
    let ghost lv = ls@.map_values(|v: Vec<char>| v@);
    let mut i: usize = 0;
    while i < ls.len()
        invariant
            i <= ls.len(),
            lv == ls@.map_values(|v: Vec<char>| v@),
            first_heading(lv, 0) == first_heading(lv, i as int),
        decreases ls.len() - i,
    {
        assert(lv[i as int] == ls[i as int]@);
        if starts_with_str(&ls[i], "# ") {
            return Some(i);
        }
        i += 1;
    }
    None
}

/// A heading's text with its `NNNN. ` record number removed.
pub fn unnumbered_exec(t: &Vec<char>) -> (r: Vec<char>)
    ensures
        r@ == unnumbered(t@),
{
    let n = digit_run_exec(t);
    if n > 0 {
        let rest = slice(t, n, t.len());
        assert(rest@ == t@.skip(n as int));
        if starts_with_str(&rest, ". ") {
            proof {
                reveal_strlit(". ");
            }
            let tail = slice(t, n + 2, t.len());
            assert(tail@ == t@.skip(n + 2));
            return trim_exec(&tail);
        }
    }
    t.clone()
}

/// The unnumbered text of `body`'s first `# ` heading.
pub fn heading_text_exec(body: &Vec<char>) -> (r: Option<Vec<char>>)
    ensures
        r matches Some(h) ==> heading_text(body@) == Some(h@),
        r is None ==> heading_text(body@) is None,
{
    let ls = lines_exec(body);
    match first_heading_exec(&ls) {
        None => None,
        Some(i) => {
            let l = &ls[i];
            proof {
                reveal_strlit("# ");
                assert(ls@.map_values(|v: Vec<char>| v@)[i as int] == l@);
            }
            let rest = slice(l, 2, l.len());
            assert(rest@ == l@.skip(2));
            Some(unnumbered_exec(&trim_exec(&rest)))
        },
    }
}

/// The heading advisory for one record, if its heading drifted.
fn heading_drift(store: &MapStore, f: &String) -> (r: Option<String>)
    ensures
        r matches Some(m) ==> heading_advisories(*store, f@) == seq![(f@, "heading"@, m@)],
        r is None ==> heading_advisories(*store, f@) == Seq::<
            (Seq<char>, Seq<char>, Seq<char>),
        >::empty(),
{
    let contents = match store.read(f) {
        Some(c) => c,
        None => return None,
    };
    if reserved_path(f) || !has_frontmatter(contents.as_str()) {
        return None;
    }
    let c = chars_of_string(&contents);
    match scalar_exec(&c, "status") {
        Some(s) => {
            if eq_ignore_case_str(&s, "superseded") || eq_ignore_case_str(&s, "deprecated") {
                return None;
            }
        },
        None => {},
    }
    let title = match scalar_exec(&c, "title") {
        Some(t) => t,
        None => return None,
    };
    let h = match heading_text_exec(&body_exec(&c)) {
        Some(h) => h,
        None => return None,
    };
    if eq(&h, &title) {
        return None;
    }
    let mut m = chars_of("HEADING drift: `# ");
    extend(&mut m, &h);
    extend_str(&mut m, "` does not match title `");
    extend(&mut m, &title);
    extend_str(&mut m, "`");
    Some(string_of(&m))
}

/// Advises, with kind `heading`, on every live record whose first `# `
/// heading (numbering aside) differs from its frontmatter `title`.
pub fn check_heading_matches_title(store: &MapStore, all_md: &Vec<String>, reporter: &mut Reporter)
    ensures
        final(reporter).viols() == old(reporter).viols(),
        final(reporter).advs() == old(reporter).advs() + per_path(
            path_views(all_md@),
            |f: Seq<char>| heading_advisories(*store, f),
        ),
{
    let ghost ps = path_views(all_md@);
    let ghost h = |f: Seq<char>| heading_advisories(*store, f);
    let mut i: usize = 0;
    assert(ps.take(0) =~= Seq::<Seq<char>>::empty());
    while i < all_md.len()
        invariant
            i <= all_md.len(),
            ps == path_views(all_md@),
            h == (|f: Seq<char>| heading_advisories(*store, f)),
            reporter.viols() == old(reporter).viols(),
            reporter.advs() == old(reporter).advs() + per_path(ps.take(i as int), h),
        decreases all_md.len() - i,
    {
        proof {
            lemma_per_path_step(ps, h, i as int);
        }
        let f = &all_md[i];
        let ghost ba = reporter.advs();
        match heading_drift(store, f) {
            Some(m) => {
                reporter.advise(f, "heading", m);
            },
            None => {
                assert(ba + Seq::<(Seq<char>, Seq<char>, Seq<char>)>::empty() =~= ba);
            },
        }
        i += 1;
    }
    assert(ps.take(all_md.len() as int) == ps);
}

} // verus!
