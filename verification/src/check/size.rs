//! Advisory body-size check: decision and execution records aim for about
//! 100 body lines; past 120 the check notes the record with a `SIZE`
//! advisory. Whether a type carries the line target is its registry row's
//! `body_size`; a retired record is history and is never flagged.

use crate::check::records::reserved_path;
use crate::check::records::reserved;
use crate::check::reporter::{lemma_per_path_step, per_path, Reporter};
use crate::doc_type::{row_for_frontmatter, row_retires, spec_for_frontmatter, BodySize};
use crate::frontmatter::scalar;
use crate::frontmatter::frontmatter_scalar;
use crate::path::file_name_or_empty;
use crate::store::{path_views, MapStore};
use crate::text::{chars_of, decimal, decimal_exec, eq_str, extend, extend_str, lines, lines_exec, string_of};
use vstd::prelude::*;

verus! {

/// Past this many body lines a targeted record is flagged.
pub const WARN_LINES: usize = 120;

/// The body length a targeted record aims for.
pub const AIM_LINES: usize = 100;

/// The index of the first `---` line at or after `i`.
pub open spec fn closing_fence_from(ls: Seq<Seq<char>>, i: int) -> Option<int>
    decreases ls.len() - i,
{
    if i < 0 || i >= ls.len() {
        None
    } else if ls[i] == "---"@ {
        Some(i)
    } else {
        closing_fence_from(ls, i + 1)
    }
}

/// Where the body starts among `ls`: just past the closing `---` when the
/// first line opens a frontmatter block that closes, else at line 0.
pub open spec fn body_start(ls: Seq<Seq<char>>) -> int {
    if ls.len() == 0 || ls[0] != "---"@ {
        0
    } else {
        match closing_fence_from(ls, 1) {
            Some(k) => k + 1,
            None => 0,
        }
    }
}

/// How many lines the body of `content` has.
pub open spec fn body_lines(content: Seq<char>) -> int {
    lines(content).len() - body_start(lines(content))
}

/// The body length of a targeted, live record past the warn threshold.
pub open spec fn over_target(content: Seq<char>) -> Option<int> {
    match scalar(content, "type"@) {
        None => None,
        Some(t) => match row_for_frontmatter(t) {
            None => None,
            Some(row) => if row.body_size != BodySize::Targeted {
                None
            } else if scalar(content, "status"@) matches Some(s) && row_retires(row, s) {
                None
            } else if body_lines(content) > WARN_LINES {
                Some(body_lines(content))
            } else {
                None
            },
        },
    }
}

/// The advisory message for a body of `n` lines.
pub open spec fn size_message(n: int) -> Seq<char> {
    "SIZE body "@ + decimal(n as nat) + " lines exceeds the 120-line advisory target (aim ~100)"@
}

/// The size advisory for one listed path.
pub open spec fn size_advisories(store: MapStore, f: Seq<char>) -> Seq<
    (Seq<char>, Seq<char>, Seq<char>),
> {
    if reserved(file_name_or_empty(f)) {
        Seq::<(Seq<char>, Seq<char>, Seq<char>)>::empty()
    } else {
        match store.get(f) {
            None => Seq::<(Seq<char>, Seq<char>, Seq<char>)>::empty(),
            Some(c) => match over_target(c) {
                Some(n) => seq![(f, "size"@, size_message(n))],
                None => Seq::<(Seq<char>, Seq<char>, Seq<char>)>::empty(),
            },
        }
    }
}

/// Where the body starts among the lines `ls`.
pub fn body_start_index(ls: &Vec<Vec<char>>) -> (r: usize)
    ensures
        r as int == body_start(ls@.map_values(|v: Vec<char>| v@)),
        r <= ls.len(),
{
    let ghost lv = ls@.map_values(|v: Vec<char>| v@);
    if ls.len() > 0 {
        assert(lv[0] == ls@[0]@);
    }
    if ls.len() == 0 || !eq_str(&ls[0], "---") {
        return 0;
    }
    let mut i: usize = 1;
    while i < ls.len()
        invariant
            1 <= i <= ls.len(),
            lv == ls@.map_values(|v: Vec<char>| v@),
            lv.len() == ls.len(),
            lv[0] == "---"@,
            closing_fence_from(lv, 1) == closing_fence_from(lv, i as int),
        decreases ls.len() - i,
    {
        assert(lv[i as int] == ls@[i as int]@);
        if eq_str(&ls[i], "---") {
            return i + 1;
        }
        i += 1;
    }
    0
}

/// How many lines the body of `content` has, frontmatter excluded.
pub fn body_line_count(content: &str) -> (r: usize)
    ensures
        r as int == body_lines(content@),
{
    let ls = lines_exec(&chars_of(content));
    ls.len() - body_start_index(&ls)
}

/// The body length of a record over the advisory target: a type whose row
/// is `Targeted`, a record not retired, a body past 120 lines.
pub fn over_target_body_lines(content: &str) -> (r: Option<usize>)
    ensures
        r matches Some(n) ==> over_target(content@) == Some(n as int),
        r is None ==> over_target(content@) is None,
{
    let doc_type = match frontmatter_scalar(content, "type") {
        Some(t) => t,
        None => return None,
    };
    let spec = match spec_for_frontmatter(doc_type.as_str()) {
        Some(s) => s,
        None => return None,
    };
    if spec.body_size != BodySize::Targeted {
        return None;
    }
    match frontmatter_scalar(content, "status") {
        Some(s) => {
            if spec.is_retired(s.as_str()) {
                return None;
            }
        },
        None => {},
    }
    let n = body_line_count(content);
    if n > WARN_LINES {
        Some(n)
    } else {
        None
    }
}

/// Advises, with kind `size`, on every record over its body-size target.
/// Never a violation.
pub fn check_body_size(store: &MapStore, all_md: &Vec<String>, reporter: &mut Reporter)
    ensures
        final(reporter).viols() == old(reporter).viols(),
        final(reporter).advs() == old(reporter).advs() + per_path(
            path_views(all_md@),
            |f: Seq<char>| size_advisories(*store, f),
        ),
{
    let ghost ps = path_views(all_md@);
    let ghost h = |f: Seq<char>| size_advisories(*store, f);
    let mut i: usize = 0;
    assert(ps.take(0) =~= Seq::<Seq<char>>::empty());
    while i < all_md.len()
        invariant
            i <= all_md.len(),
            ps == path_views(all_md@),
            h == (|f: Seq<char>| size_advisories(*store, f)),
            reporter.viols() == old(reporter).viols(),
            reporter.advs() == old(reporter).advs() + per_path(ps.take(i as int), h),
        decreases all_md.len() - i,
    {
        proof {
            lemma_per_path_step(ps, h, i as int);
        }
        let f = &all_md[i];
        let ghost ba = reporter.advs();
        let mut found = false;
        if !reserved_path(f) {
            match store.read(f) {
                None => {},
                Some(content) => match over_target_body_lines(content.as_str()) {
                    None => {},
                    Some(n) => {
                        let mut m = chars_of("SIZE body ");
                        extend(&mut m, &decimal_exec(n as u64));
                        extend_str(
                            &mut m,
                            " lines exceeds the 120-line advisory target (aim ~100)",
                        );
                        reporter.advise(f, "size", string_of(&m));
                        found = true;
                    },
                },
            }
        }
        if !found {
            assert(ba + Seq::<(Seq<char>, Seq<char>, Seq<char>)>::empty() =~= ba);
        }
        i += 1;
    }
    assert(ps.take(all_md.len() as int) == ps);
}

} // verus!
