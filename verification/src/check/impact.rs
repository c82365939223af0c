//! The `stale-impact` half of record liveness: does an accepted record's
//! `**Implementation impact:**` still name paths that exist? The impact
//! line is free-form prose, so extraction is conservative: only
//! backtick-quoted tokens that look like a repository path (a `/`-bearing
//! token with a file extension), not annotated `(removed)`, count.

use crate::check::links::lemma_find_char_in_range;
use crate::path::{extension, extension_exec};
use crate::text::{
    chars_of, contains, contains_str, find_char_from, find_char_from_exec, has_char,
    has_prefix, join, join_lines, lines, lines_exec, lowercase, lowercase_exec, nl, slice,
    starts_with_str, string_of, trim, trim_exec,
};
use vstd::prelude::*;

verus! {

/// The state after reading lines `ls`: inside the impact block, stopped for
/// good, and the lines kept.
pub open spec fn segment_state(ls: Seq<Seq<char>>) -> (bool, bool, Seq<Seq<char>>)
    decreases ls.len(),
{
    if ls.len() == 0 {
        (false, false, Seq::<Seq<char>>::empty())
    } else {
        let (inside, stopped, kept) = segment_state(ls.drop_last());
        let l = ls.last();
        let t = trim(l);
        if stopped {
            (inside, stopped, kept)
        } else if contains(l, "**Implementation impact:"@) {
            (true, false, kept.push(l))
        } else if !inside {
            (inside, stopped, kept)
        } else if t.len() == 0 || has_prefix(t, "**"@) || has_prefix(t, "#"@) {
            (inside, true, kept)
        } else {
            (inside, stopped, kept.push(l))
        }
    }
}

/// The `**Implementation impact:**` block of `contents`: from that
/// emphasized label to the next bold label, heading or blank line.
pub open spec fn impact_text(contents: Seq<char>) -> Seq<char> {
    join(segment_state(lines(contents)).2, nl())
}

/// A token shaped like a repository path: a `/` and a non-empty extension.
pub open spec fn path_shaped(token: Seq<char>) -> bool {
    token.contains('/') && match extension(token) {
        Some(e) => e.len() > 0,
        None => false,
    }
}

/// The sixteen characters after index `after` carry a removal note.
pub open spec fn removed_after(segment: Seq<char>, after: int) -> bool {
    if after > segment.len() {
        false
    } else {
        let end = if after + 16 < segment.len() {
            after + 16
        } else {
            segment.len() as int
        };
        let tail = lowercase(segment.subrange(after, end));
        contains(tail, "(removed"@) || contains(tail, "(deleted"@) || contains(tail, "(gone"@)
    }
}

/// The path-shaped, not-removed backtick tokens of `segment` from `k` on.
pub open spec fn tokens_from(segment: Seq<char>, k: int) -> Seq<Seq<char>>
    decreases segment.len() + 1 - k,
{
    if k < 0 || k > segment.len() {
        Seq::<Seq<char>>::empty()
    } else {
        match find_char_from(segment, '`', k) {
            None => Seq::<Seq<char>>::empty(),
            Some(o) => match find_char_from(segment, '`', o + 1) {
                None => Seq::<Seq<char>>::empty(),
                Some(c) => {
                    proof {
                        lemma_find_char_in_range(segment, '`', k);
                        lemma_find_char_in_range(segment, '`', o + 1);
                    }
                    let tok = segment.subrange(o + 1, c);
                    (if path_shaped(tok) && !removed_after(segment, c + 1) {
                        seq![tok]
                    } else {
                        Seq::<Seq<char>>::empty()
                    }) + tokens_from(segment, c + 1)
                },
            },
        }
    }
}

/// The text of the record's `**Implementation impact:**` block. The label
/// must be the emphasized form, so a template guidance comment that merely
/// mentions it is never read as the impact line.
pub fn impact_segment(contents: &str) -> (r: String)
    ensures
        r@ == impact_text(contents@),
{
    let ls = lines_exec(&chars_of(contents));
    let ghost lv = ls@.map_values(|v: Vec<char>| v@);
    let mut kept: Vec<Vec<char>> = Vec::new();
    let mut inside = false;
    let mut i: usize = 0;
    assert(lv.take(ls.len() as int) == lv);
    while i < ls.len()
        invariant
            i <= ls.len(),
            lv == ls@.map_values(|v: Vec<char>| v@),
            lv.take(ls.len() as int) == lv,
            lv == lines(contents@),
            segment_state(lv.take(i as int)) == (inside, false, kept@.map_values(
                |v: Vec<char>| v@,
            )),
        ensures
            segment_state(lv).2 == kept@.map_values(|v: Vec<char>| v@),
        decreases ls.len() - i,
    {
        proof {
            assert(lv.take(i + 1).drop_last() == lv.take(i as int));
            assert(lv.take(i + 1).last() == ls@[i as int]@);
        }
        let l = &ls[i];
        let ghost before = kept@.map_values(|v: Vec<char>| v@);
        if contains_str(l, "**Implementation impact:") {
            inside = true;
            kept.push(l.clone());
            assert(kept@.map_values(|v: Vec<char>| v@) =~= before.push(l@));
        } else if inside {
            let t = trim_exec(l);
            if t.len() == 0 || starts_with_str(&t, "**") || starts_with_str(&t, "#") {
                proof {
                    lemma_stopped_stays(lv, i as int + 1);
                }
                break;
            }
            kept.push(l.clone());
            assert(kept@.map_values(|v: Vec<char>| v@) =~= before.push(l@));
        }
        i += 1;
    }
    string_of(&join_lines(&kept))
}

proof fn lemma_stopped_stays(ls: Seq<Seq<char>>, k: int)
    requires
        0 <= k <= ls.len(),
        segment_state(ls.take(k)).1,
    ensures
        segment_state(ls) == segment_state(ls.take(k)),
    decreases ls.len() - k,
{
    if k < ls.len() {
        assert(ls.take(k + 1).drop_last() == ls.take(k));
        lemma_stopped_stays(ls, k + 1);
    } else {
        assert(ls.take(k) == ls);
    }
}

/// Whether `token` is shaped like a repository path.
pub fn is_path_shaped(token: &str) -> (r: bool)
    ensures
        r == path_shaped(token@),
{
    let t = chars_of(token);
    if !has_char(&t, '/') {
        return false;
    }
    match extension_exec(&t) {
        Some(e) => e.len() > 0,
        None => false,
    }
}

/// Whether the sixteen characters after `after` carry a `(removed`,
/// `(deleted` or `(gone` note.
pub fn annotated_removed(segment: &Vec<char>, after: usize) -> (r: bool)
    ensures
        r == removed_after(segment@, after as int),
{
    if after > segment.len() {
        return false;
    }
    let end = if after < segment.len() && segment.len() - after > 16 {
        after + 16
    } else {
        segment.len()
    };
    let tail = lowercase_exec(&slice(segment, after, end));
    contains_str(&tail, "(removed") || contains_str(&tail, "(deleted") || contains_str(
        &tail,
        "(gone",
    )
}

/// Every backtick-quoted token of `segment` that is path-shaped and not
/// annotated as removed, in order.
pub fn impact_paths(segment: &str) -> (r: Vec<String>)
    ensures
        crate::store::path_views(r@) == tokens_from(segment@, 0),
{
    let s = chars_of(segment);
    let mut out: Vec<String> = Vec::new();
    let mut k: usize = 0;
    while k <= s.len()
        invariant
            k <= s.len() + 1,
            s@ == segment@,
            tokens_from(segment@, 0) == crate::store::path_views(out@) + tokens_from(
                segment@,
                k as int,
            ),
        ensures
            tokens_from(segment@, 0) == crate::store::path_views(out@),
        decreases s.len() + 1 - k,
    {
        let ghost before = crate::store::path_views(out@);
        let o = match find_char_from_exec(&s, '`', k) {
            None => {
                assert(before + tokens_from(segment@, k as int) =~= before);
                break;
            },
            Some(o) => o,
        };
        proof {
            lemma_find_char_in_range(s@, '`', k as int);
        }
        let c = match find_char_from_exec(&s, '`', o + 1) {
            None => {
                assert(before + tokens_from(segment@, k as int) =~= before);
                break;
            },
            Some(c) => c,
        };
        proof {
            lemma_find_char_in_range(s@, '`', o + 1);
        }
        let tok = string_of(&slice(&s, o + 1, c));
        let keep = is_path_shaped(tok.as_str()) && !annotated_removed(&s, c + 1);
        if keep {
            out.push(tok);
        }
        assert(tokens_from(segment@, k as int) == (if keep {
            seq![segment@.subrange(o + 1, c as int)]
        } else {
            Seq::<Seq<char>>::empty()
        }) + tokens_from(segment@, c + 1));
        assert(before + tokens_from(segment@, k as int) =~= crate::store::path_views(out@)
            + tokens_from(segment@, c + 1));
        k = c + 1;
        if k > s.len() {
            assert(crate::store::path_views(out@) + tokens_from(segment@, k as int)
                =~= crate::store::path_views(out@));
        }
    }
    out
}

} // verus!
