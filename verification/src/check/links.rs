//! Markdown link extraction and resolution, shared by the link check, the
//! moved-source queue and record liveness. Extraction is fence-aware: a
//! `[text](destination)` inside a fenced code block is no link.
//! Resolution maps a destination to the path it names: `/x` against the
//! bundle root, anything else against the linking record's directory, with
//! `.` and `..` segments folded away. External links, mail links and
//! in-page anchors resolve to nothing.

use crate::callout::{dir_of, dir_of_exec};
use crate::check::records::{reserved, reserved_path};
use crate::check::reporter::{lemma_per_path_step, per_path, Reporter};
use crate::store::{contains_path, path_views, MapStore};
use crate::path::file_name_or_empty;
use crate::text::{
    chars_of, chars_of_string, contains, contains_str, ends_with_str, eq_str, extend,
    extend_str, find_char_from, find_char_from_exec, find_from, find_from_exec,
    has_prefix, join, join_exec, lemma_find_in_range, lines, lines_exec, slice, split_char,
    split_exec, starts_with_str, string_of, trim_start, trim_start_exec, has_suffix,
};
use vstd::prelude::*;

verus! {

/// A line that opens or closes a fenced code block.
pub open spec fn is_fence_line(l: Seq<char>) -> bool {
    has_prefix(trim_start(l), "```"@) || has_prefix(trim_start(l), "~~~"@)
}

pub proof fn lemma_find_char_in_range(s: Seq<char>, c: char, k: int)
    ensures
        find_char_from(s, c, k) matches Some(j) ==> k <= j < s.len() && s[j] == c,
    decreases s.len() - k,
{
    if 0 <= k < s.len() && s[k] != c {
        lemma_find_char_in_range(s, c, k + 1);
    }
}

/// The destinations of the `[text](destination)` links in `l` from `k` on.
pub open spec fn line_dests_from(l: Seq<char>, k: int) -> Seq<Seq<char>>
    decreases l.len() + 1 - k,
{
    if k < 0 || k > l.len() {
        Seq::<Seq<char>>::empty()
    } else {
        match find_from(l, "]("@, k) {
            None => Seq::<Seq<char>>::empty(),
            Some(i) => match find_char_from(l, ')', i + 2) {
                None => Seq::<Seq<char>>::empty(),
                Some(j) => {
                    proof {
                        lemma_find_in_range(l, "]("@, k);
                        lemma_find_char_in_range(l, ')', i + 2);
                    }
                    seq![l.subrange(i + 2, j)] + line_dests_from(l, j + 1)
                },
            },
        }
    }
}

/// Whether the lines `ls` end inside a fence, and the link destinations
/// found outside fences, in order.
pub open spec fn dests_of_lines(ls: Seq<Seq<char>>) -> (bool, Seq<Seq<char>>)
    decreases ls.len(),
{
    if ls.len() == 0 {
        (false, Seq::<Seq<char>>::empty())
    } else {
        let (fenced, ds) = dests_of_lines(ls.drop_last());
        let l = ls.last();
        if is_fence_line(l) {
            (!fenced, ds)
        } else if fenced {
            (fenced, ds)
        } else {
            (fenced, ds + line_dests_from(l, 0))
        }
    }
}

/// The link destinations of `contents`, outside fenced code, in order.
pub open spec fn destinations(contents: Seq<char>) -> Seq<Seq<char>> {
    dests_of_lines(lines(contents)).1
}

/// One path segment folded into the already-folded `acc`: `.` vanishes,
/// `..` drops the last real segment.
pub open spec fn fold_segment(acc: Seq<Seq<char>>, seg: Seq<char>) -> Seq<Seq<char>> {
    if seg == "."@ {
        acc
    } else if seg == ".."@ && acc.len() > 0 && acc.last().len() > 0 && acc.last() != ".."@ {
        acc.drop_last()
    } else {
        acc.push(seg)
    }
}

/// The segments left after folding `segs` from the left.
pub open spec fn folded(segs: Seq<Seq<char>>) -> Seq<Seq<char>>
    decreases segs.len(),
{
    if segs.len() == 0 {
        Seq::<Seq<char>>::empty()
    } else {
        fold_segment(folded(segs.drop_last()), segs.last())
    }
}

/// `p` with its `.` and `..` segments folded away.
pub open spec fn normalized(p: Seq<char>) -> Seq<char> {
    join(folded(split_char(p, '/')), seq!['/'])
}

/// `d` up to its first `#`.
pub open spec fn without_anchor(d: Seq<char>) -> Seq<char> {
    match find_char_from(d, '#', 0) {
        Some(k) => d.take(k),
        None => d,
    }
}

/// The path a link destination in `file` names, relative to `bundle` for a
/// leading `/`; `None` for an external, mail or in-page link.
pub open spec fn resolved(file: Seq<char>, dest: Seq<char>, bundle: Seq<char>) -> Option<Seq<char>> {
    if contains(dest, "://"@) || has_prefix(dest, "mailto:"@) {
        None
    } else {
        let d = without_anchor(dest);
        if d.len() == 0 {
            None
        } else if d[0] == '/' {
            Some(normalized(bundle + d))
        } else {
            Some(normalized(dir_of(file) + seq!['/'] + d))
        }
    }
}

/// The destinations of the links in one line.
pub fn line_destinations(l: &Vec<char>) -> (r: Vec<Vec<char>>)
    ensures
        r@.map_values(|v: Vec<char>| v@) == line_dests_from(l@, 0),
{
    let pat = chars_of("](");
    proof {
        reveal_strlit("](");
    }
    let mut out: Vec<Vec<char>> = Vec::new();
    let mut k: usize = 0;
    while k <= l.len()
        invariant
            k <= l.len() + 1,
            pat@ == "]("@,
            line_dests_from(l@, 0) == out@.map_values(|v: Vec<char>| v@) + line_dests_from(
                l@,
                k as int,
            ),
        ensures
            line_dests_from(l@, 0) == out@.map_values(|v: Vec<char>| v@),
        decreases l.len() + 1 - k,
    {
        proof {
            reveal_strlit("](");
        }
        let i = match find_from_exec(l, &pat, k) {
            None => {
                assert(line_dests_from(l@, k as int) =~= Seq::<Seq<char>>::empty());
                assert(out@.map_values(|v: Vec<char>| v@) + Seq::<Seq<char>>::empty() =~= out@.map_values(
                    |v: Vec<char>| v@,
                ));
                break;
            },
            Some(i) => i,
        };
        proof {
            lemma_find_in_range(l@, "]("@, k as int);
        }
        let j = match find_char_from_exec(l, ')', i + 2) {
            None => {
                assert(line_dests_from(l@, k as int) =~= Seq::<Seq<char>>::empty());
                assert(out@.map_values(|v: Vec<char>| v@) + Seq::<Seq<char>>::empty() =~= out@.map_values(
                    |v: Vec<char>| v@,
                ));
                break;
            },
            Some(j) => j,
        };
        proof {
            lemma_find_char_in_range(l@, ')', i + 2);
        }
        let d = slice(l, i + 2, j);
        let ghost before = out@.map_values(|v: Vec<char>| v@);
        out.push(d);
        assert(out@.map_values(|v: Vec<char>| v@) =~= before.push(d@));
        assert(line_dests_from(l@, k as int) == seq![l@.subrange(i + 2, j as int)]
            + line_dests_from(l@, j + 1));
        assert(before + line_dests_from(l@, k as int) =~= before.push(d@) + line_dests_from(
            l@,
            j + 1,
        ));
        k = j + 1;
        if k > l.len() {
            assert(line_dests_from(l@, k as int) =~= Seq::<Seq<char>>::empty());
            assert(out@.map_values(|v: Vec<char>| v@) + Seq::<Seq<char>>::empty() =~= out@.map_values(
                |v: Vec<char>| v@,
            ));
        }
    }
    out
}

fn is_fence_line_exec(l: &Vec<char>) -> (r: bool)
    ensures
        r == is_fence_line(l@),
{
    let t = trim_start_exec(l);
    starts_with_str(&t, "```") || starts_with_str(&t, "~~~")
}

/// The destinations of every link in `contents` outside fenced code, in
/// order.
pub fn link_destinations(contents: &str) -> (r: Vec<String>)
    ensures
        path_views(r@) == destinations(contents@),
{
    let ls = lines_exec(&chars_of(contents));
    let ghost lv = ls@.map_values(|v: Vec<char>| v@);
    let mut out: Vec<String> = Vec::new();
    let mut fenced = false;
    let mut i: usize = 0;
    while i < ls.len()
        invariant
            i <= ls.len(),
            lv == ls@.map_values(|v: Vec<char>| v@),
            lv == lines(contents@),
            (fenced, path_views(out@)) == dests_of_lines(lv.take(i as int)),
        decreases ls.len() - i,
    {
        proof {
            assert(lv.take(i + 1).drop_last() == lv.take(i as int));
            assert(lv.take(i + 1).last() == ls@[i as int]@);
        }
        let l = &ls[i];
        if is_fence_line_exec(l) {
            fenced = !fenced;
        } else if !fenced {
            let ds = line_destinations(l);
            let ghost dv = ds@.map_values(|v: Vec<char>| v@);
            let ghost before = path_views(out@);
            let mut j: usize = 0;
            while j < ds.len()
                invariant
                    j <= ds.len(),
                    dv == ds@.map_values(|v: Vec<char>| v@),
                    path_views(out@) == before + dv.take(j as int),
                decreases ds.len() - j,
            {
                assert(dv[j as int] == ds@[j as int]@);
                let ghost pv = path_views(out@);
                let sj = string_of(&ds[j]);
                out.push(sj);
                assert(path_views(out@) =~= pv.push(dv[j as int]));
                assert(dv.take(j + 1) =~= dv.take(j as int).push(dv[j as int]));
                j += 1;
                assert(path_views(out@) =~= before + dv.take(j as int));
            }
            assert(dv.take(ds.len() as int) == dv);
        }
        i += 1;
    }
    assert(lv.take(ls.len() as int) == lv);
    out
}

/// `p` with its `.` and `..` segments folded away.
pub fn normalize(p: &Vec<char>) -> (r: Vec<char>)
    ensures
        r@ == normalized(p@),
{
    let segs = split_exec(p, '/');
    let ghost sv = segs@.map_values(|v: Vec<char>| v@);
    let mut acc: Vec<Vec<char>> = Vec::new();
    let mut i: usize = 0;
    while i < segs.len()
        invariant
            i <= segs.len(),
            sv == segs@.map_values(|v: Vec<char>| v@),
            sv == split_char(p@, '/'),
            acc@.map_values(|v: Vec<char>| v@) == folded(sv.take(i as int)),
        decreases segs.len() - i,
    {
        proof {
            assert(sv.take(i + 1).drop_last() == sv.take(i as int));
            assert(sv.take(i + 1).last() == segs@[i as int]@);
        }
        let ghost av = acc@.map_values(|v: Vec<char>| v@);
        let seg = &segs[i];
        if eq_str(seg, ".") {
        } else if eq_str(seg, "..") && acc.len() > 0 && acc[acc.len() - 1].len() > 0 && !eq_str(
            &acc[acc.len() - 1],
            "..",
        ) {
            assert(av.last() == acc@[acc.len() - 1]@);
            acc.pop();
            assert(acc@.map_values(|v: Vec<char>| v@) =~= av.drop_last());
        } else {
            if acc.len() > 0 {
                assert(av.last() == acc@[acc.len() - 1]@);
            }
            acc.push(seg.clone());
            assert(acc@.map_values(|v: Vec<char>| v@) =~= av.push(seg@));
        }
        i += 1;
    }
    assert(sv.take(segs.len() as int) == sv);
    let sep = vec!['/'];
    assert(sep@ == seq!['/']);
    join_exec(&acc, &sep)
}

fn without_anchor_exec(d: &Vec<char>) -> (r: Vec<char>)
    ensures
        r@ == without_anchor(d@),
{
    match find_char_from_exec(d, '#', 0) {
        Some(k) => slice(d, 0, k),
        None => d.clone(),
    }
}

/// The path the link destination `dest` in `file` names: a leading `/`
/// is the bundle root, anything else is relative to `file`'s directory.
/// `None` for an external, mail or pure-anchor link.
pub fn resolve_destination(file: &str, dest: &str, bundle: &str) -> (r: Option<String>)
    ensures
        r matches Some(p) ==> resolved(file@, dest@, bundle@) == Some(p@),
        r is None ==> resolved(file@, dest@, bundle@) is None,
{
    let dc = chars_of(dest);
    if contains_str(&dc, "://") || starts_with_str(&dc, "mailto:") {
        return None;
    }
    let d = without_anchor_exec(&dc);
    if d.len() == 0 {
        return None;
    }
    let mut full: Vec<char>;
    if d[0] == '/' {
        full = chars_of(bundle);
    } else {
        full = dir_of_exec(&chars_of(file));
        full.push('/');
    }
    extend(&mut full, &d);
    assert(d@ == without_anchor(dest@));
    if d[0] == '/' {
        assert(full@ == bundle@ + without_anchor(dest@));
    } else {
        assert(full@ == dir_of(file@) + seq!['/'] + without_anchor(dest@));
    }
    Some(string_of(&normalize(&full)))
}

/// The message for a link to a markdown file that is not in the bundle.
pub open spec fn broken_link_message(target: Seq<char>) -> Seq<char> {
    "broken link -> "@ + target
}

/// The broken markdown links among `ds`, as findings against `f`.
pub open spec fn broken_in(
    f: Seq<char>,
    ds: Seq<Seq<char>>,
    bundle: Seq<char>,
    paths: Seq<Seq<char>>,
) -> Seq<(Seq<char>, Seq<char>)>
    decreases ds.len(),
{
    if ds.len() == 0 {
        Seq::<(Seq<char>, Seq<char>)>::empty()
    } else {
        broken_in(f, ds.drop_last(), bundle, paths) + match resolved(f, ds.last(), bundle) {
            Some(t) => if has_suffix(t, ".md"@) && !paths.contains(t) {
                seq![(f, broken_link_message(t))]
            } else {
                Seq::<(Seq<char>, Seq<char>)>::empty()
            },
            None => Seq::<(Seq<char>, Seq<char>)>::empty(),
        }
    }
}

/// The broken-link violations of one listed record.
pub open spec fn link_findings(store: MapStore, bundle: Seq<char>, f: Seq<char>, paths: Seq<Seq<char>>) -> Seq<
    (Seq<char>, Seq<char>),
> {
    if reserved(file_name_or_empty(f)) {
        Seq::<(Seq<char>, Seq<char>)>::empty()
    } else {
        match store.get(f) {
            None => Seq::<(Seq<char>, Seq<char>)>::empty(),
            Some(c) => broken_in(f, destinations(c), bundle, paths),
        }
    }
}

fn check_file_links(
    store: &MapStore,
    bundle: &String,
    f: &String,
    all_md: &Vec<String>,
    reporter: &mut Reporter,
)
    ensures
        final(reporter).viols() == old(reporter).viols() + link_findings(
            *store,
            bundle@,
            f@,
            path_views(all_md@),
        ),
        final(reporter).advs() == old(reporter).advs(),
{
    if reserved_path(f) {
        assert(old(reporter).viols() + Seq::<(Seq<char>, Seq<char>)>::empty() =~= old(
            reporter,
        ).viols());
        return;
    }
    let contents = match store.read(f) {
        Some(c) => c,
        None => {
            assert(old(reporter).viols() + Seq::<(Seq<char>, Seq<char>)>::empty() =~= old(
                reporter,
            ).viols());
            return;
        },
    };
    let ds = link_destinations(contents.as_str());
    let ghost dv = path_views(ds@);
    let ghost ps = path_views(all_md@);
    let mut i: usize = 0;
    while i < ds.len()
        invariant
            i <= ds.len(),
            dv == path_views(ds@),
            ps == path_views(all_md@),
            reporter.viols() == old(reporter).viols() + broken_in(f@, dv.take(i as int), bundle@, ps),
            reporter.advs() == old(reporter).advs(),
        decreases ds.len() - i,
    {
        proof {
            assert(dv.take(i + 1).drop_last() == dv.take(i as int));
            assert(dv.take(i + 1).last() == dv[i as int]);
        }
        let ghost before = reporter.viols();
        let mut reported = false;
        match resolve_destination(f.as_str(), ds[i].as_str(), bundle.as_str()) {
            None => {},
            Some(t) => {
                let tc = chars_of_string(&t);
                if ends_with_str(&tc, ".md") && !contains_path(all_md, &t) {
                    let mut m = chars_of("broken link -> ");
                    extend(&mut m, &tc);
                    reporter.report(f, string_of(&m));
                    reported = true;
                }
            },
        }
        if !reported {
            assert(before + Seq::<(Seq<char>, Seq<char>)>::empty() =~= before);
        }
        i += 1;
    }
    assert(dv.take(ds.len() as int) == dv);
}

/// Reports, for every record, each link to a markdown file that the
/// bundle does not hold.
pub fn check_links(store: &MapStore, bundle: &String, all_md: &Vec<String>, reporter: &mut Reporter)
    ensures
        final(reporter).viols() == old(reporter).viols() + per_path(
            path_views(all_md@),
            |f: Seq<char>| link_findings(*store, bundle@, f, path_views(all_md@)),
        ),
        final(reporter).advs() == old(reporter).advs(),
{
    let ghost ps = path_views(all_md@);
    let ghost g = |f: Seq<char>| link_findings(*store, bundle@, f, ps);
    let mut i: usize = 0;
    assert(ps.take(0) =~= Seq::<Seq<char>>::empty());
    while i < all_md.len()
        invariant
            i <= all_md.len(),
            ps == path_views(all_md@),
            g == (|f: Seq<char>| link_findings(*store, bundle@, f, ps)),
            reporter.viols() == old(reporter).viols() + per_path(ps.take(i as int), g),
            reporter.advs() == old(reporter).advs(),
        decreases all_md.len() - i,
    {
        proof {
            lemma_per_path_step(ps, g, i as int);
        }
        check_file_links(store, bundle, &all_md[i], all_md, reporter);
        i += 1;
    }
    assert(ps.take(all_md.len() as int) == ps);
}

} // verus!
