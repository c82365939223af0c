//! Per-file record checks: the OKF frontmatter and `type`, the reserved
//! `index.md`/`log.md` files, the supersede chain, and the owner
//! requirement. Every record is read through the store, and the supersede
//! target is looked up among the paths the store listed.

use crate::callout::{dir_of, dir_of_exec, record_id_matches, record_id_matches_exec};
use crate::check::reporter::{lemma_per_path_step, per_path, Reporter};
use crate::doc_type::{row_for_frontmatter, spec_for_frontmatter};
use crate::frontmatter::{frontmatter_scalar, scalar};
use crate::path::{file_name_or_empty, file_name_or_empty_exec};
use crate::store::{path_views, MapStore};
use crate::text::{
    chars_of, chars_of_string, eq, eq_str, extend, extend_str, lines, lines_exec, lowercase,
    lowercase_exec, string_of,
};
use vstd::prelude::*;

verus! {

/// `index.md` and `log.md`: presentation files outside the record domain.
pub open spec fn reserved(basename: Seq<char>) -> bool {
    basename == "index.md"@ || basename == "log.md"@
}

/// The text opens with a `---` line.
pub open spec fn opens_with_fence(c: Seq<char>) -> bool {
    lines(c).len() > 0 && lines(c)[0] == "---"@
}

/// What the store holds at `p`, or the empty text.
pub open spec fn stored(store: MapStore, p: Seq<char>) -> Seq<char> {
    match store.get(p) {
        Some(c) => c,
        None => Seq::<char>::empty(),
    }
}

/// The findings for a reserved file `f` named `base` with text `c`: it
/// carries no frontmatter, but the bundle-root index's must declare
/// `okf_version`.
pub open spec fn reserved_file_findings(
    f: Seq<char>,
    base: Seq<char>,
    root_index: Seq<char>,
    c: Seq<char>,
) -> Seq<(Seq<char>, Seq<char>)> {
    if !opens_with_fence(c) {
        Seq::<(Seq<char>, Seq<char>)>::empty()
    } else if f == root_index {
        if scalar(c, "okf_version"@) is None {
            seq![(f, "bundle-root index.md frontmatter lacks okf_version"@)]
        } else {
            Seq::<(Seq<char>, Seq<char>)>::empty()
        }
    } else {
        seq![(f, base + " must not carry frontmatter (OKF §6)"@)]
    }
}

/// The findings for a record `f` with text `c`: it needs frontmatter with
/// a non-empty `type`.
pub open spec fn concept_file_findings(f: Seq<char>, c: Seq<char>) -> Seq<
    (Seq<char>, Seq<char>),
> {
    if !opens_with_fence(c) {
        seq![(f, "missing OKF frontmatter (needs a non-empty 'type')"@)]
    } else if scalar(c, "type"@) is None {
        seq![(f, "frontmatter has no non-empty 'type'"@)]
    } else {
        Seq::<(Seq<char>, Seq<char>)>::empty()
    }
}

/// The frontmatter/format findings for one file.
pub open spec fn format_findings(store: MapStore, f: Seq<char>, root_index: Seq<char>) -> Seq<
    (Seq<char>, Seq<char>),
> {
    let base = file_name_or_empty(f);
    let c = stored(store, f);
    if reserved(base) {
        reserved_file_findings(f, base, root_index, c)
    } else {
        concept_file_findings(f, c)
    }
}

/// `id`'s record exists in `dir` among `paths`.
pub open spec fn sibling_exists(dir: Seq<char>, id: Seq<char>, paths: Seq<Seq<char>>) -> bool {
    exists|i: int| 0 <= i < paths.len() && record_id_matches(dir, #[trigger] paths[i], id)
}

/// The supersede-chain findings for one file.
pub open spec fn chain_findings(store: MapStore, f: Seq<char>, paths: Seq<Seq<char>>) -> Seq<
    (Seq<char>, Seq<char>),
> {
    match store.get(f) {
        None => Seq::<(Seq<char>, Seq<char>)>::empty(),
        Some(c) => if reserved(file_name_or_empty(f)) || !opens_with_fence(c) {
            Seq::<(Seq<char>, Seq<char>)>::empty()
        } else {
            match scalar(c, "status"@) {
                None => Seq::<(Seq<char>, Seq<char>)>::empty(),
                Some(status) => if lowercase(status) != "superseded"@ {
                    Seq::<(Seq<char>, Seq<char>)>::empty()
                } else {
                    match scalar(c, "superseded_by"@) {
                        None => seq![
                            (f, "status: Superseded but superseded_by is empty (invariant 4)"@),
                        ],
                        Some(sb) => if sibling_exists(dir_of(f), sb, paths) {
                            Seq::<(Seq<char>, Seq<char>)>::empty()
                        } else {
                            seq![
                                (f, "superseded_by: "@ + sb + " has no matching record in "@
                                    + dir_of(f) + " (invariant 4)"@),
                            ]
                        },
                    }
                },
            }
        },
    }
}

/// The message for a record of type `frontmatter` without an owner.
pub open spec fn no_owner_message(frontmatter: Seq<char>) -> Seq<char> {
    frontmatter + " record has no owner"@
}

/// The owner message for a record with text `c` whose registry row
/// requires an owner and whose frontmatter names none.
pub open spec fn missing_owner(c: Seq<char>) -> Option<Seq<char>> {
    match scalar(c, "type"@) {
        None => None,
        Some(t) => match row_for_frontmatter(t) {
            None => None,
            Some(row) => if row.requires_owner && scalar(c, "owner"@) is None {
                Some(no_owner_message(row.frontmatter))
            } else {
                None
            },
        },
    }
}

/// Whether `f` is a record whose type requires an owner and has none.
pub open spec fn lacks_owner(store: MapStore, f: Seq<char>) -> Option<Seq<char>> {
    match store.get(f) {
        None => None,
        Some(c) => if reserved(file_name_or_empty(f)) || !opens_with_fence(c) {
            None
        } else {
            missing_owner(c)
        },
    }
}

/// Whether `basename` is a reserved file.
pub fn is_reserved(basename: &str) -> (r: bool)
    ensures
        r == reserved(basename@),
{
    let b = chars_of(basename);
    is_reserved_chars(&b)
}

pub fn is_reserved_chars(b: &Vec<char>) -> (r: bool)
    ensures
        r == reserved(b@),
{
    eq_str(b, "index.md") || eq_str(b, "log.md")
}

/// Whether a record's first line is the `---` fence.
pub fn has_frontmatter(contents: &str) -> (r: bool)
    ensures
        r == opens_with_fence(contents@),
{
    let ls = lines_exec(&chars_of(contents));
    ls.len() > 0 && eq_str(&ls[0], "---")
}

pub fn reserved_path(f: &String) -> (r: bool)
    ensures
        r == reserved(file_name_or_empty(f@)),
{
    let base = file_name_or_empty_exec(&chars_of_string(f));
    is_reserved_chars(&base)
}

/// Reports a reserved file that carries frontmatter, or a bundle-root
/// index whose frontmatter lacks `okf_version`.
fn check_reserved_file(
    f: &String,
    base: &Vec<char>,
    root_index: &String,
    contents: &str,
    reporter: &mut Reporter,
)
    ensures
        final(reporter).viols() == old(reporter).viols() + reserved_file_findings(
            f@,
            base@,
            root_index@,
            contents@,
        ),
        final(reporter).advs() == old(reporter).advs(),
{
    proof {
        assert(old(reporter).viols() + Seq::<(Seq<char>, Seq<char>)>::empty() =~= old(
            reporter,
        ).viols());
    }
    if !has_frontmatter(contents) {
        return;
    }
    if eq(&chars_of_string(f), &chars_of_string(root_index)) {
        if frontmatter_scalar(contents, "okf_version").is_none() {
            reporter.report(f, "bundle-root index.md frontmatter lacks okf_version".to_string());
        }
    } else {
        let mut m = base.clone();
        extend_str(&mut m, " must not carry frontmatter (OKF §6)");
        reporter.report(f, string_of(&m));
    }
}

/// Reports a record without frontmatter, or whose frontmatter has no
/// non-empty `type`.
fn check_concept_file(f: &String, contents: &str, reporter: &mut Reporter)
    ensures
        final(reporter).viols() == old(reporter).viols() + concept_file_findings(f@, contents@),
        final(reporter).advs() == old(reporter).advs(),
{
    proof {
        assert(old(reporter).viols() + Seq::<(Seq<char>, Seq<char>)>::empty() =~= old(
            reporter,
        ).viols());
    }
    if !has_frontmatter(contents) {
        reporter.report(f, "missing OKF frontmatter (needs a non-empty 'type')".to_string());
        return;
    }
    if frontmatter_scalar(contents, "type").is_none() {
        reporter.report(f, "frontmatter has no non-empty 'type'".to_string());
    }
}

/// Every non-reserved `.md` needs frontmatter with a non-empty top-level
/// `type`; `index.md`/`log.md` carry none, except the bundle-root
/// `index.md`, whose frontmatter must declare `okf_version`.
pub fn check_frontmatter_and_format(
    store: &MapStore,
    all_md: &Vec<String>,
    root_index: &String,
    reporter: &mut Reporter,
)
    ensures
        final(reporter).viols() == old(reporter).viols() + per_path(
            path_views(all_md@),
            |f: Seq<char>| format_findings(*store, f, root_index@),
        ),
        final(reporter).advs() == old(reporter).advs(),
{
    let ghost g = |f: Seq<char>| format_findings(*store, f, root_index@);
    let ghost ps = path_views(all_md@);
    let mut i: usize = 0;
    assert(ps.take(0) =~= Seq::<Seq<char>>::empty());
    while i < all_md.len()
        invariant
            i <= all_md.len(),
            ps == path_views(all_md@),
            g == (|f: Seq<char>| format_findings(*store, f, root_index@)),
            reporter.viols() == old(reporter).viols() + per_path(ps.take(i as int), g),
            reporter.advs() == old(reporter).advs(),
        decreases all_md.len() - i,
    {
        proof {
            lemma_per_path_step(ps, g, i as int);
        }
        let f = &all_md[i];
        let base = file_name_or_empty_exec(&chars_of_string(f));
        let contents = match store.read(f) {
            Some(c) => c,
            None => String::new(),
        };
        let ghost before = reporter.viols();
        if is_reserved_chars(&base) {
            check_reserved_file(f, &base, root_index, contents.as_str(), reporter);
        } else {
            check_concept_file(f, contents.as_str(), reporter);
        }
        assert(reporter.viols() == before + g(ps[i as int]));
        i += 1;
    }
    assert(ps.take(all_md.len() as int) == ps);
}

/// Whether record `sb` exists in `dir` among `all_md`, as `<sb>.md` or
/// `<sb>-*.md`.
pub fn sibling_record_exists(dir: &str, sb: &str, all_md: &Vec<String>) -> (r: bool)
    ensures
        r == sibling_exists(dir@, sb@, path_views(all_md@)),
{
    sibling_in(&chars_of(dir), &chars_of(sb), all_md)
}

fn sibling_in(dir: &Vec<char>, sb: &Vec<char>, all_md: &Vec<String>) -> (r: bool)
    ensures
        r == sibling_exists(dir@, sb@, path_views(all_md@)),
{
    let ghost ps = path_views(all_md@);
    let mut i: usize = 0;
    while i < all_md.len()
        invariant
            i <= all_md.len(),
            ps == path_views(all_md@),
            forall|j: int| 0 <= j < i ==> !record_id_matches(dir@, #[trigger] ps[j], sb@),
        decreases all_md.len() - i,
    {
        let p = chars_of_string(&all_md[i]);
        if record_id_matches_exec(dir, &p, sb) {
            assert(ps[i as int] == p@);
            return true;
        }
        i += 1;
    }
    false
}

/// A `status: Superseded` record (case-insensitive) needs a non-empty
/// `superseded_by` naming a sibling `<NNNN>-*.md` or `<NNNN>.md` record
/// among the listed paths.
pub fn check_supersede_chain(store: &MapStore, all_md: &Vec<String>, reporter: &mut Reporter)
    ensures
        final(reporter).viols() == old(reporter).viols() + per_path(
            path_views(all_md@),
            |f: Seq<char>| chain_findings(*store, f, path_views(all_md@)),
        ),
        final(reporter).advs() == old(reporter).advs(),
{
    let ghost ps = path_views(all_md@);
    let ghost g = |f: Seq<char>| chain_findings(*store, f, ps);
    let mut i: usize = 0;
    assert(ps.take(0) =~= Seq::<Seq<char>>::empty());
    while i < all_md.len()
        invariant
            i <= all_md.len(),
            ps == path_views(all_md@),
            g == (|f: Seq<char>| chain_findings(*store, f, ps)),
            reporter.viols() == old(reporter).viols() + per_path(ps.take(i as int), g),
            reporter.advs() == old(reporter).advs(),
        decreases all_md.len() - i,
    {
        proof {
            lemma_per_path_step(ps, g, i as int);
        }
        let f = &all_md[i];
        let ghost before = reporter.viols();
        check_chain_of(store, f, all_md, reporter);
        assert(reporter.viols() == before + g(ps[i as int]));
        i += 1;
    }
    assert(ps.take(all_md.len() as int) == ps);
}

fn check_chain_of(store: &MapStore, f: &String, all_md: &Vec<String>, reporter: &mut Reporter)
    ensures
        final(reporter).viols() == old(reporter).viols() + chain_findings(
            *store,
            f@,
            path_views(all_md@),
        ),
        final(reporter).advs() == old(reporter).advs(),
{
    let contents = match store.read(f) {
        Some(c) => c,
        None => return,
    };
    if reserved_path(f) || !has_frontmatter(contents.as_str()) {
        return;
    }
    let status = match frontmatter_scalar(contents.as_str(), "status") {
        Some(s) => s,
        None => return,
    };
    let lower = lowercase_exec(&chars_of_string(&status));
    if !eq_str(&lower, "superseded") {
        return;
    }
    check_supersede_target(f, contents.as_str(), all_md, reporter);
}

fn check_supersede_target(f: &String, contents: &str, all_md: &Vec<String>, reporter: &mut Reporter)
    ensures
        final(reporter).viols() == old(reporter).viols() + match scalar(contents@, "superseded_by"@) {
            None => seq![(f@, "status: Superseded but superseded_by is empty (invariant 4)"@)],
            Some(sb) => if sibling_exists(dir_of(f@), sb, path_views(all_md@)) {
                Seq::<(Seq<char>, Seq<char>)>::empty()
            } else {
                seq![
                    (f@, "superseded_by: "@ + sb + " has no matching record in "@ + dir_of(f@)
                        + " (invariant 4)"@),
                ]
            },
        },
        final(reporter).advs() == old(reporter).advs(),
{
    let sb = match frontmatter_scalar(contents, "superseded_by") {
        Some(s) => s,
        None => {
            reporter.report(
                f,
                "status: Superseded but superseded_by is empty (invariant 4)".to_string(),
            );
            return;
        },
    };
    let dir = dir_of_exec(&chars_of_string(f));
    let sbc = chars_of_string(&sb);
    if !sibling_in(&dir, &sbc, all_md) {
        let mut m = chars_of("superseded_by: ");
        extend(&mut m, &sbc);
        extend_str(&mut m, " has no matching record in ");
        extend(&mut m, &dir);
        extend_str(&mut m, " (invariant 4)");
        reporter.report(f, string_of(&m));
    } else {
        assert(old(reporter).viols() + Seq::<(Seq<char>, Seq<char>)>::empty() =~= old(
            reporter,
        ).viols());
    }
}

/// Reports `f` (text `contents`) when its registry row requires an owner
/// and its frontmatter names none: a violation under `require_owner`, an
/// advisory otherwise.
fn report_missing_owner(f: &String, contents: &str, require_owner: bool, reporter: &mut Reporter)
    ensures
        require_owner ==> final(reporter).viols() == old(reporter).viols() + match missing_owner(
            contents@,
        ) {
            Some(m) => seq![(f@, m)],
            None => Seq::<(Seq<char>, Seq<char>)>::empty(),
        },
        require_owner ==> final(reporter).advs() == old(reporter).advs(),
        !require_owner ==> final(reporter).viols() == old(reporter).viols(),
        !require_owner ==> final(reporter).advs() == old(reporter).advs() + match missing_owner(
            contents@,
        ) {
            Some(m) => seq![(f@, "owner"@, m)],
            None => Seq::<(Seq<char>, Seq<char>, Seq<char>)>::empty(),
        },
{
    proof {
        assert(old(reporter).viols() + Seq::<(Seq<char>, Seq<char>)>::empty() =~= old(
            reporter,
        ).viols());
        assert(old(reporter).advs() + Seq::<(Seq<char>, Seq<char>, Seq<char>)>::empty() =~= old(
            reporter,
        ).advs());
    }
    let doc_type = match frontmatter_scalar(contents, "type") {
        Some(t) => t,
        None => return,
    };
    let spec = match spec_for_frontmatter(doc_type.as_str()) {
        Some(s) => s,
        None => return,
    };
    if !spec.requires_owner || frontmatter_scalar(contents, "owner").is_some() {
        return;
    }
    let mut m = chars_of(spec.frontmatter);
    extend_str(&mut m, " record has no owner");
    let message = string_of(&m);
    if require_owner {
        reporter.report(f, message);
    } else {
        reporter.advise(f, "owner", message);
    }
}

/// A record whose registry row requires an owner and whose frontmatter
/// carries none is a finding: an advisory by default, a violation under
/// `require_owner`.
pub fn check_owner_requirement(
    store: &MapStore,
    all_md: &Vec<String>,
    require_owner: bool,
    reporter: &mut Reporter,
)
    ensures
        require_owner ==> final(reporter).viols() == old(reporter).viols() + per_path(
            path_views(all_md@),
            |f: Seq<char>| owner_findings(*store, f),
        ),
        require_owner ==> final(reporter).advs() == old(reporter).advs(),
        !require_owner ==> final(reporter).viols() == old(reporter).viols(),
        !require_owner ==> final(reporter).advs() == old(reporter).advs() + per_path(
            path_views(all_md@),
            |f: Seq<char>| owner_advisories(*store, f),
        ),
{
    let ghost ps = path_views(all_md@);
    let ghost g = |f: Seq<char>| owner_findings(*store, f);
    let ghost h = |f: Seq<char>| owner_advisories(*store, f);
    let mut i: usize = 0;
    assert(ps.take(0) =~= Seq::<Seq<char>>::empty());
    while i < all_md.len()
        invariant
            i <= all_md.len(),
            ps == path_views(all_md@),
            g == (|f: Seq<char>| owner_findings(*store, f)),
            h == (|f: Seq<char>| owner_advisories(*store, f)),
            require_owner ==> reporter.viols() == old(reporter).viols() + per_path(
                ps.take(i as int),
                g,
            ),
            require_owner ==> reporter.advs() == old(reporter).advs(),
            !require_owner ==> reporter.viols() == old(reporter).viols(),
            !require_owner ==> reporter.advs() == old(reporter).advs() + per_path(
                ps.take(i as int),
                h,
            ),
        decreases all_md.len() - i,
    {
        proof {
            lemma_per_path_step(ps, g, i as int);
            lemma_per_path_step(ps, h, i as int);
        }
        let f = &all_md[i];
        let ghost bv = reporter.viols();
        let ghost ba = reporter.advs();
        proof {
            assert(bv + Seq::<(Seq<char>, Seq<char>)>::empty() =~= bv);
            assert(ba + Seq::<(Seq<char>, Seq<char>, Seq<char>)>::empty() =~= ba);
        }
        if !reserved_path(f) {
            match store.read(f) {
                Some(contents) => {
                    if has_frontmatter(contents.as_str()) {
                        report_missing_owner(f, contents.as_str(), require_owner, reporter);
                    }
                },
                None => {},
            }
        }
        i += 1;
    }
    assert(ps.take(all_md.len() as int) == ps);
}

/// The owner violation for `f` under `--require-owner`.
pub open spec fn owner_findings(store: MapStore, f: Seq<char>) -> Seq<(Seq<char>, Seq<char>)> {
    match lacks_owner(store, f) {
        Some(m) => seq![(f, m)],
        None => Seq::<(Seq<char>, Seq<char>)>::empty(),
    }
}

/// The owner advisory for `f` by default.
pub open spec fn owner_advisories(store: MapStore, f: Seq<char>) -> Seq<
    (Seq<char>, Seq<char>, Seq<char>),
> {
    match lacks_owner(store, f) {
        Some(m) => seq![(f, "owner"@, m)],
        None => Seq::<(Seq<char>, Seq<char>, Seq<char>)>::empty(),
    }
}

} // verus!
