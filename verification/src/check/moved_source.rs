//! The `MOVED-SOURCE` review queue: an advisory when a record links another
//! record whose status has left the open/accepted state (superseded,
//! deprecated or rejected). It clears when the dependent links the
//! successor anywhere, when the successor is the dependent itself, or when
//! the dependent is itself retired.

use crate::callout::{record_id_matches, record_id_matches_exec};
use crate::check::links::{destinations, link_destinations, resolve_destination, resolved};
use crate::check::records::{reserved, reserved_path};
use crate::check::reporter::{lemma_per_path_step, per_path, Reporter};
use crate::doc_type::{row_for_frontmatter, row_retires, spec_for_frontmatter};
use crate::frontmatter::{frontmatter_scalar, scalar};
use crate::path::{file_name_or_empty, file_name_or_empty_exec, parent, parent_exec};
use crate::store::{path_views, MapStore};
use crate::text::{
    chars_of, chars_of_string, eq_ignore_case, eq_ignore_case_str, eq_str, extend, extend_str,
    lowercase, lowercase_exec, string_of,
};
use vstd::prelude::*;

verus! {

/// A dependent whose own status retires it: `Superseded` whatever its
/// type, or a status its registered type retires on.
pub open spec fn closed_dependent(c: Seq<char>) -> bool {
    match scalar(c, "status"@) {
        None => false,
        Some(s) => eq_ignore_case(s, "superseded"@) || match scalar(c, "type"@) {
            None => false,
            Some(t) => match row_for_frontmatter(t) {
                Some(row) => row_retires(row, s),
                None => false,
            },
        },
    }
}

/// A status that moves a source: superseded, deprecated or rejected.
pub open spec fn moved_status(s: Seq<char>) -> bool {
    let l = lowercase(s);
    l == "superseded"@ || l == "deprecated"@ || l == "rejected"@
}

/// The successor a moved source names: its `superseded_by` when its status
/// is `Superseded`.
pub open spec fn successor_id(status: Seq<char>, tc: Seq<char>) -> Option<Seq<char>> {
    if eq_ignore_case(status, "superseded"@) {
        scalar(tc, "superseded_by"@)
    } else {
        None
    }
}

/// One of `c`'s links, read from `f`, resolves to record `id` in `dir`.
pub open spec fn links_id(f: Seq<char>, c: Seq<char>, bundle: Seq<char>, dir: Seq<char>, id: Seq<char>) -> bool {
    exists|i: int|
        0 <= i < destinations(c).len() && match resolved(f, #[trigger] destinations(c)[i], bundle) {
            Some(r) => record_id_matches(dir, r, id),
            None => false,
        }
}

/// The dependent `f` already acknowledges the move of source `t` to `id`.
pub open spec fn acknowledged(f: Seq<char>, c: Seq<char>, bundle: Seq<char>, t: Seq<char>, id: Seq<char>) -> bool {
    match parent(t) {
        None => false,
        Some(dir) => record_id_matches(dir, f, id) || links_id(f, c, bundle, dir, id),
    }
}

/// The finding's message.
pub open spec fn moved_message(f: Seq<char>, t: Seq<char>, status: Seq<char>, successor: Option<Seq<char>>) -> Seq<char> {
    let base = "MOVED-SOURCE: "@ + file_name_or_empty(f) + " links "@ + file_name_or_empty(t)
        + " whose status is "@ + status;
    match successor {
        Some(id) => base + ", superseded by "@ + id,
        None => base,
    }
}

/// The advisory dependent `f` (contents `c`) raises for the record `t`
/// one of its links resolves to.
pub open spec fn moved_target_advisories(
    store: MapStore,
    f: Seq<char>,
    c: Seq<char>,
    bundle: Seq<char>,
    t: Seq<char>,
) -> Seq<(Seq<char>, Seq<char>, Seq<char>)> {
    if reserved(file_name_or_empty(t)) {
        Seq::<(Seq<char>, Seq<char>, Seq<char>)>::empty()
    } else {
        match store.get(t) {
            None => Seq::<(Seq<char>, Seq<char>, Seq<char>)>::empty(),
            Some(tc) => match scalar(tc, "status"@) {
                None => Seq::<(Seq<char>, Seq<char>, Seq<char>)>::empty(),
                Some(s) => if !moved_status(s) {
                    Seq::<(Seq<char>, Seq<char>, Seq<char>)>::empty()
                } else {
                    match successor_id(s, tc) {
                        Some(id) => if acknowledged(f, c, bundle, t, id) {
                            Seq::<(Seq<char>, Seq<char>, Seq<char>)>::empty()
                        } else {
                            seq![(f, "moved-source"@, moved_message(f, t, s, Some(id)))]
                        },
                        None => seq![(f, "moved-source"@, moved_message(f, t, s, None))],
                    }
                },
            },
        }
    }
}

/// The advisory one link of dependent `f` (contents `c`) raises.
pub open spec fn target_advisories(
    store: MapStore,
    f: Seq<char>,
    c: Seq<char>,
    bundle: Seq<char>,
    dest: Seq<char>,
) -> Seq<(Seq<char>, Seq<char>, Seq<char>)> {
    match resolved(f, dest, bundle) {
        None => Seq::<(Seq<char>, Seq<char>, Seq<char>)>::empty(),
        Some(t) => moved_target_advisories(store, f, c, bundle, t),
    }
}

/// The advisories the links `ds` of dependent `f` raise, in order.
pub open spec fn dests_advisories(
    store: MapStore,
    f: Seq<char>,
    c: Seq<char>,
    bundle: Seq<char>,
    ds: Seq<Seq<char>>,
) -> Seq<(Seq<char>, Seq<char>, Seq<char>)>
    decreases ds.len(),
{
    if ds.len() == 0 {
        Seq::<(Seq<char>, Seq<char>, Seq<char>)>::empty()
    } else {
        dests_advisories(store, f, c, bundle, ds.drop_last()) + target_advisories(
            store,
            f,
            c,
            bundle,
            ds.last(),
        )
    }
}

/// The moved-source advisories of one listed path.
pub open spec fn moved_advisories(store: MapStore, f: Seq<char>, bundle: Seq<char>) -> Seq<
    (Seq<char>, Seq<char>, Seq<char>),
> {
    if reserved(file_name_or_empty(f)) {
        Seq::<(Seq<char>, Seq<char>, Seq<char>)>::empty()
    } else {
        match store.get(f) {
            None => Seq::<(Seq<char>, Seq<char>, Seq<char>)>::empty(),
            Some(c) => if closed_dependent(c) {
                Seq::<(Seq<char>, Seq<char>, Seq<char>)>::empty()
            } else {
                dests_advisories(store, f, c, bundle, destinations(c))
            },
        }
    }
}

fn is_closed_dependent(contents: &str) -> (r: bool)
    ensures
        r == closed_dependent(contents@),
{
    let status = match frontmatter_scalar(contents, "status") {
        Some(s) => s,
        None => return false,
    };
    if eq_ignore_case_str(&chars_of(status.as_str()), "superseded") {
        return true;
    }
    let t = match frontmatter_scalar(contents, "type") {
        Some(t) => t,
        None => return false,
    };
    match spec_for_frontmatter(t.as_str()) {
        Some(spec) => spec.is_retired(status.as_str()),
        None => false,
    }
}

fn is_moved_status(status: &str) -> (r: bool)
    ensures
        r == moved_status(status@),
{
    let l = lowercase_exec(&chars_of(status));
    eq_str(&l, "superseded") || eq_str(&l, "deprecated") || eq_str(&l, "rejected")
}

fn dependent_links_successor(
    f: &String,
    contents: &String,
    bundle: &String,
    dir: &Vec<char>,
    id: &Vec<char>,
) -> (r: bool)
    ensures
        r == links_id(f@, contents@, bundle@, dir@, id@),
{
    let ds = link_destinations(contents.as_str());
    let ghost dv = destinations(contents@);
    let mut i: usize = 0;
    while i < ds.len()
        invariant
            i <= ds.len(),
            path_views(ds@) == dv,
            dv == destinations(contents@),
            forall|j: int|
                0 <= j < i ==> !match resolved(f@, #[trigger] dv[j], bundle@) {
                    Some(r) => record_id_matches(dir@, r, id@),
                    None => false,
                },
        decreases ds.len() - i,
    {
        assert(dv[i as int] == ds@[i as int]@);
        match resolve_destination(f.as_str(), ds[i].as_str(), bundle.as_str()) {
            Some(r) => {
                if record_id_matches_exec(dir, &chars_of_string(&r), id) {
                    return true;
                }
            },
            None => {},
        }
        i += 1;
    }
    false
}

/// Whether `dependent` is itself the successor `successor_id` names in
/// the moved source's own directory.
fn dependent_is_successor(dependent: &String, source: &String, successor_id: &String) -> (r: bool)
    ensures
        r == match parent(source@) {
            None => false,
            Some(dir) => record_id_matches(dir, dependent@, successor_id@),
        },
{
    match parent_exec(&chars_of_string(source)) {
        None => false,
        Some(dir) => record_id_matches_exec(
            &dir,
            &chars_of_string(dependent),
            &chars_of_string(successor_id),
        ),
    }
}

/// The successor a moved source names, when its status is `Superseded`.
fn superseded_by(status: &str, target_contents: &str) -> (r: Option<String>)
    ensures
        r matches Some(v) ==> successor_id(status@, target_contents@) == Some(v@),
        r is None ==> successor_id(status@, target_contents@) is None,
{
    if !eq_ignore_case_str(&chars_of(status), "superseded") {
        return None;
    }
    frontmatter_scalar(target_contents, "superseded_by")
}

/// The `MOVED-SOURCE` message for `dependent` linking `source`.
fn moved_source_finding(
    dependent: &String,
    source: &String,
    status: &str,
    successor: Option<&String>,
) -> (r: String)
    ensures
        r@ == moved_message(
            dependent@,
            source@,
            status@,
            match successor {
                Some(id) => Some(id@),
                None => None,
            },
        ),
{
    let mut m = chars_of("MOVED-SOURCE: ");
    extend(&mut m, &file_name_or_empty_exec(&chars_of_string(dependent)));
    extend_str(&mut m, " links ");
    extend(&mut m, &file_name_or_empty_exec(&chars_of_string(source)));
    extend_str(&mut m, " whose status is ");
    extend_str(&mut m, status);
    match successor {
        Some(id) => {
            extend_str(&mut m, ", superseded by ");
            extend_str(&mut m, id.as_str());
        },
        None => {},
    }
    string_of(&m)
}

/// Advises on `dependent` when `target`, one of its links, has moved and
/// the move is not acknowledged.
fn check_target(
    store: &MapStore,
    dependent: &String,
    dependent_contents: &String,
    bundle: &String,
    target: &String,
    reporter: &mut Reporter,
)
    ensures
        final(reporter).advs() == old(reporter).advs() + moved_target_advisories(
            *store,
            dependent@,
            dependent_contents@,
            bundle@,
            target@,
        ),
        final(reporter).viols() == old(reporter).viols(),
{
    let ghost empty = Seq::<(Seq<char>, Seq<char>, Seq<char>)>::empty();
    proof {
        assert(old(reporter).advs() + empty =~= old(reporter).advs());
    }
    if reserved_path(target) {
        return;
    }
    let target_contents = match store.read(target) {
        Some(c) => c,
        None => return,
    };
    let status = match frontmatter_scalar(target_contents.as_str(), "status") {
        Some(s) => s,
        None => return,
    };
    if !is_moved_status(status.as_str()) {
        return;
    }
    let successor = superseded_by(status.as_str(), target_contents.as_str());
    match &successor {
        Some(id) => {
            if dependent_is_successor(dependent, target, id) {
                return;
            }
            let acknowledged_by_link = match parent_exec(&chars_of_string(target)) {
                None => false,
                Some(dir) => dependent_links_successor(
                    dependent,
                    dependent_contents,
                    bundle,
                    &dir,
                    &chars_of_string(id),
                ),
            };
            if acknowledged_by_link {
                return;
            }
        },
        None => {},
    }
    let message = moved_source_finding(dependent, target, status.as_str(), successor.as_ref());
    reporter.advise(dependent, "moved-source", message);
}

fn check_file_moved_source(store: &MapStore, f: &String, bundle: &String, reporter: &mut Reporter)
    ensures
        final(reporter).advs() == old(reporter).advs() + moved_advisories(*store, f@, bundle@),
        final(reporter).viols() == old(reporter).viols(),
{
    let ghost empty = Seq::<(Seq<char>, Seq<char>, Seq<char>)>::empty();
    if reserved_path(f) {
        assert(old(reporter).advs() + empty =~= old(reporter).advs());
        return;
    }
    let contents = match store.read(f) {
        Some(c) => c,
        None => {
            assert(old(reporter).advs() + empty =~= old(reporter).advs());
            return;
        },
    };
    if is_closed_dependent(contents.as_str()) {
        assert(old(reporter).advs() + empty =~= old(reporter).advs());
        return;
    }
    let ds = link_destinations(contents.as_str());
    let ghost dv = path_views(ds@);
    let mut i: usize = 0;
    assert(dv.take(0) =~= Seq::<Seq<char>>::empty());
    while i < ds.len()
        invariant
            i <= ds.len(),
            dv == path_views(ds@),
            reporter.advs() == old(reporter).advs() + dests_advisories(
                *store,
                f@,
                contents@,
                bundle@,
                dv.take(i as int),
            ),
            reporter.viols() == old(reporter).viols(),
        decreases ds.len() - i,
    {
        proof {
            assert(dv.take(i + 1).drop_last() == dv.take(i as int));
            assert(dv.take(i + 1).last() == dv[i as int]);
        }
        let ghost before = reporter.advs();
        match resolve_destination(f.as_str(), ds[i].as_str(), bundle.as_str()) {
            Some(target) => check_target(store, f, &contents, bundle, &target, reporter),
            None => {
                assert(before + Seq::<(Seq<char>, Seq<char>, Seq<char>)>::empty() =~= before);
            },
        }
        i += 1;
    }
    assert(dv.take(ds.len() as int) == dv);
}

/// Advises, with kind `moved-source`, on every link from a live record to
/// a record that moved without the link following it. Never a violation.
pub fn check_moved_source(store: &MapStore, bundle: &String, all_md: &Vec<String>, reporter: &mut Reporter)
    ensures
        final(reporter).viols() == old(reporter).viols(),
        final(reporter).advs() == old(reporter).advs() + per_path(
            path_views(all_md@),
            |f: Seq<char>| moved_advisories(*store, f, bundle@),
        ),
{
    let ghost ps = path_views(all_md@);
    let ghost h = |f: Seq<char>| moved_advisories(*store, f, bundle@);
    let mut i: usize = 0;
    assert(ps.take(0) =~= Seq::<Seq<char>>::empty());
    while i < all_md.len()
        invariant
            i <= all_md.len(),
            ps == path_views(all_md@),
            h == (|f: Seq<char>| moved_advisories(*store, f, bundle@)),
            reporter.viols() == old(reporter).viols(),
            reporter.advs() == old(reporter).advs() + per_path(ps.take(i as int), h),
        decreases all_md.len() - i,
    {
        proof {
            lemma_per_path_step(ps, h, i as int);
        }
        check_file_moved_source(store, &all_md[i], bundle, reporter);
        i += 1;
    }
    assert(ps.take(all_md.len() as int) == ps);
}

} // verus!
