//! Mechanical record liveness: an ADR still at its seed status (`Proposed`)
//! that links an issue whose status is terminal or superseded gets a
//! `stale-proposed` advisory. The exit code never moves. Currency has a
//! sound oracle: the linked issue's own status.

use crate::check::links::{destinations, link_destinations, resolve_destination, resolved};
use crate::check::records::{reserved, reserved_path};
use crate::check::reporter::{lemma_per_path_step, per_path, Reporter};
use crate::doc_type::{row_for_frontmatter, row_retires, spec_for_frontmatter};
use crate::frontmatter::{frontmatter_scalar, scalar};
use crate::path::file_name_or_empty;
use crate::store::{contains_path, path_views, MapStore};
use crate::text::{chars_of, eq_ignore_case, eq_ignore_case_str, eq_str};
use vstd::prelude::*;

verus! {

/// The advisory a stale-proposed record gets.
pub open spec fn stale_message() -> Seq<char> {
    "LIVENESS stale-proposed: seed status but the linked issue is terminal — settle or supersede"@
}

/// `status` is the seed status (first of the vocabulary) of type `t`,
/// ignoring ASCII case.
pub open spec fn seed_status(t: Seq<char>, status: Seq<char>) -> bool {
    match row_for_frontmatter(t) {
        Some(row) => row.vocab.len() > 0 && eq_ignore_case(row.vocab[0], status),
        None => false,
    }
}

/// An issue status that closes the issue: `Superseded` or one of the
/// Issue row's terminal statuses.
pub open spec fn terminal_issue_status(s: Seq<char>) -> bool {
    match row_for_frontmatter("Issue"@) {
        Some(row) => row_retires(row, s),
        None => eq_ignore_case(s, "superseded"@),
    }
}

/// `t` is a listed Issue record whose status is terminal.
pub open spec fn issue_terminal(store: MapStore, t: Seq<char>, paths: Seq<Seq<char>>) -> bool {
    paths.contains(t) && match store.get(t) {
        None => false,
        Some(c) => scalar(c, "type"@) == Some("Issue"@) && match scalar(c, "status"@) {
            Some(s) => terminal_issue_status(s),
            None => false,
        },
    }
}

/// One of `c`'s links, read from `f`, names a terminal issue.
pub open spec fn links_terminal(
    store: MapStore,
    f: Seq<char>,
    c: Seq<char>,
    bundle: Seq<char>,
    paths: Seq<Seq<char>>,
) -> bool {
    exists|i: int|
        0 <= i < destinations(c).len() && match resolved(f, #[trigger] destinations(c)[i], bundle) {
            Some(t) => issue_terminal(store, t, paths),
            None => false,
        }
}

/// `f` is an ADR at its seed status linking a terminal issue.
pub open spec fn stale_proposed(store: MapStore, f: Seq<char>, bundle: Seq<char>, paths: Seq<Seq<char>>) -> bool {
    !reserved(file_name_or_empty(f)) && match store.get(f) {
        None => false,
        Some(c) => match (scalar(c, "type"@), scalar(c, "status"@)) {
            (Some(t), Some(s)) => t == "ADR"@ && seed_status(t, s) && links_terminal(
                store,
                f,
                c,
                bundle,
                paths,
            ),
            _ => false,
        },
    }
}

/// The liveness advisory for one listed path.
pub open spec fn liveness_advisories(
    store: MapStore,
    f: Seq<char>,
    bundle: Seq<char>,
    paths: Seq<Seq<char>>,
) -> Seq<(Seq<char>, Seq<char>, Seq<char>)> {
    if stale_proposed(store, f, bundle, paths) {
        seq![(f, "liveness"@, stale_message())]
    } else {
        Seq::<(Seq<char>, Seq<char>, Seq<char>)>::empty()
    }
}

/// Whether `status` is the seed status of doc type `doc_type` (the first
/// status of its vocabulary), ignoring ASCII case.
pub fn is_seed_status(doc_type: &str, status: &str) -> (r: bool)
    ensures
        r == seed_status(doc_type@, status@),
{
    match spec_for_frontmatter(doc_type) {
        None => false,
        Some(spec) => {
            if spec.status_vocabulary.len() == 0 {
                return false;
            }
            let seed = chars_of(spec.status_vocabulary[0]);
            proof {
                assert(spec.view().vocab[0] == seed@);
            }
            eq_ignore_case_str(&seed, status)
        },
    }
}

/// Whether an issue status closes the issue.
pub fn is_terminal_issue_status(status: &str) -> (r: bool)
    ensures
        r == terminal_issue_status(status@),
{
    match spec_for_frontmatter("Issue") {
        Some(spec) => spec.is_retired(status),
        None => eq_ignore_case_str(&chars_of(status), "superseded"),
    }
}

fn issue_target_is_terminal(store: &MapStore, target: &String, all_md: &Vec<String>) -> (r: bool)
    ensures
        r == issue_terminal(*store, target@, path_views(all_md@)),
{
    if !contains_path(all_md, target) {
        return false;
    }
    let contents = match store.read(target) {
        Some(c) => c,
        None => return false,
    };
    let is_issue = match frontmatter_scalar(contents.as_str(), "type") {
        Some(t) => eq_str(&chars_of(t.as_str()), "Issue"),
        None => false,
    };
    if !is_issue {
        return false;
    }
    match frontmatter_scalar(contents.as_str(), "status") {
        Some(s) => is_terminal_issue_status(s.as_str()),
        None => false,
    }
}

fn links_terminal_issue(
    store: &MapStore,
    f: &String,
    contents: &String,
    bundle: &String,
    all_md: &Vec<String>,
) -> (r: bool)
    ensures
        r == links_terminal(*store, f@, contents@, bundle@, path_views(all_md@)),
{
    let ds = link_destinations(contents.as_str());
    let ghost dv = destinations(contents@);
    let mut i: usize = 0;
    while i < ds.len()
        invariant
            i <= ds.len(),
            path_views(ds@) == dv,
            dv == destinations(contents@),
            forall|j: int|
                0 <= j < i ==> !match resolved(f@, #[trigger] dv[j], bundle@) {
                    Some(t) => issue_terminal(*store, t, path_views(all_md@)),
                    None => false,
                },
        decreases ds.len() - i,
    {
        assert(dv[i as int] == ds@[i as int]@);
        match resolve_destination(f.as_str(), ds[i].as_str(), bundle.as_str()) {
            Some(t) => {
                if issue_target_is_terminal(store, &t, all_md) {
                    return true;
                }
            },
            None => {},
        }
        i += 1;
    }
    false
}

/// Whether `f` is an ADR at its seed status that links a terminal issue.
pub fn is_stale_proposed(store: &MapStore, f: &String, bundle: &String, all_md: &Vec<String>) -> (r:
    bool)
    ensures
        r == stale_proposed(*store, f@, bundle@, path_views(all_md@)),
{
    if reserved_path(f) {
        return false;
    }
    let contents = match store.read(f) {
        Some(c) => c,
        None => return false,
    };
    let doc_type = match frontmatter_scalar(contents.as_str(), "type") {
        Some(t) => t,
        None => return false,
    };
    let status = match frontmatter_scalar(contents.as_str(), "status") {
        Some(s) => s,
        None => return false,
    };
    eq_str(&chars_of(doc_type.as_str()), "ADR") && is_seed_status(doc_type.as_str(), status.as_str())
        && links_terminal_issue(store, f, &contents, bundle, all_md)
}

/// Advises, with kind `liveness`, on every ADR still at its seed status
/// that links a terminal issue. Never a violation.
pub fn check_liveness(store: &MapStore, bundle: &String, all_md: &Vec<String>, reporter: &mut Reporter)
    ensures
        final(reporter).viols() == old(reporter).viols(),
        final(reporter).advs() == old(reporter).advs() + per_path(
            path_views(all_md@),
            |f: Seq<char>| liveness_advisories(*store, f, bundle@, path_views(all_md@)),
        ),
{
    let ghost ps = path_views(all_md@);
    let ghost h = |f: Seq<char>| liveness_advisories(*store, f, bundle@, ps);
    let mut i: usize = 0;
    assert(ps.take(0) =~= Seq::<Seq<char>>::empty());
    while i < all_md.len()
        invariant
            i <= all_md.len(),
            ps == path_views(all_md@),
            h == (|f: Seq<char>| liveness_advisories(*store, f, bundle@, ps)),
            reporter.viols() == old(reporter).viols(),
            reporter.advs() == old(reporter).advs() + per_path(ps.take(i as int), h),
        decreases all_md.len() - i,
    {
        proof {
            lemma_per_path_step(ps, h, i as int);
        }
        let f = &all_md[i];
        let ghost ba = reporter.advs();
        if is_stale_proposed(store, f, bundle, all_md) {
            reporter.advise(
                f,
                "liveness",
                "LIVENESS stale-proposed: seed status but the linked issue is terminal — settle or supersede".to_string(),
            );
        } else {
            assert(ba + Seq::<(Seq<char>, Seq<char>, Seq<char>)>::empty() =~= ba);
        }
        i += 1;
    }
    assert(ps.take(all_md.len() as int) == ps);
}

/// How many of `ps` are stale-proposed.
pub open spec fn stale_count(store: MapStore, ps: Seq<Seq<char>>, bundle: Seq<char>, paths: Seq<Seq<char>>) -> nat
    decreases ps.len(),
{
    if ps.len() == 0 {
        0
    } else {
        stale_count(store, ps.drop_last(), bundle, paths) + if stale_proposed(
            store,
            ps.last(),
            bundle,
            paths,
        ) {
            1nat
        } else {
            0nat
        }
    }
}

/// How many listed records are stale-proposed.
pub fn stale_proposed_count(store: &MapStore, bundle: &String, all_md: &Vec<String>) -> (r: usize)
    ensures
        r == stale_count(*store, path_views(all_md@), bundle@, path_views(all_md@)),
{
    let ghost ps = path_views(all_md@);
    let mut n: usize = 0;
    let mut i: usize = 0;
    while i < all_md.len()
        invariant
            i <= all_md.len(),
            ps == path_views(all_md@),
            n == stale_count(*store, ps.take(i as int), bundle@, ps),
            n <= i,
        decreases all_md.len() - i,
    {
        proof {
            assert(ps.take(i + 1).drop_last() == ps.take(i as int));
            assert(ps.take(i + 1).last() == ps[i as int]);
        }
        if is_stale_proposed(store, &all_md[i], bundle, all_md) {
            n += 1;
        }
        i += 1;
    }
    assert(ps.take(all_md.len() as int) == ps);
    n
}

} // verus!
