//! One full `check` pass over a bundle, returned as data: the violations
//! that fail the check and the advisories printed beside them, plus the
//! owner coverage a summarizing verb grades.

use crate::check::canonical::{canonical_findings, check_canonical_frontmatter};
use crate::check::records::{
    chain_findings, check_frontmatter_and_format, check_owner_requirement, check_supersede_chain,
    format_findings, has_frontmatter, opens_with_fence, owner_advisories, owner_findings,
    reserved, reserved_path,
};
use crate::check::leak::{check_leak, leak_advisories};
use crate::check::links::{check_links, link_findings};
use crate::check::liveness::{check_liveness, liveness_advisories};
use crate::check::moved_source::{check_moved_source, moved_advisories};
use crate::check::size::{check_body_size, size_advisories};
use crate::check::reporter::{
    advisory_findings, finding_views, per_path, Finding, Reporter,
};
use crate::doc_type::{row_for_frontmatter, spec_for_frontmatter};
use crate::frontmatter::{frontmatter_scalar, scalar};
use crate::path::{file_name_or_empty, join_path, join_path_str};
use crate::store::{path_views, MapStore};
use crate::text::{chars_of_string, string_of};
use vstd::prelude::*;

verus! {

/// Every violation and advisory a `check` pass found.
pub struct Findings {
    pub violations: Vec<Finding>,
    pub advisories: Vec<Finding>,
}

/// The bundle-root index path.
pub open spec fn root_index_of(bundle: Seq<char>) -> Seq<char> {
    join_path(bundle, "index.md"@)
}

/// The violation for a bundle without a root `index.md`.
pub open spec fn root_index_findings(store: MapStore, bundle: Seq<char>) -> Seq<
    (Seq<char>, Seq<char>),
> {
    if store.get(root_index_of(bundle)) is None {
        seq![(root_index_of(bundle), "missing bundle-root index.md (invariant 3)"@)]
    } else {
        Seq::<(Seq<char>, Seq<char>)>::empty()
    }
}

/// The violations a pass over `bundle` reports, in report order.
pub open spec fn pass_violations(store: MapStore, bundle: Seq<char>, require_owner: bool) -> Seq<
    (Seq<char>, Seq<char>),
> {
    let ps = store.listed(bundle);
    let ri = root_index_of(bundle);
    root_index_findings(store, bundle)
        + per_path(ps, |f: Seq<char>| format_findings(store, f, ri))
        + per_path(ps, |f: Seq<char>| link_findings(store, bundle, f, ps))
        + per_path(ps, |f: Seq<char>| chain_findings(store, f, ps))
        + (if require_owner {
        per_path(ps, |f: Seq<char>| owner_findings(store, f))
    } else {
        Seq::<(Seq<char>, Seq<char>)>::empty()
    }) + per_path(ps, |f: Seq<char>| canonical_findings(store, bundle, f))
}

/// The advisories a pass over `bundle` reports, in report order.
pub open spec fn pass_advisories(store: MapStore, bundle: Seq<char>, require_owner: bool) -> Seq<
    (Seq<char>, Seq<char>, Seq<char>),
> {
    let ps = store.listed(bundle);
    per_path(ps, |f: Seq<char>| moved_advisories(store, f, bundle)) + (if require_owner {
        Seq::<(Seq<char>, Seq<char>, Seq<char>)>::empty()
    } else {
        per_path(ps, |f: Seq<char>| owner_advisories(store, f))
    }) + per_path(ps, |f: Seq<char>| size_advisories(store, f)) + per_path(
        ps,
        |f: Seq<char>| liveness_advisories(store, f, bundle, ps),
    ) + per_path(ps, |f: Seq<char>| leak_advisories(store, f))
}

/// Runs every check over the records `store` lists under `bundle`,
/// recording into `reporter`; returns how many documents were listed.
pub fn run_all_checks(
    store: &MapStore,
    bundle: &String,
    reporter: &mut Reporter,
    require_owner: bool,
) -> (r: usize)
    ensures
        final(reporter).viols() == old(reporter).viols() + pass_violations(
            *store,
            bundle@,
            require_owner,
        ),
        final(reporter).advs() == old(reporter).advs() + pass_advisories(
            *store,
            bundle@,
            require_owner,
        ),
        r == store.listed(bundle@).len(),
{
    let all_md = store.list(bundle);
    let ghost ps = store.listed(bundle@);
    let root_index = string_of(&join_path_str(&chars_of_string(bundle), "index.md"));
    let ghost v0 = reporter.viols();
    let ghost a0 = reporter.advs();
    if store.read(&root_index).is_none() {
        reporter.report(&root_index, "missing bundle-root index.md (invariant 3)".to_string());
    } else {
        assert(v0 + Seq::<(Seq<char>, Seq<char>)>::empty() =~= v0);
    }
    let ghost v1 = reporter.viols();
    check_frontmatter_and_format(store, &all_md, &root_index, reporter);
    check_links(store, bundle, &all_md, reporter);
    check_supersede_chain(store, &all_md, reporter);
    let ghost v3 = reporter.viols();
    check_moved_source(store, bundle, &all_md, reporter);
    let ghost a3 = reporter.advs();
    check_owner_requirement(store, &all_md, require_owner, reporter);
    let ghost v4 = reporter.viols();
    let ghost a4 = reporter.advs();
    check_canonical_frontmatter(store, bundle, &all_md, reporter);
    check_body_size(store, &all_md, reporter);
    check_liveness(store, bundle, &all_md, reporter);
    check_leak(store, &all_md, reporter);
    proof {
        let ri = root_index_of(bundle@);
        assert(v1 == v0 + root_index_findings(*store, bundle@));
        if !require_owner {
            assert(v4 =~= v3 + Seq::<(Seq<char>, Seq<char>)>::empty());
        } else {
            assert(a4 =~= a3 + Seq::<(Seq<char>, Seq<char>, Seq<char>)>::empty());
        }
        assert(reporter.viols() =~= v0 + pass_violations(*store, bundle@, require_owner));
        assert(reporter.advs() =~= a0 + pass_advisories(*store, bundle@, require_owner));
    }
    all_md.len()
}

/// The violations a plain `check` pass over `bundle` reports, as
/// `(file, message)` pairs, printing nothing.
pub fn check_violations(store: &MapStore, bundle: &String) -> (r: Vec<Finding>)
    ensures
        finding_views(r@) == pass_violations(*store, bundle@, false),
{
    let mut reporter = Reporter::new();
    run_all_checks(store, bundle, &mut reporter, false);
    proof {
        assert(reporter.viols() =~= pass_violations(*store, bundle@, false));
    }
    reporter.into_violations()
}

/// Every violation and advisory a plain `check` pass over `bundle`
/// reports, printing nothing.
pub fn findings(store: &MapStore, bundle: &String) -> (r: Findings)
    ensures
        finding_views(r.violations@) == pass_violations(*store, bundle@, false),
        finding_views(r.advisories@) == advisory_findings(pass_advisories(*store, bundle@, false)),
{
    let mut reporter = Reporter::new();
    run_all_checks(store, bundle, &mut reporter, false);
    proof {
        assert(reporter.viols() =~= pass_violations(*store, bundle@, false));
        assert(reporter.advs() =~= pass_advisories(*store, bundle@, false));
    }
    let (violations, advisories) = reporter.into_findings();
    Findings { violations, advisories }
}

/// Whether `f` is a record whose registry row requires an owner, and
/// whether it names one.
pub open spec fn owner_status(store: MapStore, f: Seq<char>) -> Option<bool> {
    match store.get(f) {
        None => None,
        Some(c) => if reserved(file_name_or_empty(f)) {
            None
        } else {
            match scalar(c, "type"@) {
                None => None,
                Some(t) => match row_for_frontmatter(t) {
                    None => None,
                    Some(row) => if row.requires_owner {
                        Some(scalar(c, "owner"@) is Some)
                    } else {
                        None
                    },
                },
            }
        },
    }
}

/// How many of `ps` require an owner.
pub open spec fn count_required(store: MapStore, ps: Seq<Seq<char>>) -> nat
    decreases ps.len(),
{
    if ps.len() == 0 {
        0
    } else {
        count_required(store, ps.drop_last()) + if owner_status(store, ps.last()) is Some {
            1nat
        } else {
            0nat
        }
    }
}

/// How many of `ps` require an owner and name one.
pub open spec fn count_owned(store: MapStore, ps: Seq<Seq<char>>) -> nat
    decreases ps.len(),
{
    if ps.len() == 0 {
        0
    } else {
        count_owned(store, ps.drop_last()) + if owner_status(store, ps.last()) == Some(true) {
            1nat
        } else {
            0nat
        }
    }
}

proof fn lemma_owned_le_required(store: MapStore, ps: Seq<Seq<char>>)
    ensures
        count_owned(store, ps) <= count_required(store, ps),
        count_required(store, ps) <= ps.len(),
    decreases ps.len(),
{
    if ps.len() > 0 {
        lemma_owned_le_required(store, ps.drop_last());
    }
}

/// Counts `f` into the coverage: `required` when its registry row
/// requires an owner, `owned` too when it names one.
fn count_owner_coverage(store: &MapStore, f: &String, owned: &mut usize, required: &mut usize)
    requires
        *old(owned) <= *old(required),
        *old(required) < usize::MAX,
    ensures
        *final(owned) <= *final(required),
        match owner_status(*store, f@) {
            None => *final(owned) == *old(owned) && *final(required) == *old(required),
            Some(has) => *final(required) == *old(required) + 1 && *final(owned) == *old(owned)
                + if has {
                1int
            } else {
                0int
            },
        },
{
    if reserved_path(f) {
        return;
    }
    let contents = match store.read(f) {
        Some(c) => c,
        None => return,
    };
    let doc_type = match frontmatter_scalar(contents.as_str(), "type") {
        Some(t) => t,
        None => return,
    };
    let spec = match spec_for_frontmatter(doc_type.as_str()) {
        Some(s) => s,
        None => return,
    };
    if !spec.requires_owner {
        return;
    }
    *required += 1;
    if frontmatter_scalar(contents.as_str(), "owner").is_some() {
        *owned += 1;
    }
}

/// Owner coverage as `(owned, required)` over the records under `bundle`
/// whose registry row requires an owner; `None` when no record requires
/// one.
pub fn owner_coverage(store: &MapStore, bundle: &String) -> (r: Option<(usize, usize)>)
    ensures
        count_required(*store, store.listed(bundle@)) == 0 ==> r is None,
        count_required(*store, store.listed(bundle@)) > 0 ==> (r matches Some((o, q)) && o
            == count_owned(*store, store.listed(bundle@)) && q == count_required(
            *store,
            store.listed(bundle@),
        )),
{
    let all_md = store.list(bundle);
    let ghost ps = path_views(all_md@);
    let mut owned: usize = 0;
    let mut required: usize = 0;
    let mut i: usize = 0;
    while i < all_md.len()
        invariant
            i <= all_md.len(),
            ps == path_views(all_md@),
            owned == count_owned(*store, ps.take(i as int)),
            required == count_required(*store, ps.take(i as int)),
        decreases all_md.len() - i,
    {
        proof {
            assert(ps.take(i + 1).drop_last() == ps.take(i as int));
            assert(ps.take(i + 1).last() == ps[i as int]);
            lemma_owned_le_required(*store, ps.take(i as int));
        }
        count_owner_coverage(store, &all_md[i], &mut owned, &mut required);
        i += 1;
    }
    assert(ps.take(all_md.len() as int) == ps);
    if required > 0 {
        Some((owned, required))
    } else {
        None
    }
}

} // verus!
