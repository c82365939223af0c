//! Instruments for the semantic refusal triggers: the `DIAGRAM` (stale
//! diagram) and `DUPLICATE` (duplicate home) advisories. Both are advisory —
//! the exit code never moves — and both under-report to stay trustworthy
//! (`DIAGRAM` needs a declared scope, `DUPLICATE` a high similarity
//! threshold).

pub mod diagram;
pub mod duplicate;

use crate::check::reporter::Reporter;
use crate::store::MapStore;
use vstd::prelude::*;

verus! {

/// Runs both semantic advisories over the records `all_md` of the bundle at
/// `bundle`: the stale-diagram pass, then the duplicate-home pass.
pub fn check_semantic(store: &MapStore, bundle: &String, all_md: &Vec<String>, reporter: &mut Reporter)
    ensures
        final(reporter).viols() == old(reporter).viols(),
        exists|scope: Seq<Seq<char>>|
            crate::order::strictly_sorted(scope) && (forall|y: Seq<char>| #[trigger] scope.contains(y)
                <==> diagram::scope_lines(diagram::scope_text(*store, bundle@)).contains(y))
                && final(reporter).advs() == old(reporter).advs() + diagram::diagram_advisories(
                *store,
                bundle@,
                crate::store::path_views(all_md@),
                scope,
            ) + duplicate::duplicate_advisories(
                duplicate::docs_in(*store, crate::store::path_views(all_md@)),
                0,
            ),
{
    let ghost a0 = reporter.advs();
    diagram::check(store, bundle, all_md, reporter);
    let ghost a1 = reporter.advs();
    duplicate::check(store, all_md, reporter);
    proof {
        let scope = choose|scope: Seq<Seq<char>>|
            crate::order::strictly_sorted(scope) && (forall|y: Seq<char>| #[trigger] scope.contains(y)
                <==> diagram::scope_lines(diagram::scope_text(*store, bundle@)).contains(y))
                && a1 == a0 + diagram::diagram_advisories(
                *store,
                bundle@,
                crate::store::path_views(all_md@),
                scope,
            );
        assert(reporter.advs() == a0 + diagram::diagram_advisories(
            *store,
            bundle@,
            crate::store::path_views(all_md@),
            scope,
        ) + duplicate::duplicate_advisories(
            duplicate::docs_in(*store, crate::store::path_views(all_md@)),
            0,
        ));
    }
}

} // verus!
