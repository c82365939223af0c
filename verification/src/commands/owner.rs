//! `living-docs owner <ref> <value>`: sets a record's `owner:` field. Any
//! string is accepted, written as a plain or quoted scalar as the value
//! requires; the only failure is an unresolvable reference.

use crate::commands::supersede::{find_record, pair_views, resolved_record, set_frontmatter_fields, with_fields};
use crate::frontmatter::{format_scalar, formatted};
use crate::store::MapStore;
use vstd::prelude::*;

verus! {

/// Sets the `owner:` of the record `reference` names.
pub fn owner(store: &mut MapStore, docs_dir: &String, reference: &str, value: &str) -> (r: Result<
    (),
    String,
>)
    ensures
        r matches Err(m) ==> resolved_record(*old(store), docs_dir@, reference@) == Err::<
            Seq<char>,
            Seq<char>,
        >(m@) && *final(store) == *old(store),
        r is Ok ==> (resolved_record(*old(store), docs_dir@, reference@) matches Ok(p) && (old(
            store,
        ).get(p) matches Some(c) && forall|q: Seq<char>| #[trigger]
            final(store).get(q) == if q == p {
                Some(with_fields(p, c, seq![("owner"@, formatted(value@))]))
            } else {
                old(store).get(q)
            })),
        resolved_record(*old(store), docs_dir@, reference@) is Ok ==> r is Ok,
{
    let path = match find_record(store, docs_dir, reference) {
        Ok(p) => p,
        Err(m) => return Err(m),
    };
    proof {
        crate::commands::supersede::lemma_resolved_is_stored(*old(store), docs_dir@, reference@);
    }
    let fields = vec![("owner".to_string(), format_scalar(value))];
    assert(pair_views(fields@) =~= seq![("owner"@, formatted(value@))]);
    set_frontmatter_fields(store, &path, &fields)
}

} // verus!
