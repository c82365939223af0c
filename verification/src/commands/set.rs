//! `living-docs set <ref> <key> <value>`: sets one CLI-owned frontmatter
//! field of a record — `status`, `description`, `owner` or `title` — and
//! reconciles its callout. `title` reaches beyond the frontmatter: it
//! rewrites the heading, renames the file and repoints every in-bundle
//! reference (see [`retitle`]). Nothing is written when the reference does
//! not resolve or the value is refused.

pub mod retitle;

use crate::callout::reconcile;
use crate::commands::status::{record_row, resolve_spec, status_check, validate_status};
use crate::commands::supersede::{
    find_record, lemma_resolved_is_stored, pair_views, resolved_record, set_frontmatter_fields,
    settled, with_fields,
};
use crate::frontmatter::{format_scalar, formatted};
use crate::store::{path_views, MapStore};
use crate::text::{chars_of, extend_str, string_of};
use retitle::{references_rewritten, repointed, retitle_plan, retitled_text};
use vstd::prelude::*;

verus! {

/// What `set` wrote: the record's path (the new one when a retitle renamed
/// the file), where it lived before a rename, and the other bundle records
/// whose reference to the old filename was rewritten. `rewritten` is empty
/// for every key but `title`.
#[derive(Debug)]
pub struct Applied {
    pub path: String,
    pub previous: Option<String>,
    pub rewritten: Vec<String>,
}

/// The message refusing a key `set` does not own.
pub open spec fn unsettable_message(key: Seq<char>) -> Seq<char> {
    "'"@ + key + "' is not a settable field; expected one of status, description, owner, title"@
}

/// The `(key, value as written)` that setting `key` to `value` on the
/// record at `path` writes, or why it is refused.
pub open spec fn field_for(store: MapStore, path: Seq<char>, key: Seq<char>, value: Seq<char>) -> Result<
    (Seq<char>, Seq<char>),
    Seq<char>,
> {
    if key == "status"@ {
        match store.get(path) {
            None => Err("not found"@),
            Some(c) => match record_row(path, c) {
                Err(m) => Err(m),
                Ok(row) => match status_check(value, row) {
                    Err(m) => Err(m),
                    Ok(_) => Ok(("status"@, value)),
                },
            },
        }
    } else if key == "description"@ {
        Ok(("description"@, formatted(value)))
    } else if key == "owner"@ {
        Ok(("owner"@, formatted(value)))
    } else {
        Err(unsettable_message(key))
    }
}

/// The field `set` writes for `key`: a `status` is checked against the
/// record's own type, a `description` or `owner` is quoted as needed.
pub fn resolve_field(store: &MapStore, path: &String, key: &str, value: &str) -> (r: Result<
    (String, String),
    String,
>)
    ensures
        r matches Ok(f) ==> field_for(*store, path@, key@, value@) == Ok::<
            (Seq<char>, Seq<char>),
            Seq<char>,
        >((f.0@, f.1@)),
        r matches Err(m) ==> field_for(*store, path@, key@, value@) == Err::<
            (Seq<char>, Seq<char>),
            Seq<char>,
        >(m@),
{
    let k = chars_of(key);
    if crate::text::eq_str(&k, "status") {
        let contents = match store.read(path) {
            Some(c) => c,
            None => return Err("not found".to_string()),
        };
        let spec = match resolve_spec(path.as_str(), contents.as_str()) {
            Ok(s) => s,
            Err(m) => return Err(m),
        };
        match validate_status(value, &spec) {
            Ok(()) => Ok(("status".to_string(), value.to_string())),
            Err(m) => Err(m),
        }
    } else if crate::text::eq_str(&k, "description") {
        Ok(("description".to_string(), format_scalar(value)))
    } else if crate::text::eq_str(&k, "owner") {
        Ok(("owner".to_string(), format_scalar(value)))
    } else {
        let mut m = chars_of("'");
        extend_str(&mut m, key);
        extend_str(
            &mut m,
            "' is not a settable field; expected one of status, description, owner, title",
        );
        Err(string_of(&m))
    }
}

/// A reconcile settles the text `t` at `p` by the store's paths alone.
proof fn lemma_settled_by_paths(a: MapStore, b: MapStore, p: Seq<char>, t: Seq<char>)
    requires
        a.paths() == b.paths(),
    ensures
        settled(a, p, t) == settled(b, p, t),
        crate::callout::reconciled_record(a, p, t) == crate::callout::reconciled_record(b, p, t),
{
    reveal(crate::callout::reconciled_record);
    assert(a.listed(crate::callout::dir_of(p)) == b.listed(crate::callout::dir_of(p)));
}

/// Sets `key` to `value` on the record `reference` names and reconciles its
/// callout. For `title` the record is retitled (see [`retitle::apply`]);
/// every other key writes one frontmatter field.
pub fn apply(store: &mut MapStore, docs_dir: &String, reference: &str, key: &str, value: &str) -> (r:
    Result<Applied, String>)
    ensures
        resolved_record(*old(store), docs_dir@, reference@) matches Err(m) ==> (r matches Err(e)
            && e@ == m),
        r is Err ==> *final(store) == *old(store),
        resolved_record(*old(store), docs_dir@, reference@) matches Ok(p) ==> ({
            if key@ == "title"@ {
                &&& (retitle_plan(*old(store), docs_dir@, p, value@) is Ok <==> r is Ok)
                &&& r matches Err(e) ==> retitle_plan(*old(store), docs_dir@, p, value@) == Err::<
                    Option<Seq<char>>,
                    Seq<char>,
                >(e@)
                &&& r matches Ok(a) ==> (retitle_plan(*old(store), docs_dir@, p, value@) matches Ok(
                    t,
                ) && (old(store).get(p) matches Some(c) && ({
                    let np = match t {
                        Some(x) => x,
                        None => p,
                    };
                    &&& a.path@ == np
                    &&& a.previous is Some <==> t is Some
                    &&& a.previous matches Some(pv) ==> pv@ == p
                    &&& path_views(a.rewritten@) == match t {
                        Some(x) => references_rewritten(*old(store), docs_dir@, p, x),
                        None => Seq::<Seq<char>>::empty(),
                    }
                    &&& final(store).get(np) == Some(
                        settled(*final(store), np, retitled_text(p, c, value@)),
                    )
                    &&& t is Some ==> final(store).get(p) is None
                    &&& forall|q: Seq<char>|
                        q != p && q != np ==> #[trigger] final(store).get(q) == match t {
                            Some(x) => repointed(*old(store), docs_dir@, p, x, q),
                            None => old(store).get(q),
                        }
                })))
            } else {
                &&& (field_for(*old(store), p, key@, value@) is Ok <==> r is Ok)
                &&& r matches Err(e) ==> field_for(*old(store), p, key@, value@) == Err::<
                    (Seq<char>, Seq<char>),
                    Seq<char>,
                >(e@)
                &&& r matches Ok(a) ==> (field_for(*old(store), p, key@, value@) matches Ok(f) && (
                old(store).get(p) matches Some(c) && {
                    &&& a.path@ == p
                    &&& a.previous is None
                    &&& a.rewritten@.len() == 0
                    &&& final(store).get(p) == Some(settled(*old(store), p, with_fields(p, c, seq![f])))
                    &&& forall|q: Seq<char>| q != p ==> #[trigger] final(store).get(q) == old(store).get(q)
                }))
            }
        }),
{
    let path = match find_record(store, docs_dir, reference) {
        Ok(p) => p,
        Err(m) => return Err(m),
    };
    proof {
        lemma_resolved_is_stored(*old(store), docs_dir@, reference@);
    }
    let k = chars_of(key);
    if crate::text::eq_str(&k, "title") {
        let retitled = match retitle::apply(store, docs_dir, &path, value) {
            Ok(rt) => rt,
            Err(m) => return Err(m),
        };
        let ghost mid = *store;
        let ghost t = retitle_plan(*old(store), docs_dir@, path@, value@)->Ok_0;
        let ghost c = old(store).get(path@)->Some_0;
        let reconciled = reconcile(store, retitled.path.as_str());
        assert(reconciled is Ok);
        proof {
            lemma_settled_by_paths(mid, *store, retitled.path@, retitled_text(path@, c, value@));
        }
        let moved = !crate::text::eq(
            &chars_of(retitled.path.as_str()),
            &chars_of(path.as_str()),
        );
        proof {
            if t is Some {
                assert(t->Some_0 != path@);
            }
        }
        let previous = if moved {
            Some(path)
        } else {
            None
        };
        return Ok(Applied { path: retitled.path, previous, rewritten: retitled.rewritten });
    }
    let field = match resolve_field(store, &path, key, value) {
        Ok(f) => f,
        Err(m) => return Err(m),
    };
    let fields = vec![field];
    let ghost fv = (fields@[0].0@, fields@[0].1@);
    assert(pair_views(fields@) =~= seq![fv]);
    let written = set_frontmatter_fields(store, &path, &fields);
    assert(written is Ok);
    let ghost mid = *store;
    let ghost c = old(store).get(path@)->Some_0;
    let reconciled = reconcile(store, path.as_str());
    assert(reconciled is Ok);
    proof {
        lemma_settled_by_paths(mid, *old(store), path@, with_fields(path@, c, seq![fv]));
    }
    Ok(Applied { path, previous: None, rewritten: Vec::new() })
}

} // verus!
