//! The canonical round-trip check: a record the CLI owns whose frontmatter
//! block differs from the block of its own canonical re-serialization was
//! written by hand, and `living-docs fmt` is named as the remedy. Only the
//! frontmatter is compared: the check verifies form (key order, spacing,
//! quoting), never values.

use crate::check::records::{is_reserved_chars, reserved};
use crate::check::reporter::{lemma_per_path_step, per_path, Reporter};
use crate::doc_type::{doc_types, registry, row_for_dir, spec_for_dir, Identity, IdentityV};
use crate::frontmatter::{block_exec, block_of};
use crate::path::{file_name, file_name_exec, file_name_or_empty, file_name_or_empty_exec, join_path, join_path_str, parent, parent_exec};
use crate::record::{canonical, extract_record, extracted, to_canonical_markdown};
use crate::store::{path_views, MapStore};
use crate::text::{chars_of, chars_of_string, eq, string_of};
use vstd::prelude::*;

verus! {

pub open spec fn non_canonical_message() -> Seq<char> {
    "non-canonical (hand-written?) frontmatter — run `living-docs fmt` or author via the CLI verbs"@
}

/// The record sits directly inside one of the registry's type directories.
pub open spec fn in_cli_owned(path: Seq<char>) -> bool {
    match parent(path) {
        None => false,
        Some(d) => match file_name(d) {
            None => false,
            Some(n) => row_for_dir(n) is Some,
        },
    }
}

/// `path` is exactly the bundle-root file of a singleton registry row.
pub open spec fn bundle_singleton(bundle: Seq<char>, path: Seq<char>) -> bool {
    exists|i: int|
        0 <= i < registry().len() && match #[trigger] registry()[i].identity {
            IdentityV::Singleton { file } => path == join_path(bundle, file),
            _ => false,
        }
}

/// The canonical-form finding for one listed path.
pub open spec fn canonical_findings(store: MapStore, bundle: Seq<char>, f: Seq<char>) -> Seq<
    (Seq<char>, Seq<char>),
> {
    if reserved(file_name_or_empty(f)) || !(in_cli_owned(f) || bundle_singleton(bundle, f)) {
        Seq::<(Seq<char>, Seq<char>)>::empty()
    } else {
        match store.get(f) {
            None => Seq::<(Seq<char>, Seq<char>)>::empty(),
            Some(c) => match block_of(c) {
                None => Seq::<(Seq<char>, Seq<char>)>::empty(),
                Some(b) => {
                    let cb = match block_of(canonical(extracted(f, c))) {
                        Some(x) => x,
                        None => Seq::<char>::empty(),
                    };
                    if b != cb {
                        seq![(f, non_canonical_message())]
                    } else {
                        Seq::<(Seq<char>, Seq<char>)>::empty()
                    }
                },
            },
        }
    }
}

/// Whether the record sits directly inside a registry type directory.
pub fn in_cli_owned_dir(path: &Vec<char>) -> (r: bool)
    ensures
        r == in_cli_owned(path@),
{
    match parent_exec(path) {
        None => false,
        Some(d) => match file_name_exec(&d) {
            None => false,
            Some(n) => spec_for_dir(string_of(&n).as_str()).is_some(),
        },
    }
}

/// Whether `path` is the bundle-root file of a singleton row.
pub fn is_bundle_singleton(bundle: &Vec<char>, path: &Vec<char>) -> (r: bool)
    ensures
        r == bundle_singleton(bundle@, path@),
{
    let all = doc_types();
    let mut i: usize = 0;
    while i < all.len()
        invariant
            i <= all.len(),
            all@.len() == registry().len(),
            forall|j: int| 0 <= j < all@.len() ==> (#[trigger] all@[j]).view() == registry()[j],
            forall|j: int|
                0 <= j < i ==> !match #[trigger] registry()[j].identity {
                    IdentityV::Singleton { file } => path@ == join_path(bundle@, file),
                    _ => false,
                },
        decreases all.len() - i,
    {
        match all[i].identity {
            Identity::Singleton { file } => {
                let p = join_path_str(bundle, file);
                if eq(&p, path) {
                    assert(all@[i as int].view() == registry()[i as int]);
                    assert(registry()[i as int].identity == IdentityV::Singleton { file: file@ });
                    assert(match registry()[i as int].identity {
                        IdentityV::Singleton { file } => path@ == join_path(bundle@, file),
                        _ => false,
                    });
                    return true;
                }
            },
            _ => {},
        }
        i += 1;
    }
    false
}

/// Flags every record the CLI produces byte-for-byte — one directly inside
/// a registry type directory, or a bundle-root singleton file — whose
/// frontmatter block differs from its canonical re-serialization.
pub fn check_canonical_frontmatter(
    store: &MapStore,
    bundle: &String,
    all_md: &Vec<String>,
    reporter: &mut Reporter,
)
    ensures
        final(reporter).viols() == old(reporter).viols() + per_path(
            path_views(all_md@),
            |f: Seq<char>| canonical_findings(*store, bundle@, f),
        ),
        final(reporter).advs() == old(reporter).advs(),
{
    let ghost ps = path_views(all_md@);
    let ghost g = |f: Seq<char>| canonical_findings(*store, bundle@, f);
    let b = chars_of_string(bundle);
    let mut i: usize = 0;
    assert(ps.take(0) =~= Seq::<Seq<char>>::empty());
    while i < all_md.len()
        invariant
            i <= all_md.len(),
            ps == path_views(all_md@),
            b@ == bundle@,
            g == (|f: Seq<char>| canonical_findings(*store, bundle@, f)),
            reporter.viols() == old(reporter).viols() + per_path(ps.take(i as int), g),
            reporter.advs() == old(reporter).advs(),
        decreases all_md.len() - i,
    {
        proof {
            lemma_per_path_step(ps, g, i as int);
        }
        let f = &all_md[i];
        let ghost before = reporter.viols();
        let fc = chars_of_string(f);
        let base = file_name_or_empty_exec(&fc);
        let owned = in_cli_owned_dir(&fc) || is_bundle_singleton(&b, &fc);
        let mut found = false;
        if !is_reserved_chars(&base) && owned {
            match store.read(f) {
                None => {},
                Some(contents) => {
                    let cc = chars_of_string(&contents);
                    match block_exec(&cc) {
                        None => {},
                        Some(block) => {
                            let canonical_text = to_canonical_markdown(
                                &extract_record(f.as_str(), contents.as_str()),
                            );
                            let cb = match block_exec(&chars_of_string(&canonical_text)) {
                                Some(x) => x,
                                None => Vec::new(),
                            };
                            if !eq(&block, &cb) {
                                found = true;
                            }
                        },
                    }
                },
            }
        }
        if found {
            reporter.report(
                f,
                "non-canonical (hand-written?) frontmatter — run `living-docs fmt` or author via the CLI verbs".to_string(),
            );
        } else {
            assert(before + Seq::<(Seq<char>, Seq<char>)>::empty() =~= before);
        }
        i += 1;
    }
    assert(ps.take(all_md.len() as int) == ps);
}

} // verus!
