//! `living-docs fmt`: canonicalizes a record's frontmatter in place and
//! reconciles the retired-record callout at the top of its body with the
//! status the frontmatter carries; the rest of the body stays unchanged.
//! The target is a bundle root (every listed record) or a single record.
//! With `check_only` nothing is written: the pending records are reported.

pub mod reflow;
pub mod settled;

use crate::callout::reconciled_record;
use crate::callout::reconciled_record_exec;
use crate::check::records::{has_frontmatter, opens_with_fence, reserved, reserved_path};
use crate::path::file_name_or_empty;
use crate::record::{canonical, to_canonical_markdown};
use crate::store::{path_views, MapStore};
use crate::text::{chars_of, chars_of_string, eq, extend_str, string_of};
use vstd::prelude::*;

verus! {

/// What the front found at the target path.
#[derive(Clone, Copy, PartialEq, Eq, Debug, Structural)]
pub enum TargetKind {
    File,
    Directory,
    Missing,
}

/// `fmt`'s outcome: the records rewritten, or (`--check`) the records
/// that would change.
#[derive(Debug)]
pub enum Outcome {
    Rewritten(Vec<String>),
    Pending(Vec<String>),
}

/// The canonical form of the record at `p` when it differs from what is
/// stored: a record with a frontmatter block, its callout reconciled with
/// its status, re-serialized.
pub open spec fn pending_form(store: MapStore, p: Seq<char>) -> Option<Seq<char>> {
    match store.get(p) {
        None => None,
        Some(c) => if !opens_with_fence(c) {
            None
        } else {
            let t = canonical(reconciled_record(store, p, c));
            if t == c {
                None
            } else {
                Some(t)
            }
        },
    }
}

/// A record `fmt` would change: not reserved, and pending.
pub open spec fn would_change(store: MapStore, p: Seq<char>) -> bool {
    !reserved(file_name_or_empty(p)) && pending_form(store, p) is Some
}

/// The record paths a target of kind `kind` names.
pub open spec fn target_paths(store: MapStore, target: Seq<char>, kind: TargetKind) -> Option<
    Seq<Seq<char>>,
> {
    match kind {
        TargetKind::File => Some(seq![target]),
        TargetKind::Directory => Some(store.listed(target)),
        TargetKind::Missing => None,
    }
}

/// The canonical form of the record at `path` when it differs from what is
/// stored; `None` when it cannot be read, carries no frontmatter, or is
/// already canonical.
pub fn canonical_form_if_pending(store: &MapStore, path: &String) -> (r: Option<String>)
    ensures
        r matches Some(t) ==> pending_form(*store, path@) == Some(t@),
        r is None ==> pending_form(*store, path@) is None,
{
    let contents = match store.read(path) {
        Some(c) => c,
        None => return None,
    };
    if !has_frontmatter(contents.as_str()) {
        return None;
    }
    let record = reconciled_record_exec(store, path.as_str(), contents.as_str());
    let text = to_canonical_markdown(&record);
    if eq(&chars_of_string(&text), &chars_of_string(&contents)) {
        None
    } else {
        Some(text)
    }
}

/// Whether `path` is `index.md` or `log.md`, outside the record domain.
pub fn is_reserved_file(path: &str) -> (r: bool)
    ensures
        r == reserved(file_name_or_empty(path@)),
{
    reserved_path(&path.to_string())
}

/// Rewrites `path` in canonical form when it is pending; returns whether
/// it wrote.
pub fn canonicalize_record(store: &mut MapStore, path: &String) -> (r: bool)
    ensures
        r == (pending_form(*old(store), path@) is Some),
        forall|q: Seq<char>| #[trigger]
            final(store).get(q) == if q == path@ && r {
                pending_form(*old(store), path@)
            } else {
                old(store).get(q)
            },
        final(store).paths() == old(store).paths(),
{
    match canonical_form_if_pending(store, path) {
        None => false,
        Some(text) => {
            proof {
                old(store).lemma_paths_match_get(path@);
            }
            store.write(path, &text);
            true
        },
    }
}

/// The records among `paths` that `fmt` would change, without writing.
pub fn pending_records(store: &MapStore, paths: &Vec<String>) -> (r: Vec<String>)
    ensures
        path_views(r@) == path_views(paths@).filter(|p: Seq<char>| would_change(*store, p)),
{
    let ghost ps = path_views(paths@);
    let mut out: Vec<String> = Vec::new();
    let mut i: usize = 0;
    while i < paths.len()
        invariant
            i <= paths.len(),
            ps == path_views(paths@),
            path_views(out@) == ps.take(i as int).filter(|p: Seq<char>| would_change(*store, p)),
        decreases paths.len() - i,
    {
        proof {
            assert(ps.take(i + 1) == ps.take(i as int).push(ps[i as int]));
            ps.take(i as int).lemma_filter_push(
                ps[i as int],
                |p: Seq<char>| would_change(*store, p),
            );
        }
        let p = &paths[i];
        if !reserved_path(p) && canonical_form_if_pending(store, p).is_some() {
            out.push(p.clone());
        }
        i += 1;
    }
    assert(ps.take(paths.len() as int) == ps);
    out
}

/// Canonicalizes every record among `paths` that is pending, returning the
/// paths rewritten; each rewritten record holds its canonical form and
/// nothing else changes.
pub fn canonicalize_bundle(store: &mut MapStore, paths: &Vec<String>) -> (r: Vec<String>)
    requires
        path_views(paths@).no_duplicates(),
    ensures
        path_views(r@) == path_views(paths@).filter(|p: Seq<char>| would_change(*old(store), p)),
        forall|q: Seq<char>| #[trigger]
            final(store).get(q) == if path_views(paths@).contains(q) && would_change(
                *old(store),
                q,
            ) {
                pending_form(*old(store), q)
            } else {
                old(store).get(q)
            },
        final(store).paths() == old(store).paths(),
{
    let ghost ps = path_views(paths@);
    let ghost s0 = *old(store);
    let mut out: Vec<String> = Vec::new();
    let mut i: usize = 0;
    while i < paths.len()
        invariant
            i <= paths.len(),
            ps == path_views(paths@),
            ps.no_duplicates(),
            s0 == *old(store),
            store.paths() == s0.paths(),
            path_views(out@) == ps.take(i as int).filter(|p: Seq<char>| would_change(s0, p)),
            forall|q: Seq<char>| #[trigger]
                store.get(q) == if ps.take(i as int).contains(q) && would_change(s0, q) {
                    pending_form(s0, q)
                } else {
                    s0.get(q)
                },
        decreases paths.len() - i,
    {
        proof {
            assert(ps.take(i + 1) == ps.take(i as int).push(ps[i as int]));
            ps.take(i as int).lemma_filter_push(ps[i as int], |p: Seq<char>| would_change(s0, p));
            assert(!ps.take(i as int).contains(ps[i as int])) by {
                if ps.take(i as int).contains(ps[i as int]) {
                    let t0 = ps.take(i as int);
                    let k = choose|k: int| 0 <= k < t0.len() && #[trigger] t0[k] == ps[i as int];
                    assert(ps[k] == ps[i as int]);
                }
            }
            assert(store.get(ps[i as int]) == s0.get(ps[i as int]));
            reveal(reconciled_record);
            assert(pending_form(*store, ps[i as int]) == pending_form(s0, ps[i as int]));
        }
        let p = &paths[i];
        let ghost before = *store;
        if !reserved_path(p) && canonicalize_record(store, p) {
            out.push(p.clone());
        }
        proof {
            assert forall|q: Seq<char>| #[trigger]
                store.get(q) == if ps.take(i + 1).contains(q) && would_change(s0, q) {
                    pending_form(s0, q)
                } else {
                    s0.get(q)
                } by {
                if q == ps[i as int] {
                    assert(ps.take(i + 1).contains(q)) by {
                        assert(ps.take(i + 1)[i as int] == q);
                    }
                } else {
                    assert(ps.take(i + 1).contains(q) == ps.take(i as int).contains(q)) by {
                        let t1 = ps.take(i + 1);
                        let t0 = ps.take(i as int);
                        if t1.contains(q) {
                            let k = choose|k: int| 0 <= k < t1.len() && #[trigger] t1[k] == q;
                            assert(t0[k] == q);
                        }
                        if t0.contains(q) {
                            let k = choose|k: int| 0 <= k < t0.len() && #[trigger] t0[k] == q;
                            assert(t1[k] == q);
                        }
                    }
                }
            }
        }
        i += 1;
    }
    assert(ps.take(paths.len() as int) == ps);
    out
}

/// The paths a target of kind `kind` names, without duplicates.
pub fn resolve_targets(store: &MapStore, target: &String, kind: TargetKind) -> (r: Option<
    Vec<String>,
>)
    ensures
        r matches Some(v) ==> target_paths(*store, target@, kind) == Some(path_views(v@))
            && path_views(v@).no_duplicates(),
        r is None <==> target_paths(*store, target@, kind) is None,
{
    match kind {
        TargetKind::File => {
            let v = vec![target.clone()];
            assert(path_views(v@) =~= seq![target@]);
            Some(v)
        },
        TargetKind::Directory => Some(store.list(target)),
        TargetKind::Missing => None,
    }
}

/// Canonicalizes the records `target` names (or, under `check_only`,
/// reports which would change) without printing. `kind` is what the front
/// found at `target`: a record file, a bundle directory, or nothing — the
/// last is an error naming the target.
pub fn outcome(store: &mut MapStore, target: &String, kind: TargetKind, check_only: bool) -> (r:
    Result<Outcome, String>)
    ensures
        kind == TargetKind::Missing <==> r is Err,
        r matches Err(m) ==> m@ == "bundle root not found: "@ + target@,
        r is Err ==> *final(store) == *old(store),
        check_only ==> *final(store) == *old(store),
        r matches Ok(Outcome::Pending(v)) ==> (check_only && (target_paths(
            *old(store),
            target@,
            kind,
        ) matches Some(ps) && path_views(v@) == ps.filter(
            |p: Seq<char>| would_change(*old(store), p),
        ))),
        r matches Ok(Outcome::Rewritten(v)) ==> (!check_only && (target_paths(
            *old(store),
            target@,
            kind,
        ) matches Some(ps) && path_views(v@) == ps.filter(
            |p: Seq<char>| would_change(*old(store), p),
        ) && final(store).paths() == old(store).paths() && forall|q: Seq<char>| #[trigger]
            final(store).get(q) == if ps.contains(q) && would_change(*old(store), q) {
                pending_form(*old(store), q)
            } else {
                old(store).get(q)
            })),
{
    let paths = match resolve_targets(store, target, kind) {
        Some(p) => p,
        None => {
            let mut m = chars_of("bundle root not found: ");
            extend_str(&mut m, target.as_str());
            return Err(string_of(&m));
        },
    };
    if check_only {
        return Ok(Outcome::Pending(pending_records(store, &paths)));
    }
    Ok(Outcome::Rewritten(canonicalize_bundle(store, &paths)))
}

} // verus!
