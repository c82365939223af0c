//! `living-docs status <ref> <status>`: sets a record's `status:` field,
//! validated against the record's own type's vocabulary before anything is
//! written. `Superseded` is reserved for `supersede`, which also wires the
//! two links.

use crate::commands::supersede::{find_record, pair_views, resolved_record, set_frontmatter_fields, with_fields};
use crate::doc_type::{row_for_frontmatter, spec_for_frontmatter, strs_view, DocTypeSpec, TypeRow};
use crate::record::{extract_record, extracted};
use crate::store::MapStore;
use crate::text::{chars_of, eq_ignore_case, eq_ignore_case_str, extend, extend_str, join, join_exec, string_of};
use vstd::prelude::*;

verus! {

/// The message for a status reserved for `supersede`.
pub open spec fn reserved_status_message() -> Seq<char> {
    "'Superseded' must be set via `living-docs supersede <old> <new>`, which also wires the supersedes/superseded_by links"@
}

/// The message for a status outside a type's vocabulary.
pub open spec fn invalid_status_message(status: Seq<char>, row: TypeRow) -> Seq<char> {
    "'"@ + status + "' is not a valid status for "@ + row.frontmatter + "; expected one of "@
        + join(row.vocab, ", "@)
}

/// Whether `status` may be set on a record of type `row`.
pub open spec fn status_check(status: Seq<char>, row: TypeRow) -> Result<(), Seq<char>> {
    if row.vocab.contains(status) {
        Ok(())
    } else if eq_ignore_case(status, "superseded"@) {
        Err(reserved_status_message())
    } else {
        Err(invalid_status_message(status, row))
    }
}

/// Checks `new_status` against `spec`'s vocabulary; `Superseded` (in any
/// case) is refused with a pointer to `supersede`.
pub fn validate_status(new_status: &str, spec: &DocTypeSpec) -> (r: Result<(), String>)
    ensures
        r is Ok <==> status_check(new_status@, spec.view()) is Ok,
        r matches Err(m) ==> status_check(new_status@, spec.view()) == Err::<(), Seq<char>>(m@),
{
    if spec.accepts_status(new_status) {
        return Ok(());
    }
    if eq_ignore_case_str(&chars_of(new_status), "superseded") {
        return Err(
            "'Superseded' must be set via `living-docs supersede <old> <new>`, which also wires the supersedes/superseded_by links".to_string(),
        );
    }
    let mut parts: Vec<Vec<char>> = Vec::new();
    let mut i: usize = 0;
    while i < spec.status_vocabulary.len()
        invariant
            i <= spec.status_vocabulary.len(),
            parts@.map_values(|v: Vec<char>| v@) == strs_view(spec.status_vocabulary@).take(
                i as int,
            ),
        decreases spec.status_vocabulary.len() - i,
    {
        let ghost before = parts@.map_values(|v: Vec<char>| v@);
        let v = chars_of(spec.status_vocabulary[i]);
        parts.push(v);
        assert(parts@.map_values(|v: Vec<char>| v@) =~= before.push(
            strs_view(spec.status_vocabulary@)[i as int],
        ));
        assert(strs_view(spec.status_vocabulary@).take(i + 1) =~= strs_view(
            spec.status_vocabulary@,
        ).take(i as int).push(strs_view(spec.status_vocabulary@)[i as int]));
        i += 1;
    }
    assert(strs_view(spec.status_vocabulary@).take(spec.status_vocabulary.len() as int)
        == strs_view(spec.status_vocabulary@));
    let mut m = chars_of("'");
    extend_str(&mut m, new_status);
    extend_str(&mut m, "' is not a valid status for ");
    extend_str(&mut m, spec.frontmatter);
    extend_str(&mut m, "; expected one of ");
    extend(&mut m, &join_exec(&parts, &chars_of(", ")));
    Err(string_of(&m))
}

/// The message for a record whose `type:` the registry does not know.
pub open spec fn unrecognized_type_message(path: Seq<char>, t: Seq<char>) -> Seq<char> {
    path + ": unrecognized 'type: "@ + t + "' frontmatter"@
}

/// The registry row of the record stored as `contents` at `path`.
pub open spec fn record_row(path: Seq<char>, contents: Seq<char>) -> Result<TypeRow, Seq<char>> {
    let t = extracted(path, contents).doc_type;
    match row_for_frontmatter(t) {
        Some(row) => Ok(row),
        None => Err(unrecognized_type_message(path, t)),
    }
}

/// Resolves the doc type the record at `path` belongs to, from its own
/// `type:` frontmatter.
pub fn resolve_spec(path: &str, contents: &str) -> (r: Result<DocTypeSpec, String>)
    ensures
        r matches Ok(s) ==> record_row(path@, contents@) == Ok::<TypeRow, Seq<char>>(s.view()),
        r matches Err(m) ==> record_row(path@, contents@) == Err::<TypeRow, Seq<char>>(m@),
{
    let t = extract_record(path, contents).doc_type;
    match spec_for_frontmatter(t.as_str()) {
        Some(s) => Ok(s),
        None => {
            let mut m = chars_of(path);
            extend_str(&mut m, ": unrecognized 'type: ");
            extend_str(&mut m, t.as_str());
            extend_str(&mut m, "' frontmatter");
            Err(string_of(&m))
        },
    }
}

/// What setting `new_status` on the record `reference` names does: the
/// record it resolves to, or why it is refused.
pub open spec fn status_target(store: MapStore, docs_dir: Seq<char>, reference: Seq<char>, new_status: Seq<char>) -> Result<
    Seq<char>,
    Seq<char>,
> {
    match resolved_record(store, docs_dir, reference) {
        Err(m) => Err(m),
        Ok(p) => match store.get(p) {
            None => Err("not found"@),
            Some(c) => match record_row(p, c) {
                Err(m) => Err(m),
                Ok(row) => match status_check(new_status, row) {
                    Err(m) => Err(m),
                    Ok(_) => Ok(p),
                },
            },
        },
    }
}

/// Sets the `status:` of the record `reference` names, after checking the
/// value against that record's own type; nothing is written on refusal.
pub fn status(store: &mut MapStore, docs_dir: &String, reference: &str, new_status: &str) -> (r:
    Result<(), String>)
    ensures
        r matches Err(m) ==> status_target(*old(store), docs_dir@, reference@, new_status@)
            == Err::<Seq<char>, Seq<char>>(m@) && *final(store) == *old(store),
        r is Ok ==> (status_target(*old(store), docs_dir@, reference@, new_status@) matches Ok(p)
            && (old(store).get(p) matches Some(c) && forall|q: Seq<char>| #[trigger]
            final(store).get(q) == if q == p {
                Some(with_fields(p, c, seq![("status"@, new_status@)]))
            } else {
                old(store).get(q)
            })),
{
    let path = match find_record(store, docs_dir, reference) {
        Ok(p) => p,
        Err(m) => return Err(m),
    };
    let contents = match store.read(&path) {
        Some(c) => c,
        None => return Err("not found".to_string()),
    };
    let spec = match resolve_spec(path.as_str(), contents.as_str()) {
        Ok(s) => s,
        Err(m) => return Err(m),
    };
    match validate_status(new_status, &spec) {
        Ok(()) => {},
        Err(m) => return Err(m),
    }
    let fields = vec![("status".to_string(), new_status.to_string())];
    assert(pair_views(fields@) =~= seq![("status"@, new_status@)]);
    set_frontmatter_fields(store, &path, &fields)
}


proof fn lemma_not_superseded(v: Seq<char>)
    requires
        v == "Proposed"@ || v == "Accepted"@ || v == "Deprecated"@ || v == "Draft"@ || v
            == "Implemented"@ || v == "open"@ || v == "in-progress"@ || v == "closed"@,
    ensures
        !eq_ignore_case(v, "superseded"@),
{
    reveal_strlit("superseded");
    reveal_strlit("Proposed");
    reveal_strlit("Accepted");
    reveal_strlit("Deprecated");
    reveal_strlit("Draft");
    reveal_strlit("Implemented");
    reveal_strlit("open");
    reveal_strlit("in-progress");
    reveal_strlit("closed");
    if v == "Deprecated"@ {
        assert(crate::text::ascii_lower(v)[0] == 'd');
        assert(crate::text::ascii_lower("superseded"@)[0] == 's');
    } else {
        assert(crate::text::ascii_lower(v).len() != crate::text::ascii_lower("superseded"@).len());
    }
}

/// `Superseded`, in any case, is never a status `status` or `set` accepts
/// for any registered type: only `supersede` sets it, and the refusal says
/// so.
pub proof fn lemma_superseded_is_reserved(row: TypeRow, s: Seq<char>)
    requires
        crate::doc_type::registry().contains(row),
        eq_ignore_case(s, "superseded"@),
    ensures
        status_check(s, row) == Err::<(), Seq<char>>(reserved_status_message()),
{
    let reg = crate::doc_type::registry();
    let k = choose|k: int| 0 <= k < reg.len() && reg[k] == row;
    assert forall|i: int| 0 <= i < row.vocab.len() implies !eq_ignore_case(#[trigger] row.vocab[i], "superseded"@) by {
        if k == 0 {
            assert(row.vocab == seq!["Proposed"@, "Accepted"@, "Deprecated"@]);
        } else if k == 1 {
            assert(row.vocab == seq!["Draft"@, "Accepted"@, "Implemented"@, "Deprecated"@]);
        } else if k == 2 {
            assert(row.vocab == seq!["open"@, "in-progress"@, "closed"@]);
        } else if k == 3 {
            assert(row.vocab == seq!["Draft"@, "Accepted"@]);
        }
        lemma_not_superseded(row.vocab[i]);
    }
    if row.vocab.contains(s) {
        let i = choose|i: int| 0 <= i < row.vocab.len() && row.vocab[i] == s;
        assert(!eq_ignore_case(row.vocab[i], "superseded"@));
    }
}

} // verus!
