//! `living-docs supersede <old> <new>`: marks `old` Superseded by `new`
//! and links the two both ways, writing the retired-record callout on the
//! old record. Also the record resolution (a bare `NNNN` or a
//! type-qualified `TYPE/NNNN` reference) and the frontmatter writer the
//! other field-setting verbs share.

use crate::callout::{
    dir_of, gap_normalized, normalize_frontmatter_gap, reconcile, reconciled_record,
};
use crate::doc_type::{row_dir, row_for_token, spec_for, Identity};
use crate::frontmatter::{comment_start, comment_start_exec, fence_close, fence_close_exec};
use crate::path::{file_name, file_name_exec, parent, parent_exec};
use crate::record::{canonical, extract_record, extracted, set_field, to_canonical_markdown, RecordV};
use crate::store::{path_views, MapStore};
use crate::text::{
    chars_of, chars_of_string, eq, extend, extend_str, find_char_from, find_char_from_exec,
    has_prefix, has_suffix, join, join_exec, pad4, pad4_exec, parse_u32, parse_u32_exec, slice,
    split_char, split_exec, starts_with, ends_with_str, string_of, trim, trim_exec, trim_start,
    trim_start_exec, decimal,
};
use vstd::prelude::*;

verus! {

/// The message for text that is no record number.
pub open spec fn not_a_number(s: Seq<char>) -> Seq<char> {
    "'"@ + s + "' is not a record number"@
}

/// A record number: the text, trimmed, read as a `u32`.
pub open spec fn record_number_of(s: Seq<char>) -> Result<u32, Seq<char>> {
    match parse_u32(trim(s)) {
        Some(n) => Ok(n),
        None => Err(not_a_number(s)),
    }
}

/// Reads a record number.
pub fn parse_record_number(s: &str) -> (r: Result<u32, String>)
    ensures
        r matches Ok(n) ==> record_number_of(s@) == Ok::<u32, Seq<char>>(n),
        r matches Err(m) ==> record_number_of(s@) == Err::<u32, Seq<char>>(m@),
{
    match parse_u32_exec(&trim_exec(&chars_of(s))) {
        Some(n) => Ok(n),
        None => {
            let mut m = chars_of("'");
            extend_str(&mut m, s);
            extend_str(&mut m, "' is not a record number");
            Err(string_of(&m))
        },
    }
}

/// The message for a qualifier the registry does not know.
pub open spec fn unknown_qualifier(token: Seq<char>, s: Seq<char>) -> Seq<char> {
    "unknown type '"@ + token + "' in '"@ + s
        + "'; expected one of adr, prd, issue, research, view"@
}

/// The message for a qualifier naming a type with no numbered directory.
pub open spec fn no_directory(token: Seq<char>) -> Seq<char> {
    "'"@ + token + "' has no numbered records to reference"@
}

/// A record reference: an optional `TYPE/` qualifier (read as the type's
/// directory) and a record number.
pub open spec fn reference_of(s: Seq<char>) -> Result<(Option<Seq<char>>, u32), Seq<char>> {
    match find_char_from(s, '/', 0) {
        None => match record_number_of(s) {
            Ok(n) => Ok((None, n)),
            Err(m) => Err(m),
        },
        Some(k) => {
            let token = s.take(k);
            match row_for_token(token) {
                None => Err(unknown_qualifier(token, s)),
                Some(row) => match row_dir(row) {
                    None => Err(no_directory(token)),
                    Some(d) => match record_number_of(s.skip(k + 1)) {
                        Ok(n) => Ok((Some(d), n)),
                        Err(m) => Err(m),
                    },
                },
            }
        },
    }
}

/// Reads a record reference: `NNNN` or `TYPE/NNNN`, the qualifier resolved
/// through the registry to its directory.
pub fn parse_record_reference(s: &str) -> (r: Result<(Option<&'static str>, u32), String>)
    ensures
        r matches Ok(x) ==> reference_of(s@) == Ok::<(Option<Seq<char>>, u32), Seq<char>>(
            (
                match x.0 {
                    Some(d) => Some(d@),
                    None => None,
                },
                x.1,
            ),
        ),
        r matches Err(m) ==> reference_of(s@) == Err::<(Option<Seq<char>>, u32), Seq<char>>(m@),
{
    let c = chars_of(s);
    match find_char_from_exec(&c, '/', 0) {
        None => match parse_record_number(s) {
            Ok(n) => Ok((None, n)),
            Err(m) => Err(m),
        },
        Some(k) => {
            let token = string_of(&slice(&c, 0, k));
            let rest = string_of(&slice(&c, k + 1, c.len()));
            let spec = match spec_for(token.as_str()) {
                Some(sp) => sp,
                None => {
                    let mut m = chars_of("unknown type '");
                    extend_str(&mut m, token.as_str());
                    extend_str(&mut m, "' in '");
                    extend_str(&mut m, s);
                    extend_str(&mut m, "'; expected one of adr, prd, issue, research, view");
                    return Err(string_of(&m));
                },
            };
            let dir = match spec.identity {
                Identity::Numbered { dir } => dir,
                Identity::Named { dir } => dir,
                Identity::Singleton { .. } => {
                    let mut m = chars_of("'");
                    extend_str(&mut m, token.as_str());
                    extend_str(&mut m, "' has no numbered records to reference");
                    return Err(string_of(&m));
                },
            };
            match parse_record_number(rest.as_str()) {
                Ok(n) => Ok((Some(dir), n)),
                Err(m) => Err(m),
            }
        },
    }
}

/// `p` is record `n` (its filename opening `NNNN-` and ending `.md`), in
/// the directory named `dir` when one is given.
pub open spec fn matches_reference(p: Seq<char>, dir: Option<Seq<char>>, n: u32) -> bool {
    match file_name(p) {
        None => false,
        Some(name) => has_prefix(name, pad4(n as nat) + "-"@) && has_suffix(name, ".md"@) && match dir {
            None => true,
            Some(d) => match parent(p) {
                Some(pd) => file_name(pd) == Some(d),
                None => false,
            },
        },
    }
}

/// The listed records a reference could name.
pub open spec fn candidates(store: MapStore, docs_dir: Seq<char>, dir: Option<Seq<char>>, n: u32) -> Seq<
    Seq<char>,
> {
    store.listed(docs_dir).filter(|p: Seq<char>| matches_reference(p, dir, n))
}

/// The message when no record matches.
pub open spec fn no_record(reference: Seq<char>) -> Seq<char> {
    "no record found for "@ + reference
}

/// The message when several records match.
pub open spec fn ambiguous(reference: Seq<char>, cs: Seq<Seq<char>>) -> Seq<char> {
    "ambiguous reference "@ + reference + ": "@ + join(cs, ", "@)
        + " — qualify it as <type>/"@ + reference
}

/// The record a reference resolves to.
pub open spec fn resolved_record(store: MapStore, docs_dir: Seq<char>, reference: Seq<char>) -> Result<
    Seq<char>,
    Seq<char>,
> {
    match reference_of(reference) {
        Err(m) => Err(m),
        Ok((dir, n)) => {
            let cs = candidates(store, docs_dir, dir, n);
            if cs.len() == 0 {
                Err(no_record(reference))
            } else if cs.len() == 1 {
                Ok(cs[0])
            } else {
                Err(ambiguous(reference, cs))
            }
        },
    }
}

fn matches_reference_exec(p: &String, dir: Option<&'static str>, n: u32) -> (r: bool)
    ensures
        r == matches_reference(
            p@,
            match dir {
                Some(d) => Some(d@),
                None => None,
            },
            n,
        ),
{
    let pc = chars_of_string(p);
    let name = match file_name_exec(&pc) {
        Some(x) => x,
        None => return false,
    };
    let mut pre = pad4_exec(n as u64);
    pre.push('-');
    assert(pre@ == pad4(n as nat) + "-"@) by {
        reveal_strlit("-");
    }
    if !starts_with(&name, &pre) || !ends_with_str(&name, ".md") {
        return false;
    }
    match dir {
        None => true,
        Some(d) => match parent_exec(&pc) {
            Some(pd) => match file_name_exec(&pd) {
                Some(x) => crate::text::eq_str(&x, d),
                None => false,
            },
            None => false,
        },
    }
}

/// Resolves a record reference to the one listed record it names: an
/// error when none or several match (naming every candidate, so an
/// unqualified number shared by two types fails loud).
pub fn find_record(store: &MapStore, docs_dir: &String, reference: &str) -> (r: Result<String, String>)
    ensures
        r matches Ok(p) ==> resolved_record(*store, docs_dir@, reference@) == Ok::<
            Seq<char>,
            Seq<char>,
        >(p@),
        r matches Err(m) ==> resolved_record(*store, docs_dir@, reference@) == Err::<
            Seq<char>,
            Seq<char>,
        >(m@),
{
    let (dir, n) = match parse_record_reference(reference) {
        Ok(x) => x,
        Err(m) => return Err(m),
    };
    let ghost dv = match dir {
        Some(d) => Some(d@),
        None => None::<Seq<char>>,
    };
    let listed = store.list(docs_dir);
    let ghost ps = path_views(listed@);
    let mut found: Vec<String> = Vec::new();
    let mut i: usize = 0;
    while i < listed.len()
        invariant
            i <= listed.len(),
            ps == path_views(listed@),
            path_views(found@) == ps.take(i as int).filter(
                |p: Seq<char>| matches_reference(p, dv, n),
            ),
            dv == match dir {
                Some(d) => Some(d@),
                None => None::<Seq<char>>,
            },
        decreases listed.len() - i,
    {
        proof {
            assert(ps.take(i + 1) == ps.take(i as int).push(ps[i as int]));
            ps.take(i as int).lemma_filter_push(
                ps[i as int],
                |p: Seq<char>| matches_reference(p, dv, n),
            );
        }
        if matches_reference_exec(&listed[i], dir, n) {
            found.push(listed[i].clone());
        }
        i += 1;
    }
    assert(ps.take(listed.len() as int) == ps);
    if found.len() == 0 {
        let mut m = chars_of("no record found for ");
        extend_str(&mut m, reference);
        return Err(string_of(&m));
    }
    if found.len() == 1 {
        return Ok(found[0].clone());
    }
    let mut parts: Vec<Vec<char>> = Vec::new();
    let mut j: usize = 0;
    while j < found.len()
        invariant
            j <= found.len(),
            parts@.map_values(|v: Vec<char>| v@) == path_views(found@).take(j as int),
        decreases found.len() - j,
    {
        let ghost before = parts@.map_values(|v: Vec<char>| v@);
        let part = chars_of_string(&found[j]);
        parts.push(part);
        assert(parts@.map_values(|v: Vec<char>| v@) =~= before.push(found@[j as int]@));
        assert(path_views(found@).take(j + 1) =~= path_views(found@).take(j as int).push(
            found@[j as int]@,
        ));
        j += 1;
    }
    assert(path_views(found@).take(found.len() as int) == path_views(found@));
    let sep = chars_of(", ");
    let mut m = chars_of("ambiguous reference ");
    extend_str(&mut m, reference);
    extend_str(&mut m, ": ");
    extend(&mut m, &join_exec(&parts, &sep));
    extend_str(&mut m, " — qualify it as <type>/");
    extend_str(&mut m, reference);
    Err(string_of(&m))
}

/// A frontmatter line for `key` with `value`, keeping the old line's
/// trailing comment.
pub open spec fn key_line(old_line: Seq<char>, key: Seq<char>, value: Seq<char>) -> Seq<char> {
    let rest = old_line.skip(key.len() as int + 1);
    match comment_start(rest, 0) {
        Some(i) => key + ": "@ + value + " "@ + rest.skip(i),
        None => key + ": "@ + value,
    }
}

/// The index of the first block line that opens `key:`.
pub open spec fn key_line_index(ls: Seq<Seq<char>>, key: Seq<char>, i: int) -> Option<int>
    decreases ls.len() - i,
{
    if i < 0 || i >= ls.len() {
        None
    } else if has_prefix(ls[i], key + ":"@) {
        Some(i)
    } else {
        key_line_index(ls, key, i + 1)
    }
}

/// `contents` with `key: value` written into its frontmatter block: the
/// key's line filled in place (keeping a trailing comment), or a new line
/// before the closing fence. `None` without a frontmatter block.
pub open spec fn with_field(contents: Seq<char>, key: Seq<char>, value: Seq<char>) -> Option<Seq<char>> {
    match fence_close(contents) {
        None => None,
        Some(k) => {
            let block = contents.subrange(4, 4 + k);
            let rest = contents.skip(4 + k);
            let ls = split_char(block, '\n');
            let nb = match key_line_index(ls, key, 0) {
                Some(i) => join(ls.update(i, key_line(ls[i], key, value)), "\n"@),
                None => if block.len() == 0 {
                    key + ": "@ + value
                } else {
                    block + "\n"@ + key + ": "@ + value
                },
            };
            Some(contents.take(4) + nb + rest)
        },
    }
}

fn key_line_exec(old_line: &Vec<char>, key: &Vec<char>, value: &Vec<char>) -> (r: Vec<char>)
    requires
        key.len() < old_line.len(),
    ensures
        r@ == key_line(old_line@, key@, value@),
{
    let start = key.len() + 1;
    let rest = slice(old_line, start, old_line.len());
    assert(rest@ == old_line@.skip(key@.len() as int + 1));
    let mut out = key.clone();
    extend_str(&mut out, ": ");
    extend(&mut out, value);
    match comment_start_exec(&rest) {
        Some(i) => {
            extend_str(&mut out, " ");
            let tail = slice(&rest, i, rest.len());
            assert(tail@ == rest@.skip(i as int));
            extend(&mut out, &tail);
        },
        None => {},
    }
    out
}

/// Writes `key: value` into `contents`' frontmatter block, filling the
/// key's line in place (keeping a trailing guidance comment) or adding it
/// before the closing fence; the body is untouched. `None` when
/// `contents` has no frontmatter block.
pub fn apply_frontmatter_field(contents: &str, key: &str, value: &str) -> (r: Option<String>)
    ensures
        r matches Some(t) ==> with_field(contents@, key@, value@) == Some(t@),
        r is None ==> with_field(contents@, key@, value@) is None,
{
    let c = chars_of(contents);
    let k = match fence_close_exec(&c) {
        Some(k) => k,
        None => return None,
    };
    proof {
        crate::frontmatter::lemma_fence_close_bounds(c@);
    }
    let block = slice(&c, 4, 4 + k);
    let rest = slice(&c, 4 + k, c.len());
    let mut ls = split_exec(&block, '\n');
    let ghost lv = ls@.map_values(|v: Vec<char>| v@);
    let kc = chars_of(key);
    let vc = chars_of(value);
    let mut pre = kc.clone();
    pre.push(':');
    assert(pre@ == key@ + ":"@) by {
        reveal_strlit(":");
    }
    let mut i: usize = 0;
    let mut at: Option<usize> = None;
    while i < ls.len()
        invariant_except_break
            at is None,
        invariant
            i <= ls.len(),
            lv == ls@.map_values(|v: Vec<char>| v@),
            pre@ == key@ + ":"@,
            key_line_index(lv, key@, 0) == key_line_index(lv, key@, i as int),
        ensures
            at matches Some(j) ==> key_line_index(lv, key@, 0) == Some(j as int) && j < ls.len()
                && has_prefix(lv[j as int], key@ + ":"@),
            at is None ==> key_line_index(lv, key@, 0) is None,
        decreases ls.len() - i,
    {
        assert(lv[i as int] == ls@[i as int]@);
        if starts_with(&ls[i], &pre) {
            at = Some(i);
            break;
        }
        i += 1;
    }
    let mut out = slice(&c, 0, 4);
    match at {
        Some(j) => {
            assert(lv[j as int] == ls@[j as int]@);
            proof {
                reveal_strlit(":");
            }
            let line = key_line_exec(&ls[j], &kc, &vc);
            let ghost before = ls@.map_values(|v: Vec<char>| v@);
            ls.set(j, line);
            assert(ls@.map_values(|v: Vec<char>| v@) =~= before.update(j as int, line@));
            let sep = chars_of("\n");
            proof {
                reveal_strlit("\n");
            }
            extend(&mut out, &join_exec(&ls, &sep));
        },
        None => {
            if block.len() > 0 {
                extend(&mut out, &block);
                extend_str(&mut out, "\n");
            }
            extend(&mut out, &kc);
            extend_str(&mut out, ": ");
            extend(&mut out, &vc);
        },
    }
    extend(&mut out, &rest);
    proof {
        reveal_strlit("\n");
    }
    assert(out@ =~= with_field(contents@, key@, value@)->Some_0);
    Some(string_of(&out))
}

/// The entries with each `(key, value)` of `fs` set in turn.
pub open spec fn fields_set(es: Seq<(Seq<char>, Seq<char>)>, fs: Seq<(Seq<char>, Seq<char>)>) -> Seq<
    (Seq<char>, Seq<char>),
>
    decreases fs.len(),
{
    if fs.len() == 0 {
        es
    } else {
        set_field(fields_set(es, fs.drop_last()), fs.last().0, fs.last().1)
    }
}

/// What `set_frontmatter_fields` writes over `contents` at `path`.
pub open spec fn with_fields(path: Seq<char>, contents: Seq<char>, fs: Seq<(Seq<char>, Seq<char>)>) -> Seq<char> {
    let r = extracted(path, gap_normalized(contents));
    canonical(RecordV { fields: fields_set(r.fields, fs), ..r })
}

pub open spec fn pair_views(v: Seq<(String, String)>) -> Seq<(Seq<char>, Seq<char>)> {
    v.map_values(|p: (String, String)| (p.0@, p.1@))
}

/// Sets each `(key, value as written)` of `fields` in the record at `path`
/// and rewrites it in canonical form (known keys first, in their fixed
/// order); the body stays unchanged. Fails, writing nothing, when nothing
/// is stored at `path`.
pub fn set_frontmatter_fields(store: &mut MapStore, path: &String, fields: &Vec<(String, String)>) -> (r:
    Result<(), String>)
    ensures
        r is Err <==> old(store).get(path@) is None,
        r is Err ==> *final(store) == *old(store),
        r is Ok ==> (old(store).get(path@) matches Some(c) && forall|q: Seq<char>| #[trigger]
            final(store).get(q) == if q == path@ {
                Some(with_fields(path@, c, pair_views(fields@)))
            } else {
                old(store).get(q)
            }),
        r is Ok ==> final(store).paths() == old(store).paths(),
{
    let contents = match store.read(path) {
        Some(c) => c,
        None => {
            let mut m = chars_of("no record stored at ");
            extend_str(&mut m, path.as_str());
            return Err(string_of(&m));
        },
    };
    let normalized = normalize_frontmatter_gap(contents.as_str());
    let mut record = extract_record(path.as_str(), normalized.as_str());
    let ghost r0 = record.view();
    let ghost fv = pair_views(fields@);
    let mut i: usize = 0;
    while i < fields.len()
        invariant
            i <= fields.len(),
            fv == pair_views(fields@),
            record.view() == (RecordV { fields: fields_set(r0.fields, fv.take(i as int)), ..r0 }),
        decreases fields.len() - i,
    {
        proof {
            assert(fv.take(i + 1).drop_last() == fv.take(i as int));
            assert(fv.take(i + 1).last() == fv[i as int]);
        }
        record.set_field(fields[i].0.as_str(), fields[i].1.as_str());
        i += 1;
    }
    assert(fv.take(fields.len() as int) == fv);
    let text = to_canonical_markdown(&record);
    proof {
        old(store).lemma_paths_match_get(path@);
    }
    store.write(path, &text);
    Ok(())
}

/// The text a reconcile leaves for `t` at `p`: its canonical form with the
/// callout its status calls for, when that changes the body.
pub open spec fn settled(store: MapStore, p: Seq<char>, t: Seq<char>) -> Seq<char> {
    if reconciled_record(store, p, t).body != extracted(p, gap_normalized(t)).body {
        canonical(reconciled_record(store, p, t))
    } else {
        t
    }
}

/// The fields `supersede` sets on the old record.
pub open spec fn retiring_fields(new_n: u32) -> Seq<(Seq<char>, Seq<char>)> {
    seq![("status"@, "Superseded"@), ("superseded_by"@, pad4(new_n as nat))]
}

/// What a successful `supersede` leaves: two distinct records resolved,
/// the old one retired with its callout, the new one linked back, nothing
/// else touched.
pub open spec fn superseded_as(
    before: MapStore,
    after: MapStore,
    docs_dir: Seq<char>,
    old_ref: Seq<char>,
    new_ref: Seq<char>,
) -> bool {
    match (
        resolved_record(before, docs_dir, old_ref),
        resolved_record(before, docs_dir, new_ref),
        reference_of(old_ref),
        reference_of(new_ref),
    ) {
        (Ok(op), Ok(np), Ok(ox), Ok(nx)) => op != np ==> match (before.get(op), before.get(np)) {
            (Some(oc), Some(nc)) => {
                &&& after.get(op) == Some(
                    settled(before, op, with_fields(op, oc, retiring_fields(nx.1))),
                )
                &&& after.get(np) == Some(
                    settled(before, np, with_fields(np, nc, seq![("supersedes"@, pad4(ox.1 as nat))])),
                )
                &&& forall|q: Seq<char>|
                    q != op && q != np ==> #[trigger] after.get(q) == before.get(q)
            },
            _ => false,
        },
        _ => false,
    }
}

/// A resolved reference names a stored record.
pub proof fn lemma_resolved_is_stored(store: MapStore, docs_dir: Seq<char>, reference: Seq<char>)
    ensures
        resolved_record(store, docs_dir, reference) matches Ok(p) ==> store.get(p) is Some,
{
    if let Ok(p) = resolved_record(store, docs_dir, reference) {
        if let Ok((dir, n)) = reference_of(reference) {
            let pred = |q: Seq<char>| matches_reference(q, dir, n);
            let cs = candidates(store, docs_dir, dir, n);
            assert(cs[0] == p);
            assert(cs.contains(p));
            crate::store::lemma_filter_within(store.listed(docs_dir), pred, p);
            crate::store::lemma_filter_within(store.paths(), |q: Seq<char>| crate::path::under(q, docs_dir), p);
            store.lemma_paths_match_get(p);
        }
    }
}

/// Marks the record `old_ref` names Superseded by the one `new_ref` names,
/// linking them both ways (`superseded_by` and `supersedes`, each the other
/// record's four-digit number) and writing the superseded callout on the
/// old record. Both references resolve before anything is written.
pub fn supersede(store: &mut MapStore, docs_dir: &String, old_ref: &str, new_ref: &str) -> (r: Result<
    (),
    String,
>)
    ensures
        resolved_record(*old(store), docs_dir@, old_ref@) is Err ==> r is Err && *final(store)
            == *old(store),
        resolved_record(*old(store), docs_dir@, old_ref@) is Ok && resolved_record(
            *old(store),
            docs_dir@,
            new_ref@,
        ) is Err ==> r is Err && *final(store) == *old(store),
        resolved_record(*old(store), docs_dir@, old_ref@) is Ok && resolved_record(
            *old(store),
            docs_dir@,
            new_ref@,
        ) is Ok ==> r is Ok,
        r is Ok ==> superseded_as(*old(store), *final(store), docs_dir@, old_ref@, new_ref@),
{
    let old_path = match find_record(store, docs_dir, old_ref) {
        Ok(p) => p,
        Err(m) => return Err(m),
    };
    let new_path = match find_record(store, docs_dir, new_ref) {
        Ok(p) => p,
        Err(m) => return Err(m),
    };
    let (_, old_n) = match parse_record_reference(old_ref) {
        Ok(x) => x,
        Err(m) => return Err(m),
    };
    let (_, new_n) = match parse_record_reference(new_ref) {
        Ok(x) => x,
        Err(m) => return Err(m),
    };
    let old_fields = vec![
        ("status".to_string(), "Superseded".to_string()),
        ("superseded_by".to_string(), string_of(&pad4_exec(new_n as u64))),
    ];
    proof {
        assert(pair_views(old_fields@) =~= retiring_fields(new_n));
        lemma_resolved_is_stored(*old(store), docs_dir@, old_ref@);
        lemma_resolved_is_stored(*old(store), docs_dir@, new_ref@);
    }
    let ghost s0 = *store;
    match set_frontmatter_fields(store, &old_path, &old_fields) {
        Ok(()) => {},
        Err(m) => return Err(m),
    }
    let new_fields = vec![("supersedes".to_string(), string_of(&pad4_exec(old_n as u64)))];
    assert(pair_views(new_fields@) =~= seq![("supersedes"@, pad4(old_n as nat))]);
    match set_frontmatter_fields(store, &new_path, &new_fields) {
        Ok(()) => {},
        Err(m) => return Err(m),
    }
    let ghost s2 = *store;
    assert(s2.paths() == s0.paths());
    let ghost t_old = s2.get(old_path@)->Some_0;
    match reconcile(store, old_path.as_str()) {
        Ok(_) => {},
        Err(m) => return Err(m),
    }
    let ghost s3 = *store;
    proof {
        reveal(reconciled_record);
        assert(s3.paths() == s0.paths());
        assert(s2.listed(dir_of(old_path@)) == s0.listed(dir_of(old_path@)));
        assert(s3.get(old_path@) == Some(settled(s0, old_path@, t_old)));
    }
    let ghost t_new = s3.get(new_path@)->Some_0;
    match reconcile(store, new_path.as_str()) {
        Ok(_) => {},
        Err(m) => return Err(m),
    }
    proof {
        reveal(reconciled_record);
        assert(s3.listed(dir_of(new_path@)) == s0.listed(dir_of(new_path@)));
        if old_path@ != new_path@ {
            assert(store.get(new_path@) == Some(settled(s0, new_path@, t_new)));
            assert(store.get(old_path@) == s3.get(old_path@));
        }
    }
    Ok(())
}

} // verus!
