//! The `title` key of `set`: one transaction over the frontmatter `title`,
//! the record's heading line, its filename, and every in-bundle reference
//! to the old filename. A record whose status retires it is refused — its
//! title is history.

use crate::commands::status::{record_row, resolve_spec};
use crate::commands::supersede::{pair_views, set_frontmatter_fields, with_fields};
use crate::doc_type::{row_retires, DocTypeSpec, Identity, IdentityV, TypeRow};
use crate::frontmatter::{format_scalar, formatted};
use crate::path::{file_name, file_name_or_empty, file_name_or_empty_exec, join_path, join_path_exec, parent, parent_exec, slug, slugify};
use crate::record::{extract_record, extracted};
use crate::store::{contains_path, path_views, MapStore};
use crate::path::file_name_exec;
use crate::text::{
    all_ascii_digits, all_digits_exec, chars_of, chars_of_string, contains, contains_exec, eq,
    extend, extend_str, find_char_from, find_char_from_exec, has_prefix, join, join_exec, lines,
    lines_exec, nl, replace_all, replace_all_exec, slice, string_of, trim_start, trim_start_exec,
    eq_str,
};
use vstd::prelude::*;

verus! {

/// What a retitle did: where the record now lives, and which other bundle
/// records had a reference to the old filename rewritten.
#[derive(Debug)]
pub struct Retitled {
    pub path: String,
    pub rewritten: Vec<String>,
}

/// The message refusing a retired record.
pub open spec fn terminal_message(path: Seq<char>, status: Seq<char>) -> Seq<char> {
    path + ": status '"@ + status
        + "' is terminal; a closed record keeps its title — revise it with `living-docs supersede <old> <new>`"@
}

/// Whether a record of type `row` with `contents` may be retitled.
pub open spec fn status_guard(path: Seq<char>, contents: Seq<char>, row: TypeRow) -> Result<(), Seq<char>> {
    match extracted(path, contents).status {
        None => Ok(()),
        Some(s) => if row_retires(row, s) {
            Err(terminal_message(path, s))
        } else {
            Ok(())
        },
    }
}

/// Refuses a record whose status retires it.
pub fn guard_status(path: &str, contents: &str, spec: &DocTypeSpec) -> (r: Result<(), String>)
    ensures
        r is Ok <==> status_guard(path@, contents@, spec.view()) is Ok,
        r matches Err(m) ==> status_guard(path@, contents@, spec.view()) == Err::<(), Seq<char>>(
            m@,
        ),
{
    let rec = extract_record(path, contents);
    match rec.status {
        None => Ok(()),
        Some(s) => {
            if spec.is_retired(s.as_str()) {
                let mut m = chars_of(path);
                extend_str(&mut m, ": status '");
                extend_str(&mut m, s.as_str());
                extend_str(
                    &mut m,
                    "' is terminal; a closed record keeps its title — revise it with `living-docs supersede <old> <new>`",
                );
                Err(string_of(&m))
            } else {
                Ok(())
            }
        },
    }
}

/// The `NNNN` a numbered record's filename opens with.
pub open spec fn filename_number(path: Seq<char>) -> Result<Seq<char>, Seq<char>> {
    let name = file_name_or_empty(path);
    let first = match find_char_from(name, '-', 0) {
        Some(k) => name.take(k),
        None => name,
    };
    if first.len() == 4 && all_ascii_digits(first) {
        Ok(first)
    } else {
        Err(path + ": filename carries no NNNN- number"@)
    }
}

/// The `NNNN` a numbered record's filename opens with.
pub fn number_prefix(path: &str) -> (r: Result<String, String>)
    ensures
        r matches Ok(n) ==> filename_number(path@) == Ok::<Seq<char>, Seq<char>>(n@),
        r matches Err(m) ==> filename_number(path@) == Err::<Seq<char>, Seq<char>>(m@),
{
    let name = file_name_or_empty_exec(&chars_of(path));
    let first = match find_char_from_exec(&name, '-', 0) {
        Some(k) => slice(&name, 0, k),
        None => name.clone(),
    };
    if first.len() == 4 && all_digits_exec(&first) {
        Ok(string_of(&first))
    } else {
        let mut m = chars_of(path);
        extend_str(&mut m, ": filename carries no NNNN- number");
        Err(string_of(&m))
    }
}

/// Where a retitled record belongs: a numbered record keeps its number and
/// takes the new slug, a named record is its slug, a singleton stays put
/// (`None`, as when the place does not change).
pub open spec fn target_of(row: TypeRow, path: Seq<char>, title: Seq<char>) -> Result<
    Option<Seq<char>>,
    Seq<char>,
> {
    let s = slug(title);
    let dir = match parent(path) {
        Some(d) => d,
        None => Seq::<char>::empty(),
    };
    if s.len() == 0 {
        Err("'"@ + title + "' has no slug; a title needs alphanumerics"@)
    } else {
        match row.identity {
            IdentityV::Singleton { .. } => Ok(None),
            IdentityV::Named { .. } => {
                let t = join_path(dir, s + ".md"@);
                Ok(
                    if t != path {
                        Some(t)
                    } else {
                        None
                    },
                )
            },
            IdentityV::Numbered { .. } => match filename_number(path) {
                Err(m) => Err(m),
                Ok(n) => {
                    let t = join_path(dir, n + "-"@ + s + ".md"@);
                    Ok(
                        if t != path {
                            Some(t)
                        } else {
                            None
                        },
                    )
                },
            },
        }
    }
}

/// Where the record at `path` of type `spec` belongs under `title`.
pub fn target_path(spec: &DocTypeSpec, path: &str, title: &str) -> (r: Result<Option<String>, String>)
    ensures
        r matches Ok(t) ==> target_of(spec.view(), path@, title@) == Ok::<
            Option<Seq<char>>,
            Seq<char>,
        >(
            match t {
                Some(x) => Some(x@),
                None => None,
            },
        ),
        r matches Err(m) ==> target_of(spec.view(), path@, title@) == Err::<
            Option<Seq<char>>,
            Seq<char>,
        >(m@),
{
    let s = chars_of_string(&slugify(title));
    if s.len() == 0 {
        let mut m = chars_of("'");
        extend_str(&mut m, title);
        extend_str(&mut m, "' has no slug; a title needs alphanumerics");
        return Err(string_of(&m));
    }
    let p = chars_of(path);
    let dir = match parent_exec(&p) {
        Some(d) => d,
        None => Vec::new(),
    };
    let mut name: Vec<char>;
    match spec.identity {
        Identity::Singleton { .. } => return Ok(None),
        Identity::Named { .. } => {
            name = s;
        },
        Identity::Numbered { .. } => {
            let n = match number_prefix(path) {
                Ok(n) => n,
                Err(m) => return Err(m),
            };
            name = chars_of_string(&n);
            extend_str(&mut name, "-");
            extend(&mut name, &s);
        },
    }
    extend_str(&mut name, ".md");
    let t = join_path_exec(&dir, &name);
    if eq(&t, &p) {
        Ok(None)
    } else {
        Ok(Some(string_of(&t)))
    }
}

/// Where the body starts among lines `ls`: after a closing `---` when the
/// first line opens a frontmatter block (none when it never closes).
pub open spec fn body_start_of(ls: Seq<Seq<char>>) -> Option<int> {
    if ls.len() > 0 && ls[0] == "---"@ {
        match crate::check::size::closing_fence_from(ls, 1) {
            Some(k) => Some(k + 1),
            None => None,
        }
    } else {
        Some(0)
    }
}

/// The first line at or after `i` that opens with `#`.
pub open spec fn hash_line_from(ls: Seq<Seq<char>>, i: int) -> Option<int>
    decreases ls.len() - i,
{
    if i < 0 || i >= ls.len() {
        None
    } else if has_prefix(ls[i], "#"@) {
        Some(i)
    } else {
        hash_line_from(ls, i + 1)
    }
}

/// The leading run of `#` of a line.
pub open spec fn hash_run(l: Seq<char>) -> int
    decreases l.len(),
{
    if l.len() > 0 && l[0] == '#' {
        1 + hash_run(l.drop_first())
    } else {
        0
    }
}

/// The four-digit number a heading opens with, as written.
pub open spec fn heading_number_of(h: Seq<char>) -> Option<Seq<char>> {
    let rest = trim_start(h.skip(hash_run(h)));
    let first = match find_char_from(rest, '.', 0) {
        Some(k) => rest.take(k),
        None => rest,
    };
    if first.len() == 4 && all_ascii_digits(first) {
        Some(first)
    } else {
        None
    }
}

/// `contents` with its body's first heading line rewritten to `title`,
/// keeping the heading level and a `NNNN.` number; `None` without one.
pub open spec fn heading_replaced(contents: Seq<char>, title: Seq<char>) -> Option<Seq<char>> {
    let ls = lines(contents);
    match body_start_of(ls) {
        None => None,
        Some(b) => match hash_line_from(ls, b) {
            None => None,
            Some(i) => {
                let h = ls[i];
                let hashes = h.take(hash_run(h));
                let nl_ = match heading_number_of(h) {
                    Some(n) => hashes + " "@ + n + ". "@ + title,
                    None => hashes + " "@ + title,
                };
                Some(join(ls.update(i, nl_), nl()) + "\n"@)
            },
        },
    }
}

proof fn lemma_hash_run_bound(l: Seq<char>)
    ensures
        0 <= hash_run(l) <= l.len(),
        forall|j: int| 0 <= j < hash_run(l) ==> l[j] == '#',
        hash_run(l) < l.len() ==> l[hash_run(l)] != '#',
    decreases l.len(),
{
    if l.len() > 0 && l[0] == '#' {
        lemma_hash_run_bound(l.drop_first());
        assert forall|j: int| 0 <= j < hash_run(l) implies l[j] == '#' by {
            if j > 0 {
                assert(l.drop_first()[j - 1] == l[j]);
            }
        }
        if hash_run(l) < l.len() {
            assert(l.drop_first()[hash_run(l) - 1] == l[hash_run(l)]);
        }
    }
}

fn hash_run_exec(l: &Vec<char>) -> (r: usize)
    ensures
        r as int == hash_run(l@),
{
    let mut k: usize = 0;
    assert(l@.skip(0) == l@);
    while k < l.len() && l[k] == '#'
        invariant
            k <= l.len(),
            forall|j: int| 0 <= j < k ==> l@[j] == '#',
            hash_run(l@) == k + hash_run(l@.skip(k as int)),
        decreases l.len() - k,
    {
        assert(l@.skip(k as int).drop_first() == l@.skip(k + 1));
        k += 1;
    }
    proof {
        assert(hash_run(l@.skip(k as int)) == 0);
    }
    k
}

/// The four-digit number a heading opens with.
pub fn heading_number(heading: &Vec<char>) -> (r: Option<Vec<char>>)
    ensures
        r matches Some(n) ==> heading_number_of(heading@) == Some(n@),
        r is None ==> heading_number_of(heading@) is None,
{
    let k = hash_run_exec(heading);
    proof {
        lemma_hash_run_bound(heading@);
    }
    let tail = slice(heading, k, heading.len());
    assert(tail@ == heading@.skip(k as int));
    let rest = trim_start_exec(&tail);
    let first = match find_char_from_exec(&rest, '.', 0) {
        Some(j) => slice(&rest, 0, j),
        None => rest.clone(),
    };
    if first.len() == 4 && all_digits_exec(&first) {
        Some(first)
    } else {
        None
    }
}

/// The index of the body's first heading line among `ls`: the first line
/// opening with `#` after the frontmatter block, if any.
fn heading_index(ls: &Vec<Vec<char>>) -> (r: Option<usize>)
    ensures
        r matches Some(i) ==> i < ls.len() && (match body_start_of(
            ls@.map_values(|v: Vec<char>| v@),
        ) {
            Some(b) => hash_line_from(ls@.map_values(|v: Vec<char>| v@), b) == Some(i as int),
            None => false,
        }),
        r is None ==> match body_start_of(ls@.map_values(|v: Vec<char>| v@)) {
            Some(b) => hash_line_from(ls@.map_values(|v: Vec<char>| v@), b) is None,
            None => true,
        },
{
    let ghost lv = ls@.map_values(|v: Vec<char>| v@);
    let start = if ls.len() > 0 && eq_str(&ls[0], "---") {
        assert(lv[0] == ls@[0]@);
        let mut j: usize = 1;
        let mut found: Option<usize> = None;
        while j < ls.len()
            invariant_except_break
                found is None,
            invariant
                1 <= j <= ls.len(),
                lv == ls@.map_values(|v: Vec<char>| v@),
                crate::check::size::closing_fence_from(lv, 1)
                    == crate::check::size::closing_fence_from(lv, j as int),
            ensures
                found matches Some(k) ==> crate::check::size::closing_fence_from(lv, 1) == Some(
                    k as int,
                ) && k < ls.len(),
                found is None ==> crate::check::size::closing_fence_from(lv, 1) is None,
            decreases ls.len() - j,
        {
            assert(lv[j as int] == ls@[j as int]@);
            if eq_str(&ls[j], "---") {
                found = Some(j);
                break;
            }
            j += 1;
        }
        match found {
            Some(k) => k + 1,
            None => return None,
        }
    } else {
        if ls.len() > 0 {
            assert(lv[0] == ls@[0]@);
        }
        0
    };
    let mut i = start;
    while i < ls.len()
        invariant
            start <= i <= ls.len(),
            lv == ls@.map_values(|v: Vec<char>| v@),
            hash_line_from(lv, start as int) == hash_line_from(lv, i as int),
        ensures
            i < ls.len() ==> has_prefix(lv[i as int], "#"@),
            start <= i <= ls.len(),
            hash_line_from(lv, start as int) == hash_line_from(lv, i as int),
        decreases ls.len() - i,
    {
        assert(lv[i as int] == ls@[i as int]@);
        if crate::text::starts_with_str(&ls[i], "#") {
            break;
        }
        i += 1;
    }
    if i >= ls.len() {
        return None;
    }
    Some(i)
}

/// `contents` with its first body heading rewritten to `title`.
pub fn replace_heading(contents: &str, title: &str) -> (r: Option<String>)
    ensures
        r matches Some(t) ==> heading_replaced(contents@, title@) == Some(t@),
        r is None ==> heading_replaced(contents@, title@) is None,
{
    let mut ls = lines_exec(&chars_of(contents));
    let ghost lv = ls@.map_values(|v: Vec<char>| v@);
    let i = match heading_index(&ls) {
        Some(i) => i,
        None => return None,
    };
    assert(lv[i as int] == ls@[i as int]@);
    let h = ls[i].clone();
    let k = hash_run_exec(&h);
    proof {
        lemma_hash_run_bound(h@);
    }
    let mut line = slice(&h, 0, k);
    let ghost l0 = line@;
    match heading_number(&h) {
        Some(n) => {
            extend_str(&mut line, " ");
            extend(&mut line, &n);
            extend_str(&mut line, ". ");
            extend_str(&mut line, title);
        },
        None => {
            extend_str(&mut line, " ");
            extend_str(&mut line, title);
        },
    }
    let ghost nv = line@;
    proof {
        let hv = lv[i as int];
        assert(h@ == hv);
        assert(l0 == hv.take(hash_run(hv)));
        assert(nv == match heading_number_of(hv) {
            Some(n) => hv.take(hash_run(hv)) + " "@ + n + ". "@ + title@,
            None => hv.take(hash_run(hv)) + " "@ + title@,
        });
    }
    ls.set(i, line);
    assert(ls@.map_values(|v: Vec<char>| v@) =~= lv.update(i as int, nv));
    let mut out = crate::text::join_lines(&ls);
    extend_str(&mut out, "\n");
    Some(string_of(&out))
}


/// The message refusing a title whose filename another record holds.
pub open spec fn collision_message(target: Seq<char>) -> Seq<char> {
    target + ": a record already holds that slug; choose another title"@
}

/// Refuses a target that a record of the bundle already holds.
fn refuse_collision(store: &MapStore, docs_dir: &String, target: &String) -> (r: Result<(), String>)
    ensures
        r is Err <==> store.listed(docs_dir@).contains(target@),
        r matches Err(m) ==> m@ == collision_message(target@),
{
    let listed = store.list(docs_dir);
    if contains_path(&listed, target) {
        let mut m = chars_of(target.as_str());
        extend_str(&mut m, ": a record already holds that slug; choose another title");
        Err(string_of(&m))
    } else {
        Ok(())
    }
}

/// `contents` with its heading rewritten to `title`, unchanged when it has
/// no heading.
pub open spec fn heading_rewritten(contents: Seq<char>, title: Seq<char>) -> Seq<char> {
    match heading_replaced(contents, title) {
        Some(t) => t,
        None => contents,
    }
}

/// Rewrites the heading line of the record stored at `path`.
fn rewrite_heading(store: &mut MapStore, path: &String, title: &str)
    requires
        old(store).get(path@) is Some,
    ensures
        forall|q: Seq<char>| #[trigger]
            final(store).get(q) == if q == path@ {
                Some(heading_rewritten(old(store).get(path@)->Some_0, title@))
            } else {
                old(store).get(q)
            },
        final(store).paths() == old(store).paths(),
{
    let contents = match store.read(path) {
        Some(c) => c,
        None => return ,
    };
    match replace_heading(contents.as_str(), title) {
        Some(updated) => {
            proof {
                old(store).lemma_paths_match_get(path@);
            }
            store.write(path, &updated);
        },
        None => {},
    }
}

/// Whether the record stored at `q` names `name`.
pub open spec fn mentions(store: MapStore, q: Seq<char>, name: Seq<char>) -> bool {
    store.get(q) matches Some(c) && contains(c, name)
}

/// Rewrites `old_name` to `new_name` in each record of `others` that names
/// it; returns those records, in order.
fn rewrite_references(
    store: &mut MapStore,
    others: &Vec<String>,
    old_name: &Vec<char>,
    new_name: &Vec<char>,
) -> (r: Vec<String>)
    requires
        path_views(others@).no_duplicates(),
    ensures
        path_views(r@) == path_views(others@).filter(
            |q: Seq<char>| mentions(*old(store), q, old_name@),
        ),
        forall|q: Seq<char>| #[trigger]
            final(store).get(q) == if path_views(others@).contains(q) && mentions(
                *old(store),
                q,
                old_name@,
            ) {
                Some(replace_all(old(store).get(q)->Some_0, old_name@, new_name@))
            } else {
                old(store).get(q)
            },
        final(store).paths() == old(store).paths(),
{
    let ghost ov = path_views(others@);
    let ghost s0 = *store;
    let ghost pred = |q: Seq<char>| mentions(s0, q, old_name@);
    let mut out: Vec<String> = Vec::new();
    let mut i: usize = 0;
    while i < others.len()
        invariant
            i <= others.len(),
            ov == path_views(others@),
            ov.no_duplicates(),
            s0 == *old(store),
            pred == (|q: Seq<char>| mentions(s0, q, old_name@)),
            path_views(out@) == ov.take(i as int).filter(pred),
            store.paths() == s0.paths(),
            forall|q: Seq<char>| #[trigger]
                store.get(q) == if ov.take(i as int).contains(q) && mentions(s0, q, old_name@) {
                    Some(replace_all(s0.get(q)->Some_0, old_name@, new_name@))
                } else {
                    s0.get(q)
                },
        decreases others.len() - i,
    {
        let ghost qi = ov[i as int];
        proof {
            assert(ov.take(i + 1) == ov.take(i as int).push(qi));
            ov.take(i as int).lemma_filter_push(qi, pred);
            assert(!ov.take(i as int).contains(qi)) by {
                if ov.take(i as int).contains(qi) {
                    let j = choose|j: int| 0 <= j < i && ov.take(i as int)[j] == qi;
                    assert(ov[j] == ov[i as int]);
                }
            }
            assert(store.get(qi) == s0.get(qi));
            assert(others@[i as int]@ == qi);
        }
        let p = others[i].clone();
        match store.read(&p) {
            Some(contents) => {
                let c = chars_of_string(&contents);
                if contains_exec(&c, old_name) {
                    let updated = string_of(&replace_all_exec(&c, old_name, new_name));
                    proof {
                        store.lemma_paths_match_get(p@);
                    }
                    store.write(&p, &updated);
                    out.push(p);
                    proof {
                        assert(path_views(out@) == path_views(out@.drop_last()).push(qi));
                    }
                }
            },
            None => {},
        }
        i += 1;
        proof {
            assert forall|q: Seq<char>| #[trigger]
                store.get(q) == if ov.take(i as int).contains(q) && mentions(s0, q, old_name@) {
                    Some(replace_all(s0.get(q)->Some_0, old_name@, new_name@))
                } else {
                    s0.get(q)
                } by {
                let t1 = ov.take(i - 1);
                let t2 = ov.take(i as int);
                assert(t2 == t1.push(qi));
                if t2.contains(q) {
                    let j = choose|j: int| 0 <= j < t2.len() && t2[j] == q;
                    if j < t1.len() {
                        assert(t1[j] == q);
                    }
                }
                if t1.contains(q) {
                    let j = choose|j: int| 0 <= j < t1.len() && t1[j] == q;
                    assert(t2[j] == q);
                }
                if q == qi {
                    assert(t2[i - 1] == q);
                }
            }
        }
    }
    assert(ov.take(others.len() as int) == ov);
    out
}


/// What retitling the record at `path` to `title` is owed, before anything
/// is written: where the record goes (`None` when it stays), or why it is
/// refused.
pub open spec fn retitle_plan(store: MapStore, docs_dir: Seq<char>, path: Seq<char>, title: Seq<char>) -> Result<
    Option<Seq<char>>,
    Seq<char>,
> {
    match store.get(path) {
        None => Err("not found"@),
        Some(c) => match record_row(path, c) {
            Err(m) => Err(m),
            Ok(row) => match status_guard(path, c, row) {
                Err(m) => Err(m),
                Ok(_) => match target_of(row, path, title) {
                    Err(m) => Err(m),
                    Ok(None) => Ok(None),
                    Ok(Some(t)) => if store.listed(docs_dir).contains(t) {
                        Err(collision_message(t))
                    } else {
                        Ok(Some(t))
                    },
                },
            },
        },
    }
}

/// The retitled record's text: its `title:` set and its heading rewritten.
pub open spec fn retitled_text(path: Seq<char>, contents: Seq<char>, title: Seq<char>) -> Seq<char> {
    heading_rewritten(with_fields(path, contents, seq![("title"@, formatted(title))]), title)
}

/// The other records of the bundle.
pub open spec fn others_of(store: MapStore, docs_dir: Seq<char>, path: Seq<char>) -> Seq<Seq<char>> {
    store.listed(docs_dir).filter(|q: Seq<char>| q != path)
}

/// The other records that named the old filename, in store order.
pub open spec fn references_rewritten(store: MapStore, docs_dir: Seq<char>, path: Seq<char>, target: Seq<char>) -> Seq<
    Seq<char>,
> {
    match (file_name(path), file_name(target)) {
        (Some(o), Some(_)) => others_of(store, docs_dir, path).filter(
            |q: Seq<char>| mentions(store, q, o),
        ),
        _ => Seq::<Seq<char>>::empty(),
    }
}

/// What another record `q` holds once the record at `path` moved to
/// `target`: the old filename replaced by the new one wherever it named it.
pub open spec fn repointed(store: MapStore, docs_dir: Seq<char>, path: Seq<char>, target: Seq<char>, q: Seq<char>) -> Option<
    Seq<char>,
> {
    match (file_name(path), file_name(target)) {
        (Some(o), Some(n)) => if others_of(store, docs_dir, path).contains(q) && mentions(
            store,
            q,
            o,
        ) {
            Some(replace_all(store.get(q)->Some_0, o, n))
        } else {
            store.get(q)
        },
        _ => store.get(q),
    }
}

/// Retitles the record at `path`: sets its `title:`, rewrites its heading,
/// moves it to the filename the new title gives and repoints every other
/// bundle record that named the old filename. Nothing is written when the
/// record is refused.
pub fn apply(store: &mut MapStore, docs_dir: &String, path: &String, title: &str) -> (r: Result<
    Retitled,
    String,
>)
    ensures
        r matches Err(m) ==> retitle_plan(*old(store), docs_dir@, path@, title@) == Err::<
            Option<Seq<char>>,
            Seq<char>,
        >(m@) && *final(store) == *old(store),
        retitle_plan(*old(store), docs_dir@, path@, title@) is Ok ==> r is Ok,
        r matches Ok(rt) ==> (retitle_plan(*old(store), docs_dir@, path@, title@) matches Ok(t) && (
        old(store).get(path@) matches Some(c) && ({
            let np = match t {
                Some(x) => x,
                None => path@,
            };
            &&& rt.path@ == np
            &&& path_views(rt.rewritten@) == match t {
                Some(x) => references_rewritten(*old(store), docs_dir@, path@, x),
                None => Seq::<Seq<char>>::empty(),
            }
            &&& final(store).get(np) == Some(retitled_text(path@, c, title@))
            &&& t is Some ==> final(store).get(path@) is None
            &&& forall|q: Seq<char>|
                q != path@ && q != np ==> #[trigger] final(store).get(q) == match t {
                    Some(x) => repointed(*old(store), docs_dir@, path@, x, q),
                    None => old(store).get(q),
                }
        }))),
{
    let contents = match store.read(path) {
        Some(c) => c,
        None => return Err("not found".to_string()),
    };
    let spec = match resolve_spec(path.as_str(), contents.as_str()) {
        Ok(s) => s,
        Err(m) => return Err(m),
    };
    match guard_status(path.as_str(), contents.as_str(), &spec) {
        Ok(()) => {},
        Err(m) => return Err(m),
    }
    let target = match target_path(&spec, path.as_str(), title) {
        Ok(t) => t,
        Err(m) => return Err(m),
    };
    let listed = store.list(docs_dir);
    match &target {
        Some(t) => match refuse_collision(store, docs_dir, t) {
            Ok(()) => {},
            Err(m) => return Err(m),
        },
        None => {},
    }
    let ghost s0 = *store;
    let fields = vec![("title".to_string(), format_scalar(title))];
    assert(pair_views(fields@) =~= seq![("title"@, formatted(title@))]);
    let written = set_frontmatter_fields(store, path, &fields);
    assert(written is Ok);
    rewrite_heading(store, path, title);
    let target = match target {
        None => {
            return Ok(Retitled { path: path.clone(), rewritten: Vec::new() });
        },
        Some(t) => t,
    };
    let ghost s1 = *store;
    let moved = store.rename(path, &target);
    assert(moved is Ok);
    let ghost s2 = *store;
    let pc = chars_of(path.as_str());
    let tc = chars_of(target.as_str());
    let (old_name, new_name) = match (file_name_exec(&pc), file_name_exec(&tc)) {
        (Some(o), Some(n)) => (o, n),
        _ => {
            return Ok(Retitled { path: target, rewritten: Vec::new() });
        },
    };
    let mut others: Vec<String> = Vec::new();
    let mut i: usize = 0;
    while i < listed.len()
        invariant
            i <= listed.len(),
            path_views(listed@) == s0.listed(docs_dir@),
            s0.listed(docs_dir@).no_duplicates(),
            pc@ == path@,
            path_views(others@) == s0.listed(docs_dir@).take(i as int).filter(
                |q: Seq<char>| q != path@,
            ),
        decreases listed.len() - i,
    {
        proof {
            let lv = s0.listed(docs_dir@);
            assert(lv.take(i + 1) == lv.take(i as int).push(lv[i as int]));
            lv.take(i as int).lemma_filter_push(lv[i as int], |q: Seq<char>| q != path@);
            assert(listed@[i as int]@ == lv[i as int]);
        }
        let q = chars_of(listed[i].as_str());
        if !eq(&q, &pc) {
            let ghost before = others@;
            others.push(listed[i].clone());
            proof {
                assert(path_views(others@) == path_views(before).push(listed@[i as int]@));
            }
        }
        i += 1;
    }
    proof {
        let lv = s0.listed(docs_dir@);
        assert(lv.take(listed.len() as int) == lv);
        crate::store::lemma_filter_no_dup(lv, |q: Seq<char>| q != path@);
    }
    let rewritten = rewrite_references(store, &others, &old_name, &new_name);
    proof {
        let ov = path_views(others@);
        let lv = s0.listed(docs_dir@);
        assert(ov == others_of(*old(store), docs_dir@, path@));
        assert forall|k: int| 0 <= k < ov.len() implies mentions(s2, #[trigger] ov[k], old_name@)
            == mentions(*old(store), ov[k], old_name@) by {
            let q = ov[k];
            assert(ov.contains(q));
            crate::store::lemma_filter_within(lv, |x: Seq<char>| x != path@, q);
            assert(q != path@) by {
                lv.lemma_filter_pred(|x: Seq<char>| x != path@, k);
            }
            assert(q != target@);
        }
        crate::store::lemma_filter_congruent(
            ov,
            |q: Seq<char>| mentions(s2, q, old_name@),
            |q: Seq<char>| mentions(*old(store), q, old_name@),
        );
    }
    proof {
        let t = target@;
        let c = old(store).get(path@)->Some_0;
        assert(retitle_plan(*old(store), docs_dir@, path@, title@) == Ok::<Option<Seq<char>>, Seq<char>>(Some(t)));
        assert(s1.get(path@) == Some(retitled_text(path@, c, title@)));
        assert(s2.get(t) == Some(retitled_text(path@, c, title@)));
        assert(!path_views(others@).contains(t)) by {
            crate::store::lemma_filter_within(s0.listed(docs_dir@), |x: Seq<char>| x != path@, t);
        }
        assert(!path_views(others@).contains(path@)) by {
            if path_views(others@).contains(path@) {
                let k = choose|k: int| 0 <= k < path_views(others@).len() && path_views(others@)[k] == path@;
                s0.listed(docs_dir@).lemma_filter_pred(|x: Seq<char>| x != path@, k);
            }
        }
        assert(store.get(t) == Some(retitled_text(path@, c, title@)));
        assert(store.get(path@) is None);
        assert(path_views(rewritten@) == references_rewritten(*old(store), docs_dir@, path@, t));
        assert forall|q: Seq<char>| q != path@ && q != t implies #[trigger] store.get(q) == repointed(*old(store), docs_dir@, path@, t, q) by {
            assert(s2.get(q) == old(store).get(q));
        }
    }
    Ok(Retitled { path: target, rewritten })
}

} // verus!
