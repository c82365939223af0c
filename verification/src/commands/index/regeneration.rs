//! Why a second `index` run rewrites nothing: the preamble the first run
//! kept is found again at the same place, above a listing that opens with a
//! generator-managed line, and writing an `index.md` changes no record the
//! listing is built from.

use crate::commands::index::rows::{body_text, flat_text, partitioned_text, row_text, rows_text, RecordRow};
use crate::commands::index::{
    boundary_from, boundary_line, fallback_text, line_end, listing_text, named_rows, named_text,
    preamble_text, without_crs,
};
use crate::check::records::stored;
use crate::commands::index::{computed, dir_exists, index_dir, numbered_value, row_of, rows_in};
use crate::commands::index::directory_tokens;
use crate::doc_type::{
    adr_row, constitution_row, first_with_token, issue_row, prd_row, registry, research_row,
    row_for_token, view_row, IdentityV, IndexPartition,
};
use crate::path::{file_name, join_path, parent, under};
use crate::store::{written, MapStore};
use crate::text::{find_char_from, has_prefix, join, nl, rfind_char};
use vstd::prelude::*;

verus! {

/// `t` agrees with `s` from `k` through `e`, where `s` first holds `c` at
/// or after `k`: `t` first holds it there too.
proof fn lemma_find_char_agrees(s: Seq<char>, t: Seq<char>, c: char, k: int, e: int)
    requires
        0 <= k,
        find_char_from(s, c, k) == Some(e),
        e < t.len(),
        forall|i: int| k <= i <= e ==> #[trigger] t[i] == s[i],
    ensures
        find_char_from(t, c, k) == Some(e),
    decreases e - k,
{
    crate::check::links::lemma_find_char_in_range(s, c, k);
    if s[k] != c {
        lemma_find_char_agrees(s, t, c, k + 1, e);
    }
}

/// A text that ends in `c` holds `c` at or after any of its positions.
proof fn lemma_find_char_before_end(s: Seq<char>, c: char, k: int)
    requires
        0 <= k < s.len(),
        s.last() == c,
    ensures
        find_char_from(s, c, k) is Some,
    decreases s.len() - k,
{
    if s[k] != c {
        lemma_find_char_before_end(s, c, k + 1);
    }
}

/// The first generator-managed line at or after a line start is itself at
/// a line start, and the text before it holds none.
proof fn lemma_boundary_from_line_start(s: Seq<char>, k: int)
    requires
        0 <= k,
        k == 0 || (k <= s.len() && s[k - 1] == '\n'),
    ensures
        boundary_from(s, k) matches Some(j) ==> k <= j < s.len() && (j == 0 || s[j - 1] == '\n')
            && boundary_from(s.take(j), k) is None,
    decreases s.len() + 1 - k,
{
    if k < s.len() {
        let e = line_end(s, k);
        crate::check::links::lemma_find_char_in_range(s, '\n', k);
        if !boundary_line(without_crs(s.subrange(k, e))) {
            if e < s.len() {
                lemma_boundary_from_line_start(s, e + 1);
                if let Some(j) = boundary_from(s, e + 1) {
                    let p = s.take(j);
                    lemma_find_char_agrees(s, p, '\n', k, e);
                    assert(p.subrange(k, e) == s.subrange(k, e));
                    assert(boundary_from(p, k) == boundary_from(p, e + 1));
                }
            }
        }
    }
}

/// Past a text `p` of whole lines none of which is generator-managed, the
/// first generator-managed line of `p + b` is that of `b`'s part.
proof fn lemma_boundary_past(p: Seq<char>, b: Seq<char>, k: int)
    requires
        0 <= k <= p.len(),
        k == 0 || p[k - 1] == '\n',
        p.len() == 0 || p.last() == '\n',
        boundary_from(p, k) is None,
    ensures
        boundary_from(p + b, k) == boundary_from(p + b, p.len() as int),
    decreases p.len() - k,
{
    if k < p.len() {
        let s = p + b;
        lemma_find_char_before_end(p, '\n', k);
        let e = line_end(p, k);
        crate::check::links::lemma_find_char_in_range(p, '\n', k);
        lemma_find_char_agrees(p, s, '\n', k, e);
        assert(s.subrange(k, e) == p.subrange(k, e));
        lemma_boundary_past(p, b, e + 1);
    }
}

/// A line's trailing `\r`s removed leave a prefix of it that keeps every
/// other character.
proof fn lemma_without_crs_keeps(l: Seq<char>, i: int)
    requires
        0 <= i < l.len(),
        l[i] != '\r',
    ensures
        i < without_crs(l).len() <= l.len(),
        without_crs(l) == l.take(without_crs(l).len() as int),
    decreases l.len(),
{
    if l.len() > 0 && l.last() == '\r' {
        lemma_without_crs_keeps(l.drop_last(), i);
        assert(l.drop_last().take(without_crs(l).len() as int) == l.take(
            without_crs(l).len() as int,
        ));
    }
}

/// A listing that opens with `## ` or `* [` opens with a generator-managed
/// line, wherever it starts.
proof fn lemma_listing_opens(p: Seq<char>, b: Seq<char>)
    requires
        has_prefix(b, "## "@) || has_prefix(b, "* ["@),
    ensures
        boundary_from(p + b, p.len() as int) == Some(p.len() as int),
{
    reveal_strlit("## ");
    reveal_strlit("* [");
    let s = p + b;
    let k = p.len() as int;
    let q = b.subrange(0, 3);
    assert(q[0] == b[0] && q[1] == b[1] && q[2] == b[2]);
    assert(q[0] != '\n' && q[1] != '\n' && q[2] != '\n');
    assert(s[k] == b[0] && s[k + 1] == b[1] && s[k + 2] == b[2]);
    assert(find_char_from(s, '\n', k) == find_char_from(s, '\n', k + 1));
    assert(find_char_from(s, '\n', k + 1) == find_char_from(s, '\n', k + 2));
    assert(find_char_from(s, '\n', k + 2) == find_char_from(s, '\n', k + 3));
    let e = line_end(s, k);
    crate::check::links::lemma_find_char_in_range(s, '\n', k + 3);
    assert(e >= k + 3);
    let l = s.subrange(k, e);
    assert(l[0] == b[0] && l[1] == b[1] && l[2] == b[2]);
    lemma_without_crs_keeps(l, 2);
    let w = without_crs(l);
    assert(w.subrange(0, 3) == l.subrange(0, 3));
    assert(l.subrange(0, 3) == b.subrange(0, 3));
}

/// A preamble holding no generator-managed line is found again, whole,
/// above any listing that opens with one.
proof fn lemma_preamble_kept(existing: Seq<char>, token: Seq<char>, b: Seq<char>)
    requires
        boundary_from(preamble_text(existing, token), 0) is None,
        has_prefix(b, "## "@) || has_prefix(b, "* ["@),
    ensures
        preamble_text(preamble_text(existing, token) + b, token) == preamble_text(existing, token),
{
    let p = preamble_text(existing, token);
    lemma_boundary_from_line_start(existing, 0);
    if boundary_from(existing, 0) is None {
        reveal_strlit("\n\n");
        let t = fallback_text(existing, token);
        assert(t.last() == '\n');
    }
    lemma_boundary_past(p, b, 0);
    lemma_listing_opens(p, b);
    assert((p + b).take(p.len() as int) == p);
}

/// A prefix of a prefix.
proof fn lemma_prefix_of_prefix(x: Seq<char>, a: Seq<char>, c: Seq<char>)
    requires
        has_prefix(x, a),
        has_prefix(a, c),
    ensures
        has_prefix(x, c),
{
    assert(x.subrange(0, c.len() as int) == a.subrange(0, c.len() as int));
}

/// A joined text opens with its first part.
proof fn lemma_join_opens(parts: Seq<Seq<char>>, sep: Seq<char>)
    requires
        parts.len() >= 1,
    ensures
        has_prefix(join(parts, sep), parts[0]),
    decreases parts.len(),
{
    if parts.len() > 1 {
        let d = parts.drop_last();
        lemma_join_opens(d, sep);
        assert(d[0] == parts[0]);
        let j = join(parts, sep);
        let x = join(d, sep);
        let n = parts[0].len() as int;
        assert(j == x + sep + parts.last());
        assert(n <= x.len());
        assert(j.subrange(0, n) =~= x.subrange(0, n));
    } else {
        assert(parts[0].subrange(0, parts[0].len() as int) =~= parts[0]);
    }
}

/// A text opens as any text it extends does.
proof fn lemma_prefix_extends(a: Seq<char>, b: Seq<char>, c: Seq<char>)
    requires
        has_prefix(a, c),
    ensures
        has_prefix(a + b, c),
{
    assert((a + b).subrange(0, c.len() as int) == a.subrange(0, c.len() as int));
}

/// Every row of a named listing opens with `* [`.
proof fn lemma_named_rows_open(store: MapStore, ps: Seq<Seq<char>>, dir: Seq<char>)
    ensures
        forall|i: int|
            0 <= i < named_rows(store, ps, dir).len() ==> has_prefix(
                #[trigger] named_rows(store, ps, dir)[i],
                "* ["@,
            ),
    decreases ps.len(),
{
    reveal_strlit("* [");
    if ps.len() > 0 {
        lemma_named_rows_open(store, ps.drop_last(), dir);
        let d = named_rows(store, ps.drop_last(), dir);
        let r = named_rows(store, ps, dir);
        assert forall|i: int| 0 <= i < r.len() implies has_prefix(#[trigger] r[i], "* ["@) by {
            if i < d.len() {
                assert(r[i] == d[i]);
            } else {
                let x = r[i];
                assert(x.subrange(0, 3) == "* ["@);
            }
        }
    }
}

/// A non-empty listing opens with a generator-managed line.
proof fn lemma_listing_text_opens(
    store: MapStore,
    docs_dir: Seq<char>,
    token: Seq<char>,
    type_dir: Seq<char>,
)
    requires
        listing_text(store, docs_dir, token, type_dir).len() > 0,
    ensures
        has_prefix(listing_text(store, docs_dir, token, type_dir), "## "@) || has_prefix(
            listing_text(store, docs_dir, token, type_dir),
            "* ["@,
        ),
{
    reveal_strlit("## ");
    reveal_strlit("* [");
    let l = listing_text(store, docs_dir, token, type_dir);
    let row = row_for_token(token)->Some_0;
    match row.identity {
        IdentityV::Named { .. } => {
            let rs = named_rows(store, store.listed(docs_dir), type_dir);
            lemma_named_rows_open(store, store.listed(docs_dir), type_dir);
            lemma_join_opens(rs, nl());
            lemma_prefix_of_prefix(join(rs, nl()), rs[0], "* ["@);
            lemma_prefix_extends(join(rs, nl()), "\n"@, "* ["@);
        },
        _ => {
            let all = crate::commands::index::sorted_rows(
                crate::commands::index::rows_in(store, store.listed(docs_dir), type_dir),
            );
            if row.partition == IndexPartition::Flat {
                let parts = all.map_values(|r: RecordRow| row_text(r, all));
                lemma_join_opens(parts, nl());
                let first = row_text(all[0], all);
                assert(parts[0] == first);
                assert(first.subrange(0, 3) == "* ["@);
                lemma_prefix_of_prefix(join(parts, nl()), first, "* ["@);
                lemma_prefix_extends(rows_text(all, all), "\n"@, "* ["@);
            } else {
                assert(l.subrange(0, 3) == "## "@);
            }
        },
    }
}

/// No listing row comes from an `index.md`.
proof fn lemma_index_file_lists_nothing(store: MapStore, p: Seq<char>)
    requires
        file_name(p) == Some("index.md"@),
    ensures
        row_of(store, p) is None,
{
    reveal_strlit("index.md");
    assert(numbered_value("index.md"@) is None) by {
        assert("index.md"@[4] == 'x');
    }
}

/// Writing an `index.md` changes no numbered row.
proof fn lemma_rows_unchanged(
    before: MapStore,
    after: MapStore,
    p: Seq<char>,
    contents: Seq<char>,
    ps: Seq<Seq<char>>,
    dir: Seq<char>,
)
    requires
        written(before, after, p, contents),
        file_name(p) == Some("index.md"@),
    ensures
        rows_in(after, ps, dir) == rows_in(before, ps, dir),
    decreases ps.len(),
{
    if ps.len() > 0 {
        lemma_rows_unchanged(before, after, p, contents, ps.drop_last(), dir);
        let q = ps.last();
        if q == p {
            lemma_index_file_lists_nothing(before, p);
            lemma_index_file_lists_nothing(after, p);
        } else {
            assert(after.get(q) == before.get(q));
        }
    }
}

/// Writing an `index.md` changes no named row.
proof fn lemma_named_rows_unchanged(
    before: MapStore,
    after: MapStore,
    p: Seq<char>,
    contents: Seq<char>,
    ps: Seq<Seq<char>>,
    dir: Seq<char>,
)
    requires
        written(before, after, p, contents),
        file_name(p) == Some("index.md"@),
    ensures
        named_rows(after, ps, dir) == named_rows(before, ps, dir),
    decreases ps.len(),
{
    if ps.len() > 0 {
        lemma_named_rows_unchanged(before, after, p, contents, ps.drop_last(), dir);
        let q = ps.last();
        if q != p {
            assert(after.get(q) == before.get(q));
        }
    }
}

/// An `index.md` listed last adds no row to either listing.
proof fn lemma_index_file_adds_no_row(store: MapStore, ps: Seq<Seq<char>>, p: Seq<char>, dir: Seq<char>)
    requires
        file_name(p) == Some("index.md"@),
    ensures
        rows_in(store, ps.push(p), dir) == rows_in(store, ps, dir),
        named_rows(store, ps.push(p), dir) == named_rows(store, ps, dir),
{
    lemma_index_file_lists_nothing(store, p);
    assert(ps.push(p).drop_last() == ps);
    assert(ps.push(p).last() == p);
    assert(rows_in(store, ps, dir) + Seq::<RecordRow>::empty() == rows_in(store, ps, dir));
    assert(named_rows(store, ps, dir) + Seq::<Seq<char>>::empty() == named_rows(store, ps, dir));
}

/// Writing an `index.md` leaves every type's listing as it was.
proof fn lemma_listing_unchanged(
    before: MapStore,
    after: MapStore,
    p: Seq<char>,
    contents: Seq<char>,
    docs_dir: Seq<char>,
    token: Seq<char>,
    dir: Seq<char>,
)
    requires
        written(before, after, p, contents),
        file_name(p) == Some("index.md"@),
    ensures
        listing_text(after, docs_dir, token, dir) == listing_text(before, docs_dir, token, dir),
{
    let pred = |q: Seq<char>| under(q, docs_dir);
    let lb = before.listed(docs_dir);
    let la = after.listed(docs_dir);
    lemma_rows_unchanged(before, after, p, contents, la, dir);
    lemma_named_rows_unchanged(before, after, p, contents, la, dir);
    if !before.paths().contains(p) {
        before.paths().lemma_filter_push(p, pred);
        if under(p, docs_dir) {
            assert(la == lb.push(p));
            lemma_index_file_adds_no_row(before, lb, p, dir);
        } else {
            assert(la == lb);
        }
    } else {
        assert(la == lb);
    }
}

/// The last `c` of `a + b`, where `b` holds none, is that of `a`.
proof fn lemma_rfind_char_past(a: Seq<char>, b: Seq<char>, c: char)
    requires
        forall|i: int| 0 <= i < b.len() ==> b[i] != c,
    ensures
        rfind_char(a + b, c) == rfind_char(a, c),
    decreases b.len(),
{
    if b.len() > 0 {
        let d = b.drop_last();
        assert((a + b).drop_last() == a + d);
        assert((a + b).last() == b.last());
        lemma_rfind_char_past(a, d, c);
    } else {
        assert(a + b == a);
    }
}

/// A type directory's index is named `index.md`.
proof fn lemma_index_file_name(dir: Seq<char>)
    ensures
        file_name(join_path(dir, "index.md"@)) == Some("index.md"@),
{
    reveal_strlit("index.md");
    let name = "index.md"@;
    assert(forall|i: int| 0 <= i < name.len() ==> name[i] != '/');
    if dir.len() == 0 {
        lemma_rfind_char_past(Seq::<char>::empty(), name, '/');
        assert(Seq::<char>::empty() + name == name);
    } else if dir.last() == '/' {
        lemma_rfind_char_past(dir, name, '/');
        assert((dir + name).skip(dir.len() as int) == name);
    } else {
        let a = dir + seq!['/'];
        lemma_rfind_char_past(a, name, '/');
        assert(a.last() == '/');
        assert((a + name).skip(a.len() as int) == name);
    }
}

/// The listing a type's regenerated index carries.
pub open spec fn index_listing(store: MapStore, docs_dir: Seq<char>, token: Seq<char>) -> Seq<char> {
    match index_dir(token) {
        Ok(dir) => listing_text(store, docs_dir, token, join_path(docs_dir, dir)),
        Err(_) => Seq::<char>::empty(),
    }
}

/// The preamble a type's regenerated index keeps.
pub open spec fn kept_preamble(store: MapStore, docs_dir: Seq<char>, token: Seq<char>) -> Seq<char> {
    match index_dir(token) {
        Ok(dir) => preamble_text(
            stored(store, join_path(join_path(docs_dir, dir), "index.md"@)),
            token,
        ),
        Err(_) => Seq::<char>::empty(),
    }
}

/// Regenerating an index a second time computes what the first run wrote.
/// The first run's text is the kept preamble above the listing; when that
/// preamble holds no generator-managed line and the listing is not empty,
/// the second run finds the boundary where the listing starts, keeps the
/// same preamble, and rebuilds the same listing, since writing an
/// `index.md` changes no record the listing is built from.
pub proof fn lemma_regenerating_twice_rewrites_nothing(
    first: MapStore,
    second: MapStore,
    docs_dir: Seq<char>,
    token: Seq<char>,
    index_path: Seq<char>,
    content: Seq<char>,
)
    requires
        computed(first, docs_dir, token) == Ok::<(Seq<char>, Seq<char>), Seq<char>>(
            (index_path, content),
        ),
        written(first, second, index_path, content),
        index_listing(first, docs_dir, token).len() > 0,
        boundary_from(kept_preamble(first, docs_dir, token), 0) is None,
    ensures
        computed(second, docs_dir, token) == computed(first, docs_dir, token),
{
    let dir = index_dir(token)->Ok_0;
    let type_dir = join_path(docs_dir, dir);
    lemma_index_file_name(type_dir);
    let listing = listing_text(first, docs_dir, token, type_dir);
    let preamble = kept_preamble(first, docs_dir, token);
    assert(content == preamble + listing);
    lemma_listing_unchanged(first, second, index_path, content, docs_dir, token, type_dir);
    lemma_listing_text_opens(first, docs_dir, token, type_dir);
    assert(stored(second, index_path) == content);
    lemma_preamble_kept(stored(first, index_path), token, listing);
}

/// A directory name of one component: not empty, without `/`.
pub open spec fn plain_dir(d: Seq<char>) -> bool {
    d.len() > 0 && forall|i: int| 0 <= i < d.len() ==> d[i] != '/'
}

/// The directory of a token that has one.
pub open spec fn dir_of(token: Seq<char>) -> Seq<char> {
    index_dir(token)->Ok_0
}

/// Every type a bare `index` sweeps has a one-component directory of its
/// own.
pub(crate) proof fn lemma_sweep_dirs()
    ensures
        forall|i: int|
            0 <= i < directory_tokens(registry()).len() ==> index_dir(
                #[trigger] directory_tokens(registry())[i],
            ) is Ok && plain_dir(dir_of(directory_tokens(registry())[i])),
        forall|i: int, k: int|
            0 <= i < k < directory_tokens(registry()).len() ==> dir_of(
                #[trigger] directory_tokens(registry())[i],
            ) != dir_of(#[trigger] directory_tokens(registry())[k]),
{
    reveal_strlit("adr");
    reveal_strlit("prd");
    reveal_strlit("issue");
    reveal_strlit("issues");
    reveal_strlit("research");
    reveal_strlit("view");
    reveal_strlit("architecture");
    reveal_strlit("constitution");
    let r = registry();
    let ts = seq!["adr"@, "prd"@, "issue"@, "research"@, "view"@];
    assert(r.take(0) =~= Seq::<crate::doc_type::TypeRow>::empty());
    assert(directory_tokens(r.take(0)) == Seq::<Seq<char>>::empty());
    assert(directory_tokens(r.take(1)) =~= seq!["adr"@]) by {
        assert(r.take(1).drop_last() == r.take(0));
        assert(r.take(1).last() == adr_row());
    }
    assert(directory_tokens(r.take(2)) =~= seq!["adr"@, "prd"@]) by {
        assert(r.take(2).drop_last() == r.take(1));
    }
    assert(directory_tokens(r.take(3)) =~= seq!["adr"@, "prd"@, "issue"@]) by {
        assert(r.take(3).drop_last() == r.take(2));
    }
    assert(directory_tokens(r.take(4)) =~= seq!["adr"@, "prd"@, "issue"@, "research"@]) by {
        assert(r.take(4).drop_last() == r.take(3));
    }
    assert(directory_tokens(r.take(5)) =~= ts) by {
        assert(r.take(5).drop_last() == r.take(4));
    }
    assert(directory_tokens(r) =~= ts) by {
        assert(r.drop_last() == r.take(5));
    }
    assert("adr"@[0] != "prd"@[0]);
    assert(first_with_token("adr"@, 0) == Some(adr_row()));
    assert(first_with_token("prd"@, 1) == Some(prd_row()));
    assert(first_with_token("prd"@, 0) == Some(prd_row()));
    assert(first_with_token("issue"@, 2) == Some(issue_row()));
    assert(first_with_token("issue"@, 1) == Some(issue_row()));
    assert(first_with_token("issue"@, 0) == Some(issue_row()));
    assert(first_with_token("research"@, 3) == Some(research_row()));
    assert(r[2].token == "issue"@ && "issue"@.len() != "research"@.len());
    assert(first_with_token("research"@, 2) == Some(research_row()));
    assert(first_with_token("research"@, 1) == Some(research_row()));
    assert(first_with_token("research"@, 0) == Some(research_row()));
    assert(first_with_token("view"@, 4) == Some(view_row()));
    assert(r[3].token == "research"@ && "view"@.len() != "research"@.len());
    assert(first_with_token("view"@, 3) == Some(view_row()));
    assert(first_with_token("view"@, 2) == Some(view_row()));
    assert(first_with_token("view"@, 1) == Some(view_row()));
    assert(first_with_token("view"@, 0) == Some(view_row()));
    let ds = seq!["adr"@, "prd"@, "issues"@, "research"@, "architecture"@];
    assert forall|i: int| 0 <= i < 5 implies index_dir(#[trigger] ts[i]) == Ok::<
        Seq<char>,
        Seq<char>,
    >(ds[i]) && plain_dir(ds[i]) by {}
    assert forall|i: int, k: int| 0 <= i < k < 5 implies #[trigger] ds[i] != #[trigger] ds[k] by {
        if i == 0 && k == 1 {
            assert(ds[i][0] != ds[k][0]);
        }
    }
}

/// What `join_path(docs_dir, d)` puts before a one-component `d`.
pub open spec fn dir_base(docs_dir: Seq<char>) -> Seq<char> {
    if docs_dir.len() == 0 {
        Seq::<char>::empty()
    } else if docs_dir.last() == '/' {
        docs_dir
    } else {
        docs_dir + seq!['/']
    }
}

/// Where a one-component type directory and its index sit.
pub(crate) proof fn lemma_type_dir_shape(docs_dir: Seq<char>, d: Seq<char>)
    requires
        plain_dir(d),
    ensures
        join_path(docs_dir, d) == dir_base(docs_dir) + d,
        join_path(join_path(docs_dir, d), "index.md"@) == dir_base(docs_dir) + d + "/index.md"@,
        parent(join_path(join_path(docs_dir, d), "index.md"@)) == Some(join_path(docs_dir, d)),
{
    reveal_strlit("index.md");
    reveal_strlit("/index.md");
    let td = join_path(docs_dir, d);
    assert(td == dir_base(docs_dir) + d) by {
        if docs_dir.len() == 0 {
            assert(Seq::<char>::empty() + d == d);
        }
    }
    assert(td.last() == d.last());
    let a = td + seq!['/'];
    let name = "index.md"@;
    assert(join_path(td, name) == a + name);
    assert(a + name == dir_base(docs_dir) + d + "/index.md"@);
    lemma_rfind_char_past(a, name, '/');
    assert(a.last() == '/');
    assert((a + name).take(td.len() as int) == td);
}

/// Two one-component directory names, each with `/index.md` after it,
/// agree no further than the shorter name.
proof fn lemma_plain_dirs_part(d1: Seq<char>, d2: Seq<char>, b: Seq<char>)
    requires
        plain_dir(d1),
        plain_dir(d2),
        d1 != d2,
    ensures
        b + d1 + "/index.md"@ != b + d2 + "/index.md"@,
        b + d1 + "/index.md"@ != b + d2,
        !has_prefix(b + d1 + "/index.md"@, b + d2 + seq!['/']),
{
    reveal_strlit("/index.md");
    let s = "/index.md"@;
    let p = b + d1 + s;
    let n = b.len() as int;
    if d1.len() == d2.len() {
        assert(exists|j: int| 0 <= j < d1.len() && d1[j] != d2[j]) by {
            if !(exists|j: int| 0 <= j < d1.len() && d1[j] != d2[j]) {
                assert(d1 =~= d2);
            }
        }
        let j = choose|j: int| 0 <= j < d1.len() && d1[j] != d2[j];
        assert(p[n + j] == d1[j]);
        assert((b + d2 + s)[n + j] == d2[j]);
        if has_prefix(p, b + d2 + seq!['/']) {
            assert(p.subrange(0, n + d2.len() + 1)[n + j] == (b + d2 + seq!['/'])[n + j]);
        }
    } else if d1.len() < d2.len() {
        let j = d1.len() as int;
        assert(p[n + j] == '/');
        assert((b + d2)[n + j] == d2[j]);
        assert((b + d2 + s)[n + j] == d2[j]);
        if has_prefix(p, b + d2 + seq!['/']) {
            assert(p.subrange(0, n + d2.len() + 1)[n + j] == (b + d2 + seq!['/'])[n + j]);
        }
    } else {
        let j = d2.len() as int;
        assert(p[n + j] == d1[j]);
        assert((b + d2 + s)[n + j] == '/');
        if has_prefix(p, b + d2 + seq!['/']) {
            assert(p.subrange(0, n + d2.len() + 1)[n + j] == (b + d2 + seq!['/'])[n + j]);
        }
        if p == b + d2 {
            assert(p.len() > (b + d2).len());
        }
    }
}

/// Two types with different one-component directories never share an
/// index path, and neither index sits under the other's directory.
proof fn lemma_sibling_indexes(docs_dir: Seq<char>, d1: Seq<char>, d2: Seq<char>)
    requires
        plain_dir(d1),
        plain_dir(d2),
        d1 != d2,
    ensures
        join_path(join_path(docs_dir, d1), "index.md"@) != join_path(
            join_path(docs_dir, d2),
            "index.md"@,
        ),
        !under(join_path(join_path(docs_dir, d1), "index.md"@), join_path(docs_dir, d2)),
{
    lemma_type_dir_shape(docs_dir, d1);
    lemma_type_dir_shape(docs_dir, d2);
    let b = dir_base(docs_dir);
    lemma_plain_dirs_part(d1, d2, b);
    let td2 = join_path(docs_dir, d2);
    assert(td2.len() > 0 && td2.last() == d2.last());
}

/// Writing one type's index leaves another type's regenerated index, and
/// whether its directory exists, as they were.
pub(crate) proof fn lemma_other_index_unchanged(
    before: MapStore,
    after: MapStore,
    docs_dir: Seq<char>,
    written_token: Seq<char>,
    token: Seq<char>,
    contents: Seq<char>,
)
    requires
        index_dir(written_token) is Ok,
        index_dir(token) is Ok,
        plain_dir(dir_of(written_token)),
        plain_dir(dir_of(token)),
        dir_of(written_token) != dir_of(token),
        written(
            before,
            after,
            join_path(join_path(docs_dir, dir_of(written_token)), "index.md"@),
            contents,
        ),
    ensures
        computed(after, docs_dir, token) == computed(before, docs_dir, token),
        dir_exists(after, join_path(docs_dir, dir_of(token))) == dir_exists(
            before,
            join_path(docs_dir, dir_of(token)),
        ),
{
    let p = join_path(join_path(docs_dir, dir_of(written_token)), "index.md"@);
    let td = join_path(docs_dir, dir_of(token));
    let ip = join_path(td, "index.md"@);
    lemma_index_file_name(join_path(docs_dir, dir_of(written_token)));
    lemma_sibling_indexes(docs_dir, dir_of(written_token), dir_of(token));
    lemma_listing_unchanged(before, after, p, contents, docs_dir, token, td);
    assert(after.get(ip) == before.get(ip));
    let pred = |q: Seq<char>| under(q, td);
    if !before.paths().contains(p) {
        before.paths().lemma_filter_push(p, pred);
    }
    assert(after.listed(td) == before.listed(td));
}

} // verus!
