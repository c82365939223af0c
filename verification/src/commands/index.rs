//! `living-docs index`: regenerates a type directory's `index.md` — the
//! preamble above the first generator-managed line kept byte for byte, and
//! the listing below it rebuilt from the records. A type with no directory
//! yet is a silent no-op.

pub mod regeneration;
pub mod rows;

use crate::check::heading::{first_heading, unnumbered};
use crate::check::records::stored;
use crate::doc_type::{doc_types, registry, row_for_token, spec_for, Identity, IdentityV};
use crate::frontmatter::{frontmatter_scalar, scalar};
use crate::path::{file_name, file_name_exec, join_path, join_path_str, parent, parent_exec, under};
use crate::store::{lookup, path_views, written, MapStore};
use crate::text::{
    all_ascii_digits, all_digits_exec, chars_of, chars_of_string, digits_value, ends_with_str,
    eq, extend, extend_str, find_char_from, find_char_from_exec, has_prefix, has_suffix, lines,
    lines_exec, pad4, pad4_exec, parse_digits, slice, starts_with_str, string_of, trim,
    trim_exec, trim_start, trim_start_exec, utf8_len_exec, utf8_size, decimal,
};
use regeneration::{dir_of, lemma_other_index_unchanged, lemma_sweep_dirs, lemma_type_dir_shape};
use rows::{body_text, render_body, rows_view, Record, RecordRow};
use vstd::prelude::*;

verus! {

/// The tokens a bare `index` regenerates: every registry row with a
/// directory (numbered or named), in registry order.
pub open spec fn directory_tokens(rs: Seq<crate::doc_type::TypeRow>) -> Seq<Seq<char>>
    decreases rs.len(),
{
    if rs.len() == 0 {
        Seq::<Seq<char>>::empty()
    } else {
        directory_tokens(rs.drop_last()) + match rs.last().identity {
            IdentityV::Singleton { .. } => Seq::<Seq<char>>::empty(),
            _ => seq![rs.last().token],
        }
    }
}

/// Every registry token with a directory to index, in registry order.
pub fn all_type_tokens() -> (r: Vec<String>)
    ensures
        path_views(r@) == directory_tokens(registry()),
{
    let all = doc_types();
    let mut out: Vec<String> = Vec::new();
    let mut i: usize = 0;
    while i < all.len()
        invariant
            i <= all.len(),
            all@.len() == registry().len(),
            forall|j: int| 0 <= j < all@.len() ==> (#[trigger] all@[j]).view() == registry()[j],
            path_views(out@) == directory_tokens(registry().take(i as int)),
        decreases all.len() - i,
    {
        proof {
            assert(registry().take(i + 1).drop_last() == registry().take(i as int));
            assert(registry().take(i + 1).last() == registry()[i as int]);
            assert(all@[i as int].view() == registry()[i as int]);
        }
        match all[i].identity {
            Identity::Singleton { .. } => {},
            _ => {
                let ghost before = path_views(out@);
                out.push(all[i].token.to_string());
                assert(path_views(out@) =~= before.push(registry()[i as int].token));
            },
        }
        i += 1;
    }
    assert(registry().take(all.len() as int) == registry());
    out
}

/// A numbered record's filename: four ASCII digits, `-`, anything, `.md`;
/// the number is the four digits' value.
pub open spec fn numbered_value(name: Seq<char>) -> Option<u32> {
    if has_suffix(name, ".md"@) && name.len() > 4 && name[4] == '-' && all_ascii_digits(
        name.take(4),
    ) {
        Some(digits_value(name.take(4)) as u32)
    } else {
        None
    }
}

/// The number a `NNNN-*.md` filename carries.
pub fn numbered_prefix(filename: &str) -> (r: Option<u32>)
    ensures
        r == numbered_value(filename@),
{
    let f = chars_of(filename);
    if !ends_with_str(&f, ".md") || f.len() <= 4 || f[4] != '-' {
        return None;
    }
    let head = slice(&f, 0, 4);
    if !all_digits_exec(&head) {
        return None;
    }
    proof {
        crate::record::lemma_digits_value_bound(head@);
        assert(crate::record::pow10(4) == 10000) by {
            reveal_with_fuel(crate::record::pow10, 5);
        }
    }
    match parse_digits(&head) {
        Some(n) => Some(n as u32),
        None => None,
    }
}

/// The heading of a type's index, `Index` for an unknown token.
pub open spec fn heading_title(token: Seq<char>) -> Seq<char> {
    match row_for_token(token) {
        Some(row) => row.index_heading,
        None => "Index"@,
    }
}

/// The preamble of an index with no generator-managed line.
pub open spec fn fallback_text(existing: Seq<char>, token: Seq<char>) -> Seq<char> {
    if trim(existing).len() == 0 {
        "# "@ + heading_title(token) + "\n\n"@
    } else {
        trim(existing) + "\n\n"@
    }
}

/// A minimal `# <Heading>` preamble for a fresh file, or the existing
/// text, trimmed, followed by a blank line.
pub fn fallback_preamble(existing: &str, doc_type: &str) -> (r: String)
    ensures
        r@ == fallback_text(existing@, doc_type@),
{
    let t = trim_exec(&chars_of(existing));
    let mut out: Vec<char>;
    if t.len() == 0 {
        out = chars_of("# ");
        match spec_for(doc_type) {
            Some(spec) => extend_str(&mut out, spec.index_heading),
            None => extend_str(&mut out, "Index"),
        }
    } else {
        out = t;
    }
    extend_str(&mut out, "\n\n");
    string_of(&out)
}

/// A line with its trailing `\r`s removed.
pub open spec fn without_crs(l: Seq<char>) -> Seq<char>
    decreases l.len(),
{
    if l.len() > 0 && l.last() == '\r' {
        without_crs(l.drop_last())
    } else {
        l
    }
}

/// The first cell of a table row: the text after a leading `|` up to the
/// next `|`, trimmed.
pub open spec fn first_cell(line: Seq<char>) -> Option<Seq<char>> {
    let t = trim_start(line);
    if !has_prefix(t, "|"@) {
        None
    } else {
        let rest = t.skip(1);
        let cell = match find_char_from(rest, '|', 0) {
            Some(k) => rest.take(k),
            None => rest,
        };
        Some(trim(cell))
    }
}

/// A record-link cell: `[` and four ASCII digits.
pub open spec fn record_link_cell(cell: Seq<char>) -> bool {
    has_prefix(cell, "["@) && cell.len() >= 5 && all_ascii_digits(cell.subrange(1, 5))
}

/// A hand-maintained table listing row: its first cell is `#` or a record
/// link.
pub open spec fn table_listing_row(line: Seq<char>) -> bool {
    match first_cell(line) {
        Some(c) => c == "#"@ || record_link_cell(c),
        None => false,
    }
}

/// A generator-managed line: a `## ` heading, a `* [` row, or a table
/// listing row.
pub open spec fn boundary_line(line: Seq<char>) -> bool {
    has_prefix(line, "## "@) || has_prefix(line, "* ["@) || table_listing_row(line)
}

/// Where the line starting at `k` ends: its `\n`, or the text's end.
pub open spec fn line_end(s: Seq<char>, k: int) -> int {
    match find_char_from(s, '\n', k) {
        Some(e) => e,
        None => s.len() as int,
    }
}

/// The character index where the first generator-managed line at or after
/// line start `k` begins.
pub open spec fn boundary_from(s: Seq<char>, k: int) -> Option<int>
    decreases s.len() + 1 - k,
{
    if k < 0 || k >= s.len() {
        None
    } else {
        let e = line_end(s, k);
        if boundary_line(without_crs(s.subrange(k, e))) {
            Some(k)
        } else {
            proof {
                crate::check::links::lemma_find_char_in_range(s, '\n', k);
            }
            boundary_from(s, e + 1)
        }
    }
}

/// The preamble an index keeps: everything above its first
/// generator-managed line, or the fallback preamble.
pub open spec fn preamble_text(existing: Seq<char>, token: Seq<char>) -> Seq<char> {
    match boundary_from(existing, 0) {
        Some(k) => existing.take(k),
        None => fallback_text(existing, token),
    }
}

fn first_table_cell(line: &Vec<char>) -> (r: Option<Vec<char>>)
    ensures
        r matches Some(c) ==> first_cell(line@) == Some(c@),
        r is None ==> first_cell(line@) is None,
{
    let t = trim_start_exec(line);
    if !starts_with_str(&t, "|") {
        return None;
    }
    proof {
        reveal_strlit("|");
    }
    let rest = slice(&t, 1, t.len());
    assert(rest@ == t@.skip(1));
    let cell = match find_char_from_exec(&rest, '|', 0) {
        Some(k) => slice(&rest, 0, k),
        None => rest.clone(),
    };
    Some(trim_exec(&cell))
}

/// Whether a table cell links a record: `[` and four ASCII digits.
fn is_record_link_cell(cell: &Vec<char>) -> (r: bool)
    ensures
        r == record_link_cell(cell@),
{
    if !starts_with_str(cell, "[") || cell.len() < 5 {
        return false;
    }
    all_digits_exec(&slice(cell, 1, 5))
}

/// Whether a table row's first cell is `#` or a record link.
pub fn is_table_listing_row(line: &str) -> (r: bool)
    ensures
        r == table_listing_row(line@),
{
    match first_table_cell(&chars_of(line)) {
        None => false,
        Some(c) => {
            crate::text::eq_str(&c, "#") || is_record_link_cell(&c)
        },
    }
}

/// Whether `line` is a generator-managed line.
pub fn is_boundary_line(line: &str) -> (r: bool)
    ensures
        r == boundary_line(line@),
{
    let l = chars_of(line);
    starts_with_str(&l, "## ") || starts_with_str(&l, "* [") || is_table_listing_row(line)
}

fn without_crs_exec(l: &Vec<char>) -> (r: Vec<char>)
    ensures
        r@ == without_crs(l@),
{
    let mut n = l.len();
    assert(l@.take(n as int) == l@);
    while n > 0 && l[n - 1] == '\r'
        invariant
            n <= l.len(),
            without_crs(l@) == without_crs(l@.take(n as int)),
        decreases n,
    {
        assert(l@.take(n as int).drop_last() == l@.take(n - 1));
        n -= 1;
    }
    slice(l, 0, n)
}

/// The character index of the first generator-managed line.
fn boundary_index(s: &Vec<char>) -> (r: Option<usize>)
    ensures
        r matches Some(k) ==> boundary_from(s@, 0) == Some(k as int) && k <= s.len(),
        r is None ==> boundary_from(s@, 0) is None,
{
    let mut k: usize = 0;
    while k < s.len()
        invariant
            k <= s.len() + 1,
            boundary_from(s@, 0) == boundary_from(s@, k as int),
        decreases s.len() + 1 - k,
    {
        let e = match find_char_from_exec(s, '\n', k) {
            Some(e) => e,
            None => s.len(),
        };
        proof {
            crate::check::links::lemma_find_char_in_range(s@, '\n', k as int);
        }
        let line = without_crs_exec(&slice(s, k, e));
        if is_boundary_line(string_of(&line).as_str()) {
            return Some(k);
        }
        if e >= s.len() {
            assert(boundary_from(s@, e + 1) is None);
            return None;
        }
        k = e + 1;
    }
    None
}

/// The byte offset of the first generator-managed line of `existing` —
/// a `## ` heading, a `* [` row, or a table listing row, whichever comes
/// first.
pub fn find_boundary_offset(existing: &str) -> (r: Option<usize>)
    requires
        existing@.len() <= usize::MAX / 4,
    ensures
        r matches Some(b) ==> boundary_from(existing@, 0) matches Some(k) && b == utf8_size(
            existing@.take(k),
        ),
        r is None ==> boundary_from(existing@, 0) is None,
{
    let s = chars_of(existing);
    match boundary_index(&s) {
        None => None,
        Some(k) => {
            let mut bytes: usize = 0;
            let mut i: usize = 0;
            while i < k
                invariant
                    i <= k <= s.len(),
                    s@ == existing@,
                    s.len() <= usize::MAX / 4,
                    bytes == utf8_size(s@.take(i as int)),
                    bytes <= 4 * i,
                decreases k - i,
            {
                proof {
                    assert(s@.take(i + 1).drop_last() == s@.take(i as int));
                    assert(s@.take(i + 1).last() == s@[i as int]);
                }
                bytes += utf8_len_exec(s[i]);
                i += 1;
            }
            Some(bytes)
        },
    }
}

/// Everything above the first generator-managed line survives byte for
/// byte; a file without one gets the fallback preamble.
pub fn preamble_for(existing: &str, doc_type: &str) -> (r: String)
    ensures
        r@ == preamble_text(existing@, doc_type@),
{
    let s = chars_of(existing);
    match boundary_index(&s) {
        Some(k) => string_of(&slice(&s, 0, k)),
        None => fallback_preamble(existing, doc_type),
    }
}

/// A heading with a leading `ADR NNNN — `, `NNNN. ` or `NNNN — `
/// numbering removed, in that order of preference.
pub open spec fn heading_unprefixed(h: Seq<char>, n: u32) -> Seq<char> {
    let p = pad4(n as nat);
    if has_prefix(h, "ADR "@ + p + " — "@) {
        h.skip(("ADR "@ + p + " — "@).len() as int)
    } else if has_prefix(h, p + ". "@) {
        h.skip((p + ". "@).len() as int)
    } else if has_prefix(h, p + " — "@) {
        h.skip((p + " — "@).len() as int)
    } else {
        h
    }
}

/// The text of the first `# ` line of `contents`, trimmed.
pub open spec fn h1_text(contents: Seq<char>) -> Option<Seq<char>> {
    match first_heading(lines(contents), 0) {
        Some(i) => Some(trim(lines(contents)[i].skip(2))),
        None => None,
    }
}

/// A listed record's title: its frontmatter `title`, else its first `# `
/// heading without its numbering, else empty.
pub open spec fn record_title(contents: Seq<char>, n: u32) -> Seq<char> {
    match scalar(contents, "title"@) {
        Some(t) => t,
        None => match h1_text(contents) {
            Some(h) => heading_unprefixed(h, n),
            None => Seq::<char>::empty(),
        },
    }
}

fn strip_prefix_chars(h: &Vec<char>, p: &Vec<char>) -> (r: Option<Vec<char>>)
    ensures
        r matches Some(x) ==> has_prefix(h@, p@) && x@ == h@.skip(p@.len() as int),
        r is None ==> !has_prefix(h@, p@),
{
    if crate::text::starts_with(h, p) {
        Some(slice(h, p.len(), h.len()))
    } else {
        None
    }
}

/// Strips a leading `ADR NNNN — `, `NNNN. ` or `NNNN — ` from `heading`.
pub fn strip_heading_number_prefix(heading: &str, number: u32) -> (r: String)
    ensures
        r@ == heading_unprefixed(heading@, number),
{
    let h = chars_of(heading);
    let p = pad4_exec(number as u64);
    let mut a = chars_of("ADR ");
    extend(&mut a, &p);
    extend_str(&mut a, " — ");
    let mut b = p.clone();
    extend_str(&mut b, ". ");
    let mut c = p.clone();
    extend_str(&mut c, " — ");
    match strip_prefix_chars(&h, &a) {
        Some(x) => return string_of(&x),
        None => {},
    }
    match strip_prefix_chars(&h, &b) {
        Some(x) => return string_of(&x),
        None => {},
    }
    match strip_prefix_chars(&h, &c) {
        Some(x) => return string_of(&x),
        None => {},
    }
    heading.to_string()
}

fn first_h1(contents: &str) -> (r: Option<Vec<char>>)
    ensures
        r matches Some(h) ==> h1_text(contents@) == Some(h@),
        r is None ==> h1_text(contents@) is None,
{
    let ls = lines_exec(&chars_of(contents));
    let ghost lv = ls@.map_values(|v: Vec<char>| v@);
    let mut i: usize = 0;
    while i < ls.len()
        invariant
            i <= ls.len(),
            lv == ls@.map_values(|v: Vec<char>| v@),
            lv == lines(contents@),
            first_heading(lv, 0) == first_heading(lv, i as int),
        decreases ls.len() - i,
    {
        assert(lv[i as int] == ls@[i as int]@);
        if starts_with_str(&ls[i], "# ") {
            proof {
                reveal_strlit("# ");
            }
            let rest = slice(&ls[i], 2, ls[i].len());
            assert(rest@ == lv[i as int].skip(2));
            return Some(trim_exec(&rest));
        }
        i += 1;
    }
    None
}

/// A listed record's title.
pub fn title_for_record(contents: &str, number: u32) -> (r: String)
    ensures
        r@ == record_title(contents@, number),
{
    match frontmatter_scalar(contents, "title") {
        Some(t) => t,
        None => match first_h1(contents) {
            Some(h) => strip_heading_number_prefix(string_of(&h).as_str(), number),
            None => String::new(),
        },
    }
}

/// The listing row of the record stored at `p`, when its filename is
/// numbered.
pub open spec fn row_of(store: MapStore, p: Seq<char>) -> Option<RecordRow> {
    match file_name(p) {
        None => None,
        Some(name) => match numbered_value(name) {
            None => None,
            Some(n) => match store.get(p) {
                None => None,
                Some(c) => Some(
                    RecordRow {
                        number: n,
                        title: record_title(c, n),
                        status: match scalar(c, "status"@) {
                            Some(s) => s,
                            None => Seq::<char>::empty(),
                        },
                        filename: name,
                        superseded_by: scalar(c, "superseded_by"@),
                    },
                ),
            },
        },
    }
}

/// The rows of the records directly in `dir` among `ps`, in order.
pub open spec fn rows_in(store: MapStore, ps: Seq<Seq<char>>, dir: Seq<char>) -> Seq<RecordRow>
    decreases ps.len(),
{
    if ps.len() == 0 {
        Seq::<RecordRow>::empty()
    } else {
        rows_in(store, ps.drop_last(), dir) + if parent(ps.last()) == Some(dir) {
            match row_of(store, ps.last()) {
                Some(r) => seq![r],
                None => Seq::<RecordRow>::empty(),
            }
        } else {
            Seq::<RecordRow>::empty()
        }
    }
}

/// Where a row goes in rows sorted by number: after every row whose number
/// is not greater.
pub open spec fn insert_at(sorted: Seq<RecordRow>, n: u32, i: int) -> int
    decreases sorted.len() - i,
{
    if i < 0 || i >= sorted.len() {
        sorted.len() as int
    } else if sorted[i].number > n {
        i
    } else {
        insert_at(sorted, n, i + 1)
    }
}

/// The rows sorted by number, equal numbers keeping their order.
pub open spec fn sorted_rows(rs: Seq<RecordRow>) -> Seq<RecordRow>
    decreases rs.len(),
{
    if rs.len() == 0 {
        Seq::<RecordRow>::empty()
    } else {
        let s = sorted_rows(rs.drop_last());
        s.insert(insert_at(s, rs.last().number, 0), rs.last())
    }
}

proof fn lemma_insert_at_bound(s: Seq<RecordRow>, n: u32, i: int)
    requires
        0 <= i <= s.len(),
    ensures
        i <= insert_at(s, n, i) <= s.len(),
    decreases s.len() - i,
{
    if i < s.len() && s[i].number <= n {
        lemma_insert_at_bound(s, n, i + 1);
    }
}

proof fn lemma_sorted_rows_len(rs: Seq<RecordRow>)
    ensures
        sorted_rows(rs).len() == rs.len(),
    decreases rs.len(),
{
    if rs.len() > 0 {
        lemma_sorted_rows_len(rs.drop_last());
        lemma_insert_at_bound(sorted_rows(rs.drop_last()), rs.last().number, 0);
    }
}

fn record_from_path(store: &MapStore, path: &String) -> (r: Option<Record>)
    ensures
        r matches Some(x) ==> row_of(*store, path@) == Some(x.view()),
        r is None ==> row_of(*store, path@) is None,
{
    let name = match file_name_exec(&chars_of_string(path)) {
        Some(n) => string_of(&n),
        None => return None,
    };
    let number = match numbered_prefix(name.as_str()) {
        Some(n) => n,
        None => return None,
    };
    let contents = match store.read(path) {
        Some(c) => c,
        None => return None,
    };
    let title = title_for_record(contents.as_str(), number);
    let status = match frontmatter_scalar(contents.as_str(), "status") {
        Some(s) => s,
        None => String::new(),
    };
    let superseded_by = frontmatter_scalar(contents.as_str(), "superseded_by");
    Some(Record { number, title, status, filename: name, superseded_by })
}

fn insert_sorted(sorted: &mut Vec<Record>, r: Record)
    ensures
        rows_view(final(sorted)@) == rows_view(old(sorted)@).insert(
            insert_at(rows_view(old(sorted)@), r.view().number, 0),
            r.view(),
        ),
{
    let ghost sv = rows_view(sorted@);
    let mut i: usize = 0;
    while i < sorted.len() && sorted[i].number <= r.number
        invariant
            i <= sorted.len(),
            sv == rows_view(sorted@),
            insert_at(sv, r.number, 0) == insert_at(sv, r.number, i as int),
        decreases sorted.len() - i,
    {
        i += 1;
    }
    let ghost rv = r.view();
    sorted.insert(i, r);
    assert(rows_view(sorted@) =~= sv.insert(i as int, rv));
}

/// The numbered records directly in `type_dir` among the records under
/// `docs_dir`, sorted by number (equal numbers in listing order).
pub fn collect_records(store: &MapStore, docs_dir: &String, type_dir: &String) -> (r: Vec<Record>)
    ensures
        rows_view(r@) == sorted_rows(rows_in(*store, store.listed(docs_dir@), type_dir@)),
{
    let paths = store.list(docs_dir);
    let ghost ps = path_views(paths@);
    let td = chars_of_string(type_dir);
    let mut sorted: Vec<Record> = Vec::new();
    let mut i: usize = 0;
    while i < paths.len()
        invariant
            i <= paths.len(),
            ps == path_views(paths@),
            ps == store.listed(docs_dir@),
            td@ == type_dir@,
            rows_view(sorted@) == sorted_rows(rows_in(*store, ps.take(i as int), type_dir@)),
        decreases paths.len() - i,
    {
        proof {
            assert(ps.take(i + 1).drop_last() == ps.take(i as int));
            assert(ps.take(i + 1).last() == ps[i as int]);
        }
        let in_dir = match parent_exec(&chars_of_string(&paths[i])) {
            Some(d) => eq(&d, &td),
            None => false,
        };
        let ghost prev = rows_in(*store, ps.take(i as int), type_dir@);
        if in_dir {
            match record_from_path(store, &paths[i]) {
                Some(rec) => {
                    proof {
                        assert(rows_in(*store, ps.take(i + 1), type_dir@) == prev.push(rec.view()));
                        assert(prev.push(rec.view()).drop_last() == prev);
                    }
                    insert_sorted(&mut sorted, rec);
                },
                None => {
                    assert(rows_in(*store, ps.take(i + 1), type_dir@) =~= prev);
                },
            }
        } else {
            assert(rows_in(*store, ps.take(i + 1), type_dir@) =~= prev);
        }
        i += 1;
    }
    assert(ps.take(paths.len() as int) == ps);
    sorted
}

/// The message for a token the registry does not know.
pub open spec fn unsupported_message(token: Seq<char>) -> Seq<char> {
    "unsupported type '"@ + token + "' — run with a registered type token"@
}

/// The message for a singleton type, which has no directory index.
pub open spec fn singleton_message(token: Seq<char>, file: Seq<char>) -> Seq<char> {
    "'"@ + token + "' has no directory index — it writes a single "@ + file
        + " at the bundle root, not a numbered series"@
}

/// The directory a token's index lives in, or why it has none.
pub open spec fn index_dir(token: Seq<char>) -> Result<Seq<char>, Seq<char>> {
    match row_for_token(token) {
        None => Err(unsupported_message(token)),
        Some(row) => match row.identity {
            IdentityV::Numbered { dir } => Ok(dir),
            IdentityV::Named { dir } => Ok(dir),
            IdentityV::Singleton { file } => Err(singleton_message(token, file)),
        },
    }
}

/// A named type's listing: one `* [title](file)` row per record directly
/// in the directory, in listing order, the title falling back to the
/// filename.
pub open spec fn named_rows(store: MapStore, ps: Seq<Seq<char>>, dir: Seq<char>) -> Seq<Seq<char>>
    decreases ps.len(),
{
    if ps.len() == 0 {
        Seq::<Seq<char>>::empty()
    } else {
        let p = ps.last();
        named_rows(store, ps.drop_last(), dir) + match (parent(p), file_name(p), store.get(p)) {
            (Some(d), Some(name), Some(c)) => if d == dir && has_suffix(name, ".md"@) && name
                != "index.md"@ {
                seq![
                    "* ["@ + match scalar(c, "title"@) {
                        Some(t) => t,
                        None => name,
                    } + "]("@ + name + ")"@,
                ]
            } else {
                Seq::<Seq<char>>::empty()
            },
            _ => Seq::<Seq<char>>::empty(),
        }
    }
}

/// The listing body of a named type.
pub open spec fn named_text(store: MapStore, ps: Seq<Seq<char>>, dir: Seq<char>) -> Seq<char> {
    let rs = named_rows(store, ps, dir);
    if rs.len() == 0 {
        Seq::<char>::empty()
    } else {
        crate::text::join(rs, crate::text::nl()) + "\n"@
    }
}

fn named_body(store: &MapStore, docs_dir: &String, type_dir: &String) -> (r: String)
    ensures
        r@ == named_text(*store, store.listed(docs_dir@), type_dir@),
{
    let paths = store.list(docs_dir);
    let ghost ps = path_views(paths@);
    let td = chars_of_string(type_dir);
    let mut rows: Vec<Vec<char>> = Vec::new();
    let mut i: usize = 0;
    while i < paths.len()
        invariant
            i <= paths.len(),
            ps == path_views(paths@),
            ps == store.listed(docs_dir@),
            td@ == type_dir@,
            rows@.map_values(|v: Vec<char>| v@) == named_rows(*store, ps.take(i as int), type_dir@),
        decreases paths.len() - i,
    {
        proof {
            assert(ps.take(i + 1).drop_last() == ps.take(i as int));
            assert(ps.take(i + 1).last() == ps[i as int]);
        }
        let ghost before = rows@.map_values(|v: Vec<char>| v@);
        let p = chars_of_string(&paths[i]);
        let mut pushed = false;
        match (parent_exec(&p), file_name_exec(&p), store.read(&paths[i])) {
            (Some(d), Some(name), Some(c)) => {
                if eq(&d, &td) && ends_with_str(&name, ".md") && !crate::text::eq_str(
                    &name,
                    "index.md",
                ) {
                    let mut row = chars_of("* [");
                    match frontmatter_scalar(c.as_str(), "title") {
                        Some(t) => extend_str(&mut row, t.as_str()),
                        None => extend(&mut row, &name),
                    }
                    extend_str(&mut row, "](");
                    extend(&mut row, &name);
                    extend_str(&mut row, ")");
                    rows.push(row);
                    pushed = true;
                }
            },
            _ => {},
        }
        if !pushed {
            assert(rows@.map_values(|v: Vec<char>| v@) =~= named_rows(
                *store,
                ps.take(i + 1),
                type_dir@,
            ));
        } else {
            assert(rows@.map_values(|v: Vec<char>| v@) =~= named_rows(
                *store,
                ps.take(i + 1),
                type_dir@,
            ));
        }
        i += 1;
    }
    assert(ps.take(paths.len() as int) == ps);
    if rows.len() == 0 {
        return String::new();
    }
    let mut out = crate::text::join_lines(&rows);
    extend_str(&mut out, "\n");
    string_of(&out)
}

/// The listing of type `token` whose directory is `type_dir`: kind-less
/// `* [title](file)` rows for a named type, the numbered rows along the
/// type's partition otherwise.
pub open spec fn listing_text(store: MapStore, docs_dir: Seq<char>, token: Seq<char>, type_dir: Seq<
    char,
>) -> Seq<char> {
    match row_for_token(token) {
        Some(row) => match row.identity {
            IdentityV::Named { .. } => named_text(store, store.listed(docs_dir), type_dir),
            _ => body_text(token, sorted_rows(rows_in(store, store.listed(docs_dir), type_dir))),
        },
        None => Seq::<char>::empty(),
    }
}

/// A type's regenerated index: its path, and its content (the kept
/// preamble, then the listing).
pub open spec fn computed(store: MapStore, docs_dir: Seq<char>, token: Seq<char>) -> Result<
    (Seq<char>, Seq<char>),
    Seq<char>,
> {
    match index_dir(token) {
        Err(m) => Err(m),
        Ok(dir) => {
            let type_dir = join_path(docs_dir, dir);
            let index_path = join_path(type_dir, "index.md"@);
            Ok(
                (
                    index_path,
                    preamble_text(stored(store, index_path), token) + listing_text(
                        store,
                        docs_dir,
                        token,
                        type_dir,
                    ),
                ),
            )
        },
    }
}

/// The directory `doc_type`'s index lives in: an unknown token and a
/// singleton, which has no directory index, are refused with their
/// messages.
fn numbered_dir_for(doc_type: &str) -> (r: Result<&'static str, String>)
    ensures
        r matches Ok(d) ==> index_dir(doc_type@) == Ok::<Seq<char>, Seq<char>>(d@),
        r matches Err(m) ==> index_dir(doc_type@) == Err::<Seq<char>, Seq<char>>(m@),
{
    let spec = match spec_for(doc_type) {
        Some(s) => s,
        None => {
            let mut m = chars_of("unsupported type '");
            extend_str(&mut m, doc_type);
            extend_str(&mut m, "' — run with a registered type token");
            return Err(string_of(&m));
        },
    };
    match spec.identity {
        Identity::Numbered { dir } => Ok(dir),
        Identity::Named { dir } => Ok(dir),
        Identity::Singleton { file } => {
            let mut m = chars_of("'");
            extend_str(&mut m, doc_type);
            extend_str(&mut m, "' has no directory index — it writes a single ");
            extend_str(&mut m, file);
            extend_str(&mut m, " at the bundle root, not a numbered series");
            Err(string_of(&m))
        },
    }
}

/// The listing of `doc_type`'s index along its identity: the named rows
/// for a named type, the numbered rows along the type's partition
/// otherwise.
fn body_for(store: &MapStore, docs_dir: &String, doc_type: &str, type_dir: &String) -> (r: String)
    ensures
        r@ == listing_text(*store, docs_dir@, doc_type@, type_dir@),
{
    match spec_for(doc_type) {
        Some(spec) => match spec.identity {
            Identity::Named { .. } => named_body(store, docs_dir, type_dir),
            _ => {
                let records = collect_records(store, docs_dir, type_dir);
                render_body(doc_type, &records)
            },
        },
        None => String::new(),
    }
}

/// Computes `doc_type`'s regenerated `index.md` path and content — the
/// existing file's preamble and the records, both read through `store` —
/// without writing anything.
pub fn compute(store: &MapStore, docs_dir: &String, doc_type: &str) -> (r: Result<
    (String, String),
    String,
>)
    ensures
        r matches Ok(x) ==> computed(*store, docs_dir@, doc_type@) == Ok::<
            (Seq<char>, Seq<char>),
            Seq<char>,
        >((x.0@, x.1@)),
        r matches Err(m) ==> computed(*store, docs_dir@, doc_type@) == Err::<
            (Seq<char>, Seq<char>),
            Seq<char>,
        >(m@),
{
    let dir = match numbered_dir_for(doc_type) {
        Ok(d) => d,
        Err(m) => return Err(m),
    };
    let type_dir = string_of(&join_path_str(&chars_of_string(docs_dir), dir));
    let index_path = string_of(&join_path_str(&chars_of_string(&type_dir), "index.md"));
    let existing = match store.read(&index_path) {
        Some(c) => c,
        None => String::new(),
    };
    let preamble = preamble_for(existing.as_str(), doc_type);
    let body = body_for(store, docs_dir, doc_type, &type_dir);
    let mut content = chars_of_string(&preamble);
    extend_str(&mut content, body.as_str());
    Ok((index_path, string_of(&content)))
}


/// Whether the store lists anything under `dir`: the directory exists.
pub open spec fn dir_exists(store: MapStore, dir: Seq<char>) -> bool {
    store.listed(dir).len() > 0
}

/// Regenerates one type's index into the store when its directory exists;
/// returns the index path written, `None` for a type with no directory
/// yet.
pub fn regenerate(store: &mut MapStore, docs_dir: &String, doc_type: &str) -> (r: Result<
    Option<String>,
    String,
>)
    ensures
        r matches Err(m) ==> computed(*old(store), docs_dir@, doc_type@) == Err::<
            (Seq<char>, Seq<char>),
            Seq<char>,
        >(m@) && *final(store) == *old(store),
        r is Ok ==> computed(*old(store), docs_dir@, doc_type@) is Ok,
        r matches Ok(None) ==> *final(store) == *old(store) && !dir_exists(
            *old(store),
            parent(computed(*old(store), docs_dir@, doc_type@)->Ok_0.0)->Some_0,
        ),
        r matches Ok(Some(p)) ==> (computed(*old(store), docs_dir@, doc_type@) matches Ok(x) && p@
            == x.0 && dir_exists(*old(store), parent(x.0)->Some_0) && written(
            *old(store),
            *final(store),
            x.0,
            x.1,
        )),
{
    let (index_path, content) = match compute(store, docs_dir, doc_type) {
        Ok(x) => x,
        Err(m) => return Err(m),
    };
    let ip = chars_of_string(&index_path);
    proof {
        reveal_strlit("index.md");
    }
    let dir = match parent_exec(&ip) {
        Some(d) => d,
        None => return Ok(None),
    };
    let listed = store.list(&string_of(&dir));
    if listed.len() == 0 {
        return Ok(None);
    }
    store.write(&index_path, &content);
    Ok(Some(index_path))
}


/// The `(path, content)` indexes a sweep over `ts` writes into `store`:
/// each type's regenerated index whose directory exists, in order.
pub open spec fn swept(store: MapStore, docs_dir: Seq<char>, ts: Seq<Seq<char>>) -> Seq<
    (Seq<char>, Seq<char>),
>
    decreases ts.len(),
{
    if ts.len() == 0 {
        Seq::<(Seq<char>, Seq<char>)>::empty()
    } else {
        swept(store, docs_dir, ts.drop_last()) + match computed(store, docs_dir, ts.last()) {
            Ok(x) => if dir_exists(store, parent(x.0)->Some_0) {
                seq![x]
            } else {
                Seq::<(Seq<char>, Seq<char>)>::empty()
            },
            Err(_) => Seq::<(Seq<char>, Seq<char>)>::empty(),
        }
    }
}

/// Regenerates `doc_type`'s index (every directory type's when `None`),
/// returning the index paths written; a type with no directory yet is
/// skipped.
pub fn write(store: &mut MapStore, docs_dir: &String, doc_type: Option<String>) -> (r: Result<
    Vec<String>,
    String,
>)
    ensures
        doc_type matches Some(t) ==> (r matches Err(m) ==> computed(
            *old(store),
            docs_dir@,
            t@,
        ) == Err::<(Seq<char>, Seq<char>), Seq<char>>(m@) && *final(store) == *old(store)),
        doc_type matches Some(t) ==> (r matches Ok(v) ==> (computed(
            *old(store),
            docs_dir@,
            t@,
        ) matches Ok(x) && (if dir_exists(*old(store), parent(x.0)->Some_0) {
            path_views(v@) == seq![x.0] && written(*old(store), *final(store), x.0, x.1)
        } else {
            v@.len() == 0 && *final(store) == *old(store)
        }))),
        doc_type is None ==> r is Ok,
        doc_type is None ==> (r matches Ok(v) ==> path_views(v@) == swept(
            *old(store),
            docs_dir@,
            directory_tokens(registry()),
        ).map_values(|e: (Seq<char>, Seq<char>)| e.0) && forall|q: Seq<char>| #[trigger]
            final(store).get(q) == match lookup(
                swept(*old(store), docs_dir@, directory_tokens(registry())),
                q,
            ) {
                Some(c) => Some(c),
                None => old(store).get(q),
            }),
{
    match &doc_type {
        Some(t) => {
            let r = regenerate(store, docs_dir, t.as_str());
            match r {
                Err(m) => Err(m),
                Ok(None) => Ok(Vec::new()),
                Ok(Some(p)) => {
                    let v = vec![p];
                    assert(path_views(v@) =~= seq![v@[0]@]);
                    Ok(v)
                },
            }
        },
        None => {
            let types = all_type_tokens();
            let ghost ts = path_views(types@);
            let ghost s0 = *old(store);
            proof {
                lemma_sweep_dirs();
                assert(ts.take(0) =~= Seq::<Seq<char>>::empty());
            }
            let mut out: Vec<String> = Vec::new();
            let mut i: usize = 0;
            while i < types.len()
                invariant
                    i <= types.len(),
                    doc_type is None,
                    ts == path_views(types@),
                    ts == directory_tokens(registry()),
                    s0 == *old(store),
                    forall|k: int| 0 <= k < ts.len() ==> index_dir(#[trigger] ts[k]) is Ok
                        && regeneration::plain_dir(dir_of(ts[k])),
                    forall|j: int, k: int|
                        0 <= j < k < ts.len() ==> dir_of(#[trigger] ts[j]) != dir_of(
                            #[trigger] ts[k],
                        ),
                    path_views(out@) == swept(s0, docs_dir@, ts.take(i as int)).map_values(
                        |e: (Seq<char>, Seq<char>)| e.0,
                    ),
                    forall|q: Seq<char>| #[trigger]
                        store.get(q) == match lookup(swept(s0, docs_dir@, ts.take(i as int)), q) {
                            Some(c) => Some(c),
                            None => s0.get(q),
                        },
                    forall|k: int|
                        i <= k < ts.len() ==> computed(*store, docs_dir@, #[trigger] ts[k])
                            == computed(s0, docs_dir@, ts[k]) && dir_exists(
                            *store,
                            join_path(docs_dir@, dir_of(ts[k])),
                        ) == dir_exists(s0, join_path(docs_dir@, dir_of(ts[k]))),
                decreases types.len() - i,
            {
                let ghost before = *store;
                let ghost t = ts[i as int];
                let ghost sw = swept(s0, docs_dir@, ts.take(i as int));
                proof {
                    assert(types@[i as int]@ == t);
                    lemma_type_dir_shape(docs_dir@, dir_of(t));
                    assert(ts.take(i + 1).drop_last() == ts.take(i as int));
                    assert(ts.take(i + 1).last() == t);
                }
                let r = regenerate(store, docs_dir, types[i].as_str());
                let ghost x = computed(s0, docs_dir@, t)->Ok_0;
                match r {
                    Err(m) => {
                        assert(false);
                        return Err(m);
                    },
                    Ok(None) => {
                        assert(swept(s0, docs_dir@, ts.take(i + 1)) =~= sw);
                    },
                    Ok(Some(p)) => {
                        proof {
                            assert(swept(s0, docs_dir@, ts.take(i + 1)) == sw.push(x));
                            assert forall|k: int| i + 1 <= k < ts.len() implies computed(
                                *store,
                                docs_dir@,
                                #[trigger] ts[k],
                            ) == computed(s0, docs_dir@, ts[k]) && dir_exists(
                                *store,
                                join_path(docs_dir@, dir_of(ts[k])),
                            ) == dir_exists(s0, join_path(docs_dir@, dir_of(ts[k]))) by {
                                lemma_other_index_unchanged(
                                    before,
                                    *store,
                                    docs_dir@,
                                    t,
                                    ts[k],
                                    x.1,
                                );
                            }
                            assert forall|q: Seq<char>| #[trigger]
                                store.get(q) == match lookup(sw.push(x), q) {
                                    Some(c) => Some(c),
                                    None => s0.get(q),
                                } by {
                                assert(sw.push(x).drop_last() == sw);
                            }
                        }
                        let ghost before_out = path_views(out@);
                        out.push(p);
                        proof {
                            assert(path_views(out@) =~= before_out.push(x.0));
                            assert(sw.push(x).map_values(|e: (Seq<char>, Seq<char>)| e.0)
                                =~= sw.map_values(|e: (Seq<char>, Seq<char>)| e.0).push(x.0));
                        }
                    },
                }
                i += 1;
            }
            proof {
                assert(ts.take(types.len() as int) == ts);
            }
            Ok(out)
        },
    }
}

} // verus!
