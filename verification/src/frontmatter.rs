//! The leading `---`-fenced frontmatter block of a record: where it sits,
//! how each `key: value` line reads, and how a value is quoted so that it
//! reads back unchanged.

use crate::text::{
    find, find_exec, find_from, has_prefix, is_ws, is_ws_exec, lemma_find_in_range, lines,
    lines_exec, slice, starts_with, trim_end, trim_end_exec, trim_start, trim_start_exec,
};
use vstd::prelude::*;

verus! {

/// The opening fence, `---` and its newline.
pub open spec fn open_fence() -> Seq<char> {
    seq!['-', '-', '-', '\n']
}

/// The closing fence as searched for: a newline and `---`.
pub open spec fn close_fence() -> Seq<char> {
    seq!['\n', '-', '-', '-']
}

/// Where the closing fence starts, counted from just after the opening
/// fence; `None` when the text opens with no fence or never closes it.
pub open spec fn fence_close(c: Seq<char>) -> Option<int> {
    if has_prefix(c, open_fence()) {
        find(c.skip(4), close_fence())
    } else {
        None
    }
}

/// The text between the fences.
pub open spec fn block_of(c: Seq<char>) -> Option<Seq<char>> {
    match fence_close(c) {
        Some(k) => Some(c.subrange(4, 4 + k)),
        None => None,
    }
}

/// The index just past the closing `---`.
pub open spec fn fence_end(c: Seq<char>, k: int) -> int {
    4 + k + 4
}

/// The body: everything after the closing fence line (the fence's own
/// newline dropped), or the whole text when there is no frontmatter.
pub open spec fn body_of(c: Seq<char>) -> Seq<char> {
    match fence_close(c) {
        None => c,
        Some(k) => {
            let a = c.skip(fence_end(c, k));
            if a.len() > 0 && a[0] == '\n' {
                a.skip(1)
            } else {
                a
            }
        },
    }
}

/// The index of a `"` that closes a double-quoted value, scanning from `i`
/// and stepping over backslash escapes.
pub open spec fn close_quote(t: Seq<char>, i: int) -> Option<int>
    decreases t.len() - i,
{
    if i < 0 || i >= t.len() {
        None
    } else if t[i] == '\\' {
        if i + 1 >= t.len() {
            None
        } else {
            close_quote(t, i + 2)
        }
    } else if t[i] == '"' {
        Some(i)
    } else {
        close_quote(t, i + 1)
    }
}

/// Where a YAML comment starts: a `#` at the start or after whitespace.
pub open spec fn comment_start(t: Seq<char>, i: int) -> Option<int>
    decreases t.len() - i,
{
    if i < 0 || i >= t.len() {
        None
    } else if t[i] == '#' && (i == 0 || is_ws(t[i - 1])) {
        Some(i)
    } else {
        comment_start(t, i + 1)
    }
}

/// The value text of a `key:` line as written, with surrounding whitespace
/// and any trailing comment removed; a double-quoted value keeps its quotes.
pub open spec fn raw_value(v: Seq<char>) -> Seq<char> {
    let t = trim_start(v);
    if t.len() > 0 && t[0] == '"' {
        match close_quote(t, 1) {
            Some(q) => t.take(q + 1),
            None => trim_end(t),
        }
    } else {
        match comment_start(t, 0) {
            Some(i) => trim_end(t.take(i)),
            None => trim_end(t),
        }
    }
}

/// The first index at or after `i` holding a `:`.
pub open spec fn colon_from(l: Seq<char>, i: int) -> Option<int>
    decreases l.len() - i,
{
    if i < 0 || i >= l.len() {
        None
    } else if l[i] == ':' {
        Some(i)
    } else {
        colon_from(l, i + 1)
    }
}

/// A top-level `key: value` line as `(key, raw value)`; `None` for a blank,
/// indented, comment or list line, or one without a key.
pub open spec fn parse_entry(l: Seq<char>) -> Option<(Seq<char>, Seq<char>)> {
    if l.len() == 0 || is_ws(l[0]) || l[0] == '#' || l[0] == '-' {
        None
    } else {
        match colon_from(l, 0) {
            None => None,
            Some(c) => if c == 0 {
                None
            } else {
                Some((l.take(c), raw_value(l.skip(c + 1))))
            },
        }
    }
}

/// The entries of a run of lines, in order.
pub open spec fn entries_of(ls: Seq<Seq<char>>) -> Seq<(Seq<char>, Seq<char>)>
    decreases ls.len(),
{
    if ls.len() == 0 {
        Seq::<(Seq<char>, Seq<char>)>::empty()
    } else {
        entries_of(ls.drop_last()) + match parse_entry(ls.last()) {
            Some(e) => seq![e],
            None => Seq::<(Seq<char>, Seq<char>)>::empty(),
        }
    }
}

/// The entries of a frontmatter block.
pub open spec fn block_entries(b: Seq<char>) -> Seq<(Seq<char>, Seq<char>)> {
    entries_of(lines(b))
}

/// The entries of a record's frontmatter; none without a block.
pub open spec fn entries_in(c: Seq<char>) -> Seq<(Seq<char>, Seq<char>)> {
    match block_of(c) {
        Some(b) => block_entries(b),
        None => Seq::<(Seq<char>, Seq<char>)>::empty(),
    }
}

/// A double-quoted value's inner text with each backslash escape replaced
/// by the character it escapes.
pub open spec fn unescape(s: Seq<char>) -> Seq<char>
    decreases s.len(),
{
    if s.len() == 0 {
        s
    } else if s[0] == '\\' && s.len() >= 2 {
        seq![s[1]] + unescape(s.skip(2))
    } else {
        seq![s[0]] + unescape(s.skip(1))
    }
}

/// The value a raw value text denotes: quotes removed, escapes resolved.
pub open spec fn scalar_of_raw(r: Seq<char>) -> Seq<char> {
    if r.len() >= 2 && r[0] == '"' && r.last() == '"' {
        unescape(r.subrange(1, r.len() - 1))
    } else if r.len() >= 2 && r[0] == '\'' && r.last() == '\'' {
        r.subrange(1, r.len() - 1)
    } else {
        r
    }
}

/// The raw value of the first entry from index `i` on with key `key`.
pub open spec fn raw_from(es: Seq<(Seq<char>, Seq<char>)>, key: Seq<char>, i: int) -> Option<
    Seq<char>,
>
    decreases es.len() - i,
{
    if i < 0 || i >= es.len() {
        None
    } else if es[i].0 == key {
        Some(es[i].1)
    } else {
        raw_from(es, key, i + 1)
    }
}

/// The non-empty value of `key` among `es`.
pub open spec fn scalar_in(es: Seq<(Seq<char>, Seq<char>)>, key: Seq<char>) -> Option<Seq<char>> {
    match raw_from(es, key, 0) {
        Some(r) => {
            let v = scalar_of_raw(r);
            if v.len() == 0 {
                None
            } else {
                Some(v)
            }
        },
        None => None,
    }
}

/// The non-empty value of the top-level `key` in a record's frontmatter.
pub open spec fn scalar(c: Seq<char>, key: Seq<char>) -> Option<Seq<char>> {
    scalar_in(entries_in(c), key)
}

/// A character a plain value may not open with.
pub open spec fn is_indicator(c: char) -> bool {
    c == '"' || c == '\'' || c == '#' || c == '[' || c == ']' || c == '{' || c == '}' || c
        == '&' || c == '*' || c == '!' || c == '|' || c == '>' || c == '%' || c == '@' || c
        == '`' || c == '-' || c == '?' || c == ':' || c == ','
}

/// Whether a value must be double-quoted to read back unchanged.
pub open spec fn needs_quotes(v: Seq<char>) -> bool {
    v.len() == 0 || is_indicator(v[0]) || is_ws(v[0]) || is_ws(v.last()) || v.last() == ':'
        || exists|i: int|
        0 <= i < v.len() - 1 && ((#[trigger] v[i] == ':' && is_ws(v[i + 1])) || (is_ws(v[i])
            && v[i + 1] == '#'))
}

/// A value with every `\` and `"` escaped by a backslash.
pub open spec fn escape(v: Seq<char>) -> Seq<char>
    decreases v.len(),
{
    if v.len() == 0 {
        v
    } else if v[0] == '\\' || v[0] == '"' {
        seq!['\\', v[0]] + escape(v.skip(1))
    } else {
        seq![v[0]] + escape(v.skip(1))
    }
}

/// How a value is written after `key: ` so that it reads back unchanged.
pub open spec fn formatted(v: Seq<char>) -> Seq<char> {
    if needs_quotes(v) {
        seq!['"'] + escape(v) + seq!['"']
    } else {
        v
    }
}

// ---------------------------------------------------------------------

pub proof fn lemma_fence_close_bounds(c: Seq<char>)
    ensures
        fence_close(c) matches Some(k) ==> 0 <= k && 4 + k + 4 <= c.len() && c.subrange(
            4 + k,
            4 + k + 4,
        ) == close_fence(),
{
    if has_prefix(c, open_fence()) {
        lemma_find_in_range(c.skip(4), close_fence(), 0);
        if let Some(k) = fence_close(c) {
            assert(c.skip(4).subrange(k, k + 4) == c.subrange(4 + k, 4 + k + 4));
        }
    }
}

/// The opening fence, as characters.
fn open_fence_exec() -> (r: Vec<char>)
    ensures
        r@ == open_fence(),
{
    let r = vec!['-', '-', '-', '\n'];
    assert(r@ == open_fence());
    r
}

/// Where the closing fence starts (after the opening fence).
pub fn fence_close_exec(c: &Vec<char>) -> (r: Option<usize>)
    ensures
        r matches Some(k) ==> fence_close(c@) == Some(k as int) && 4 + k + 4 <= c.len(),
        r is None ==> fence_close(c@) is None,
{
    proof {
        lemma_fence_close_bounds(c@);
    }
    let open = open_fence_exec();
    if !starts_with(c, &open) {
        return None;
    }
    let rest = slice(c, 4, c.len());
    assert(rest@ == c@.skip(4));
    let close = vec!['\n', '-', '-', '-'];
    assert(close@ == close_fence());
    find_exec(&rest, &close)
}

/// The frontmatter block of `c`, between the fences.
pub fn block_exec(c: &Vec<char>) -> (r: Option<Vec<char>>)
    ensures
        r matches Some(b) ==> block_of(c@) == Some(b@),
        r is None ==> block_of(c@) is None,
{
    match fence_close_exec(c) {
        Some(k) => Some(slice(c, 4, 4 + k)),
        None => None,
    }
}

/// The text between a record's `---` fences, `None` without a fenced
/// block.
pub fn frontmatter_block(contents: &str) -> (r: Option<String>)
    ensures
        r matches Some(b) ==> block_of(contents@) == Some(b@),
        r is None ==> block_of(contents@) is None,
{
    let c = crate::text::chars_of(contents);
    match block_exec(&c) {
        Some(b) => Some(crate::text::string_of(&b)),
        None => None,
    }
}

/// The body of `c`.
pub fn body_exec(c: &Vec<char>) -> (r: Vec<char>)
    ensures
        r@ == body_of(c@),
{
    match fence_close_exec(c) {
        None => c.clone(),
        Some(k) => {
            let a = slice(c, 4 + k + 4, c.len());
            assert(a@ == c@.skip(fence_end(c@, k as int)));
            if a.len() > 0 && a[0] == '\n' {
                slice(&a, 1, a.len())
            } else {
                a
            }
        },
    }
}

/// Where a double-quoted value closes.
pub fn close_quote_exec(t: &Vec<char>, i: usize) -> (r: Option<usize>)
    ensures
        r matches Some(q) ==> close_quote(t@, i as int) == Some(q as int) && q < t.len(),
        r is None ==> close_quote(t@, i as int) is None,
{
    let mut j = i;
    while j < t.len()
        invariant
            i <= j,
            close_quote(t@, i as int) == close_quote(t@, j as int),
        decreases t.len() - j,
    {
        if t[j] == '\\' {
            if j + 1 >= t.len() {
                return None;
            }
            j += 2;
        } else if t[j] == '"' {
            return Some(j);
        } else {
            j += 1;
        }
    }
    None
}

/// Where a trailing comment starts.
pub fn comment_start_exec(t: &Vec<char>) -> (r: Option<usize>)
    ensures
        r matches Some(i) ==> comment_start(t@, 0) == Some(i as int) && i < t.len(),
        r is None ==> comment_start(t@, 0) is None,
{
    let mut j: usize = 0;
    while j < t.len()
        invariant
            comment_start(t@, 0) == comment_start(t@, j as int),
        decreases t.len() - j,
    {
        if t[j] == '#' && (j == 0 || is_ws_exec(t[j - 1])) {
            return Some(j);
        }
        j += 1;
    }
    None
}

/// The raw value of a `key:` line's remainder.
pub fn raw_value_exec(v: &Vec<char>) -> (r: Vec<char>)
    ensures
        r@ == raw_value(v@),
{
    let t = trim_start_exec(v);
    if t.len() > 0 && t[0] == '"' {
        match close_quote_exec(&t, 1) {
            Some(q) => slice(&t, 0, q + 1),
            None => trim_end_exec(&t),
        }
    } else {
        match comment_start_exec(&t) {
            Some(i) => {
                let head = slice(&t, 0, i);
                trim_end_exec(&head)
            },
            None => trim_end_exec(&t),
        }
    }
}

/// The first `:` of a line.
pub fn colon_exec(l: &Vec<char>) -> (r: Option<usize>)
    ensures
        r matches Some(c) ==> colon_from(l@, 0) == Some(c as int) && c < l.len(),
        r is None ==> colon_from(l@, 0) is None,
{
    let mut j: usize = 0;
    while j < l.len()
        invariant
            colon_from(l@, 0) == colon_from(l@, j as int),
        decreases l.len() - j,
    {
        if l[j] == ':' {
            return Some(j);
        }
        j += 1;
    }
    None
}

/// A frontmatter line as `(key, raw value)`.
pub fn parse_entry_exec(l: &Vec<char>) -> (r: Option<(Vec<char>, Vec<char>)>)
    ensures
        r matches Some(e) ==> parse_entry(l@) == Some((e.0@, e.1@)),
        r is None ==> parse_entry(l@) is None,
{
    if l.len() == 0 || is_ws_exec(l[0]) || l[0] == '#' || l[0] == '-' {
        return None;
    }
    match colon_exec(l) {
        None => None,
        Some(c) => {
            if c == 0 {
                None
            } else {
                let key = slice(l, 0, c);
                let rest = slice(l, c + 1, l.len());
                let raw = raw_value_exec(&rest);
                Some((key, raw))
            }
        },
    }
}

/// The views of a list of entries.
pub open spec fn entry_views(es: Seq<(Vec<char>, Vec<char>)>) -> Seq<(Seq<char>, Seq<char>)> {
    es.map_values(|e: (Vec<char>, Vec<char>)| (e.0@, e.1@))
}

/// The entries of a frontmatter block, in order.
pub fn block_entries_exec(b: &Vec<char>) -> (r: Vec<(Vec<char>, Vec<char>)>)
    ensures
        entry_views(r@) == block_entries(b@),
{
    let ls = lines_exec(b);
    let ghost lv = ls@.map_values(|v: Vec<char>| v@);
    let mut out: Vec<(Vec<char>, Vec<char>)> = Vec::new();
    let mut i: usize = 0;
    while i < ls.len()
        invariant
            i <= ls.len(),
            lv == ls@.map_values(|v: Vec<char>| v@),
            lv == lines(b@),
            entry_views(out@) == entries_of(lv.take(i as int)),
        decreases ls.len() - i,
    {
        let ghost before = out@;
        assert(lv.take(i + 1).drop_last() == lv.take(i as int));
        assert(lv.take(i + 1).last() == ls@[i as int]@);
        match parse_entry_exec(&ls[i]) {
            Some(e) => {
                out.push(e);
                assert(entry_views(out@) == entry_views(before) + seq![(e.0@, e.1@)]);
            },
            None => {
                assert(entry_views(out@) == entry_views(before) + Seq::<
                    (Seq<char>, Seq<char>),
                >::empty());
            },
        }
        i += 1;
    }
    assert(lv.take(ls.len() as int) == lv);
    out
}

/// The entries of a record's frontmatter.
pub fn entries_exec(c: &Vec<char>) -> (r: Vec<(Vec<char>, Vec<char>)>)
    ensures
        entry_views(r@) == entries_in(c@),
{
    match block_exec(c) {
        Some(b) => block_entries_exec(&b),
        None => {
            let r: Vec<(Vec<char>, Vec<char>)> = Vec::new();
            assert(entry_views(r@) =~= Seq::<(Seq<char>, Seq<char>)>::empty());
            r
        },
    }
}

/// Resolves backslash escapes.
pub fn unescape_exec(s: &Vec<char>) -> (r: Vec<char>)
    ensures
        r@ == unescape(s@),
{
    let mut out: Vec<char> = Vec::new();
    let mut i: usize = 0;
    assert(s@.skip(0) == s@);
    while i < s.len()
        invariant
            i <= s.len(),
            out@ + unescape(s@.skip(i as int)) == unescape(s@),
        decreases s.len() - i,
    {
        let ghost rest = s@.skip(i as int);
        if s[i] == '\\' && i + 1 < s.len() {
            out.push(s[i + 1]);
            assert(rest.skip(2) == s@.skip(i + 2));
            assert(unescape(rest) == seq![s@[i + 1]] + unescape(rest.skip(2)));
            i += 2;
        } else {
            out.push(s[i]);
            assert(rest.skip(1) == s@.skip(i + 1));
            assert(unescape(rest) == seq![s@[i as int]] + unescape(rest.skip(1)));
            i += 1;
        }
    }
    assert(unescape(s@.skip(s.len() as int)) == Seq::<char>::empty());
    out
}

/// The value a raw value text denotes.
pub fn scalar_of_raw_exec(r: &Vec<char>) -> (v: Vec<char>)
    ensures
        v@ == scalar_of_raw(r@),
{
    let n = r.len();
    if n >= 2 && r[0] == '"' && r[n - 1] == '"' {
        let inner = slice(r, 1, n - 1);
        unescape_exec(&inner)
    } else if n >= 2 && r[0] == '\'' && r[n - 1] == '\'' {
        slice(r, 1, n - 1)
    } else {
        r.clone()
    }
}

/// The raw value of the first entry keyed `key`.
pub fn raw_of(es: &Vec<(Vec<char>, Vec<char>)>, key: &Vec<char>) -> (r: Option<Vec<char>>)
    ensures
        r matches Some(v) ==> raw_from(entry_views(es@), key@, 0) == Some(v@),
        r is None ==> raw_from(entry_views(es@), key@, 0) is None,
{
    let ghost ev = entry_views(es@);
    let mut i: usize = 0;
    while i < es.len()
        invariant
            i <= es.len(),
            ev == entry_views(es@),
            raw_from(ev, key@, 0) == raw_from(ev, key@, i as int),
        decreases es.len() - i,
    {
        if crate::text::eq(&es[i].0, key) {
            return Some(es[i].1.clone());
        }
        i += 1;
    }
    None
}

/// The non-empty value keyed `key`.
pub fn scalar_in_exec(es: &Vec<(Vec<char>, Vec<char>)>, key: &Vec<char>) -> (r: Option<
    Vec<char>,
>)
    ensures
        r matches Some(v) ==> scalar_in(entry_views(es@), key@) == Some(v@),
        r is None ==> scalar_in(entry_views(es@), key@) is None,
{
    match raw_of(es, key) {
        Some(raw) => {
            let v = scalar_of_raw_exec(&raw);
            if v.len() == 0 {
                None
            } else {
                Some(v)
            }
        },
        None => None,
    }
}

/// The non-empty value of the top-level `key` in `c`'s frontmatter.
pub fn scalar_exec(c: &Vec<char>, key: &str) -> (r: Option<Vec<char>>)
    ensures
        r matches Some(v) ==> scalar(c@, key@) == Some(v@),
        r is None ==> scalar(c@, key@) is None,
{
    let es = entries_exec(c);
    let k = crate::text::chars_of(key);
    scalar_in_exec(&es, &k)
}

/// Reads a top-level scalar from a record's frontmatter; an absent key,
/// an empty value, and a record without a fenced block all read as `None`.
pub fn frontmatter_scalar(contents: &str, key: &str) -> (r: Option<String>)
    ensures
        r matches Some(v) ==> scalar(contents@, key@) == Some(v@),
        r is None ==> scalar(contents@, key@) is None,
{
    let c = crate::text::chars_of(contents);
    match scalar_exec(&c, key) {
        Some(v) => Some(crate::text::string_of(&v)),
        None => None,
    }
}

pub fn is_indicator_exec(c: char) -> (r: bool)
    ensures
        r == is_indicator(c),
{
    c == '"' || c == '\'' || c == '#' || c == '[' || c == ']' || c == '{' || c == '}' || c
        == '&' || c == '*' || c == '!' || c == '|' || c == '>' || c == '%' || c == '@' || c
        == '`' || c == '-' || c == '?' || c == ':' || c == ','
}

/// Whether a value must be double-quoted.
pub fn needs_quotes_exec(v: &Vec<char>) -> (r: bool)
    ensures
        r == needs_quotes(v@),
{
    let n = v.len();
    if n == 0 || is_indicator_exec(v[0]) || is_ws_exec(v[0]) || is_ws_exec(v[n - 1]) || v[n
        - 1] == ':' {
        return true;
    }
    let mut i: usize = 0;
    while i + 1 < n
        invariant
            n == v.len(),
            n >= 1,
            i + 1 <= n,
            forall|j: int|
                0 <= j < i ==> !((#[trigger] v@[j] == ':' && is_ws(v@[j + 1])) || (is_ws(v@[j])
                    && v@[j + 1] == '#')),
        decreases n - i,
    {
        if (v[i] == ':' && is_ws_exec(v[i + 1])) || (is_ws_exec(v[i]) && v[i + 1] == '#') {
            return true;
        }
        i += 1;
    }
    false
}

/// Escapes every `\` and `"`.
pub fn escape_exec(v: &Vec<char>) -> (r: Vec<char>)
    ensures
        r@ == escape(v@),
{
    let mut out: Vec<char> = Vec::new();
    let mut i: usize = 0;
    assert(v@.skip(0) == v@);
    while i < v.len()
        invariant
            i <= v.len(),
            out@ + escape(v@.skip(i as int)) == escape(v@),
        decreases v.len() - i,
    {
        let ghost rest = v@.skip(i as int);
        assert(rest.skip(1) == v@.skip(i + 1));
        if v[i] == '\\' || v[i] == '"' {
            out.push('\\');
            out.push(v[i]);
            assert(escape(rest) == seq!['\\', v@[i as int]] + escape(rest.skip(1)));
        } else {
            out.push(v[i]);
            assert(escape(rest) == seq![v@[i as int]] + escape(rest.skip(1)));
        }
        i += 1;
    }
    assert(escape(v@.skip(v.len() as int)) == Seq::<char>::empty());
    out
}

/// A value as it is written after `key: `: double-quoted, with `\` and `"`
/// escaped, when a plain value would not read back unchanged.
pub fn format_scalar(value: &str) -> (r: String)
    ensures
        r@ == formatted(value@),
{
    let v = crate::text::chars_of(value);
    if needs_quotes_exec(&v) {
        let mut out = vec!['"'];
        let e = escape_exec(&v);
        crate::text::extend(&mut out, &e);
        out.push('"');
        assert(out@ == seq!['"'] + escape(v@) + seq!['"']);
        crate::text::string_of(&out)
    } else {
        value.to_string()
    }
}

} // verus!
