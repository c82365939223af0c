//! Why `fmt` settles: the canonical frontmatter it writes reads back as
//! the very entries it was written from, so a second pass can only differ
//! in the body, and there only where reconciling the callout again would
//! change it.

use crate::callout::{
    expected_line, gap_normalized, lemma_expected_is_callout, lemma_reconcile_body_idempotent,
    lemma_reconciled_idempotent,
    lemma_split_concat, lemma_split_no_sep, reconciled, reconciled_record, skip_newlines,
    successor_of,
};
use crate::commands::fmt::pending_form;
use crate::record::{canonical, extracted, RecordV};
use crate::frontmatter::{
    block_of, body_of, close_fence, close_quote, colon_from, comment_start, entries_in, entries_of,
    fence_close, open_fence, parse_entry, raw_value,
};
use crate::record::{
    canonical_fields, canonical_gap, field_line, field_lines, keyed, known_keys, unknown_key,
    unknown_keys, with_key,
};
use crate::frontmatter::{raw_from, scalar_in};
use crate::store::{lemma_filter_congruent, lemma_filter_within, written, MapStore};
use crate::text::{
    find, find_from, has_prefix, is_ws, join, lines, nl, occurs_at, split_char, strip_cr,
    trim_end, trim_start,
};
use vstd::prelude::*;

verus! {

/// What trimming leading whitespace keeps: a suffix opening with no
/// whitespace.
proof fn lemma_trim_start_shape(s: Seq<char>)
    ensures
        exists|n: int| 0 <= n <= s.len() && trim_start(s) == s.skip(n),
        trim_start(s).len() > 0 ==> !is_ws(trim_start(s)[0]),
    decreases s.len(),
{
    if s.len() > 0 && is_ws(s[0]) {
        lemma_trim_start_shape(s.drop_first());
        let n = choose|n: int| 0 <= n <= s.drop_first().len() && trim_start(s.drop_first()) == s.drop_first().skip(n);
        assert(s.drop_first().skip(n) == s.skip(n + 1));
    } else {
        assert(s.skip(0) == s);
    }
}

/// What trimming trailing whitespace keeps: a prefix closing with no
/// whitespace, itself left alone by a second trim.
proof fn lemma_trim_end_shape(s: Seq<char>)
    ensures
        trim_end(s).len() <= s.len(),
        trim_end(s) == s.take(trim_end(s).len() as int),
        trim_end(s).len() > 0 ==> !is_ws(trim_end(s).last()),
        trim_end(trim_end(s)) == trim_end(s),
    decreases s.len(),
{
    if s.len() > 0 && is_ws(s.last()) {
        lemma_trim_end_shape(s.drop_last());
        assert(s.drop_last().take(trim_end(s).len() as int) == s.take(trim_end(s).len() as int));
    } else {
        assert(s.take(s.len() as int) == s);
    }
}

/// A leading space is trimmed away like any other.
proof fn lemma_trim_start_space(r: Seq<char>)
    ensures
        trim_start(seq![' '] + r) == trim_start(r),
{
    let s = seq![' '] + r;
    assert(is_ws(' '));
    assert(s.drop_first() == r);
}

/// A closing quote found within a prefix is found there in the prefix too.
proof fn lemma_close_quote_prefix(t: Seq<char>, m: int, i: int)
    requires
        0 <= i,
        0 <= m <= t.len(),
        close_quote(t, i) matches Some(q) ==> q < m,
    ensures
        close_quote(t.take(m), i) == close_quote(t, i),
    decreases t.len() - i,
{
    let s = t.take(m);
    if i < 0 || i >= t.len() {
    } else if i >= m {
        assert(close_quote(s, i) is None);
        if let Some(q) = close_quote(t, i) {
            assert(false) by {
                lemma_close_quote_at_least(t, i);
            }
        }
    } else if t[i] == '\\' {
        if i + 1 >= t.len() {
        } else {
            if i + 1 >= m {
                assert(close_quote(s, i) is None);
                if let Some(q) = close_quote(t, i) {
                    lemma_close_quote_at_least(t, i + 2);
                    assert(false);
                }
            } else {
                lemma_close_quote_prefix(t, m, i + 2);
            }
        }
    } else if t[i] == '"' {
    } else {
        lemma_close_quote_prefix(t, m, i + 1);
    }
}

/// A closing quote lies at or after where the scan starts.
proof fn lemma_close_quote_at_least(t: Seq<char>, i: int)
    ensures
        close_quote(t, i) matches Some(q) ==> i <= q < t.len() && t[q] == '"',
    decreases t.len() - i,
{
    if i < 0 || i >= t.len() {
    } else if t[i] == '\\' {
        if i + 1 < t.len() {
            lemma_close_quote_at_least(t, i + 2);
        }
    } else if t[i] == '"' {
    } else {
        lemma_close_quote_at_least(t, i + 1);
    }
}

/// A comment start lies at or after where the scan starts.
proof fn lemma_comment_start_at_least(t: Seq<char>, i: int)
    ensures
        comment_start(t, i) matches Some(j) ==> i <= j < t.len(),
    decreases t.len() - i,
{
    if 0 <= i < t.len() && !(t[i] == '#' && (i == 0 || is_ws(t[i - 1]))) {
        lemma_comment_start_at_least(t, i + 1);
    }
}

/// A prefix holds no comment start the whole text does not hold earlier.
proof fn lemma_comment_start_prefix(t: Seq<char>, m: int, i: int)
    requires
        0 <= i,
        0 <= m <= t.len(),
        comment_start(t, i) matches Some(j) ==> j >= m,
    ensures
        comment_start(t.take(m), i) is None,
    decreases t.len() - i,
{
    let s = t.take(m);
    if i < m {
        assert(s[i] == t[i]);
        if i > 0 {
            assert(s[i - 1] == t[i - 1]);
        }
        if !(t[i] == '#' && (i == 0 || is_ws(t[i - 1]))) {
            lemma_comment_start_prefix(t, m, i + 1);
        }
    }
}

/// A raw value, written after `key: `, reads back as itself, and opens and
/// closes with no whitespace.
pub(crate) proof fn lemma_raw_value_stable(v: Seq<char>)
    requires
        raw_value(v).len() > 0,
    ensures
        raw_value(seq![' '] + raw_value(v)) == raw_value(v),
        !is_ws(raw_value(v)[0]),
        !is_ws(raw_value(v).last()),
{
    let t = trim_start(v);
    let r = raw_value(v);
    lemma_trim_start_shape(v);
    lemma_trim_start_space(r);
    if t.len() > 0 && t[0] == '"' {
        match close_quote(t, 1) {
            Some(q) => {
                lemma_close_quote_at_least(t, 1);
                assert(r == t.take(q + 1));
                lemma_close_quote_prefix(t, q + 1, 1);
                assert(r[0] == t[0]);
                assert(r.last() == t[q]);
                lemma_trim_start_shape(r);
                assert(trim_start(r) == r);
            },
            None => {
                lemma_trim_end_shape(t);
                assert(r == trim_end(t));
                let m = r.len() as int;
                lemma_close_quote_prefix(t, m, 1);
                assert(r[0] == t[0]);
                assert(trim_start(r) == r);
            },
        }
    } else {
        match comment_start(t, 0) {
            Some(i) => {
                lemma_comment_start_at_least(t, 0);
                let u = t.take(i);
                lemma_trim_end_shape(u);
                let m = r.len() as int;
                assert(r == t.take(m));
                lemma_comment_start_prefix(t, m, 0);
                assert(r[0] == t[0]);
                assert(trim_start(r) == r);
            },
            None => {
                lemma_trim_end_shape(t);
                let m = r.len() as int;
                assert(r == t.take(m));
                lemma_comment_start_prefix(t, m, 0);
                assert(r[0] == t[0]);
                assert(trim_start(r) == r);
            },
        }
    }
}

/// A raw value holds none of the characters its line lacks.
proof fn lemma_raw_value_within(v: Seq<char>, ch: char)
    requires
        !v.contains(ch),
    ensures
        !raw_value(v).contains(ch),
{
    let t = trim_start(v);
    let r = raw_value(v);
    lemma_trim_start_shape(v);
    let n = choose|n: int| 0 <= n <= v.len() && trim_start(v) == v.skip(n);
    lemma_trim_end_shape(t);
    let m: int = if t.len() > 0 && t[0] == '"' {
        match close_quote(t, 1) {
            Some(q) => {
                lemma_close_quote_at_least(t, 1);
                q + 1
            },
            None => trim_end(t).len() as int,
        }
    } else {
        match comment_start(t, 0) {
            Some(i) => {
                lemma_comment_start_at_least(t, 0);
                lemma_trim_end_shape(t.take(i));
                assert(t.take(i).take(trim_end(t.take(i)).len() as int) == t.take(
                    trim_end(t.take(i)).len() as int,
                ));
                trim_end(t.take(i)).len() as int
            },
            None => trim_end(t).len() as int,
        }
    };
    assert(r == t.take(m));
    if r.contains(ch) {
        let j = choose|j: int| 0 <= j < r.len() && r[j] == ch;
        assert(v[n + j] == ch);
    }
}

/// The first `:` at or after `i`, when there is one.
proof fn lemma_colon_from_first(s: Seq<char>, i: int)
    requires
        0 <= i,
    ensures
        colon_from(s, i) matches Some(c) ==> i <= c < s.len() && s[c] == ':' && forall|j: int|
            i <= j < c ==> s[j] != ':',
    decreases s.len() - i,
{
    if i < s.len() && s[i] != ':' {
        lemma_colon_from_first(s, i + 1);
    }
}

/// A text whose first `:` at or after `i` is at `c`.
proof fn lemma_colon_from_at(s: Seq<char>, i: int, c: int)
    requires
        0 <= i <= c < s.len(),
        s[c] == ':',
        forall|j: int| i <= j < c ==> s[j] != ':',
    ensures
        colon_from(s, i) == Some(c),
    decreases c - i,
{
    if i < c {
        lemma_colon_from_at(s, i + 1, c);
    }
}

/// An entry as its canonical line writes it, newline left off: `key:` for
/// an empty value, `key: value` otherwise.
pub open spec fn entry_text(e: (Seq<char>, Seq<char>)) -> Seq<char> {
    if e.1.len() == 0 {
        e.0 + seq![':']
    } else {
        e.0 + seq![':', ' '] + e.1
    }
}

/// An entry whose canonical line reads back as itself: one line, opening
/// with neither `-` nor whitespace, closing with no carriage return.
pub open spec fn round_trips(e: (Seq<char>, Seq<char>)) -> bool {
    &&& entry_text(e).len() > 0
    &&& parse_entry(entry_text(e)) == Some(e)
    &&& !entry_text(e).contains('\n')
    &&& entry_text(e)[0] != '-'
    &&& entry_text(e).last() != '\r'
}

/// Every entry read from one line round-trips.
pub(crate) proof fn lemma_parsed_entry_round_trips(l: Seq<char>)
    requires
        parse_entry(l) is Some,
        !l.contains('\n'),
    ensures
        round_trips(parse_entry(l)->Some_0),
{
    lemma_colon_from_first(l, 0);
    let c = colon_from(l, 0)->Some_0;
    let k = l.take(c);
    let v = l.skip(c + 1);
    let r = raw_value(v);
    let e = (k, r);
    let x = entry_text(e);
    assert(parse_entry(l) == Some(e));
    assert(x[0] == l[0]);
    assert forall|j: int| 0 <= j < c implies x[j] != ':' by {
        assert(x[j] == l[j]);
    }
    assert(x[c] == ':');
    lemma_colon_from_at(x, 0, c);
    assert(x.take(c) == k);
    assert(!v.contains('\n')) by {
        if v.contains('\n') {
            let j = choose|j: int| 0 <= j < v.len() && v[j] == '\n';
            assert(l[c + 1 + j] == '\n');
        }
    }
    lemma_raw_value_within(v, '\n');
    if r.len() == 0 {
        assert(x.skip(c + 1) == Seq::<char>::empty());
        assert(raw_value(Seq::<char>::empty()) == Seq::<char>::empty());
        assert(x.last() == ':');
    } else {
        lemma_raw_value_stable(v);
        assert(x.skip(c + 1) == seq![' '] + r);
        assert(x.last() == r.last());
        assert(is_ws('\r'));
    }
    assert(!x.contains('\n')) by {
        if x.contains('\n') {
            let j = choose|j: int| 0 <= j < x.len() && x[j] == '\n';
            if j < c {
                assert(l[j] == '\n');
            } else if j >= c + 2 {
                assert(r[j - c - 2] == '\n');
            }
        }
    }
    assert(x.len() > 0);
    assert(raw_value(x.skip(c + 1)) == r);
    assert(parse_entry(x) == Some(e));
    assert(x[0] != '-');
    assert(x.last() != '\r');
}

/// The canonical lines of `fs`, newlines left off.
pub open spec fn entry_texts(fs: Seq<(Seq<char>, Seq<char>)>) -> Seq<Seq<char>> {
    fs.map_values(|e: (Seq<char>, Seq<char>)| entry_text(e))
}

/// Every entry of `fs` round-trips.
pub open spec fn all_round_trip(fs: Seq<(Seq<char>, Seq<char>)>) -> bool {
    forall|i: int| 0 <= i < fs.len() ==> round_trips(#[trigger] fs[i])
}

/// Splitting joined newline-free parts at their newlines gives them back.
proof fn lemma_split_join(ts: Seq<Seq<char>>)
    requires
        ts.len() >= 1,
        forall|i: int| 0 <= i < ts.len() ==> !(#[trigger] ts[i]).contains('\n'),
    ensures
        split_char(join(ts, nl()), '\n') == ts,
    decreases ts.len(),
{
    if ts.len() == 1 {
        lemma_split_no_sep(ts[0], '\n');
        assert(seq![ts[0]] == ts);
    } else {
        let d = ts.drop_last();
        lemma_split_join(d);
        lemma_split_no_sep(ts.last(), '\n');
        lemma_split_concat(join(d, nl()), ts.last(), '\n');
        assert(d + seq![ts.last()] == ts);
    }
}

/// The lines of the joined canonical lines of round-tripping entries are
/// those lines.
proof fn lemma_lines_of_texts(fs: Seq<(Seq<char>, Seq<char>)>)
    requires
        fs.len() >= 1,
        all_round_trip(fs),
    ensures
        lines(join(entry_texts(fs), nl())) == entry_texts(fs),
{
    let ts = entry_texts(fs);
    assert forall|i: int| 0 <= i < ts.len() implies !(#[trigger] ts[i]).contains('\n') by {
        assert(round_trips(fs[i]));
    }
    lemma_split_join(ts);
    assert(round_trips(fs[fs.len() - 1]));
    assert(ts.last().len() > 0);
    assert(ts.map_values(|l: Seq<char>| strip_cr(l)) =~= ts) by {
        assert forall|i: int| 0 <= i < ts.len() implies strip_cr(ts[i]) == ts[i] by {
            assert(round_trips(fs[i]));
        }
    }
}

/// Parsing the canonical lines of round-tripping entries gives the entries.
proof fn lemma_entries_of_texts(fs: Seq<(Seq<char>, Seq<char>)>)
    requires
        all_round_trip(fs),
    ensures
        entries_of(entry_texts(fs)) == fs,
    decreases fs.len(),
{
    if fs.len() > 0 {
        let d = fs.drop_last();
        assert(all_round_trip(d)) by {
            assert forall|i: int| 0 <= i < d.len() implies round_trips(#[trigger] d[i]) by {
                assert(d[i] == fs[i]);
            }
        }
        lemma_entries_of_texts(d);
        assert(entry_texts(fs).drop_last() == entry_texts(d));
        assert(round_trips(fs[fs.len() - 1]));
        assert(entry_texts(fs).last() == entry_text(fs.last()));
        assert(d.push(fs.last()) == fs);
    }
}

/// The canonical frontmatter lines are the joined entry lines and a final
/// newline.
proof fn lemma_field_lines_joined(fs: Seq<(Seq<char>, Seq<char>)>)
    requires
        fs.len() >= 1,
    ensures
        field_lines(fs) == join(entry_texts(fs), nl()) + nl(),
    decreases fs.len(),
{
    let e = fs.last();
    assert(field_line(e) == entry_text(e) + nl());
    if fs.len() == 1 {
        assert(fs.drop_last() == Seq::<(Seq<char>, Seq<char>)>::empty());
        assert(field_lines(fs.drop_last()) == Seq::<char>::empty());
        assert(entry_texts(fs) == seq![entry_text(e)]);
    } else {
        let d = fs.drop_last();
        lemma_field_lines_joined(d);
        assert(entry_texts(fs).drop_last() == entry_texts(d));
        assert(entry_texts(fs).last() == entry_text(e));
    }
}

/// In joined canonical lines, every newline is followed by a line that
/// does not open with `-`.
proof fn lemma_joined_newlines(fs: Seq<(Seq<char>, Seq<char>)>, j: int)
    requires
        fs.len() >= 1,
        all_round_trip(fs),
        0 <= j < join(entry_texts(fs), nl()).len(),
        join(entry_texts(fs), nl())[j] == '\n',
    ensures
        j + 1 < join(entry_texts(fs), nl()).len(),
        join(entry_texts(fs), nl())[j + 1] != '-',
    decreases fs.len(),
{
    let ts = entry_texts(fs);
    assert(round_trips(fs[fs.len() - 1]));
    if fs.len() == 1 {
        assert(join(ts, nl()) == ts[0]);
        assert(ts[0] == entry_text(fs[0]));
        assert(entry_text(fs[0]).contains('\n'));
    } else {
        let d = fs.drop_last();
        let a = join(entry_texts(d), nl());
        let b = entry_text(fs.last());
        assert(entry_texts(fs).drop_last() == entry_texts(d));
        assert(join(ts, nl()) == a + nl() + b);
        assert(all_round_trip(d)) by {
            assert forall|i: int| 0 <= i < d.len() implies round_trips(#[trigger] d[i]) by {
                assert(d[i] == fs[i]);
            }
        }
        if j < a.len() {
            lemma_joined_newlines(d, j);
        } else if j == a.len() {
            assert((a + nl() + b)[j + 1] == b[0]);
        } else {
            assert(b[j - a.len() - 1] == '\n');
            assert(b.contains('\n'));
        }
    }
}

/// A text's first occurrence of `p` from `k` is at `target` when it
/// occurs there and nowhere before.
proof fn lemma_find_from_at(s: Seq<char>, p: Seq<char>, k: int, target: int)
    requires
        0 <= k <= target,
        occurs_at(s, p, target),
        forall|j: int| k <= j < target ==> !occurs_at(s, p, j),
    ensures
        find_from(s, p, k) == Some(target),
    decreases target - k,
{
    if k < target {
        lemma_find_from_at(s, p, k + 1, target);
    }
}

/// Searching canonical lines followed by a `---` line for the closing
/// fence finds the newline that ends the last line.
proof fn lemma_close_fence_found(fs: Seq<(Seq<char>, Seq<char>)>, w: Seq<char>)
    requires
        fs.len() >= 1,
        all_round_trip(fs),
        w.len() >= 3,
        w[0] == '-' && w[1] == '-' && w[2] == '-',
    ensures
        find(join(entry_texts(fs), nl()) + nl() + w, close_fence()) == Some(
            join(entry_texts(fs), nl()).len() as int,
        ),
{
    let a = join(entry_texts(fs), nl());
    let s = a + nl() + w;
    let n = a.len() as int;
    assert(s.subrange(n, n + 4) =~= close_fence());
    assert forall|j: int| 0 <= j < n implies !occurs_at(s, close_fence(), j) by {
        if occurs_at(s, close_fence(), j) {
            assert(s.subrange(j, j + 4)[0] == s[j]);
            assert(s[j] == a[j]);
            lemma_joined_newlines(fs, j);
            assert(s.subrange(j, j + 4)[1] == s[j + 1]);
            assert(s[j + 1] == a[j + 1]);
        }
    }
    lemma_find_from_at(s, close_fence(), 0, n);
}

/// The text a record's canonical form opens with: the fence, the entry
/// lines, the closing fence and the blank line.
pub open spec fn canonical_head(fs: Seq<(Seq<char>, Seq<char>)>) -> Seq<char> {
    open_fence() + field_lines(fs) + canonical_gap()
}

/// Leading newlines go however many there are.
proof fn lemma_skip_two_newlines(x: Seq<char>)
    ensures
        skip_newlines(seq!['\n', '\n'] + x) == skip_newlines(x),
{
    let a = seq!['\n', '\n'] + x;
    let b = seq!['\n'] + x;
    assert(a.len() > 0 && a[0] == '\n');
    assert(a.drop_first() == b);
    assert(skip_newlines(a) == skip_newlines(b));
    assert(b.len() > 0 && b[0] == '\n');
    assert(b.drop_first() == x);
    assert(skip_newlines(b) == skip_newlines(x));
}

/// A text opening with the fence and canonical entry lines followed by a
/// `---` line closes its frontmatter at the end of those lines.
proof fn lemma_fence_after_lines(fs: Seq<(Seq<char>, Seq<char>)>, w: Seq<char>)
    requires
        fs.len() >= 1,
        all_round_trip(fs),
        w.len() >= 3,
        w[0] == '-' && w[1] == '-' && w[2] == '-',
    ensures
        fence_close(open_fence() + (join(entry_texts(fs), nl()) + nl() + w)) == Some(
            join(entry_texts(fs), nl()).len() as int,
        ),
{
    let t = open_fence() + (join(entry_texts(fs), nl()) + nl() + w);
    assert(t.subrange(0, 4) =~= open_fence());
    assert(t.skip(4) =~= join(entry_texts(fs), nl()) + nl() + w);
    lemma_close_fence_found(fs, w);
}

/// A canonical text, with its gap normalized, reads back as the entries it
/// was written from and the body with its leading newlines dropped.
pub(crate) proof fn lemma_canonical_reads_back(fs: Seq<(Seq<char>, Seq<char>)>, body: Seq<char>)
    requires
        fs.len() >= 1,
        all_round_trip(fs),
    ensures
        entries_in(gap_normalized(canonical_head(fs) + body)) == fs,
        body_of(gap_normalized(canonical_head(fs) + body)) == skip_newlines(body),
{
    let a = join(entry_texts(fs), nl());
    let n = a.len() as int;
    lemma_field_lines_joined(fs);
    let t = canonical_head(fs) + body;
    let w0 = canonical_gap() + body;
    assert(t =~= open_fence() + (a + nl() + w0));
    lemma_fence_after_lines(fs, w0);
    assert(t.skip(4 + n + 4) =~= seq!['\n', '\n'] + body);
    lemma_skip_two_newlines(body);
    let rest = skip_newlines(body);
    let g = gap_normalized(t);
    let w = seq!['-', '-', '-', '\n'] + rest;
    assert(g =~= open_fence() + (a + nl() + w));
    lemma_fence_after_lines(fs, w);
    assert(block_of(g) == Some(a)) by {
        assert(g.subrange(4, 4 + n) =~= a);
    }
    lemma_lines_of_texts(fs);
    lemma_entries_of_texts(fs);
    assert(g.skip(8 + n) =~= seq!['\n'] + rest);
    assert((seq!['\n'] + rest).skip(1) =~= rest);
}

/// A canonical text's first line is the opening fence.
pub(crate) proof fn lemma_canonical_opens_with_fence(fs: Seq<(Seq<char>, Seq<char>)>, body: Seq<char>)
    ensures
        lines(canonical_head(fs) + body).len() > 0,
        lines(canonical_head(fs) + body)[0] == seq!['-', '-', '-'],
{
    let t = canonical_head(fs) + body;
    let head = seq!['-', '-', '-'];
    lemma_split_no_sep(head, '\n');
    let tail = t.skip(4);
    assert(t =~= head + seq!['\n'] + tail);
    lemma_split_concat(head, tail, '\n');
    crate::text::lemma_split_nonempty(tail, '\n');
}

/// Entries, as pairs of key and raw value.
type Entries = Seq<(Seq<char>, Seq<char>)>;

/// Filtering twice keeps what both tests keep.
proof fn lemma_filter_twice(
    s: Entries,
    p: spec_fn((Seq<char>, Seq<char>)) -> bool,
    q: spec_fn((Seq<char>, Seq<char>)) -> bool,
)
    ensures
        s.filter(p).filter(q) == s.filter(|e: (Seq<char>, Seq<char>)| p(e) && q(e)),
    decreases s.len(),
{
    let pq = |e: (Seq<char>, Seq<char>)| p(e) && q(e);
    if s.len() > 0 {
        let t = s.drop_last();
        let x = s.last();
        lemma_filter_twice(t, p, q);
        assert(t.push(x) == s);
        t.lemma_filter_push(x, p);
        t.lemma_filter_push(x, pq);
        if p(x) {
            t.filter(p).lemma_filter_push(x, q);
        }
    }
}

/// Nothing passes a test that nothing passes.
proof fn lemma_filter_none(s: Entries, p: spec_fn((Seq<char>, Seq<char>)) -> bool)
    requires
        forall|i: int| 0 <= i < s.len() ==> !p(#[trigger] s[i]),
    ensures
        s.filter(p) == Seq::<(Seq<char>, Seq<char>)>::empty(),
    decreases s.len(),
{
    if s.len() > 0 {
        let t = s.drop_last();
        assert forall|i: int| 0 <= i < t.len() implies !p(#[trigger] t[i]) by {
            assert(t[i] == s[i]);
        }
        lemma_filter_none(t, p);
        assert(t.push(s.last()) == s);
        t.lemma_filter_push(s.last(), p);
        assert(!p(s[s.len() - 1]));
    }
}

/// The seven frontmatter keys the canonical form writes first are
/// distinct.
proof fn lemma_known_keys_distinct()
    ensures
        forall|i: int, j: int|
            0 <= i < j < known_keys().len() ==> #[trigger] known_keys()[i] != #[trigger] known_keys()[j],
{
    reveal_strlit("type");
    reveal_strlit("title");
    reveal_strlit("description");
    reveal_strlit("owner");
    reveal_strlit("status");
    reveal_strlit("supersedes");
    reveal_strlit("superseded_by");
    let ks = known_keys();
    assert(ks[1] == "title"@ && ks[3] == "owner"@);
    assert("title"@[0] == 't' && "owner"@[0] == 'o');
    assert(ks[0].len() == 4 && ks[1].len() == 5 && ks[2].len() == 11 && ks[3].len() == 5
        && ks[4].len() == 6 && ks[5].len() == 10 && ks[6].len() == 13);
    assert forall|i: int, j: int| 0 <= i < j < ks.len() implies #[trigger] ks[i] != #[trigger] ks[j] by {
        assert(ks.len() == 7);
        assert(i == 0 || i == 1 || i == 2 || i == 3 || i == 4 || i == 5);
        assert(j == 1 || j == 2 || j == 3 || j == 4 || j == 5 || j == 6);
        if i == 1 && j == 3 {
            assert(ks[i][0] != ks[j][0]);
        }
    }
}

/// The entries keyed `k` among those keyed `kk`: all of them when the keys
/// agree, none otherwise.
proof fn lemma_with_key_of_with_key(es: Entries, kk: Seq<char>, k: Seq<char>)
    ensures
        with_key(with_key(es, kk), k) == if kk == k {
            with_key(es, k)
        } else {
            Seq::<(Seq<char>, Seq<char>)>::empty()
        },
{
    let p = keyed(kk);
    let q = keyed(k);
    lemma_filter_twice(es, p, q);
    let pq = |e: (Seq<char>, Seq<char>)| p(e) && q(e);
    if kk == k {
        lemma_filter_congruent(es, pq, q);
    } else {
        lemma_filter_none(es, pq);
    }
}

/// The entries keyed `k` among those with an unknown key.
proof fn lemma_with_key_of_unknown(es: Entries, k: Seq<char>)
    ensures
        with_key(unknown_keys(es), k) == if known_keys().contains(k) {
            Seq::<(Seq<char>, Seq<char>)>::empty()
        } else {
            with_key(es, k)
        },
{
    let p = unknown_key();
    let q = keyed(k);
    lemma_filter_twice(es, p, q);
    let pq = |e: (Seq<char>, Seq<char>)| p(e) && q(e);
    if known_keys().contains(k) {
        lemma_filter_none(es, pq);
    } else {
        lemma_filter_congruent(es, pq, q);
    }
}

/// The unknown-keyed entries among those keyed `kk`.
proof fn lemma_unknown_of_with_key(es: Entries, kk: Seq<char>)
    ensures
        unknown_keys(with_key(es, kk)) == if known_keys().contains(kk) {
            Seq::<(Seq<char>, Seq<char>)>::empty()
        } else {
            with_key(es, kk)
        },
{
    let p = keyed(kk);
    let q = unknown_key();
    lemma_filter_twice(es, p, q);
    let pq = |e: (Seq<char>, Seq<char>)| p(e) && q(e);
    if known_keys().contains(kk) {
        lemma_filter_none(es, pq);
    } else {
        lemma_filter_congruent(es, pq, p);
    }
}

/// Filtering the unknown-keyed entries again keeps them all.
proof fn lemma_unknown_of_unknown(es: Entries)
    ensures
        unknown_keys(unknown_keys(es)) == unknown_keys(es),
{
    let p = unknown_key();
    lemma_filter_twice(es, p, p);
    let pp = |e: (Seq<char>, Seq<char>)| p(e) && p(e);
    lemma_filter_congruent(es, pp, p);
}

/// Taking the entries keyed `k` of the canonical order gives the entries
/// keyed `k`, in their order.
pub(crate) proof fn lemma_with_key_canonical(fs: Entries, k: Seq<char>)
    ensures
        with_key(canonical_fields(fs), k) == with_key(fs, k),
{
    reveal(canonical_fields);
    let ks = known_keys();
    lemma_known_keys_distinct();
    let w0 = with_key(fs, ks[0]);
    let w1 = with_key(fs, ks[1]);
    let w2 = with_key(fs, ks[2]);
    let w3 = with_key(fs, ks[3]);
    let w4 = with_key(fs, ks[4]);
    let w5 = with_key(fs, ks[5]);
    let w6 = with_key(fs, ks[6]);
    let u = unknown_keys(fs);
    let p = keyed(k);
    Seq::filter_distributes_over_add(w0, w1, p);
    Seq::filter_distributes_over_add(w0 + w1, w2, p);
    Seq::filter_distributes_over_add(w0 + w1 + w2, w3, p);
    Seq::filter_distributes_over_add(w0 + w1 + w2 + w3, w4, p);
    Seq::filter_distributes_over_add(w0 + w1 + w2 + w3 + w4, w5, p);
    Seq::filter_distributes_over_add(w0 + w1 + w2 + w3 + w4 + w5, w6, p);
    Seq::filter_distributes_over_add(w0 + w1 + w2 + w3 + w4 + w5 + w6, u, p);
    lemma_with_key_of_with_key(fs, ks[0], k);
    lemma_with_key_of_with_key(fs, ks[1], k);
    lemma_with_key_of_with_key(fs, ks[2], k);
    lemma_with_key_of_with_key(fs, ks[3], k);
    lemma_with_key_of_with_key(fs, ks[4], k);
    lemma_with_key_of_with_key(fs, ks[5], k);
    lemma_with_key_of_with_key(fs, ks[6], k);
    lemma_with_key_of_unknown(fs, k);
    let e = Seq::<(Seq<char>, Seq<char>)>::empty();
    let x = with_key(fs, k);
    if ks.contains(k) {
        let m = choose|m: int| 0 <= m < ks.len() && ks[m] == k;
        assert(ks.len() == 7);
        assert(m == 0 || m == 1 || m == 2 || m == 3 || m == 4 || m == 5 || m == 6);
        if m == 0 {
            assert(x + e + e + e + e + e + e + e =~= x);
        } else if m == 1 {
            assert(e + x + e + e + e + e + e + e =~= x);
        } else if m == 2 {
            assert(e + e + x + e + e + e + e + e =~= x);
        } else if m == 3 {
            assert(e + e + e + x + e + e + e + e =~= x);
        } else if m == 4 {
            assert(e + e + e + e + x + e + e + e =~= x);
        } else if m == 5 {
            assert(e + e + e + e + e + x + e + e =~= x);
        } else {
            assert(e + e + e + e + e + e + x + e =~= x);
        }
    } else {
        assert(ks[0] != k && ks[1] != k && ks[2] != k && ks[3] != k && ks[4] != k && ks[5] != k
            && ks[6] != k);
        assert(e + e + e + e + e + e + e + x =~= x);
    }
}

/// The unknown-keyed entries of the canonical order are the unknown-keyed
/// entries.
proof fn lemma_unknown_of_canonical(fs: Entries)
    ensures
        unknown_keys(canonical_fields(fs)) == unknown_keys(fs),
{
    reveal(canonical_fields);
    let ks = known_keys();
    let w0 = with_key(fs, ks[0]);
    let w1 = with_key(fs, ks[1]);
    let w2 = with_key(fs, ks[2]);
    let w3 = with_key(fs, ks[3]);
    let w4 = with_key(fs, ks[4]);
    let w5 = with_key(fs, ks[5]);
    let w6 = with_key(fs, ks[6]);
    let u = unknown_keys(fs);
    let p = unknown_key();
    Seq::filter_distributes_over_add(w0, w1, p);
    Seq::filter_distributes_over_add(w0 + w1, w2, p);
    Seq::filter_distributes_over_add(w0 + w1 + w2, w3, p);
    Seq::filter_distributes_over_add(w0 + w1 + w2 + w3, w4, p);
    Seq::filter_distributes_over_add(w0 + w1 + w2 + w3 + w4, w5, p);
    Seq::filter_distributes_over_add(w0 + w1 + w2 + w3 + w4 + w5, w6, p);
    Seq::filter_distributes_over_add(w0 + w1 + w2 + w3 + w4 + w5 + w6, u, p);
    assert(ks.contains(ks[0]) && ks.contains(ks[1]) && ks.contains(ks[2]) && ks.contains(ks[3])
        && ks.contains(ks[4]) && ks.contains(ks[5]) && ks.contains(ks[6]));
    lemma_unknown_of_with_key(fs, ks[0]);
    lemma_unknown_of_with_key(fs, ks[1]);
    lemma_unknown_of_with_key(fs, ks[2]);
    lemma_unknown_of_with_key(fs, ks[3]);
    lemma_unknown_of_with_key(fs, ks[4]);
    lemma_unknown_of_with_key(fs, ks[5]);
    lemma_unknown_of_with_key(fs, ks[6]);
    lemma_unknown_of_unknown(fs);
    let e = Seq::<(Seq<char>, Seq<char>)>::empty();
    assert(canonical_fields(fs) == w0 + w1 + w2 + w3 + w4 + w5 + w6 + u);
    assert(unknown_keys(canonical_fields(fs)) == e + e + e + e + e + e + e + u);
    assert(e + e + e + e + e + e + e + u =~= u);
}

/// The canonical order of entries already in canonical order is that
/// order.
pub(crate) proof fn lemma_canonical_fields_settled(fs: Entries)
    ensures
        canonical_fields(canonical_fields(fs)) == canonical_fields(fs),
{
    reveal(canonical_fields);
    let ks = known_keys();
    let cf = canonical_fields(fs);
    lemma_with_key_canonical(fs, ks[0]);
    lemma_with_key_canonical(fs, ks[1]);
    lemma_with_key_canonical(fs, ks[2]);
    lemma_with_key_canonical(fs, ks[3]);
    lemma_with_key_canonical(fs, ks[4]);
    lemma_with_key_canonical(fs, ks[5]);
    lemma_with_key_canonical(fs, ks[6]);
    lemma_unknown_of_canonical(fs);
}

/// The raw value of the first of `s`.
pub open spec fn first_raw(s: Entries) -> Option<Seq<char>> {
    if s.len() > 0 {
        Some(s[0].1)
    } else {
        None
    }
}

/// The raw value a key reads is that of the first entry keyed so.
proof fn lemma_raw_from_first(es: Entries, k: Seq<char>, i: int)
    requires
        0 <= i <= es.len(),
    ensures
        raw_from(es, k, i) == first_raw(with_key(es.skip(i), k)),
    decreases es.len() - i,
{
    let e = Seq::<(Seq<char>, Seq<char>)>::empty();
    lemma_filter_none(e, keyed(k));
    if i == es.len() {
        assert(es.skip(i) == e);
    } else {
        lemma_raw_from_first(es, k, i + 1);
        let x = es[i];
        assert(es.skip(i) == seq![x] + es.skip(i + 1));
        Seq::filter_distributes_over_add(seq![x], es.skip(i + 1), keyed(k));
        assert(e.push(x) == seq![x]);
        e.lemma_filter_push(x, keyed(k));
        if x.0 == k {
            assert((seq![x] + with_key(es.skip(i + 1), k))[0] == x);
        } else {
            assert(e + with_key(es.skip(i + 1), k) == with_key(es.skip(i + 1), k));
        }
    }
}

/// A key reads the same value from the canonical order as from the
/// entries.
pub(crate) proof fn lemma_scalar_in_canonical(fs: Entries, k: Seq<char>)
    ensures
        scalar_in(canonical_fields(fs), k) == scalar_in(fs, k),
{
    let cf = canonical_fields(fs);
    lemma_raw_from_first(cf, k, 0);
    lemma_raw_from_first(fs, k, 0);
    assert(cf.skip(0) == cf);
    assert(fs.skip(0) == fs);
    lemma_with_key_canonical(fs, k);
}

/// No part of a split holds the separator.
proof fn lemma_split_parts_free(s: Seq<char>, c: char)
    ensures
        forall|i: int| 0 <= i < split_char(s, c).len() ==> !(#[trigger] split_char(s, c)[i]).contains(c),
    decreases s.len(),
{
    if s.len() > 0 {
        let t = s.drop_last();
        lemma_split_parts_free(t, c);
        crate::text::lemma_split_nonempty(t, c);
        let p = split_char(t, c);
        let r = split_char(s, c);
        assert forall|i: int| 0 <= i < r.len() implies !(#[trigger] r[i]).contains(c) by {
            if s.last() == c {
                if i < p.len() {
                    assert(r[i] == p[i]);
                } else {
                    assert(r[i] == Seq::<char>::empty());
                }
            } else {
                if i < p.len() - 1 {
                    assert(r[i] == p[i]);
                } else {
                    let l = p.last().push(s.last());
                    assert(r[i] == l);
                    if l.contains(c) {
                        let j = choose|j: int| 0 <= j < l.len() && l[j] == c;
                        if j < p.last().len() {
                            assert(p[p.len() - 1][j] == c);
                            assert(p[p.len() - 1].contains(c));
                        }
                    }
                }
            }
        }
    }
}

/// No line holds a newline.
proof fn lemma_lines_free(s: Seq<char>)
    ensures
        forall|i: int| 0 <= i < lines(s).len() ==> !(#[trigger] lines(s)[i]).contains('\n'),
{
    let p = split_char(s, '\n');
    lemma_split_parts_free(s, '\n');
    crate::text::lemma_split_nonempty(s, '\n');
    let q = if p.last().len() == 0 {
        p.drop_last()
    } else {
        p
    };
    assert forall|i: int| 0 <= i < lines(s).len() implies !(#[trigger] lines(s)[i]).contains('\n') by {
        assert(q[i] == p[i]);
        let l = lines(s)[i];
        assert(l == strip_cr(p[i]));
        if l.contains('\n') {
            let j = choose|j: int| 0 <= j < l.len() && l[j] == '\n';
            assert(p[i][j] == '\n');
            assert(p[i].contains('\n'));
        }
    }
}

/// The entries read from newline-free lines all round-trip.
proof fn lemma_entries_round_trip(ls: Seq<Seq<char>>)
    requires
        forall|i: int| 0 <= i < ls.len() ==> !(#[trigger] ls[i]).contains('\n'),
    ensures
        all_round_trip(entries_of(ls)),
    decreases ls.len(),
{
    if ls.len() > 0 {
        let d = ls.drop_last();
        assert forall|i: int| 0 <= i < d.len() implies !(#[trigger] d[i]).contains('\n') by {
            assert(d[i] == ls[i]);
        }
        lemma_entries_round_trip(d);
        let es = entries_of(ls);
        let ed = entries_of(d);
        assert(!ls[ls.len() - 1].contains('\n'));
        match parse_entry(ls.last()) {
            Some(e) => {
                lemma_parsed_entry_round_trips(ls.last());
                assert(es == ed.push(e));
                assert forall|i: int| 0 <= i < es.len() implies round_trips(#[trigger] es[i]) by {
                    if i < ed.len() {
                        assert(es[i] == ed[i]);
                    }
                }
            },
            None => {
                assert(es == ed);
            },
        }
    }
}

/// A record's frontmatter entries all round-trip.
pub(crate) proof fn lemma_frontmatter_round_trips(c: Seq<char>)
    ensures
        all_round_trip(entries_in(c)),
{
    match block_of(c) {
        Some(b) => {
            lemma_lines_free(b);
            lemma_entries_round_trip(lines(b));
        },
        None => {},
    }
}

/// What passes a test keeps round-tripping.
proof fn lemma_filter_round_trips(fs: Entries, p: spec_fn((Seq<char>, Seq<char>)) -> bool)
    requires
        all_round_trip(fs),
    ensures
        all_round_trip(fs.filter(p)),
{
    let f = fs.filter(p);
    assert forall|i: int| 0 <= i < f.len() implies round_trips(#[trigger] f[i]) by {
        let x = f[i];
        assert(f.contains(x));
        lemma_filter_within(fs, p, x);
        let j = choose|j: int| 0 <= j < fs.len() && fs[j] == x;
        assert(round_trips(fs[j]));
    }
}

/// Two runs of round-tripping entries make one.
proof fn lemma_concat_round_trips(a: Entries, b: Entries)
    requires
        all_round_trip(a),
        all_round_trip(b),
    ensures
        all_round_trip(a + b),
{
    assert forall|i: int| 0 <= i < (a + b).len() implies round_trips(#[trigger] (a + b)[i]) by {
        if i < a.len() {
            assert((a + b)[i] == a[i]);
        } else {
            assert((a + b)[i] == b[i - a.len()]);
        }
    }
}

/// The canonical order of round-tripping entries round-trips, and is
/// empty only when they are.
pub(crate) proof fn lemma_canonical_fields_round_trip(fs: Entries)
    requires
        all_round_trip(fs),
    ensures
        all_round_trip(canonical_fields(fs)),
        fs.len() > 0 ==> canonical_fields(fs).len() > 0,
{
    reveal(canonical_fields);
    let ks = known_keys();
    let w0 = with_key(fs, ks[0]);
    let w1 = with_key(fs, ks[1]);
    let w2 = with_key(fs, ks[2]);
    let w3 = with_key(fs, ks[3]);
    let w4 = with_key(fs, ks[4]);
    let w5 = with_key(fs, ks[5]);
    let w6 = with_key(fs, ks[6]);
    let u = unknown_keys(fs);
    lemma_filter_round_trips(fs, keyed(ks[0]));
    lemma_filter_round_trips(fs, keyed(ks[1]));
    lemma_filter_round_trips(fs, keyed(ks[2]));
    lemma_filter_round_trips(fs, keyed(ks[3]));
    lemma_filter_round_trips(fs, keyed(ks[4]));
    lemma_filter_round_trips(fs, keyed(ks[5]));
    lemma_filter_round_trips(fs, keyed(ks[6]));
    lemma_filter_round_trips(fs, unknown_key());
    lemma_concat_round_trips(w0, w1);
    lemma_concat_round_trips(w0 + w1, w2);
    lemma_concat_round_trips(w0 + w1 + w2, w3);
    lemma_concat_round_trips(w0 + w1 + w2 + w3, w4);
    lemma_concat_round_trips(w0 + w1 + w2 + w3 + w4, w5);
    lemma_concat_round_trips(w0 + w1 + w2 + w3 + w4 + w5, w6);
    lemma_concat_round_trips(w0 + w1 + w2 + w3 + w4 + w5 + w6, u);
    if fs.len() > 0 {
        let k = fs[0].0;
        lemma_with_key_canonical(fs, k);
        assert(fs.filter(keyed(k)).contains(fs[0])) by {
            broadcast use vstd::seq_lib::group_filter_ensures;
        }
        if canonical_fields(fs).len() == 0 {
            lemma_filter_none(canonical_fields(fs), keyed(k));
        }
    }
}

/// The callout the record `r` read from `path` calls for.
pub open spec fn callout_for(store: MapStore, path: Seq<char>, r: RecordV) -> Option<Seq<char>> {
    expected_line(
        r.status,
        match r.superseded_by {
            Some(id) => Some(successor_of(store, path, id)),
            None => None,
        },
    )
}

/// The body a second `fmt` pass gives the record `fmt` wrote from the text
/// `contents` at `path`: the written body, its leading newlines dropped,
/// reconciled with its callout once more.
pub open spec fn second_pass_body(store: MapStore, path: Seq<char>, contents: Seq<char>) -> Seq<char> {
    let r = reconciled_record(store, path, contents);
    reconciled(skip_newlines(r.body), callout_for(store, path, r))
}

/// The same head followed by two texts gives one text only when they are
/// one.
proof fn lemma_after_head(h: Seq<char>, x: Seq<char>, y: Seq<char>)
    ensures
        (h + x == h + y) <==> (x == y),
{
    if h + x == h + y {
        assert((h + x).skip(h.len() as int) == x);
        assert((h + y).skip(h.len() as int) == y);
    }
}

/// What a record's canonical text reads back as: the canonical entries, the
/// body with its leading newlines dropped, and every value the entries
/// give.
proof fn lemma_reread(path: Seq<char>, es: Entries, body: Seq<char>)
    requires
        all_round_trip(es),
        es.len() > 0,
    ensures
        ({
            let r2 = extracted(path, gap_normalized(canonical_head(canonical_fields(es)) + body));
            &&& r2.fields == canonical_fields(es)
            &&& r2.body == skip_newlines(body)
            &&& r2.doc_type == crate::record::or_empty(scalar_in(es, "type"@))
            &&& r2.title == crate::record::or_empty(scalar_in(es, "title"@))
            &&& r2.description == crate::record::or_empty(scalar_in(es, "description"@))
            &&& r2.status == scalar_in(es, "status"@)
            &&& r2.supersedes == scalar_in(es, "supersedes"@)
            &&& r2.superseded_by == scalar_in(es, "superseded_by"@)
        }),
{
    let cf = canonical_fields(es);
    lemma_canonical_fields_round_trip(es);
    lemma_canonical_reads_back(cf, body);
    lemma_scalar_in_canonical(es, "type"@);
    lemma_scalar_in_canonical(es, "title"@);
    lemma_scalar_in_canonical(es, "description"@);
    lemma_scalar_in_canonical(es, "status"@);
    lemma_scalar_in_canonical(es, "supersedes"@);
    lemma_scalar_in_canonical(es, "superseded_by"@);
}

/// A record's canonical text is the canonical head of its entries above its
/// body.
proof fn lemma_canonical_split(r: RecordV)
    ensures
        canonical(r) == canonical_head(canonical_fields(r.fields)) + r.body,
{
    assert(canonical(r) =~= canonical_head(canonical_fields(r.fields)) + r.body);
}

/// The text a store holds at `path` opens with the frontmatter fence line.
proof fn lemma_text_opens_with_fence(fs: Entries, body: Seq<char>)
    ensures
        crate::check::records::opens_with_fence(canonical_head(fs) + body),
{
    reveal_strlit("---");
    assert("---"@ =~= seq!['-', '-', '-']);
    lemma_canonical_opens_with_fence(fs, body);
}

/// The text `fmt` writes is the canonical head of the reconciled record's
/// entries above its body.
proof fn lemma_first_pass_text(store: MapStore, path: Seq<char>, text: Seq<char>)
    requires
        pending_form(store, path) == Some(text),
    ensures
        store.get(path) is Some,
        text == canonical_head(
            canonical_fields(reconciled_record(store, path, store.get(path)->Some_0).fields),
        ) + reconciled_record(store, path, store.get(path)->Some_0).body,
{
    lemma_canonical_split(reconciled_record(store, path, store.get(path)->Some_0));
}

/// Rewriting a stored record leaves the successor any record names as it
/// was: the store lists the same paths.
proof fn lemma_successor_kept(
    before: MapStore,
    after: MapStore,
    path: Seq<char>,
    text: Seq<char>,
    id: Seq<char>,
)
    requires
        before.get(path) is Some,
        written(before, after, path, text),
    ensures
        successor_of(after, path, id) == successor_of(before, path, id),
{
    before.lemma_paths_match_get(path);
    assert(after.paths() == before.paths());
}

/// The record a second pass reconciles reads the status and successor the
/// first pass did, and its body is the second-pass body.
proof fn lemma_second_record(before: MapStore, after: MapStore, path: Seq<char>, text: Seq<char>)
    requires
        pending_form(before, path) == Some(text),
        written(before, after, path, text),
        reconciled_record(before, path, before.get(path)->Some_0).fields.len() > 0,
    ensures
        reconciled_record(after, path, text).body == second_pass_body(
            before,
            path,
            before.get(path)->Some_0,
        ),
        reconciled_record(after, path, text).fields == canonical_fields(
            reconciled_record(before, path, before.get(path)->Some_0).fields,
        ),
{
    reveal(reconciled_record);
    let c = before.get(path)->Some_0;
    let r = reconciled_record(before, path, c);
    let es = r.fields;
    lemma_frontmatter_round_trips(gap_normalized(c));
    lemma_first_pass_text(before, path, text);
    lemma_reread(path, es, r.body);
    let r2 = extracted(path, gap_normalized(text));
    match r.superseded_by {
        Some(id) => lemma_successor_kept(before, after, path, text, id),
        None => {},
    }
    assert(callout_for(after, path, r2) == callout_for(before, path, r));
}

/// A record whose entries are already in canonical order is written as the
/// canonical head of those entries above its body.
proof fn lemma_canonical_of_settled(r: RecordV, cf: Entries)
    requires
        r.fields == cf,
        canonical_fields(cf) == cf,
    ensures
        canonical(r) == canonical_head(cf) + r.body,
{
    lemma_canonical_split(r);
}

/// The text the first pass writes and the text a second pass would write
/// share their head: they differ, if at all, in the body.
proof fn lemma_texts_share_head(before: MapStore, after: MapStore, path: Seq<char>, text: Seq<char>)
    requires
        pending_form(before, path) == Some(text),
        written(before, after, path, text),
        reconciled_record(before, path, before.get(path)->Some_0).fields.len() > 0,
    ensures
        text == canonical_head(
            canonical_fields(reconciled_record(before, path, before.get(path)->Some_0).fields),
        ) + reconciled_record(before, path, before.get(path)->Some_0).body,
        canonical(reconciled_record(after, path, text)) == canonical_head(
            canonical_fields(reconciled_record(before, path, before.get(path)->Some_0).fields),
        ) + second_pass_body(before, path, before.get(path)->Some_0),
{
    let c = before.get(path)->Some_0;
    let r = reconciled_record(before, path, c);
    lemma_first_pass_text(before, path, text);
    lemma_second_record(before, after, path, text);
    lemma_rewritten_canonical(
        reconciled_record(after, path, text),
        r.fields,
        second_pass_body(before, path, c),
    );
}

/// A record whose entries are already the canonical form of `fs` writes
/// out as the canonical head of `fs` above its body.
proof fn lemma_rewritten_canonical(ra: RecordV, fs: Entries, b: Seq<char>)
    requires
        ra.fields == canonical_fields(fs),
        ra.body == b,
    ensures
        canonical(ra) == canonical_head(canonical_fields(fs)) + b,
{
    lemma_canonical_fields_settled(fs);
    lemma_canonical_of_settled(ra, canonical_fields(fs));
}

/// A second `fmt` pass over a record the first pass rewrote, with at least
/// one frontmatter entry, rewrites nothing exactly when reconciling the
/// written body again leaves it as written: the canonical frontmatter reads
/// back as the entries it was written from, in the same order, so only the
/// body can move.
pub proof fn lemma_second_fmt_pass_moves_only_the_body(
    before: MapStore,
    after: MapStore,
    path: Seq<char>,
    text: Seq<char>,
)
    requires
        pending_form(before, path) == Some(text),
        written(before, after, path, text),
        reconciled_record(before, path, before.get(path)->Some_0).fields.len() > 0,
    ensures
        pending_form(after, path) is None <==> second_pass_body(before, path, before.get(path)->Some_0)
            == reconciled_record(before, path, before.get(path)->Some_0).body,
{
    let c = before.get(path)->Some_0;
    let r = reconciled_record(before, path, c);
    lemma_texts_share_head(before, after, path, text);
    let h = canonical_head(canonical_fields(r.fields));
    lemma_after_head(h, second_pass_body(before, path, c), r.body);
    assert(after.get(path) == Some(text));
    lemma_text_opens_with_fence(canonical_fields(r.fields), r.body);
}

/// A record whose status calls for a callout is settled by one `fmt` pass,
/// when the successor its callout links to has no newline in its name: a
/// second pass rewrites nothing.
pub proof fn lemma_fmt_settles_a_retired_record(
    before: MapStore,
    after: MapStore,
    path: Seq<char>,
    text: Seq<char>,
)
    requires
        pending_form(before, path) == Some(text),
        written(before, after, path, text),
        reconciled_record(before, path, before.get(path)->Some_0).fields.len() > 0,
        callout_for(
            before,
            path,
            reconciled_record(before, path, before.get(path)->Some_0),
        ) is Some,
        reconciled_record(before, path, before.get(path)->Some_0).superseded_by matches Some(id)
            ==> !successor_of(before, path, id).contains('\n'),
    ensures
        pending_form(after, path) is None,
{
    reveal(reconciled_record);
    reveal_strlit("> **SUPERSEDED");
    reveal_strlit("> **DEPRECATED");
    let c = before.get(path)->Some_0;
    let r = reconciled_record(before, path, c);
    let successor = match r.superseded_by {
        Some(id) => Some(successor_of(before, path, id)),
        None => None,
    };
    let l = callout_for(before, path, r)->Some_0;
    lemma_second_fmt_pass_moves_only_the_body(before, after, path, text);
    lemma_expected_is_callout(r.status, successor);
    let r0 = extracted(path, gap_normalized(c));
    assert(r.body == reconciled(r0.body, Some(l)));
    assert(l.subrange(0, 1)[0] == l[0]);
    assert(l[0] == '>');
    assert(r.body[0] == '>');
    assert(skip_newlines(r.body) == r.body);
    lemma_reconcile_body_idempotent(r0.body, l);
}

/// One `fmt` pass settles a record of any status: a second pass rewrites
/// nothing, provided the rewritten body does not open with a newline (the
/// reread drops such newlines, so the first pass's text would change) and
/// the successor a callout links to has no newline in its name.
pub proof fn lemma_fmt_settles_a_record(
    before: MapStore,
    after: MapStore,
    path: Seq<char>,
    text: Seq<char>,
)
    requires
        pending_form(before, path) == Some(text),
        written(before, after, path, text),
        reconciled_record(before, path, before.get(path)->Some_0).fields.len() > 0,
        skip_newlines(reconciled_record(before, path, before.get(path)->Some_0).body)
            == reconciled_record(before, path, before.get(path)->Some_0).body,
        reconciled_record(before, path, before.get(path)->Some_0).superseded_by matches Some(id)
            ==> !successor_of(before, path, id).contains('\n'),
    ensures
        pending_form(after, path) is None,
{
    reveal(reconciled_record);
    let c = before.get(path)->Some_0;
    let r = reconciled_record(before, path, c);
    let successor = match r.superseded_by {
        Some(id) => Some(successor_of(before, path, id)),
        None => None,
    };
    let e = callout_for(before, path, r);
    lemma_second_fmt_pass_moves_only_the_body(before, after, path, text);
    lemma_expected_is_callout(r.status, successor);
    let r0 = extracted(path, gap_normalized(c));
    assert(r.body == reconciled(r0.body, e));
    lemma_reconciled_idempotent(r0.body, e);
}

} // verus!
