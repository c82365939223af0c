//! The `DUPLICATE` advisory, the instrument behind the "duplicate home"
//! refusal trigger: near-duplicate detection over same-type record bodies
//! by shingled Jaccard similarity at or above 0.8, on prose with headings,
//! bold labels and list markers stripped so the shared record skeleton does
//! not inflate the score. Advisory only: it names both files and never
//! gates.

use crate::check::records::reserved;
use crate::check::reporter::{lemma_per_path_step, per_path, Reporter};
use crate::order::texts;
use crate::path::{file_name_or_empty, file_name_or_empty_exec};
use crate::record::{extract_record, extracted};
use crate::store::{path_views, MapStore};
use crate::text::{
    chars_of, chars_of_string, decimal, decimal_exec, eq, extend, extend_str, has_prefix, is_ws,
    is_ws_exec, lines, lowercase, lowercase_exec, starts_with_str, string_of, trim, trim_exec,
};
use vstd::prelude::*;

verus! {

/// Words per shingle.
pub const SHINGLE: usize = 3;

/// A record with fewer prose words than this carries too little signal to
/// compare.
pub const MIN_TOKENS: usize = 10;

/// A record that takes part in the comparison: its path, its type and its
/// distinct shingles.
pub struct Doc {
    pub path: String,
    pub doc_type: String,
    pub shingles: Vec<Vec<char>>,
}

/// The mathematical form of a [`Doc`].
pub struct DocV {
    pub path: Seq<char>,
    pub doc_type: Seq<char>,
    pub shingles: Seq<Seq<char>>,
}

impl Doc {
    pub open spec fn view(&self) -> DocV {
        DocV { path: self.path@, doc_type: self.doc_type@, shingles: texts(self.shingles@) }
    }
}

pub open spec fn docs_view(v: Seq<Doc>) -> Seq<DocV> {
    v.map_values(|d: Doc| d.view())
}

/// The words of `s` and the word being read, after reading all of it.
pub open spec fn word_state(s: Seq<char>) -> (Seq<Seq<char>>, Seq<char>)
    decreases s.len(),
{
    if s.len() == 0 {
        (Seq::empty(), Seq::empty())
    } else {
        let (ws, cur) = word_state(s.drop_last());
        if is_ws(s.last()) {
            if cur.len() > 0 {
                (ws.push(cur), Seq::empty())
            } else {
                (ws, Seq::empty())
            }
        } else {
            (ws, cur.push(s.last()))
        }
    }
}

/// `str::split_whitespace`: the maximal runs of non-whitespace characters.
pub open spec fn words(s: Seq<char>) -> Seq<Seq<char>> {
    let (ws, cur) = word_state(s);
    if cur.len() > 0 {
        ws.push(cur)
    } else {
        ws
    }
}

/// The words of `s`.
pub fn split_whitespace(s: &Vec<char>) -> (r: Vec<Vec<char>>)
    ensures
        texts(r@) == words(s@),
{
    let mut out: Vec<Vec<char>> = Vec::new();
    let mut cur: Vec<char> = Vec::new();
    let mut i: usize = 0;
    while i < s.len()
        invariant
            i <= s.len(),
            word_state(s@.take(i as int)) == (texts(out@), cur@),
        decreases s.len() - i,
    {
        proof {
            assert(s@.take(i + 1).drop_last() == s@.take(i as int));
            assert(s@.take(i + 1).last() == s@[i as int]);
        }
        if is_ws_exec(s[i]) {
            if cur.len() > 0 {
                let ghost ob = texts(out@);
                let ghost cv = cur@;
                out.push(cur);
                assert(texts(out@) =~= ob.push(cv));
                cur = Vec::new();
            } else {
                cur = Vec::new();
            }
            assert(cur@ =~= Seq::<char>::empty());
        } else {
            cur.push(s[i]);
        }
        i += 1;
    }
    assert(s@.take(s.len() as int) == s@);
    if cur.len() > 0 {
        let ghost ob = texts(out@);
        let ghost cv = cur@;
        out.push(cur);
        assert(texts(out@) =~= ob.push(cv));
    }
    out
}

/// `s` without its leading `-`, `*` and space characters.
pub open spec fn without_markers(s: Seq<char>) -> Seq<char>
    decreases s.len(),
{
    if s.len() > 0 && (s[0] == '-' || s[0] == '*' || s[0] == ' ') {
        without_markers(s.drop_first())
    } else {
        s
    }
}

fn strip_markers(s: &Vec<char>) -> (r: Vec<char>)
    ensures
        r@ == without_markers(s@),
{
    let mut k: usize = 0;
    assert(s@.skip(0) == s@);
    while k < s.len() && (s[k] == '-' || s[k] == '*' || s[k] == ' ')
        invariant
            k <= s.len(),
            without_markers(s@) == without_markers(s@.skip(k as int)),
        decreases s.len() - k,
    {
        assert(s@.skip(k as int).drop_first() == s@.skip(k + 1));
        k += 1;
    }
    crate::text::slice(s, k, s.len())
}

/// The prose words one body line contributes: none for a blank line, a
/// heading or a bold label; otherwise its words, lowercased, after its list
/// markers.
pub open spec fn line_words(l: Seq<char>) -> Seq<Seq<char>> {
    let t = trim(l);
    if t.len() == 0 || has_prefix(t, "#"@) || has_prefix(t, "**"@) {
        Seq::empty()
    } else {
        words(without_markers(t)).map_values(|w: Seq<char>| lowercase(w))
    }
}

/// The lowercased prose words of a record body, in order.
pub open spec fn prose_words(body: Seq<char>) -> Seq<Seq<char>> {
    per_path(lines(body), |l: Seq<char>| line_words(l))
}

/// The lowercased prose words of `body`.
pub fn prose_tokens(body: &Vec<char>) -> (r: Vec<Vec<char>>)
    ensures
        texts(r@) == prose_words(body@),
{
    let ls = crate::text::lines_exec(body);
    let ghost lv = ls@.map_values(|v: Vec<char>| v@);
    let ghost g = |l: Seq<char>| line_words(l);
    let mut out: Vec<Vec<char>> = Vec::new();
    let mut i: usize = 0;
    while i < ls.len()
        invariant
            i <= ls.len(),
            lv == ls@.map_values(|v: Vec<char>| v@),
            g == (|l: Seq<char>| line_words(l)),
            texts(out@) == per_path(lv.take(i as int), g),
        decreases ls.len() - i,
    {
        proof {
            lemma_per_path_step(lv, g, i as int);
            assert(lv[i as int] == ls@[i as int]@);
        }
        let t = trim_exec(&ls[i]);
        if t.len() > 0 && !starts_with_str(&t, "#") && !starts_with_str(&t, "**") {
            let ws = split_whitespace(&strip_markers(&t));
            let ghost base = texts(out@);
            let ghost wv = texts(ws@);
            let mut k: usize = 0;
            while k < ws.len()
                invariant
                    k <= ws.len(),
                    wv == texts(ws@),
                    texts(out@) == base + wv.take(k as int).map_values(|w: Seq<char>| lowercase(w)),
                decreases ws.len() - k,
            {
                let ghost ob = texts(out@);
                out.push(lowercase_exec(&ws[k]));
                assert(texts(out@) =~= ob.push(lowercase(wv[k as int])));
                assert(wv.take(k + 1).map_values(|w: Seq<char>| lowercase(w)) =~= wv.take(
                    k as int,
                ).map_values(|w: Seq<char>| lowercase(w)).push(lowercase(wv[k as int])));
                k += 1;
            }
            assert(wv.take(ws.len() as int) == wv);
        } else {
            assert(texts(out@) =~= texts(out@) + Seq::<Seq<char>>::empty());
        }
        i += 1;
    }
    assert(lv.take(ls.len() as int) == lv);
    assert(lv == lines(body@));
    out
}

/// `s` with every repeat of an earlier element left out.
pub open spec fn distinct_texts(s: Seq<Seq<char>>) -> Seq<Seq<char>>
    decreases s.len(),
{
    if s.len() == 0 {
        Seq::empty()
    } else {
        let d = distinct_texts(s.drop_last());
        if d.contains(s.last()) {
            d
        } else {
            d.push(s.last())
        }
    }
}

fn contains_text(v: &Vec<Vec<char>>, x: &Vec<char>) -> (r: bool)
    ensures
        r == texts(v@).contains(x@),
{
    let mut i: usize = 0;
    while i < v.len()
        invariant
            i <= v.len(),
            forall|j: int| 0 <= j < i ==> v@[j]@ != x@,
        decreases v.len() - i,
    {
        if eq(&v[i], x) {
            assert(texts(v@)[i as int] == x@);
            return true;
        }
        i += 1;
    }
    assert forall|j: int| 0 <= j < texts(v@).len() implies texts(v@)[j] != x@ by {
        assert(texts(v@)[j] == v@[j]@);
    }
    false
}

/// The word windows of `tokens`: each run of three words joined by spaces.
pub open spec fn windows(tokens: Seq<Seq<char>>) -> Seq<Seq<char>> {
    Seq::new(
        (tokens.len() - 2) as nat,
        |i: int| tokens[i] + " "@ + tokens[i + 1] + " "@ + tokens[i + 2],
    )
}

/// The distinct shingles of `tokens`: its word windows, or its words when
/// there are fewer than three.
pub open spec fn shingle_set(tokens: Seq<Seq<char>>) -> Seq<Seq<char>> {
    if tokens.len() < 3 {
        distinct_texts(tokens)
    } else {
        distinct_texts(windows(tokens))
    }
}

/// The distinct shingles of `tokens`.
pub fn shingles(tokens: &Vec<Vec<char>>) -> (r: Vec<Vec<char>>)
    ensures
        texts(r@) == shingle_set(texts(tokens@)),
{
    let ghost tv = texts(tokens@);
    let mut all: Vec<Vec<char>> = Vec::new();
    if tokens.len() < 3 {
        let mut i: usize = 0;
        while i < tokens.len()
            invariant
                i <= tokens.len(),
                tv == texts(tokens@),
                texts(all@) == tv.take(i as int),
            decreases tokens.len() - i,
        {
            let ghost ab = texts(all@);
            all.push(tokens[i].clone());
            assert(tv[i as int] == tokens@[i as int]@);
            assert(texts(all@) =~= ab.push(tv[i as int]));
            assert(tv.take(i + 1) =~= tv.take(i as int).push(tv[i as int]));
            i += 1;
        }
        assert(tv.take(tokens.len() as int) == tv);
    } else {
        let mut i: usize = 0;
        while i + 2 < tokens.len()
            invariant
                tokens.len() >= 3,
                i <= tokens.len() - 2,
                tv == texts(tokens@),
                texts(all@) == windows(tv).take(i as int),
            decreases tokens.len() - i,
        {
            let mut w = tokens[i].clone();
            extend_str(&mut w, " ");
            extend(&mut w, &tokens[i + 1]);
            extend_str(&mut w, " ");
            extend(&mut w, &tokens[i + 2]);
            let ghost ab = texts(all@);
            assert(tv[i as int] == tokens@[i as int]@);
            assert(tv[i + 1] == tokens@[i + 1]@);
            assert(tv[i + 2] == tokens@[i + 2]@);
            assert(w@ == windows(tv)[i as int]);
            all.push(w);
            assert(texts(all@) =~= ab.push(windows(tv)[i as int]));
            assert(windows(tv).take(i + 1) =~= windows(tv).take(i as int).push(windows(tv)[i as int]));
            i += 1;
        }
        assert(windows(tv).take(i as int) == windows(tv));
    }
    let ghost av = texts(all@);
    let mut out: Vec<Vec<char>> = Vec::new();
    let mut k: usize = 0;
    while k < all.len()
        invariant
            k <= all.len(),
            av == texts(all@),
            texts(out@) == distinct_texts(av.take(k as int)),
        decreases all.len() - k,
    {
        proof {
            assert(av.take(k + 1).drop_last() == av.take(k as int));
            assert(av.take(k + 1).last() == all@[k as int]@);
        }
        if !contains_text(&out, &all[k]) {
            let ghost ob = texts(out@);
            out.push(all[k].clone());
            assert(texts(out@) =~= ob.push(all@[k as int]@));
        }
        k += 1;
    }
    assert(av.take(all.len() as int) == av);
    out
}

/// The comparison view of the record at `p`, when it takes part: a typed,
/// unreserved record with at least ten prose words.
pub open spec fn doc_at(store: MapStore, p: Seq<char>) -> Option<DocV> {
    if reserved(file_name_or_empty(p)) {
        None
    } else {
        match store.get(p) {
            None => None,
            Some(c) => {
                let r = extracted(p, c);
                let tokens = prose_words(r.body);
                if r.doc_type.len() == 0 || tokens.len() < MIN_TOKENS {
                    None
                } else {
                    let sh = shingle_set(tokens);
                    if sh.len() == 0 {
                        None
                    } else {
                        Some(DocV { path: p, doc_type: r.doc_type, shingles: sh })
                    }
                }
            },
        }
    }
}

/// The comparison view of the record at `path`.
pub fn doc_of(store: &MapStore, path: &String) -> (r: Option<Doc>)
    ensures
        match r {
            Some(d) => doc_at(*store, path@) == Some(d.view()),
            None => doc_at(*store, path@) is None,
        },
{
    let name = file_name_or_empty_exec(&chars_of_string(path));
    if crate::text::eq_str(&name, "index.md") || crate::text::eq_str(&name, "log.md") {
        return None;
    }
    let contents = match store.read(path) {
        Some(c) => c,
        None => return None,
    };
    let record = extract_record(path.as_str(), contents.as_str());
    let tokens = prose_tokens(&chars_of_string(&record.body));
    if chars_of_string(&record.doc_type).len() == 0 || tokens.len() < MIN_TOKENS {
        return None;
    }
    let sh = shingles(&tokens);
    if sh.len() == 0 {
        return None;
    }
    Some(Doc { path: path.clone(), doc_type: record.doc_type, shingles: sh })
}

/// The records of `ps` that take part in the comparison, in order.
pub open spec fn docs_in(store: MapStore, ps: Seq<Seq<char>>) -> Seq<DocV>
    decreases ps.len(),
{
    if ps.len() == 0 {
        Seq::empty()
    } else {
        docs_in(store, ps.drop_last()) + match doc_at(store, ps.last()) {
            Some(d) => seq![d],
            None => Seq::<DocV>::empty(),
        }
    }
}

/// How many of `a` occur in `b`.
pub open spec fn shared(a: Seq<Seq<char>>, b: Seq<Seq<char>>) -> nat
    decreases a.len(),
{
    if a.len() == 0 {
        0
    } else {
        shared(a.drop_last(), b) + if b.contains(a.last()) {
            1nat
        } else {
            0nat
        }
    }
}

proof fn lemma_shared_bound(a: Seq<Seq<char>>, b: Seq<Seq<char>>)
    ensures
        shared(a, b) <= a.len(),
    decreases a.len(),
{
    if a.len() > 0 {
        lemma_shared_bound(a.drop_last(), b);
    }
}

/// Leaving out repeats leaves no repeat.
pub proof fn lemma_distinct_no_dup(s: Seq<Seq<char>>)
    ensures
        distinct_texts(s).no_duplicates(),
    decreases s.len(),
{
    if s.len() > 0 {
        lemma_distinct_no_dup(s.drop_last());
        let d = distinct_texts(s.drop_last());
        if !d.contains(s.last()) {
            assert forall|i: int, j: int| 0 <= i < j < d.push(s.last()).len() implies d.push(s.last())[i] != d.push(s.last())[j] by {
                if j == d.len() {
                    assert(d[i] == d.push(s.last())[i]);
                    if d[i] == s.last() {
                        assert(d.contains(s.last()));
                    }
                }
            }
        }
    }
}

/// The shared count is the length of the shared elements.
proof fn lemma_shared_filter(a: Seq<Seq<char>>, b: Seq<Seq<char>>)
    ensures
        shared(a, b) == a.filter(|x: Seq<char>| b.contains(x)).len(),
    decreases a.len(),
{
    reveal(Seq::filter);
    if a.len() > 0 {
        lemma_shared_filter(a.drop_last(), b);
    }
}

/// A sequence without repeats shares no more elements with `b` than `b`
/// has.
pub proof fn lemma_shared_le(a: Seq<Seq<char>>, b: Seq<Seq<char>>)
    requires
        a.no_duplicates(),
    ensures
        shared(a, b) <= b.len(),
{
    let pred = |x: Seq<char>| b.contains(x);
    let f = a.filter(pred);
    lemma_shared_filter(a, b);
    crate::store::lemma_filter_no_dup(a, pred);
    f.unique_seq_to_set();
    b.lemma_cardinality_of_set();
    assert forall|x: Seq<char>| f.to_set().contains(x) implies b.to_set().contains(x) by {
        assert(f.contains(x));
        let k = choose|k: int| 0 <= k < f.len() && f[k] == x;
        a.lemma_filter_pred(pred, k);
    }
    vstd::set_lib::lemma_len_subset(f.to_set(), b.to_set());
}

/// Whether a tie at `n` half-hundredths (`n / 200`, `n` odd) is displayed
/// rounded up: the side of the tie that the double nearest `n / 200` lies
/// on, or the even neighbour for the one exact tie, `0.875`.
pub open spec fn tie_rounds_up(n: int) -> bool {
    n == 161 || (175 <= n && n <= 187)
}

/// The similarity `shared / union` in hundredths, rounded as its two-decimal
/// display rounds it.
pub open spec fn hundredths(shared: nat, union: nat) -> nat {
    let h = (100 * shared) / union;
    let rem = (100 * shared) % union;
    if 2 * rem > union {
        h + 1
    } else if 2 * rem < union {
        h
    } else if tie_rounds_up((2 * h + 1) as int) {
        h + 1
    } else {
        h
    }
}

/// The two-digit form of `n < 100`.
pub open spec fn two_digits(n: nat) -> Seq<char> {
    if n < 10 {
        seq!['0'] + decimal(n)
    } else {
        decimal(n)
    }
}

/// The similarity `shared / union`, at least 0.8, as displayed with two
/// decimals.
pub open spec fn similarity_text(shared: nat, union: nat) -> Seq<char> {
    let h = hundredths(shared, union);
    decimal(h / 100) + "."@ + two_digits(h % 100)
}

/// The similarity of two shingle sets, as displayed.
pub fn similarity(shared: u128, union: u128) -> (r: Vec<char>)
    requires
        0 < union,
        shared <= union,
        union <= 0x1_0000_0000_0000_0000_0000,
    ensures
        r@ == similarity_text(shared as nat, union as nat),
{
    let s = shared;
    let u = union;
    let h = (100 * s) / u;
    let rem = (100 * s) % u;
    let rounded = if 2 * rem > u {
        h + 1
    } else if 2 * rem < u {
        h
    } else if (2 * h + 1) == 161 || (175 <= 2 * h + 1 && 2 * h + 1 <= 187) {
        h + 1
    } else {
        h
    };
    assert(h <= 100) by (nonlinear_arith)
        requires
            h as int == (100 * s as int) / (u as int),
            s <= u,
            u > 0,
    ;
    let mut out = decimal_exec((rounded / 100) as u64);
    extend_str(&mut out, ".");
    let frac = (rounded % 100) as u64;
    if frac < 10 {
        extend_str(&mut out, "0");
    }
    extend(&mut out, &decimal_exec(frac));
    proof {
        reveal_strlit("0");
        if frac < 10 {
            assert(seq!['0'] + decimal(frac as nat) == "0"@ + decimal(frac as nat));
        }
    }
    out
}

/// The advisory naming the earlier record `other` a near duplicate.
pub open spec fn duplicate_text(other: Seq<char>, shared: nat, union: nat) -> Seq<char> {
    "DUPLICATE near-duplicate of "@ + file_name_or_empty(other) + " (similarity "@
        + similarity_text(shared, union) + ") — one home per fact; cross-reference instead"@
}

/// The advisory naming the earlier record `other` a near duplicate, with
/// the similarity as displayed.
fn duplicate_message(other: &String, shared: u128, union: u128) -> (r: String)
    requires
        0 < union,
        shared <= union,
        union <= 0x1_0000_0000_0000_0000_0000,
    ensures
        r@ == duplicate_text(other@, shared as nat, union as nat),
{
    let mut msg = chars_of("DUPLICATE near-duplicate of ");
    extend(&mut msg, &file_name_or_empty_exec(&chars_of_string(other)));
    extend_str(&mut msg, " (similarity ");
    extend(&mut msg, &similarity(shared, union));
    extend_str(&mut msg, ") — one home per fact; cross-reference instead");
    string_of(&msg)
}

/// The advisory `b` earns against the earlier `a`, if any: same type and a
/// Jaccard similarity of at least 0.8.
pub open spec fn pair_advisory(a: DocV, b: DocV) -> Seq<(Seq<char>, Seq<char>, Seq<char>)> {
    let s = shared(a.shingles, b.shingles);
    let u = a.shingles.len() + b.shingles.len() - s;
    if a.doc_type == b.doc_type && u > 0 && 5 * s >= 4 * u {
        seq![(b.path, "duplicate"@, duplicate_text(a.path, s, u as nat))]
    } else {
        Seq::empty()
    }
}

/// The advisories the later records from `j` on earn against `docs[i]`.
pub open spec fn row_advisories(docs: Seq<DocV>, i: int, j: int) -> Seq<(Seq<char>, Seq<char>, Seq<char>)>
    decreases docs.len() - j,
{
    if j < 0 || j >= docs.len() || i < 0 || i >= docs.len() {
        Seq::empty()
    } else {
        pair_advisory(docs[i], docs[j]) + row_advisories(docs, i, j + 1)
    }
}

/// Every near-duplicate advisory among `docs` from `i` on, pair by pair.
pub open spec fn duplicate_advisories(docs: Seq<DocV>, i: int) -> Seq<(Seq<char>, Seq<char>, Seq<char>)>
    decreases docs.len() - i,
{
    if i < 0 || i >= docs.len() {
        Seq::empty()
    } else {
        row_advisories(docs, i, i + 1) + duplicate_advisories(docs, i + 1)
    }
}

fn shared_exec(a: &Vec<Vec<char>>, b: &Vec<Vec<char>>) -> (r: usize)
    ensures
        r == shared(texts(a@), texts(b@)),
{
    let ghost av = texts(a@);
    let mut n: usize = 0;
    let mut i: usize = 0;
    while i < a.len()
        invariant
            i <= a.len(),
            av == texts(a@),
            n == shared(av.take(i as int), texts(b@)),
            n <= i,
        decreases a.len() - i,
    {
        proof {
            assert(av.take(i + 1).drop_last() == av.take(i as int));
            assert(av.take(i + 1).last() == a@[i as int]@);
        }
        if contains_text(b, &a[i]) {
            n += 1;
        }
        i += 1;
    }
    assert(av.take(a.len() as int) == av);
    n
}

/// Advises, with kind `duplicate`, on every record whose prose nearly
/// duplicates an earlier record of the same type. Never a violation.
pub fn check(store: &MapStore, all_md: &Vec<String>, reporter: &mut Reporter)
    ensures
        final(reporter).viols() == old(reporter).viols(),
        final(reporter).advs() == old(reporter).advs() + duplicate_advisories(
            docs_in(*store, path_views(all_md@)),
            0,
        ),
{
    let ghost ps = path_views(all_md@);
    let mut docs: Vec<Doc> = Vec::new();
    let mut p: usize = 0;
    while p < all_md.len()
        invariant
            p <= all_md.len(),
            ps == path_views(all_md@),
            docs_view(docs@) == docs_in(*store, ps.take(p as int)),
            forall|k: int| 0 <= k < docs@.len() ==> (#[trigger] docs_view(docs@)[k]).shingles.no_duplicates(),
        decreases all_md.len() - p,
    {
        proof {
            assert(ps.take(p + 1).drop_last() == ps.take(p as int));
            assert(ps.take(p + 1).last() == all_md@[p as int]@);
        }
        let ghost before = docs_view(docs@);
        match doc_of(store, &all_md[p]) {
            Some(d) => {
                let ghost dv = d.view();
                proof {
                    let c = store.get(all_md@[p as int]@)->Some_0;
                    let tokens = prose_words(extracted(all_md@[p as int]@, c).body);
                    lemma_distinct_no_dup(tokens);
                    lemma_distinct_no_dup(windows(tokens));
                }
                docs.push(d);
                assert(docs_view(docs@) =~= before + seq![dv]);
                assert(docs_view(docs@)[docs@.len() - 1] == dv);
            },
            None => {
                assert(docs_view(docs@) =~= before + Seq::<DocV>::empty());
            },
        }
        p += 1;
    }
    assert(ps.take(all_md.len() as int) == ps);
    let ghost dv = docs_view(docs@);
    assert(forall|k: int| 0 <= k < dv.len() ==> (#[trigger] dv[k]).shingles.no_duplicates());
    let ghost base = reporter.advs();
    let mut i: usize = 0;
    while i < docs.len()
        invariant
            i <= docs.len(),
            dv == docs_view(docs@),
            forall|k: int| 0 <= k < dv.len() ==> (#[trigger] dv[k]).shingles.no_duplicates(),
            reporter.viols() == old(reporter).viols(),
            base + duplicate_advisories(dv, 0) == reporter.advs() + duplicate_advisories(
                dv,
                i as int,
            ),
        decreases docs.len() - i,
    {
        let mut j = i + 1;
        let ghost row_base = reporter.advs();
        assert(duplicate_advisories(dv, i as int) == row_advisories(dv, i as int, i + 1)
            + duplicate_advisories(dv, i + 1));
        while j < docs.len()
            invariant
                i < j <= docs.len(),
                dv == docs_view(docs@),
                forall|k: int| 0 <= k < dv.len() ==> (#[trigger] dv[k]).shingles.no_duplicates(),
                reporter.viols() == old(reporter).viols(),
                row_base + row_advisories(dv, i as int, i + 1) == reporter.advs() + row_advisories(
                    dv,
                    i as int,
                    j as int,
                ),
            decreases docs.len() - j,
        {
            let a = &docs[i];
            let b = &docs[j];
            assert(dv[i as int] == a.view() && dv[j as int] == b.view());
            let ghost before = reporter.advs();
            let same = eq(&chars_of_string(&a.doc_type), &chars_of_string(&b.doc_type));
            if same {
                let s = shared_exec(&a.shingles, &b.shingles);
                proof {
                    lemma_shared_bound(texts(a.shingles@), texts(b.shingles@));
                    assert(dv[i as int].shingles.no_duplicates());
                    lemma_shared_le(texts(a.shingles@), texts(b.shingles@));
                }
                let s = s as u128;
                let u = a.shingles.len() as u128 + b.shingles.len() as u128 - s;
                if u > 0 && 5 * s >= 4 * u {
                    let msg = duplicate_message(&a.path, s, u);
                    reporter.advise(&b.path, "duplicate", msg);
                } else {
                    assert(pair_advisory(dv[i as int], dv[j as int]) =~= Seq::<
                        (Seq<char>, Seq<char>, Seq<char>),
                    >::empty());
                }
            } else {
                assert(pair_advisory(dv[i as int], dv[j as int]) =~= Seq::<
                    (Seq<char>, Seq<char>, Seq<char>),
                >::empty());
            }
            assert(row_advisories(dv, i as int, j as int) == pair_advisory(dv[i as int], dv[j as int])
                + row_advisories(dv, i as int, j + 1));
            j += 1;
        }
        assert(row_advisories(dv, i as int, j as int) =~= Seq::<(Seq<char>, Seq<char>, Seq<char>)>::empty());
        i += 1;
    }
    assert(duplicate_advisories(dv, i as int) =~= Seq::<(Seq<char>, Seq<char>, Seq<char>)>::empty());
}

} // verus!
