//! A record read out of its text: the frontmatter fields the tools reason
//! over, the number its filename carries, its body, and the canonical text
//! it serializes back to.

use crate::frontmatter::{
    body_exec, body_of, entries_exec, entries_in, entry_views, scalar_in, scalar_in_exec,
};
use crate::path::{file_name_or_empty, file_name_or_empty_exec};
use crate::text::{
    all_ascii_digits, chars_of, chars_of_string, digits_value, eq, extend, extend_str,
    is_ascii_digit, is_ascii_digit_exec, parse_digits, slice, string_of,
};
use vstd::prelude::*;

verus! {

/// A record as the tools read it.
#[derive(Debug)]
pub struct ExtractedRecord {
    /// The `type:` value, empty when absent.
    pub doc_type: String,
    /// The `title:` value, empty when absent.
    pub title: String,
    /// The `description:` value, empty when absent.
    pub description: String,
    pub status: Option<String>,
    pub supersedes: Option<String>,
    pub superseded_by: Option<String>,
    /// The number the filename opens with.
    pub number: Option<i32>,
    /// Everything after the frontmatter block.
    pub body: String,
    /// Every frontmatter `(key, value as written)` entry, in file order.
    pub fields: Vec<(String, String)>,
}

/// The mathematical form of an [`ExtractedRecord`].
pub struct RecordV {
    pub doc_type: Seq<char>,
    pub title: Seq<char>,
    pub description: Seq<char>,
    pub status: Option<Seq<char>>,
    pub supersedes: Option<Seq<char>>,
    pub superseded_by: Option<Seq<char>>,
    pub number: Option<int>,
    pub body: Seq<char>,
    pub fields: Seq<(Seq<char>, Seq<char>)>,
}

pub open spec fn opt_view(o: Option<String>) -> Option<Seq<char>> {
    match o {
        Some(s) => Some(s@),
        None => None,
    }
}

pub open spec fn field_views(fs: Seq<(String, String)>) -> Seq<(Seq<char>, Seq<char>)> {
    fs.map_values(|e: (String, String)| (e.0@, e.1@))
}

impl ExtractedRecord {
    pub open spec fn view(&self) -> RecordV {
        RecordV {
            doc_type: self.doc_type@,
            title: self.title@,
            description: self.description@,
            status: opt_view(self.status),
            supersedes: opt_view(self.supersedes),
            superseded_by: opt_view(self.superseded_by),
            number: match self.number {
                Some(n) => Some(n as int),
                None => None,
            },
            body: self.body@,
            fields: field_views(self.fields@),
        }
    }
}

pub open spec fn or_empty(o: Option<Seq<char>>) -> Seq<char> {
    match o {
        Some(s) => s,
        None => Seq::<char>::empty(),
    }
}

/// How many ASCII digits open `s`, counting from `i`.
pub open spec fn digit_run(s: Seq<char>, i: int) -> int
    decreases s.len() - i,
{
    if i < 0 || i >= s.len() || !is_ascii_digit(s[i]) {
        0
    } else {
        1 + digit_run(s, i + 1)
    }
}

/// The number a record's filename opens with: its leading run of one to
/// nine ASCII digits.
pub open spec fn record_number(path: Seq<char>) -> Option<int> {
    let name = file_name_or_empty(path);
    let n = digit_run(name, 0);
    if 1 <= n && n <= 9 {
        Some(digits_value(name.take(n)) as int)
    } else {
        None
    }
}

/// What [`extract_record`] reads out of `contents` stored at `path`.
pub open spec fn extracted(path: Seq<char>, contents: Seq<char>) -> RecordV {
    let es = entries_in(contents);
    RecordV {
        doc_type: or_empty(scalar_in(es, "type"@)),
        title: or_empty(scalar_in(es, "title"@)),
        description: or_empty(scalar_in(es, "description"@)),
        status: scalar_in(es, "status"@),
        supersedes: scalar_in(es, "supersedes"@),
        superseded_by: scalar_in(es, "superseded_by"@),
        number: record_number(path),
        body: body_of(contents),
        fields: es,
    }
}

/// The keys the canonical serialization writes first, in this order.
pub open spec fn known_keys() -> Seq<Seq<char>> {
    seq![
        "type"@,
        "title"@,
        "description"@,
        "owner"@,
        "status"@,
        "supersedes"@,
        "superseded_by"@,
    ]
}

/// The test an entry keyed `k` passes.
pub open spec fn keyed(k: Seq<char>) -> spec_fn((Seq<char>, Seq<char>)) -> bool {
    |e: (Seq<char>, Seq<char>)| e.0 == k
}

/// The test an entry with none of the known keys passes.
pub open spec fn unknown_key() -> spec_fn((Seq<char>, Seq<char>)) -> bool {
    |e: (Seq<char>, Seq<char>)| !known_keys().contains(e.0)
}

/// The entries keyed `k`, in order.
pub open spec fn with_key(fs: Seq<(Seq<char>, Seq<char>)>, k: Seq<char>) -> Seq<
    (Seq<char>, Seq<char>),
> {
    fs.filter(keyed(k))
}

/// The entries whose key is not one of the known keys, in order.
pub open spec fn unknown_keys(fs: Seq<(Seq<char>, Seq<char>)>) -> Seq<(Seq<char>, Seq<char>)> {
    fs.filter(unknown_key())
}

/// The entries in canonical order: the known keys first, in their fixed
/// order, then every other key in file order.
#[verifier::opaque]
pub open spec fn canonical_fields(fs: Seq<(Seq<char>, Seq<char>)>) -> Seq<(Seq<char>, Seq<char>)> {
    with_key(fs, known_keys()[0]) + with_key(fs, known_keys()[1]) + with_key(fs, known_keys()[2])
        + with_key(fs, known_keys()[3]) + with_key(fs, known_keys()[4]) + with_key(
        fs,
        known_keys()[5],
    ) + with_key(fs, known_keys()[6]) + unknown_keys(fs)
}

/// One canonical frontmatter line, newline included: `key: value`, or
/// `key:` for an empty value.
pub open spec fn field_line(e: (Seq<char>, Seq<char>)) -> Seq<char> {
    if e.1.len() == 0 {
        e.0 + seq![':', '\n']
    } else {
        e.0 + seq![':', ' '] + e.1 + seq!['\n']
    }
}

/// The canonical lines of `fs`, concatenated.
pub open spec fn field_lines(fs: Seq<(Seq<char>, Seq<char>)>) -> Seq<char>
    decreases fs.len(),
{
    if fs.len() == 0 {
        Seq::<char>::empty()
    } else {
        field_lines(fs.drop_last()) + field_line(fs.last())
    }
}

/// The closing fence and the blank line the canonical form puts before the
/// body.
pub open spec fn canonical_gap() -> Seq<char> {
    seq!['-', '-', '-', '\n', '\n']
}

/// The canonical text of a record: its fields in canonical order between
/// the fences, one blank line, then the body.
pub open spec fn canonical(r: RecordV) -> Seq<char> {
    seq!['-', '-', '-', '\n'] + field_lines(canonical_fields(r.fields)) + canonical_gap() + r.body
}

/// The first index from `i` on of an entry keyed `k`.
pub open spec fn index_of_key(fs: Seq<(Seq<char>, Seq<char>)>, k: Seq<char>, i: int) -> Option<int>
    decreases fs.len() - i,
{
    if i < 0 || i >= fs.len() {
        None
    } else if fs[i].0 == k {
        Some(i)
    } else {
        index_of_key(fs, k, i + 1)
    }
}

/// `fs` with the first entry keyed `k` given the value `v`, or with a new
/// `k: v` entry at the end when none is keyed `k`.
pub open spec fn set_field(fs: Seq<(Seq<char>, Seq<char>)>, k: Seq<char>, v: Seq<char>) -> Seq<
    (Seq<char>, Seq<char>),
> {
    match index_of_key(fs, k, 0) {
        Some(i) => fs.update(i, (k, v)),
        None => fs.push((k, v)),
    }
}

// ---------------------------------------------------------------------

fn to_string_opt(o: Option<Vec<char>>) -> (r: Option<String>)
    ensures
        opt_view(r) == match o {
            Some(v) => Some(v@),
            None => None::<Seq<char>>,
        },
{
    match o {
        Some(v) => Some(string_of(&v)),
        None => None,
    }
}

fn to_string_or_empty(o: Option<Vec<char>>) -> (r: String)
    ensures
        r@ == or_empty(
            match o {
                Some(v) => Some(v@),
                None => None::<Seq<char>>,
            },
        ),
{
    match o {
        Some(v) => string_of(&v),
        None => String::new(),
    }
}

/// How many ASCII digits open `s`.
pub fn digit_run_exec(s: &Vec<char>) -> (r: usize)
    ensures
        r as int == digit_run(s@, 0),
        r <= s.len(),
        all_ascii_digits(s@.take(r as int)),
{
    let mut i: usize = 0;
    while i < s.len() && is_ascii_digit_exec(s[i])
        invariant
            i <= s.len(),
            digit_run(s@, 0) == i + digit_run(s@, i as int),
            forall|j: int| 0 <= j < i ==> is_ascii_digit(#[trigger] s@[j]),
        decreases s.len() - i,
    {
        i += 1;
    }
    assert(all_ascii_digits(s@.take(i as int))) by {
        assert forall|j: int| 0 <= j < i implies is_ascii_digit(#[trigger] s@.take(i as int)[j]) by {
            assert(s@.take(i as int)[j] == s@[j]);
        }
    }
    i
}

pub open spec fn pow10(n: nat) -> nat
    decreases n,
{
    if n == 0 {
        1
    } else {
        10 * pow10((n - 1) as nat)
    }
}

pub proof fn lemma_digits_value_bound(s: Seq<char>)
    requires
        all_ascii_digits(s),
    ensures
        digits_value(s) < pow10(s.len()),
    decreases s.len(),
{
    if s.len() > 0 {
        let t = s.drop_last();
        assert(all_ascii_digits(t)) by {
            assert forall|j: int| 0 <= j < t.len() implies is_ascii_digit(#[trigger] t[j]) by {
                assert(t[j] == s[j]);
            }
        }
        lemma_digits_value_bound(t);
        assert(is_ascii_digit(s[s.len() - 1]));
        let d = ((s.last() as u32) - ('0' as u32)) as nat;
        assert(d < 10);
        let a = digits_value(t);
        let b = pow10(t.len());
        assert(a * 10 + d < b * 10) by (nonlinear_arith)
            requires
                a < b,
                d < 10,
        ;
    }
}

proof fn lemma_pow10_le(n: nat)
    requires
        n <= 9,
    ensures
        pow10(n) <= 1_000_000_000,
{
    reveal_with_fuel(pow10, 10);
    assert(pow10(9) == 1_000_000_000);
    lemma_pow10_mono(n, 9);
}

pub proof fn lemma_pow10_mono(a: nat, b: nat)
    requires
        a <= b,
    ensures
        pow10(a) <= pow10(b),
    decreases b,
{
    if a < b {
        lemma_pow10_mono(a, (b - 1) as nat);
    }
}

/// The number a record's filename opens with.
pub fn record_number_exec(path: &Vec<char>) -> (r: Option<i32>)
    ensures
        r matches Some(n) ==> record_number(path@) == Some(n as int),
        r is None ==> record_number(path@) is None,
{
    let name = file_name_or_empty_exec(path);
    let n = digit_run_exec(&name);
    if 1 <= n && n <= 9 {
        let digits = slice(&name, 0, n);
        proof {
            assert(digits@ == name@.take(n as int));
            lemma_digits_value_bound(digits@);
            lemma_pow10_le(n as nat);
        }
        match parse_digits(&digits) {
            Some(v) => {
                if v <= i32::MAX as u64 {
                    Some(v as i32)
                } else {
                    None
                }
            },
            None => None,
        }
    } else {
        None
    }
}

/// Reads the record stored at `path` out of `contents`.
pub fn extract_record(path: &str, contents: &str) -> (r: ExtractedRecord)
    ensures
        r.view() == extracted(path@, contents@),
{
    let c = chars_of(contents);
    let p = chars_of(path);
    let es = entries_exec(&c);
    let mut fields: Vec<(String, String)> = Vec::new();
    let mut i: usize = 0;
    while i < es.len()
        invariant
            i <= es.len(),
            field_views(fields@) == entry_views(es@).take(i as int),
        decreases es.len() - i,
    {
        let k = string_of(&es[i].0);
        let v = string_of(&es[i].1);
        fields.push((k, v));
        i += 1;
        assert(entry_views(es@).take(i as int) == entry_views(es@).take(i - 1).push(
            entry_views(es@)[i - 1],
        ));
    }
    assert(entry_views(es@).take(es.len() as int) == entry_views(es@));
    let doc_type = to_string_or_empty(scalar_in_exec(&es, &chars_of("type")));
    let title = to_string_or_empty(scalar_in_exec(&es, &chars_of("title")));
    let description = to_string_or_empty(scalar_in_exec(&es, &chars_of("description")));
    let status = to_string_opt(scalar_in_exec(&es, &chars_of("status")));
    let supersedes = to_string_opt(scalar_in_exec(&es, &chars_of("supersedes")));
    let superseded_by = to_string_opt(scalar_in_exec(&es, &chars_of("superseded_by")));
    let number = record_number_exec(&p);
    let body = string_of(&body_exec(&c));
    ExtractedRecord {
        doc_type,
        title,
        description,
        status,
        supersedes,
        superseded_by,
        number,
        body,
        fields,
    }
}

/// The entries keyed `k`, in order.
fn with_key_exec(fs: &Vec<(String, String)>, k: &Vec<char>) -> (r: Vec<(String, String)>)
    ensures
        field_views(r@) == with_key(field_views(fs@), k@),
{
    let ghost fv = field_views(fs@);
    let ghost pred = keyed(k@);
    let mut out: Vec<(String, String)> = Vec::new();
    let mut i: usize = 0;
    while i < fs.len()
        invariant
            i <= fs.len(),
            fv == field_views(fs@),
            pred == keyed(k@),
            field_views(out@) == fv.take(i as int).filter(pred),
        decreases fs.len() - i,
    {
        let key = chars_of_string(&fs[i].0);
        proof {
            assert(fv.take(i + 1) == fv.take(i as int).push(fv[i as int]));
            fv.take(i as int).lemma_filter_push(fv[i as int], pred);
        }
        if eq(&key, k) {
            out.push((fs[i].0.clone(), fs[i].1.clone()));
        }
        i += 1;
    }
    assert(fv.take(fs.len() as int) == fv);
    out
}

/// Whether `k` is one of the known keys.
fn is_known_key(k: &Vec<char>) -> (r: bool)
    ensures
        r == known_keys().contains(k@),
{
    let keys = vec![
        chars_of("type"),
        chars_of("title"),
        chars_of("description"),
        chars_of("owner"),
        chars_of("status"),
        chars_of("supersedes"),
        chars_of("superseded_by"),
    ];
    assert(keys@.map_values(|v: Vec<char>| v@) =~= known_keys());
    let mut i: usize = 0;
    while i < keys.len()
        invariant
            i <= keys.len(),
            keys@.map_values(|v: Vec<char>| v@) == known_keys(),
            forall|j: int| 0 <= j < i ==> known_keys()[j] != k@,
        decreases keys.len() - i,
    {
        if eq(&keys[i], k) {
            assert(known_keys()[i as int] == k@);
            return true;
        }
        i += 1;
    }
    false
}

/// The entries with a key other than the known keys.
fn unknown_keys_exec(fs: &Vec<(String, String)>) -> (r: Vec<(String, String)>)
    ensures
        field_views(r@) == unknown_keys(field_views(fs@)),
{
    let ghost fv = field_views(fs@);
    let ghost pred = unknown_key();
    let mut out: Vec<(String, String)> = Vec::new();
    let mut i: usize = 0;
    while i < fs.len()
        invariant
            i <= fs.len(),
            fv == field_views(fs@),
            pred == unknown_key(),
            field_views(out@) == fv.take(i as int).filter(pred),
        decreases fs.len() - i,
    {
        let key = chars_of_string(&fs[i].0);
        proof {
            assert(fv.take(i + 1) == fv.take(i as int).push(fv[i as int]));
            fv.take(i as int).lemma_filter_push(fv[i as int], pred);
        }
        if !is_known_key(&key) {
            out.push((fs[i].0.clone(), fs[i].1.clone()));
        }
        i += 1;
    }
    assert(fv.take(fs.len() as int) == fv);
    out
}

fn append_fields(dst: &mut Vec<(String, String)>, src: Vec<(String, String)>)
    ensures
        field_views(final(dst)@) == field_views(old(dst)@) + field_views(src@),
{
    let ghost start = field_views(dst@);
    let mut i: usize = 0;
    while i < src.len()
        invariant
            i <= src.len(),
            field_views(dst@) == start + field_views(src@).take(i as int),
        decreases src.len() - i,
    {
        let ghost before = dst@;
        let e = (src[i].0.clone(), src[i].1.clone());
        assert(e.0@ == src@[i as int].0@ && e.1@ == src@[i as int].1@);
        dst.push(e);
        assert(field_views(dst@) == field_views(before).push(field_views(src@)[i as int]));
        i += 1;
        assert(field_views(src@).take(i as int) == field_views(src@).take(i - 1).push(
            field_views(src@)[i - 1],
        ));
    }
    assert(field_views(src@).take(src.len() as int) == field_views(src@));
}

/// The entries in canonical order.
pub fn canonical_fields_exec(fs: &Vec<(String, String)>) -> (r: Vec<(String, String)>)
    ensures
        field_views(r@) == canonical_fields(field_views(fs@)),
{
    proof {
        reveal(canonical_fields);
    }
    let mut out: Vec<(String, String)> = Vec::new();
    assert(field_views(out@) =~= Seq::<(Seq<char>, Seq<char>)>::empty());
    let k0 = chars_of("type");
    let k1 = chars_of("title");
    let k2 = chars_of("description");
    let k3 = chars_of("owner");
    let k4 = chars_of("status");
    let k5 = chars_of("supersedes");
    let k6 = chars_of("superseded_by");
    append_fields(&mut out, with_key_exec(fs, &k0));
    append_fields(&mut out, with_key_exec(fs, &k1));
    append_fields(&mut out, with_key_exec(fs, &k2));
    append_fields(&mut out, with_key_exec(fs, &k3));
    append_fields(&mut out, with_key_exec(fs, &k4));
    append_fields(&mut out, with_key_exec(fs, &k5));
    append_fields(&mut out, with_key_exec(fs, &k6));
    append_fields(&mut out, unknown_keys_exec(fs));
    out
}

/// The canonical text of `fs`' lines.
fn field_lines_exec(fs: &Vec<(String, String)>) -> (r: Vec<char>)
    ensures
        r@ == field_lines(field_views(fs@)),
{
    let ghost fv = field_views(fs@);
    let mut out: Vec<char> = Vec::new();
    let mut i: usize = 0;
    while i < fs.len()
        invariant
            i <= fs.len(),
            fv == field_views(fs@),
            out@ == field_lines(fv.take(i as int)),
        decreases fs.len() - i,
    {
        let ghost before = out@;
        let key = chars_of_string(&fs[i].0);
        let value = chars_of_string(&fs[i].1);
        extend(&mut out, &key);
        if value.len() == 0 {
            out.push(':');
            out.push('\n');
        } else {
            out.push(':');
            out.push(' ');
            extend(&mut out, &value);
            out.push('\n');
        }
        proof {
            assert(fv.take(i + 1).drop_last() == fv.take(i as int));
            assert(fv[i as int] == (fs@[i as int].0@, fs@[i as int].1@));
            assert(out@ == before + field_line(fv[i as int]));
        }
        i += 1;
    }
    assert(fv.take(fs.len() as int) == fv);
    out
}

/// The canonical text of a record: fields in canonical order between the
/// fences, one blank line, then the body.
pub fn to_canonical_markdown(record: &ExtractedRecord) -> (r: String)
    ensures
        r@ == canonical(record.view()),
{
    let fields = canonical_fields_exec(&record.fields);
    let mut out = vec!['-', '-', '-', '\n'];
    let lines = field_lines_exec(&fields);
    extend(&mut out, &lines);
    let gap = vec!['-', '-', '-', '\n', '\n'];
    extend(&mut out, &gap);
    extend_str(&mut out, record.body.as_str());
    assert(gap@ == canonical_gap());
    string_of(&out)
}

/// The index of the first entry keyed `k`.
fn index_of_key_exec(fs: &Vec<(String, String)>, k: &Vec<char>) -> (r: Option<usize>)
    ensures
        r matches Some(i) ==> index_of_key(field_views(fs@), k@, 0) == Some(i as int) && i
            < fs.len(),
        r is None ==> index_of_key(field_views(fs@), k@, 0) is None,
{
    let ghost fv = field_views(fs@);
    let mut i: usize = 0;
    while i < fs.len()
        invariant
            i <= fs.len(),
            fv == field_views(fs@),
            index_of_key(fv, k@, 0) == index_of_key(fv, k@, i as int),
        decreases fs.len() - i,
    {
        let key = chars_of_string(&fs[i].0);
        if eq(&key, k) {
            return Some(i);
        }
        i += 1;
    }
    None
}

impl ExtractedRecord {
    /// Gives the first entry keyed `key` the value `value` as written, or
    /// adds a `key: value` entry when the record has none.
    pub fn set_field(&mut self, key: &str, value: &str)
        ensures
            final(self).view() == (RecordV {
                fields: set_field(old(self).view().fields, key@, value@),
                ..old(self).view()
            }),
    {
        let k = chars_of(key);
        let entry = (key.to_string(), value.to_string());
        match index_of_key_exec(&self.fields, &k) {
            Some(i) => {
                self.fields.set(i, entry);
                assert(field_views(self.fields@) =~= field_views(old(self).fields@).update(
                    i as int,
                    (key@, value@),
                ));
            },
            None => {
                self.fields.push(entry);
                assert(field_views(self.fields@) =~= field_views(old(self).fields@).push(
                    (key@, value@),
                ));
            },
        }
    }

    /// Replaces the body.
    pub fn set_body(&mut self, body: String)
        ensures
            final(self).view() == (RecordV { body: body@, ..old(self).view() }),
    {
        self.body = body;
    }
}

} // verus!
