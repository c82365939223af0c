//! Advisory doc-trail inflation signals: make the cost of getting
//! materiality wrong observable before it reaches the corpus. Read-only and
//! never gating — the signature signal is an ADR:BDR pairing ratio near 1.0
//! (records paired by rule, not by need), alongside the supersession count,
//! the recent-ADR count and the stale-`Proposed` count.

use crate::check::liveness::{stale_count, stale_proposed_count};
use crate::commands::effective::{read_records, record_views, records_of};
use crate::frontmatter::{raw_from, scalar_in, scalar_of_raw, scalar_of_raw_exec};
use crate::record::{field_views, ExtractedRecord, RecordV};
use crate::store::{path_views, MapStore};
use crate::text::{
    chars_of, decimal, decimal_exec, extend, extend_str, string_of, chars_of_string, eq_ignore_case, eq_ignore_case_str, eq_str, parse_i64, parse_i64_exec,
    split_char, split_exec, utf8_len, utf8_len_exec, utf8_size,
};
use vstd::prelude::*;

verus! {

/// The days back from the newest record within which an ADR counts as
/// recent.
pub const RECENT_WINDOW_DAYS: i64 = 30;

/// The inflation counts, all derived from the records and the liveness
/// pass; none needs a wall clock (the recency window is measured back from
/// the newest record's own timestamp).
#[derive(Clone, Copy, PartialEq, Eq, Debug)]
pub struct Inflation {
    pub adrs: usize,
    pub adrs_with_matching_bdr: usize,
    pub adrs_recent: usize,
    pub superseded: usize,
    pub proposed_stale: usize,
}

/// The numbers the records of type `doc_type` carry, in order.
pub open spec fn numbers(rs: Seq<RecordV>, doc_type: Seq<char>) -> Seq<int>
    decreases rs.len(),
{
    if rs.len() == 0 {
        Seq::empty()
    } else {
        numbers(rs.drop_last(), doc_type) + match rs.last().number {
            Some(n) => if rs.last().doc_type == doc_type {
                seq![n]
            } else {
                Seq::<int>::empty()
            },
            None => Seq::<int>::empty(),
        }
    }
}

/// `s` with every repeat of an earlier value left out.
pub open spec fn distinct(s: Seq<int>) -> Seq<int>
    decreases s.len(),
{
    if s.len() == 0 {
        Seq::empty()
    } else {
        let d = distinct(s.drop_last());
        if d.contains(s.last()) {
            d
        } else {
            d.push(s.last())
        }
    }
}

/// How many of `a` occur in `b`.
pub open spec fn count_in(a: Seq<int>, b: Seq<int>) -> nat
    decreases a.len(),
{
    if a.len() == 0 {
        0
    } else {
        count_in(a.drop_last(), b) + if b.contains(a.last()) {
            1nat
        } else {
            0nat
        }
    }
}

/// The characters of `s` that fill exactly its first `n` UTF-8 bytes
/// (`str::get(0..n)`), from `k` characters on; `None` when byte `n` does
/// not fall on a character boundary within `s`.
pub open spec fn byte_prefix_from(s: Seq<char>, n: nat, k: int) -> Option<Seq<char>>
    decreases s.len() - k,
{
    if k < 0 || k > s.len() {
        None
    } else if utf8_size(s.take(k)) == n {
        Some(s.take(k))
    } else if utf8_size(s.take(k)) > n || k == s.len() {
        None
    } else {
        byte_prefix_from(s, n, k + 1)
    }
}

/// The characters that fill `n` bytes are at most `n`.
pub(crate) proof fn lemma_byte_prefix_short(s: Seq<char>, n: nat, k: int)
    requires
        0 <= k,
        utf8_size(s.take(k)) >= k || k > s.len(),
    ensures
        byte_prefix_from(s, n, k) matches Some(p) ==> p.len() <= n,
    decreases s.len() - k,
{
    if k <= s.len() && utf8_size(s.take(k)) < n && k < s.len() {
        assert(s.take(k + 1).drop_last() == s.take(k));
        assert(crate::text::utf8_len(s.take(k + 1).last()) >= 1);
        lemma_byte_prefix_short(s, n, k + 1);
    }
}

/// A coarse day number from a `YYYY-MM-DD…` timestamp, good enough to
/// bucket a thirty-day window: `year*372 + month*31 + day`.
pub open spec fn day_of_stamp(stamp: Seq<char>) -> Option<int> {
    match byte_prefix_from(stamp, 10, 0) {
        None => None,
        Some(date) => {
            let parts = split_char(date, '-');
            if parts.len() < 3 {
                None
            } else {
                match (parse_i64(parts[0]), parse_i64(parts[1]), parse_i64(parts[2])) {
                    (Some(y), Some(m), Some(d)) => Some(y * 372 + m * 31 + d),
                    _ => None,
                }
            }
        },
    }
}

/// The day number of a record's `timestamp:`, when it parses.
pub open spec fn day_of(r: RecordV) -> Option<int> {
    match scalar_in(r.fields, "timestamp"@) {
        None => None,
        Some(stamp) => day_of_stamp(stamp),
    }
}

/// The latest day number among `rs`.
pub open spec fn newest_day(rs: Seq<RecordV>) -> Option<int>
    decreases rs.len(),
{
    if rs.len() == 0 {
        None
    } else {
        let rest = newest_day(rs.drop_last());
        match (rest, day_of(rs.last())) {
            (None, d) => d,
            (r, None) => r,
            (Some(a), Some(b)) => Some(
                if a >= b {
                    a
                } else {
                    b
                },
            ),
        }
    }
}

/// How many ADRs of `rs` fall within the window ending at day `newest`.
pub open spec fn recent_count(rs: Seq<RecordV>, newest: int) -> nat
    decreases rs.len(),
{
    if rs.len() == 0 {
        0
    } else {
        recent_count(rs.drop_last(), newest) + if rs.last().doc_type == "ADR"@ && (day_of(
            rs.last(),
        ) matches Some(d) && 0 <= newest - d && newest - d <= RECENT_WINDOW_DAYS) {
            1nat
        } else {
            0nat
        }
    }
}

/// How many of `rs` are `Superseded` (in any ASCII case).
pub open spec fn superseded_count(rs: Seq<RecordV>) -> nat
    decreases rs.len(),
{
    if rs.len() == 0 {
        0
    } else {
        superseded_count(rs.drop_last()) + if rs.last().status matches Some(s) && eq_ignore_case(
            s,
            "superseded"@,
        ) {
            1nat
        } else {
            0nat
        }
    }
}

/// The inflation counts of the bundle under `bundle`.
pub open spec fn inflation_of(store: MapStore, bundle: Seq<char>) -> (int, int, int, int, int) {
    let all = store.listed(bundle);
    let rs = records_of(store, all);
    let adrs = distinct(numbers(rs, "ADR"@));
    (
        adrs.len() as int,
        count_in(adrs, numbers(rs, "BDR"@)) as int,
        match newest_day(rs) {
            Some(n) => recent_count(rs, n) as int,
            None => 0,
        },
        superseded_count(rs) as int,
        stale_count(store, all, bundle, all) as int,
    )
}

fn numbers_of(records: &Vec<ExtractedRecord>, doc_type: &str) -> (r: Vec<i32>)
    ensures
        r@.map_values(|n: i32| n as int) == numbers(record_views(records@), doc_type@),
{
    let ghost rv = record_views(records@);
    let mut out: Vec<i32> = Vec::new();
    let mut i: usize = 0;
    while i < records.len()
        invariant
            i <= records.len(),
            rv == record_views(records@),
            out@.map_values(|n: i32| n as int) == numbers(rv.take(i as int), doc_type@),
        decreases records.len() - i,
    {
        proof {
            assert(rv.take(i + 1).drop_last() == rv.take(i as int));
            assert(rv.take(i + 1).last() == records@[i as int].view());
        }
        let ghost before = out@.map_values(|n: i32| n as int);
        match records[i].number {
            Some(n) => {
                if eq_str(&chars_of_string(&records[i].doc_type), doc_type) {
                    out.push(n);
                    assert(out@.map_values(|n: i32| n as int) =~= before.push(n as int));
                } else {
                    assert(before + Seq::<int>::empty() == before);
                }
            },
            None => {
                assert(before + Seq::<int>::empty() == before);
            },
        }
        i += 1;
    }
    assert(rv.take(records.len() as int) == rv);
    out
}

fn contains_i32(v: &Vec<i32>, n: i32) -> (r: bool)
    ensures
        r == v@.map_values(|x: i32| x as int).contains(n as int),
{
    let ghost vv = v@.map_values(|x: i32| x as int);
    let mut i: usize = 0;
    while i < v.len()
        invariant
            i <= v.len(),
            vv == v@.map_values(|x: i32| x as int),
            forall|j: int| 0 <= j < i ==> vv[j] != n as int,
        decreases v.len() - i,
    {
        if v[i] == n {
            assert(vv[i as int] == n as int);
            return true;
        }
        i += 1;
    }
    false
}

fn distinct_exec(v: &Vec<i32>) -> (r: Vec<i32>)
    ensures
        r@.map_values(|n: i32| n as int) == distinct(v@.map_values(|n: i32| n as int)),
{
    let ghost vv = v@.map_values(|n: i32| n as int);
    let mut out: Vec<i32> = Vec::new();
    let mut i: usize = 0;
    while i < v.len()
        invariant
            i <= v.len(),
            vv == v@.map_values(|n: i32| n as int),
            out@.map_values(|n: i32| n as int) == distinct(vv.take(i as int)),
        decreases v.len() - i,
    {
        proof {
            assert(vv.take(i + 1).drop_last() == vv.take(i as int));
            assert(vv.take(i + 1).last() == v@[i as int] as int);
        }
        if !contains_i32(&out, v[i]) {
            let ghost before = out@.map_values(|n: i32| n as int);
            out.push(v[i]);
            assert(out@.map_values(|n: i32| n as int) =~= before.push(v@[i as int] as int));
        }
        i += 1;
    }
    assert(vv.take(v.len() as int) == vv);
    out
}

/// The characters that fill exactly the first `n` UTF-8 bytes of `s`.
pub(crate) fn byte_prefix(s: &Vec<char>, n: usize) -> (r: Option<Vec<char>>)
    ensures
        r matches Some(p) ==> byte_prefix_from(s@, n as nat, 0) == Some(p@),
        r is None ==> byte_prefix_from(s@, n as nat, 0) is None,
{
    let mut k: usize = 0;
    let mut size: usize = 0;
    assert(s@.take(0) =~= Seq::<char>::empty());
    loop
        invariant
            k <= s.len(),
            size == utf8_size(s@.take(k as int)),
            size <= n,
            byte_prefix_from(s@, n as nat, 0) == byte_prefix_from(s@, n as nat, k as int),
        decreases s.len() - k,
    {
        if size == n {
            return Some(crate::text::slice(s, 0, k));
        }
        if k == s.len() {
            return None;
        }
        let w = utf8_len_exec(s[k]);
        assert(s@.take(k + 1).drop_last() == s@.take(k as int));
        if w > n - size {
            assert(utf8_size(s@.take(k + 1)) > n);
            assert(byte_prefix_from(s@, n as nat, k + 1) is None);
            return None;
        }
        size = size + w;
        k += 1;
    }
}

fn day_number(r: &ExtractedRecord) -> (d: Option<i128>)
    ensures
        match d {
            Some(x) => day_of(r.view()) == Some(x as int),
            None => day_of(r.view()) is None,
        },
        d matches Some(x) ==> -0x1_0000_0000_0000_0000_0000 < x < 0x1_0000_0000_0000_0000_0000,
{
    let ghost es = field_views(r.fields@);
    let ghost key = "timestamp"@;
    let mut i: usize = 0;
    let mut raw: Option<Vec<char>> = None;
    while i < r.fields.len()
        invariant_except_break
            raw is None,
        invariant
            i <= r.fields.len(),
            es == field_views(r.fields@),
            key == "timestamp"@,
            raw_from(es, key, 0) == raw_from(es, key, i as int),
        ensures
            raw matches Some(v) ==> raw_from(es, key, 0) == Some(v@),
            raw is None ==> raw_from(es, key, 0) is None,
        decreases r.fields.len() - i,
    {
        assert(es[i as int] == (r.fields@[i as int].0@, r.fields@[i as int].1@));
        if eq_str(&chars_of_string(&r.fields[i].0), "timestamp") {
            raw = Some(chars_of_string(&r.fields[i].1));
            break;
        }
        i += 1;
    }
    let stamp = match raw {
        None => {
            assert(raw_from(es, key, 0) is None);
            return None;
        },
        Some(v) => {
            assert(raw_from(es, key, 0) == Some(v@));
            let s = scalar_of_raw_exec(&v);
            if s.len() == 0 {
                return None;
            }
            s
        },
    };
    let date = match byte_prefix(&stamp, 10) {
        Some(d) => d,
        None => return None,
    };
    let parts = split_exec(&date, '-');
    if parts.len() < 3 {
        return None;
    }
    let ghost pv = parts@.map_values(|v: Vec<char>| v@);
    assert(pv[0] == parts@[0]@ && pv[1] == parts@[1]@ && pv[2] == parts@[2]@);
    let y = match parse_i64_exec(&parts[0]) {
        Some(y) => y,
        None => return None,
    };
    let m = match parse_i64_exec(&parts[1]) {
        Some(m) => m,
        None => return None,
    };
    let d = match parse_i64_exec(&parts[2]) {
        Some(d) => d,
        None => return None,
    };
    Some((y as i128) * 372 + (m as i128) * 31 + (d as i128))
}

/// Whether `record`'s status is `Superseded`, in any ASCII case.
fn is_superseded(record: &ExtractedRecord) -> (r: bool)
    ensures
        r == (record.view().status matches Some(s) && eq_ignore_case(s, "superseded"@)),
{
    match &record.status {
        Some(s) => eq_ignore_case_str(&chars_of_string(s), "superseded"),
        None => false,
    }
}

/// How many ADRs of `records` fall within the window ending at the newest
/// record's day; zero when no day parses.
fn recent_adr_count(records: &Vec<ExtractedRecord>, newest: Option<i128>) -> (r: usize)
    requires
        newest matches Some(n) ==> -0x1_0000_0000_0000_0000_0000 < n < 0x1_0000_0000_0000_0000_0000,
    ensures
        r == match newest {
            Some(n) => recent_count(record_views(records@), n as int) as int,
            None => 0,
        },
{
    let n = match newest {
        Some(n) => n,
        None => return 0,
    };
    let ghost rv = record_views(records@);
    let mut recent: usize = 0;
    let mut j: usize = 0;
    while j < records.len()
        invariant
            j <= records.len(),
            rv == record_views(records@),
            recent == recent_count(rv.take(j as int), n as int),
            recent <= j,
            -0x1_0000_0000_0000_0000_0000 < n < 0x1_0000_0000_0000_0000_0000,
        decreases records.len() - j,
    {
        proof {
            assert(rv.take(j + 1).drop_last() == rv.take(j as int));
            assert(rv.take(j + 1).last() == records@[j as int].view());
        }
        if eq_str(&chars_of_string(&records[j].doc_type), "ADR") {
            match day_number(&records[j]) {
                Some(d) => {
                    if 0 <= n - d && n - d <= 30 {
                        recent += 1;
                    }
                },
                None => {},
            }
        }
        j += 1;
    }
    assert(rv.take(records.len() as int) == rv);
    recent
}

/// The inflation counts of the bundle under `bundle`.
pub fn compute(store: &MapStore, bundle: &String) -> (r: Inflation)
    ensures
        inflation_of(*store, bundle@) == (
            r.adrs as int,
            r.adrs_with_matching_bdr as int,
            r.adrs_recent as int,
            r.superseded as int,
            r.proposed_stale as int,
        ),
{
    let all_md = store.list(bundle);
    let records = read_records(store, &all_md);
    let ghost rv = record_views(records@);
    let adr_numbers = distinct_exec(&numbers_of(&records, "ADR"));
    let bdr_numbers = numbers_of(&records, "BDR");
    let ghost av = adr_numbers@.map_values(|n: i32| n as int);
    let ghost bv = bdr_numbers@.map_values(|n: i32| n as int);
    let mut matching: usize = 0;
    let mut i: usize = 0;
    while i < adr_numbers.len()
        invariant
            i <= adr_numbers.len(),
            av == adr_numbers@.map_values(|n: i32| n as int),
            bv == bdr_numbers@.map_values(|n: i32| n as int),
            matching == count_in(av.take(i as int), bv),
            matching <= i,
        decreases adr_numbers.len() - i,
    {
        proof {
            assert(av.take(i + 1).drop_last() == av.take(i as int));
            assert(av.take(i + 1).last() == adr_numbers@[i as int] as int);
        }
        if contains_i32(&bdr_numbers, adr_numbers[i]) {
            matching += 1;
        }
        i += 1;
    }
    assert(av.take(adr_numbers.len() as int) == av);
    let mut newest: Option<i128> = None;
    let mut superseded: usize = 0;
    let mut k: usize = 0;
    while k < records.len()
        invariant
            k <= records.len(),
            rv == record_views(records@),
            match newest {
                Some(x) => newest_day(rv.take(k as int)) == Some(x as int),
                None => newest_day(rv.take(k as int)) is None,
            },
            newest matches Some(x) ==> -0x1_0000_0000_0000_0000_0000 < x < 0x1_0000_0000_0000_0000_0000,
            superseded == superseded_count(rv.take(k as int)),
            superseded <= k,
        decreases records.len() - k,
    {
        proof {
            assert(rv.take(k + 1).drop_last() == rv.take(k as int));
            assert(rv.take(k + 1).last() == records@[k as int].view());
        }
        let day = day_number(&records[k]);
        newest = match (newest, day) {
            (None, d) => d,
            (n, None) => n,
            (Some(a), Some(b)) => Some(
                if a >= b {
                    a
                } else {
                    b
                },
            ),
        };
        if is_superseded(&records[k]) {
            superseded += 1;
        }
        k += 1;
    }
    assert(rv.take(records.len() as int) == rv);
    let recent = recent_adr_count(&records, newest);
    Inflation {
        adrs: adr_numbers.len(),
        adrs_with_matching_bdr: matching,
        adrs_recent: recent,
        superseded,
        proposed_stale: stale_proposed_count(store, bundle, &all_md),
    }
}


/// The advisory line naming every signal; `pairing` is the ADR:BDR pairing
/// ratio as displayed (two decimals, or `n/a` without any ADR).
pub open spec fn inflation_line(i: Inflation, pairing: Seq<char>) -> Seq<char> {
    "inflation — "@ + decimal(i.adrs as nat) + " ADRs ("@ + decimal(i.adrs_recent as nat)
        + " in last 30d), ADR:BDR pairing "@ + pairing + ", "@ + decimal(i.superseded as nat)
        + " superseded, "@ + decimal(i.proposed_stale as nat) + " proposed-stale"@
}

/// The advisory inflation line, with the pairing ratio as displayed.
pub fn render_line(inflation: &Inflation, pairing: &str) -> (r: String)
    ensures
        r@ == inflation_line(*inflation, pairing@),
{
    let mut l = chars_of("inflation — ");
    extend(&mut l, &decimal_exec(inflation.adrs as u64));
    extend_str(&mut l, " ADRs (");
    extend(&mut l, &decimal_exec(inflation.adrs_recent as u64));
    extend_str(&mut l, " in last 30d), ADR:BDR pairing ");
    extend_str(&mut l, pairing);
    extend_str(&mut l, ", ");
    extend(&mut l, &decimal_exec(inflation.superseded as u64));
    extend_str(&mut l, " superseded, ");
    extend(&mut l, &decimal_exec(inflation.proposed_stale as u64));
    extend_str(&mut l, " proposed-stale");
    string_of(&l)
}

} // verus!
