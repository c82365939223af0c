//! `living-docs effective`: compiles the agent-facing view of the bundle —
//! records in force only, supersede chains collapsed to the head with a
//! one-line lineage, ranked constitution first, then PRDs, then contracts
//! above narrative. Derived, never committed: the records stay the single
//! source of truth.

pub mod render;

use crate::check::liveness::{is_stale_proposed, stale_proposed};
use crate::check::records::reserved;
use crate::path::{file_name_or_empty, file_name_or_empty_exec};
use crate::record::{extract_record, extracted, opt_view, ExtractedRecord, RecordV};
use crate::store::{path_views, MapStore};
use crate::text::{
    chars_of, chars_of_string, contains, contains_exec, contains_str, eq, eq_ignore_case,
    eq_ignore_case_str, extend, extend_str, join, lowercase, lowercase_exec, pad4_signed,
    parse_i32, string_of, trim,
};
use render::{render, rendered, views_of};
use vstd::prelude::*;

verus! {

/// Everything `effective` needs from the command-line front.
pub struct Options {
    pub topic: Option<String>,
    pub full: bool,
}

/// One record that survived selection, flattened to what the renderer
/// needs.
pub struct Entry {
    pub doc_type: String,
    pub number: Option<i32>,
    pub title: String,
    pub description: String,
    pub body: String,
    pub is_contract: bool,
    pub lineage: Option<String>,
}

/// The mathematical form of an [`Entry`].
pub struct EntryV {
    pub doc_type: Seq<char>,
    pub number: Option<int>,
    pub title: Seq<char>,
    pub description: Seq<char>,
    pub body: Seq<char>,
    pub is_contract: bool,
    pub lineage: Option<Seq<char>>,
}

impl Entry {
    pub open spec fn view(&self) -> EntryV {
        EntryV {
            doc_type: self.doc_type@,
            number: match self.number {
                Some(n) => Some(n as int),
                None => None,
            },
            title: self.title@,
            description: self.description@,
            body: self.body@,
            is_contract: self.is_contract,
            lineage: match self.lineage {
                Some(l) => Some(l@),
                None => None,
            },
        }
    }
}

/// The typed records among `ps`, in order: reserved files, unreadable
/// paths and records without a `type:` are left out.
pub open spec fn records_of(store: MapStore, ps: Seq<Seq<char>>) -> Seq<RecordV>
    decreases ps.len(),
{
    if ps.len() == 0 {
        Seq::empty()
    } else {
        let rest = records_of(store, ps.drop_last());
        let p = ps.last();
        if reserved(file_name_or_empty(p)) {
            rest
        } else {
            match store.get(p) {
                None => rest,
                Some(c) => if extracted(p, c).doc_type.len() == 0 {
                    rest
                } else {
                    rest.push(extracted(p, c))
                },
            }
        }
    }
}

pub open spec fn record_views(v: Seq<ExtractedRecord>) -> Seq<RecordV> {
    v.map_values(|r: ExtractedRecord| r.view())
}

/// The typed records stored at `paths`.
pub fn read_records(store: &MapStore, paths: &Vec<String>) -> (r: Vec<ExtractedRecord>)
    ensures
        record_views(r@) == records_of(*store, path_views(paths@)),
{
    let ghost ps = path_views(paths@);
    let mut out: Vec<ExtractedRecord> = Vec::new();
    let mut i: usize = 0;
    while i < paths.len()
        invariant
            i <= paths.len(),
            ps == path_views(paths@),
            record_views(out@) == records_of(*store, ps.take(i as int)),
        decreases paths.len() - i,
    {
        proof {
            assert(ps.take(i + 1).drop_last() == ps.take(i as int));
            assert(ps.take(i + 1).last() == paths@[i as int]@);
        }
        let name = file_name_or_empty_exec(&chars_of_string(&paths[i]));
        let is_reserved = crate::text::eq_str(&name, "index.md") || crate::text::eq_str(
            &name,
            "log.md",
        );
        if !is_reserved {
            match store.read(&paths[i]) {
                Some(c) => {
                    let rec = extract_record(paths[i].as_str(), c.as_str());
                    if chars_of_string(&rec.doc_type).len() > 0 {
                        proof {
                            assert(rec.view().doc_type.len() > 0);
                        }
                        let ghost before = record_views(out@);
                        out.push(rec);
                        assert(record_views(out@) =~= before.push(out@.last().view()));
                    } else {
                        assert(rec.view().doc_type.len() == 0);
                    }
                },
                None => {},
            }
        }
        i += 1;
    }
    assert(ps.take(paths.len() as int) == ps);
    out
}

/// A record is in force unless its status is `Superseded` or `Deprecated`
/// (in any ASCII case).
pub open spec fn in_force(r: RecordV) -> bool {
    !(r.status matches Some(s) && (eq_ignore_case(s, "superseded"@) || eq_ignore_case(
        s,
        "deprecated"@,
    )))
}

fn is_in_force(status: &Option<String>) -> (r: bool)
    ensures
        r == !(crate::record::opt_view(*status) matches Some(s) && (eq_ignore_case(
            s,
            "superseded"@,
        ) || eq_ignore_case(s, "deprecated"@))),
{
    match status {
        Some(s) => {
            let c = chars_of_string(s);
            !(eq_ignore_case_str(&c, "superseded") || eq_ignore_case_str(&c, "deprecated"))
        },
        None => true,
    }
}

/// A record matches a topic when its lowercased title, description or body
/// holds the lowercased topic; every record matches no topic.
pub open spec fn topic_matches(r: RecordV, topic: Option<Seq<char>>) -> bool {
    match topic {
        None => true,
        Some(t) => {
            let needle = lowercase(t);
            contains(lowercase(r.title), needle) || contains(lowercase(r.description), needle)
                || contains(lowercase(r.body), needle)
        },
    }
}

fn matches_topic(r: &ExtractedRecord, topic: &Option<String>) -> (b: bool)
    ensures
        b == topic_matches(
            r.view(),
            opt_view(*topic),
        ),
{
    match topic {
        None => true,
        Some(t) => {
            let needle = lowercase_exec(&chars_of_string(t));
            contains_exec(&lowercase_exec(&chars_of_string(&r.title)), &needle)
                || contains_exec(&lowercase_exec(&chars_of_string(&r.description)), &needle)
                || contains_exec(&lowercase_exec(&chars_of_string(&r.body)), &needle)
        },
    }
}

/// The last of `rs` of type `doc_type` numbered `n`.
pub open spec fn keyed(rs: Seq<RecordV>, doc_type: Seq<char>, n: int) -> Option<RecordV>
    decreases rs.len(),
{
    if rs.len() == 0 {
        None
    } else if rs.last().doc_type == doc_type && rs.last().number == Some(n) {
        Some(rs.last())
    } else {
        keyed(rs.drop_last(), doc_type, n)
    }
}

/// The `supersedes` of the record keyed `(doc_type, n)`.
pub open spec fn ancestor_link(rs: Seq<RecordV>, doc_type: Seq<char>, n: int) -> Option<Seq<char>> {
    match keyed(rs, doc_type, n) {
        Some(r) => r.supersedes,
        None => None,
    }
}

/// How many of `rs` of type `doc_type` carry a number whose zero-padded
/// form `chain` does not hold yet.
pub open spec fn unwalked(rs: Seq<RecordV>, doc_type: Seq<char>, chain: Seq<Seq<char>>) -> nat
    decreases rs.len(),
{
    if rs.len() == 0 {
        0
    } else {
        unwalked(rs.drop_last(), doc_type, chain) + if rs.last().doc_type == doc_type && (
        rs.last().number matches Some(m) && !chain.contains(pad4_signed(m))) {
            1nat
        } else {
            0nat
        }
    }
}

/// Walking one more number never adds to what is left to walk, and takes
/// away the record it names.
pub proof fn lemma_unwalked_push(rs: Seq<RecordV>, doc_type: Seq<char>, chain: Seq<Seq<char>>, n: int)
    requires
        !chain.contains(pad4_signed(n)),
    ensures
        unwalked(rs, doc_type, chain.push(pad4_signed(n))) <= unwalked(rs, doc_type, chain),
        keyed(rs, doc_type, n) is Some ==> unwalked(rs, doc_type, chain.push(pad4_signed(n)))
            < unwalked(rs, doc_type, chain),
    decreases rs.len(),
{
    if rs.len() > 0 {
        let c2 = chain.push(pad4_signed(n));
        lemma_unwalked_push(rs.drop_last(), doc_type, chain, n);
        if let Some(m) = rs.last().number {
            if c2.contains(pad4_signed(m)) && !chain.contains(pad4_signed(m)) {
            } else if chain.contains(pad4_signed(m)) {
                let k = choose|k: int| 0 <= k < chain.len() && chain[k] == pad4_signed(m);
                assert(c2[k] == pad4_signed(m));
            } else {
                assert(!c2.contains(pad4_signed(m)));
            }
            if rs.last().doc_type == doc_type && m == n {
                assert(c2[chain.len() as int] == pad4_signed(n));
            }
        }
    }
}

/// The measure that bounds a walk: twice what is left to walk, plus one
/// while a link is pending.
pub open spec fn walk_measure(rs: Seq<RecordV>, doc_type: Seq<char>, current: Option<Seq<char>>, chain: Seq<Seq<char>>) -> nat {
    2 * unwalked(rs, doc_type, chain) + if current is Some {
        1nat
    } else {
        0nat
    }
}

/// The walk along `supersedes` links from `current`: each step records the
/// zero-padded number and follows the link of the record of that type and
/// number (the last one read); an unparsable link, a missing record or a
/// number already walked ends it.
pub open spec fn chain_walk(
    rs: Seq<RecordV>,
    doc_type: Seq<char>,
    current: Option<Seq<char>>,
    chain: Seq<Seq<char>>,
) -> Seq<Seq<char>>
    decreases walk_measure(rs, doc_type, current, chain),
{
    match current {
        None => chain,
        Some(s) => match parse_i32(trim(s)) {
            None => chain,
            Some(n) => {
                let p = pad4_signed(n as int);
                if chain.contains(p) {
                    chain
                } else {
                    proof {
                        lemma_unwalked_push(rs, doc_type, chain, n as int);
                    }
                    chain_walk(rs, doc_type, ancestor_link(rs, doc_type, n as int), chain.push(p))
                }
            },
        },
    }
}

/// The numbers a record supersedes, direct first.
pub open spec fn chain_of(r: RecordV, rs: Seq<RecordV>) -> Seq<Seq<char>> {
    chain_walk(rs, r.doc_type, r.supersedes, Seq::empty())
}

fn find_keyed(all: &Vec<ExtractedRecord>, doc_type: &String, n: i32) -> (r: Option<Option<String>>)
    ensures
        r matches Some(l) ==> keyed(record_views(all@), doc_type@, n as int) matches Some(x) && x.supersedes == crate::record::opt_view(l),
        r is None ==> keyed(record_views(all@), doc_type@, n as int) is None,
{
    let ghost rv = record_views(all@);
    let dt = chars_of_string(doc_type);
    let mut i = all.len();
    assert(rv.take(i as int) == rv);
    while i > 0
        invariant
            i <= all.len(),
            rv == record_views(all@),
            dt@ == doc_type@,
            keyed(rv, doc_type@, n as int) == keyed(rv.take(i as int), doc_type@, n as int),
        decreases i,
    {
        let k = i - 1;
        assert(rv.take(i as int).last() == all@[k as int].view());
        assert(rv.take(i as int).drop_last() == rv.take(k as int));
        let same_type = eq(&chars_of_string(&all[k].doc_type), &dt);
        let same_number = match all[k].number {
            Some(m) => m == n,
            None => false,
        };
        if same_type && same_number {
            return Some(all[k].supersedes.clone());
        }
        i = k;
    }
    None
}

/// Walks `supersedes` from a record through every record read, returning
/// the zero-padded numbers it supersedes, direct first.
pub fn supersede_chain(record: &ExtractedRecord, all: &Vec<ExtractedRecord>) -> (r: Vec<Vec<char>>)
    ensures
        r@.map_values(|v: Vec<char>| v@) == chain_of(record.view(), record_views(all@)),
{
    let ghost rv = record_views(all@);
    let mut chain: Vec<Vec<char>> = Vec::new();
    let mut current: Option<String> = match &record.supersedes {
        Some(s) => Some(s.clone()),
        None => None,
    };
    assert(chain@.map_values(|v: Vec<char>| v@) =~= Seq::<Seq<char>>::empty());
    loop
        invariant
            rv == record_views(all@),
            chain_walk(
                rv,
                record.view().doc_type,
                crate::record::opt_view(current),
                chain@.map_values(|v: Vec<char>| v@),
            ) == chain_of(record.view(), rv),
        ensures
            chain@.map_values(|v: Vec<char>| v@) == chain_of(record.view(), rv),
        decreases walk_measure(
            rv,
            record.view().doc_type,
            crate::record::opt_view(current),
            chain@.map_values(|v: Vec<char>| v@),
        ),
    {
        let ghost cv = chain@.map_values(|v: Vec<char>| v@);
        let n = match &current {
            None => break,
            Some(s) => match crate::text::parse_i32_exec(&crate::text::trim_exec(&chars_of_string(s))) {
                None => break,
                Some(n) => n,
            },
        };
        let p = crate::text::pad4_signed_exec(n);
        let mut seen = false;
        let mut j: usize = 0;
        while j < chain.len()
            invariant
                j <= chain.len(),
                cv == chain@.map_values(|v: Vec<char>| v@),
                seen == cv.take(j as int).contains(p@),
            decreases chain.len() - j,
        {
            let ghost t0 = cv.take(j as int);
            let ghost t1 = cv.take(j + 1);
            assert(t1 == t0.push(cv[j as int]));
            proof {
                if t1.contains(p@) {
                    let k = choose|k: int| 0 <= k < t1.len() && t1[k] == p@;
                    if k < t0.len() {
                        assert(t0[k] == p@);
                    }
                }
                if t0.contains(p@) {
                    let k = choose|k: int| 0 <= k < t0.len() && t0[k] == p@;
                    assert(t1[k] == p@);
                }
                assert(t1[j as int] == cv[j as int]);
            }
            if eq(&chain[j], &p) {
                seen = true;
            }
            j += 1;
        }
        assert(cv.take(chain.len() as int) == cv);
        if seen {
            break;
        }
        proof {
            lemma_unwalked_push(rv, record.view().doc_type, cv, n as int);
        }
        chain.push(p);
        assert(chain@.map_values(|v: Vec<char>| v@) =~= cv.push(pad4_signed(n as int)));
        current = match find_keyed(all, &record.doc_type, n) {
            Some(l) => l,
            None => None,
        };
    }
    chain
}

/// The lineage line of a head record: `supersedes 0131 via 0133` for the
/// chain `0131 → 0133 → head`, `supersedes 0133` for a single ancestor,
/// none for a record that supersedes nothing.
pub open spec fn lineage_text(chain: Seq<Seq<char>>) -> Option<Seq<char>> {
    if chain.len() == 0 {
        None
    } else if chain.len() == 1 {
        Some("supersedes "@ + chain[0])
    } else {
        Some("supersedes "@ + chain.last() + " via "@ + join(chain.drop_last(), ", "@))
    }
}

fn lineage_of(record: &ExtractedRecord, all: &Vec<ExtractedRecord>) -> (r: Option<String>)
    ensures
        r matches Some(l) ==> lineage_text(chain_of(record.view(), record_views(all@))) == Some(l@),
        r is None ==> lineage_text(chain_of(record.view(), record_views(all@))) is None,
{
    let chain = supersede_chain(record, all);
    let ghost cv = chain@.map_values(|v: Vec<char>| v@);
    if chain.len() == 0 {
        return None;
    }
    let mut l = chars_of("supersedes ");
    extend(&mut l, &chain[chain.len() - 1]);
    if chain.len() > 1 {
        let mut middle = chain;
        let last = middle.pop();
        assert(middle@.map_values(|v: Vec<char>| v@) =~= cv.drop_last());
        extend_str(&mut l, " via ");
        extend(&mut l, &crate::text::join_exec(&middle, &chars_of(", ")));
    }
    Some(string_of(&l))
}

/// The entry a selected record shows.
pub open spec fn entry_of(r: RecordV, rs: Seq<RecordV>) -> EntryV {
    EntryV {
        doc_type: r.doc_type,
        number: r.number,
        title: r.title,
        description: r.description,
        body: r.body,
        is_contract: contains(r.body, "## Verification"@),
        lineage: lineage_text(chain_of(r, rs)),
    }
}

/// The entry `record` shows, its lineage walked through `all`.
fn view_of(record: &ExtractedRecord, all: &Vec<ExtractedRecord>) -> (r: Entry)
    ensures
        r.view() == entry_of(record.view(), record_views(all@)),
{
    Entry {
        doc_type: record.doc_type.clone(),
        number: record.number,
        title: record.title.clone(),
        description: record.description.clone(),
        body: record.body.clone(),
        is_contract: contains_str(&chars_of_string(&record.body), "## Verification"),
        lineage: lineage_of(record, all),
    }
}

/// The rank group of a type: the constitution, then PRDs, then the rest.
pub open spec fn group_of(doc_type: Seq<char>) -> int {
    if doc_type == "Constitution"@ {
        0
    } else if doc_type == "PRD"@ {
        1
    } else {
        2
    }
}

/// Whether `a` ranks no later than `b`: by group, then contracts above
/// narrative, then by number (a record without one last).
pub open spec fn ranks_le(a: EntryV, b: EntryV) -> bool {
    let ka = (group_of(a.doc_type), if a.is_contract { 0int } else { 1int }, match a.number {
        Some(n) => n,
        None => i32::MAX as int,
    });
    let kb = (group_of(b.doc_type), if b.is_contract { 0int } else { 1int }, match b.number {
        Some(n) => n,
        None => i32::MAX as int,
    });
    ka.0 < kb.0 || (ka.0 == kb.0 && (ka.1 < kb.1 || (ka.1 == kb.1 && ka.2 <= kb.2)))
}

/// Where a stable insertion puts `v` among the sorted `s`, looking from
/// `i`: after every view that ranks no later than it.
pub open spec fn rank_insert_at(s: Seq<EntryV>, v: EntryV, i: int) -> int
    decreases s.len() - i,
{
    if i < 0 || i >= s.len() {
        s.len() as int
    } else if ranks_le(s[i], v) {
        rank_insert_at(s, v, i + 1)
    } else {
        i
    }
}

proof fn lemma_rank_insert_at_bound(s: Seq<EntryV>, v: EntryV, i: int)
    requires
        0 <= i <= s.len(),
    ensures
        i <= rank_insert_at(s, v, i) <= s.len(),
    decreases s.len() - i,
{
    if i < s.len() && ranks_le(s[i], v) {
        lemma_rank_insert_at_bound(s, v, i + 1);
    }
}

/// `vs` stably sorted by rank (`sort_by_key`).
pub open spec fn ranked(vs: Seq<EntryV>) -> Seq<EntryV>
    decreases vs.len(),
{
    if vs.len() == 0 {
        Seq::empty()
    } else {
        let s = ranked(vs.drop_last());
        s.insert(rank_insert_at(s, vs.last(), 0), vs.last())
    }
}

fn rank_group(doc_type: &String) -> (r: u8)
    ensures
        r as int == group_of(doc_type@),
{
    let d = chars_of_string(doc_type);
    if crate::text::eq_str(&d, "Constitution") {
        0
    } else if crate::text::eq_str(&d, "PRD") {
        1
    } else {
        2
    }
}

fn rank_le(a: &Entry, b: &Entry) -> (r: bool)
    ensures
        r == ranks_le(a.view(), b.view()),
{
    let ga = rank_group(&a.doc_type);
    let gb = rank_group(&b.doc_type);
    let ca: u8 = if a.is_contract { 0 } else { 1 };
    let cb: u8 = if b.is_contract { 0 } else { 1 };
    let na: i32 = match a.number {
        Some(n) => n,
        None => i32::MAX,
    };
    let nb: i32 = match b.number {
        Some(n) => n,
        None => i32::MAX,
    };
    ga < gb || (ga == gb && (ca < cb || (ca == cb && na <= nb)))
}

fn insert_ranked(sorted: &mut Vec<Entry>, v: Entry)
    ensures
        views_of(final(sorted)@) == views_of(old(sorted)@).insert(
            rank_insert_at(views_of(old(sorted)@), v.view(), 0),
            v.view(),
        ),
{
    let ghost sv = views_of(sorted@);
    let mut i: usize = 0;
    while i < sorted.len() && rank_le(&sorted[i], &v)
        invariant
            i <= sorted.len(),
            sv == views_of(sorted@),
            rank_insert_at(sv, v.view(), 0) == rank_insert_at(sv, v.view(), i as int),
        decreases sorted.len() - i,
    {
        assert(sv[i as int] == sorted@[i as int].view());
        i += 1;
    }
    if i < sorted.len() {
        assert(sv[i as int] == sorted@[i as int].view());
    }
    let ghost vv = v.view();
    sorted.insert(i, v);
    assert(views_of(sorted@) =~= sv.insert(i as int, vv));
}

/// The views of the records selected from `rs`: in force and matching the
/// topic, in record order.
pub open spec fn selected(rs: Seq<RecordV>, all: Seq<RecordV>, topic: Option<Seq<char>>) -> Seq<EntryV>
    decreases rs.len(),
{
    if rs.len() == 0 {
        Seq::empty()
    } else {
        let rest = selected(rs.drop_last(), all, topic);
        if in_force(rs.last()) && topic_matches(rs.last(), topic) {
            rest.push(entry_of(rs.last(), all))
        } else {
            rest
        }
    }
}

/// How many of `rs` are not in force.
pub open spec fn retired_count(rs: Seq<RecordV>) -> nat
    decreases rs.len(),
{
    if rs.len() == 0 {
        0
    } else {
        retired_count(rs.drop_last()) + if in_force(rs.last()) {
            0nat
        } else {
            1nat
        }
    }
}

/// The paths among `ps` that are not stale proposals (ADRs at their seed
/// status linking an issue that is closed), in order.
pub open spec fn fresh_paths(store: MapStore, bundle: Seq<char>, all: Seq<Seq<char>>, ps: Seq<Seq<char>>) -> Seq<
    Seq<char>,
>
    decreases ps.len(),
{
    if ps.len() == 0 {
        Seq::empty()
    } else {
        let rest = fresh_paths(store, bundle, all, ps.drop_last());
        if stale_proposed(store, ps.last(), bundle, all) {
            rest
        } else {
            rest.push(ps.last())
        }
    }
}

/// The effective view of the bundle under `bundle`: stale proposals are
/// left out unless `include_stale`, and the withheld count counts every
/// retired record.
pub open spec fn compiled(
    store: MapStore,
    bundle: Seq<char>,
    topic: Option<Seq<char>>,
    full: bool,
    include_stale: bool,
) -> Seq<char> {
    let ps = store.listed(bundle);
    let rs = records_of(store, ps);
    let candidates = if include_stale {
        rs
    } else {
        records_of(store, fresh_paths(store, bundle, ps, ps))
    };
    rendered(ranked(selected(candidates, rs, topic)), full, retired_count(rs))
}

/// The paths among `paths` that are no stale proposal.
fn fresh_paths_exec(store: &MapStore, bundle: &String, paths: &Vec<String>) -> (r: Vec<String>)
    ensures
        path_views(r@) == fresh_paths(*store, bundle@, path_views(paths@), path_views(paths@)),
{
    let ghost pv = path_views(paths@);
    let mut out: Vec<String> = Vec::new();
    let mut i: usize = 0;
    while i < paths.len()
        invariant
            i <= paths.len(),
            pv == path_views(paths@),
            path_views(out@) == fresh_paths(*store, bundle@, pv, pv.take(i as int)),
        decreases paths.len() - i,
    {
        proof {
            assert(pv.take(i + 1).drop_last() == pv.take(i as int));
            assert(pv.take(i + 1).last() == paths@[i as int]@);
        }
        if !is_stale_proposed(store, &paths[i], bundle, paths) {
            out.push(paths[i].clone());
            assert(path_views(out@) =~= fresh_paths(*store, bundle@, pv, pv.take(i as int)).push(
                paths@[i as int]@,
            ));
        }
        i += 1;
    }
    assert(pv.take(paths.len() as int) == pv);
    out
}

/// How many of `records` are retired.
fn retired(records: &Vec<ExtractedRecord>) -> (r: usize)
    ensures
        r == retired_count(record_views(records@)),
{
    let ghost rv = record_views(records@);
    let mut n: usize = 0;
    let mut i: usize = 0;
    while i < records.len()
        invariant
            i <= records.len(),
            rv == record_views(records@),
            n == retired_count(rv.take(i as int)),
            n <= i,
        decreases records.len() - i,
    {
        proof {
            assert(rv.take(i + 1).drop_last() == rv.take(i as int));
            assert(rv.take(i + 1).last() == records@[i as int].view());
        }
        if !is_in_force(&records[i].status) {
            n += 1;
        }
        i += 1;
    }
    assert(rv.take(records.len() as int) == rv);
    n
}

/// Compiles the effective view of the bundle under `bundle` as text,
/// leaving stale proposals out.
pub fn compile(store: &MapStore, bundle: &String, options: &Options) -> (r: String)
    ensures
        r@ == compiled(*store, bundle@, opt_view(options.topic), options.full, false),
{
    compile_with_stale(store, bundle, options, false)
}

/// Compiles the effective view of the bundle under `bundle` as text;
/// stale proposals are in it only when `include_stale`.
pub fn compile_with_stale(store: &MapStore, bundle: &String, options: &Options, include_stale: bool) -> (r:
    String)
    ensures
        r@ == compiled(*store, bundle@, opt_view(options.topic), options.full, include_stale),
{
    let paths = store.list(bundle);
    let records = read_records(store, &paths);
    let withheld = retired(&records);
    let candidates = if include_stale {
        read_records(store, &paths)
    } else {
        let fresh = fresh_paths_exec(store, bundle, &paths);
        read_records(store, &fresh)
    };
    let ghost rv = record_views(records@);
    let ghost cv = record_views(candidates@);
    let ghost topic = opt_view(options.topic);
    let mut views: Vec<Entry> = Vec::new();
    let mut i: usize = 0;
    while i < candidates.len()
        invariant
            i <= candidates.len(),
            rv == record_views(records@),
            cv == record_views(candidates@),
            topic == opt_view(options.topic),
            views_of(views@) == ranked(selected(cv.take(i as int), rv, topic)),
        decreases candidates.len() - i,
    {
        let r = &candidates[i];
        proof {
            assert(cv.take(i + 1).drop_last() == cv.take(i as int));
            assert(cv.take(i + 1).last() == r.view());
        }
        if is_in_force(&r.status) && matches_topic(r, &options.topic) {
            let v = view_of(r, &records);
            proof {
                assert(selected(cv.take(i + 1), rv, topic) == selected(cv.take(i as int), rv, topic).push(entry_of(r.view(), rv)));
                assert(selected(cv.take(i + 1), rv, topic).drop_last() == selected(cv.take(i as int), rv, topic));
            }
            insert_ranked(&mut views, v);
        } else {
            assert(selected(cv.take(i + 1), rv, topic) == selected(cv.take(i as int), rv, topic));
        }
        i += 1;
    }
    assert(cv.take(candidates.len() as int) == cv);
    render(&views, options.full, withheld)
}


proof fn lemma_ranked_multiset(vs: Seq<EntryV>)
    ensures
        ranked(vs).to_multiset() == vs.to_multiset(),
        ranked(vs).len() == vs.len(),
    decreases vs.len(),
{
    if vs.len() == 0 {
        assert(ranked(vs) =~= vs);
    } else {
        lemma_ranked_multiset(vs.drop_last());
        let s = ranked(vs.drop_last());
        lemma_rank_insert_at_bound(s, vs.last(), 0);
        vstd::seq_lib::to_multiset_insert(s, rank_insert_at(s, vs.last(), 0), vs.last());
        vstd::seq_lib::to_multiset_build(vs.drop_last(), vs.last());
        assert(vs.drop_last().push(vs.last()) == vs);
    }
}

proof fn lemma_selected_in_force(rs: Seq<RecordV>, all: Seq<RecordV>, topic: Option<Seq<char>>, v: EntryV)
    requires
        selected(rs, all, topic).contains(v),
    ensures
        exists|k: int|
            0 <= k < rs.len() && in_force(#[trigger] rs[k]) && topic_matches(rs[k], topic)
                && entry_of(rs[k], all) == v,
    decreases rs.len(),
{
    let rest = selected(rs.drop_last(), all, topic);
    if rest.contains(v) {
        lemma_selected_in_force(rs.drop_last(), all, topic, v);
        let k = choose|k: int|
            0 <= k < rs.drop_last().len() && in_force(#[trigger] rs.drop_last()[k]) && topic_matches(
                rs.drop_last()[k],
                topic,
            ) && entry_of(rs.drop_last()[k], all) == v;
        assert(rs[k] == rs.drop_last()[k]);
    } else {
        let k = rs.len() - 1;
        assert(rs[k] == rs.last());
        if !(in_force(rs.last()) && topic_matches(rs.last(), topic)) {
            assert(selected(rs, all, topic) == rest);
        } else {
            let sel = selected(rs, all, topic);
            assert(sel == rest.push(entry_of(rs.last(), all)));
            let i = choose|i: int| 0 <= i < sel.len() && sel[i] == v;
            if i < rest.len() {
                assert(rest[i] == v);
            }
        }
    }
}

/// The effective view carries records in force only: every entry it
/// renders is the view of a record that is neither `Superseded` nor
/// `Deprecated`, and that matches the topic.
pub proof fn lemma_effective_shows_only_records_in_force(
    store: MapStore,
    bundle: Seq<char>,
    topic: Option<Seq<char>>,
    v: EntryV,
)
    requires
        ranked(
            selected(
                records_of(store, store.listed(bundle)),
                records_of(store, store.listed(bundle)),
                topic,
            ),
        ).contains(v),
    ensures
        exists|r: RecordV|
            records_of(store, store.listed(bundle)).contains(r) && in_force(r) && topic_matches(
                r,
                topic,
            ) && v == entry_of(r, records_of(store, store.listed(bundle))),
{
    let rs = records_of(store, store.listed(bundle));
    let sel = selected(rs, rs, topic);
    lemma_ranked_multiset(sel);
    vstd::seq_lib::to_multiset_contains(ranked(sel), v);
    vstd::seq_lib::to_multiset_contains(sel, v);
    lemma_selected_in_force(rs, rs, topic, v);
    let k = choose|k: int|
        0 <= k < rs.len() && in_force(#[trigger] rs[k]) && topic_matches(rs[k], topic) && entry_of(
            rs[k],
            rs,
        ) == v;
    assert(rs.contains(rs[k]));
}

/// A record in force whose title, description or body contains the topic
/// (both lowercased) is selected: its view is among those the effective
/// view ranks.
pub proof fn lemma_topic_match_is_shown(rs: Seq<RecordV>, all: Seq<RecordV>, topic: Seq<char>, k: int)
    requires
        0 <= k < rs.len(),
        in_force(rs[k]),
        contains(lowercase(rs[k].title), lowercase(topic)) || contains(
            lowercase(rs[k].description),
            lowercase(topic),
        ) || contains(lowercase(rs[k].body), lowercase(topic)),
    ensures
        selected(rs, all, Some(topic)).contains(entry_of(rs[k], all)),
        ranked(selected(rs, all, Some(topic))).contains(entry_of(rs[k], all)),
    decreases rs.len(),
{
    let sel = selected(rs, all, Some(topic));
    let v = entry_of(rs[k], all);
    if k == rs.len() - 1 {
        assert(rs.last() == rs[k]);
        assert(sel == selected(rs.drop_last(), all, Some(topic)).push(v));
        assert(sel[sel.len() - 1] == v);
    } else {
        assert(rs.drop_last()[k] == rs[k]);
        lemma_topic_match_is_shown(rs.drop_last(), all, topic, k);
        let rest = selected(rs.drop_last(), all, Some(topic));
        let j = choose|j: int| 0 <= j < rest.len() && rest[j] == v;
        if in_force(rs.last()) && topic_matches(rs.last(), Some(topic)) {
            assert(sel == rest.push(entry_of(rs.last(), all)));
            assert(sel[j] == v);
        } else {
            assert(sel == rest);
        }
    }
    lemma_ranked_multiset(sel);
    vstd::seq_lib::to_multiset_contains(sel, v);
    vstd::seq_lib::to_multiset_contains(ranked(sel), v);
}

} // verus!
