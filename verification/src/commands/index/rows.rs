//! Row and partition rendering for a numbered directory listing: the
//! decision axis (Active/Superseded), the issue-work axis (Open/Closed) and
//! the flat fallback, all built on one row format that names a retired
//! record's successor when the listing holds it.

use crate::doc_type::{row_for_token, spec_for, IndexPartition};
use crate::text::{
    chars_of, chars_of_string, eq_str, extend, extend_str, join, join_exec, pad4, pad4_exec,
    parse_u32, parse_u32_exec, string_of, trim, trim_exec, eq_ignore_case, eq_ignore_case_str,
    nl, decimal,
};
use vstd::prelude::*;

verus! {

/// The note above the `## Superseded` rows: a retired record is history.
pub const RETIRED_SECTION_NOTE: &'static str = "_History only. Do not act on these records — run `living-docs effective` for what is in force._";

/// One listed record.
#[derive(Debug)]
pub struct Record {
    pub number: u32,
    pub title: String,
    pub status: String,
    pub filename: String,
    pub superseded_by: Option<String>,
}

/// A listed record, as values.
pub struct RecordRow {
    pub number: u32,
    pub title: Seq<char>,
    pub status: Seq<char>,
    pub filename: Seq<char>,
    pub superseded_by: Option<Seq<char>>,
}

impl Record {
    pub open spec fn view(&self) -> RecordRow {
        RecordRow {
            number: self.number,
            title: self.title@,
            status: self.status@,
            filename: self.filename@,
            superseded_by: match self.superseded_by {
                Some(s) => Some(s@),
                None => None,
            },
        }
    }
}

pub open spec fn rows_view(v: Seq<Record>) -> Seq<RecordRow> {
    v.map_values(|r: Record| r.view())
}

/// The axis a partitioned listing splits on.
#[derive(Clone, Copy, PartialEq, Eq, Debug, Structural)]
pub enum Axis {
    /// In force versus retired.
    Active,
    /// Open work versus closed.
    Open,
}

/// A decision status still in force: anything but `Superseded` and
/// `Deprecated`, exactly.
pub open spec fn active_status(s: Seq<char>) -> bool {
    s != "Superseded"@ && s != "Deprecated"@
}

/// An issue status still open: anything but closed, done or superseded,
/// ignoring ASCII case.
pub open spec fn open_status(s: Seq<char>) -> bool {
    !(eq_ignore_case(s, "closed"@) || eq_ignore_case(s, "done"@) || eq_ignore_case(
        s,
        "superseded"@,
    ))
}

/// Whether status `s` lands in the first section along `axis`.
pub open spec fn in_first(axis: Axis, s: Seq<char>) -> bool {
    match axis {
        Axis::Active => active_status(s),
        Axis::Open => open_status(s),
    }
}

/// The filename of the record numbered `n` among `all`, first match.
pub open spec fn file_numbered(all: Seq<RecordRow>, n: u32, i: int) -> Option<Seq<char>>
    decreases all.len() - i,
{
    if i < 0 || i >= all.len() {
        None
    } else if all[i].number == n {
        Some(all[i].filename)
    } else {
        file_numbered(all, n, i + 1)
    }
}

/// How a superseded record names its successor.
pub open spec fn superseded_text(sb: Option<Seq<char>>, all: Seq<RecordRow>) -> Seq<char> {
    match sb {
        None => "Superseded"@,
        Some(raw) => match parse_u32(trim(raw)) {
            None => "Superseded by "@ + raw,
            Some(n) => match file_numbered(all, n, 0) {
                Some(f) => "Superseded by ["@ + pad4(n as nat) + "]("@ + f + ")"@,
                None => "Superseded by "@ + pad4(n as nat),
            },
        },
    }
}

/// The status a row renders.
pub open spec fn rendered_status(r: RecordRow, all: Seq<RecordRow>) -> Seq<char> {
    if r.status == "Superseded"@ {
        superseded_text(r.superseded_by, all)
    } else if r.status == "Deprecated"@ {
        "Deprecated (no successor)"@
    } else {
        r.status
    }
}

/// One listing row.
pub open spec fn row_text(r: RecordRow, all: Seq<RecordRow>) -> Seq<char> {
    "* ["@ + pad4(r.number as nat) + " — "@ + r.title + "]("@ + r.filename + ") - "@
        + rendered_status(r, all)
}

/// The rows of `rs`, one per line.
pub open spec fn rows_text(rs: Seq<RecordRow>, all: Seq<RecordRow>) -> Seq<char> {
    join(rs.map_values(|r: RecordRow| row_text(r, all)), nl())
}

/// A partitioned listing.
pub open spec fn partitioned_text(
    all: Seq<RecordRow>,
    first_heading: Seq<char>,
    second_heading: Seq<char>,
    axis: Axis,
    note: Option<Seq<char>>,
) -> Seq<char> {
    let first = all.filter(|r: RecordRow| in_first(axis, r.status));
    let second = all.filter(|r: RecordRow| !in_first(axis, r.status));
    "## "@ + first_heading + "\n"@ + (if first.len() == 0 {
        Seq::<char>::empty()
    } else {
        "\n"@ + rows_text(first, all) + "\n"@
    }) + (if second.len() == 0 {
        Seq::<char>::empty()
    } else {
        "\n## "@ + second_heading + "\n\n"@ + (match note {
            Some(n) => n + "\n\n"@,
            None => Seq::<char>::empty(),
        }) + rows_text(second, all) + "\n"@
    })
}

/// A flat listing: the rows and a closing newline, nothing when empty.
pub open spec fn flat_text(all: Seq<RecordRow>) -> Seq<char> {
    if all.len() == 0 {
        Seq::<char>::empty()
    } else {
        rows_text(all, all) + "\n"@
    }
}

/// The listing body of a numbered type `token`.
pub open spec fn body_text(token: Seq<char>, all: Seq<RecordRow>) -> Seq<char> {
    match row_for_token(token) {
        Some(row) => match row.partition {
            IndexPartition::OpenClosed => partitioned_text(all, "Open"@, "Closed"@, Axis::Open, None),
            IndexPartition::ActiveSuperseded => partitioned_text(
                all,
                "Active"@,
                "Superseded"@,
                Axis::Active,
                Some(RETIRED_SECTION_NOTE@),
            ),
            IndexPartition::Flat => flat_text(all),
        },
        None => flat_text(all),
    }
}

/// Whether a decision status is still in force.
pub fn is_active_status(status: &str) -> (r: bool)
    ensures
        r == active_status(status@),
{
    let s = chars_of(status);
    !(eq_str(&s, "Superseded") || eq_str(&s, "Deprecated"))
}

/// Whether an issue status is still open.
pub fn is_open_status(status: &str) -> (r: bool)
    ensures
        r == open_status(status@),
{
    let s = chars_of(status);
    !(eq_ignore_case_str(&s, "closed") || eq_ignore_case_str(&s, "done") || eq_ignore_case_str(
        &s,
        "superseded",
    ))
}

fn in_first_exec(axis: Axis, status: &str) -> (r: bool)
    ensures
        r == in_first(axis, status@),
{
    match axis {
        Axis::Active => is_active_status(status),
        Axis::Open => is_open_status(status),
    }
}

fn successor_filename(n: u32, all: &Vec<Record>) -> (r: Option<String>)
    ensures
        r matches Some(f) ==> file_numbered(rows_view(all@), n, 0) == Some(f@),
        r is None ==> file_numbered(rows_view(all@), n, 0) is None,
{
    let ghost rv = rows_view(all@);
    let mut i: usize = 0;
    while i < all.len()
        invariant
            i <= all.len(),
            rv == rows_view(all@),
            file_numbered(rv, n, 0) == file_numbered(rv, n, i as int),
        decreases all.len() - i,
    {
        if all[i].number == n {
            return Some(all[i].filename.clone());
        }
        i += 1;
    }
    None
}

fn superseded_suffix(sb: &Option<String>, all: &Vec<Record>) -> (r: Vec<char>)
    ensures
        r@ == superseded_text(
            match sb {
                Some(s) => Some(s@),
                None => None,
            },
            rows_view(all@),
        ),
{
    let raw = match sb {
        None => return chars_of("Superseded"),
        Some(raw) => raw,
    };
    let rc = chars_of_string(raw);
    match parse_u32_exec(&trim_exec(&rc)) {
        None => {
            let mut out = chars_of("Superseded by ");
            extend(&mut out, &rc);
            out
        },
        Some(n) => {
            let padded = pad4_exec(n as u64);
            match successor_filename(n, all) {
                Some(f) => {
                    let mut out = chars_of("Superseded by [");
                    extend(&mut out, &padded);
                    extend_str(&mut out, "](");
                    extend_str(&mut out, f.as_str());
                    extend_str(&mut out, ")");
                    out
                },
                None => {
                    let mut out = chars_of("Superseded by ");
                    extend(&mut out, &padded);
                    out
                },
            }
        },
    }
}

/// The status a Superseded or Deprecated row renders, naming the successor
/// when one is known; `None` for every other status.
fn retirement_suffix(status: &Vec<char>, superseded_by: &Option<String>, all: &Vec<Record>) -> (r:
    Option<Vec<char>>)
    ensures
        r matches Some(v) ==> (status@ == "Superseded"@ || status@ == "Deprecated"@) && v@
            == rendered_status(
            RecordRow {
                number: 0,
                title: Seq::<char>::empty(),
                status: status@,
                filename: Seq::<char>::empty(),
                superseded_by: match superseded_by {
                    Some(s) => Some(s@),
                    None => None,
                },
            },
            rows_view(all@),
        ),
        r is None ==> status@ != "Superseded"@ && status@ != "Deprecated"@,
{
    if eq_str(status, "Superseded") {
        Some(superseded_suffix(superseded_by, all))
    } else if eq_str(status, "Deprecated") {
        Some(chars_of("Deprecated (no successor)"))
    } else {
        None
    }
}

/// Renders one listing row: `* [NNNN — Title](file) - status`, where a
/// superseded record names its successor and a deprecated one says it has
/// none.
pub fn render_row(record: &Record, all: &Vec<Record>) -> (r: String)
    ensures
        r@ == row_text(record.view(), rows_view(all@)),
{
    let st = chars_of_string(&record.status);
    let status = match retirement_suffix(&st, &record.superseded_by, all) {
        Some(suffix) => suffix,
        None => st,
    };
    let mut out = chars_of("* [");
    extend(&mut out, &pad4_exec(record.number as u64));
    extend_str(&mut out, " — ");
    extend_str(&mut out, record.title.as_str());
    extend_str(&mut out, "](");
    extend_str(&mut out, record.filename.as_str());
    extend_str(&mut out, ") - ");
    extend(&mut out, &status);
    string_of(&out)
}

/// The rows of the records of `all` at the indices `picked`, one per line.
fn render_rows_at(picked: &Vec<usize>, all: &Vec<Record>) -> (r: Vec<char>)
    requires
        forall|i: int| 0 <= i < picked@.len() ==> #[trigger] picked@[i] < all@.len(),
    ensures
        r@ == rows_text(
            picked@.map_values(|k: usize| rows_view(all@)[k as int]),
            rows_view(all@),
        ),
{
    let ghost rv = rows_view(all@);
    let ghost sel = picked@.map_values(|k: usize| rv[k as int]);
    let mut lines: Vec<Vec<char>> = Vec::new();
    let mut i: usize = 0;
    while i < picked.len()
        invariant
            i <= picked.len(),
            rv == rows_view(all@),
            sel == picked@.map_values(|k: usize| rv[k as int]),
            forall|j: int| 0 <= j < picked@.len() ==> #[trigger] picked@[j] < all@.len(),
            lines@.map_values(|v: Vec<char>| v@) == sel.take(i as int).map_values(
                |r: RecordRow| row_text(r, rv),
            ),
        decreases picked.len() - i,
    {
        let k = picked[i];
        let row = chars_of_string(&render_row(&all[k], all));
        let ghost before = lines@.map_values(|v: Vec<char>| v@);
        lines.push(row);
        proof {
            assert(sel.take(i + 1) == sel.take(i as int).push(sel[i as int]));
            assert(lines@.map_values(|v: Vec<char>| v@) =~= before.push(row_text(sel[i as int], rv)));
        }
        i += 1;
    }
    assert(sel.take(picked.len() as int) == sel);
    crate::text::join_lines(&lines)
}

fn indices_where(all: &Vec<Record>, axis: Axis, want: bool) -> (r: Vec<usize>)
    ensures
        forall|i: int| 0 <= i < r@.len() ==> #[trigger] r@[i] < all@.len(),
        r@.map_values(|k: usize| rows_view(all@)[k as int]) == rows_view(all@).filter(
            |x: RecordRow| in_first(axis, x.status) == want,
        ),
{
    let ghost rv = rows_view(all@);
    let mut out: Vec<usize> = Vec::new();
    let mut i: usize = 0;
    while i < all.len()
        invariant
            i <= all.len(),
            rv == rows_view(all@),
            forall|j: int| 0 <= j < out@.len() ==> #[trigger] out@[j] < i,
            out@.map_values(|k: usize| rv[k as int]) == rv.take(i as int).filter(
                |x: RecordRow| in_first(axis, x.status) == want,
            ),
        decreases all.len() - i,
    {
        proof {
            assert(rv.take(i + 1) == rv.take(i as int).push(rv[i as int]));
            rv.take(i as int).lemma_filter_push(
                rv[i as int],
                |x: RecordRow| in_first(axis, x.status) == want,
            );
        }
        let ghost before = out@.map_values(|k: usize| rv[k as int]);
        if in_first_exec(axis, all[i].status.as_str()) == want {
            out.push(i);
            assert(out@.map_values(|k: usize| rv[k as int]) =~= before.push(rv[i as int]));
        }
        i += 1;
    }
    assert(rv.take(all.len() as int) == rv);
    out
}

/// Splits `records` into a `first_heading` section above a
/// `second_heading` section along `axis`. The first heading is always
/// written; a section's rows are omitted when it is empty, and the second
/// section (with `second_note` under its heading) only appears when it has
/// rows.
pub fn render_partitioned(
    records: &Vec<Record>,
    first_heading: &str,
    second_heading: &str,
    axis: Axis,
    second_note: Option<&str>,
) -> (r: String)
    ensures
        r@ == partitioned_text(
            rows_view(records@),
            first_heading@,
            second_heading@,
            axis,
            match second_note {
                Some(n) => Some(n@),
                None => None,
            },
        ),
{
    let first = indices_where(records, axis, true);
    let second = indices_where(records, axis, false);
    let ghost rv = rows_view(records@);
    proof {
        let p1 = |x: RecordRow| in_first(axis, x.status) == true;
        let q1 = |x: RecordRow| in_first(axis, x.status);
        assert(p1 =~= q1);
        let p2 = |x: RecordRow| in_first(axis, x.status) == false;
        let q2 = |x: RecordRow| !in_first(axis, x.status);
        assert(p2 =~= q2);
    }
    let mut body = chars_of("## ");
    extend_str(&mut body, first_heading);
    extend_str(&mut body, "\n");
    if first.len() > 0 {
        extend_str(&mut body, "\n");
        extend(&mut body, &render_rows_at(&first, records));
        extend_str(&mut body, "\n");
    }
    if second.len() > 0 {
        extend_str(&mut body, "\n## ");
        extend_str(&mut body, second_heading);
        extend_str(&mut body, "\n\n");
        match second_note {
            Some(n) => {
                extend_str(&mut body, n);
                extend_str(&mut body, "\n\n");
            },
            None => {},
        }
        extend(&mut body, &render_rows_at(&second, records));
        extend_str(&mut body, "\n");
    }
    assert(body@ =~= partitioned_text(
        rv,
        first_heading@,
        second_heading@,
        axis,
        match second_note {
            Some(n) => Some(n@),
            None => None,
        },
    ));
    string_of(&body)
}

/// A flat listing of `records`.
pub fn render_flat_body(records: &Vec<Record>) -> (r: String)
    ensures
        r@ == flat_text(rows_view(records@)),
{
    if records.len() == 0 {
        return String::new();
    }
    let mut all: Vec<usize> = Vec::new();
    let mut i: usize = 0;
    while i < records.len()
        invariant
            i <= records.len(),
            all@.len() == i,
            forall|j: int| 0 <= j < i ==> #[trigger] all@[j] == j,
        decreases records.len() - i,
    {
        all.push(i);
        i += 1;
    }
    let mut out = render_rows_at(&all, records);
    assert(all@.map_values(|k: usize| rows_view(records@)[k as int]) =~= rows_view(records@));
    extend_str(&mut out, "\n");
    string_of(&out)
}

/// Renders `records` along the partition axis the registry gives type
/// `doc_type`: Open/Closed, Active/Superseded (with the history note), or
/// flat — also the fallback for an unknown token.
pub fn render_body(doc_type: &str, records: &Vec<Record>) -> (r: String)
    ensures
        r@ == body_text(doc_type@, rows_view(records@)),
{
    match spec_for(doc_type) {
        Some(spec) => match spec.index_partition {
            IndexPartition::OpenClosed => render_partitioned(records, "Open", "Closed", Axis::Open, None),
            IndexPartition::ActiveSuperseded => render_partitioned(
                records,
                "Active",
                "Superseded",
                Axis::Active,
                Some(RETIRED_SECTION_NOTE),
            ),
            IndexPartition::Flat => render_flat_body(records),
        },
        None => render_flat_body(records),
    }
}

} // verus!
