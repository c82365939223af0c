//! Rendering for the effective view: a one-line index entry per record by
//! default, or the full body under `--full`, opened by a count of the
//! retired records that were withheld.

use super::{Entry, EntryV};
use crate::text::{chars_of, chars_of_string, decimal, extend, extend_str, join, pad4_signed, string_of, trim_end};
use vstd::prelude::*;

verus! {

/// The label of a view: its type, and its number when it has one.
pub open spec fn label_of(v: EntryV) -> Seq<char> {
    match v.number {
        Some(n) => v.doc_type + " "@ + pad4_signed(n),
        None => v.doc_type,
    }
}

fn label(view: &Entry) -> (r: Vec<char>)
    ensures
        r@ == label_of(view.view()),
{
    let mut l = chars_of_string(&view.doc_type);
    match view.number {
        Some(n) => {
            extend_str(&mut l, " ");
            extend(&mut l, &crate::text::pad4_signed_exec(n));
        },
        None => {},
    }
    l
}

/// A view's one-line index entry.
pub open spec fn index_line_of(v: EntryV) -> Seq<char> {
    let head = "- ["@ + label_of(v) + "] "@ + v.title;
    let described = if v.description.len() > 0 {
        head + " — "@ + v.description
    } else {
        head
    };
    match v.lineage {
        Some(l) => described + " ("@ + l + ")"@,
        None => described,
    }
}

fn index_line(view: &Entry) -> (r: Vec<char>)
    ensures
        r@ == index_line_of(view.view()),
{
    let mut line = chars_of("- [");
    extend(&mut line, &label(view));
    extend_str(&mut line, "] ");
    extend_str(&mut line, view.title.as_str());
    if chars_of_string(&view.description).len() > 0 {
        proof {
            assert(view.description@.len() > 0);
        }
        extend_str(&mut line, " — ");
        extend_str(&mut line, view.description.as_str());
    } else {
        proof {
            assert(view.description@.len() == 0);
        }
    }
    match &view.lineage {
        Some(l) => {
            extend_str(&mut line, " (");
            extend_str(&mut line, l.as_str());
            extend_str(&mut line, ")");
        },
        None => {},
    }
    line
}

/// A view's full block: its heading, its lineage in italics, and its body
/// with trailing whitespace trimmed.
pub open spec fn full_block_of(v: EntryV) -> Seq<char> {
    let heading = "## ["@ + label_of(v) + "] "@ + v.title;
    let header = match v.lineage {
        Some(l) => heading + "\n_"@ + l + "_"@,
        None => heading,
    };
    header + "\n\n"@ + trim_end(v.body)
}

fn full_block(view: &Entry) -> (r: Vec<char>)
    ensures
        r@ == full_block_of(view.view()),
{
    let mut b = chars_of("## [");
    extend(&mut b, &label(view));
    extend_str(&mut b, "] ");
    extend_str(&mut b, view.title.as_str());
    match &view.lineage {
        Some(l) => {
            extend_str(&mut b, "\n_");
            extend_str(&mut b, l.as_str());
            extend_str(&mut b, "_");
        },
        None => {},
    }
    extend_str(&mut b, "\n\n");
    extend(&mut b, &crate::text::trim_end_exec(&chars_of_string(&view.body)));
    b
}

/// The line that opens the view with the count of withheld records; empty
/// when none was withheld.
pub open spec fn withheld_text(withheld: nat) -> Seq<char> {
    if withheld == 0 {
        Seq::empty()
    } else {
        "_Withheld "@ + decimal(withheld)
            + " retired record(s) (superseded or deprecated): history only, never act on them._\n\n"@
    }
}

fn withheld_line(withheld: usize) -> (r: Vec<char>)
    ensures
        r@ == withheld_text(withheld as nat),
{
    if withheld == 0 {
        return Vec::new();
    }
    let mut l = chars_of("_Withheld ");
    extend(&mut l, &crate::text::decimal_exec(withheld as u64));
    extend_str(
        &mut l,
        " retired record(s) (superseded or deprecated): history only, never act on them._\n\n",
    );
    l
}

/// The block a view renders to.
pub open spec fn block_of(v: EntryV, full: bool) -> Seq<char> {
    if full {
        full_block_of(v)
    } else {
        index_line_of(v)
    }
}

/// The effective view's text.
pub open spec fn rendered(views: Seq<EntryV>, full: bool, withheld: nat) -> Seq<char> {
    let prefix = withheld_text(withheld);
    if views.len() == 0 {
        prefix
    } else {
        prefix + join(
            views.map_values(|v: EntryV| block_of(v, full)),
            if full {
                "\n\n"@
            } else {
                "\n"@
            },
        ) + "\n"@
    }
}

pub open spec fn views_of(vs: Seq<Entry>) -> Seq<EntryV> {
    vs.map_values(|v: Entry| v.view())
}

/// Renders `views` as index lines, or as full blocks when `full`.
pub fn render(views: &Vec<Entry>, full: bool, withheld: usize) -> (r: String)
    ensures
        r@ == rendered(views_of(views@), full, withheld as nat),
{
    let prefix = withheld_line(withheld);
    if views.len() == 0 {
        return string_of(&prefix);
    }
    let ghost vv = views_of(views@);
    let ghost f = |v: EntryV| block_of(v, full);
    let mut blocks: Vec<Vec<char>> = Vec::new();
    let mut i: usize = 0;
    while i < views.len()
        invariant
            i <= views.len(),
            vv == views_of(views@),
            f == (|v: EntryV| block_of(v, full)),
            blocks@.map_values(|b: Vec<char>| b@) == vv.take(i as int).map_values(f),
        decreases views.len() - i,
    {
        let b = if full {
            full_block(&views[i])
        } else {
            index_line(&views[i])
        };
        assert(vv[i as int] == views@[i as int].view());
        blocks.push(b);
        assert(vv.take(i + 1).map_values(f) =~= vv.take(i as int).map_values(f).push(f(vv[i as int])));
        i += 1;
    }
    assert(vv.take(views.len() as int) == vv);
    let sep = if full {
        chars_of("\n\n")
    } else {
        chars_of("\n")
    };
    let mut out = prefix;
    extend(&mut out, &crate::text::join_exec(&blocks, &sep));
    extend_str(&mut out, "\n");
    string_of(&out)
}

} // verus!
