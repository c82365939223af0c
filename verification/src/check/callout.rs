//! The callout invariant: a Superseded or Deprecated record's body must
//! open with its exact callout, and an active record must carry none. The
//! expected wording and the successor resolution are the ones `fmt`
//! writes, so the check and the writer cannot drift apart.

use crate::callout::{expected, expected_line, leading, leading_line, successor_filename, successor_of};
use crate::check::records::{has_frontmatter, is_reserved_chars, opens_with_fence, reserved};
use crate::check::reporter::{lemma_per_path_step, per_path, Reporter};
use crate::path::{file_name_or_empty, file_name_or_empty_exec};
use crate::record::{extract_record, extracted, or_empty};
use crate::store::{path_views, MapStore};
use crate::text::{chars_of, chars_of_string, eq, extend, extend_str, string_of};
use vstd::prelude::*;

verus! {

pub open spec fn missing_callout_message(status: Option<Seq<char>>) -> Seq<char> {
    "status: "@ + or_empty(status)
        + " but the body does not open with its callout — run living-docs fmt (invariant 4)"@
}

pub open spec fn active_callout_message() -> Seq<char> {
    "active record opens with a retired callout — run living-docs fmt (invariant 4)"@
}

/// The callout finding for one record with frontmatter.
pub open spec fn record_callout_findings(store: MapStore, f: Seq<char>, c: Seq<char>) -> Seq<
    (Seq<char>, Seq<char>),
> {
    let r = extracted(f, c);
    let succ = match r.superseded_by {
        Some(id) => Some(successor_of(store, f, id)),
        None => None,
    };
    let lead = leading_line(r.body);
    match expected_line(r.status, succ) {
        Some(l) => if lead != Some(l) {
            seq![(f, missing_callout_message(r.status))]
        } else {
            Seq::<(Seq<char>, Seq<char>)>::empty()
        },
        None => if lead is Some {
            seq![(f, active_callout_message())]
        } else {
            Seq::<(Seq<char>, Seq<char>)>::empty()
        },
    }
}

/// The callout finding for one listed path.
pub open spec fn callout_findings(store: MapStore, f: Seq<char>) -> Seq<(Seq<char>, Seq<char>)> {
    match store.get(f) {
        None => Seq::<(Seq<char>, Seq<char>)>::empty(),
        Some(c) => if reserved(file_name_or_empty(f)) || !opens_with_fence(c) {
            Seq::<(Seq<char>, Seq<char>)>::empty()
        } else {
            record_callout_findings(store, f, c)
        },
    }
}

fn check_record_callout(store: &MapStore, f: &String, contents: &str, reporter: &mut Reporter)
    ensures
        final(reporter).viols() == old(reporter).viols() + record_callout_findings(
            *store,
            f@,
            contents@,
        ),
        final(reporter).advs() == old(reporter).advs(),
{
    let record = extract_record(f.as_str(), contents);
    let successor: Option<String> = match &record.superseded_by {
        Some(id) => Some(successor_filename(store, f.as_str(), id.as_str())),
        None => None,
    };
    let expected_line = expected(
        match &record.status {
            Some(s) => Some(s.as_str()),
            None => None,
        },
        match &successor {
            Some(s) => Some(s.as_str()),
            None => None,
        },
    );
    let lead = leading(record.body.as_str());
    match expected_line {
        Some(line) => {
            let matches = match &lead {
                Some(l) => eq(&chars_of_string(l), &chars_of_string(&line)),
                None => false,
            };
            if !matches {
                let mut m = chars_of("status: ");
                match &record.status {
                    Some(s) => extend_str(&mut m, s.as_str()),
                    None => {},
                }
                extend_str(
                    &mut m,
                    " but the body does not open with its callout — run living-docs fmt (invariant 4)",
                );
                reporter.report(f, string_of(&m));
            } else {
                assert(old(reporter).viols() + Seq::<(Seq<char>, Seq<char>)>::empty() =~= old(
                    reporter,
                ).viols());
            }
        },
        None => {
            if lead.is_some() {
                reporter.report(
                    f,
                    "active record opens with a retired callout — run living-docs fmt (invariant 4)".to_string(),
                );
            } else {
                assert(old(reporter).viols() + Seq::<(Seq<char>, Seq<char>)>::empty() =~= old(
                    reporter,
                ).viols());
            }
        },
    }
}

/// Reports every listed record whose opening callout does not match what
/// its status calls for.
pub fn check_callouts(store: &MapStore, all_md: &Vec<String>, reporter: &mut Reporter)
    ensures
        final(reporter).viols() == old(reporter).viols() + per_path(
            path_views(all_md@),
            |f: Seq<char>| callout_findings(*store, f),
        ),
        final(reporter).advs() == old(reporter).advs(),
{
    let ghost ps = path_views(all_md@);
    let ghost g = |f: Seq<char>| callout_findings(*store, f);
    let mut i: usize = 0;
    assert(ps.take(0) =~= Seq::<Seq<char>>::empty());
    while i < all_md.len()
        invariant
            i <= all_md.len(),
            ps == path_views(all_md@),
            g == (|f: Seq<char>| callout_findings(*store, f)),
            reporter.viols() == old(reporter).viols() + per_path(ps.take(i as int), g),
            reporter.advs() == old(reporter).advs(),
        decreases all_md.len() - i,
    {
        proof {
            lemma_per_path_step(ps, g, i as int);
        }
        let f = &all_md[i];
        let ghost before = reporter.viols();
        let base = file_name_or_empty_exec(&chars_of_string(f));
        match store.read(f) {
            None => {
                assert(before + Seq::<(Seq<char>, Seq<char>)>::empty() =~= before);
            },
            Some(contents) => {
                if is_reserved_chars(&base) || !has_frontmatter(contents.as_str()) {
                    assert(before + Seq::<(Seq<char>, Seq<char>)>::empty() =~= before);
                } else {
                    check_record_callout(store, f, contents.as_str(), reporter);
                }
            },
        }
        i += 1;
    }
    assert(ps.take(all_md.len() as int) == ps);
}

} // verus!
