//! Collects a check pass's findings: a violation fails the check, an
//! advisory is printed beside it and never does.

use crate::text::{chars_of, decimal, decimal_exec, extend, extend_str, string_of};
use vstd::prelude::*;

verus! {

/// One check finding: the record's display path and the message.
pub type Finding = (String, String);

/// An advisory finding, tagged with the kind of check that raised it.
#[derive(Debug)]
pub struct Advisory {
    pub file: String,
    pub kind: String,
    pub message: String,
}

/// Every violation and advisory a check pass found, in the order found.
#[derive(Debug)]
pub struct Reporter {
    pub violations: Vec<Finding>,
    pub advisories: Vec<Advisory>,
}

pub open spec fn finding_views(v: Seq<Finding>) -> Seq<(Seq<char>, Seq<char>)> {
    v.map_values(|f: Finding| (f.0@, f.1@))
}

pub open spec fn advisory_views(v: Seq<Advisory>) -> Seq<(Seq<char>, Seq<char>, Seq<char>)> {
    v.map_values(|a: Advisory| (a.file@, a.kind@, a.message@))
}

/// The `(file, message)` pairs of advisories.
pub open spec fn advisory_findings(v: Seq<(Seq<char>, Seq<char>, Seq<char>)>) -> Seq<
    (Seq<char>, Seq<char>),
> {
    v.map_values(|a: (Seq<char>, Seq<char>, Seq<char>)| (a.0, a.2))
}

/// The findings `g` raises for each of `ps`, concatenated in order.
pub open spec fn per_path<T>(ps: Seq<Seq<char>>, g: spec_fn(Seq<char>) -> Seq<T>) -> Seq<T>
    decreases ps.len(),
{
    if ps.len() == 0 {
        Seq::<T>::empty()
    } else {
        per_path(ps.drop_last(), g) + g(ps.last())
    }
}

/// Extending the processed prefix by one path appends that path's findings.
pub proof fn lemma_per_path_step<T>(ps: Seq<Seq<char>>, g: spec_fn(Seq<char>) -> Seq<T>, i: int)
    requires
        0 <= i < ps.len(),
    ensures
        per_path(ps.take(i + 1), g) == per_path(ps.take(i), g) + g(ps[i]),
{
    assert(ps.take(i + 1).drop_last() == ps.take(i));
    assert(ps.take(i + 1).last() == ps[i]);
}

/// The summary line a finished check prints last.
pub open spec fn verdict_line(violations: nat, docs: nat) -> Seq<char> {
    if violations == 0 {
        "OK — "@ + decimal(docs) + " docs, no invariant violations."@
    } else {
        "FAIL — "@ + decimal(violations) + " violation(s) across "@ + decimal(docs) + " docs."@
    }
}

impl Reporter {
    pub open spec fn viols(&self) -> Seq<(Seq<char>, Seq<char>)> {
        finding_views(self.violations@)
    }

    pub open spec fn advs(&self) -> Seq<(Seq<char>, Seq<char>, Seq<char>)> {
        advisory_views(self.advisories@)
    }

    /// A reporter with nothing recorded.
    pub fn new() -> (r: Self)
        ensures
            r.viols().len() == 0,
            r.advs().len() == 0,
    {
        let r = Reporter { violations: Vec::new(), advisories: Vec::new() };
        assert(r.viols() =~= Seq::<(Seq<char>, Seq<char>)>::empty());
        r
    }

    /// Records a violation against `file`.
    pub fn report(&mut self, file: &String, message: String)
        ensures
            final(self).viols() == old(self).viols().push((file@, message@)),
            final(self).advs() == old(self).advs(),
    {
        let f = (file.clone(), message);
        self.violations.push(f);
        assert(self.viols() =~= old(self).viols().push((file@, f.1@)));
    }

    /// Records an advisory of kind `kind` against `file`.
    pub fn advise(&mut self, file: &String, kind: &str, message: String)
        ensures
            final(self).advs() == old(self).advs().push((file@, kind@, message@)),
            final(self).viols() == old(self).viols(),
    {
        let a = Advisory { file: file.clone(), kind: kind.to_string(), message };
        self.advisories.push(a);
        assert(self.advs() =~= old(self).advs().push((file@, kind@, a.message@)));
    }

    /// Whether the pass found no violation — the check's exit status.
    pub fn is_ok(&self) -> (r: bool)
        ensures
            r == (self.viols().len() == 0),
    {
        self.violations.len() == 0
    }

    /// The violations, as `(file, message)` pairs.
    pub fn into_violations(self) -> (r: Vec<Finding>)
        ensures
            finding_views(r@) == self.viols(),
    {
        self.violations
    }

    /// The violations and the advisories, as `(file, message)` pairs.
    pub fn into_findings(self) -> (r: (Vec<Finding>, Vec<Finding>))
        ensures
            finding_views(r.0@) == self.viols(),
            finding_views(r.1@) == advisory_findings(self.advs()),
    {
        let mut advisories: Vec<Finding> = Vec::new();
        let mut i: usize = 0;
        while i < self.advisories.len()
            invariant
                i <= self.advisories.len(),
                finding_views(advisories@) == advisory_findings(self.advs()).take(i as int),
            decreases self.advisories.len() - i,
        {
            let a = (self.advisories[i].file.clone(), self.advisories[i].message.clone());
            advisories.push(a);
            i += 1;
            assert(advisory_findings(self.advs()).take(i as int) == advisory_findings(
                self.advs(),
            ).take(i - 1).push(advisory_findings(self.advs())[i - 1]));
        }
        assert(advisory_findings(self.advs()).take(self.advisories.len() as int)
            == advisory_findings(self.advs()));
        (self.violations, advisories)
    }

    /// The closing line of the report over `doc_count` documents.
    pub fn verdict(&self, doc_count: u64) -> (r: String)
        ensures
            r@ == verdict_line(self.viols().len(), doc_count as nat),
    {
        let docs = decimal_exec(doc_count);
        let mut out: Vec<char>;
        if self.violations.len() == 0 {
            out = chars_of("OK — ");
            extend(&mut out, &docs);
            extend_str(&mut out, " docs, no invariant violations.");
        } else {
            out = chars_of("FAIL — ");
            let n = decimal_exec(self.violations.len() as u64);
            extend(&mut out, &n);
            extend_str(&mut out, " violation(s) across ");
            extend(&mut out, &docs);
            extend_str(&mut out, " docs.");
        }
        string_of(&out)
    }
}

} // verus!
