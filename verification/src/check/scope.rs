//! A check report narrowed to the records a change touched: the findings
//! against those records, and a verdict over them alone.

use crate::check::reporter::{advisory_views, Advisory};
use crate::text::{chars_of, ends_with, eq, extend, has_suffix};
use vstd::prelude::*;

verus! {

/// One violation in a rendered report.
#[derive(Debug)]
pub struct Violation {
    pub file: String,
    pub message: String,
}

/// A finished check report.
#[derive(Debug)]
pub struct Report {
    pub bundle: String,
    pub docs: usize,
    pub violations: Vec<Violation>,
    pub advisories: Vec<Advisory>,
    pub ok: bool,
}

pub open spec fn violation_views(v: Seq<Violation>) -> Seq<(Seq<char>, Seq<char>)> {
    v.map_values(|x: Violation| (x.file@, x.message@))
}

/// Two paths name the same file: equal, or one is the other under some
/// leading directories (a relative path against an absolute one).
pub open spec fn same_file(a: Seq<char>, b: Seq<char>) -> bool {
    a == b || has_suffix(a, seq!['/'] + b) || has_suffix(b, seq!['/'] + a)
}

/// `file` is one of `paths`.
pub open spec fn in_scope(file: Seq<char>, paths: Seq<Seq<char>>) -> bool {
    exists|i: int| 0 <= i < paths.len() && same_file(file, #[trigger] paths[i])
}

fn same_file_exec(a: &Vec<char>, b: &Vec<char>) -> (r: bool)
    ensures
        r == same_file(a@, b@),
{
    if eq(a, b) {
        return true;
    }
    let mut sb = vec!['/'];
    extend(&mut sb, b);
    let mut sa = vec!['/'];
    extend(&mut sa, a);
    assert(sb@ == seq!['/'] + b@);
    assert(sa@ == seq!['/'] + a@);
    ends_with(a, &sb) || ends_with(b, &sa)
}

fn in_scope_exec(file: &String, paths: &Vec<String>) -> (r: bool)
    ensures
        r == in_scope(file@, crate::store::path_views(paths@)),
{
    let ghost ps = crate::store::path_views(paths@);
    let f = chars_of(file.as_str());
    let mut i: usize = 0;
    while i < paths.len()
        invariant
            i <= paths.len(),
            ps == crate::store::path_views(paths@),
            f@ == file@,
            forall|j: int| 0 <= j < i ==> !same_file(file@, #[trigger] ps[j]),
        decreases paths.len() - i,
    {
        let p = chars_of(paths[i].as_str());
        assert(ps[i as int] == p@);
        if same_file_exec(&f, &p) {
            return true;
        }
        i += 1;
    }
    false
}

impl Report {
    /// The report narrowed to the findings against `paths`; its verdict
    /// is green when none of them is a violation.
    pub fn scoped_to(&self, paths: &Vec<String>) -> (r: Report)
        ensures
            violation_views(r.violations@) == violation_views(self.violations@).filter(
                |v: (Seq<char>, Seq<char>)| in_scope(v.0, crate::store::path_views(paths@)),
            ),
            advisory_views(r.advisories@) == advisory_views(self.advisories@).filter(
                |a: (Seq<char>, Seq<char>, Seq<char>)| in_scope(a.0, crate::store::path_views(paths@)),
            ),
            r.ok == (r.violations@.len() == 0),
            r.bundle@ == self.bundle@,
            r.docs == self.docs,
    {
        let ghost ps = crate::store::path_views(paths@);
        let ghost vv = violation_views(self.violations@);
        let ghost av = advisory_views(self.advisories@);
        let mut violations: Vec<Violation> = Vec::new();
        let mut i: usize = 0;
        while i < self.violations.len()
            invariant
                i <= self.violations.len(),
                ps == crate::store::path_views(paths@),
                vv == violation_views(self.violations@),
                violation_views(violations@) == vv.take(i as int).filter(
                    |v: (Seq<char>, Seq<char>)| in_scope(v.0, ps),
                ),
            decreases self.violations.len() - i,
        {
            proof {
                assert(vv.take(i + 1) == vv.take(i as int).push(vv[i as int]));
                vv.take(i as int).lemma_filter_push(
                    vv[i as int],
                    |v: (Seq<char>, Seq<char>)| in_scope(v.0, ps),
                );
            }
            let v = &self.violations[i];
            if in_scope_exec(&v.file, paths) {
                let ghost before = violation_views(violations@);
                violations.push(Violation { file: v.file.clone(), message: v.message.clone() });
                assert(violation_views(violations@) =~= before.push(vv[i as int]));
            }
            i += 1;
        }
        assert(vv.take(self.violations.len() as int) == vv);
        let mut advisories: Vec<Advisory> = Vec::new();
        let mut k: usize = 0;
        while k < self.advisories.len()
            invariant
                k <= self.advisories.len(),
                ps == crate::store::path_views(paths@),
                av == advisory_views(self.advisories@),
                advisory_views(advisories@) == av.take(k as int).filter(
                    |a: (Seq<char>, Seq<char>, Seq<char>)| in_scope(a.0, ps),
                ),
            decreases self.advisories.len() - k,
        {
            proof {
                assert(av.take(k + 1) == av.take(k as int).push(av[k as int]));
                av.take(k as int).lemma_filter_push(
                    av[k as int],
                    |a: (Seq<char>, Seq<char>, Seq<char>)| in_scope(a.0, ps),
                );
            }
            let a = &self.advisories[k];
            if in_scope_exec(&a.file, paths) {
                let ghost before = advisory_views(advisories@);
                advisories.push(
                    Advisory { file: a.file.clone(), kind: a.kind.clone(), message: a.message.clone() },
                );
                assert(advisory_views(advisories@) =~= before.push(av[k as int]));
            }
            k += 1;
        }
        assert(av.take(self.advisories.len() as int) == av);
        let ok = violations.len() == 0;
        Report { bundle: self.bundle.clone(), docs: self.docs, violations, advisories, ok }
    }
}

} // verus!
