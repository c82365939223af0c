//! `living-docs scorecard`: grades the Trusted, Contextual, Traceable and
//! Governed attributes from one `check` pass, and derives the overall grade
//! as the worst of the measured ones — never an average. Read-only and
//! informational: the grades never gate.

pub mod classifier;
pub mod consumption;
pub mod inflation;

use crate::check::reporter::{advisory_findings, finding_views, Finding};
use crate::check::summary::{
    Findings,
    count_owned, count_required, findings, owner_coverage, pass_advisories, pass_violations,
};
use crate::doc_type::{row_for_token, spec_for, Identity, IdentityV};
use crate::path::{join_path, join_path_str};
use crate::store::MapStore;
use crate::text::{
    chars_of, chars_of_string, contains, contains_str, extend, extend_str, has_prefix,
    starts_with_str, string_of,
};
use vstd::prelude::*;

verus! {

/// Where a tree stands on the readiness spectrum for one attribute, or an
/// attribute whose signal source is absent.
#[derive(Clone, Copy, PartialEq, Eq, Debug, Structural)]
pub enum Grade {
    HumanEra,
    InTransition,
    AgentReady,
    NotMeasured,
}

/// Whether the derived projection a front reads is current with the tree.
#[derive(Clone, Copy, PartialEq, Eq, Debug, Structural)]
pub enum Freshness {
    Fresh,
    Stale,
}

/// The four-attribute readiness table plus the overall grade.
#[derive(Debug)]
pub struct Scorecard {
    pub trusted: Grade,
    pub contextual: Grade,
    pub traceable: Grade,
    pub governed: Grade,
    pub freshness: Option<Freshness>,
    pub overall: Grade,
}

/// A grade's label.
pub open spec fn grade_label(g: Grade) -> Seq<char> {
    match g {
        Grade::HumanEra => "human-era"@,
        Grade::InTransition => "in-transition"@,
        Grade::AgentReady => "agent-ready"@,
        Grade::NotMeasured => "not measured"@,
    }
}

/// Lower is worse; `NotMeasured` ranks above every measured grade.
pub open spec fn rank(g: Grade) -> nat {
    match g {
        Grade::HumanEra => 0,
        Grade::InTransition => 1,
        Grade::AgentReady => 2,
        Grade::NotMeasured => 255,
    }
}

/// The worse of an accumulated grade and the next one, skipping
/// `NotMeasured`; on a tie the earlier grade stands.
pub open spec fn worse(acc: Grade, g: Grade) -> Grade {
    if g == Grade::NotMeasured {
        acc
    } else if acc == Grade::NotMeasured || rank(g) < rank(acc) {
        g
    } else {
        acc
    }
}

/// The overall grade: the lowest-ranked measured grade, `NotMeasured`
/// when none is measured.
pub open spec fn overall_of(gs: Seq<Grade>) -> Grade
    decreases gs.len(),
{
    if gs.len() == 0 {
        Grade::NotMeasured
    } else {
        worse(overall_of(gs.drop_last()), gs.last())
    }
}

impl Grade {
    /// The grade's label.
    pub fn as_str(self) -> (r: &'static str)
        ensures
            r@ == grade_label(self),
    {
        match self {
            Grade::HumanEra => "human-era",
            Grade::InTransition => "in-transition",
            Grade::AgentReady => "agent-ready",
            Grade::NotMeasured => "not measured",
        }
    }

    fn rank(self) -> (r: u8)
        ensures
            r == rank(self),
    {
        match self {
            Grade::HumanEra => 0,
            Grade::InTransition => 1,
            Grade::AgentReady => 2,
            Grade::NotMeasured => 255,
        }
    }
}

/// A freshness label.
pub open spec fn freshness_label(f: Freshness) -> Seq<char> {
    match f {
        Freshness::Fresh => "fresh"@,
        Freshness::Stale => "stale"@,
    }
}

impl Freshness {
    pub fn as_str(self) -> (r: &'static str)
        ensures
            r@ == freshness_label(self),
    {
        match self {
            Freshness::Fresh => "fresh",
            Freshness::Stale => "stale",
        }
    }
}

/// The overall grade of `grades`.
pub fn overall_grade(grades: &Vec<Grade>) -> (r: Grade)
    ensures
        r == overall_of(grades@),
{
    let mut acc = Grade::NotMeasured;
    let mut i: usize = 0;
    while i < grades.len()
        invariant
            i <= grades.len(),
            acc == overall_of(grades@.take(i as int)),
        decreases grades.len() - i,
    {
        proof {
            assert(grades@.take(i + 1).drop_last() == grades@.take(i as int));
            assert(grades@.take(i + 1).last() == grades@[i as int]);
        }
        let g = grades[i];
        if g != Grade::NotMeasured && (acc == Grade::NotMeasured || g.rank() < acc.rank()) {
            acc = g;
        }
        i += 1;
    }
    assert(grades@.take(grades.len() as int) == grades@);
    acc
}

/// The overall grade is never better than a measured attribute, is one of
/// the measured attributes, and is `NotMeasured` only when nothing is
/// measured.
pub proof fn lemma_overall_is_the_worst_measured(gs: Seq<Grade>)
    ensures
        forall|i: int|
            0 <= i < gs.len() && gs[i] != Grade::NotMeasured ==> rank(overall_of(gs)) <= rank(
                #[trigger] gs[i],
            ),
        overall_of(gs) == Grade::NotMeasured <==> forall|i: int|
            0 <= i < gs.len() ==> #[trigger] gs[i] == Grade::NotMeasured,
        overall_of(gs) != Grade::NotMeasured ==> gs.contains(overall_of(gs)),
    decreases gs.len(),
{
    if gs.len() > 0 {
        let init = gs.drop_last();
        lemma_overall_is_the_worst_measured(init);
        assert forall|i: int|
            0 <= i < gs.len() && gs[i] != Grade::NotMeasured implies rank(overall_of(gs)) <= rank(
                #[trigger] gs[i],
            ) by {
            if i < gs.len() - 1 {
                assert(init[i] == gs[i]);
            }
        }
        if overall_of(gs) == Grade::NotMeasured {
            assert forall|i: int| 0 <= i < gs.len() implies #[trigger] gs[i]
                == Grade::NotMeasured by {
                if i < gs.len() - 1 {
                    assert(init[i] == gs[i]);
                }
            }
        }
        if overall_of(gs) != Grade::NotMeasured {
            if overall_of(gs) == gs.last() {
                assert(gs[gs.len() - 1] == gs.last());
            } else {
                let k = choose|k: int| 0 <= k < init.len() && init[k] == overall_of(init);
                assert(gs[k] == init[k]);
            }
        }
    }
}

/// A finding another attribute claims: the index (invariant 3), the
/// supersede chain (invariant 4), a moved source, or a missing owner.
pub open spec fn claimed_elsewhere(m: Seq<char>) -> bool {
    contains(m, "(invariant 3)"@) || contains(m, "(invariant 4)"@) || has_prefix(
        m,
        "MOVED-SOURCE"@,
    ) || contains(m, "record has no owner"@)
}

/// How many of `fs` have a message satisfying `p`.
pub open spec fn count_messages(fs: Seq<(Seq<char>, Seq<char>)>, p: spec_fn(Seq<char>) -> bool) -> nat
    decreases fs.len(),
{
    if fs.len() == 0 {
        0
    } else {
        count_messages(fs.drop_last(), p) + if p(fs.last().1) {
            1nat
        } else {
            0nat
        }
    }
}

/// The Trusted grade: every finding no other attribute claims, plus the
/// projection's freshness.
pub open spec fn trusted_of(
    vs: Seq<(Seq<char>, Seq<char>)>,
    avs: Seq<(Seq<char>, Seq<char>)>,
    freshness: Option<Freshness>,
) -> Grade {
    if count_messages(vs, |m: Seq<char>| !claimed_elsewhere(m)) > 0 {
        Grade::HumanEra
    } else if count_messages(avs, |m: Seq<char>| !claimed_elsewhere(m)) > 0 {
        Grade::InTransition
    } else if freshness == Some(Freshness::Stale) {
        Grade::InTransition
    } else {
        Grade::AgentReady
    }
}

/// The Traceable grade: supersede-chain violations, then moved-source
/// advisories.
pub open spec fn traceable_of(vs: Seq<(Seq<char>, Seq<char>)>, avs: Seq<(Seq<char>, Seq<char>)>) -> Grade {
    if count_messages(vs, |m: Seq<char>| contains(m, "(invariant 4)"@)) > 0 {
        Grade::HumanEra
    } else if count_messages(avs, |m: Seq<char>| has_prefix(m, "MOVED-SOURCE"@)) > 0 {
        Grade::InTransition
    } else {
        Grade::AgentReady
    }
}

/// The Governed grade from `(owned, required)` owner coverage.
pub open spec fn governed_of(coverage: Option<(nat, nat)>) -> Grade {
    match coverage {
        None => Grade::NotMeasured,
        Some((owned, required)) => if owned == required {
            Grade::AgentReady
        } else if owned == 0 {
            Grade::HumanEra
        } else {
            Grade::InTransition
        },
    }
}

/// The bundle's glossary, `context/glossary.md`.
pub open spec fn glossary_path(bundle: Seq<char>) -> Seq<char> {
    join_path(join_path(bundle, "context"@), "glossary.md"@)
}

/// Whether the registry's constitution singleton is stored in `bundle`.
pub open spec fn constitution_present_in(store: MapStore, bundle: Seq<char>) -> bool {
    match row_for_token("constitution"@) {
        Some(row) => match row.identity {
            IdentityV::Singleton { file } => store.get(join_path(bundle, file)) is Some,
            _ => false,
        },
        None => false,
    }
}

/// The Contextual grade: a complete root index, a glossary and a
/// constitution.
pub open spec fn contextual_of(store: MapStore, bundle: Seq<char>, vs: Seq<(Seq<char>, Seq<char>)>) -> Grade {
    if count_messages(vs, |m: Seq<char>| contains(m, "(invariant 3)"@)) == 0 && store.get(
        glossary_path(bundle),
    ) is Some && constitution_present_in(store, bundle) {
        Grade::AgentReady
    } else {
        Grade::HumanEra
    }
}

/// The owner coverage of `bundle`, as naturals.
pub open spec fn coverage_of(store: MapStore, bundle: Seq<char>) -> Option<(nat, nat)> {
    let ps = store.listed(bundle);
    if count_required(store, ps) == 0 {
        None
    } else {
        Some((count_owned(store, ps), count_required(store, ps)))
    }
}

/// The scorecard of `bundle`, as the grades it holds.
pub open spec fn scorecard_grades(store: MapStore, bundle: Seq<char>, freshness: Option<Freshness>) -> (
    Grade,
    Grade,
    Grade,
    Grade,
) {
    let vs = pass_violations(store, bundle, false);
    let avs = advisory_findings(pass_advisories(store, bundle, false));
    (
        trusted_of(vs, avs, freshness),
        contextual_of(store, bundle, vs),
        traceable_of(vs, avs),
        governed_of(coverage_of(store, bundle)),
    )
}

fn is_claimed_elsewhere(m: &Vec<char>) -> (r: bool)
    ensures
        r == claimed_elsewhere(m@),
{
    contains_str(m, "(invariant 3)") || contains_str(m, "(invariant 4)") || starts_with_str(
        m,
        "MOVED-SOURCE",
    ) || contains_str(m, "record has no owner")
}

/// Which message test a count applies.
enum MessageTest {
    Unclaimed,
    Invariant3,
    Invariant4,
    MovedSource,
}

spec fn test_of(t: MessageTest) -> spec_fn(Seq<char>) -> bool {
    match t {
        MessageTest::Unclaimed => |m: Seq<char>| !claimed_elsewhere(m),
        MessageTest::Invariant3 => |m: Seq<char>| contains(m, "(invariant 3)"@),
        MessageTest::Invariant4 => |m: Seq<char>| contains(m, "(invariant 4)"@),
        MessageTest::MovedSource => |m: Seq<char>| has_prefix(m, "MOVED-SOURCE"@),
    }
}

fn passes(t: &MessageTest, m: &Vec<char>) -> (r: bool)
    ensures
        r == (test_of(*t))(m@),
{
    match t {
        MessageTest::Unclaimed => !is_claimed_elsewhere(m),
        MessageTest::Invariant3 => contains_str(m, "(invariant 3)"),
        MessageTest::Invariant4 => contains_str(m, "(invariant 4)"),
        MessageTest::MovedSource => starts_with_str(m, "MOVED-SOURCE"),
    }
}

fn count_where(fs: &Vec<Finding>, t: MessageTest) -> (r: usize)
    ensures
        r == count_messages(finding_views(fs@), test_of(t)),
{
    let ghost vs = finding_views(fs@);
    let mut n: usize = 0;
    let mut i: usize = 0;
    while i < fs.len()
        invariant
            i <= fs.len(),
            vs == finding_views(fs@),
            n == count_messages(vs.take(i as int), test_of(t)),
            n <= i,
        decreases fs.len() - i,
    {
        proof {
            assert(vs.take(i + 1).drop_last() == vs.take(i as int));
            assert(vs.take(i + 1).last() == vs[i as int]);
        }
        let m = chars_of_string(&fs[i].1);
        if passes(&t, &m) {
            n += 1;
        }
        i += 1;
    }
    assert(vs.take(fs.len() as int) == vs);
    n
}

/// How many of `entries` no other attribute claims.
fn count_unclaimed(entries: &Vec<Finding>) -> (r: usize)
    ensures
        r == count_messages(finding_views(entries@), |m: Seq<char>| !claimed_elsewhere(m)),
{
    proof {
        assert(test_of(MessageTest::Unclaimed) == (|m: Seq<char>| !claimed_elsewhere(m)));
    }
    count_where(entries, MessageTest::Unclaimed)
}

/// The Trusted grade: unclaimed violations, then unclaimed advisories,
/// then a stale projection.
fn trusted_grade(findings: &Findings, freshness: Option<Freshness>) -> (r: Grade)
    ensures
        r == trusted_of(
            finding_views(findings.violations@),
            finding_views(findings.advisories@),
            freshness,
        ),
{
    let violations = count_unclaimed(&findings.violations);
    let advisories = count_unclaimed(&findings.advisories);
    if violations > 0 {
        return Grade::HumanEra;
    }
    if advisories > 0 {
        return Grade::InTransition;
    }
    match freshness {
        Some(Freshness::Stale) => Grade::InTransition,
        _ => Grade::AgentReady,
    }
}

/// The Traceable grade: supersede-chain violations, then moved-source
/// advisories.
fn traceable_grade(findings: &Findings) -> (r: Grade)
    ensures
        r == traceable_of(finding_views(findings.violations@), finding_views(findings.advisories@)),
{
    proof {
        assert(test_of(MessageTest::Invariant4) == (|m: Seq<char>| contains(m, "(invariant 4)"@)));
        assert(test_of(MessageTest::MovedSource) == (|m: Seq<char>| has_prefix(
            m,
            "MOVED-SOURCE"@,
        )));
    }
    let violations = count_where(&findings.violations, MessageTest::Invariant4);
    let advisories = count_where(&findings.advisories, MessageTest::MovedSource);
    if violations > 0 {
        Grade::HumanEra
    } else if advisories > 0 {
        Grade::InTransition
    } else {
        Grade::AgentReady
    }
}

/// Whether the bundle's glossary is stored.
fn glossary_present(store: &MapStore, bundle: &Vec<char>) -> (r: bool)
    ensures
        r == (store.get(glossary_path(bundle@)) is Some),
{
    let glossary = string_of(&join_path_str(&join_path_str(bundle, "context"), "glossary.md"));
    store.read(&glossary).is_some()
}

/// The Contextual grade: a complete root index, a glossary and a
/// constitution.
fn contextual_grade(store: &MapStore, bundle: &Vec<char>, findings: &Findings) -> (r: Grade)
    ensures
        r == contextual_of(*store, bundle@, finding_views(findings.violations@)),
{
    proof {
        assert(test_of(MessageTest::Invariant3) == (|m: Seq<char>| contains(m, "(invariant 3)"@)));
    }
    let index_violations = count_where(&findings.violations, MessageTest::Invariant3);
    let complete = index_violations == 0 && glossary_present(store, bundle) && constitution_present(
        store,
        bundle,
    );
    if complete {
        Grade::AgentReady
    } else {
        Grade::HumanEra
    }
}

fn governed_grade(coverage: Option<(usize, usize)>) -> (r: Grade)
    ensures
        r == governed_of(
            match coverage {
                Some((o, q)) => Some((o as nat, q as nat)),
                None => None,
            },
        ),
{
    match coverage {
        None => Grade::NotMeasured,
        Some((owned, required)) => {
            if owned == required {
                Grade::AgentReady
            } else if owned == 0 {
                Grade::HumanEra
            } else {
                Grade::InTransition
            }
        },
    }
}

fn constitution_present(store: &MapStore, bundle: &Vec<char>) -> (r: bool)
    ensures
        r == constitution_present_in(*store, bundle@),
{
    match spec_for("constitution") {
        None => false,
        Some(spec) => match spec.identity {
            Identity::Singleton { file } => {
                let p = string_of(&join_path_str(bundle, file));
                store.read(&p).is_some()
            },
            _ => false,
        },
    }
}

/// Grades `bundle` from one `check` pass over `store`. `freshness` is the
/// projection's freshness when one is configured; it never blocks the
/// other attributes.
pub fn compute(store: &MapStore, bundle: &String, freshness: Option<Freshness>) -> (r: Scorecard)
    ensures
        (r.trusted, r.contextual, r.traceable, r.governed) == scorecard_grades(
            *store,
            bundle@,
            freshness,
        ),
        r.freshness == freshness,
        r.overall == overall_of(seq![r.trusted, r.contextual, r.traceable, r.governed]),
{
    let f = findings(store, bundle);
    let trusted = trusted_grade(&f, freshness);
    let b = chars_of_string(bundle);
    let contextual = contextual_grade(store, &b, &f);
    let traceable = traceable_grade(&f);
    let governed = governed_grade(owner_coverage(store, bundle));
    let grades = vec![trusted, contextual, traceable, governed];
    let overall = overall_grade(&grades);
    proof {
        assert(grades@ =~= seq![trusted, contextual, traceable, governed]);
    }
    Scorecard { trusted, contextual, traceable, governed, freshness, overall }
}

/// `label` padded with spaces to twelve columns.
pub open spec fn padded(label: Seq<char>) -> Seq<char> {
    if label.len() < 12 {
        label + Seq::new((12 - label.len()) as nat, |i: int| ' ')
    } else {
        label
    }
}

/// One table row: the padded label, the grade, and an optional note.
pub open spec fn row_text(label: Seq<char>, g: Grade, note: Option<Seq<char>>) -> Seq<char> {
    match note {
        Some(n) => padded(label) + grade_label(g) + "  ("@ + n + ")"@,
        None => padded(label) + grade_label(g),
    }
}

/// The freshness note on the Trusted row.
pub open spec fn freshness_note(f: Option<Freshness>) -> Seq<char> {
    "freshness: "@ + match f {
        Some(x) => freshness_label(x),
        None => grade_label(Grade::NotMeasured),
    }
}

/// The rendered table.
pub open spec fn table_text(s: Scorecard) -> Seq<char> {
    row_text("Trusted"@, s.trusted, Some(freshness_note(s.freshness))) + "\n"@ + row_text(
        "Contextual"@,
        s.contextual,
        None,
    ) + "\n"@ + row_text("Traceable"@, s.traceable, None) + "\n"@ + row_text(
        "Governed"@,
        s.governed,
        None,
    ) + "\n"@ + row_text("Overall"@, s.overall, None)
}

fn pad_into(out: &mut Vec<char>, label: &str)
    requires
        label@.len() < 12,
    ensures
        final(out)@ == old(out)@ + padded(label@),
{
    let lc = chars_of(label);
    extend(out, &lc);
    let mut k: usize = lc.len();
    while k < 12
        invariant
            label@.len() <= k <= 12,
            out@.len() == old(out)@.len() + k,
            out@.subrange(0, (old(out)@.len() + label@.len()) as int) == old(out)@ + label@,
            forall|j: int| old(out)@.len() + label@.len() <= j < out@.len() ==> out@[j] == ' ',
        decreases 12 - k,
    {
        out.push(' ');
        k += 1;
    }
    assert forall|j: int| 0 <= j < out@.len() implies out@[j] == (old(out)@ + padded(
        label@,
    ))[j] by {
        if j < old(out)@.len() + label@.len() {
            assert(out@.subrange(0, (old(out)@.len() + label@.len()) as int)[j] == out@[j]);
        }
    }
    assert(out@ =~= old(out)@ + padded(label@));
}

fn push_row(out: &mut Vec<char>, label: &str, g: Grade, note: Option<Vec<char>>)
    requires
        label@.len() < 12,
    ensures
        final(out)@ == old(out)@ + row_text(
            label@,
            g,
            match note {
                Some(n) => Some(n@),
                None => None,
            },
        ),
{
    pad_into(out, label);
    extend_str(out, g.as_str());
    match note {
        Some(n) => {
            extend_str(out, "  (");
            extend(out, &n);
            extend_str(out, ")");
            assert(out@ =~= old(out)@ + row_text(label@, g, Some(n@)));
        },
        None => {
            assert(out@ =~= old(out)@ + row_text(label@, g, None));
        },
    }
}

/// Renders the scorecard as five aligned rows, Trusted first (with its
/// freshness note) and Overall last.
pub fn render_table(scorecard: &Scorecard) -> (r: String)
    ensures
        r@ == table_text(*scorecard),
{
    proof {
        reveal_strlit("Trusted");
        reveal_strlit("Contextual");
        reveal_strlit("Traceable");
        reveal_strlit("Governed");
        reveal_strlit("Overall");
    }
    let mut note = chars_of("freshness: ");
    match scorecard.freshness {
        Some(f) => extend_str(&mut note, f.as_str()),
        None => extend_str(&mut note, Grade::NotMeasured.as_str()),
    }
    let mut out: Vec<char> = Vec::new();
    push_row(&mut out, "Trusted", scorecard.trusted, Some(note));
    let ghost a = out@;
    extend_str(&mut out, "\n");
    push_row(&mut out, "Contextual", scorecard.contextual, None);
    extend_str(&mut out, "\n");
    push_row(&mut out, "Traceable", scorecard.traceable, None);
    extend_str(&mut out, "\n");
    push_row(&mut out, "Governed", scorecard.governed, None);
    extend_str(&mut out, "\n");
    push_row(&mut out, "Overall", scorecard.overall, None);
    assert(out@ =~= table_text(*scorecard));
    string_of(&out)
}

/// The Governed grade follows owner coverage over the bundle's records
/// that require an owner: not measured when none requires one, agent-ready
/// when every one has an owner, human-era when none has, and in transition
/// when some but not all have.
pub proof fn lemma_governed_follows_owner_coverage(
    store: MapStore,
    bundle: Seq<char>,
    freshness: Option<Freshness>,
)
    ensures
        ({
            let ps = store.listed(bundle);
            let owned = count_owned(store, ps);
            let required = count_required(store, ps);
            let governed = scorecard_grades(store, bundle, freshness).3;
            &&& required == 0 ==> governed == Grade::NotMeasured
            &&& required > 0 && owned == required ==> governed == Grade::AgentReady
            &&& required > 0 && owned == 0 ==> governed == Grade::HumanEra
            &&& required > 0 && 0 < owned && owned != required ==> governed == Grade::InTransition
        }),
{
}

/// Partial owner coverage is in transition: with some but not all of the
/// records that require an owner owned, the Governed grade is neither
/// human-era nor agent-ready.
pub proof fn lemma_partial_coverage_is_in_transition(owned: nat, required: nat)
    requires
        0 < owned < required,
    ensures
        governed_of(Some((owned, required))) == Grade::InTransition,
{
}

} // verus!
