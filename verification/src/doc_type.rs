//! The single enumeration of the doc-type taxonomy. Every site that needs a
//! type's token, directory, frontmatter value, template, index rendering or
//! status vocabulary looks it up here, so those facts can never disagree.

use crate::templates::{
    ADR_TEMPLATE, CONSTITUTION_TEMPLATE, ISSUE_TEMPLATE, PRD_TEMPLATE, RESEARCH_TEMPLATE,
    VIEW_TEMPLATE,
};
use crate::text::{chars_of, eq, eq_ignore_case, eq_ignore_case_exec, eq_str};
use vstd::prelude::*;

verus! {

/// Where a doc type's records live.
#[derive(Clone, Copy, PartialEq, Eq, Debug)]
pub enum Identity {
    /// `<dir>/NNNN-<slug>.md`.
    Numbered { dir: &'static str },
    /// A single `<file>` relative to the bundle root.
    Singleton { file: &'static str },
    /// `<dir>/<slug>.md`, keyed by concern, never numbered.
    Named { dir: &'static str },
}

/// Whether a doc type's body is measured against the advisory line target.
#[derive(Clone, Copy, PartialEq, Eq, Debug, Structural)]
pub enum BodySize {
    Targeted,
    Exempt,
}

/// The axis `index` partitions a type's records along.
#[derive(Clone, Copy, PartialEq, Eq, Debug, Structural)]
pub enum IndexPartition {
    OpenClosed,
    ActiveSuperseded,
    Flat,
}

/// Everything a doc type needs to be created, indexed and checked.
#[derive(Debug)]
pub struct DocTypeSpec {
    pub token: &'static str,
    pub identity: Identity,
    pub frontmatter: &'static str,
    pub template: &'static str,
    pub index_heading: &'static str,
    pub index_partition: IndexPartition,
    pub web_creatable: bool,
    pub body_size: BodySize,
    /// The values `status` accepts for this type, in seed order: the first
    /// is the status a fresh record is born with. `Superseded` is never a
    /// member: only `supersede` sets it.
    pub status_vocabulary: Vec<&'static str>,
    /// Whether a record of this type without an `owner:` is a finding.
    pub requires_owner: bool,
    /// The statuses (compared ignoring ASCII case) that close a record of
    /// this type for good, besides `Superseded`.
    pub terminal_statuses: Vec<&'static str>,
}

/// The mathematical form of [`Identity`].
pub enum IdentityV {
    Numbered { dir: Seq<char> },
    Singleton { file: Seq<char> },
    Named { dir: Seq<char> },
}

/// The mathematical form of a [`DocTypeSpec`] row.
pub struct TypeRow {
    pub token: Seq<char>,
    pub identity: IdentityV,
    pub frontmatter: Seq<char>,
    pub template: Seq<char>,
    pub index_heading: Seq<char>,
    pub partition: IndexPartition,
    pub web_creatable: bool,
    pub body_size: BodySize,
    pub vocab: Seq<Seq<char>>,
    pub requires_owner: bool,
    pub terminal: Seq<Seq<char>>,
}

pub open spec fn strs_view(v: Seq<&'static str>) -> Seq<Seq<char>> {
    v.map_values(|s: &'static str| s@)
}

impl Identity {
    pub open spec fn view(self) -> IdentityV {
        match self {
            Identity::Numbered { dir } => IdentityV::Numbered { dir: dir@ },
            Identity::Singleton { file } => IdentityV::Singleton { file: file@ },
            Identity::Named { dir } => IdentityV::Named { dir: dir@ },
        }
    }
}

impl DocTypeSpec {
    pub open spec fn view(&self) -> TypeRow {
        TypeRow {
            token: self.token@,
            identity: self.identity.view(),
            frontmatter: self.frontmatter@,
            template: self.template@,
            index_heading: self.index_heading@,
            partition: self.index_partition,
            web_creatable: self.web_creatable,
            body_size: self.body_size,
            vocab: strs_view(self.status_vocabulary@),
            requires_owner: self.requires_owner,
            terminal: strs_view(self.terminal_statuses@),
        }
    }
}

/// Whether `status` retires a record of type `row`: `Superseded` for every
/// type, or one of the row's terminal statuses, ignoring ASCII case.
pub open spec fn row_retires(row: TypeRow, status: Seq<char>) -> bool {
    eq_ignore_case(status, "superseded"@) || exists|i: int|
        0 <= i < row.terminal.len() && eq_ignore_case(#[trigger] row.terminal[i], status)
}

pub open spec fn adr_row() -> TypeRow {
    TypeRow {
        token: "adr"@,
        identity: IdentityV::Numbered { dir: "adr"@ },
        frontmatter: "ADR"@,
        template: ADR_TEMPLATE@,
        index_heading: "ADRs"@,
        partition: IndexPartition::ActiveSuperseded,
        web_creatable: true,
        body_size: BodySize::Targeted,
        vocab: seq!["Proposed"@, "Accepted"@, "Deprecated"@],
        requires_owner: true,
        terminal: seq!["Deprecated"@],
    }
}

pub open spec fn prd_row() -> TypeRow {
    TypeRow {
        token: "prd"@,
        identity: IdentityV::Numbered { dir: "prd"@ },
        frontmatter: "PRD"@,
        template: PRD_TEMPLATE@,
        index_heading: "PRDs"@,
        partition: IndexPartition::ActiveSuperseded,
        web_creatable: true,
        body_size: BodySize::Targeted,
        vocab: seq!["Draft"@, "Accepted"@, "Implemented"@, "Deprecated"@],
        requires_owner: false,
        terminal: seq!["Deprecated"@],
    }
}

pub open spec fn issue_row() -> TypeRow {
    TypeRow {
        token: "issue"@,
        identity: IdentityV::Numbered { dir: "issues"@ },
        frontmatter: "Issue"@,
        template: ISSUE_TEMPLATE@,
        index_heading: "Issues"@,
        partition: IndexPartition::OpenClosed,
        web_creatable: true,
        body_size: BodySize::Targeted,
        vocab: seq!["open"@, "in-progress"@, "closed"@],
        requires_owner: false,
        terminal: seq!["closed"@, "done"@],
    }
}

pub open spec fn research_row() -> TypeRow {
    TypeRow {
        token: "research"@,
        identity: IdentityV::Numbered { dir: "research"@ },
        frontmatter: "Research"@,
        template: RESEARCH_TEMPLATE@,
        index_heading: "Research"@,
        partition: IndexPartition::Flat,
        web_creatable: true,
        body_size: BodySize::Exempt,
        vocab: seq!["Draft"@, "Accepted"@],
        requires_owner: false,
        terminal: Seq::<Seq<char>>::empty(),
    }
}

pub open spec fn view_row() -> TypeRow {
    TypeRow {
        token: "view"@,
        identity: IdentityV::Named { dir: "architecture"@ },
        frontmatter: "Architecture View"@,
        template: VIEW_TEMPLATE@,
        index_heading: "Architecture"@,
        partition: IndexPartition::Flat,
        web_creatable: false,
        body_size: BodySize::Targeted,
        vocab: Seq::<Seq<char>>::empty(),
        requires_owner: false,
        terminal: Seq::<Seq<char>>::empty(),
    }
}

pub open spec fn constitution_row() -> TypeRow {
    TypeRow {
        token: "constitution"@,
        identity: IdentityV::Singleton { file: "constitution.md"@ },
        frontmatter: "Constitution"@,
        template: CONSTITUTION_TEMPLATE@,
        index_heading: "Constitution"@,
        partition: IndexPartition::Flat,
        web_creatable: true,
        body_size: BodySize::Exempt,
        vocab: Seq::<Seq<char>>::empty(),
        requires_owner: false,
        terminal: Seq::<Seq<char>>::empty(),
    }
}

/// The registry, in its fixed order.
pub open spec fn registry() -> Seq<TypeRow> {
    seq![adr_row(), prd_row(), issue_row(), research_row(), view_row(), constitution_row()]
}

/// The directory a row's records live in, when it has one.
pub open spec fn row_dir(row: TypeRow) -> Option<Seq<char>> {
    match row.identity {
        IdentityV::Numbered { dir } => Some(dir),
        IdentityV::Named { dir } => Some(dir),
        IdentityV::Singleton { .. } => None,
    }
}

/// The first row from index `k` on whose token is `t`.
pub open spec fn first_with_token(t: Seq<char>, k: int) -> Option<TypeRow>
    decreases registry().len() - k,
{
    if k < 0 || k >= registry().len() {
        None
    } else if registry()[k].token == t {
        Some(registry()[k])
    } else {
        first_with_token(t, k + 1)
    }
}

/// The first row from index `k` on whose frontmatter value is `f`.
pub open spec fn first_with_frontmatter(f: Seq<char>, k: int) -> Option<TypeRow>
    decreases registry().len() - k,
{
    if k < 0 || k >= registry().len() {
        None
    } else if registry()[k].frontmatter == f {
        Some(registry()[k])
    } else {
        first_with_frontmatter(f, k + 1)
    }
}

/// The first row from index `k` on whose directory is `d`.
pub open spec fn first_with_dir(d: Seq<char>, k: int) -> Option<TypeRow>
    decreases registry().len() - k,
{
    if k < 0 || k >= registry().len() {
        None
    } else if row_dir(registry()[k]) == Some(d) {
        Some(registry()[k])
    } else {
        first_with_dir(d, k + 1)
    }
}

/// The row a CLI token names.
pub open spec fn row_for_token(t: Seq<char>) -> Option<TypeRow> {
    first_with_token(t, 0)
}

/// The row a `type:` frontmatter value names.
pub open spec fn row_for_frontmatter(f: Seq<char>) -> Option<TypeRow> {
    first_with_frontmatter(f, 0)
}

/// The row whose records live in directory `d`.
pub open spec fn row_for_dir(d: Seq<char>) -> Option<TypeRow> {
    first_with_dir(d, 0)
}

fn strs(v: Vec<&'static str>) -> (r: Vec<&'static str>)
    ensures
        r@ == v@,
{
    v
}

/// The ADR row.
pub fn adr() -> (r: DocTypeSpec)
    ensures
        r.view() == adr_row(),
{
    let r = DocTypeSpec {
        token: "adr",
        identity: Identity::Numbered { dir: "adr" },
        frontmatter: "ADR",
        template: ADR_TEMPLATE,
        index_heading: "ADRs",
        index_partition: IndexPartition::ActiveSuperseded,
        web_creatable: true,
        body_size: BodySize::Targeted,
        status_vocabulary: strs(vec!["Proposed", "Accepted", "Deprecated"]),
        requires_owner: true,
        terminal_statuses: strs(vec!["Deprecated"]),
    };
    assert(strs_view(r.status_vocabulary@) =~= seq!["Proposed"@, "Accepted"@, "Deprecated"@]);
    assert(strs_view(r.terminal_statuses@) =~= seq!["Deprecated"@]);
    r
}

/// The PRD row.
pub fn prd() -> (r: DocTypeSpec)
    ensures
        r.view() == prd_row(),
{
    let r = DocTypeSpec {
        token: "prd",
        identity: Identity::Numbered { dir: "prd" },
        frontmatter: "PRD",
        template: PRD_TEMPLATE,
        index_heading: "PRDs",
        index_partition: IndexPartition::ActiveSuperseded,
        web_creatable: true,
        body_size: BodySize::Targeted,
        status_vocabulary: strs(vec!["Draft", "Accepted", "Implemented", "Deprecated"]),
        requires_owner: false,
        terminal_statuses: strs(vec!["Deprecated"]),
    };
    assert(strs_view(r.status_vocabulary@) =~= seq![
        "Draft"@,
        "Accepted"@,
        "Implemented"@,
        "Deprecated"@,
    ]);
    assert(strs_view(r.terminal_statuses@) =~= seq!["Deprecated"@]);
    r
}

/// The Issue row.
pub fn issue() -> (r: DocTypeSpec)
    ensures
        r.view() == issue_row(),
{
    let r = DocTypeSpec {
        token: "issue",
        identity: Identity::Numbered { dir: "issues" },
        frontmatter: "Issue",
        template: ISSUE_TEMPLATE,
        index_heading: "Issues",
        index_partition: IndexPartition::OpenClosed,
        web_creatable: true,
        body_size: BodySize::Targeted,
        status_vocabulary: strs(vec!["open", "in-progress", "closed"]),
        requires_owner: false,
        terminal_statuses: strs(vec!["closed", "done"]),
    };
    assert(strs_view(r.status_vocabulary@) =~= seq!["open"@, "in-progress"@, "closed"@]);
    assert(strs_view(r.terminal_statuses@) =~= seq!["closed"@, "done"@]);
    r
}

/// The Research row.
pub fn research() -> (r: DocTypeSpec)
    ensures
        r.view() == research_row(),
{
    let r = DocTypeSpec {
        token: "research",
        identity: Identity::Numbered { dir: "research" },
        frontmatter: "Research",
        template: RESEARCH_TEMPLATE,
        index_heading: "Research",
        index_partition: IndexPartition::Flat,
        web_creatable: true,
        body_size: BodySize::Exempt,
        status_vocabulary: strs(vec!["Draft", "Accepted"]),
        requires_owner: false,
        terminal_statuses: Vec::new(),
    };
    assert(strs_view(r.status_vocabulary@) =~= seq!["Draft"@, "Accepted"@]);
    assert(strs_view(r.terminal_statuses@) =~= Seq::<Seq<char>>::empty());
    r
}

/// The Architecture View row: living records keyed by concern.
pub fn view() -> (r: DocTypeSpec)
    ensures
        r.view() == view_row(),
{
    let r = DocTypeSpec {
        token: "view",
        identity: Identity::Named { dir: "architecture" },
        frontmatter: "Architecture View",
        template: VIEW_TEMPLATE,
        index_heading: "Architecture",
        index_partition: IndexPartition::Flat,
        web_creatable: false,
        body_size: BodySize::Targeted,
        status_vocabulary: Vec::new(),
        requires_owner: false,
        terminal_statuses: Vec::new(),
    };
    assert(strs_view(r.status_vocabulary@) =~= Seq::<Seq<char>>::empty());
    assert(strs_view(r.terminal_statuses@) =~= Seq::<Seq<char>>::empty());
    r
}

/// The Constitution row: a single file at the bundle root.
pub fn constitution() -> (r: DocTypeSpec)
    ensures
        r.view() == constitution_row(),
{
    let r = DocTypeSpec {
        token: "constitution",
        identity: Identity::Singleton { file: "constitution.md" },
        frontmatter: "Constitution",
        template: CONSTITUTION_TEMPLATE,
        index_heading: "Constitution",
        index_partition: IndexPartition::Flat,
        web_creatable: true,
        body_size: BodySize::Exempt,
        status_vocabulary: Vec::new(),
        requires_owner: false,
        terminal_statuses: Vec::new(),
    };
    assert(strs_view(r.status_vocabulary@) =~= Seq::<Seq<char>>::empty());
    assert(strs_view(r.terminal_statuses@) =~= Seq::<Seq<char>>::empty());
    r
}

/// The whole registry, in its fixed order (`DOC_TYPES`).
pub fn doc_types() -> (r: Vec<DocTypeSpec>)
    ensures
        r@.len() == registry().len(),
        forall|i: int| 0 <= i < r@.len() ==> (#[trigger] r@[i]).view() == registry()[i],
{
    let r = vec![adr(), prd(), issue(), research(), view(), constitution()];
    r
}

/// The directory of a spec's records, when it has one.
pub fn dir_of(spec: &DocTypeSpec) -> (r: Option<&'static str>)
    ensures
        r matches Some(d) ==> row_dir(spec.view()) == Some(d@),
        r is None ==> row_dir(spec.view()) is None,
{
    match spec.identity {
        Identity::Numbered { dir } => Some(dir),
        Identity::Named { dir } => Some(dir),
        Identity::Singleton { .. } => None,
    }
}

impl DocTypeSpec {
    /// Whether `status` retires a record of this type: `Superseded` for
    /// every type, or one of this row's terminal statuses (ignoring ASCII
    /// case).
    pub fn is_retired(&self, status: &str) -> (r: bool)
        ensures
            r == row_retires(self.view(), status@),
    {
        let s = chars_of(status);
        if eq_ignore_case_exec(&s, &chars_of("superseded")) {
            return true;
        }
        let mut i: usize = 0;
        while i < self.terminal_statuses.len()
            invariant
                i <= self.terminal_statuses.len(),
                s@ == status@,
                !eq_ignore_case(status@, "superseded"@),
                forall|j: int|
                    0 <= j < i ==> !eq_ignore_case(
                        #[trigger] strs_view(self.terminal_statuses@)[j],
                        status@,
                    ),
            decreases self.terminal_statuses.len() - i,
        {
            let t = chars_of(self.terminal_statuses[i]);
            if eq_ignore_case_exec(&t, &s) {
                assert(strs_view(self.terminal_statuses@)[i as int] == t@);
                assert(eq_ignore_case(self.view().terminal[i as int], status@));
                return true;
            }
            i += 1;
        }
        false
    }

    /// Whether `status` is one of this type's vocabulary, exactly.
    pub fn accepts_status(&self, status: &str) -> (r: bool)
        ensures
            r == self.view().vocab.contains(status@),
    {
        let s = chars_of(status);
        let mut i: usize = 0;
        while i < self.status_vocabulary.len()
            invariant
                i <= self.status_vocabulary.len(),
                s@ == status@,
                forall|j: int|
                    0 <= j < i ==> #[trigger] strs_view(self.status_vocabulary@)[j] != status@,
            decreases self.status_vocabulary.len() - i,
        {
            let v = chars_of(self.status_vocabulary[i]);
            if eq(&v, &s) {
                assert(strs_view(self.status_vocabulary@)[i as int] == status@);
                return true;
            }
            i += 1;
        }
        false
    }
}

/// Looks up a doc type by its CLI token.
pub fn spec_for(token: &str) -> (r: Option<DocTypeSpec>)
    ensures
        r matches Some(d) ==> row_for_token(token@) == Some(d.view()),
        r is None ==> row_for_token(token@) is None,
{
    let all = doc_types();
    let mut i: usize = 0;
    let t = chars_of(token);
    while i < all.len()
        invariant
            i <= all.len(),
            t@ == token@,
            all@.len() == registry().len(),
            forall|j: int| 0 <= j < all@.len() ==> (#[trigger] all@[j]).view() == registry()[j],
            row_for_token(token@) == first_with_token(token@, i as int),
        decreases all.len() - i,
    {
        if eq_str(&t, all[i].token) {
            let mut all = all;
            return Some(all.remove(i));
        }
        i += 1;
    }
    None
}

/// Looks up a doc type by its `type:` frontmatter value. The values are
/// unique across the registry, so the first match is the only one.
pub fn spec_for_frontmatter(frontmatter: &str) -> (r: Option<DocTypeSpec>)
    ensures
        r matches Some(d) ==> row_for_frontmatter(frontmatter@) == Some(d.view()),
        r is None ==> row_for_frontmatter(frontmatter@) is None,
{
    let all = doc_types();
    let mut i: usize = 0;
    let t = chars_of(frontmatter);
    while i < all.len()
        invariant
            i <= all.len(),
            t@ == frontmatter@,
            all@.len() == registry().len(),
            forall|j: int| 0 <= j < all@.len() ==> (#[trigger] all@[j]).view() == registry()[j],
            row_for_frontmatter(frontmatter@) == first_with_frontmatter(frontmatter@, i as int),
        decreases all.len() - i,
    {
        if eq_str(&t, all[i].frontmatter) {
            let mut all = all;
            return Some(all.remove(i));
        }
        i += 1;
    }
    None
}

/// Whether a spec's records live in directory `dir`; a singleton has none.
pub fn matches_dir(spec: &DocTypeSpec, dir: &Vec<char>) -> (r: bool)
    ensures
        r == (row_dir(spec.view()) == Some(dir@)),
{
    match dir_of(spec) {
        Some(d) => eq_str(dir, d),
        None => false,
    }
}

/// Looks up a doc type by the directory its records live in.
pub fn spec_for_dir(dir: &str) -> (r: Option<DocTypeSpec>)
    ensures
        r matches Some(d) ==> row_for_dir(dir@) == Some(d.view()),
        r is None ==> row_for_dir(dir@) is None,
{
    let all = doc_types();
    let mut i: usize = 0;
    let t = chars_of(dir);
    while i < all.len()
        invariant
            i <= all.len(),
            t@ == dir@,
            all@.len() == registry().len(),
            forall|j: int| 0 <= j < all@.len() ==> (#[trigger] all@[j]).view() == registry()[j],
            row_for_dir(dir@) == first_with_dir(dir@, i as int),
        decreases all.len() - i,
    {
        if matches_dir(&all[i], &t) {
            let mut all = all;
            return Some(all.remove(i));
        }
        i += 1;
    }
    None
}

/// The registry's `type:` values are distinct: looking up any row's value
/// finds that row.
pub proof fn lemma_frontmatter_finds_its_row(k: int)
    requires
        0 <= k < registry().len(),
    ensures
        row_for_frontmatter(registry()[k].frontmatter) == Some(registry()[k]),
{
    reveal_strlit("ADR");
    reveal_strlit("PRD");
    reveal_strlit("Issue");
    reveal_strlit("Research");
    reveal_strlit("Architecture View");
    reveal_strlit("Constitution");
    let r = registry();
    assert(r[0].frontmatter[0] != r[1].frontmatter[0]);
    assert(forall|i: int, j: int|
        0 <= i < j < r.len() ==> #[trigger] r[i].frontmatter != #[trigger] r[j].frontmatter) by {
        assert forall|i: int, j: int| 0 <= i < j < r.len() implies #[trigger] r[i].frontmatter
            != #[trigger] r[j].frontmatter by {
            if i == 0 && j == 1 {
                assert(r[0].frontmatter[0] != r[1].frontmatter[0]);
            } else {
                assert(r[i].frontmatter.len() != r[j].frontmatter.len());
            }
        }
    }
    if k == 0 {
    } else if k == 1 {
        assert(first_with_frontmatter(r[1].frontmatter, 0) == first_with_frontmatter(r[1].frontmatter, 1));
    } else if k == 2 {
        assert(first_with_frontmatter(r[2].frontmatter, 0) == first_with_frontmatter(r[2].frontmatter, 1));
        assert(first_with_frontmatter(r[2].frontmatter, 1) == first_with_frontmatter(r[2].frontmatter, 2));
    } else if k == 3 {
        assert(first_with_frontmatter(r[3].frontmatter, 0) == first_with_frontmatter(r[3].frontmatter, 1));
        assert(first_with_frontmatter(r[3].frontmatter, 1) == first_with_frontmatter(r[3].frontmatter, 2));
        assert(first_with_frontmatter(r[3].frontmatter, 2) == first_with_frontmatter(r[3].frontmatter, 3));
    } else if k == 4 {
        assert(first_with_frontmatter(r[4].frontmatter, 0) == first_with_frontmatter(r[4].frontmatter, 1));
        assert(first_with_frontmatter(r[4].frontmatter, 1) == first_with_frontmatter(r[4].frontmatter, 2));
        assert(first_with_frontmatter(r[4].frontmatter, 2) == first_with_frontmatter(r[4].frontmatter, 3));
        assert(first_with_frontmatter(r[4].frontmatter, 3) == first_with_frontmatter(r[4].frontmatter, 4));
    } else {
        assert(first_with_frontmatter(r[5].frontmatter, 0) == first_with_frontmatter(r[5].frontmatter, 1));
        assert(first_with_frontmatter(r[5].frontmatter, 1) == first_with_frontmatter(r[5].frontmatter, 2));
        assert(first_with_frontmatter(r[5].frontmatter, 2) == first_with_frontmatter(r[5].frontmatter, 3));
        assert(first_with_frontmatter(r[5].frontmatter, 3) == first_with_frontmatter(r[5].frontmatter, 4));
        assert(first_with_frontmatter(r[5].frontmatter, 4) == first_with_frontmatter(r[5].frontmatter, 5));
    }
}

/// A directory lookup only ever gives a row whose records live in that
/// directory, so never a singleton row.
pub proof fn lemma_dir_lookup_lives_there(d: Seq<char>, k: int)
    ensures
        first_with_dir(d, k) matches Some(row) ==> row_dir(row) == Some(d),
    decreases registry().len() - k,
{
    if 0 <= k < registry().len() && row_dir(registry()[k]) != Some(d) {
        lemma_dir_lookup_lives_there(d, k + 1);
    }
}

/// The registry's directories are distinct: looking up the directory of
/// any numbered or named row finds that row.
pub proof fn lemma_dir_finds_its_row(k: int)
    requires
        0 <= k < registry().len(),
        row_dir(registry()[k]) is Some,
    ensures
        row_for_dir(row_dir(registry()[k])->Some_0) == Some(registry()[k]),
{
    reveal_strlit("adr");
    reveal_strlit("prd");
    reveal_strlit("issues");
    reveal_strlit("research");
    reveal_strlit("architecture");
    let r = registry();
    let d = row_dir(r[k])->Some_0;
    assert(forall|i: int| 0 <= i < k ==> #[trigger] row_dir(r[i]) != Some(d)) by {
        assert forall|i: int| 0 <= i < k implies #[trigger] row_dir(r[i]) != Some(d) by {
            if i == 0 && k == 1 {
                assert(row_dir(r[0])->Some_0[0] != d[0]);
            } else if row_dir(r[i]) is Some {
                assert(row_dir(r[i])->Some_0.len() != d.len());
            }
        }
    }
    if k >= 1 {
        assert(first_with_dir(d, 0) == first_with_dir(d, 1));
    }
    if k >= 2 {
        assert(first_with_dir(d, 1) == first_with_dir(d, 2));
    }
    if k >= 3 {
        assert(first_with_dir(d, 2) == first_with_dir(d, 3));
    }
    if k >= 4 {
        assert(first_with_dir(d, 3) == first_with_dir(d, 4));
    }
}

} // verus!
