//! Table-driven classifier for doc-trail review findings: case-insensitive
//! substring rules read from a committed phrasing table. A finding lands in
//! the first category whose phrase it contains, or `Unclassified` — the
//! classifier reports "don't know" rather than guessing.

use crate::text::{
    chars_of, contains, contains_exec, eq_str, find_char_from, find_char_from_exec, has_prefix,
    lines, lines_exec, lowercase, lowercase_exec, slice, starts_with_str, string_of, trim,
    trim_exec,
};
use vstd::prelude::*;

verus! {

/// The phrasing table: one `token|phrase` rule per line, `#` comments and
/// blank lines ignored, earlier rules winning.
pub const PHRASINGS: &'static str = "# Doc-trail finding phrasings: `category|phrase`, matched case-insensitively
# against a finding's text. The first matching rule wins.
citation|cites an adr
citation|cites the adr
citation|cites a record
citation|record number in a comment
citation|issue number in a comment
index-row|index row
index-row|orphan record
index-row|missing from the index
index-row|not listed in the index
frontmatter|frontmatter
frontmatter|okf_version
envelope-protocol|envelope
envelope-protocol|protocol violation
";

/// The doc-trail finding categories, plus the explicit "no rule matched"
/// bucket.
#[derive(Clone, Copy, PartialEq, Eq, Debug, Structural)]
pub enum Category {
    Citation,
    IndexRow,
    Frontmatter,
    EnvelopeProtocol,
    Unclassified,
}

/// The category a table token names.
pub open spec fn category_of_token(t: Seq<char>) -> Option<Category> {
    if t == "citation"@ {
        Some(Category::Citation)
    } else if t == "index-row"@ {
        Some(Category::IndexRow)
    } else if t == "frontmatter"@ {
        Some(Category::Frontmatter)
    } else if t == "envelope-protocol"@ {
        Some(Category::EnvelopeProtocol)
    } else {
        None
    }
}

/// One table line read as a rule.
pub open spec fn rule_of(line: Seq<char>) -> Option<(Category, Seq<char>)> {
    let t = trim(line);
    if t.len() == 0 || has_prefix(t, "#"@) {
        None
    } else {
        match find_char_from(t, '|', 0) {
            None => None,
            Some(k) => match category_of_token(trim(t.take(k))) {
                None => None,
                Some(c) => Some((c, lowercase(trim(t.skip(k + 1))))),
            },
        }
    }
}

/// The rules `ls` hold, in order.
pub open spec fn rules_from(ls: Seq<Seq<char>>) -> Seq<(Category, Seq<char>)>
    decreases ls.len(),
{
    if ls.len() == 0 {
        Seq::<(Category, Seq<char>)>::empty()
    } else {
        rules_from(ls.drop_last()) + match rule_of(ls.last()) {
            Some(r) => seq![r],
            None => Seq::<(Category, Seq<char>)>::empty(),
        }
    }
}

/// The category of the first rule from `i` on whose phrase `h` contains.
pub open spec fn first_match(rs: Seq<(Category, Seq<char>)>, h: Seq<char>, i: int) -> Category
    decreases rs.len() - i,
{
    if i < 0 || i >= rs.len() {
        Category::Unclassified
    } else if contains(h, rs[i].1) {
        rs[i].0
    } else {
        first_match(rs, h, i + 1)
    }
}

/// The category of a finding `text` under the rules `rs`.
pub open spec fn category_for(rs: Seq<(Category, Seq<char>)>, text: Seq<char>) -> Category {
    first_match(rs, lowercase(text), 0)
}

pub open spec fn rule_views(v: Seq<(Category, String)>) -> Seq<(Category, Seq<char>)> {
    v.map_values(|r: (Category, String)| (r.0, r.1@))
}

impl Category {
    /// Every category but `Unclassified` is a doc-trail finding.
    pub fn is_doc_trail(self) -> (r: bool)
        ensures
            r == (self != Category::Unclassified),
    {
        !matches!(self, Category::Unclassified)
    }

    fn from_token(token: &Vec<char>) -> (r: Option<Category>)
        ensures
            r == category_of_token(token@),
    {
        if eq_str(token, "citation") {
            Some(Category::Citation)
        } else if eq_str(token, "index-row") {
            Some(Category::IndexRow)
        } else if eq_str(token, "frontmatter") {
            Some(Category::Frontmatter)
        } else if eq_str(token, "envelope-protocol") {
            Some(Category::EnvelopeProtocol)
        } else {
            None
        }
    }
}

fn parse_rule(line: &Vec<char>) -> (r: Option<(Category, String)>)
    ensures
        r matches Some(x) ==> rule_of(line@) == Some((x.0, x.1@)),
        r is None ==> rule_of(line@) is None,
{
    let t = trim_exec(line);
    if t.len() == 0 || starts_with_str(&t, "#") {
        return None;
    }
    let k = match find_char_from_exec(&t, '|', 0) {
        Some(k) => k,
        None => return None,
    };
    let head = slice(&t, 0, k);
    let tail = slice(&t, k + 1, t.len());
    assert(head@ == t@.take(k as int));
    assert(tail@ == t@.skip(k + 1));
    let token = trim_exec(&head);
    let phrase = trim_exec(&tail);
    match Category::from_token(&token) {
        None => None,
        Some(c) => {
            let low = lowercase_exec(&phrase);
            assert(phrase@ == trim(t@.skip(k + 1)));
            Some((c, string_of(&low)))
        },
    }
}

/// The rules of the committed phrasing table, in table order.
pub fn rules() -> (r: Vec<(Category, String)>)
    ensures
        rule_views(r@) == rules_from(lines(PHRASINGS@)),
{
    let ls = lines_exec(&chars_of(PHRASINGS));
    let ghost lv = ls@.map_values(|v: Vec<char>| v@);
    let mut out: Vec<(Category, String)> = Vec::new();
    let mut i: usize = 0;
    while i < ls.len()
        invariant
            i <= ls.len(),
            lv == ls@.map_values(|v: Vec<char>| v@),
            lv == lines(PHRASINGS@),
            rule_views(out@) == rules_from(lv.take(i as int)),
        decreases ls.len() - i,
    {
        proof {
            assert(lv.take(i + 1).drop_last() == lv.take(i as int));
            assert(lv.take(i + 1).last() == ls@[i as int]@);
        }
        match parse_rule(&ls[i]) {
            Some(r) => {
                let ghost before = out@;
                out.push(r);
                assert(rule_views(out@) =~= rule_views(before).push((r.0, r.1@)));
            },
            None => {
                assert(rules_from(lv.take(i + 1)) =~= rules_from(lv.take(i as int)));
            },
        }
        i += 1;
    }
    assert(lv.take(ls.len() as int) == lv);
    out
}

/// The category of the first of `rs` whose phrase `haystack` contains.
pub fn classify_with(rs: &Vec<(Category, String)>, haystack: &Vec<char>) -> (r: Category)
    ensures
        r == first_match(rule_views(rs@), haystack@, 0),
{
    let ghost rv = rule_views(rs@);
    let mut i: usize = 0;
    while i < rs.len()
        invariant
            i <= rs.len(),
            rv == rule_views(rs@),
            first_match(rv, haystack@, 0) == first_match(rv, haystack@, i as int),
        decreases rs.len() - i,
    {
        let p = chars_of(rs[i].1.as_str());
        if contains_exec(haystack, &p) {
            return rs[i].0;
        }
        i += 1;
    }
    Category::Unclassified
}

/// Classifies one finding's text against the committed phrasing table.
pub fn classify(text: &str) -> (r: Category)
    ensures
        r == category_for(rules_from(lines(PHRASINGS@)), text@),
{
    let haystack = lowercase_exec(&chars_of(text));
    classify_with(&rules(), &haystack)
}

/// A finding lands in the first rule whose phrase it contains: when rule
/// `k` matches and no earlier rule does, the category is rule `k`'s.
pub proof fn lemma_first_matching_rule_wins(rs: Seq<(Category, Seq<char>)>, h: Seq<char>, k: int)
    requires
        0 <= k < rs.len(),
        contains(h, rs[k].1),
        forall|j: int| 0 <= j < k ==> !contains(h, #[trigger] rs[j].1),
    ensures
        first_match(rs, h, 0) == rs[k].0,
{
    lemma_first_match_from(rs, h, 0, k);
}

proof fn lemma_first_match_from(rs: Seq<(Category, Seq<char>)>, h: Seq<char>, i: int, k: int)
    requires
        0 <= i <= k < rs.len(),
        contains(h, rs[k].1),
        forall|j: int| 0 <= j < k ==> !contains(h, #[trigger] rs[j].1),
    ensures
        first_match(rs, h, i) == rs[k].0,
    decreases k - i,
{
    if i < k {
        assert(!contains(h, rs[i].1));
        lemma_first_match_from(rs, h, i + 1, k);
    }
}

/// A finding no rule matches is unclassified.
pub proof fn lemma_no_match_is_unclassified(rs: Seq<(Category, Seq<char>)>, h: Seq<char>, i: int)
    requires
        0 <= i,
        forall|j: int| 0 <= j < rs.len() ==> !contains(h, #[trigger] rs[j].1),
    ensures
        first_match(rs, h, i) == Category::Unclassified,
    decreases rs.len() - i,
{
    if i < rs.len() {
        assert(!contains(h, rs[i].1));
        lemma_no_match_is_unclassified(rs, h, i + 1);
    }
}

/// No rule read from a table names the unclassified bucket.
pub proof fn lemma_rules_name_a_category(ls: Seq<Seq<char>>)
    ensures
        forall|j: int| 0 <= j < rules_from(ls).len() ==> (#[trigger] rules_from(ls)[j]).0
            != Category::Unclassified,
    decreases ls.len(),
{
    if ls.len() > 0 {
        lemma_rules_name_a_category(ls.drop_last());
        let a = rules_from(ls.drop_last());
        let b = match rule_of(ls.last()) {
            Some(r) => seq![r],
            None => Seq::<(Category, Seq<char>)>::empty(),
        };
        assert forall|j: int| 0 <= j < rules_from(ls).len() implies (#[trigger] rules_from(ls)[j]).0
            != Category::Unclassified by {
            if j < a.len() {
                assert(rules_from(ls)[j] == a[j]);
            } else {
                assert(rules_from(ls)[j] == b[j - a.len()]);
            }
        }
    }
}

/// Under the committed table, a finding whose lowercased text contains some
/// rule's phrase lands in the first such rule's category, never in the
/// unclassified bucket; one that contains none is unclassified.
pub proof fn lemma_classify_follows_the_table(text: Seq<char>, k: int)
    requires
        0 <= k < rules_from(lines(PHRASINGS@)).len(),
        contains(lowercase(text), rules_from(lines(PHRASINGS@))[k].1),
        forall|j: int|
            0 <= j < k ==> !contains(lowercase(text), #[trigger] rules_from(lines(PHRASINGS@))[j].1),
    ensures
        category_for(rules_from(lines(PHRASINGS@)), text) == rules_from(lines(PHRASINGS@))[k].0,
        category_for(rules_from(lines(PHRASINGS@)), text) != Category::Unclassified,
{
    lemma_first_matching_rule_wins(rules_from(lines(PHRASINGS@)), lowercase(text), k);
    lemma_rules_name_a_category(lines(PHRASINGS@));
}

} // verus!
