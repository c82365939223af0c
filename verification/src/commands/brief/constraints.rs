//! Per-slot authoring constraints: the instruction for a judgment slot
//! travels in the slot, as a `<!-- hint: … -->` line beside its
//! `<!-- judgment: … -->` marker, so the guidance reaches the author exactly
//! where they write and disappears once the slot is filled. Keyed by
//! `(doc_type, marker)`; a slot with no entry carries no hint.

use crate::text::{chars_of, eq_str};
use vstd::prelude::*;

verus! {

/// The constraint a `(doc_type, marker)` slot carries.
pub open spec fn constraint(doc_type: Seq<char>, marker: Seq<char>) -> Option<Seq<char>> {
    if doc_type == "adr"@ && marker == "context"@ {
        Some("the forces that made a decision necessary; <= 80 words; no solution here"@)
    } else if doc_type == "adr"@ && marker == "decision"@ {
        Some("one choice in active voice, and the rejected alternatives named"@)
    } else if doc_type == "adr"@ && marker == "consequences"@ {
        Some("what got easier and the trade-offs accepted; do not restate the code"@)
    } else if doc_type == "bdr"@ && marker == "textual-description"@ {
        Some("what an external observer sees; no rationale (that belongs in an ADR)"@)
    } else if doc_type == "bdr"@ && marker == "scenarios"@ {
        Some(
            "each an observable Given/When/Then an assertion can check, with a `Proves:` requirement id"@,
        )
    } else if doc_type == "prd"@ && marker == "problem-motivation"@ {
        Some("who asked and why now; no solution"@)
    } else if doc_type == "prd"@ && marker == "non-goals"@ {
        Some("what is explicitly out of scope"@)
    } else if doc_type == "prd"@ && marker == "requirements"@ {
        Some(
            "EARS-patterned FR-N/NFR-N; each an NFR is a quality-attribute scenario bound to an instrument"@,
        )
    } else if doc_type == "issue"@ && marker == "context"@ {
        Some(
            "the diff and its acceptance; decide small choices here, never defer with \"Needs an ADR\""@,
        )
    } else if doc_type == "research"@ && marker == "question"@ {
        Some("one answerable question; the claim must cite an external source"@)
    } else {
        None
    }
}

/// The constraint the `marker` slot of a `doc_type` record carries.
pub fn constraint_for(doc_type: &str, marker: &str) -> (r: Option<&'static str>)
    ensures
        r matches Some(s) ==> constraint(doc_type@, marker@) == Some(s@),
        r is None ==> constraint(doc_type@, marker@) is None,
{
    let d = chars_of(doc_type);
    let m = chars_of(marker);
    if eq_str(&d, "adr") && eq_str(&m, "context") {
        Some("the forces that made a decision necessary; <= 80 words; no solution here")
    } else if eq_str(&d, "adr") && eq_str(&m, "decision") {
        Some("one choice in active voice, and the rejected alternatives named")
    } else if eq_str(&d, "adr") && eq_str(&m, "consequences") {
        Some("what got easier and the trade-offs accepted; do not restate the code")
    } else if eq_str(&d, "bdr") && eq_str(&m, "textual-description") {
        Some("what an external observer sees; no rationale (that belongs in an ADR)")
    } else if eq_str(&d, "bdr") && eq_str(&m, "scenarios") {
        Some(
            "each an observable Given/When/Then an assertion can check, with a `Proves:` requirement id",
        )
    } else if eq_str(&d, "prd") && eq_str(&m, "problem-motivation") {
        Some("who asked and why now; no solution")
    } else if eq_str(&d, "prd") && eq_str(&m, "non-goals") {
        Some("what is explicitly out of scope")
    } else if eq_str(&d, "prd") && eq_str(&m, "requirements") {
        Some(
            "EARS-patterned FR-N/NFR-N; each an NFR is a quality-attribute scenario bound to an instrument",
        )
    } else if eq_str(&d, "issue") && eq_str(&m, "context") {
        Some(
            "the diff and its acceptance; decide small choices here, never defer with \"Needs an ADR\"",
        )
    } else if eq_str(&d, "research") && eq_str(&m, "question") {
        Some("one answerable question; the claim must cite an external source")
    } else {
        None
    }
}

} // verus!
