//! The regular expressions the checks and verbs match with, run by the
//! `regex` crate.

use vstd::prelude::*;

verus! {

/// Whether `regex::Regex::new(pattern)` compiles and then finds a match
/// anywhere in `text` (`Regex::is_match`); false for a pattern that does
/// not compile. A function of the two texts alone.
pub uninterp spec fn regex_found(pattern: Seq<char>, text: Seq<char>) -> bool;

/// Compiles `pattern` with `regex::Regex::new` and reports whether
/// `Regex::is_match` finds it in `text`; a pattern that does not compile
/// matches nothing.
#[verifier::external_body]
pub(crate) fn regex_is_match(pattern: &str, text: &str) -> (r: bool)
    ensures
        r == regex_found(pattern@, text@),
{
    match regex::Regex::new(pattern) {
        Ok(re) => re.is_match(text),
        Err(_) => false,
    }
}


/// The characters that carry meaning in a regular expression
/// (`regex_syntax::is_meta_character`).
pub open spec fn is_meta(c: char) -> bool {
    c == '\\' || c == '.' || c == '+' || c == '*' || c == '?' || c == '(' || c == ')' || c == '|'
        || c == '[' || c == ']' || c == '{' || c == '}' || c == '^' || c == '$' || c == '#' || c
        == '&' || c == '-' || c == '~'
}

/// `text` with a backslash before every meta character.
pub open spec fn escaped(text: Seq<char>) -> Seq<char>
    decreases text.len(),
{
    if text.len() == 0 {
        Seq::empty()
    } else {
        escaped(text.drop_last()) + if is_meta(text.last()) {
            seq!['\\', text.last()]
        } else {
            seq![text.last()]
        }
    }
}

/// `regex::escape`: every meta character of `text` preceded by a backslash,
/// so the result matches `text` literally.
#[verifier::external_body]
pub(crate) fn regex_escape(text: &str) -> (r: String)
    ensures
        r@ == escaped(text@),
{
    regex::escape(text)
}


/// A mermaid node written with brackets: `ID[Label]`, `ID(Label)`,
/// `ID{Label}`, the label optionally quoted; the label is group 1.
pub const NODE_PATTERN: &'static str = r#"[A-Za-z0-9_]+[\[\(\{]+"?([^"\]\)\}|]+?)"?[\]\)\}]+"#;

/// A `participant` or `actor` declaration line; the declaration is group 1.
pub const PARTICIPANT_PATTERN: &'static str = r"(?m)^\s*(?:participant|actor)\s+(.+?)\s*$";

/// What `regex::Regex::captures_iter` finds of `pattern` in `text`: the
/// text of capture group 1 of each successive non-overlapping match, left
/// to right. A function of the two texts alone.
pub uninterp spec fn regex_first_groups(pattern: Seq<char>, text: Seq<char>) -> Seq<Seq<char>>;

/// Group 1 of every match of `pattern` in `text`, in order, as
/// `Regex::captures_iter` yields them; empty for a pattern that does not
/// compile. Called only with the two node patterns, whose group 1 takes
/// part in every match.
#[verifier::external_body]
pub(crate) fn regex_captures(pattern: &str, text: &str) -> (r: Vec<String>)
    requires
        pattern@ == NODE_PATTERN@ || pattern@ == PARTICIPANT_PATTERN@,
    ensures
        r@.map_values(|g: String| g@) == regex_first_groups(pattern@, text@),
{
    match regex::Regex::new(pattern) {
        Ok(re) => re.captures_iter(text).map(|c| c[1].to_string()).collect(),
        Err(_) => Vec::new(),
    }
}

} // verus!
