//! Unfilled-placeholder check: a template slot left unfilled is a
//! mechanical defect, so `check` reports a `{{PLACEHOLDER}}` (with or
//! without its authoring hint) as a violation. Placeholders shown inside
//! code formatting are ignored, so a record that documents the slot syntax
//! is not flagged.

use crate::check::records::{reserved, reserved_path};
use crate::check::reporter::{lemma_per_path_step, per_path, Reporter};
use crate::frontmatter::{body_exec, body_of};
use crate::path::file_name_or_empty;
use crate::pattern::{regex_found, regex_is_match};
use crate::store::{path_views, MapStore};
use crate::text::{chars_of, chars_of_string, has_prefix, lines, lines_exec, starts_with_str, string_of, trim_start, trim_start_exec};
use vstd::prelude::*;

verus! {

/// The pattern of an unfilled slot: `{{`, one or more characters that are
/// no brace and no newline, `}}`.
pub open spec fn placeholder_pattern() -> Seq<char> {
    "\\{\\{[^{}\\n]+\\}\\}"@
}

/// Whether a backtick span is open after `s`, and what of `s` lies outside
/// spans.
pub open spec fn inline_state(s: Seq<char>) -> (bool, Seq<char>)
    decreases s.len(),
{
    if s.len() == 0 {
        (false, Seq::<char>::empty())
    } else {
        let (open, out) = inline_state(s.drop_last());
        let c = s.last();
        if c == '`' {
            (!open, out)
        } else if open {
            (open, out)
        } else {
            (open, out.push(c))
        }
    }
}

/// `l` with its inline `code` spans removed.
pub open spec fn without_inline_code(l: Seq<char>) -> Seq<char> {
    inline_state(l).1
}

/// A line that opens or closes a fenced code block.
pub open spec fn fence_line(l: Seq<char>) -> bool {
    has_prefix(trim_start(l), "```"@)
}

/// Whether `ls` end inside a fence, and the text of the lines outside
/// fences with their code spans removed, each ending in a newline.
pub open spec fn code_free_state(ls: Seq<Seq<char>>) -> (bool, Seq<char>)
    decreases ls.len(),
{
    if ls.len() == 0 {
        (false, Seq::<char>::empty())
    } else {
        let (fenced, out) = code_free_state(ls.drop_last());
        let l = ls.last();
        if fence_line(l) {
            (!fenced, out)
        } else if fenced {
            (fenced, out)
        } else {
            (fenced, out + without_inline_code(l) + seq!['\n'])
        }
    }
}

/// `text` with fenced blocks and inline code spans removed.
pub open spec fn code_free(text: Seq<char>) -> Seq<char> {
    code_free_state(lines(text)).1
}

/// The message for an unfilled slot.
pub open spec fn placeholder_message() -> Seq<char> {
    "unfilled {{PLACEHOLDER}} — fill the slot or remove it"@
}

/// The placeholder violation for one listed path.
pub open spec fn placeholder_findings(store: MapStore, f: Seq<char>) -> Seq<(Seq<char>, Seq<char>)> {
    if reserved(file_name_or_empty(f)) {
        Seq::<(Seq<char>, Seq<char>)>::empty()
    } else {
        match store.get(f) {
            None => Seq::<(Seq<char>, Seq<char>)>::empty(),
            Some(c) => if regex_found(placeholder_pattern(), code_free(body_of(c))) {
                seq![(f, placeholder_message())]
            } else {
                Seq::<(Seq<char>, Seq<char>)>::empty()
            },
        }
    }
}

/// `line` with its inline `code` spans removed.
pub fn strip_inline_code(line: &Vec<char>) -> (r: Vec<char>)
    ensures
        r@ == without_inline_code(line@),
{
    let mut out: Vec<char> = Vec::new();
    let mut open = false;
    let mut i: usize = 0;
    while i < line.len()
        invariant
            i <= line.len(),
            (open, out@) == inline_state(line@.take(i as int)),
        decreases line.len() - i,
    {
        proof {
            assert(line@.take(i + 1).drop_last() == line@.take(i as int));
            assert(line@.take(i + 1).last() == line@[i as int]);
        }
        let c = line[i];
        if c == '`' {
            open = !open;
        } else if !open {
            out.push(c);
        }
        i += 1;
    }
    assert(line@.take(line.len() as int) == line@);
    out
}

/// `text` with fenced ``` blocks and inline `code` spans removed, so text
/// that shows markup inside code formatting is not read as prose.
pub fn without_code(text: &Vec<char>) -> (r: Vec<char>)
    ensures
        r@ == code_free(text@),
{
    let ls = lines_exec(text);
    let ghost lv = ls@.map_values(|v: Vec<char>| v@);
    let mut out: Vec<char> = Vec::new();
    let mut fenced = false;
    let mut i: usize = 0;
    while i < ls.len()
        invariant
            i <= ls.len(),
            lv == ls@.map_values(|v: Vec<char>| v@),
            lv == lines(text@),
            (fenced, out@) == code_free_state(lv.take(i as int)),
        decreases ls.len() - i,
    {
        proof {
            assert(lv.take(i + 1).drop_last() == lv.take(i as int));
            assert(lv.take(i + 1).last() == ls@[i as int]@);
        }
        let l = &ls[i];
        let t = trim_start_exec(l);
        if starts_with_str(&t, "```") {
            fenced = !fenced;
        } else if !fenced {
            let s = strip_inline_code(l);
            let ghost before = out@;
            crate::text::extend(&mut out, &s);
            out.push('\n');
            assert(out@ =~= before + without_inline_code(l@) + seq!['\n']);
        }
        i += 1;
    }
    assert(lv.take(ls.len() as int) == lv);
    out
}

/// Whether `body` leaves a template slot unfilled outside code formatting.
pub fn has_unfilled_slot(body: &Vec<char>) -> (r: bool)
    ensures
        r == regex_found(placeholder_pattern(), code_free(body@)),
{
    let text = string_of(&without_code(body));
    regex_is_match("\\{\\{[^{}\\n]+\\}\\}", text.as_str())
}

/// Reports every record whose body leaves a `{{PLACEHOLDER}}` slot
/// unfilled outside code formatting.
pub fn check_placeholders(store: &MapStore, all_md: &Vec<String>, reporter: &mut Reporter)
    ensures
        final(reporter).viols() == old(reporter).viols() + per_path(
            path_views(all_md@),
            |f: Seq<char>| placeholder_findings(*store, f),
        ),
        final(reporter).advs() == old(reporter).advs(),
{
    let ghost ps = path_views(all_md@);
    let ghost g = |f: Seq<char>| placeholder_findings(*store, f);
    let mut i: usize = 0;
    assert(ps.take(0) =~= Seq::<Seq<char>>::empty());
    while i < all_md.len()
        invariant
            i <= all_md.len(),
            ps == path_views(all_md@),
            g == (|f: Seq<char>| placeholder_findings(*store, f)),
            reporter.viols() == old(reporter).viols() + per_path(ps.take(i as int), g),
            reporter.advs() == old(reporter).advs(),
        decreases all_md.len() - i,
    {
        proof {
            lemma_per_path_step(ps, g, i as int);
        }
        let f = &all_md[i];
        let ghost before = reporter.viols();
        let mut found = false;
        if !reserved_path(f) {
            match store.read(f) {
                None => {},
                Some(c) => {
                    if has_unfilled_slot(&body_exec(&chars_of_string(&c))) {
                        reporter.report(
                            f,
                            "unfilled {{PLACEHOLDER}} — fill the slot or remove it".to_string(),
                        );
                        found = true;
                    }
                },
            }
        }
        if !found {
            assert(before + Seq::<(Seq<char>, Seq<char>)>::empty() =~= before);
        }
        i += 1;
    }
    assert(ps.take(all_md.len() as int) == ps);
}

} // verus!
