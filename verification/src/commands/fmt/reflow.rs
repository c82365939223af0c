//! Body-only prose reflow: joins each hard-wrapped prose block — a
//! paragraph, or a list item with its continuation lines — into one line
//! with a single space at each former break. Every non-prose construct
//! (fenced and indented code, tables, headings, blockquotes, thematic
//! breaks, setext underlines, HTML blocks and multi-line comments,
//! link-reference definitions, and lines ending in a hard break) stays byte
//! identical. The pass is a state machine over the body's lines.

use crate::pattern::{regex_found, regex_is_match};
use crate::text::{
    utf8_len, utf8_len_exec, utf8_size, lemma_utf8_size_split,
    chars_of, contains, contains_str, ends_with_str, has_prefix, has_suffix, is_blank,
    is_blank_exec, is_ws, is_ws_exec, join, join_exec, lines, lines_exec, nl, starts_with_str,
    string_of, trim, trim_end, trim_end_exec, trim_exec, trim_start, trim_start_exec,
};
use vstd::prelude::*;

verus! {

/// The reflow state after some lines: the emitted lines, the prose block
/// being gathered, the open fence's marker, and whether a multi-line
/// comment or an indented code block is open.
pub struct ReflowState {
    pub out: Seq<Seq<char>>,
    pub pending: Seq<Seq<char>>,
    pub fence: Option<Seq<char>>,
    pub in_comment: bool,
    pub in_code: bool,
}

/// The state before the first line.
pub open spec fn initial() -> ReflowState {
    ReflowState {
        out: Seq::<Seq<char>>::empty(),
        pending: Seq::<Seq<char>>::empty(),
        fence: None,
        in_comment: false,
        in_code: false,
    }
}

/// The list-item pattern: a bullet or an ordinal marker and whitespace.
pub open spec fn list_item_pattern() -> Seq<char> {
    "^\\s*(?:[-*+]|\\d+[.)])\\s+"@
}

/// The link-reference-definition pattern.
pub open spec fn link_reference_pattern() -> Seq<char> {
    "^\\s{0,3}\\[[^\\]]+\\]:"@
}

/// A line's fence marker, ``` or ~~~.
pub open spec fn fence_marker(l: Seq<char>) -> Option<Seq<char>> {
    if has_prefix(trim_start(l), "```"@) {
        Some("```"@)
    } else if has_prefix(trim_start(l), "~~~"@) {
        Some("~~~"@)
    } else {
        None
    }
}

/// An ATX heading: at most three bytes of indentation, then `#`.
pub open spec fn heading(l: Seq<char>) -> bool {
    let t = trim_start(l);
    utf8_size(l) - utf8_size(t) <= 3 && has_prefix(t, "#"@)
}

/// The non-whitespace characters of `s`.
pub open spec fn significant(s: Seq<char>) -> Seq<char> {
    s.filter(|c: char| !is_ws(c))
}

/// A thematic break or setext underline: three or more of one of
/// `-`, `=`, `*`, `_`, spaces aside.
pub open spec fn thematic(l: Seq<char>) -> bool {
    let s = significant(trim(l));
    s.len() >= 3 && (s[0] == '-' || s[0] == '=' || s[0] == '*' || s[0] == '_') && forall|i: int|
        0 <= i < s.len() ==> #[trigger] s[i] == s[0]
}

/// A line that stands alone: never joined to its neighbours.
pub open spec fn standalone(l: Seq<char>) -> bool {
    let t = trim_start(l);
    heading(l) || has_prefix(t, "|"@) || has_prefix(t, ">"@) || thematic(l) || regex_found(
        link_reference_pattern(),
        l,
    ) || (has_prefix(t, "<"@) && !has_prefix(t, "<!--"@))
}

/// A line that ends in a hard break: two spaces or a backslash.
pub open spec fn hard_break(l: Seq<char>) -> bool {
    has_suffix(l, "  "@) || has_suffix(l, "\\"@)
}

/// A line indented as code: four spaces or a tab.
pub open spec fn indented(l: Seq<char>) -> bool {
    has_prefix(l, "    "@) || has_prefix(l, "\t"@)
}

/// A prose line as the pending block stores it: a continuation line loses
/// its indentation; trailing whitespace goes unless the line ends in a hard
/// break.
pub open spec fn stored_line(l: Seq<char>, first: bool, hb: bool) -> Seq<char> {
    let kept = if first {
        l
    } else {
        trim_start(l)
    };
    if hb {
        kept
    } else {
        trim_end(kept)
    }
}

/// The state with one more emitted line.
pub open spec fn emitted(s: ReflowState, l: Seq<char>) -> ReflowState {
    ReflowState { out: s.out.push(l), ..s }
}

/// The state with one more line in the pending block.
pub open spec fn gathered(s: ReflowState, l: Seq<char>) -> ReflowState {
    ReflowState { pending: s.pending.push(l), ..s }
}

/// The state with its pending block emitted as one line.
pub open spec fn flushed(s: ReflowState) -> ReflowState {
    if s.pending.len() == 0 {
        s
    } else {
        ReflowState {
            out: s.out.push(join(s.pending, " "@)),
            pending: Seq::<Seq<char>>::empty(),
            ..s
        }
    }
}

/// Adds a prose or list line.
pub open spec fn prose_step(s: ReflowState, l: Seq<char>) -> ReflowState {
    let hb = hard_break(l);
    let s1 = if regex_found(list_item_pattern(), l) {
        let f = flushed(s);
        ReflowState { pending: f.pending.push(stored_line(l, true, hb)), ..f }
    } else if s.pending.len() == 0 {
        ReflowState { pending: s.pending.push(stored_line(l, true, hb)), ..s }
    } else {
        ReflowState { pending: s.pending.push(stored_line(l, false, hb)), ..s }
    };
    if hb {
        flushed(s1)
    } else {
        s1
    }
}

/// Adds a line once no fence or comment is open or opening.
pub open spec fn content_step(s: ReflowState, l: Seq<char>) -> ReflowState {
    if is_blank(l) {
        let f = flushed(s);
        ReflowState { out: f.out.push(Seq::<char>::empty()), in_code: false, ..f }
    } else if s.in_code {
        ReflowState { out: s.out.push(l), ..s }
    } else if indented(l) && s.pending.len() == 0 && (s.out.len() == 0 || s.out.last().len()
        == 0) {
        ReflowState { out: s.out.push(l), in_code: true, ..s }
    } else if standalone(l) {
        let f = flushed(s);
        ReflowState { out: f.out.push(l), ..f }
    } else {
        prose_step(s, l)
    }
}

/// The state after one more line.
pub open spec fn step(s: ReflowState, l: Seq<char>) -> ReflowState {
    match s.fence {
        Some(m) => ReflowState {
            out: s.out.push(l),
            fence: if has_prefix(trim_start(l), m) {
                None
            } else {
                s.fence
            },
            ..s
        },
        None => if s.in_comment {
            ReflowState { out: s.out.push(l), in_comment: !contains(l, "-->"@), ..s }
        } else {
            match fence_marker(l) {
                Some(m) => {
                    let f = flushed(s);
                    ReflowState { out: f.out.push(l), fence: Some(m), ..f }
                },
                None => if contains(l, "<!--"@) && !contains(l, "-->"@) {
                    let f = flushed(s);
                    ReflowState { out: f.out.push(l), in_comment: true, ..f }
                } else {
                    content_step(s, l)
                },
            }
        },
    }
}

/// The state after every line of `ls`.
pub open spec fn run_lines(ls: Seq<Seq<char>>) -> ReflowState
    decreases ls.len(),
{
    if ls.len() == 0 {
        initial()
    } else {
        step(run_lines(ls.drop_last()), ls.last())
    }
}

/// The reflowed body.
pub open spec fn reflowed(body: Seq<char>) -> Seq<char> {
    let joined = join(flushed(run_lines(lines(body))).out, nl());
    if has_suffix(body, "\n"@) {
        joined + "\n"@
    } else {
        joined
    }
}

/// The executable reflow state.
pub struct Reflower {
    out: Vec<Vec<char>>,
    pending: Vec<Vec<char>>,
    fence: Option<Vec<char>>,
    in_comment: bool,
    in_code: bool,
}

pub open spec fn lines_view(v: Seq<Vec<char>>) -> Seq<Seq<char>> {
    v.map_values(|x: Vec<char>| x@)
}

impl Reflower {
    pub closed spec fn state(&self) -> ReflowState {
        ReflowState {
            out: lines_view(self.out@),
            pending: lines_view(self.pending@),
            fence: match self.fence {
                Some(m) => Some(m@),
                None => None,
            },
            in_comment: self.in_comment,
            in_code: self.in_code,
        }
    }

    fn new() -> (r: Self)
        ensures
            r.state() == initial(),
    {
        let r = Reflower {
            out: Vec::new(),
            pending: Vec::new(),
            fence: None,
            in_comment: false,
            in_code: false,
        };
        assert(r.state().out =~= Seq::<Seq<char>>::empty());
        assert(r.state().pending =~= Seq::<Seq<char>>::empty());
        r
    }

    fn emit(&mut self, l: Vec<char>)
        ensures
            final(self).state() == emitted(old(self).state(), l@),
    {
        self.out.push(l);
        assert(lines_view(self.out@) =~= lines_view(old(self).out@).push(l@));
    }

    fn flush(&mut self)
        ensures
            final(self).state() == flushed(old(self).state()),
    {
        if self.pending.len() == 0 {
            return;
        }
        let sep = chars_of(" ");
        proof {
            reveal_strlit(" ");
        }
        let joined = join_exec(&self.pending, &sep);
        self.out.push(joined);
        self.pending = Vec::new();
        assert(lines_view(self.out@) =~= lines_view(old(self).out@).push(joined@));
        assert(lines_view(self.pending@) =~= Seq::<Seq<char>>::empty());
    }

    fn push_pending(&mut self, l: Vec<char>)
        ensures
            final(self).state() == gathered(old(self).state(), l@),
    {
        self.pending.push(l);
        assert(lines_view(self.pending@) =~= lines_view(old(self).pending@).push(l@));
    }

    /// Adds `l` to the pending prose block, starting a new block when `l`
    /// opens a list item, and flushes at once when `l` ends in a hard
    /// break.
    fn push_prose_or_list(&mut self, l: &Vec<char>)
        ensures
            final(self).state() == prose_step(old(self).state(), l@),
    {
        let hb = ends_with_hard_break(l);
        if is_list_item(l) {
            self.flush();
            let stored = store_line(l, true, hb);
            self.push_pending(stored);
        } else if self.pending.len() == 0 {
            let stored = store_line(l, true, hb);
            self.push_pending(stored);
        } else {
            let stored = store_line(l, false, hb);
            self.push_pending(stored);
        }
        if hb {
            self.flush();
        }
    }

    /// An indented line opens an indented code block when it follows a
    /// blank line (or starts the body) and no prose block is pending.
    fn starts_indented_code(&self, l: &Vec<char>) -> (r: bool)
        ensures
            r == (indented(l@) && self.state().pending.len() == 0 && (self.state().out.len() == 0
                || self.state().out.last().len() == 0)),
    {
        let after_blank = if self.out.len() == 0 {
            true
        } else {
            proof {
                assert(lines_view(self.out@).last() == self.out@[self.out.len() - 1]@);
            }
            self.out[self.out.len() - 1].len() == 0
        };
        is_indented(l) && self.pending.len() == 0 && after_blank
    }

    /// Handles ordinary content once no fence or comment is open or
    /// opening: blank lines, indented code, standalone constructs, and
    /// prose or list items.
    fn push_content(&mut self, l: &Vec<char>)
        ensures
            final(self).state() == content_step(old(self).state(), l@),
    {
        if is_blank_exec(l) {
            self.flush();
            self.in_code = false;
            self.emit(Vec::new());
            return;
        }
        if self.in_code {
            self.emit(l.clone());
            return;
        }
        if self.starts_indented_code(l) {
            self.emit(l.clone());
            self.in_code = true;
            return;
        }
        if is_standalone(l) {
            self.flush();
            self.emit(l.clone());
            return;
        }
        self.push_prose_or_list(l);
    }

    /// Emits `l` as it is when a fence is open, closing the fence when `l`
    /// carries its marker. Returns whether a fence was open.
    fn emit_inside_fence(&mut self, l: &Vec<char>) -> (r: bool)
        ensures
            r == old(self).state().fence is Some,
            r ==> final(self).state() == step(old(self).state(), l@),
            !r ==> final(self).state() == old(self).state(),
    {
        match &self.fence {
            Some(m) => {
                let closes = crate::text::starts_with(&trim_start_exec(l), m);
                self.emit(l.clone());
                if closes {
                    self.fence = None;
                }
                true
            },
            None => false,
        }
    }

    /// Emits `l` as it is when a multi-line comment is open, closing it
    /// when `l` carries `-->`. Returns whether a comment was open.
    fn emit_inside_comment(&mut self, l: &Vec<char>) -> (r: bool)
        requires
            old(self).state().fence is None,
        ensures
            r == old(self).state().in_comment,
            r ==> final(self).state() == step(old(self).state(), l@),
            !r ==> final(self).state() == old(self).state(),
    {
        if !self.in_comment {
            return false;
        }
        self.emit(l.clone());
        if contains_str(l, "-->") {
            self.in_comment = false;
        }
        true
    }

    /// Flushes the pending prose and opens a fence when `l` carries a
    /// fence marker. Returns whether a fence was opened.
    fn open_fence(&mut self, l: &Vec<char>) -> (r: bool)
        requires
            old(self).state().fence is None,
            !old(self).state().in_comment,
        ensures
            r == fence_marker(l@) is Some,
            r ==> final(self).state() == step(old(self).state(), l@),
            !r ==> final(self).state() == old(self).state(),
    {
        match fence_marker_exec(l) {
            Some(m) => {
                self.flush();
                self.emit(l.clone());
                self.fence = Some(m);
                true
            },
            None => false,
        }
    }

    /// Flushes the pending prose and opens a multi-line comment when `l`
    /// opens one without closing it. Returns whether a comment was opened.
    fn open_comment(&mut self, l: &Vec<char>) -> (r: bool)
        requires
            old(self).state().fence is None,
            !old(self).state().in_comment,
            fence_marker(l@) is None,
        ensures
            r == (contains(l@, "<!--"@) && !contains(l@, "-->"@)),
            r ==> final(self).state() == step(old(self).state(), l@),
            !r ==> final(self).state() == old(self).state(),
    {
        if !contains_str(l, "<!--") || contains_str(l, "-->") {
            return false;
        }
        self.flush();
        self.emit(l.clone());
        self.in_comment = true;
        true
    }

    /// Handles the constructs that are open, or that `l` opens: an open
    /// fence, an open comment, a fence marker, a comment opener. Returns
    /// whether one of them took `l`.
    fn push_open_construct(&mut self, l: &Vec<char>) -> (r: bool)
        ensures
            r ==> final(self).state() == step(old(self).state(), l@),
            !r ==> final(self).state() == old(self).state() && step(old(self).state(), l@)
                == content_step(old(self).state(), l@),
    {
        if self.emit_inside_fence(l) {
            return true;
        }
        if self.emit_inside_comment(l) {
            return true;
        }
        if self.open_fence(l) {
            return true;
        }
        self.open_comment(l)
    }

    fn push_line(&mut self, l: &Vec<char>)
        ensures
            final(self).state() == step(old(self).state(), l@),
    {
        if self.push_open_construct(l) {
            return;
        }
        self.push_content(l);
    }

    /// Flushes the last block and joins the lines, with a final newline
    /// when the body had one.
    fn finish(self, ends_with_newline: bool) -> (r: Vec<char>)
        ensures
            r@ == if ends_with_newline {
                join(flushed(self.state()).out, nl()) + "\n"@
            } else {
                join(flushed(self.state()).out, nl())
            },
    {
        let mut reflower = self;
        reflower.flush();
        let mut result = crate::text::join_lines(&reflower.out);
        if ends_with_newline {
            result.push('\n');
            proof {
                reveal_strlit("\n");
            }
            assert(result@ =~= join(flushed(self.state()).out, nl()) + "\n"@);
        }
        result
    }
}

/// A line ending in a hard-break marker: two spaces or a backslash.
fn ends_with_hard_break(l: &Vec<char>) -> (r: bool)
    ensures
        r == hard_break(l@),
{
    ends_with_str(l, "  ") || ends_with_str(l, "\\")
}

/// A line opening a list item.
fn is_list_item(l: &Vec<char>) -> (r: bool)
    ensures
        r == regex_found(list_item_pattern(), l@),
{
    let s = string_of(l);
    regex_is_match("^\\s*(?:[-*+]|\\d+[.)])\\s+", s.as_str())
}

/// A link-reference definition.
fn is_link_reference_definition(l: &Vec<char>) -> (r: bool)
    ensures
        r == regex_found(link_reference_pattern(), l@),
{
    let s = string_of(l);
    regex_is_match("^\\s{0,3}\\[[^\\]]+\\]:", s.as_str())
}

fn fence_marker_exec(l: &Vec<char>) -> (r: Option<Vec<char>>)
    ensures
        r matches Some(m) ==> fence_marker(l@) == Some(m@),
        r is None ==> fence_marker(l@) is None,
{
    let t = trim_start_exec(l);
    if starts_with_str(&t, "```") {
        Some(chars_of("```"))
    } else if starts_with_str(&t, "~~~") {
        Some(chars_of("~~~"))
    } else {
        None
    }
}

fn store_line(l: &Vec<char>, first: bool, hb: bool) -> (r: Vec<char>)
    ensures
        r@ == stored_line(l@, first, hb),
{
    let kept = if first {
        l.clone()
    } else {
        trim_start_exec(l)
    };
    if hb {
        kept
    } else {
        trim_end_exec(&kept)
    }
}

fn is_heading(l: &Vec<char>) -> (r: bool)
    ensures
        r == heading(l@),
{
    let start = crate::text::trim_start_index(l);
    let t = trim_start_exec(l);
    proof {
        lemma_utf8_size_split(l@, start as int);
    }
    let mut indent: usize = 0;
    let mut i: usize = 0;
    while i < start && indent <= 3
        invariant
            i <= start <= l.len(),
            indent == utf8_size(l@.take(i as int)),
            indent <= 7,
        decreases start - i,
    {
        proof {
            assert(l@.take(i + 1).drop_last() == l@.take(i as int));
            assert(l@.take(i + 1).last() == l@[i as int]);
        }
        indent += utf8_len_exec(l[i]);
        i += 1;
    }
    proof {
        let lt = l@.take(start as int);
        lemma_utf8_size_split(lt, i as int);
        assert(lt.take(i as int) == l@.take(i as int));
    }
    indent <= 3 && starts_with_str(&t, "#")
}

fn is_thematic_or_setext(l: &Vec<char>) -> (r: bool)
    ensures
        r == thematic(l@),
{
    let t = trim_exec(l);
    let mut sig: Vec<char> = Vec::new();
    let mut i: usize = 0;
    while i < t.len()
        invariant
            i <= t.len(),
            sig@ == t@.take(i as int).filter(|c: char| !is_ws(c)),
        decreases t.len() - i,
    {
        proof {
            assert(t@.take(i + 1) == t@.take(i as int).push(t@[i as int]));
            t@.take(i as int).lemma_filter_push(t@[i as int], |c: char| !is_ws(c));
        }
        if !is_ws_exec(t[i]) {
            sig.push(t[i]);
        }
        i += 1;
    }
    assert(t@.take(t.len() as int) == t@);
    assert(sig@ == significant(trim(l@)));
    if sig.len() < 3 {
        return false;
    }
    let first = sig[0];
    if !(first == '-' || first == '=' || first == '*' || first == '_') {
        return false;
    }
    let mut k: usize = 0;
    while k < sig.len()
        invariant
            k <= sig.len(),
            sig@ == significant(trim(l@)),
            first == sig@[0],
            forall|j: int| 0 <= j < k ==> #[trigger] sig@[j] == first,
        decreases sig.len() - k,
    {
        if sig[k] != first {
            assert(significant(trim(l@)) == sig@);
            assert(sig@[k as int] != sig@[0]);
            return false;
        }
        k += 1;
    }
    true
}

fn is_standalone(l: &Vec<char>) -> (r: bool)
    ensures
        r == standalone(l@),
{
    let t = trim_start_exec(l);
    is_heading(l) || starts_with_str(&t, "|") || starts_with_str(&t, ">")
        || is_thematic_or_setext(l) || is_link_reference_definition(l) || (starts_with_str(&t, "<")
        && !starts_with_str(&t, "<!--"))
}

fn is_indented(l: &Vec<char>) -> (r: bool)
    ensures
        r == indented(l@),
{
    starts_with_str(l, "    ") || starts_with_str(l, "\t")
}

/// Joins every hard-wrapped prose block in `body` into one line, leaving
/// every non-prose construct byte identical.
pub fn reflow_body(body: &str) -> (r: String)
    ensures
        r@ == reflowed(body@),
{
    let b = chars_of(body);
    let ends_with_newline = ends_with_str(&b, "\n");
    let ls = lines_exec(&b);
    let ghost lv = ls@.map_values(|v: Vec<char>| v@);
    let mut reflower = Reflower::new();
    let mut i: usize = 0;
    while i < ls.len()
        invariant
            i <= ls.len(),
            lv == ls@.map_values(|v: Vec<char>| v@),
            lv == lines(body@),
            reflower.state() == run_lines(lv.take(i as int)),
        decreases ls.len() - i,
    {
        proof {
            assert(lv.take(i + 1).drop_last() == lv.take(i as int));
            assert(lv.take(i + 1).last() == ls@[i as int]@);
        }
        reflower.push_line(&ls[i]);
        i += 1;
    }
    assert(lv.take(ls.len() as int) == lv);
    string_of(&reflower.finish(ends_with_newline))
}

} // verus!
