//! `/`-separated paths as character sequences: the parent, file name,
//! extension, join and component-prefix operations the bundle's record
//! paths need.

use crate::text::{
    chars_of, concat, eq, extend, has_prefix, rfind_char, rfind_char_exec, slice, starts_with,
};
use vstd::prelude::*;

verus! {

/// `Path::parent`: everything before the last `/` (`/` itself for a
/// top-level absolute path, the empty path for a bare name), `None` for
/// the empty path and for `/`.
pub open spec fn parent(p: Seq<char>) -> Option<Seq<char>> {
    if p.len() == 0 {
        None
    } else {
        match rfind_char(p, '/') {
            None => Some(Seq::<char>::empty()),
            Some(k) => if k == 0 {
                if p.len() == 1 {
                    None
                } else {
                    Some(seq!['/'])
                }
            } else {
                Some(p.take(k))
            },
        }
    }
}

/// `Path::file_name`: the text after the last `/`, `None` when empty.
pub open spec fn file_name(p: Seq<char>) -> Option<Seq<char>> {
    let rest = match rfind_char(p, '/') {
        None => p,
        Some(k) => p.skip(k + 1),
    };
    if rest.len() == 0 {
        None
    } else {
        Some(rest)
    }
}

/// The file name, or the empty text when there is none
/// (`file_name().unwrap_or_default()`).
pub open spec fn file_name_or_empty(p: Seq<char>) -> Seq<char> {
    match file_name(p) {
        Some(n) => n,
        None => Seq::<char>::empty(),
    }
}

/// `Path::join`: an absolute `name` replaces `dir`; otherwise the two are
/// joined with one `/`.
pub open spec fn join_path(dir: Seq<char>, name: Seq<char>) -> Seq<char> {
    if name.len() > 0 && name[0] == '/' {
        name
    } else if dir.len() == 0 {
        name
    } else if dir.last() == '/' {
        dir + name
    } else {
        dir + seq!['/'] + name
    }
}

/// `Path::starts_with`: `root` is a leading run of whole components of `p`.
pub open spec fn under(p: Seq<char>, root: Seq<char>) -> bool {
    root.len() == 0 || p == root || (root.last() == '/' && has_prefix(p, root)) || has_prefix(
        p,
        root + seq!['/'],
    )
}

/// `Path::extension`: the text after the last `.` of the file name, when
/// that `.` is not the name's first character.
pub open spec fn extension(p: Seq<char>) -> Option<Seq<char>> {
    match file_name(p) {
        None => None,
        Some(name) => match rfind_char(name, '.') {
            None => None,
            Some(k) => if k == 0 {
                None
            } else {
                Some(name.skip(k + 1))
            },
        },
    }
}

proof fn lemma_rfind_char_bounds(s: Seq<char>, c: char)
    ensures
        rfind_char(s, c) matches Some(k) ==> 0 <= k < s.len() && s[k] == c,
    decreases s.len(),
{
    if s.len() > 0 && s.last() != c {
        lemma_rfind_char_bounds(s.drop_last(), c);
    }
}

/// The parent directory of `p`.
pub fn parent_exec(p: &Vec<char>) -> (r: Option<Vec<char>>)
    ensures
        r matches Some(v) ==> parent(p@) == Some(v@),
        r is None ==> parent(p@) is None,
{
    if p.len() == 0 {
        return None;
    }
    match rfind_char_exec(p, '/') {
        None => Some(Vec::new()),
        Some(k) => {
            if k == 0 {
                if p.len() == 1 {
                    None
                } else {
                    let v = vec!['/'];
                    assert(v@ == seq!['/']);
                    Some(v)
                }
            } else {
                Some(slice(p, 0, k))
            }
        },
    }
}

/// The file name of `p`.
pub fn file_name_exec(p: &Vec<char>) -> (r: Option<Vec<char>>)
    ensures
        r matches Some(v) ==> file_name(p@) == Some(v@),
        r is None ==> file_name(p@) is None,
{
    let rest = match rfind_char_exec(p, '/') {
        None => p.clone(),
        Some(k) => slice(p, k + 1, p.len()),
    };
    if rest.len() == 0 {
        None
    } else {
        Some(rest)
    }
}

/// The file name of `p`, empty when it has none.
pub fn file_name_or_empty_exec(p: &Vec<char>) -> (r: Vec<char>)
    ensures
        r@ == file_name_or_empty(p@),
{
    match file_name_exec(p) {
        Some(n) => n,
        None => Vec::new(),
    }
}

/// `dir` joined with `name`.
pub fn join_path_exec(dir: &Vec<char>, name: &Vec<char>) -> (r: Vec<char>)
    ensures
        r@ == join_path(dir@, name@),
{
    if name.len() > 0 && name[0] == '/' {
        name.clone()
    } else if dir.len() == 0 {
        name.clone()
    } else if dir[dir.len() - 1] == '/' {
        concat(dir, name)
    } else {
        let mut r = dir.clone();
        r.push('/');
        extend(&mut r, name);
        assert(r@ == dir@ + seq!['/'] + name@);
        r
    }
}

/// `dir` joined with the string slice `name`.
pub fn join_path_str(dir: &Vec<char>, name: &str) -> (r: Vec<char>)
    ensures
        r@ == join_path(dir@, name@),
{
    let n = chars_of(name);
    join_path_exec(dir, &n)
}

/// Whether `p` lies under `root`, component-wise.
pub fn under_exec(p: &Vec<char>, root: &Vec<char>) -> (r: bool)
    ensures
        r == under(p@, root@),
{
    if root.len() == 0 || eq(p, root) {
        return true;
    }
    if root[root.len() - 1] == '/' && starts_with(p, root) {
        return true;
    }
    let mut with_slash = root.clone();
    with_slash.push('/');
    assert(with_slash@ == root@ + seq!['/']);
    starts_with(p, &with_slash)
}

/// The extension of `p`.
pub fn extension_exec(p: &Vec<char>) -> (r: Option<Vec<char>>)
    ensures
        r matches Some(v) ==> extension(p@) == Some(v@),
        r is None ==> extension(p@) is None,
{
    match file_name_exec(p) {
        None => None,
        Some(name) => match rfind_char_exec(&name, '.') {
            None => None,
            Some(k) => {
                if k == 0 {
                    None
                } else {
                    Some(slice(&name, k + 1, name.len()))
                }
            },
        },
    }
}

/// Whether `p`'s extension is exactly `md`.
pub fn is_markdown(p: &Vec<char>) -> (r: bool)
    ensures
        r == (extension(p@) == Some(seq!['m', 'd'])),
{
    match extension_exec(p) {
        None => false,
        Some(e) => {
            let md = vec!['m', 'd'];
            assert(md@ == seq!['m', 'd']);
            eq(&e, &md)
        },
    }
}


/// An ASCII letter or digit.
pub open spec fn ascii_alnum(c: char) -> bool {
    ('a' <= c && c <= 'z') || ('A' <= c && c <= 'Z') || ('0' <= c && c <= '9')
}

/// The slug state after reading `s`: the slug so far, and whether a
/// separator is owed before the next letter or digit.
pub open spec fn slug_state(s: Seq<char>) -> (Seq<char>, bool)
    decreases s.len(),
{
    if s.len() == 0 {
        (Seq::<char>::empty(), false)
    } else {
        let (out, gap) = slug_state(s.drop_last());
        let c = s.last();
        if ascii_alnum(c) {
            let out2 = if gap && out.len() > 0 {
                out.push('-')
            } else {
                out
            };
            (out2.push(crate::text::ascii_lower_char(c)), false)
        } else {
            (out, true)
        }
    }
}

/// The slug of a title: its ASCII letters and digits lowercased, each run
/// of other characters between them one `-`.
pub open spec fn slug(title: Seq<char>) -> Seq<char> {
    slug_state(title).0
}

/// The slug of `title`.
pub fn slugify(title: &str) -> (r: String)
    ensures
        r@ == slug(title@),
{
    let t = crate::text::chars_of(title);
    let mut out: Vec<char> = Vec::new();
    let mut gap = false;
    let mut i: usize = 0;
    while i < t.len()
        invariant
            i <= t.len(),
            (out@, gap) == slug_state(t@.take(i as int)),
        decreases t.len() - i,
    {
        proof {
            assert(t@.take(i + 1).drop_last() == t@.take(i as int));
            assert(t@.take(i + 1).last() == t@[i as int]);
        }
        let c = t[i];
        if ('a' <= c && c <= 'z') || ('A' <= c && c <= 'Z') || ('0' <= c && c <= '9') {
            if gap && out.len() > 0 {
                out.push('-');
            }
            out.push(crate::text::ascii_lower_char_exec(c));
            gap = false;
        } else {
            gap = true;
        }
        i += 1;
    }
    assert(t@.take(t.len() as int) == t@);
    crate::text::string_of(&out)
}

} // verus!
