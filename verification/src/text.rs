//! Character-sequence primitives every other module builds on: the
//! mathematical model of `str::lines`, `trim`, substring search, `join`,
//! and the executable functions that compute them over `Vec<char>`.

use vstd::prelude::*;

verus! {

// ---------------------------------------------------------------------
// Specification
// ---------------------------------------------------------------------

/// The Unicode `White_Space` property, which `char::is_whitespace` tests.
pub open spec fn is_ws(c: char) -> bool {
    let u = c as u32;
    u == 0x09 || u == 0x0A || u == 0x0B || u == 0x0C || u == 0x0D || u == 0x20 || u == 0x85
        || u == 0xA0 || u == 0x1680 || (0x2000 <= u && u <= 0x200A) || u == 0x2028 || u
        == 0x2029 || u == 0x202F || u == 0x205F || u == 0x3000
}

/// Every character of `s` is whitespace (`s.trim().is_empty()`).
pub open spec fn is_blank(s: Seq<char>) -> bool {
    forall|i: int| 0 <= i < s.len() ==> is_ws(#[trigger] s[i])
}

pub open spec fn trim_start(s: Seq<char>) -> Seq<char>
    decreases s.len(),
{
    if s.len() > 0 && is_ws(s[0]) {
        trim_start(s.drop_first())
    } else {
        s
    }
}

pub open spec fn trim_end(s: Seq<char>) -> Seq<char>
    decreases s.len(),
{
    if s.len() > 0 && is_ws(s.last()) {
        trim_end(s.drop_last())
    } else {
        s
    }
}

pub open spec fn trim(s: Seq<char>) -> Seq<char> {
    trim_end(trim_start(s))
}

/// `p` is a prefix of `s`.
pub open spec fn has_prefix(s: Seq<char>, p: Seq<char>) -> bool {
    p.len() <= s.len() && s.subrange(0, p.len() as int) == p
}

/// `p` is a suffix of `s`.
pub open spec fn has_suffix(s: Seq<char>, p: Seq<char>) -> bool {
    p.len() <= s.len() && s.subrange(s.len() - p.len(), s.len() as int) == p
}

/// `p` occurs in `s` starting at index `i`.
pub open spec fn occurs_at(s: Seq<char>, p: Seq<char>, i: int) -> bool {
    0 <= i && i + p.len() <= s.len() && s.subrange(i, i + p.len()) == p
}

/// The first index at or after `k` where `p` occurs in `s`.
pub open spec fn find_from(s: Seq<char>, p: Seq<char>, k: int) -> Option<int>
    decreases s.len() + 1 - k,
{
    if k < 0 || k + p.len() > s.len() {
        None
    } else if occurs_at(s, p, k) {
        Some(k)
    } else {
        find_from(s, p, k + 1)
    }
}

/// The first index where `p` occurs in `s` (`str::find`).
pub open spec fn find(s: Seq<char>, p: Seq<char>) -> Option<int> {
    find_from(s, p, 0)
}

/// `p` occurs somewhere in `s` (`str::contains`).
pub open spec fn contains(s: Seq<char>, p: Seq<char>) -> bool {
    find(s, p) is Some
}

/// The first index at or after `k` holding character `c`.
pub open spec fn find_char_from(s: Seq<char>, c: char, k: int) -> Option<int>
    decreases s.len() - k,
{
    if k < 0 || k >= s.len() {
        None
    } else if s[k] == c {
        Some(k)
    } else {
        find_char_from(s, c, k + 1)
    }
}

/// The last index holding character `c`.
pub open spec fn rfind_char(s: Seq<char>, c: char) -> Option<int>
    decreases s.len(),
{
    if s.len() == 0 {
        None
    } else if s.last() == c {
        Some(s.len() - 1)
    } else {
        rfind_char(s.drop_last(), c)
    }
}

/// `s.split(c)`: the pieces between occurrences of `c`, built from the
/// left so that each new character extends the last piece or opens a new
/// one.
pub open spec fn split_char(s: Seq<char>, c: char) -> Seq<Seq<char>>
    decreases s.len(),
{
    if s.len() == 0 {
        seq![Seq::<char>::empty()]
    } else {
        let p = split_char(s.drop_last(), c);
        if s.last() == c {
            p.push(Seq::<char>::empty())
        } else {
            p.update(p.len() - 1, p.last().push(s.last()))
        }
    }
}

/// One line as `str::lines` yields it: a trailing `\r` is dropped.
pub open spec fn strip_cr(l: Seq<char>) -> Seq<char> {
    if l.len() > 0 && l.last() == '\r' {
        l.drop_last()
    } else {
        l
    }
}

/// `str::lines`: split at `\n`, no empty final line after a trailing
/// newline, and a trailing `\r` removed from each line.
pub open spec fn lines(s: Seq<char>) -> Seq<Seq<char>> {
    let p = split_char(s, '\n');
    let q = if p.last().len() == 0 {
        p.drop_last()
    } else {
        p
    };
    q.map_values(|l: Seq<char>| strip_cr(l))
}

/// `parts.join(sep)`.
pub open spec fn join(parts: Seq<Seq<char>>, sep: Seq<char>) -> Seq<char>
    decreases parts.len(),
{
    if parts.len() == 0 {
        Seq::<char>::empty()
    } else if parts.len() == 1 {
        parts[0]
    } else {
        join(parts.drop_last(), sep) + sep + parts.last()
    }
}

/// The newline string.
pub open spec fn nl() -> Seq<char> {
    seq!['\n']
}

/// `str::replace(from, to)`: every non-overlapping occurrence of `from`,
/// left to right, replaced by `to`.
pub open spec fn replace_all(s: Seq<char>, from: Seq<char>, to: Seq<char>) -> Seq<char>
    decreases s.len(),
{
    if from.len() == 0 {
        s
    } else {
        match find(s, from) {
            None => s,
            Some(i) => {
                proof {
                    lemma_find_in_range(s, from, 0);
                }
                s.take(i) + to + replace_all(s.skip(i + from.len()), from, to)
            },
        }
    }
}

pub open spec fn is_ascii_digit(c: char) -> bool {
    '0' <= c && c <= '9'
}

pub open spec fn all_ascii_digits(s: Seq<char>) -> bool {
    forall|i: int| 0 <= i < s.len() ==> is_ascii_digit(#[trigger] s[i])
}

pub open spec fn ascii_lower_char(c: char) -> char {
    if 'A' <= c && c <= 'Z' {
        ((c as u32) + 32) as char
    } else {
        c
    }
}

/// `str::to_ascii_lowercase`.
pub open spec fn ascii_lower(s: Seq<char>) -> Seq<char> {
    s.map_values(|c: char| ascii_lower_char(c))
}

/// `str::eq_ignore_ascii_case`.
pub open spec fn eq_ignore_case(a: Seq<char>, b: Seq<char>) -> bool {
    ascii_lower(a) == ascii_lower(b)
}

/// What `str::to_lowercase` returns for `s`: the Unicode lowercase mapping,
/// a function of the text alone.
pub uninterp spec fn lowercase(s: Seq<char>) -> Seq<char>;

/// The value of a run of ASCII digits.
pub open spec fn digits_value(s: Seq<char>) -> nat
    decreases s.len(),
{
    if s.len() == 0 {
        0
    } else {
        digits_value(s.drop_last()) * 10 + ((s.last() as u32) - ('0' as u32)) as nat
    }
}

/// The decimal digits of `n`, no leading zeros (`"0"` for zero).
pub open spec fn decimal(n: nat) -> Seq<char>
    decreases n,
{
    if n < 10 {
        seq![(('0' as u32) + n) as char]
    } else {
        decimal(n / 10).push((('0' as u32) + (n % 10)) as char)
    }
}

/// `format!("{n:04}")`: the decimal digits left-padded with zeros to at
/// least four characters.
pub open spec fn pad4(n: nat) -> Seq<char> {
    let d = decimal(n);
    if d.len() >= 4 {
        d
    } else {
        Seq::new((4 - d.len()) as nat, |i: int| '0') + d
    }
}

// ---------------------------------------------------------------------
// Lemmas
// ---------------------------------------------------------------------

pub proof fn lemma_split_nonempty(s: Seq<char>, c: char)
    ensures
        split_char(s, c).len() >= 1,
    decreases s.len(),
{
    if s.len() > 0 {
        lemma_split_nonempty(s.drop_last(), c);
    }
}

pub proof fn lemma_join_extend_last(parts: Seq<Seq<char>>, sep: Seq<char>, x: char)
    requires
        parts.len() >= 1,
    ensures
        join(parts.update(parts.len() - 1, parts.last().push(x)), sep) == join(parts, sep).push(
            x,
        ),
{
    let q = parts.update(parts.len() - 1, parts.last().push(x));
    if parts.len() == 1 {
        assert(q[0] == parts[0].push(x));
    } else {
        assert(q.drop_last() == parts.drop_last());
        assert(join(q, sep) == join(q.drop_last(), sep) + sep + q.last());
        assert(join(parts, sep) == join(parts.drop_last(), sep) + sep + parts.last());
        assert(join(q, sep) == join(parts, sep).push(x));
    }
}

/// Joining the pieces of a split with the separator gives back the text.
pub proof fn lemma_join_split(s: Seq<char>, c: char)
    ensures
        join(split_char(s, c), seq![c]) == s,
    decreases s.len(),
{
    if s.len() == 0 {
    } else {
        let t = s.drop_last();
        lemma_join_split(t, c);
        lemma_split_nonempty(t, c);
        let p = split_char(t, c);
        if s.last() == c {
            let q = p.push(Seq::<char>::empty());
            assert(q.drop_last() == p);
            assert(join(q, seq![c]) == join(p, seq![c]) + seq![c] + Seq::<char>::empty());
            assert(s == t.push(c));
        } else {
            lemma_join_extend_last(p, seq![c], s.last());
            assert(s == t.push(s.last()));
        }
    }
}

// ---------------------------------------------------------------------
// Executable functions
// ---------------------------------------------------------------------

/// The characters of `s`, in order.
pub fn chars_of(s: &str) -> (v: Vec<char>)
    ensures
        v@ == s@,
{
    let mut v: Vec<char> = Vec::new();
    for c in it: s.chars()
        invariant
            v@ == it.seq().take(it.index() as int),
    {
        v.push(c);
    }
    v
}

/// Appends one character to a string (`String::push`).
#[verifier::external_body]
pub(crate) fn push_char(s: &mut String, c: char)
    ensures
        final(s)@ == old(s)@.push(c),
{
    s.push(c);
}

/// The string holding `v`'s characters.
pub fn string_of(v: &Vec<char>) -> (s: String)
    ensures
        s@ == v@,
{
    let mut s = String::new();
    let mut i: usize = 0;
    while i < v.len()
        invariant
            i <= v.len(),
            s@ == v@.take(i as int),
        decreases v.len() - i,
    {
        push_char(&mut s, v[i]);
        i += 1;
        assert(v@.take(i as int) == v@.take(i - 1).push(v@[i - 1]));
    }
    assert(v@.take(v.len() as int) == v@);
    s
}

/// The characters of a string.
pub fn chars_of_string(s: &String) -> (v: Vec<char>)
    ensures
        v@ == s@,
{
    chars_of(s.as_str())
}

/// Appends every character of `src` to `dst`.
pub fn extend(dst: &mut Vec<char>, src: &Vec<char>)
    ensures
        final(dst)@ == old(dst)@ + src@,
{
    let ghost start = dst@;
    let mut i: usize = 0;
    while i < src.len()
        invariant
            i <= src.len(),
            dst@ == start + src@.take(i as int),
        decreases src.len() - i,
    {
        dst.push(src[i]);
        i += 1;
        assert(src@.take(i as int) == src@.take(i - 1).push(src@[i - 1]));
    }
    assert(src@.take(src.len() as int) == src@);
}

/// Appends the characters of a string slice to `dst`.
pub fn extend_str(dst: &mut Vec<char>, src: &str)
    ensures
        final(dst)@ == old(dst)@ + src@,
{
    let c = chars_of(src);
    extend(dst, &c);
}

/// `a` followed by `b`.
pub fn concat(a: &Vec<char>, b: &Vec<char>) -> (r: Vec<char>)
    ensures
        r@ == a@ + b@,
{
    let mut r = a.clone();
    assert(r@ == a@);
    extend(&mut r, b);
    r
}

/// The characters `from..to` of `v`.
pub fn slice(v: &Vec<char>, from: usize, to: usize) -> (r: Vec<char>)
    requires
        from <= to <= v.len(),
    ensures
        r@ == v@.subrange(from as int, to as int),
{
    let mut r: Vec<char> = Vec::new();
    let mut i = from;
    while i < to
        invariant
            from <= i <= to <= v.len(),
            r@ == v@.subrange(from as int, i as int),
        decreases to - i,
    {
        r.push(v[i]);
        i += 1;
        assert(v@.subrange(from as int, i as int) == v@.subrange(from as int, i - 1).push(
            v@[i - 1],
        ));
    }
    r
}

/// Whether two character sequences are equal.
pub fn eq(a: &Vec<char>, b: &Vec<char>) -> (r: bool)
    ensures
        r == (a@ == b@),
{
    if a.len() != b.len() {
        return false;
    }
    let mut i: usize = 0;
    while i < a.len()
        invariant
            a.len() == b.len(),
            i <= a.len(),
            forall|j: int| 0 <= j < i ==> a@[j] == b@[j],
        decreases a.len() - i,
    {
        if a[i] != b[i] {
            return false;
        }
        i += 1;
    }
    assert(a@ == b@);
    true
}

/// Whether `v` spells the string slice `lit`.
pub fn eq_str(v: &Vec<char>, lit: &str) -> (r: bool)
    ensures
        r == (v@ == lit@),
{
    let l = chars_of(lit);
    eq(v, &l)
}

/// Whether `p` occurs in `s` at index `i`.
pub fn matches_at(s: &Vec<char>, p: &Vec<char>, i: usize) -> (r: bool)
    ensures
        r == occurs_at(s@, p@, i as int),
{
    if i > s.len() || p.len() > s.len() - i {
        return false;
    }
    let mut k: usize = 0;
    while k < p.len()
        invariant
            i + p.len() <= s.len(),
            k <= p.len(),
            forall|j: int| 0 <= j < k ==> s@[i + j] == p@[j],
        decreases p.len() - k,
    {
        if s[i + k] != p[k] {
            assert(s@.subrange(i as int, i + p.len())[k as int] != p@[k as int]);
            return false;
        }
        k += 1;
    }
    assert(s@.subrange(i as int, i + p.len()) == p@);
    true
}

/// Whether `s` starts with `p`.
pub fn starts_with(s: &Vec<char>, p: &Vec<char>) -> (r: bool)
    ensures
        r == has_prefix(s@, p@),
{
    matches_at(s, p, 0)
}

/// Whether `s` starts with the string slice `lit`.
pub fn starts_with_str(s: &Vec<char>, lit: &str) -> (r: bool)
    ensures
        r == has_prefix(s@, lit@),
{
    let p = chars_of(lit);
    starts_with(s, &p)
}

/// Whether `s` ends with `p`.
pub fn ends_with(s: &Vec<char>, p: &Vec<char>) -> (r: bool)
    ensures
        r == has_suffix(s@, p@),
{
    if p.len() > s.len() {
        return false;
    }
    let r = matches_at(s, p, s.len() - p.len());
    r
}

/// Whether `s` ends with the string slice `lit`.
pub fn ends_with_str(s: &Vec<char>, lit: &str) -> (r: bool)
    ensures
        r == has_suffix(s@, lit@),
{
    let p = chars_of(lit);
    ends_with(s, &p)
}

/// The first index at or after `k` where `p` occurs in `s`.
pub fn find_from_exec(s: &Vec<char>, p: &Vec<char>, k: usize) -> (r: Option<usize>)
    ensures
        r matches Some(i) ==> find_from(s@, p@, k as int) == Some(i as int) && occurs_at(
            s@,
            p@,
            i as int,
        ),
        r is None ==> find_from(s@, p@, k as int) is None,
{
    if p.len() > s.len() || k > s.len() - p.len() {
        return None;
    }
    let mut i = k;
    while i <= s.len() - p.len()
        invariant
            p.len() <= s.len(),
            k <= i,
            find_from(s@, p@, k as int) == find_from(s@, p@, i as int),
        decreases s.len() + 1 - i,
    {
        if matches_at(s, p, i) {
            return Some(i);
        }
        if i == s.len() - p.len() {
            assert(find_from(s@, p@, i + 1) is None);
            return None;
        }
        i += 1;
    }
    None
}

/// The first index where `p` occurs in `s`.
pub fn find_exec(s: &Vec<char>, p: &Vec<char>) -> (r: Option<usize>)
    ensures
        r matches Some(i) ==> find(s@, p@) == Some(i as int) && occurs_at(s@, p@, i as int),
        r is None ==> find(s@, p@) is None,
{
    find_from_exec(s, p, 0)
}

/// Whether `p` occurs in `s`.
pub fn contains_exec(s: &Vec<char>, p: &Vec<char>) -> (r: bool)
    ensures
        r == contains(s@, p@),
{
    find_exec(s, p).is_some()
}

/// Whether the string slice `lit` occurs in `s`.
pub fn contains_str(s: &Vec<char>, lit: &str) -> (r: bool)
    ensures
        r == contains(s@, lit@),
{
    let p = chars_of(lit);
    contains_exec(s, &p)
}

/// The first index at or after `k` holding `c`.
pub fn find_char_from_exec(s: &Vec<char>, c: char, k: usize) -> (r: Option<usize>)
    ensures
        r matches Some(i) ==> find_char_from(s@, c, k as int) == Some(i as int) && i < s.len(),
        r is None ==> find_char_from(s@, c, k as int) is None,
{
    let mut i = k;
    while i < s.len()
        invariant
            k <= i,
            find_char_from(s@, c, k as int) == find_char_from(s@, c, i as int),
        decreases s.len() - i,
    {
        if s[i] == c {
            return Some(i);
        }
        i += 1;
    }
    None
}

/// Whether `s` holds the character `c`.
pub fn has_char(s: &Vec<char>, c: char) -> (r: bool)
    ensures
        r == s@.contains(c),
{
    let mut i: usize = 0;
    while i < s.len()
        invariant
            i <= s.len(),
            forall|j: int| 0 <= j < i ==> s@[j] != c,
        decreases s.len() - i,
    {
        if s[i] == c {
            assert(s@[i as int] == c);
            return true;
        }
        i += 1;
    }
    false
}

/// The last index holding `c`.
pub fn rfind_char_exec(s: &Vec<char>, c: char) -> (r: Option<usize>)
    ensures
        r matches Some(i) ==> rfind_char(s@, c) == Some(i as int) && i < s.len(),
        r is None ==> rfind_char(s@, c) is None,
{
    let mut n = s.len();
    assert(s@.take(s.len() as int) == s@);
    while n > 0
        invariant
            n <= s.len(),
            rfind_char(s@, c) == rfind_char(s@.take(n as int), c),
        decreases n,
    {
        assert(s@.take(n as int).drop_last() == s@.take(n - 1));
        if s[n - 1] == c {
            return Some(n - 1);
        }
        n -= 1;
    }
    None
}

/// Unicode whitespace (`char::is_whitespace`).
pub fn is_ws_exec(c: char) -> (r: bool)
    ensures
        r == is_ws(c),
{
    let u = c as u32;
    u == 0x09 || u == 0x0A || u == 0x0B || u == 0x0C || u == 0x0D || u == 0x20 || u == 0x85
        || u == 0xA0 || u == 0x1680 || (0x2000 <= u && u <= 0x200A) || u == 0x2028 || u
        == 0x2029 || u == 0x202F || u == 0x205F || u == 0x3000
}

/// Whether every character of `s` is whitespace (`s.trim().is_empty()`).
pub fn is_blank_exec(s: &Vec<char>) -> (r: bool)
    ensures
        r == is_blank(s@),
{
    let mut i: usize = 0;
    while i < s.len()
        invariant
            i <= s.len(),
            forall|j: int| 0 <= j < i ==> is_ws(#[trigger] s@[j]),
        decreases s.len() - i,
    {
        if !is_ws_exec(s[i]) {
            return false;
        }
        i += 1;
    }
    true
}

/// The index of the first non-whitespace character.
pub fn trim_start_index(s: &Vec<char>) -> (r: usize)
    ensures
        r <= s.len(),
        trim_start(s@) == s@.skip(r as int),
        forall|j: int| 0 <= j < r ==> is_ws(#[trigger] s@[j]),
{
    let mut i: usize = 0;
    assert(s@.skip(0) == s@);
    while i < s.len() && is_ws_exec(s[i])
        invariant
            i <= s.len(),
            trim_start(s@) == trim_start(s@.skip(i as int)),
            forall|j: int| 0 <= j < i ==> is_ws(#[trigger] s@[j]),
        decreases s.len() - i,
    {
        assert(s@.skip(i as int).drop_first() == s@.skip(i + 1));
        i += 1;
    }
    proof {
        r_trim_start_done(s@, i as int);
    }
    i
}

proof fn r_trim_start_done(s: Seq<char>, i: int)
    requires
        0 <= i <= s.len(),
        i == s.len() || !is_ws(s[i]),
    ensures
        trim_start(s.skip(i)) == s.skip(i),
{
}

/// One past the index of the last non-whitespace character.
pub fn trim_end_index(s: &Vec<char>) -> (r: usize)
    ensures
        r <= s.len(),
        trim_end(s@) == s@.take(r as int),
        forall|j: int| r <= j < s.len() ==> is_ws(#[trigger] s@[j]),
{
    let mut n = s.len();
    assert(s@.take(s.len() as int) == s@);
    while n > 0 && is_ws_exec(s[n - 1])
        invariant
            n <= s.len(),
            trim_end(s@) == trim_end(s@.take(n as int)),
            forall|j: int| n <= j < s.len() ==> is_ws(#[trigger] s@[j]),
        decreases n,
    {
        assert(s@.take(n as int).drop_last() == s@.take(n - 1));
        n -= 1;
    }
    n
}

/// `s.trim_start()`.
pub fn trim_start_exec(s: &Vec<char>) -> (r: Vec<char>)
    ensures
        r@ == trim_start(s@),
{
    let i = trim_start_index(s);
    slice(s, i, s.len())
}

/// `s.trim_end()`.
pub fn trim_end_exec(s: &Vec<char>) -> (r: Vec<char>)
    ensures
        r@ == trim_end(s@),
{
    let n = trim_end_index(s);
    slice(s, 0, n)
}

/// `s.trim()`.
pub fn trim_exec(s: &Vec<char>) -> (r: Vec<char>)
    ensures
        r@ == trim(s@),
{
    let a = trim_start_exec(s);
    trim_end_exec(&a)
}

/// `s.split(c)`.
pub fn split_exec(s: &Vec<char>, c: char) -> (r: Vec<Vec<char>>)
    ensures
        r@.map_values(|v: Vec<char>| v@) == split_char(s@, c),
{
    let mut out: Vec<Vec<char>> = Vec::new();
    let mut cur: Vec<char> = Vec::new();
    let mut i: usize = 0;
    assert(s@.take(0) =~= Seq::<char>::empty());
    while i < s.len()
        invariant
            i <= s.len(),
            out@.map_values(|v: Vec<char>| v@).push(cur@) == split_char(s@.take(i as int), c),
        decreases s.len() - i,
    {
        let ghost before = out@.map_values(|v: Vec<char>| v@).push(cur@);
        let ghost t = s@.take(i + 1);
        assert(t.drop_last() == s@.take(i as int));
        if s[i] == c {
            let done = cur;
            out.push(done);
            cur = Vec::new();
            assert(out@.map_values(|v: Vec<char>| v@) == before);
        } else {
            cur.push(s[i]);
            assert(out@.map_values(|v: Vec<char>| v@).push(cur@) == before.update(
                before.len() - 1,
                before.last().push(s@[i as int]),
            ));
        }
        i += 1;
    }
    assert(s@.take(s.len() as int) == s@);
    out.push(cur);
    assert(out@.map_values(|v: Vec<char>| v@) == split_char(s@, c));
    out
}

/// Drops one trailing `\r`.
pub fn strip_cr_exec(l: Vec<char>) -> (r: Vec<char>)
    ensures
        r@ == strip_cr(l@),
{
    let mut l = l;
    if l.len() > 0 && l[l.len() - 1] == '\r' {
        l.pop();
    }
    l
}

/// `s.lines()`.
pub fn lines_exec(s: &Vec<char>) -> (r: Vec<Vec<char>>)
    ensures
        r@.map_values(|v: Vec<char>| v@) == lines(s@),
{
    let pieces = split_exec(s, '\n');
    proof {
        lemma_split_nonempty(s@, '\n');
    }
    let ghost p = split_char(s@, '\n');
    let n = if pieces[pieces.len() - 1].len() == 0 {
        pieces.len() - 1
    } else {
        pieces.len()
    };
    let ghost q = if p.last().len() == 0 {
        p.drop_last()
    } else {
        p
    };
    assert(q.len() == n);
    let mut out: Vec<Vec<char>> = Vec::new();
    let mut i: usize = 0;
    while i < n
        invariant
            i <= n <= pieces.len(),
            pieces@.map_values(|v: Vec<char>| v@) == p,
            q.len() == n,
            forall|j: int| 0 <= j < n ==> q[j] == p[j],
            out@.map_values(|v: Vec<char>| v@) == q.take(i as int).map_values(
                |l: Seq<char>| strip_cr(l),
            ),
        decreases n - i,
    {
        let line = strip_cr_exec(pieces[i].clone());
        out.push(line);
        i += 1;
        assert(q.take(i as int).map_values(|l: Seq<char>| strip_cr(l)) == q.take(
            i - 1,
        ).map_values(|l: Seq<char>| strip_cr(l)).push(strip_cr(q[i - 1])));
    }
    assert(q.take(n as int) == q);
    out
}

/// The lines of a string slice.
pub fn lines_of(s: &str) -> (r: Vec<Vec<char>>)
    ensures
        r@.map_values(|v: Vec<char>| v@) == lines(s@),
{
    let c = chars_of(s);
    lines_exec(&c)
}

/// `parts.join(sep)`.
pub fn join_exec(parts: &Vec<Vec<char>>, sep: &Vec<char>) -> (r: Vec<char>)
    ensures
        r@ == join(parts@.map_values(|v: Vec<char>| v@), sep@),
{
    let ghost ps = parts@.map_values(|v: Vec<char>| v@);
    let mut out: Vec<char> = Vec::new();
    let mut i: usize = 0;
    while i < parts.len()
        invariant
            i <= parts.len(),
            ps == parts@.map_values(|v: Vec<char>| v@),
            out@ == join(ps.take(i as int), sep@),
        decreases parts.len() - i,
    {
        if i > 0 {
            extend(&mut out, sep);
        }
        extend(&mut out, &parts[i]);
        proof {
            let t = ps.take(i + 1);
            assert(t.drop_last() == ps.take(i as int));
            if i == 0 {
                assert(ps.take(0) =~= Seq::<Seq<char>>::empty());
            }
        }
        i += 1;
    }
    assert(ps.take(parts.len() as int) == ps);
    out
}

/// `parts.join("\n")`.
pub fn join_lines(parts: &Vec<Vec<char>>) -> (r: Vec<char>)
    ensures
        r@ == join(parts@.map_values(|v: Vec<char>| v@), nl()),
{
    let sep = vec!['\n'];
    assert(sep@ == nl());
    join_exec(parts, &sep)
}

pub fn is_ascii_digit_exec(c: char) -> (r: bool)
    ensures
        r == is_ascii_digit(c),
{
    '0' <= c && c <= '9'
}

/// Whether every character of `s` is an ASCII digit.
pub fn all_digits_exec(s: &Vec<char>) -> (r: bool)
    ensures
        r == all_ascii_digits(s@),
{
    let mut i: usize = 0;
    while i < s.len()
        invariant
            i <= s.len(),
            forall|j: int| 0 <= j < i ==> is_ascii_digit(#[trigger] s@[j]),
        decreases s.len() - i,
    {
        if !is_ascii_digit_exec(s[i]) {
            return false;
        }
        i += 1;
    }
    true
}

pub fn ascii_lower_char_exec(c: char) -> (r: char)
    ensures
        r == ascii_lower_char(c),
{
    if 'A' <= c && c <= 'Z' {
        let u = (c as u32) + 32;
        assert(u < 0xD800);
        char_from_ascii(u)
    } else {
        c
    }
}

/// The character with an ASCII code point.
pub fn char_from_ascii(u: u32) -> (r: char)
    requires
        u < 128,
    ensures
        r == u as char,
{
    (u as u8) as char
}

/// `s.to_ascii_lowercase()`.
pub fn ascii_lower_exec(s: &Vec<char>) -> (r: Vec<char>)
    ensures
        r@ == ascii_lower(s@),
{
    let mut out: Vec<char> = Vec::new();
    let mut i: usize = 0;
    while i < s.len()
        invariant
            i <= s.len(),
            out@ == ascii_lower(s@.take(i as int)),
        decreases s.len() - i,
    {
        out.push(ascii_lower_char_exec(s[i]));
        i += 1;
        assert(ascii_lower(s@.take(i as int)) == ascii_lower(s@.take(i - 1)).push(
            ascii_lower_char(s@[i - 1]),
        ));
    }
    assert(s@.take(s.len() as int) == s@);
    out
}

/// `a.eq_ignore_ascii_case(b)`.
pub fn eq_ignore_case_exec(a: &Vec<char>, b: &Vec<char>) -> (r: bool)
    ensures
        r == eq_ignore_case(a@, b@),
{
    let la = ascii_lower_exec(a);
    let lb = ascii_lower_exec(b);
    eq(&la, &lb)
}

/// `a.eq_ignore_ascii_case(lit)`.
pub fn eq_ignore_case_str(a: &Vec<char>, lit: &str) -> (r: bool)
    ensures
        r == eq_ignore_case(a@, lit@),
{
    let b = chars_of(lit);
    eq_ignore_case_exec(a, &b)
}

/// `str::to_lowercase`.
#[verifier::external_body]
pub(crate) fn lowercase_exec(s: &Vec<char>) -> (r: Vec<char>)
    ensures
        r@ == lowercase(s@),
{
    let text: String = s.iter().collect();
    text.to_lowercase().chars().collect()
}

/// The value of a run of ASCII digits, when it fits in a `u64`.
pub fn parse_digits(s: &Vec<char>) -> (r: Option<u64>)
    requires
        all_ascii_digits(s@),
    ensures
        r matches Some(n) ==> n == digits_value(s@),
        r is None ==> digits_value(s@) > u64::MAX,
{
    let mut acc: u64 = 0;
    let mut i: usize = 0;
    while i < s.len()
        invariant
            i <= s.len(),
            all_ascii_digits(s@),
            acc == digits_value(s@.take(i as int)),
        decreases s.len() - i,
    {
        let d = (s[i] as u32 - '0' as u32) as u64;
        assert(s@.take(i + 1).drop_last() == s@.take(i as int));
        if acc > (u64::MAX - d) / 10 {
            proof {
                lemma_digits_value_grows(s@, i as int + 1);
            }
            return None;
        }
        acc = acc * 10 + d;
        i += 1;
    }
    assert(s@.take(s.len() as int) == s@);
    Some(acc)
}

proof fn lemma_digits_value_prefix(s: Seq<char>, k: int)
    requires
        0 <= k <= s.len(),
        all_ascii_digits(s),
    ensures
        digits_value(s.take(k)) <= digits_value(s),
    decreases s.len() - k,
{
    if k < s.len() {
        lemma_digits_value_prefix(s, k + 1);
        assert(s.take(k + 1).drop_last() == s.take(k));
    } else {
        assert(s.take(k) == s);
    }
}

proof fn lemma_digits_value_grows(s: Seq<char>, k: int)
    requires
        0 < k <= s.len(),
        all_ascii_digits(s),
        digits_value(s.take(k - 1)) > (u64::MAX - ((s[k - 1] as u32) - ('0' as u32))) / 10,
    ensures
        digits_value(s) > u64::MAX,
{
    assert(s.take(k).drop_last() == s.take(k - 1));
    assert(s.take(k).last() == s[k - 1]);
    lemma_digits_value_prefix(s, k);
}

/// The decimal digits of `n`.
pub fn decimal_exec(n: u64) -> (r: Vec<char>)
    ensures
        r@ == decimal(n as nat),
    decreases n,
{
    if n < 10 {
        let c = char_from_ascii(('0' as u32) + (n as u32));
        vec![c]
    } else {
        let mut r = decimal_exec(n / 10);
        let c = char_from_ascii(('0' as u32) + ((n % 10) as u32));
        r.push(c);
        r
    }
}

/// `format!("{n:04}")`.
pub fn pad4_exec(n: u64) -> (r: Vec<char>)
    ensures
        r@ == pad4(n as nat),
{
    let d = decimal_exec(n);
    if d.len() >= 4 {
        d
    } else {
        let mut r: Vec<char> = Vec::new();
        let k = 4 - d.len();
        while r.len() < k
            invariant
                r.len() <= k,
                forall|j: int| 0 <= j < r.len() ==> r@[j] == '0',
            decreases k - r.len(),
        {
            r.push('0');
        }
        extend(&mut r, &d);
        assert(r@ == Seq::new(k as nat, |i: int| '0') + d@);
        r
    }
}

/// `s.replace(from, to)`.
pub fn replace_all_exec(s: &Vec<char>, from: &Vec<char>, to: &Vec<char>) -> (r: Vec<char>)
    ensures
        r@ == replace_all(s@, from@, to@),
{
    if from.len() == 0 {
        return s.clone();
    }
    let mut out: Vec<char> = Vec::new();
    let mut pos: usize = 0;
    assert(s@.skip(0) == s@);
    loop
        invariant
            from.len() > 0,
            pos <= s.len(),
            out@ + replace_all(s@.skip(pos as int), from@, to@) == replace_all(s@, from@, to@),
        decreases s.len() - pos,
    {
        let rest = slice(s, pos, s.len());
        match find_exec(&rest, from) {
            None => {
                extend(&mut out, &rest);
                return out;
            },
            Some(i) => {
                let before = slice(&rest, 0, i);
                extend(&mut out, &before);
                extend(&mut out, to);
                proof {
                    lemma_find_in_range(rest@, from@, 0);
                    assert(rest@.skip(i + from@.len()) == s@.skip(pos + i + from@.len()));
                    assert(rest@.take(i as int) == before@);
                }
                pos = pos + i + from.len();
            },
        }
    }
}

pub proof fn lemma_find_in_range(s: Seq<char>, p: Seq<char>, k: int)
    ensures
        find_from(s, p, k) matches Some(i) ==> k <= i && occurs_at(s, p, i),
    decreases s.len() + 1 - k,
{
    if k < 0 || k + p.len() > s.len() {
    } else if occurs_at(s, p, k) {
    } else {
        lemma_find_in_range(s, p, k + 1);
    }
}


/// What `str::parse::<u32>` reads: an optional `+`, then one or more ASCII
/// digits whose value fits in a `u32`.
pub open spec fn parse_u32(s: Seq<char>) -> Option<u32> {
    let d = if s.len() > 0 && s[0] == '+' {
        s.skip(1)
    } else {
        s
    };
    if d.len() > 0 && all_ascii_digits(d) && digits_value(d) <= u32::MAX {
        Some(digits_value(d) as u32)
    } else {
        None
    }
}

/// `str::parse::<u32>`.
pub fn parse_u32_exec(s: &Vec<char>) -> (r: Option<u32>)
    ensures
        r == parse_u32(s@),
{
    let d = if s.len() > 0 && s[0] == '+' {
        slice(s, 1, s.len())
    } else {
        s.clone()
    };
    if d.len() == 0 || !all_digits_exec(&d) {
        return None;
    }
    match parse_digits(&d) {
        Some(n) => {
            if n <= 0xffff_ffff {
                Some(n as u32)
            } else {
                None
            }
        },
        None => None,
    }
}

/// How many UTF-8 bytes `c` takes.
pub open spec fn utf8_len(c: char) -> nat {
    if (c as u32) < 0x80 {
        1
    } else if (c as u32) < 0x800 {
        2
    } else if (c as u32) < 0x10000 {
        3
    } else {
        4
    }
}

/// How many UTF-8 bytes `s` takes.
pub open spec fn utf8_size(s: Seq<char>) -> nat
    decreases s.len(),
{
    if s.len() == 0 {
        0
    } else {
        utf8_size(s.drop_last()) + utf8_len(s.last())
    }
}

/// How many UTF-8 bytes `c` takes.
pub fn utf8_len_exec(c: char) -> (r: usize)
    ensures
        r == utf8_len(c),
{
    if (c as u32) < 0x80 {
        1
    } else if (c as u32) < 0x800 {
        2
    } else if (c as u32) < 0x10000 {
        3
    } else {
        4
    }
}

/// The byte size of a text splits at any character boundary.
pub proof fn lemma_utf8_size_split(s: Seq<char>, k: int)
    requires
        0 <= k <= s.len(),
    ensures
        utf8_size(s) == utf8_size(s.take(k)) + utf8_size(s.skip(k)),
    decreases s.len(),
{
    if s.len() > k {
        lemma_utf8_size_split(s.drop_last(), k);
        assert(s.drop_last().take(k) == s.take(k));
        assert(s.skip(k).drop_last() == s.drop_last().skip(k));
    } else {
        assert(s.take(k) == s);
        assert(s.skip(k) =~= Seq::<char>::empty());
    }
}


/// `str::parse::<i32>`: an optional `+` or `-`, then one or more ASCII
/// digits, whose value fits in an `i32`.
pub open spec fn parse_i32(s: Seq<char>) -> Option<i32> {
    let neg = s.len() > 0 && s[0] == '-';
    let d = if s.len() > 0 && (s[0] == '-' || s[0] == '+') {
        s.drop_first()
    } else {
        s
    };
    if d.len() > 0 && all_ascii_digits(d) {
        let v: int = if neg {
            -(digits_value(d) as int)
        } else {
            digits_value(d) as int
        };
        if i32::MIN <= v && v <= i32::MAX {
            Some(v as i32)
        } else {
            None
        }
    } else {
        None
    }
}

/// The `i32` the text `s` spells, as `str::parse` reads it.
pub fn parse_i32_exec(s: &Vec<char>) -> (r: Option<i32>)
    ensures
        r == parse_i32(s@),
{
    let neg = s.len() > 0 && s[0] == '-';
    let d = if s.len() > 0 && (s[0] == '-' || s[0] == '+') {
        slice(s, 1, s.len())
    } else {
        s.clone()
    };
    assert(d@ == (if s@.len() > 0 && (s@[0] == '-' || s@[0] == '+') {
        s@.drop_first()
    } else {
        s@
    }));
    if d.len() == 0 || !all_digits_exec(&d) {
        return None;
    }
    let n = match parse_digits(&d) {
        Some(n) => n,
        None => return None,
    };
    if neg {
        if n <= 2147483648 {
            let v: i64 = 0 - (n as i64);
            Some(v as i32)
        } else {
            None
        }
    } else {
        if n <= 2147483647 {
            Some(n as i32)
        } else {
            None
        }
    }
}

/// `format!("{n:04}")` for a signed `n`: the sign, then the digits
/// left-padded with zeros so the whole is at least four characters.
pub open spec fn pad4_signed(n: int) -> Seq<char> {
    if n >= 0 {
        pad4(n as nat)
    } else {
        let d = decimal((-n) as nat);
        seq!['-'] + if d.len() >= 3 {
            d
        } else {
            Seq::new((3 - d.len()) as nat, |i: int| '0') + d
        }
    }
}

/// `format!("{n:04}")`.
pub fn pad4_signed_exec(n: i32) -> (r: Vec<char>)
    ensures
        r@ == pad4_signed(n as int),
{
    if n >= 0 {
        return pad4_exec(n as u64);
    }
    let m: i64 = 0 - (n as i64);
    let d = decimal_exec(m as u64);
    let mut r: Vec<char> = vec!['-'];
    if d.len() < 3 {
        let k = 3 - d.len();
        let mut z: Vec<char> = Vec::new();
        while z.len() < k
            invariant
                z.len() <= k,
                forall|j: int| 0 <= j < z.len() ==> z@[j] == '0',
            decreases k - z.len(),
        {
            z.push('0');
        }
        assert(z@ == Seq::new(k as nat, |i: int| '0'));
        extend(&mut r, &z);
    }
    extend(&mut r, &d);
    r
}


/// `str::parse::<i64>`: an optional `+` or `-`, then one or more ASCII
/// digits, whose value fits in an `i64`.
pub open spec fn parse_i64(s: Seq<char>) -> Option<i64> {
    let neg = s.len() > 0 && s[0] == '-';
    let d = if s.len() > 0 && (s[0] == '-' || s[0] == '+') {
        s.drop_first()
    } else {
        s
    };
    if d.len() > 0 && all_ascii_digits(d) {
        let v: int = if neg {
            -(digits_value(d) as int)
        } else {
            digits_value(d) as int
        };
        if i64::MIN <= v && v <= i64::MAX {
            Some(v as i64)
        } else {
            None
        }
    } else {
        None
    }
}

/// The `i64` the text `s` spells, as `str::parse` reads it.
pub fn parse_i64_exec(s: &Vec<char>) -> (r: Option<i64>)
    ensures
        r == parse_i64(s@),
{
    let neg = s.len() > 0 && s[0] == '-';
    let d = if s.len() > 0 && (s[0] == '-' || s[0] == '+') {
        slice(s, 1, s.len())
    } else {
        s.clone()
    };
    assert(d@ == (if s@.len() > 0 && (s@[0] == '-' || s@[0] == '+') {
        s@.drop_first()
    } else {
        s@
    }));
    if d.len() == 0 || !all_digits_exec(&d) {
        return None;
    }
    let n = match parse_digits(&d) {
        Some(n) => n,
        None => return None,
    };
    if neg {
        if n <= 9223372036854775808 {
            let v: i128 = 0 - (n as i128);
            Some(v as i64)
        } else {
            None
        }
    } else {
        if n <= 9223372036854775807 {
            Some(n as i64)
        } else {
            None
        }
    }
}

} // verus!
