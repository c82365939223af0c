//! The record store: an in-memory map from a record's path to its text,
//! which remembers the order its paths were first written. Every check and
//! command reads and writes a bundle through it; the command-line front
//! loads a bundle from disk into one and writes changed records back.

use crate::path::{under, under_exec};
use crate::text::{chars_of, eq};
use vstd::prelude::*;

verus! {

/// A bundle's records, keyed by path.
pub struct MapStore {
    files: Vec<(String, String)>,
}

/// The views of a list of paths.
pub open spec fn path_views(v: Seq<String>) -> Seq<Seq<char>> {
    v.map_values(|s: String| s@)
}

/// The contents of the last entry whose path is `p`.
pub open spec fn lookup(es: Seq<(Seq<char>, Seq<char>)>, p: Seq<char>) -> Option<Seq<char>>
    decreases es.len(),
{
    if es.len() == 0 {
        None
    } else if es.last().0 == p {
        Some(es.last().1)
    } else {
        lookup(es.drop_last(), p)
    }
}

proof fn lemma_lookup_at(es: Seq<(Seq<char>, Seq<char>)>, k: int)
    requires
        0 <= k < es.len(),
        es.map_values(|e: (Seq<char>, Seq<char>)| e.0).no_duplicates(),
    ensures
        lookup(es, es[k].0) == Some(es[k].1),
    decreases es.len(),
{
    let ps = es.map_values(|e: (Seq<char>, Seq<char>)| e.0);
    if k != es.len() - 1 {
        assert(ps[k] != ps[es.len() - 1]);
        let d = es.drop_last();
        assert(d.map_values(|e: (Seq<char>, Seq<char>)| e.0) =~= ps.drop_last());
        assert(d[k] == es[k]);
        lemma_lookup_at(d, k);
    }
}

proof fn lemma_lookup_some(es: Seq<(Seq<char>, Seq<char>)>, p: Seq<char>)
    ensures
        lookup(es, p) is Some <==> exists|k: int| 0 <= k < es.len() && #[trigger] es[k].0 == p,
    decreases es.len(),
{
    if es.len() > 0 {
        let d = es.drop_last();
        lemma_lookup_some(d, p);
        if exists|k: int| 0 <= k < d.len() && #[trigger] d[k].0 == p {
            let k = choose|k: int| 0 <= k < d.len() && #[trigger] d[k].0 == p;
            assert(es[k] == d[k]);
        }
        if exists|k: int| 0 <= k < es.len() && #[trigger] es[k].0 == p {
            let k = choose|k: int| 0 <= k < es.len() && #[trigger] es[k].0 == p;
            if k < d.len() {
                assert(d[k] == es[k]);
            }
        }
    }
}

proof fn lemma_lookup_none(es: Seq<(Seq<char>, Seq<char>)>, p: Seq<char>)
    requires
        forall|k: int| 0 <= k < es.len() ==> #[trigger] es[k].0 != p,
    ensures
        lookup(es, p) is None,
    decreases es.len(),
{
    if es.len() > 0 {
        let d = es.drop_last();
        assert forall|k: int| 0 <= k < d.len() implies #[trigger] d[k].0 != p by {
            assert(d[k] == es[k]);
        }
        lemma_lookup_none(d, p);
    }
}

pub proof fn lemma_filter_within<A>(s: Seq<A>, pred: spec_fn(A) -> bool, x: A)
    ensures
        s.filter(pred).contains(x) ==> s.contains(x),
    decreases s.len(),
{
    reveal(Seq::filter);
    if s.len() > 0 {
        lemma_filter_within(s.drop_last(), pred, x);
        if s.filter(pred).contains(x) && x != s.last() {
            let f = s.drop_last().filter(pred);
            if pred(s.last()) {
                let j = choose|j: int| 0 <= j < s.filter(pred).len() && s.filter(pred)[j] == x;
                assert(f[j] == x);
            }
            let k = choose|k: int| 0 <= k < s.drop_last().len() && s.drop_last()[k] == x;
            assert(s[k] == x);
        }
    }
}

/// Two predicates that agree on every element filter a sequence alike.
pub proof fn lemma_filter_congruent<A>(s: Seq<A>, p1: spec_fn(A) -> bool, p2: spec_fn(A) -> bool)
    requires
        forall|i: int| 0 <= i < s.len() ==> p1(#[trigger] s[i]) == p2(s[i]),
    ensures
        s.filter(p1) == s.filter(p2),
    decreases s.len(),
{
    reveal(Seq::filter);
    if s.len() > 0 {
        let t = s.drop_last();
        assert forall|i: int| 0 <= i < t.len() implies p1(#[trigger] t[i]) == p2(t[i]) by {
            assert(t[i] == s[i]);
        }
        lemma_filter_congruent(t, p1, p2);
        assert(p1(s[s.len() - 1]) == p2(s[s.len() - 1]));
    }
}

/// Filtering keeps a sequence free of duplicates.
pub proof fn lemma_filter_no_dup<A>(s: Seq<A>, pred: spec_fn(A) -> bool)
    requires
        s.no_duplicates(),
    ensures
        s.filter(pred).no_duplicates(),
    decreases s.len(),
{
    reveal(Seq::filter);
    if s.len() > 0 {
        let t = s.drop_last();
        assert(t.no_duplicates());
        lemma_filter_no_dup(t, pred);
        if pred(s.last()) {
            lemma_filter_within(t, pred, s.last());
            let f = t.filter(pred);
            assert(!t.contains(s.last())) by {
                if t.contains(s.last()) {
                    let k = choose|k: int| 0 <= k < t.len() && t[k] == s.last();
                    assert(s[k] == s[s.len() - 1]);
                }
            }
            assert forall|i: int, j: int|
                0 <= i < f.push(s.last()).len() && 0 <= j < f.push(s.last()).len() && i != j
                    implies f.push(s.last())[i] != f.push(s.last())[j] by {
                if i == f.len() && j < f.len() {
                    assert(f.contains(f[j]));
                } else if j == f.len() && i < f.len() {
                    assert(f.contains(f[i]));
                }
            }
        }
    }
}

/// `after` is `before` with `contents` written at `p`, as
/// [`MapStore::write`] leaves it: the text at `p` replaced, a new path
/// joining the end of the store order.
pub open spec fn written(before: MapStore, after: MapStore, p: Seq<char>, contents: Seq<char>) -> bool {
    &&& forall|q: Seq<char>| #[trigger]
        after.get(q) == if q == p {
            Some(contents)
        } else {
            before.get(q)
        }
    &&& after.paths() == if before.paths().contains(p) {
        before.paths()
    } else {
        before.paths().push(p)
    }
}

impl MapStore {
    /// Every `(path, contents)` entry, in the order the paths were first
    /// written.
    pub closed spec fn entries(&self) -> Seq<(Seq<char>, Seq<char>)> {
        self.files@.map_values(|e: (String, String)| (e.0@, e.1@))
    }

    /// The stored paths, in the order they were first written.
    pub open spec fn paths(&self) -> Seq<Seq<char>> {
        self.entries().map_values(|e: (Seq<char>, Seq<char>)| e.0)
    }

    /// The contents stored under `p`.
    pub open spec fn get(&self, p: Seq<char>) -> Option<Seq<char>> {
        lookup(self.entries(), p)
    }

    /// No path is stored twice.
    #[verifier::type_invariant]
    closed spec fn wf(&self) -> bool {
        self.paths().no_duplicates()
    }

    /// The paths stored under `root`, in store order.
    pub open spec fn listed(&self, root: Seq<char>) -> Seq<Seq<char>> {
        self.paths().filter(|q: Seq<char>| under(q, root))
    }

    proof fn lemma_get_at(&self, k: int)
        requires
            self.wf(),
            0 <= k < self.entries().len(),
        ensures
            self.get(self.entries()[k].0) == Some(self.entries()[k].1),
    {
        lemma_lookup_at(self.entries(), k);
    }

    proof fn lemma_get_none(&self, p: Seq<char>)
        requires
            forall|k: int| 0 <= k < self.entries().len() ==> #[trigger] self.entries()[k].0 != p,
        ensures
            self.get(p) is None,
    {
        lemma_lookup_none(self.entries(), p);
    }

    /// A path is stored exactly when the store holds contents for it.
    pub proof fn lemma_paths_match_get(&self, p: Seq<char>)
        ensures
            self.paths().contains(p) <==> self.get(p) is Some,
    {
        let es = self.entries();
        lemma_lookup_some(es, p);
        if self.paths().contains(p) {
            let k = choose|k: int| 0 <= k < self.paths().len() && self.paths()[k] == p;
            assert(es[k].0 == p);
        }
        if self.get(p) is Some {
            let k = choose|k: int| 0 <= k < es.len() && #[trigger] es[k].0 == p;
            assert(self.paths()[k] == p);
        }
    }

    /// An empty store.
    pub fn new() -> (s: Self)
        ensures
            s.paths().len() == 0,
            forall|p: Seq<char>| s.get(p) is None,
    {
        let s = MapStore { files: Vec::new() };
        assert(s.paths() =~= Seq::<Seq<char>>::empty());
        s
    }

    /// The index of `p` in the store.
    fn position(&self, p: &String) -> (r: Option<usize>)
        ensures
            r matches Some(i) ==> i < self.entries().len() && self.entries()[i as int].0 == p@,
            r is None ==> forall|i: int|
                0 <= i < self.entries().len() ==> #[trigger] self.entries()[i].0 != p@,
    {
        let mut i: usize = 0;
        while i < self.files.len()
            invariant
                i <= self.files.len(),
                self.entries() == self.files@.map_values(|e: (String, String)| (e.0@, e.1@)),
                forall|j: int| 0 <= j < i ==> #[trigger] self.entries()[j].0 != p@,
            decreases self.files.len() - i,
        {
            let same = self.files[i].0 == *p;
            if same {
                return Some(i);
            }
            i += 1;
        }
        None
    }

    /// The contents stored under `p`, `None` when nothing is.
    pub fn read(&self, p: &String) -> (r: Option<String>)
        ensures
            r matches Some(c) ==> self.get(p@) == Some(c@),
            r is None ==> self.get(p@) is None,
    {
        proof {
            use_type_invariant(self);
        }
        match self.position(p) {
            Some(i) => {
                proof {
                    self.lemma_get_at(i as int);
                }
                Some(self.files[i].1.clone())
            },
            None => {
                proof {
                    self.lemma_get_none(p@);
                }
                None
            },
        }
    }

    /// The contents stored under the path `p`.
    pub fn read_str(&self, p: &str) -> (r: Option<String>)
        ensures
            r matches Some(c) ==> self.get(p@) == Some(c@),
            r is None ==> self.get(p@) is None,
    {
        let key = p.to_string();
        self.read(&key)
    }

    /// Stores `contents` under `p`, replacing what was there; a new path
    /// joins the end of the store order.
    pub fn write(&mut self, p: &String, contents: &String)
        ensures
            forall|q: Seq<char>| #[trigger]
                final(self).get(q) == if q == p@ {
                    Some(contents@)
                } else {
                    old(self).get(q)
                },
            final(self).paths() == if old(self).paths().contains(p@) {
                old(self).paths()
            } else {
                old(self).paths().push(p@)
            },
    {
        proof {
            use_type_invariant(&*self);
        }
        let ghost old_es = self.entries();
        match self.position(p) {
            Some(i) => {
                let key = p.clone();
                let value = contents.clone();
                let mut files: Vec<(String, String)> = Vec::new();
                std::mem::swap(&mut files, &mut self.files);
                files.set(i, (key, value));
                proof {
                    let es2 = files@.map_values(|e: (String, String)| (e.0@, e.1@));
                    assert(es2 == old_es.update(i as int, (p@, contents@)));
                    assert(es2.map_values(|e: (Seq<char>, Seq<char>)| e.0) =~= old(self).paths());
                }
                self.files = files;
                proof {
                    use_type_invariant(&*self);
                    let es = self.entries();
                    assert(es == old_es.update(i as int, (p@, contents@)));
                    assert(self.paths() =~= old(self).paths());
                    assert(old(self).paths().contains(p@)) by {
                        assert(old(self).paths()[i as int] == p@);
                    }
                    assert forall|q: Seq<char>| #[trigger]
                        self.get(q) == if q == p@ {
                            Some(contents@)
                        } else {
                            old(self).get(q)
                        } by {
                        self.lemma_get_at(i as int);
                        if q != p@ {
                            old(self).lemma_paths_match_get(q);
                            if old(self).get(q) is Some {
                                let k = choose|k: int|
                                    0 <= k < old_es.len() && #[trigger] old(self).paths()[k] == q;
                                assert(old_es[k].0 == q);
                                old(self).lemma_get_at(k);
                                assert(es[k] == old_es[k]);
                                self.lemma_get_at(k);
                            } else {
                                assert forall|k: int| 0 <= k < es.len() implies #[trigger] es[k].0
                                    != q by {
                                    if k != i {
                                        assert(es[k] == old_es[k]);
                                        assert(old(self).paths()[k] == old_es[k].0);
                                    }
                                }
                                self.lemma_get_none(q);
                            }
                        }
                    }
                }
            },
            None => {
                let key = p.clone();
                let value = contents.clone();
                let mut files: Vec<(String, String)> = Vec::new();
                std::mem::swap(&mut files, &mut self.files);
                files.push((key, value));
                proof {
                    let es2 = files@.map_values(|e: (String, String)| (e.0@, e.1@));
                    assert(es2 == old_es.push((p@, contents@)));
                    assert(es2.map_values(|e: (Seq<char>, Seq<char>)| e.0) =~= old(self).paths().push(p@));
                }
                self.files = files;
                proof {
                    use_type_invariant(&*self);
                    let es = self.entries();
                    assert(es == old_es.push((p@, contents@)));
                    assert(self.paths() =~= old(self).paths().push(p@));
                    assert(!old(self).paths().contains(p@));
                    assert forall|q: Seq<char>| #[trigger]
                        self.get(q) == if q == p@ {
                            Some(contents@)
                        } else {
                            old(self).get(q)
                        } by {
                        self.lemma_get_at(old_es.len() as int);
                        if q != p@ {
                            old(self).lemma_paths_match_get(q);
                            if old(self).get(q) is Some {
                                let k = choose|k: int|
                                    0 <= k < old_es.len() && #[trigger] old(self).paths()[k] == q;
                                assert(old_es[k].0 == q);
                                old(self).lemma_get_at(k);
                                assert(es[k] == old_es[k]);
                                self.lemma_get_at(k);
                            } else {
                                assert forall|k: int| 0 <= k < es.len() implies #[trigger] es[k].0
                                    != q by {
                                    if k < old_es.len() {
                                        assert(es[k] == old_es[k]);
                                        assert(old(self).paths()[k] == old_es[k].0);
                                    }
                                }
                                self.lemma_get_none(q);
                            }
                        }
                    }
                }
            },
        }
    }

    /// Stores `contents` under the path `p`.
    pub fn write_str(&mut self, p: &str, contents: &str)
        ensures
            forall|q: Seq<char>| #[trigger]
                final(self).get(q) == if q == p@ {
                    Some(contents@)
                } else {
                    old(self).get(q)
                },
            final(self).paths() == if old(self).paths().contains(p@) {
                old(self).paths()
            } else {
                old(self).paths().push(p@)
            },
    {
        let key = p.to_string();
        let value = contents.to_string();
        self.write(&key, &value);
    }

    /// A store holding each `(path, contents)` of `seed`, written in order.
    pub fn seeded(seed: &[(&str, &str)]) -> (s: Self)
        ensures
            forall|i: int|
                0 <= i < seed@.len() && (forall|j: int| i < j < seed@.len() ==> seed@[j].0@
                    != seed@[i].0@) ==> s.get(#[trigger] seed@[i].0@) == Some(seed@[i].1@),
    {
        let mut s = MapStore::new();
        let mut k: usize = 0;
        while k < seed.len()
            invariant
                k <= seed.len(),
                forall|i: int|
                    0 <= i < k && (forall|j: int| i < j < k ==> seed@[j].0@ != seed@[i].0@)
                        ==> s.get(#[trigger] seed@[i].0@) == Some(seed@[i].1@),
            decreases seed.len() - k,
        {
            let (p, c) = seed[k];
            s.write_str(p, c);
            k += 1;
        }
        s
    }

    /// Every stored path, in store order.
    pub fn all_paths(&self) -> (r: Vec<String>)
        ensures
            path_views(r@) == self.paths(),
    {
        let mut out: Vec<String> = Vec::new();
        let mut i: usize = 0;
        while i < self.files.len()
            invariant
                i <= self.files.len(),
                self.paths() == self.files@.map_values(|e: (String, String)| e.0@),
                path_views(out@) == self.paths().take(i as int),
            decreases self.files.len() - i,
        {
            out.push(self.files[i].0.clone());
            i += 1;
            assert(self.paths().take(i as int) == self.paths().take(i - 1).push(
                self.paths()[i - 1],
            ));
        }
        assert(self.paths().take(self.files.len() as int) == self.paths());
        out
    }

    /// The stored paths that lie under `root`, in store order
    /// (`DocStore::list`).
    pub fn list(&self, root: &String) -> (r: Vec<String>)
        ensures
            path_views(r@) == self.listed(root@),
            self.listed(root@).no_duplicates(),
    {
        proof {
            use_type_invariant(self);
            lemma_filter_no_dup(self.paths(), |q: Seq<char>| under(q, root@));
        }
        let all = self.all_paths();
        let mut out: Vec<String> = Vec::new();
        let mut i: usize = 0;
        let rc = chars_of(root.as_str());
        while i < all.len()
            invariant
                i <= all.len(),
                rc@ == root@,
                path_views(all@) == self.paths(),
                path_views(out@) == self.paths().take(i as int).filter(
                    |q: Seq<char>| under(q, root@),
                ),
            decreases all.len() - i,
        {
            let pc = chars_of(all[i].as_str());
            proof {
                let t = self.paths().take(i + 1);
                assert(t == self.paths().take(i as int).push(self.paths()[i as int]));
                self.paths().take(i as int).lemma_filter_push(
                    self.paths()[i as int],
                    |q: Seq<char>| under(q, root@),
                );
            }
            if under_exec(&pc, &rc) {
                out.push(all[i].clone());
            }
            i += 1;
        }
        assert(self.paths().take(all.len() as int) == self.paths());
        out
    }

    /// Moves the contents stored under `from` to `to`; fails, changing
    /// nothing, when nothing is stored under `from`.
    pub fn rename(&mut self, from: &String, to: &String) -> (r: Result<(), String>)
        ensures
            r is Err <==> old(self).get(from@) is None,
            r is Err ==> *final(self) == *old(self),
            r is Ok ==> final(self).get(to@) == old(self).get(from@),
            r is Ok ==> from@ != to@ ==> final(self).get(from@) is None,
            r is Ok ==> forall|q: Seq<char>|
                q != from@ && q != to@ ==> #[trigger] final(self).get(q) == old(self).get(q),
    {
        proof {
            use_type_invariant(&*self);
        }
        match self.position(from) {
            None => {
                proof {
                    self.lemma_get_none(from@);
                }
                Err("not found".to_string())
            },
            Some(i) => {
                proof {
                    self.lemma_get_at(i as int);
                }
                let ghost old_es = self.entries();
                let mut files: Vec<(String, String)> = Vec::new();
                std::mem::swap(&mut files, &mut self.files);
                let (_, contents) = files.remove(i);
                proof {
                    let es2 = files@.map_values(|e: (String, String)| (e.0@, e.1@));
                    assert(es2 =~= old_es.remove(i as int));
                    let ps2 = es2.map_values(|e: (Seq<char>, Seq<char>)| e.0);
                    assert forall|a: int, b: int| 0 <= a < b < ps2.len() implies ps2[a] != ps2[b] by {
                        let a2 = if a < i { a } else { a + 1 };
                        let b2 = if b < i { b } else { b + 1 };
                        assert(ps2[a] == old(self).paths()[a2]);
                        assert(ps2[b] == old(self).paths()[b2]);
                    }
                }
                self.files = files;
                proof {
                    use_type_invariant(&*self);
                    let es = self.entries();
                    assert(es == old_es.remove(i as int));
                    assert forall|q: Seq<char>| q != from@ implies #[trigger] self.get(q)
                        == old(self).get(q) by {
                        old(self).lemma_paths_match_get(q);
                        if old(self).get(q) is Some {
                            let k = choose|k: int|
                                0 <= k < old_es.len() && #[trigger] old(self).paths()[k] == q;
                            assert(old_es[k].0 == q);
                            old(self).lemma_get_at(k);
                            if k < i {
                                assert(es[k] == old_es[k]);
                                self.lemma_get_at(k);
                            } else {
                                assert(k != i);
                                assert(es[k - 1] == old_es[k]);
                                self.lemma_get_at(k - 1);
                            }
                        } else {
                            assert forall|k: int| 0 <= k < es.len() implies #[trigger] es[k].0
                                != q by {
                                if k < i {
                                    assert(es[k] == old_es[k]);
                                    assert(old(self).paths()[k] == old_es[k].0);
                                } else {
                                    assert(es[k] == old_es[k + 1]);
                                    assert(old(self).paths()[k + 1] == old_es[k + 1].0);
                                }
                            }
                            self.lemma_get_none(q);
                        }
                    }
                    assert forall|k: int| 0 <= k < es.len() implies #[trigger] es[k].0
                        != from@ by {
                        if k < i {
                            assert(es[k] == old_es[k]);
                            assert(old(self).paths()[k] != old(self).paths()[i as int]);
                        } else {
                            assert(es[k] == old_es[k + 1]);
                            assert(old(self).paths()[k + 1] != old(self).paths()[i as int]);
                        }
                    }
                    self.lemma_get_none(from@);
                }
                self.write(to, &contents);
                Ok(())
            },
        }
    }
}

/// Whether `p` is one of `paths` (`all_md.iter().any(|x| x == p)`).
pub fn contains_path(paths: &Vec<String>, p: &String) -> (r: bool)
    ensures
        r == path_views(paths@).contains(p@),
{
    let mut i: usize = 0;
    let pc = chars_of(p.as_str());
    while i < paths.len()
        invariant
            i <= paths.len(),
            pc@ == p@,
            forall|j: int| 0 <= j < i ==> paths@[j]@ != p@,
        decreases paths.len() - i,
    {
        let qc = chars_of(paths[i].as_str());
        if eq(&qc, &pc) {
            assert(path_views(paths@)[i as int] == p@);
            return true;
        }
        i += 1;
    }
    assert forall|j: int| 0 <= j < path_views(paths@).len() implies path_views(paths@)[j]
        != p@ by {
        assert(path_views(paths@)[j] == paths@[j]@);
    }
    false
}

} // verus!
