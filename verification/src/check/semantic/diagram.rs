//! The `DIAGRAM` advisory, the instrument behind the "stale diagram"
//! refusal trigger: mermaid node labels in the bundle's architecture views
//! are compared with a declared module list (`architecture/diagram-scope.txt`,
//! one name per line). A node with no module, or a module with no node, is
//! an advisory. No scope file is a no-op: there is nothing to compare
//! against, so nothing is claimed.

use crate::check::reporter::{per_path, lemma_per_path_step, Reporter};
use crate::order::{insert_distinct, strictly_sorted, texts};
use crate::path::{extension, extension_exec, file_name_or_empty, file_name_or_empty_exec, join_path, join_path_str, parent, parent_exec};
use crate::pattern::{regex_captures, regex_first_groups, NODE_PATTERN, PARTICIPANT_PATTERN};
use crate::store::{path_views, MapStore};
use crate::text::{
    chars_of, chars_of_string, contains, contains_exec, eq, eq_str, extend, extend_str, find,
    find_exec, has_prefix, join, lines, lowercase, lowercase_exec, nl, starts_with_str, string_of,
    trim, trim_exec, trim_start, trim_start_exec,
};
use vstd::prelude::*;

verus! {

/// The declared module names in the scope file's text: trimmed lines, not
/// empty and not `#` comments, in file order.
pub open spec fn scope_lines(c: Seq<char>) -> Seq<Seq<char>> {
    lines(c).map_values(|l: Seq<char>| trim(l)).filter(
        |t: Seq<char>| t.len() > 0 && !has_prefix(t, "#"@),
    )
}

/// Where a bundle declares its diagram scope.
pub open spec fn scope_path(bundle: Seq<char>) -> Seq<char> {
    join_path(join_path(bundle, "architecture"@), "diagram-scope.txt"@)
}

/// The text of the scope file, empty when there is none.
pub open spec fn scope_text(store: MapStore, bundle: Seq<char>) -> Seq<char> {
    match store.get(scope_path(bundle)) {
        Some(c) => c,
        None => Seq::empty(),
    }
}

/// The declared modules, sorted and without repeats.
pub fn read_scope(store: &MapStore, bundle: &String) -> (r: Vec<Vec<char>>)
    ensures
        strictly_sorted(texts(r@)),
        forall|y: Seq<char>| #[trigger]
            texts(r@).contains(y) <==> scope_lines(scope_text(*store, bundle@)).contains(y),
{
    let arch = join_path_str(&chars_of_string(bundle), "architecture");
    let path = join_path_str(&arch, "diagram-scope.txt");
    let contents = match store.read(&string_of(&path)) {
        Some(c) => chars_of_string(&c),
        None => Vec::new(),
    };
    let ls = crate::text::lines_exec(&contents);
    let ghost lv = ls@.map_values(|v: Vec<char>| v@);
    let ghost tv = lv.map_values(|l: Seq<char>| trim(l));
    let ghost keep = |t: Seq<char>| t.len() > 0 && !has_prefix(t, "#"@);
    let mut out: Vec<Vec<char>> = Vec::new();
    let mut i: usize = 0;
    while i < ls.len()
        invariant
            i <= ls.len(),
            lv == ls@.map_values(|v: Vec<char>| v@),
            tv == lv.map_values(|l: Seq<char>| trim(l)),
            keep == (|t: Seq<char>| t.len() > 0 && !has_prefix(t, "#"@)),
            strictly_sorted(texts(out@)),
            forall|y: Seq<char>| #[trigger]
                texts(out@).contains(y) <==> tv.take(i as int).filter(keep).contains(y),
        decreases ls.len() - i,
    {
        let t = trim_exec(&ls[i]);
        proof {
            assert(lv[i as int] == ls@[i as int]@);
            assert(tv.take(i + 1) == tv.take(i as int).push(tv[i as int]));
            tv.take(i as int).lemma_filter_push(tv[i as int], keep);
        }
        if t.len() > 0 && !starts_with_str(&t, "#") {
            let ghost before = texts(out@);
            let ghost tt = t@;
            insert_distinct(&mut out, t);
            proof {
                let f0 = tv.take(i as int).filter(keep);
                assert forall|y: Seq<char>| #[trigger] f0.push(tt).contains(y) <==> f0.contains(y) || y == tt by {
                    if f0.push(tt).contains(y) {
                        let k = choose|k: int| 0 <= k < f0.push(tt).len() && f0.push(tt)[k] == y;
                        if k < f0.len() {
                            assert(f0[k] == y);
                        }
                    }
                    if f0.contains(y) {
                        let k = choose|k: int| 0 <= k < f0.len() && f0[k] == y;
                        assert(f0.push(tt)[k] == y);
                    }
                    if y == tt {
                        assert(f0.push(tt)[f0.len() as int] == y);
                    }
                }
            }
        }
        i += 1;
    }
    assert(tv.take(ls.len() as int) == tv);
    assert(lv == lines(contents@));
    out
}

/// The fences state after reading lines `ls`: the lines of an open
/// ```` ```mermaid ```` block, if one is open, and the bodies closed so far.
pub open spec fn fence_state(ls: Seq<Seq<char>>) -> (Option<Seq<Seq<char>>>, Seq<Seq<char>>)
    decreases ls.len(),
{
    if ls.len() == 0 {
        (None, Seq::<Seq<char>>::empty())
    } else {
        let (open, done) = fence_state(ls.drop_last());
        let l = ls.last();
        let t = trim_start(l);
        match open {
            Some(body) => if has_prefix(t, "```"@) {
                (None, done.push(join(body, nl())))
            } else {
                (Some(body.push(l)), done)
            },
            None => if has_prefix(t, "```mermaid"@) {
                (Some(Seq::<Seq<char>>::empty()), done)
            } else {
                (None, done)
            },
        }
    }
}

/// The bodies of the closed mermaid fences of `c`, in order.
pub open spec fn fences_of(c: Seq<char>) -> Seq<Seq<char>> {
    fence_state(lines(c)).1
}

/// The bodies of the mermaid fences of `contents`.
pub fn mermaid_fences(contents: &Vec<char>) -> (r: Vec<Vec<char>>)
    ensures
        texts(r@) == fences_of(contents@),
{
    let ls = crate::text::lines_exec(contents);
    let ghost lv = ls@.map_values(|v: Vec<char>| v@);
    let mut fences: Vec<Vec<char>> = Vec::new();
    let mut current: Option<Vec<Vec<char>>> = None;
    let mut i: usize = 0;
    while i < ls.len()
        invariant
            i <= ls.len(),
            lv == ls@.map_values(|v: Vec<char>| v@),
            fence_state(lv.take(i as int)) == (
                match current {
                    Some(b) => Some(texts(b@)),
                    None => None,
                },
                texts(fences@),
            ),
        decreases ls.len() - i,
    {
        proof {
            assert(lv.take(i + 1).drop_last() == lv.take(i as int));
            assert(lv.take(i + 1).last() == ls@[i as int]@);
        }
        let t = trim_start_exec(&ls[i]);
        match current {
            Some(mut body) => {
                if starts_with_str(&t, "```") {
                    let ghost fb = texts(fences@);
                    fences.push(crate::text::join_lines(&body));
                    assert(texts(fences@) =~= fb.push(join(texts(body@), nl())));
                    current = None;
                } else {
                    let ghost bb = texts(body@);
                    body.push(ls[i].clone());
                    assert(texts(body@) =~= bb.push(ls@[i as int]@));
                    current = Some(body);
                }
            },
            None => {
                if starts_with_str(&t, "```mermaid") {
                    let e: Vec<Vec<char>> = Vec::new();
                    assert(texts(e@) =~= Seq::<Seq<char>>::empty());
                    current = Some(e);
                } else {
                    current = None;
                }
            },
        }
        i += 1;
    }
    assert(lv.take(ls.len() as int) == lv);
    assert(lv == lines(contents@));
    fences
}

/// The text after the last ` as ` of a declaration, as `split(" as ")`
/// finds them left to right.
pub open spec fn after_last_as(s: Seq<char>) -> Seq<char>
    decreases s.len(),
{
    match find(s, " as "@) {
        None => s,
        Some(i) => {
            proof {
                crate::text::lemma_find_in_range(s, " as "@, 0);
                reveal_strlit(" as ");
            }
            after_last_as(s.skip(i + 4))
        },
    }
}

/// The name a `participant`/`actor` declaration gives its node: its alias
/// after ` as `, when it has one.
pub open spec fn participant_name(decl: Seq<char>) -> Seq<char> {
    trim(after_last_as(decl))
}

fn participant_name_exec(decl: &Vec<char>) -> (r: Vec<char>)
    ensures
        r@ == participant_name(decl@),
{
    let sep = chars_of(" as ");
    proof {
        reveal_strlit(" as ");
    }
    let mut rest = decl.clone();
    loop
        invariant
            sep@ == " as "@,
            sep@.len() == 4,
            after_last_as(rest@) == after_last_as(decl@),
        ensures
            after_last_as(rest@) == rest@,
            after_last_as(rest@) == after_last_as(decl@),
        decreases rest.len(),
    {
        match find_exec(&rest, &sep) {
            None => {
                break;
            },
            Some(i) => {
                proof {
                    crate::text::lemma_find_in_range(rest@, sep@, 0);
                }
                rest = crate::text::slice(&rest, i + 4, rest.len());
            },
        }
    }
    trim_exec(&rest)
}

/// The labels of the nodes one fence body declares: bracketed nodes first,
/// then participants and actors.
pub open spec fn fence_labels(f: Seq<char>) -> Seq<Seq<char>> {
    regex_first_groups(NODE_PATTERN@, f).map_values(|g: Seq<char>| trim(g)) + regex_first_groups(
        PARTICIPANT_PATTERN@,
        f,
    ).map_values(|g: Seq<char>| participant_name(g))
}

/// The node labels inside the mermaid fences of `c`.
pub open spec fn node_labels_of(c: Seq<char>) -> Seq<Seq<char>> {
    per_path(fences_of(c), |f: Seq<char>| fence_labels(f))
}

/// The node labels inside the mermaid fences of `contents`.
pub fn node_labels(contents: &Vec<char>) -> (r: Vec<Vec<char>>)
    ensures
        texts(r@) == node_labels_of(contents@),
{
    let fences = mermaid_fences(contents);
    let ghost fv = texts(fences@);
    let ghost g = |f: Seq<char>| fence_labels(f);
    let mut labels: Vec<Vec<char>> = Vec::new();
    let mut i: usize = 0;
    while i < fences.len()
        invariant
            i <= fences.len(),
            fv == texts(fences@),
            g == (|f: Seq<char>| fence_labels(f)),
            texts(labels@) == per_path(fv.take(i as int), g),
        decreases fences.len() - i,
    {
        proof {
            lemma_per_path_step(fv, g, i as int);
        }
        let text = string_of(&fences[i]);
        assert(text@ == fv[i as int]);
        let bracket = regex_captures(NODE_PATTERN, text.as_str());
        let ghost base = texts(labels@);
        let ghost bv = bracket@.map_values(|s: String| s@);
        let mut k: usize = 0;
        while k < bracket.len()
            invariant
                k <= bracket.len(),
                bv == bracket@.map_values(|s: String| s@),
                texts(labels@) == base + bv.take(k as int).map_values(|s: Seq<char>| trim(s)),
            decreases bracket.len() - k,
        {
            let ghost lb = texts(labels@);
            labels.push(trim_exec(&chars_of_string(&bracket[k])));
            assert(texts(labels@) =~= lb.push(trim(bv[k as int])));
            assert(bv.take(k + 1).map_values(|s: Seq<char>| trim(s)) =~= bv.take(k as int).map_values(
                |s: Seq<char>| trim(s),
            ).push(trim(bv[k as int])));
            k += 1;
        }
        assert(bv.take(bracket.len() as int) == bv);
        let people = regex_captures(PARTICIPANT_PATTERN, text.as_str());
        let ghost mid = texts(labels@);
        let ghost pv = people@.map_values(|s: String| s@);
        let mut k: usize = 0;
        while k < people.len()
            invariant
                k <= people.len(),
                pv == people@.map_values(|s: String| s@),
                texts(labels@) == mid + pv.take(k as int).map_values(
                    |s: Seq<char>| participant_name(s),
                ),
            decreases people.len() - k,
        {
            let ghost lb = texts(labels@);
            labels.push(participant_name_exec(&chars_of_string(&people[k])));
            assert(texts(labels@) =~= lb.push(participant_name(pv[k as int])));
            assert(pv.take(k + 1).map_values(|s: Seq<char>| participant_name(s)) =~= pv.take(
                k as int,
            ).map_values(|s: Seq<char>| participant_name(s)).push(participant_name(pv[k as int])));
            k += 1;
        }
        assert(pv.take(people.len() as int) == pv);
        assert(texts(labels@) =~= base + fence_labels(fv[i as int]));
        i += 1;
    }
    assert(fv.take(fences.len() as int) == fv);
    labels
}

/// The first module of `scope` from `i` on that a label names: either
/// contains the other, ignoring case.
pub open spec fn module_from(label: Seq<char>, scope: Seq<Seq<char>>, i: int) -> Option<Seq<char>>
    decreases scope.len() - i,
{
    if i < 0 || i >= scope.len() {
        None
    } else {
        let l = lowercase(label);
        let m = lowercase(scope[i]);
        if contains(l, m) || contains(m, l) {
            Some(scope[i])
        } else {
            module_from(label, scope, i + 1)
        }
    }
}

/// The module `label` resolves to, so a node `core (fs)` still names the
/// `core` module.
pub fn matching_module(label: &Vec<char>, scope: &Vec<Vec<char>>) -> (r: Option<Vec<char>>)
    ensures
        r matches Some(m) ==> module_from(label@, texts(scope@), 0) == Some(m@),
        r is None ==> module_from(label@, texts(scope@), 0) is None,
{
    let l = lowercase_exec(label);
    let ghost sv = texts(scope@);
    let mut i: usize = 0;
    while i < scope.len()
        invariant
            i <= scope.len(),
            sv == texts(scope@),
            l@ == lowercase(label@),
            module_from(label@, sv, 0) == module_from(label@, sv, i as int),
        decreases scope.len() - i,
    {
        assert(sv[i as int] == scope@[i as int]@);
        let m = lowercase_exec(&scope[i]);
        if contains_exec(&l, &m) || contains_exec(&m, &l) {
            return Some(scope[i].clone());
        }
        i += 1;
    }
    None
}

/// The advisory for a node no module accounts for.
pub open spec fn node_message(label: Seq<char>) -> Seq<char> {
    "DIAGRAM node '"@ + label + "' has no module in diagram-scope.txt — the diagram may be stale"@
}

/// The advisory for a module no node shows.
pub open spec fn module_message(module: Seq<char>) -> Seq<char> {
    "DIAGRAM module '"@ + module
        + "' has no node in any architecture diagram — the diagram may be stale"@
}

/// A record of the architecture directory: directly in it, a markdown
/// file, not its index.
pub open spec fn is_architecture_doc(p: Seq<char>, arch_dir: Seq<char>) -> bool {
    parent(p) == Some(arch_dir) && file_name_or_empty(p) != "index.md"@ && extension(p) == Some(
        "md"@,
    )
}

/// The node labels an architecture record at `p` declares.
pub open spec fn labels_at(store: MapStore, arch_dir: Seq<char>, p: Seq<char>) -> Seq<Seq<char>> {
    if is_architecture_doc(p, arch_dir) {
        match store.get(p) {
            Some(c) => node_labels_of(c),
            None => Seq::empty(),
        }
    } else {
        Seq::empty()
    }
}

/// The advisories for the labels of `ls` found at `p` that name no module.
pub open spec fn unmatched_advisories(p: Seq<char>, ls: Seq<Seq<char>>, scope: Seq<Seq<char>>) -> Seq<
    (Seq<char>, Seq<char>, Seq<char>),
>
    decreases ls.len(),
{
    if ls.len() == 0 {
        Seq::empty()
    } else {
        unmatched_advisories(p, ls.drop_last(), scope) + if module_from(ls.last(), scope, 0) is None {
            seq![(p, "diagram"@, node_message(ls.last()))]
        } else {
            Seq::<(Seq<char>, Seq<char>, Seq<char>)>::empty()
        }
    }
}

/// The modules the labels of `ls` resolve to, in order.
pub open spec fn matched_modules(ls: Seq<Seq<char>>, scope: Seq<Seq<char>>) -> Seq<Seq<char>>
    decreases ls.len(),
{
    if ls.len() == 0 {
        Seq::empty()
    } else {
        matched_modules(ls.drop_last(), scope) + match module_from(ls.last(), scope, 0) {
            Some(m) => seq![m],
            None => Seq::<Seq<char>>::empty(),
        }
    }
}

/// The `DIAGRAM` advisories over the records `all` of the bundle at
/// `bundle` against its sorted `scope`: each unresolved node, in record
/// order, then each module no node resolved to, in scope order.
pub open spec fn diagram_advisories(
    store: MapStore,
    bundle: Seq<char>,
    all: Seq<Seq<char>>,
    scope: Seq<Seq<char>>,
) -> Seq<(Seq<char>, Seq<char>, Seq<char>)> {
    let arch = join_path(bundle, "architecture"@);
    if scope.len() == 0 {
        Seq::empty()
    } else {
        let used = per_path(all, |p: Seq<char>| matched_modules(labels_at(store, arch, p), scope));
        per_path(all, |p: Seq<char>| unmatched_advisories(p, labels_at(store, arch, p), scope))
            + scope.filter(|m: Seq<char>| !used.contains(m)).map_values(
            |m: Seq<char>| (arch, "diagram"@, module_message(m)),
        )
    }
}

fn contains_text(v: &Vec<Vec<char>>, x: &Vec<char>) -> (r: bool)
    ensures
        r == texts(v@).contains(x@),
{
    let mut i: usize = 0;
    while i < v.len()
        invariant
            i <= v.len(),
            forall|j: int| 0 <= j < i ==> v@[j]@ != x@,
        decreases v.len() - i,
    {
        if eq(&v[i], x) {
            assert(texts(v@)[i as int] == x@);
            return true;
        }
        i += 1;
    }
    assert forall|j: int| 0 <= j < texts(v@).len() implies texts(v@)[j] != x@ by {
        assert(texts(v@)[j] == v@[j]@);
    }
    false
}

/// Advises, with kind `diagram`, on every architecture node no declared
/// module accounts for and every declared module no node shows. Never a
/// violation; a no-op without a scope file.
pub fn check(store: &MapStore, bundle: &String, all_md: &Vec<String>, reporter: &mut Reporter)
    ensures
        final(reporter).viols() == old(reporter).viols(),
        exists|scope: Seq<Seq<char>>|
            strictly_sorted(scope) && (forall|y: Seq<char>| #[trigger] scope.contains(y)
                <==> scope_lines(scope_text(*store, bundle@)).contains(y))
                && final(reporter).advs() == old(reporter).advs() + diagram_advisories(
                *store,
                bundle@,
                path_views(all_md@),
                scope,
            ),
{
    let scope = read_scope(store, bundle);
    let ghost sv = texts(scope@);
    let ghost ps = path_views(all_md@);
    if scope.len() == 0 {
        assert(reporter.advs() =~= old(reporter).advs() + diagram_advisories(*store, bundle@, ps, sv));
        return;
    }
    let arch = join_path_str(&chars_of_string(bundle), "architecture");
    let arch_s = string_of(&arch);
    let ghost av = arch@;
    let ghost g = |p: Seq<char>| unmatched_advisories(p, labels_at(*store, av, p), sv);
    let ghost h = |p: Seq<char>| matched_modules(labels_at(*store, av, p), sv);
    let mut used: Vec<Vec<char>> = Vec::new();
    let mut i: usize = 0;
    while i < all_md.len()
        invariant
            i <= all_md.len(),
            ps == path_views(all_md@),
            sv == texts(scope@),
            av == arch@,
            av == join_path(bundle@, "architecture"@),
            g == (|p: Seq<char>| unmatched_advisories(p, labels_at(*store, av, p), sv)),
            h == (|p: Seq<char>| matched_modules(labels_at(*store, av, p), sv)),
            reporter.viols() == old(reporter).viols(),
            reporter.advs() == old(reporter).advs() + per_path(ps.take(i as int), g),
            texts(used@) == per_path(ps.take(i as int), h),
        decreases all_md.len() - i,
    {
        proof {
            lemma_per_path_step(ps, g, i as int);
            lemma_per_path_step(ps, h, i as int);
        }
        let p = &all_md[i];
        let pc = chars_of_string(p);
        assert(pc@ == ps[i as int]);
        let in_arch = match parent_exec(&pc) {
            Some(d) => eq(&d, &arch),
            None => false,
        };
        let is_md = match extension_exec(&pc) {
            Some(e) => eq_str(&e, "md"),
            None => false,
        };
        let is_doc = in_arch && !eq_str(&file_name_or_empty_exec(&pc), "index.md") && is_md;
        assert(is_doc == is_architecture_doc(ps[i as int], av));
        let labels: Vec<Vec<char>> = if is_doc {
            match store.read(p) {
                Some(c) => node_labels(&chars_of_string(&c)),
                None => Vec::new(),
            }
        } else {
            Vec::new()
        };
        let ghost lv = texts(labels@);
        assert(lv == labels_at(*store, av, ps[i as int]));
        let ghost base_a = reporter.advs();
        let ghost base_u = texts(used@);
        let mut k: usize = 0;
        while k < labels.len()
            invariant
                k <= labels.len(),
                lv == texts(labels@),
                sv == texts(scope@),
                reporter.viols() == old(reporter).viols(),
                reporter.advs() == base_a + unmatched_advisories(p@, lv.take(k as int), sv),
                texts(used@) == base_u + matched_modules(lv.take(k as int), sv),
            decreases labels.len() - k,
        {
            proof {
                assert(lv.take(k + 1).drop_last() == lv.take(k as int));
                assert(lv.take(k + 1).last() == labels@[k as int]@);
            }
            match matching_module(&labels[k], &scope) {
                Some(m) => {
                    let ghost ub = texts(used@);
                    let ghost mv = m@;
                    used.push(m);
                    assert(texts(used@) =~= ub.push(mv));
                },
                None => {
                    let mut msg = chars_of("DIAGRAM node '");
                    extend(&mut msg, &labels[k]);
                    extend_str(
                        &mut msg,
                        "' has no module in diagram-scope.txt — the diagram may be stale",
                    );
                    reporter.advise(p, "diagram", string_of(&msg));
                },
            }
            k += 1;
        }
        assert(lv.take(labels.len() as int) == lv);
        i += 1;
    }
    assert(ps.take(all_md.len() as int) == ps);
    let ghost used_all = texts(used@);
    let ghost keep = |m: Seq<char>| !used_all.contains(m);
    let ghost f = |m: Seq<char>| (av, "diagram"@, module_message(m));
    let ghost base = reporter.advs();
    let mut j: usize = 0;
    while j < scope.len()
        invariant
            j <= scope.len(),
            sv == texts(scope@),
            used_all == texts(used@),
            keep == (|m: Seq<char>| !used_all.contains(m)),
            f == (|m: Seq<char>| (av, "diagram"@, module_message(m))),
            av == arch_s@,
            reporter.viols() == old(reporter).viols(),
            reporter.advs() == base + sv.take(j as int).filter(keep).map_values(f),
        decreases scope.len() - j,
    {
        proof {
            assert(sv.take(j + 1) == sv.take(j as int).push(sv[j as int]));
            sv.take(j as int).lemma_filter_push(sv[j as int], keep);
            assert(sv[j as int] == scope@[j as int]@);
        }
        if !contains_text(&used, &scope[j]) {
            let mut msg = chars_of("DIAGRAM module '");
            extend(&mut msg, &scope[j]);
            extend_str(
                &mut msg,
                "' has no node in any architecture diagram — the diagram may be stale",
            );
            let ghost fb = sv.take(j as int).filter(keep);
            reporter.advise(&arch_s, "diagram", string_of(&msg));
            assert(fb.push(sv[j as int]).map_values(f) =~= fb.map_values(f).push(f(sv[j as int])));
        }
        j += 1;
    }
    assert(sv.take(scope.len() as int) == sv);
    assert(reporter.advs() == old(reporter).advs() + diagram_advisories(*store, bundle@, ps, sv));
}

} // verus!
