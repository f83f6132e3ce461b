//! The dependencies between packages, and the orders that follow from them.

use vstd::prelude::*;

use crate::order::{is_sorted, lemma_sort_texts, sort_texts, sorted};
use crate::package::{models, Package, PackageModel};
use crate::text::{
    chars_of, contains_text, drop_suffix, ends_with, lemma_texts_push, same_text, text_of, texts,
    without_suffix,
};

verus! {

broadcast use vstd::seq_lib::group_seq_properties;

/// The dependencies between packages. Packages stand for themselves by their index in `names`.
#[derive(Debug)]
pub struct DepGraph {
    /// The names of the packages, each once.
    pub names: Vec<String>,
    /// For each package, the packages that it depends on.
    pub forward: Vec<Vec<usize>>,
    /// For each package, the packages that depend on it.
    pub reverse: Vec<Vec<usize>>,
}

/// All names that a package lists as dependencies.
pub open spec fn listed_deps(p: PackageModel) -> Seq<Seq<char>> {
    p.makedepends + p.hostmakedepends + p.depends
}

/// The package that a dependency comes from: a `-devel` package is part of the package that its
/// name is made of.
pub open spec fn base_name(dep: Seq<char>) -> Seq<char> {
    without_suffix(dep, "-devel"@)
}

/// Whether one of the dependencies `deps` comes from the package `name`.
pub open spec fn lists(deps: Seq<Seq<char>>, name: Seq<char>) -> bool {
    exists|k: int| 0 <= k < deps.len() && base_name(#[trigger] deps[k]) == name
}

/// Whether `name` is the name of one of the packages.
pub open spec fn is_custom(ps: Seq<PackageModel>, name: Seq<char>) -> bool {
    exists|k: int| 0 <= k < ps.len() && (#[trigger] ps[k]).name == name
}

/// Whether the package at `k` depends on the package `name`.
pub open spec fn package_needs(ps: Seq<PackageModel>, k: int, name: Seq<char>) -> bool {
    name != ps[k].name && is_custom(ps, name) && lists(listed_deps(ps[k]), name)
}

/// Whether `k` is the last of the packages called `name`.
pub open spec fn is_last_named(ps: Seq<PackageModel>, k: int, name: Seq<char>) -> bool {
    &&& 0 <= k < ps.len()
    &&& ps[k].name == name
    &&& forall|m: int| k < m < ps.len() ==> (#[trigger] ps[m]).name != name
}

/// Whether `a` depends on `b` by what the last package called `a` lists.
pub open spec fn needs(ps: Seq<PackageModel>, a: Seq<char>, b: Seq<char>) -> bool {
    exists|k: int| #[trigger] is_last_named(ps, k, a) && package_needs(ps, k, b)
}

/// Whether `a` depends on `b` by what some package called `a` lists.
pub open spec fn ever_needs(ps: Seq<PackageModel>, a: Seq<char>, b: Seq<char>) -> bool {
    exists|k: int| 0 <= k < ps.len() && #[trigger] ps[k].name == a && package_needs(ps, k, b)
}

/// The index of `name`, or the number of names where it is not among them.
pub fn find_name(names: &Vec<String>, name: &str) -> (r: usize)
    ensures
        r <= names@.len(),
        r < names@.len() ==> texts(names@)[r as int] == name@,
        r == names@.len() ==> !texts(names@).contains(name@),
{
    let mut i: usize = 0;
    while i < names.len()
        invariant
            i <= names@.len(),
            forall|j: int| 0 <= j < i ==> #[trigger] texts(names@)[j] != name@,
        decreases names@.len() - i,
    {
        if same_text(names[i].as_str(), name) {
            return i;
        }
        i += 1;
    }
    i
}

/// Whether `x` is in `v`.
pub fn has_index(v: &Vec<usize>, x: usize) -> (r: bool)
    ensures
        r == v@.contains(x),
{
    let mut i: usize = 0;
    while i < v.len()
        invariant
            i <= v@.len(),
            forall|j: int| 0 <= j < i ==> v@[j] != x,
        decreases v@.len() - i,
    {
        if v[i] == x {
            assert(v@[i as int] == x);
            return true;
        }
        i += 1;
    }
    false
}

/// `n` empty lists.
fn empty_lists(n: usize) -> (r: Vec<Vec<usize>>)
    ensures
        r@.len() == n,
        forall|i: int| 0 <= i < n ==> (#[trigger] r@[i])@.len() == 0,
{
    let mut out: Vec<Vec<usize>> = Vec::new();
    let mut i: usize = 0;
    while i < n
        invariant
            i <= n,
            out@.len() == i,
            forall|j: int| 0 <= j < i ==> (#[trigger] out@[j])@.len() == 0,
        decreases n - i,
    {
        out.push(Vec::new());
        i += 1;
    }
    out
}

/// The names of the packages, each once, in the order in which they first stand.
fn distinct_names(packages: &Vec<Package>) -> (r: Vec<String>)
    ensures
        texts(r@).no_duplicates(),
        forall|n: Seq<char>| texts(r@).contains(n) <==> is_custom(models(packages@), n),
{
    let mut out: Vec<String> = Vec::new();
    let ghost ps = models(packages@);
    let mut i: usize = 0;
    while i < packages.len()
        invariant
            i <= packages@.len(),
            ps == models(packages@),
            texts(out@).no_duplicates(),
            forall|n: Seq<char>|
                texts(out@).contains(n) <==> is_custom(ps.take(i as int), n),
        decreases packages@.len() - i,
    {
        let ghost front = ps.take(i as int);
        let ghost before = out@;
        let ghost name = ps[i as int].name;
        if !contains_text(&out, packages[i].name.as_str()) {
            proof {
                lemma_texts_push(out@, packages@[i as int].name);
            }
            out.push(packages[i].name.clone());
        }
        i += 1;
        proof {
            let now = ps.take(i as int);
            assert(now =~= front.push(ps[i - 1]));
            assert forall|n: Seq<char>| texts(out@).contains(n) <==> is_custom(now, n) by {
                if is_custom(now, n) && n != name {
                    let k = choose|k: int| 0 <= k < now.len() && (#[trigger] now[k]).name == n;
                    assert(front[k].name == n);
                }
                if is_custom(front, n) {
                    let k = choose|k: int| 0 <= k < front.len() && (#[trigger] front[k]).name == n;
                    assert(now[k].name == n);
                }
                assert(now[i - 1].name == name);
                if texts(out@).len() == texts(before).len() + 1 {
                    assert(texts(out@)[texts(before).len() as int] == name);
                    if texts(before).contains(n) {
                        let k = choose|k: int|
                            0 <= k < texts(before).len() && texts(before)[k] == n;
                        assert(texts(out@)[k] == n);
                    }
                    if texts(out@).contains(n) && n != name {
                        let k = choose|k: int| 0 <= k < texts(out@).len() && texts(out@)[k] == n;
                        assert(texts(before)[k] == n);
                    }
                }
            }
        }
    }
    assert(ps.take(i as int) =~= ps);
    out
}

/// The names that a package lists as dependencies, with `-devel` taken off.
fn base_deps(p: &Package) -> (r: Vec<String>)
    ensures
        r@.len() == listed_deps(p@).len(),
        forall|k: int| 0 <= k < r@.len() ==> #[trigger] r@[k]@ == base_name(listed_deps(p@)[k]),
{
    let mut out: Vec<String> = Vec::new();
    push_bases(&p.makedepends, &mut out);
    let ghost one = out@;
    push_bases(&p.hostmakedepends, &mut out);
    let ghost two = out@;
    push_bases(&p.depends, &mut out);
    proof {
        let m = p@.makedepends;
        let h = p@.hostmakedepends;
        let d = p@.depends;
        assert forall|k: int| 0 <= k < out@.len() implies #[trigger] out@[k]@ == base_name(
            listed_deps(p@)[k],
        ) by {
            if k < m.len() + h.len() {
                assert(out@[k] == two[k]);
                if k >= m.len() {
                    assert(two[m.len() + (k - m.len())]@ == base_name(h[k - m.len()]));
                } else {
                    assert(two[k] == one[0 + k]);
                }
            } else {
                assert(out@[two.len() + (k - two.len())]@ == base_name(d[k - two.len()]));
            }
        }
    }
    out
}

/// Puts the names of `deps`, with `-devel` taken off, behind those of `out`.
fn push_bases(deps: &Vec<String>, out: &mut Vec<String>)
    ensures
        final(out)@.len() == old(out)@.len() + deps@.len(),
        forall|k: int| 0 <= k < old(out)@.len() ==> final(out)@[k] == old(out)@[k],
        forall|k: int|
            0 <= k < deps@.len() ==> #[trigger] final(out)@[old(out)@.len() + k]@ == base_name(
                deps@[k]@,
            ),
{
    let mut i: usize = 0;
    while i < deps.len()
        invariant
            i <= deps@.len(),
            out@.len() == old(out)@.len() + i,
            forall|k: int| 0 <= k < old(out)@.len() ==> out@[k] == old(out)@[k],
            forall|k: int|
                0 <= k < i ==> #[trigger] out@[old(out)@.len() + k]@ == base_name(deps@[k]@),
        decreases deps@.len() - i,
    {
        let c = chars_of(deps[i].as_str());
        out.push(text_of(drop_suffix(c.as_slice(), "-devel")));
        i += 1;
    }
}

/// The indexes of the packages that the dependencies of `p` come from, without its own.
fn dep_indexes(names: &Vec<String>, p: &Package, own: usize) -> (r: Vec<usize>)
    requires
        texts(names@).no_duplicates(),
    ensures
        r@.no_duplicates(),
        forall|j: usize|
            #[trigger] r@.contains(j) <==> j < names@.len() && j != own && lists(
                listed_deps(p@),
                texts(names@)[j as int],
            ),
{
    let bases = base_deps(p);
    let ghost all = listed_deps(p@);
    let mut out: Vec<usize> = Vec::new();
    let mut k: usize = 0;
    while k < bases.len()
        invariant
            k <= bases@.len(),
            bases@.len() == all.len(),
            forall|t: int| 0 <= t < all.len() ==> #[trigger] bases@[t]@ == base_name(all[t]),
            texts(names@).no_duplicates(),
            out@.no_duplicates(),
            forall|j: usize|
                #[trigger] out@.contains(j) <==> j < names@.len() && j != own && lists(
                    all.take(k as int),
                    texts(names@)[j as int],
                ),
        decreases bases@.len() - k,
    {
        let j: usize = find_name(names, bases[k].as_str());
        let ghost before = out@;
        let ghost front = all.take(k as int);
        let known = has_index(&out, j);
        if j < names.len() && j != own && !known {
            out.push(j);
        }
        k += 1;
        proof {
            let now = all.take(k as int);
            assert(now =~= front.push(all[k - 1]));
            assert forall|i: usize| #[trigger] out@.contains(i) <==> i < names@.len() && i != own
                && lists(now, texts(names@)[i as int]) by {
                let name = texts(names@)[i as int];
                if lists(front, name) {
                    let t = choose|t: int|
                        0 <= t < front.len() && base_name(#[trigger] front[t]) == name;
                    assert(base_name(now[t]) == name);
                }
                if lists(now, name) && !lists(front, name) {
                    let t = choose|t: int|
                        0 <= t < now.len() && base_name(#[trigger] now[t]) == name;
                    assert(t == k - 1) by {
                        if t < k - 1 {
                            assert(front[t] == now[t]);
                        }
                    }
                }
                assert(base_name(now[k - 1]) == bases@[k - 1]@);
                if out@.len() == before.len() + 1 {
                    assert(out@ =~= before.push(j));
                    assert(out@[before.len() as int] == j);
                    assert(out@.contains(i) <==> before.contains(i) || i == j);
                }
            }
        }
    }
    assert(all.take(k as int) =~= all);
    out
}

/// Puts `own` into the lists of all of `deps`.
fn add_dependent(reverse: &mut Vec<Vec<usize>>, deps: &Vec<usize>, own: usize)
    requires
        forall|j: usize| deps@.contains(j) ==> j < old(reverse)@.len(),
        forall|j: int|
            0 <= j < old(reverse)@.len() ==> (#[trigger] old(reverse)@[j])@.no_duplicates(),
    ensures
        final(reverse)@.len() == old(reverse)@.len(),
        forall|j: int|
            0 <= j < old(reverse)@.len() ==> (#[trigger] final(reverse)@[j])@.no_duplicates(),
        forall|j: usize, x: usize|
            j < old(reverse)@.len() ==> (#[trigger] final(reverse)@[j as int]@.contains(x) <==> (
            old(reverse)@[j as int]@.contains(x) || (x == own && deps@.contains(j)))),
{
    let ghost start = reverse@;
    let mut k: usize = 0;
    while k < deps.len()
        invariant
            k <= deps@.len(),
            reverse@.len() == start.len(),
            forall|j: usize| deps@.contains(j) ==> j < start.len(),
            forall|j: int| 0 <= j < start.len() ==> (#[trigger] reverse@[j])@.no_duplicates(),
            forall|j: usize, x: usize|
                j < start.len() ==> (#[trigger] reverse@[j as int]@.contains(x) <==> (
                start[j as int]@.contains(x) || (x == own && deps@.take(k as int).contains(j)))),
        decreases deps@.len() - k,
    {
        let j: usize = deps[k];
        assert(deps@.contains(j));
        let ghost before = reverse@;
        if !has_index(&reverse[j], own) {
            reverse[j].push(own);
            assert(reverse@[j as int]@ =~= before[j as int]@.push(own));
        }
        k += 1;
        proof {
            let front = deps@.take(k - 1);
            let now = deps@.take(k as int);
            assert(now =~= front.push(j));
            assert forall|i: usize, x: usize| i < start.len() implies (
            #[trigger] reverse@[i as int]@.contains(x) <==> (start[i as int]@.contains(x) || (x
                == own && now.contains(i)))) by {
                assert(now.contains(i) <==> front.contains(i) || i == j);
                assert(before[i as int]@.contains(x) <==> (start[i as int]@.contains(x) || (x
                    == own && front.contains(i))));
            }
        }
    }
    assert(deps@.take(k as int) =~= deps@);
}

impl DepGraph {
    /// The names of the packages.
    pub open spec fn nodes(self) -> Seq<Seq<char>> {
        texts(self.names@)
    }

    /// Whether the package at `i` depends on the package at `j`.
    pub open spec fn edge(self, i: int, j: int) -> bool {
        &&& 0 <= i < self.names@.len()
        &&& 0 <= j < self.names@.len()
        &&& self.forward@[i]@.contains(j as usize)
    }

    /// Whether the package at `i` is among the dependents of the package at `j`.
    pub open spec fn back_edge(self, j: int, i: int) -> bool {
        &&& 0 <= i < self.names@.len()
        &&& 0 <= j < self.names@.len()
        &&& self.reverse@[j]@.contains(i as usize)
    }

    /// Every name stands once, every list holds each of its members once and only packages of the
    /// graph, and a package is among the dependents of each of its dependencies.
    pub open spec fn wf(self) -> bool {
        let n = self.names@.len();
        &&& n <= usize::MAX
        &&& self.nodes().no_duplicates()
        &&& self.forward@.len() == n
        &&& self.reverse@.len() == n
        &&& forall|i: int| 0 <= i < n ==> (#[trigger] self.forward@[i])@.no_duplicates()
        &&& forall|i: int| 0 <= i < n ==> (#[trigger] self.reverse@[i])@.no_duplicates()
        &&& forall|i: int, j: usize|
            0 <= i < n && #[trigger] self.forward@[i]@.contains(j) ==> j < n
        &&& forall|i: int, j: usize|
            0 <= i < n && #[trigger] self.reverse@[i]@.contains(j) ==> j < n
        &&& forall|i: int, j: int| #[trigger] self.edge(i, j) ==> self.back_edge(j, i)
    }

    /// Whether the package `a` depends on the package `b`.
    pub open spec fn depends_on(self, a: Seq<char>, b: Seq<char>) -> bool {
        exists|i: int, j: int| #[trigger]
            self.edge(i, j) && self.nodes()[i] == a && self.nodes()[j] == b
    }

    /// Whether the package `a` is among the dependents of the package `b`.
    pub open spec fn needed_by(self, b: Seq<char>, a: Seq<char>) -> bool {
        exists|j: int, i: int| #[trigger]
            self.back_edge(j, i) && self.nodes()[i] == a && self.nodes()[j] == b
    }

    /// Whether this is the graph of the packages: it has their names, and says what each depends
    /// on and what depends on each.
    pub open spec fn is_graph_of(self, ps: Seq<PackageModel>) -> bool {
        &&& self.wf()
        &&& forall|n: Seq<char>| #[trigger] self.nodes().contains(n) <==> is_custom(ps, n)
        &&& forall|a: Seq<char>, b: Seq<char>| #[trigger]
            self.depends_on(a, b) <==> needs(ps, a, b)
        &&& forall|a: Seq<char>, b: Seq<char>| #[trigger]
            self.needed_by(b, a) <==> ever_needs(ps, a, b)
    }

    /// The dependencies among the packages. Where two packages share a name, the later one says
    /// what the name depends on, and the dependents of a package are those of either.
    pub fn build(packages: &Vec<Package>) -> (r: Self)
        ensures
            r.is_graph_of(models(packages@)),
    {
        let names = distinct_names(packages);
        let n: usize = names.len();
        let mut forward = empty_lists(n);
        let mut reverse = empty_lists(n);
        let ghost ps = models(packages@);
        let ghost nodes = texts(names@);
        let mut k: usize = 0;
        while k < packages.len()
            invariant
                k <= packages@.len(),
                ps == models(packages@),
                nodes == texts(names@),
                n == names@.len(),
                nodes.no_duplicates(),
                forall|m: Seq<char>| nodes.contains(m) <==> is_custom(ps, m),
                forward@.len() == n,
                reverse@.len() == n,
                forall|i: int| 0 <= i < n ==> (#[trigger] forward@[i])@.no_duplicates(),
                forall|i: int| 0 <= i < n ==> (#[trigger] reverse@[i])@.no_duplicates(),
                forall|i: int, j: usize|
                    0 <= i < n && #[trigger] forward@[i]@.contains(j) ==> j < n,
                forall|i: int, j: usize|
                    0 <= i < n && #[trigger] reverse@[i]@.contains(j) ==> j < n,
                forall|i: usize, j: usize|
                    i < n && j < n ==> (#[trigger] forward@[i as int]@.contains(j) <==> late_edge(
                        ps.take(k as int),
                        nodes[i as int],
                        nodes[j as int],
                    )),
                forall|j: usize, i: usize|
                    i < n && j < n ==> (#[trigger] reverse@[j as int]@.contains(i) <==> any_edge(
                        ps.take(k as int),
                        nodes[i as int],
                        nodes[j as int],
                    )),
            decreases packages@.len() - k,
        {
            let p = &packages[k];
            proof {
                assert(ps[k as int].name == p.name@);
                assert(is_custom(ps, p.name@));
            }
            let own: usize = find_name(&names, p.name.as_str());
            let deps = dep_indexes(&names, p, own);
            add_dependent(&mut reverse, &deps, own);
            let ghost fore = forward@;
            let ghost dv = deps@;
            forward.set(own, deps);
            let ghost front = ps.take(k as int);
            k += 1;
            proof {
                let now = ps.take(k as int);
                assert(now =~= front.push(ps[k - 1]));
                assert forall|i: usize, j: usize| i < n && j < n implies (
                #[trigger] forward@[i as int]@.contains(j) <==> late_edge(
                    now,
                    nodes[i as int],
                    nodes[j as int],
                )) by {
                    assert(nodes[i as int] == nodes[own as int] <==> i == own);
                    assert(nodes[i as int] == nodes[j as int] <==> i == j);
                    lemma_late_edge(front, ps[k - 1], nodes[i as int], nodes[j as int]);
                    if i == own {
                        assert(forward@[i as int]@ == dv);
                    } else {
                        assert(forward@[i as int] == fore[i as int]);
                    }
                }
                assert forall|j: usize, i: usize| i < n && j < n implies (
                #[trigger] reverse@[j as int]@.contains(i) <==> any_edge(
                    now,
                    nodes[i as int],
                    nodes[j as int],
                )) by {
                    assert(nodes[i as int] == nodes[own as int] <==> i == own);
                    assert(nodes[i as int] == nodes[j as int] <==> i == j);
                    lemma_any_edge(front, ps[k - 1], nodes[i as int], nodes[j as int]);
                }
            }
        }
        let g = DepGraph { names, forward, reverse };
        proof {
            assert(ps.take(k as int) =~= ps);
            assert forall|i: int, j: int| #[trigger] g.edge(i, j) implies g.back_edge(j, i) by {
                assert(g.forward@[i as usize as int]@.contains(j as usize));
                assert(late_edge(ps, nodes[i], nodes[j]));
                lemma_late_is_any(ps, nodes[i], nodes[j]);
                assert(g.reverse@[j as usize as int]@.contains(i as usize));
            }
            assert forall|a: Seq<char>, b: Seq<char>| #[trigger]
                g.depends_on(a, b) <==> needs(ps, a, b) by {
                if g.depends_on(a, b) {
                    let (i, j) = choose|i: int, j: int| #[trigger]
                        g.edge(i, j) && nodes[i] == a && nodes[j] == b;
                    assert(g.forward@[i as usize as int]@.contains(j as usize));
                    assert(nodes.contains(b));
                    lemma_needs(ps, a, b);
                }
                if needs(ps, a, b) {
                    lemma_needs(ps, a, b);
                    assert(nodes.contains(a) && nodes.contains(b));
                    let i = choose|i: int| 0 <= i < nodes.len() && nodes[i] == a;
                    let j = choose|j: int| 0 <= j < nodes.len() && nodes[j] == b;
                    assert(g.forward@[i as usize as int]@.contains(j as usize));
                    assert(g.edge(i, j));
                }
            }
            assert forall|a: Seq<char>, b: Seq<char>| #[trigger]
                g.needed_by(b, a) <==> ever_needs(ps, a, b) by {
                if g.needed_by(b, a) {
                    let (j, i) = choose|j: int, i: int| #[trigger]
                        g.back_edge(j, i) && nodes[i] == a && nodes[j] == b;
                    assert(g.reverse@[j as usize as int]@.contains(i as usize));
                    assert(nodes.contains(b));
                    lemma_ever_needs(ps, a, b);
                }
                if ever_needs(ps, a, b) {
                    lemma_ever_needs(ps, a, b);
                    assert(nodes.contains(a) && nodes.contains(b));
                    let i = choose|i: int| 0 <= i < nodes.len() && nodes[i] == a;
                    let j = choose|j: int| 0 <= j < nodes.len() && nodes[j] == b;
                    assert(g.reverse@[j as usize as int]@.contains(i as usize));
                    assert(g.back_edge(j, i));
                }
            }
        }
        g
    }
}

/// Whether the last package called `a` lists `b`, another name.
spec fn late_edge(ps: Seq<PackageModel>, a: Seq<char>, b: Seq<char>) -> bool {
    a != b && exists|k: int| #[trigger] is_last_named(ps, k, a) && lists(listed_deps(ps[k]), b)
}

/// Whether some package called `a` lists `b`, another name.
spec fn any_edge(ps: Seq<PackageModel>, a: Seq<char>, b: Seq<char>) -> bool {
    a != b && exists|k: int|
        0 <= k < ps.len() && #[trigger] ps[k].name == a && lists(listed_deps(ps[k]), b)
}

proof fn lemma_late_edge(ps: Seq<PackageModel>, p: PackageModel, a: Seq<char>, b: Seq<char>)
    ensures
        p.name == a ==> (late_edge(ps.push(p), a, b) <==> a != b && lists(listed_deps(p), b)),
        p.name != a ==> (late_edge(ps.push(p), a, b) <==> late_edge(ps, a, b)),
{
    let now = ps.push(p);
    let n = ps.len() as int;
    if p.name == a {
        assert(is_last_named(now, n, a));
        assert forall|k: int| is_last_named(now, k, a) implies k == n by {
            if k < n {
                assert(now[n].name != a);
            }
        }
    } else {
        assert forall|k: int| #[trigger] is_last_named(now, k, a) implies is_last_named(ps, k, a)
            by {
            assert forall|m: int| k < m < ps.len() implies (#[trigger] ps[m]).name != a by {
                assert(now[m].name != a);
            }
        }
        assert forall|k: int| #[trigger] is_last_named(ps, k, a) implies is_last_named(now, k, a)
            && now[k] == ps[k] by {
            assert forall|m: int| k < m < now.len() implies (#[trigger] now[m]).name != a by {
                if m < n {
                    assert(ps[m].name != a);
                }
            }
        }
    }
}

proof fn lemma_any_edge(ps: Seq<PackageModel>, p: PackageModel, a: Seq<char>, b: Seq<char>)
    ensures
        any_edge(ps.push(p), a, b) <==> any_edge(ps, a, b) || (p.name == a && a != b && lists(
            listed_deps(p),
            b,
        )),
{
    let now = ps.push(p);
    assert(now[ps.len() as int] == p);
    if any_edge(ps, a, b) {
        let k = choose|k: int|
            0 <= k < ps.len() && #[trigger] ps[k].name == a && lists(listed_deps(ps[k]), b);
        assert(now[k] == ps[k]);
    }
    if any_edge(now, a, b) {
        let k = choose|k: int|
            0 <= k < now.len() && #[trigger] now[k].name == a && lists(listed_deps(now[k]), b);
        if k < ps.len() {
            assert(ps[k] == now[k]);
        }
    }
}

proof fn lemma_late_is_any(ps: Seq<PackageModel>, a: Seq<char>, b: Seq<char>)
    requires
        late_edge(ps, a, b),
    ensures
        any_edge(ps, a, b),
{
    let k = choose|k: int| #[trigger] is_last_named(ps, k, a) && lists(listed_deps(ps[k]), b);
    assert(ps[k].name == a);
}

proof fn lemma_needs(ps: Seq<PackageModel>, a: Seq<char>, b: Seq<char>)
    ensures
        needs(ps, a, b) <==> late_edge(ps, a, b) && is_custom(ps, b),
        needs(ps, a, b) ==> is_custom(ps, a),
{
    if needs(ps, a, b) {
        let k = choose|k: int| #[trigger] is_last_named(ps, k, a) && package_needs(ps, k, b);
        assert(ps[k].name == a);
    }
    if late_edge(ps, a, b) && is_custom(ps, b) {
        let k = choose|k: int| #[trigger] is_last_named(ps, k, a) && lists(listed_deps(ps[k]), b);
        assert(package_needs(ps, k, b));
    }
}

proof fn lemma_ever_needs(ps: Seq<PackageModel>, a: Seq<char>, b: Seq<char>)
    ensures
        ever_needs(ps, a, b) <==> any_edge(ps, a, b) && is_custom(ps, b),
        ever_needs(ps, a, b) ==> is_custom(ps, a),
{
    if ever_needs(ps, a, b) {
        let k = choose|k: int|
            0 <= k < ps.len() && #[trigger] ps[k].name == a && package_needs(ps, k, b);
        assert(ps[k].name == a);
    }
    if any_edge(ps, a, b) && is_custom(ps, b) {
        let k = choose|k: int|
            0 <= k < ps.len() && #[trigger] ps[k].name == a && lists(listed_deps(ps[k]), b);
        assert(package_needs(ps, k, b));
    }
}

/// The names of the packages at the indexes `order`.
pub open spec fn names_at(nodes: Seq<Seq<char>>, order: Seq<usize>) -> Seq<Seq<char>> {
    Seq::new(order.len(), |k: int| nodes[order[k] as int])
}

/// A sequence without repetition of numbers under `n` has at most `n` members.
proof fn lemma_distinct_len(s: Seq<usize>, n: nat)
    requires
        s.no_duplicates(),
        forall|k: int| 0 <= k < s.len() ==> (#[trigger] s[k]) < n,
    ensures
        s.len() <= n,
    decreases n,
{
    if s.len() == 0 {
    } else if n == 0 {
        assert(s[0] < n);
    } else {
        let top = (n - 1) as nat;
        if exists|k: int| 0 <= k < s.len() && #[trigger] s[k] == top {
            let k = choose|k: int| 0 <= k < s.len() && #[trigger] s[k] == top;
            let rest = s.remove(k);
            assert forall|i: int| 0 <= i < rest.len() implies (#[trigger] rest[i]) < top by {
                let o = if i < k {
                    i
                } else {
                    i + 1
                };
                assert(rest[i] == s[o]);
                assert(s[o] != s[k]);
            }
            assert(rest.no_duplicates()) by {
                assert forall|i: int, j: int|
                    0 <= i < rest.len() && 0 <= j < rest.len() && i != j implies rest[i]
                    != rest[j] by {
                    let a = if i < k {
                        i
                    } else {
                        i + 1
                    };
                    let b = if j < k {
                        j
                    } else {
                        j + 1
                    };
                    assert(s[a] != s[b]);
                }
            }
            lemma_distinct_len(rest, top);
        } else {
            lemma_distinct_len(s, top);
        }
    }
}

/// Whether all dependencies of the package at `i` are among `done`.
spec fn is_ready(g: DepGraph, done: Seq<bool>, i: int) -> bool {
    forall|j: usize| #[trigger] g.forward@[i]@.contains(j) ==> done[j as int]
}

impl DepGraph {
    /// Whether `order` names packages of the graph, each at most once and after everything that
    /// it depends on, and leaves out only packages that depend on a package that is left out.
    pub open spec fn is_build_order(self, order: Seq<Seq<char>>) -> bool {
        &&& order.no_duplicates()
        &&& forall|n: Seq<char>| #[trigger] order.contains(n) ==> self.nodes().contains(n)
        &&& forall|p: int, b: Seq<char>|
            0 <= p < order.len() && #[trigger] self.depends_on(order[p], b) ==> order.take(
                p,
            ).contains(b)
        &&& forall|n: Seq<char>|
            self.nodes().contains(n) && !(#[trigger] order.contains(n)) ==> exists|b: Seq<char>|
                #[trigger] self.depends_on(n, b) && !order.contains(b)
    }

    /// Whether the dependencies of the package at `i` are all done.
    fn ready(&self, done: &Vec<bool>, i: usize) -> (r: bool)
        requires
            self.wf(),
            done@.len() == self.names@.len(),
            i < self.names@.len(),
        ensures
            r == is_ready(*self, done@, i as int),
    {
        let deps = &self.forward[i];
        let mut k: usize = 0;
        while k < deps.len()
            invariant
                k <= deps@.len(),
                self.wf(),
                done@.len() == self.names@.len(),
                i < self.names@.len(),
                deps@ == self.forward@[i as int]@,
                forall|t: int| 0 <= t < k ==> done@[#[trigger] deps@[t] as int],
            decreases deps@.len() - k,
        {
            assert(self.forward@[i as int]@.contains(deps@[k as int]));
            if !done[deps[k]] {
                return false;
            }
            k += 1;
        }
        true
    }

    /// The indexes of the packages, each after everything that it depends on.
    fn sorted_indexes(&self) -> (order: Vec<usize>)
        requires
            self.wf(),
        ensures
            order@.no_duplicates(),
            forall|k: int| 0 <= k < order@.len() ==> (#[trigger] order@[k]) < self.names@.len(),
            forall|k: int, j: usize|
                0 <= k < order@.len() && #[trigger] self.forward@[order@[k] as int]@.contains(j)
                    ==> order@.take(k).contains(j),
            forall|i: usize|
                i < self.names@.len() && !(#[trigger] order@.contains(i)) ==> exists|j: usize|
                    #[trigger] self.forward@[i as int]@.contains(j) && !order@.contains(j),
    {
        let n: usize = self.names.len();
        let mut order: Vec<usize> = Vec::new();
        let mut placed: Vec<bool> = Vec::new();
        let mut done: Vec<bool> = Vec::new();
        let mut i: usize = 0;
        while i < n
            invariant
                self.wf(),
                n == self.names@.len(),
                i <= n,
                placed@.len() == i,
                done@.len() == i,
                order@.no_duplicates(),
                forall|k: int| 0 <= k < order@.len() ==> (#[trigger] order@[k]) < i,
                forall|x: usize| x < i ==> (#[trigger] placed@[x as int] <==> order@.contains(x)),
                forall|x: int| 0 <= x < i ==> !(#[trigger] done@[x]),
                forall|x: int|
                    0 <= x < i ==> (#[trigger] placed@[x] <==> self.forward@[x]@.len() == 0),
            decreases n - i,
        {
            done.push(false);
            let ghost before = order@;
            if self.forward[i].len() == 0 {
                placed.push(true);
                order.push(i);
                proof {
                    assert(order@ =~= before.push(i));
                    assert(order@[before.len() as int] == i);
                }
            } else {
                placed.push(false);
            }
            i += 1;
        }
        let mut head: usize = 0;
        proof {
            assert forall|x: int| 0 <= x < n implies (#[trigger] placed@[x] <==> is_ready(
                *self,
                done@,
                x,
            )) by {
                if is_ready(*self, done@, x) && self.forward@[x]@.len() > 0 {
                    let j = self.forward@[x]@[0];
                    assert(self.forward@[x]@.contains(j));
                }
            }
            assert forall|k: int, j: usize|
                0 <= k < order@.len() && #[trigger] self.forward@[order@[k] as int]@.contains(
                    j,
                ) implies order@.take(k).contains(j) by {
                assert(order@.contains(order@[k]));
                assert(placed@[order@[k] as int]);
            }
            lemma_distinct_len(order@, n as nat);
        }
        while head < order.len()
            invariant
                self.wf(),
                n == self.names@.len(),
                head <= order@.len() <= n,
                placed@.len() == n,
                done@.len() == n,
                order@.no_duplicates(),
                forall|k: int| 0 <= k < order@.len() ==> (#[trigger] order@[k]) < n,
                forall|x: usize| x < n ==> (#[trigger] placed@[x as int] <==> order@.contains(x)),
                forall|x: usize|
                    x < n ==> (#[trigger] done@[x as int] <==> order@.take(
                        head as int,
                    ).contains(x)),
                forall|x: int|
                    0 <= x < n ==> (#[trigger] placed@[x] <==> is_ready(*self, done@, x)),
                forall|k: int, j: usize|
                    0 <= k < order@.len() && #[trigger] self.forward@[order@[k] as int]@.contains(j)
                        ==> order@.take(k).contains(j),
            decreases n - head,
        {
            let x: usize = order[head];
            let ghost done_before = done@;
            assert(order@.contains(x));
            done.set(x, true);
            head += 1;
            proof {
                assert(order@.take(head as int) =~= order@.take(head - 1).push(x));
                assert forall|y: usize| y < n implies (#[trigger] done@[y as int]
                    <==> order@.take(head as int).contains(y)) by {
                    assert(order@.take(head as int).contains(y) <==> order@.take(
                        head - 1,
                    ).contains(y) || y == x);
                    assert(done_before[y as int] <==> order@.take(head - 1).contains(y));
                }
                assert forall|y: int| 0 <= y < n && placed@[y] implies is_ready(
                    *self,
                    done@,
                    y,
                ) by {
                    assert(is_ready(*self, done_before, y));
                }
                assert forall|y: int|
                    0 <= y < n && is_ready(*self, done@, y) && !self.reverse@[x as int]@.contains(
                        y as usize,
                    ) implies placed@[y] by {
                    assert(!self.edge(y, x as int)) by {
                        assert(!self.back_edge(x as int, y));
                    }
                    assert(is_ready(*self, done_before, y)) by {
                        assert forall|j: usize| #[trigger]
                            self.forward@[y]@.contains(j) implies done_before[j as int] by {
                            assert(done@[j as int]);
                            if j == x {
                                assert(self.edge(y, x as int));
                            }
                        }
                    }
                }
            }
            let dependents = &self.reverse[x];
            let mut t: usize = 0;
            while t < dependents.len()
                invariant
                    self.wf(),
                    n == self.names@.len(),
                    head <= order@.len() <= n,
                    t <= dependents@.len(),
                    x < n,
                    dependents@ == self.reverse@[x as int]@,
                    placed@.len() == n,
                    done@.len() == n,
                    order@.no_duplicates(),
                    forall|k: int| 0 <= k < order@.len() ==> (#[trigger] order@[k]) < n,
                    forall|y: usize|
                        y < n ==> (#[trigger] placed@[y as int] <==> order@.contains(y)),
                    forall|y: usize|
                        y < n ==> (#[trigger] done@[y as int] <==> order@.take(
                            head as int,
                        ).contains(y)),
                    forall|y: int|
                        0 <= y < n && #[trigger] placed@[y] ==> is_ready(*self, done@, y),
                    forall|y: usize|
                        y < n && is_ready(*self, done@, y as int) && !(
                        #[trigger] dependents@.skip(t as int).contains(y)) ==> placed@[y as int],
                    forall|k: int, j: usize|
                        0 <= k < order@.len() && #[trigger] self.forward@[order@[k] as int]@
                            .contains(j) ==> order@.take(k).contains(j),
                decreases dependents@.len() - t,
            {
                let y: usize = dependents[t];
                assert(self.reverse@[x as int]@.contains(y));
                let free = self.ready(&done, y);
                let ghost before = order@;
                let ghost placed_was = placed@;
                if free && !placed[y] {
                    placed.set(y, true);
                    order.push(y);
                    proof {
                        assert(order@ =~= before.push(y));
                        assert(order@[before.len() as int] == y);
                        lemma_distinct_len(order@, n as nat);
                        assert(order@.take(head as int) =~= before.take(head as int));
                        assert forall|z: usize| z < n implies (#[trigger] placed@[z as int]
                            <==> order@.contains(z)) by {
                            assert(order@.contains(z) <==> before.contains(z) || z == y);
                            assert(placed_was[z as int] <==> before.contains(z));
                        }
                        assert forall|k: int, j: usize|
                            0 <= k < order@.len() && #[trigger] self.forward@[order@[k] as int]@
                                .contains(j) implies order@.take(k).contains(j) by {
                            if k < before.len() {
                                assert(self.forward@[before[k] as int]@.contains(j));
                                assert(order@.take(k) =~= before.take(k));
                            } else {
                                assert(done@[j as int]);
                                assert(order@.take(head as int).contains(j));
                                let q = choose|q: int|
                                    0 <= q < head && order@.take(head as int)[q] == j;
                                assert(order@.take(k)[q] == j);
                            }
                        }
                    }
                }
                t += 1;
                proof {
                    let was = dependents@.skip(t - 1);
                    let now = dependents@.skip(t as int);
                    assert forall|z: usize|
                        z < n && is_ready(*self, done@, z as int) && !(
                        #[trigger] now.contains(z)) implies placed@[z as int] by {
                        if was.contains(z) {
                            let q = choose|q: int| 0 <= q < was.len() && was[q] == z;
                            if q > 0 {
                                assert(now[q - 1] == z);
                            }
                            assert(z == y);
                        } else {
                            assert(placed_was[z as int]);
                        }
                    }
                }
            }
            proof {
                assert forall|y: int| 0 <= y < n implies (#[trigger] placed@[y] <==> is_ready(
                    *self,
                    done@,
                    y,
                )) by {
                    assert(!dependents@.skip(t as int).contains(y as usize));
                }
            }
        }
        proof {
            assert(order@.take(head as int) =~= order@);
            assert forall|i: usize|
                i < self.names@.len() && !(#[trigger] order@.contains(i)) implies exists|j: usize|
                #[trigger] self.forward@[i as int]@.contains(j) && !order@.contains(j) by {
                assert(!placed@[i as int]);
                assert(!is_ready(*self, done@, i as int));
                let j = choose|j: usize| #[trigger]
                    self.forward@[i as int]@.contains(j) && !done@[j as int];
                assert(!order@.contains(j));
            }
        }
        order
    }
}

/// Whether `path` leads along dependents from one package to the next.
pub open spec fn is_path(g: DepGraph, path: Seq<Seq<char>>) -> bool {
    forall|k: int| 0 < k < path.len() ==> g.needed_by(path[k - 1], #[trigger] path[k])
}

/// Whether a path along dependents leads from one of `changed` to `name`.
pub open spec fn is_reached(g: DepGraph, changed: Seq<Seq<char>>, name: Seq<char>) -> bool {
    exists|path: Seq<Seq<char>>| #[trigger]
        is_path(g, path) && path.len() > 0 && changed.contains(path[0]) && path.last() == name
}

/// Whether `name` has to be built again when `changed` have changed: it depends on one of them,
/// directly or through others, and is not one of them.
pub open spec fn needs_rebuild(g: DepGraph, changed: Seq<Seq<char>>, name: Seq<char>) -> bool {
    is_reached(g, changed, name) && !changed.contains(name)
}

proof fn lemma_reach_step(
    g: DepGraph,
    changed: Seq<Seq<char>>,
    name: Seq<char>,
    next: Seq<char>,
)
    requires
        is_reached(g, changed, name),
        g.needed_by(name, next),
    ensures
        is_reached(g, changed, next),
{
    let path = choose|path: Seq<Seq<char>>| #[trigger]
        is_path(g, path) && path.len() > 0 && changed.contains(path[0]) && path.last() == name;
    let longer = path.push(next);
    assert(is_path(g, longer)) by {
        assert forall|k: int| 0 < k < longer.len() implies g.needed_by(
            longer[k - 1],
            #[trigger] longer[k],
        ) by {
            if k < path.len() {
                assert(longer[k] == path[k]);
            }
        }
    }
    assert(longer[0] == path[0]);
    assert(longer.last() == next);
}

proof fn lemma_reach_start(g: DepGraph, changed: Seq<Seq<char>>, name: Seq<char>)
    requires
        changed.contains(name),
    ensures
        is_reached(g, changed, name),
{
    let path = seq![name];
    assert(is_path(g, path));
    assert(path.last() == name);
}

/// Where the marked packages hold all of `changed` and the dependents of each marked package,
/// everything that is reached is marked or changed.
proof fn lemma_reach_closed(
    g: DepGraph,
    changed: Seq<Seq<char>>,
    marked: Seq<bool>,
    path: Seq<Seq<char>>,
)
    requires
        g.wf(),
        marked.len() == g.names@.len(),
        forall|i: int|
            0 <= i < marked.len() && changed.contains(#[trigger] g.nodes()[i]) ==> marked[i],
        forall|j: int, i: int| #[trigger] g.back_edge(j, i) && marked[j] ==> marked[i],
        is_path(g, path),
        path.len() > 0,
        changed.contains(path[0]),
    ensures
        forall|i: int|
            0 <= i < marked.len() && #[trigger] g.nodes()[i] == path.last() ==> marked[i],
    decreases path.len(),
{
    if path.len() > 1 {
        let front = path.drop_last();
        assert(is_path(g, front)) by {
            assert forall|k: int| 0 < k < front.len() implies g.needed_by(
                front[k - 1],
                #[trigger] front[k],
            ) by {
                assert(front[k] == path[k]);
            }
        }
        lemma_reach_closed(g, changed, marked, front);
        let last = path[path.len() - 1];
        assert(g.needed_by(path[path.len() - 2], last));
        let (j, i) = choose|j: int, i: int| #[trigger]
            g.back_edge(j, i) && g.nodes()[i] == last && g.nodes()[j] == path[path.len() - 2];
        assert(g.nodes()[j] == front.last());
        assert(marked[j]);
        assert(marked[i]);
    }
}

/// What a filter keeps of an order stands in that order.
pub proof fn lemma_filter_deps_first(
    g: DepGraph,
    order: Seq<Seq<char>>,
    keep: spec_fn(Seq<char>) -> bool,
)
    requires
        forall|p: int, b: Seq<char>|
            0 <= p < order.len() && #[trigger] g.depends_on(order[p], b) ==> order.take(
                p,
            ).contains(b),
    ensures
        forall|p: int, b: Seq<char>|
            0 <= p < order.filter(keep).len() && #[trigger] g.depends_on(order.filter(keep)[p], b)
                && keep(b) ==> order.filter(keep).take(p).contains(b),
    decreases order.len(),
{
    reveal(Seq::filter);
    if order.len() > 0 {
        let front = order.drop_last();
        assert forall|p: int, b: Seq<char>|
            0 <= p < front.len() && #[trigger] g.depends_on(front[p], b) implies front.take(
            p,
        ).contains(b) by {
            assert(front[p] == order[p]);
            assert(front.take(p) =~= order.take(p));
        }
        lemma_filter_deps_first(g, front, keep);
        let kept = order.filter(keep);
        let before = front.filter(keep);
        assert forall|p: int, b: Seq<char>|
            0 <= p < kept.len() && #[trigger] g.depends_on(kept[p], b) && keep(b) implies kept.take(
            p,
        ).contains(b) by {
            if p < before.len() {
                assert(kept[p] == before[p]);
                assert(kept.take(p) =~= before.take(p));
            } else {
                assert(kept[p] == order[order.len() - 1]);
                assert(order.take(order.len() - 1).contains(b));
                assert(front =~= order.take(order.len() - 1));
                assert(kept.take(p) =~= before);
                let q = choose|q: int| 0 <= q < front.len() && front[q] == b;
                front.lemma_filter_contains(keep, q);
            }
        }
    }
}

impl DepGraph {
    /// The names of the packages, each after everything that it depends on. Packages that depend
    /// on each other in a circle, and what depends on them, are left out.
    pub fn topological_sort(&self) -> (r: Vec<String>)
        requires
            self.wf(),
        ensures
            self.is_build_order(texts(r@)),
    {
        let order = self.sorted_indexes();
        let mut out: Vec<String> = Vec::new();
        let mut k: usize = 0;
        while k < order.len()
            invariant
                self.wf(),
                k <= order@.len(),
                forall|i: int| 0 <= i < order@.len() ==> (#[trigger] order@[i]) < self.names@.len(),
                texts(out@) == names_at(self.nodes(), order@).take(k as int),
            decreases order@.len() - k,
        {
            let ghost all = names_at(self.nodes(), order@);
            proof {
                lemma_texts_push(out@, self.names@[order@[k as int] as int]);
                assert(all.take(k as int).push(all[k as int]) =~= all.take(k + 1));
            }
            out.push(self.names[order[k]].clone());
            k += 1;
        }
        proof {
            let all = names_at(self.nodes(), order@);
            assert(all.take(k as int) =~= all);
            self.lemma_order_of_indexes(order@);
        }
        out
    }

    /// An order of indexes that puts dependencies first is a build order of the names.
    proof fn lemma_order_of_indexes(self, order: Seq<usize>)
        requires
            self.wf(),
            order.no_duplicates(),
            forall|k: int| 0 <= k < order.len() ==> (#[trigger] order[k]) < self.names@.len(),
            forall|k: int, j: usize|
                0 <= k < order.len() && #[trigger] self.forward@[order[k] as int]@.contains(j)
                    ==> order.take(k).contains(j),
            forall|i: usize|
                i < self.names@.len() && !(#[trigger] order.contains(i)) ==> exists|j: usize|
                    #[trigger] self.forward@[i as int]@.contains(j) && !order.contains(j),
        ensures
            self.is_build_order(names_at(self.nodes(), order)),
    {
        let all = names_at(self.nodes(), order);
        let nodes = self.nodes();
        assert(all.no_duplicates()) by {
            assert forall|a: int, b: int|
                0 <= a < all.len() && 0 <= b < all.len() && a != b implies all[a] != all[b] by {
                assert(order[a] != order[b]);
                assert(nodes[order[a] as int] != nodes[order[b] as int]);
            }
        }
        assert forall|i: usize| i < nodes.len() implies (all.contains(nodes[i as int])
            <==> #[trigger] order.contains(i)) by {
            if order.contains(i) {
                let k = choose|k: int| 0 <= k < order.len() && order[k] == i;
                assert(all[k] == nodes[i as int]);
            }
            if all.contains(nodes[i as int]) {
                let k = choose|k: int| 0 <= k < all.len() && all[k] == nodes[i as int];
                assert(nodes[order[k] as int] == nodes[i as int]);
                assert(order[k] == i);
            }
        }
        assert forall|p: int, b: Seq<char>|
            0 <= p < all.len() && #[trigger] self.depends_on(all[p], b) implies all.take(
            p,
        ).contains(b) by {
            let (i, j) = choose|i: int, j: int| #[trigger]
                self.edge(i, j) && nodes[i] == all[p] && nodes[j] == b;
            assert(nodes[order[p] as int] == nodes[i]);
            assert(order[p] == i);
            assert(self.forward@[order[p] as int]@.contains(j as usize));
            let q = choose|q: int| 0 <= q < p && order.take(p)[q] == j as usize;
            assert(all.take(p)[q] == b);
        }
        assert forall|n: Seq<char>|
            nodes.contains(n) && !(#[trigger] all.contains(n)) implies exists|b: Seq<char>|
            #[trigger] self.depends_on(n, b) && !all.contains(b) by {
            let i = choose|i: int| 0 <= i < nodes.len() && nodes[i] == n;
            assert(!order.contains(i as usize));
            let j = choose|j: usize| #[trigger]
                self.forward@[i as usize as int]@.contains(j) && !order.contains(j);
            assert(self.edge(i, j as int));
            assert(self.depends_on(n, nodes[j as int]));
            assert(!all.contains(nodes[j as int]));
        }
    }

    /// Marks the packages that the changed ones lead to along dependents.
    fn reached(&self, changed: &Vec<String>) -> (marked: Vec<bool>)
        requires
            self.wf(),
        ensures
            marked@.len() == self.names@.len(),
            forall|i: int|
                0 <= i < marked@.len() ==> (#[trigger] marked@[i] <==> is_reached(
                    *self,
                    texts(changed@),
                    self.nodes()[i],
                )),
    {
        let n: usize = self.names.len();
        let ghost ch = texts(changed@);
        let mut marked: Vec<bool> = Vec::new();
        let mut queue: Vec<usize> = Vec::new();
        let mut i: usize = 0;
        while i < n
            invariant
                self.wf(),
                n == self.names@.len(),
                ch == texts(changed@),
                i <= n,
                marked@.len() == i,
                queue@.no_duplicates(),
                forall|k: int| 0 <= k < queue@.len() ==> (#[trigger] queue@[k]) < i,
                forall|x: usize| x < i ==> (#[trigger] marked@[x as int] <==> queue@.contains(x)),
                forall|x: int|
                    0 <= x < i ==> (#[trigger] marked@[x] <==> ch.contains(self.nodes()[x])),
            decreases n - i,
        {
            let ghost before = queue@;
            if contains_text(changed, self.names[i].as_str()) {
                marked.push(true);
                queue.push(i);
                assert(queue@[before.len() as int] == i);
                assert(queue@ =~= before.push(i));
            } else {
                marked.push(false);
            }
            i += 1;
        }
        let mut head: usize = 0;
        proof {
            assert forall|x: int| 0 <= x < n && marked@[x] implies is_reached(
                *self,
                ch,
                #[trigger] self.nodes()[x],
            ) by {
                lemma_reach_start(*self, ch, self.nodes()[x]);
            }
            lemma_distinct_len(queue@, n as nat);
        }
        while head < queue.len()
            invariant
                self.wf(),
                n == self.names@.len(),
                ch == texts(changed@),
                head <= queue@.len() <= n,
                marked@.len() == n,
                queue@.no_duplicates(),
                forall|k: int| 0 <= k < queue@.len() ==> (#[trigger] queue@[k]) < n,
                forall|x: usize| x < n ==> (#[trigger] marked@[x as int] <==> queue@.contains(x)),
                forall|x: int|
                    0 <= x < n && ch.contains(#[trigger] self.nodes()[x]) ==> marked@[x],
                forall|x: int|
                    0 <= x < n && marked@[x] ==> is_reached(*self, ch, #[trigger] self.nodes()[x]),
                forall|k: int, y: usize|
                    0 <= k < head && #[trigger] self.reverse@[queue@[k] as int]@.contains(y)
                        ==> marked@[y as int],
            decreases n - head,
        {
            let x: usize = queue[head];
            assert(queue@.contains(x));
            let dependents = &self.reverse[x];
            let mut t: usize = 0;
            while t < dependents.len()
                invariant
                    self.wf(),
                    n == self.names@.len(),
                    ch == texts(changed@),
                    head < queue@.len() <= n,
                    x == queue@[head as int],
                    x < n,
                    marked@[x as int],
                    t <= dependents@.len(),
                    dependents@ == self.reverse@[x as int]@,
                    marked@.len() == n,
                    queue@.no_duplicates(),
                    forall|k: int| 0 <= k < queue@.len() ==> (#[trigger] queue@[k]) < n,
                    forall|y: usize|
                        y < n ==> (#[trigger] marked@[y as int] <==> queue@.contains(y)),
                    forall|y: int|
                        0 <= y < n && ch.contains(#[trigger] self.nodes()[y]) ==> marked@[y],
                    forall|y: int|
                        0 <= y < n && marked@[y] ==> is_reached(
                            *self,
                            ch,
                            #[trigger] self.nodes()[y],
                        ),
                    forall|k: int, y: usize|
                        0 <= k < head && #[trigger] self.reverse@[queue@[k] as int]@.contains(y)
                            ==> marked@[y as int],
                    forall|k: int| 0 <= k < t ==> marked@[#[trigger] dependents@[k] as int],
                decreases dependents@.len() - t,
            {
                let y: usize = dependents[t];
                assert(self.reverse@[x as int]@.contains(y));
                let ghost before = queue@;
                let ghost was = marked@;
                if !marked[y] {
                    marked.set(y, true);
                    queue.push(y);
                    proof {
                        assert(queue@ =~= before.push(y));
                        assert(queue@[before.len() as int] == y);
                        lemma_distinct_len(queue@, n as nat);
                        assert(self.back_edge(x as int, y as int));
                        assert(self.needed_by(self.nodes()[x as int], self.nodes()[y as int]));
                        assert(is_reached(*self, ch, self.nodes()[x as int]));
                        lemma_reach_step(
                            *self,
                            ch,
                            self.nodes()[x as int],
                            self.nodes()[y as int],
                        );
                        assert forall|z: usize| z < n implies (#[trigger] marked@[z as int]
                            <==> queue@.contains(z)) by {
                            assert(queue@.contains(z) <==> before.contains(z) || z == y);
                            assert(was[z as int] <==> before.contains(z));
                        }
                        assert forall|k: int, z: usize|
                            0 <= k < head && #[trigger] self.reverse@[queue@[k] as int]@.contains(
                                z,
                            ) implies marked@[z as int] by {
                            assert(self.reverse@[before[k] as int]@.contains(z));
                        }
                    }
                }
                t += 1;
                assert forall|k: int| 0 <= k < t implies marked@[#[trigger] dependents@[k] as int]
                    by {
                    assert(self.reverse@[x as int]@.contains(dependents@[k]));
                }
            }
            head += 1;
            proof {
                assert forall|k: int, y: usize|
                    0 <= k < head && #[trigger] self.reverse@[queue@[k] as int]@.contains(
                        y,
                    ) implies marked@[y as int] by {
                    if k == head - 1 {
                        let q = choose|q: int| 0 <= q < dependents@.len() && dependents@[q] == y;
                        assert(marked@[dependents@[q] as int]);
                    }
                }
            }
        }
        proof {
            assert forall|j: int, i: int| #[trigger]
                self.back_edge(j, i) && marked@[j] implies marked@[i] by {
                assert(marked@[j as usize as int]);
                assert(queue@.contains(j as usize));
                let k = choose|k: int| 0 <= k < queue@.len() && queue@[k] == j as usize;
                assert(self.reverse@[queue@[k] as int]@.contains(i as usize));
            }
            assert forall|i: int|
                0 <= i < n && is_reached(*self, ch, self.nodes()[i]) implies #[trigger]
            marked@[i] by {
                let path = choose|path: Seq<Seq<char>>| #[trigger]
                    is_path(*self, path) && path.len() > 0 && ch.contains(path[0]) && path.last()
                        == self.nodes()[i];
                lemma_reach_closed(*self, ch, marked@, path);
            }
        }
        marked
    }

    /// The packages that have to be built again when `changed` have changed, in a build order.
    pub fn rebuild_set(&self, changed: &Vec<String>) -> (r: Vec<String>)
        requires
            self.wf(),
        ensures
            exists|order: Seq<Seq<char>>| #[trigger]
                self.is_build_order(order) && texts(r@) == order.filter(
                    |n: Seq<char>| needs_rebuild(*self, texts(changed@), n),
                ),
            forall|p: int, b: Seq<char>|
                0 <= p < r@.len() && #[trigger] self.depends_on(texts(r@)[p], b) && needs_rebuild(
                    *self,
                    texts(changed@),
                    b,
                ) ==> texts(r@).take(p).contains(b),
    {
        let marked = self.reached(changed);
        let order = self.topological_sort();
        let ghost all = texts(order@);
        let ghost ch = texts(changed@);
        let ghost keep = |n: Seq<char>| needs_rebuild(*self, ch, n);
        let mut out: Vec<String> = Vec::new();
        let mut k: usize = 0;
        while k < order.len()
            invariant
                self.wf(),
                k <= order@.len(),
                all == texts(order@),
                ch == texts(changed@),
                self.is_build_order(all),
                keep == |n: Seq<char>| needs_rebuild(*self, ch, n),
                marked@.len() == self.names@.len(),
                forall|i: int|
                    0 <= i < marked@.len() ==> (#[trigger] marked@[i] <==> is_reached(
                        *self,
                        ch,
                        self.nodes()[i],
                    )),
                texts(out@) == all.take(k as int).filter(keep),
            decreases order@.len() - k,
        {
            proof {
                reveal(Seq::filter);
                assert(all.take(k + 1).drop_last() =~= all.take(k as int));
                assert(all.take(k + 1).last() == all[k as int]);
                assert(all.contains(all[k as int]));
                lemma_texts_push(out@, order@[k as int]);
            }
            let name = &order[k];
            let i: usize = find_name(&self.names, name.as_str());
            if marked[i] && !contains_text(changed, name.as_str()) {
                out.push(name.clone());
            }
            k += 1;
        }
        proof {
            assert(all.take(k as int) =~= all);
            lemma_filter_deps_first(*self, all, keep);
        }
        out
    }
}

/// A package in a tree of dependents, with those that depend on it.
#[derive(Debug)]
pub struct TreeNode {
    pub name: String,
    pub children: Vec<TreeNode>,
}

/// What a `TreeNode` holds.
pub struct TreeModel {
    pub name: Seq<char>,
    pub children: Seq<TreeModel>,
}

pub open spec fn tree_model(t: TreeNode) -> TreeModel
    decreases t,
{
    TreeModel { name: t.name@, children: forest_model(t.children@) }
}

pub open spec fn forest_model(s: Seq<TreeNode>) -> Seq<TreeModel>
    decreases s,
{
    if s.len() == 0 {
        Seq::empty()
    } else {
        forest_model(s.drop_last()).push(tree_model(s.last()))
    }
}

/// How many of `seen` are not marked.
spec fn unmarked(seen: Seq<bool>) -> nat
    decreases seen.len(),
{
    if seen.len() == 0 {
        0
    } else {
        unmarked(seen.drop_last()) + if seen.last() {
            0nat
        } else {
            1nat
        }
    }
}

proof fn lemma_unmarked_set(seen: Seq<bool>, i: int)
    requires
        0 <= i < seen.len(),
        !seen[i],
    ensures
        unmarked(seen.update(i, true)) + 1 == unmarked(seen),
    decreases seen.len(),
{
    let now = seen.update(i, true);
    if i == seen.len() - 1 {
        assert(now.drop_last() =~= seen.drop_last());
    } else {
        assert(now.drop_last() =~= seen.drop_last().update(i, true));
        lemma_unmarked_set(seen.drop_last(), i);
    }
}

proof fn lemma_unmarked_len(seen: Seq<bool>)
    ensures
        unmarked(seen) <= seen.len(),
    decreases seen.len(),
{
    if seen.len() > 0 {
        lemma_unmarked_len(seen.drop_last());
    }
}

/// The subtrees under `name`, down to `depth` levels, and the packages that have been met then.
/// The dependents of a package stand under it where it is met first, and nowhere else.
pub open spec fn subtrees(
    g: DepGraph,
    name: Seq<char>,
    seen: Set<Seq<char>>,
    depth: nat,
) -> (Seq<TreeModel>, Set<Seq<char>>)
    decreases depth, 0nat,
{
    if depth == 0 || seen.contains(name) {
        (Seq::empty(), seen)
    } else {
        forest(g, g.dependents(name), seen.insert(name), (depth - 1) as nat)
    }
}

/// A tree for each of `names`, in this order.
pub open spec fn forest(
    g: DepGraph,
    names: Seq<Seq<char>>,
    seen: Set<Seq<char>>,
    depth: nat,
) -> (Seq<TreeModel>, Set<Seq<char>>)
    decreases depth, names.len(),
{
    if names.len() == 0 {
        (Seq::empty(), seen)
    } else {
        let (front, met) = forest(g, names.drop_last(), seen, depth);
        let (children, all) = subtrees(g, names.last(), met, depth);
        (front.push(TreeModel { name: names.last(), children }), all)
    }
}

/// Whether `marks` marks the packages of `seen`.
spec fn marks(g: DepGraph, marks: Seq<bool>, seen: Set<Seq<char>>) -> bool {
    &&& marks.len() == g.names@.len()
    &&& forall|i: int|
        0 <= i < marks.len() ==> (#[trigger] marks[i] <==> seen.contains(g.nodes()[i]))
}

impl DepGraph {
    /// The names of the dependencies of `name`, sorted.
    pub open spec fn dependencies(self, name: Seq<char>) -> Seq<Seq<char>> {
        if self.nodes().contains(name) {
            let j = self.nodes().index_of(name);
            sort_texts(names_at(self.nodes(), self.forward@[j]@))
        } else {
            Seq::empty()
        }
    }

    /// The names of the dependents of `name`, sorted.
    pub open spec fn dependents(self, name: Seq<char>) -> Seq<Seq<char>> {
        if self.nodes().contains(name) {
            let j = self.nodes().index_of(name);
            sort_texts(names_at(self.nodes(), self.reverse@[j]@))
        } else {
            Seq::empty()
        }
    }

    proof fn lemma_dependents(self, name: Seq<char>)
        requires
            self.wf(),
        ensures
            forall|k: int|
                0 <= k < self.dependents(name).len() ==> self.nodes().contains(
                    #[trigger] self.dependents(name)[k],
                ),
    {
        if self.nodes().contains(name) {
            let j = self.nodes().index_of(name);
            let list = self.reverse@[j]@;
            let want = names_at(self.nodes(), list);
            let t = sort_texts(want);
            lemma_sort_texts(want);
            assert forall|k: int| 0 <= k < t.len() implies self.nodes().contains(#[trigger] t[k]) by {
                assert(t.contains(t[k]));
                assert(want.contains(t[k]));
                let q = choose|q: int| 0 <= q < want.len() && want[q] == t[k];
                assert(self.reverse@[j]@.contains(list[q]));
                assert(self.nodes()[list[q] as int] == t[k]);
            }
        }
    }

    /// The names of the dependents of the package at `j`, sorted.
    fn dependent_names(&self, j: usize) -> (r: Vec<String>)
        requires
            self.wf(),
            j < self.names@.len(),
        ensures
            texts(r@) == self.dependents(self.nodes()[j as int]),
            forall|k: int| 0 <= k < r@.len() ==> self.nodes().contains(#[trigger] texts(r@)[k]),
    {
        let r = self.sorted_names(&self.reverse[j]);
        proof {
            let name = self.nodes()[j as int];
            assert(self.nodes().contains(name));
            assert(self.nodes().index_of(name) == j);
            self.lemma_dependents(name);
            assert(texts(r@) == self.dependents(name));
            assert forall|k: int| 0 <= k < r@.len() implies self.nodes().contains(
                #[trigger] texts(r@)[k],
            ) by {
                assert(self.nodes().contains(self.dependents(name)[k]));
            }
        }
        r
    }

    /// The names of the packages in a list, sorted.
    fn sorted_names(&self, list: &Vec<usize>) -> (r: Vec<String>)
        requires
            self.wf(),
            forall|x: usize| #[trigger] list@.contains(x) ==> x < self.names@.len(),
        ensures
            texts(r@) == sort_texts(names_at(self.nodes(), list@)),
    {
        let ghost want = names_at(self.nodes(), list@);
        let mut out: Vec<String> = Vec::new();
        let mut k: usize = 0;
        while k < list.len()
            invariant
                self.wf(),
                forall|x: usize| #[trigger] list@.contains(x) ==> x < self.names@.len(),
                k <= list@.len(),
                want == names_at(self.nodes(), list@),
                texts(out@) == want.take(k as int),
            decreases list@.len() - k,
        {
            assert(list@.contains(list@[k as int]));
            proof {
                lemma_texts_push(out@, self.names@[list@[k as int] as int]);
                assert(want.take(k as int).push(want[k as int]) =~= want.take(k + 1));
            }
            out.push(self.names[list[k]].clone());
            k += 1;
        }
        assert(want.take(k as int) =~= want);
        sorted(&out)
    }

    /// The names of the packages that depend on `name`, sorted.
    pub fn names_of_dependents(&self, name: &str) -> (r: Vec<String>)
        requires
            self.wf(),
        ensures
            texts(r@) == self.dependents(name@),
    {
        let i: usize = find_name(&self.names, name);
        if i == self.names.len() {
            let none: Vec<String> = Vec::new();
            assert(texts(none@) =~= Seq::empty());
            return none;
        }
        self.dependent_names(i)
    }

    /// The names of the packages that `name` depends on, sorted.
    pub fn names_of_dependencies(&self, name: &str) -> (r: Vec<String>)
        requires
            self.wf(),
        ensures
            texts(r@) == self.dependencies(name@),
    {
        let i: usize = find_name(&self.names, name);
        if i == self.names.len() {
            let none: Vec<String> = Vec::new();
            assert(texts(none@) =~= Seq::empty());
            return none;
        }
        proof {
            assert(self.nodes()[i as int] == name@);
            assert(self.nodes().contains(name@));
            assert(self.nodes().index_of(name@) == i);
        }
        self.sorted_names(&self.forward[i])
    }

    /// The tree of the packages that depend on `name`, directly or through others.
    pub fn reverse_dep_tree(&self, name: &str) -> (r: Vec<TreeNode>)
        requires
            self.wf(),
        ensures
            forest_model(r@) == subtrees(
                *self,
                name@,
                Set::empty(),
                self.names@.len() + 1,
            ).0,
    {
        let n: usize = self.names.len();
        let i: usize = find_name(&self.names, name);
        if i == n {
            proof {
                assert(self.dependents(name@).len() == 0);
            }
            return Vec::new();
        }
        let mut seen: Vec<bool> = Vec::new();
        let mut k: usize = 0;
        while k < n
            invariant
                k <= n,
                seen@.len() == k,
                forall|x: int| 0 <= x < k ==> !(#[trigger] seen@[x]),
            decreases n - k,
        {
            seen.push(false);
            k += 1;
        }
        proof {
            lemma_unmarked_len(seen@);
        }
        self.build_tree(i, &mut seen, Ghost(Set::empty()), Ghost(n as nat + 1))
    }

    /// The subtrees under the package at `i`, and the packages that have been met then.
    fn build_tree(
        &self,
        i: usize,
        seen: &mut Vec<bool>,
        Ghost(met): Ghost<Set<Seq<char>>>,
        Ghost(depth): Ghost<nat>,
    ) -> (r: Vec<TreeNode>)
        requires
            self.wf(),
            i < self.names@.len(),
            marks(*self, old(seen)@, met),
            unmarked(old(seen)@) < depth,
        ensures
            forest_model(r@) == subtrees(*self, self.nodes()[i as int], met, depth).0,
            marks(
                *self,
                final(seen)@,
                subtrees(*self, self.nodes()[i as int], met, depth).1,
            ),
            unmarked(final(seen)@) <= unmarked(old(seen)@),
        decreases depth,
    {
        let mut out: Vec<TreeNode> = Vec::new();
        if seen[i] {
            return out;
        }
        proof {
            lemma_unmarked_set(seen@, i as int);
        }
        seen.set(i, true);
        let names = self.dependent_names(i);
        let ghost start = met.insert(self.nodes()[i as int]);
        let ghost list = texts(names@);
        let ghost low = (depth - 1) as nat;
        proof {
            assert(marks(*self, seen@, start)) by {
                assert forall|k: int| 0 <= k < seen@.len() implies (#[trigger] seen@[k]
                    <==> start.contains(self.nodes()[k])) by {
                    assert(old(seen)@[k] <==> met.contains(self.nodes()[k]));
                    assert(self.nodes()[k] == self.nodes()[i as int] <==> k == i);
                }
            }
            assert(list.take(0) =~= Seq::empty());
        }
        let mut k: usize = 0;
        while k < names.len()
            invariant
                self.wf(),
                k <= names@.len(),
                list == texts(names@),
                depth > 0,
                low == depth - 1,
                forall|x: int| 0 <= x < list.len() ==> self.nodes().contains(#[trigger] list[x]),
                forest_model(out@) == forest(*self, list.take(k as int), start, low).0,
                marks(*self, seen@, forest(*self, list.take(k as int), start, low).1),
                unmarked(seen@) < low,
                unmarked(seen@) <= unmarked(old(seen)@),
            decreases names@.len() - k,
        {
            let ghost now = forest(*self, list.take(k as int), start, low).1;
            assert(self.nodes().contains(list[k as int]));
            let j: usize = find_name(&self.names, names[k].as_str());
            let children = self.build_tree(j, seen, Ghost(now), Ghost(low));
            proof {
                assert(list.take(k + 1).drop_last() =~= list.take(k as int));
                assert(list.take(k + 1).last() == list[k as int]);
            }
            let node = TreeNode { name: names[k].clone(), children };
            let ghost before = out@;
            out.push(node);
            proof {
                assert(out@.drop_last() =~= before);
                assert(out@.last() == node);
                assert(tree_model(node) == (TreeModel {
                    name: list[k as int],
                    children: forest_model(node.children@),
                }));
                assert(forest_model(out@) =~= forest_model(before).push(tree_model(node)));
            }
            k += 1;
        }
        assert(list.take(k as int) =~= list);
        out
    }
}

/// Where no package depends on itself through others, every package has its place in a build
/// order. `rank` stands for the absence of such circles: it falls along every dependency.
pub proof fn law_order_is_complete(
    g: DepGraph,
    order: Seq<Seq<char>>,
    rank: spec_fn(Seq<char>) -> nat,
    name: Seq<char>,
)
    requires
        g.wf(),
        g.is_build_order(order),
        forall|a: Seq<char>, b: Seq<char>| #[trigger] g.depends_on(a, b) ==> rank(b) < rank(a),
        g.nodes().contains(name),
    ensures
        order.contains(name),
    decreases rank(name),
{
    if !order.contains(name) {
        let b = choose|b: Seq<char>| #[trigger] g.depends_on(name, b) && !order.contains(b);
        let (i, j) = choose|i: int, j: int| #[trigger]
            g.edge(i, j) && g.nodes()[i] == name && g.nodes()[j] == b;
        assert(g.nodes()[j] == b);
        law_order_is_complete(g, order, rank, b);
    }
}

/// A build order holds no package of a circle of dependencies.
pub proof fn law_circles_are_left_out(g: DepGraph, order: Seq<Seq<char>>, circle: Seq<Seq<char>>)
    requires
        g.is_build_order(order),
        circle.len() > 1,
        circle.last() == circle[0],
        forall|k: int| 0 < k < circle.len() ==> g.depends_on(circle[k - 1], #[trigger] circle[k]),
    ensures
        forall|k: int| 0 <= k < circle.len() ==> !order.contains(#[trigger] circle[k]),
{
    assert forall|k: int| 0 <= k < circle.len() implies !order.contains(#[trigger] circle[k]) by {
        if order.contains(circle[k]) {
            let p = choose|p: int| 0 <= p < order.len() && order[p] == circle[k];
            let last = circle.len() - 1;
            let q = lemma_chain_sinks(g, order, circle, k, last, p);
            assert(order[q] == circle[0]);
            let r = lemma_chain_sinks(g, order, circle, 0, k, q);
            assert(order[r] == order[p]);
            assert(r < p || last == k);
            if last == k {
                assert(q == p);
                assert(r < p);
            }
        }
    }
}

/// Along dependencies, the places in a build order fall.
proof fn lemma_chain_sinks(
    g: DepGraph,
    order: Seq<Seq<char>>,
    chain: Seq<Seq<char>>,
    from: int,
    to: int,
    p: int,
) -> (q: int)
    requires
        g.is_build_order(order),
        0 <= from <= to < chain.len(),
        0 <= p < order.len(),
        order[p] == chain[from],
        forall|k: int| 0 < k < chain.len() ==> g.depends_on(chain[k - 1], #[trigger] chain[k]),
    ensures
        0 <= q <= p,
        order[q] == chain[to],
        from < to ==> q < p,
        from == to ==> q == p,
    decreases to - from,
{
    if from == to {
        p
    } else {
        let next = chain[from + 1];
        assert(g.depends_on(chain[from + 1 - 1], next));
        assert(g.depends_on(order[p], next));
        assert(order.take(p).contains(next));
        let q = choose|q: int| 0 <= q < p && order.take(p)[q] == next;
        assert(order[q] == next);
        lemma_chain_sinks(g, order, chain, from + 1, to, q)
    }
}

/// Among packages with names of their own, `a` depends on `b` exactly where `a` is a dependent
/// of `b`.
pub proof fn law_dependents_mirror_dependencies(
    ps: Seq<PackageModel>,
    a: Seq<char>,
    b: Seq<char>,
)
    requires
        forall|i: int, j: int|
            0 <= i < j < ps.len() ==> (#[trigger] ps[i]).name != (#[trigger] ps[j]).name,
    ensures
        needs(ps, a, b) <==> ever_needs(ps, a, b),
{
    if needs(ps, a, b) {
        let k = choose|k: int| #[trigger] is_last_named(ps, k, a) && package_needs(ps, k, b);
        assert(ps[k].name == a);
    }
    if ever_needs(ps, a, b) {
        let k = choose|k: int|
            0 <= k < ps.len() && #[trigger] ps[k].name == a && package_needs(ps, k, b);
        assert(is_last_named(ps, k, a));
    }
}

/// Which packages of the graph are in `seen`.
spec fn seen_marks(g: DepGraph, seen: Set<Seq<char>>) -> Seq<bool> {
    Seq::new(g.names@.len(), |i: int| seen.contains(g.nodes()[i]))
}

proof fn lemma_seen_insert(g: DepGraph, seen: Set<Seq<char>>, name: Seq<char>)
    requires
        g.wf(),
        g.nodes().contains(name),
        !seen.contains(name),
    ensures
        unmarked(seen_marks(g, seen.insert(name))) + 1 == unmarked(seen_marks(g, seen)),
{
    let i = choose|i: int| 0 <= i < g.nodes().len() && g.nodes()[i] == name;
    let was = seen_marks(g, seen);
    assert(seen_marks(g, seen.insert(name)) =~= was.update(i, true)) by {
        assert forall|k: int| 0 <= k < was.len() implies seen_marks(g, seen.insert(name))[k]
            == was.update(i, true)[k] by {
            assert(g.nodes()[k] == g.nodes()[i] <==> k == i);
        }
    }
    lemma_unmarked_set(was, i);
}

/// A tree of dependents is whole: deeper than the number of packages, it does not change.
pub proof fn law_tree_is_whole(g: DepGraph, name: Seq<char>, depth: nat)
    requires
        g.wf(),
        depth > g.names@.len(),
    ensures
        subtrees(g, name, Set::empty(), depth).0 == subtrees(
            g,
            name,
            Set::empty(),
            g.names@.len() + 1,
        ).0,
{
    let none = Set::<Seq<char>>::empty();
    lemma_unmarked_len(seen_marks(g, none));
    lemma_depth(g, name, none, depth, g.names@.len() + 1);
}

proof fn lemma_depth(g: DepGraph, name: Seq<char>, seen: Set<Seq<char>>, d: nat, e: nat)
    requires
        g.wf(),
        unmarked(seen_marks(g, seen)) < d,
        unmarked(seen_marks(g, seen)) < e,
    ensures
        subtrees(g, name, seen, d) == subtrees(g, name, seen, e),
        unmarked(seen_marks(g, subtrees(g, name, seen, d).1)) <= unmarked(seen_marks(g, seen)),
    decreases d, 0nat,
{
    if !seen.contains(name) {
        if g.nodes().contains(name) {
            lemma_seen_insert(g, seen, name);
            g.lemma_dependents(name);
            lemma_forest_depth(
                g,
                g.dependents(name),
                seen.insert(name),
                (d - 1) as nat,
                (e - 1) as nat,
            );
        } else {
            let met = seen.insert(name);
            assert(seen_marks(g, met) =~= seen_marks(g, seen)) by {
                assert forall|k: int| 0 <= k < g.names@.len() implies seen_marks(g, met)[k]
                    == seen_marks(g, seen)[k] by {
                    assert(g.nodes().contains(g.nodes()[k]));
                }
            }
        }
    }
}

proof fn lemma_forest_depth(
    g: DepGraph,
    names: Seq<Seq<char>>,
    seen: Set<Seq<char>>,
    d: nat,
    e: nat,
)
    requires
        g.wf(),
        forall|k: int| 0 <= k < names.len() ==> g.nodes().contains(#[trigger] names[k]),
        unmarked(seen_marks(g, seen)) < d,
        unmarked(seen_marks(g, seen)) < e,
    ensures
        forest(g, names, seen, d) == forest(g, names, seen, e),
        unmarked(seen_marks(g, forest(g, names, seen, d).1)) <= unmarked(seen_marks(g, seen)),
    decreases d, names.len(),
{
    if names.len() > 0 {
        let front = names.drop_last();
        assert forall|k: int| 0 <= k < front.len() implies g.nodes().contains(#[trigger] front[k]) by {
            assert(front[k] == names[k]);
        }
        lemma_forest_depth(g, front, seen, d, e);
        lemma_depth(g, names.last(), forest(g, front, seen, d).1, d, e);
    }
}

/// Whether `name` stands somewhere in some trees.
pub open spec fn stands_in(trees: Seq<TreeModel>, name: Seq<char>) -> bool
    decreases trees,
{
    if trees.len() == 0 {
        false
    } else {
        ||| stands_in(trees.drop_last(), name)
        ||| trees.last().name == name
        ||| stands_in(trees.last().children, name)
    }
}

/// Whether `name` depends on `from`, directly or through others: a path of one or more steps along
/// dependents leads to it.
pub open spec fn is_downstream(g: DepGraph, from: Seq<char>, name: Seq<char>) -> bool {
    exists|path: Seq<Seq<char>>| #[trigger]
        is_path(g, path) && path.len() > 1 && path[0] == from && path.last() == name
}

/// The dependents of a package are those that need it.
proof fn lemma_dependents_need(g: DepGraph, b: Seq<char>, a: Seq<char>)
    requires
        g.wf(),
    ensures
        g.dependents(b).contains(a) <==> g.needed_by(b, a),
{
    if g.nodes().contains(b) {
        let j = g.nodes().index_of(b);
        let list = g.reverse@[j]@;
        let want = names_at(g.nodes(), list);
        lemma_sort_texts(want);
        assert(g.dependents(b).contains(a) <==> want.contains(a));
        if want.contains(a) {
            let q = choose|q: int| 0 <= q < want.len() && want[q] == a;
            assert(list.contains(list[q]));
            assert(g.reverse@[j]@.contains(list[q]));
            assert(g.back_edge(j, list[q] as int));
            assert(g.needed_by(b, a));
        }
        if g.needed_by(b, a) {
            let (k, i) = choose|k: int, i: int| #[trigger]
                g.back_edge(k, i) && g.nodes()[i] == a && g.nodes()[k] == b;
            assert(k == j);
            let q = choose|q: int| 0 <= q < list.len() && list[q] == i as usize;
            assert(want[q] == a);
        }
    } else if g.needed_by(b, a) {
        let (k, i) = choose|k: int, i: int| #[trigger]
            g.back_edge(k, i) && g.nodes()[i] == a && g.nodes()[k] == b;
        assert(g.nodes().contains(g.nodes()[k]));
    }
}

/// What is downstream of a dependent is downstream of what it depends on.
proof fn lemma_downstream_front(g: DepGraph, from: Seq<char>, next: Seq<char>, name: Seq<char>)
    requires
        g.needed_by(from, next),
    ensures
        is_downstream(g, from, next),
        is_downstream(g, next, name) ==> is_downstream(g, from, name),
{
    let step = seq![from, next];
    assert(is_path(g, step));
    assert(step.last() == next);
    if is_downstream(g, next, name) {
        let path = choose|path: Seq<Seq<char>>| #[trigger]
            is_path(g, path) && path.len() > 1 && path[0] == next && path.last() == name;
        let longer = seq![from] + path;
        assert forall|k: int| 0 < k < longer.len() implies g.needed_by(
            longer[k - 1],
            #[trigger] longer[k],
        ) by {
            if k > 1 {
                assert(longer[k] == path[k - 1] && longer[k - 1] == path[k - 2]);
            }
        }
        assert(is_path(g, longer));
        assert(longer.last() == name);
    }
}

/// Everything in the subtrees under a package is downstream of it.
proof fn lemma_subtrees_downstream(
    g: DepGraph,
    name: Seq<char>,
    seen: Set<Seq<char>>,
    depth: nat,
    x: Seq<char>,
)
    requires
        g.wf(),
        stands_in(subtrees(g, name, seen, depth).0, x),
    ensures
        is_downstream(g, name, x),
    decreases depth, 0nat,
{
    let names = g.dependents(name);
    let k = lemma_forest_downstream(g, names, seen.insert(name), (depth - 1) as nat, x);
    assert(names.contains(names[k]));
    lemma_dependents_need(g, name, names[k]);
    lemma_downstream_front(g, name, names[k], x);
}

/// Everything in a forest is one of its roots, or downstream of one.
proof fn lemma_forest_downstream(
    g: DepGraph,
    names: Seq<Seq<char>>,
    seen: Set<Seq<char>>,
    depth: nat,
    x: Seq<char>,
) -> (k: int)
    requires
        g.wf(),
        stands_in(forest(g, names, seen, depth).0, x),
    ensures
        0 <= k < names.len(),
        x == names[k] || is_downstream(g, names[k], x),
    decreases depth, names.len(),
{
    let (front, met) = forest(g, names.drop_last(), seen, depth);
    let (children, all) = subtrees(g, names.last(), met, depth);
    let trees = forest(g, names, seen, depth).0;
    assert(names.len() > 0);
    assert(trees.drop_last() =~= front);
    assert(trees.last() == (TreeModel { name: names.last(), children }));
    if stands_in(front, x) {
        let k = lemma_forest_downstream(g, names.drop_last(), seen, depth, x);
        k
    } else {
        if stands_in(children, x) {
            lemma_subtrees_downstream(g, names.last(), met, depth, x);
        }
        names.len() - 1
    }
}

/// Whether every package of `met` that is not one of `seen` has its dependents in the trees, and
/// among the packages that were met.
spec fn is_closed(
    g: DepGraph,
    seen: Set<Seq<char>>,
    met: Set<Seq<char>>,
    trees: Seq<TreeModel>,
) -> bool {
    forall|y: Seq<char>, z: Seq<char>| #[trigger]
        g.needed_by(y, z) && met.contains(y) && !seen.contains(y) ==> met.contains(z) && stands_in(
            trees,
            z,
        )
}

/// What is met under a package, where the tree is deep enough.
proof fn lemma_subtrees_closed(g: DepGraph, name: Seq<char>, seen: Set<Seq<char>>, depth: nat)
    requires
        g.wf(),
        unmarked(seen_marks(g, seen)) < depth,
    ensures
        seen.subset_of(subtrees(g, name, seen, depth).1),
        subtrees(g, name, seen, depth).1.contains(name),
        is_closed(g, seen, subtrees(g, name, seen, depth).1, subtrees(g, name, seen, depth).0),
    decreases depth, 0nat,
{
    if !seen.contains(name) {
        let names = g.dependents(name);
        let inside = seen.insert(name);
        let below = (depth - 1) as nat;
        let (trees, met) = forest(g, names, inside, below);
        if g.nodes().contains(name) {
            lemma_seen_insert(g, seen, name);
            g.lemma_dependents(name);
            lemma_forest_closed(g, names, inside, below);
        }
        assert(seen.subset_of(met)) by {
            assert(inside.subset_of(met));
        }
        assert forall|y: Seq<char>, z: Seq<char>| #[trigger]
            g.needed_by(y, z) && met.contains(y) && !seen.contains(y) implies met.contains(z)
            && stands_in(trees, z) by {
            if y == name {
                lemma_dependents_need(g, y, z);
                let k = choose|k: int| 0 <= k < names.len() && names[k] == z;
                assert(met.contains(names[k]));
            }
        }
    }
}

/// What is met in a forest, where it is deep enough: its roots, and what is under them.
proof fn lemma_forest_closed(
    g: DepGraph,
    names: Seq<Seq<char>>,
    seen: Set<Seq<char>>,
    depth: nat,
)
    requires
        g.wf(),
        forall|k: int| 0 <= k < names.len() ==> g.nodes().contains(#[trigger] names[k]),
        unmarked(seen_marks(g, seen)) < depth,
    ensures
        seen.subset_of(forest(g, names, seen, depth).1),
        forall|k: int|
            0 <= k < names.len() ==> forest(g, names, seen, depth).1.contains(#[trigger] names[k])
                && stands_in(forest(g, names, seen, depth).0, names[k]),
        is_closed(g, seen, forest(g, names, seen, depth).1, forest(g, names, seen, depth).0),
    decreases depth, names.len(),
{
    if names.len() > 0 {
        let part = names.drop_last();
        assert forall|k: int| 0 <= k < part.len() implies g.nodes().contains(#[trigger] part[k]) by {
            assert(part[k] == names[k]);
        }
        let (front, met) = forest(g, part, seen, depth);
        let (children, all) = subtrees(g, names.last(), met, depth);
        let trees = forest(g, names, seen, depth).0;
        lemma_forest_closed(g, part, seen, depth);
        lemma_forest_depth(g, part, seen, depth, depth);
        lemma_subtrees_closed(g, names.last(), met, depth);
        assert(trees.drop_last() =~= front);
        assert(trees.last() == (TreeModel { name: names.last(), children }));
        assert forall|k: int| 0 <= k < names.len() implies all.contains(#[trigger] names[k])
            && stands_in(trees, names[k]) by {
            if k < part.len() {
                assert(part[k] == names[k]);
            }
        }
        assert forall|y: Seq<char>, z: Seq<char>| #[trigger]
            g.needed_by(y, z) && all.contains(y) && !seen.contains(y) implies all.contains(z)
            && stands_in(trees, z) by {
            if met.contains(y) {
                assert(met.contains(z) && stands_in(front, z));
            } else {
                assert(stands_in(children, z));
            }
        }
    }
}

/// The first packages of a path from a package were met, where what was met is closed.
proof fn lemma_path_met(
    g: DepGraph,
    path: Seq<Seq<char>>,
    met: Set<Seq<char>>,
    trees: Seq<TreeModel>,
    k: int,
)
    requires
        is_path(g, path),
        0 <= k < path.len(),
        met.contains(path[0]),
        is_closed(g, Set::empty(), met, trees),
    ensures
        met.contains(path[k]),
        k > 0 ==> stands_in(trees, path[k]),
    decreases k,
{
    if k > 0 {
        lemma_path_met(g, path, met, trees, k - 1);
        assert(g.needed_by(path[k - 1], path[k]));
    }
}

/// The names in the tree under a package are exactly those of the packages that depend on it,
/// directly or through others.
pub proof fn law_tree_holds_dependents(g: DepGraph, name: Seq<char>, x: Seq<char>)
    requires
        g.wf(),
    ensures
        stands_in(subtrees(g, name, Set::empty(), g.names@.len() + 1).0, x) <==> is_downstream(
            g,
            name,
            x,
        ),
{
    let none = Set::<Seq<char>>::empty();
    let depth = g.names@.len() + 1;
    let (trees, met) = subtrees(g, name, none, depth);
    if stands_in(trees, x) {
        lemma_subtrees_downstream(g, name, none, depth, x);
    }
    if is_downstream(g, name, x) {
        let path = choose|path: Seq<Seq<char>>| #[trigger]
            is_path(g, path) && path.len() > 1 && path[0] == name && path.last() == x;
        lemma_unmarked_len(seen_marks(g, none));
        lemma_subtrees_closed(g, name, none, depth);
        lemma_path_met(g, path, met, trees, path.len() - 1);
    }
}

// ---------------------------------------------------------------------------------------------
// What packages list, and what follows from it
// ---------------------------------------------------------------------------------------------

/// Whether the packages have names of their own.
pub open spec fn has_own_names(ps: Seq<PackageModel>) -> bool {
    forall|i: int, j: int|
        0 <= i < j < ps.len() ==> (#[trigger] ps[i]).name != (#[trigger] ps[j]).name
}

/// Whether a list names the package `name`, by its own name or by that of its `-devel` package. A
/// name that itself ends in `-devel` stands for the package that it is made of.
pub open spec fn list_names(list: Seq<Seq<char>>, name: Seq<char>) -> bool {
    ||| list.contains(name + "-devel"@)
    ||| list.contains(name) && !ends_with(name, "-devel"@)
}

/// What a name in a list stands for.
proof fn lemma_base_name(dep: Seq<char>, name: Seq<char>)
    ensures
        base_name(dep) == name <==> dep == name + "-devel"@ || (dep == name && !ends_with(
            name,
            "-devel"@,
        )),
{
    let end = "-devel"@;
    reveal_strlit("-devel");
    let long = name + end;
    assert(long.skip(long.len() - end.len()) =~= end);
    assert(long.take(long.len() - end.len()) =~= name);
    if ends_with(dep, end) {
        assert(dep =~= dep.take(dep.len() - end.len()) + dep.skip(dep.len() - end.len()));
    }
}

/// A list names a package exactly where one of its members comes from it.
proof fn lemma_list_names(list: Seq<Seq<char>>, name: Seq<char>)
    ensures
        list_names(list, name) <==> lists(list, name),
{
    if list_names(list, name) {
        let dep = if list.contains(name + "-devel"@) {
            name + "-devel"@
        } else {
            name
        };
        let k = choose|k: int| 0 <= k < list.len() && list[k] == dep;
        lemma_base_name(dep, name);
        assert(base_name(list[k]) == name);
    }
    if lists(list, name) {
        let k = choose|k: int| 0 <= k < list.len() && base_name(#[trigger] list[k]) == name;
        lemma_base_name(list[k], name);
        assert(list.contains(list[k]));
    }
}

/// Lists behind one another name what any of them names.
proof fn lemma_lists_joined(a: Seq<Seq<char>>, b: Seq<Seq<char>>, name: Seq<char>)
    ensures
        lists(a + b, name) <==> lists(a, name) || lists(b, name),
{
    let all = a + b;
    if lists(a, name) {
        let k = choose|k: int| 0 <= k < a.len() && base_name(#[trigger] a[k]) == name;
        assert(base_name(all[k]) == name);
    }
    if lists(b, name) {
        let k = choose|k: int| 0 <= k < b.len() && base_name(#[trigger] b[k]) == name;
        assert(all[a.len() + k] == b[k]);
        assert(base_name(all[a.len() + k]) == name);
    }
    if lists(all, name) {
        let k = choose|k: int| 0 <= k < all.len() && base_name(#[trigger] all[k]) == name;
        if k < a.len() {
            assert(base_name(a[k]) == name);
        } else {
            assert(base_name(b[k - a.len()]) == name);
        }
    }
}

/// A package depends on exactly the other packages that it names among what it needs to be made,
/// what its build runs, and what it needs to run.
pub proof fn law_depends_on_what_is_listed(
    ps: Seq<PackageModel>,
    g: DepGraph,
    i: int,
    j: int,
)
    requires
        has_own_names(ps),
        g.is_graph_of(ps),
        0 <= i < ps.len(),
        0 <= j < ps.len(),
    ensures
        g.depends_on(ps[i].name, ps[j].name) <==> i != j && (list_names(
            ps[i].makedepends,
            ps[j].name,
        ) || list_names(ps[i].hostmakedepends, ps[j].name) || list_names(
            ps[i].depends,
            ps[j].name,
        )),
        g.needed_by(ps[j].name, ps[i].name) <==> g.depends_on(ps[i].name, ps[j].name),
{
    let p = ps[i];
    let name = ps[j].name;
    assert(is_custom(ps, name));
    assert(is_last_named(ps, i, p.name));
    lemma_list_names(p.makedepends, name);
    lemma_list_names(p.hostmakedepends, name);
    lemma_list_names(p.depends, name);
    lemma_lists_joined(p.makedepends, p.hostmakedepends, name);
    lemma_lists_joined(p.makedepends + p.hostmakedepends, p.depends, name);
    law_dependents_mirror_dependencies(ps, p.name, name);
    assert(i != j ==> p.name != name);
    if needs(ps, p.name, name) {
        let k = choose|k: int| #[trigger] is_last_named(ps, k, p.name) && package_needs(
            ps,
            k,
            name,
        );
        assert(k == i);
    }
    if i != j && lists(listed_deps(p), name) {
        assert(package_needs(ps, i, name));
    }
}

/// What follows where the package at `i` depends on the one at `j`: in every build order that it
/// has a place in, the other one stands before it, and it is built again when the other one
/// changes.
proof fn lemma_dependency_counts(
    ps: Seq<PackageModel>,
    g: DepGraph,
    i: int,
    j: int,
    order: Seq<Seq<char>>,
)
    requires
        has_own_names(ps),
        g.is_graph_of(ps),
        g.is_build_order(order),
        0 <= i < ps.len(),
        0 <= j < ps.len(),
        i != j,
        g.depends_on(ps[i].name, ps[j].name),
        g.needed_by(ps[j].name, ps[i].name),
    ensures
        order.contains(ps[i].name) ==> stands_before(order, ps[j].name, ps[i].name),
        needs_rebuild(g, seq![ps[j].name], ps[i].name),
{
    let a = ps[i].name;
    let b = ps[j].name;
    if order.contains(a) {
        let p = choose|p: int| 0 <= p < order.len() && order[p] == a;
        assert(g.depends_on(order[p], b));
        assert(order.take(p).contains(b));
        let q = choose|q: int| 0 <= q < p && order.take(p)[q] == b;
        assert(order[q] == b);
    }
    let changed = seq![b];
    assert(changed[0] == b);
    lemma_reach_start(g, changed, b);
    lemma_reach_step(g, changed, b, a);
    assert(a != b);
    if changed.contains(a) {
        let k = choose|k: int| 0 <= k < changed.len() && changed[k] == a;
        assert(false);
    }
}

/// Whether `a` stands in an order, and in front of `b`.
pub open spec fn stands_before(order: Seq<Seq<char>>, a: Seq<char>, b: Seq<char>) -> bool {
    exists|q: int, p: int|
        0 <= q < p < order.len() && #[trigger] order[q] == a && #[trigger] order[p] == b
}

/// A package depends on each other package that it needs to be made, named as it is or by its
/// `-devel` package: that one is built first, and when it changes the package is built again.
pub proof fn law_makedepends_count(
    ps: Seq<PackageModel>,
    g: DepGraph,
    i: int,
    j: int,
    order: Seq<Seq<char>>,
)
    requires
        has_own_names(ps),
        g.is_graph_of(ps),
        g.is_build_order(order),
        0 <= i < ps.len(),
        0 <= j < ps.len(),
        i != j,
        ps[i].makedepends.contains(ps[j].name + "-devel"@) || (ps[i].makedepends.contains(
            ps[j].name,
        ) && !ends_with(ps[j].name, "-devel"@)),
    ensures
        g.depends_on(ps[i].name, ps[j].name),
        g.dependencies(ps[i].name).contains(ps[j].name),
        order.contains(ps[i].name) ==> stands_before(order, ps[j].name, ps[i].name),
        needs_rebuild(g, seq![ps[j].name], ps[i].name),
{
    law_depends_on_what_is_listed(ps, g, i, j);
    lemma_dependency_counts(ps, g, i, j, order);
    law_dependencies_are_those(g, ps[i].name, ps[j].name);
}

/// A package depends on each other package that its build runs, named as it is or by its `-devel`
/// package: that one is built first, and when it changes the package is built again.
pub proof fn law_hostmakedepends_count(
    ps: Seq<PackageModel>,
    g: DepGraph,
    i: int,
    j: int,
    order: Seq<Seq<char>>,
)
    requires
        has_own_names(ps),
        g.is_graph_of(ps),
        g.is_build_order(order),
        0 <= i < ps.len(),
        0 <= j < ps.len(),
        i != j,
        ps[i].hostmakedepends.contains(ps[j].name + "-devel"@) || (ps[i].hostmakedepends.contains(
            ps[j].name,
        ) && !ends_with(ps[j].name, "-devel"@)),
    ensures
        g.depends_on(ps[i].name, ps[j].name),
        g.dependencies(ps[i].name).contains(ps[j].name),
        order.contains(ps[i].name) ==> stands_before(order, ps[j].name, ps[i].name),
        needs_rebuild(g, seq![ps[j].name], ps[i].name),
{
    law_depends_on_what_is_listed(ps, g, i, j);
    lemma_dependency_counts(ps, g, i, j, order);
    law_dependencies_are_those(g, ps[i].name, ps[j].name);
}

/// A package depends on each other package that it needs to run, named as it is or by its `-devel`
/// package: that one is built first, and when it changes the package is built again.
pub proof fn law_depends_count(
    ps: Seq<PackageModel>,
    g: DepGraph,
    i: int,
    j: int,
    order: Seq<Seq<char>>,
)
    requires
        has_own_names(ps),
        g.is_graph_of(ps),
        g.is_build_order(order),
        0 <= i < ps.len(),
        0 <= j < ps.len(),
        i != j,
        ps[i].depends.contains(ps[j].name + "-devel"@) || (ps[i].depends.contains(ps[j].name)
            && !ends_with(ps[j].name, "-devel"@)),
    ensures
        g.depends_on(ps[i].name, ps[j].name),
        g.dependencies(ps[i].name).contains(ps[j].name),
        order.contains(ps[i].name) ==> stands_before(order, ps[j].name, ps[i].name),
        needs_rebuild(g, seq![ps[j].name], ps[i].name),
{
    law_depends_on_what_is_listed(ps, g, i, j);
    lemma_dependency_counts(ps, g, i, j, order);
    law_dependencies_are_those(g, ps[i].name, ps[j].name);
}

/// The names of some indexes, sorted, are the names of these indexes.
proof fn lemma_names_of(g: DepGraph, list: Seq<usize>, x: Seq<char>)
    ensures
        is_sorted(sort_texts(names_at(g.nodes(), list))),
        sort_texts(names_at(g.nodes(), list)).contains(x) <==> exists|q: int|
            0 <= q < list.len() && g.nodes()[#[trigger] list[q] as int] == x,
{
    let want = names_at(g.nodes(), list);
    lemma_sort_texts(want);
    if want.contains(x) {
        let q = choose|q: int| 0 <= q < want.len() && want[q] == x;
        assert(g.nodes()[list[q] as int] == x);
    }
    if exists|q: int| 0 <= q < list.len() && g.nodes()[#[trigger] list[q] as int] == x {
        let q = choose|q: int| 0 <= q < list.len() && g.nodes()[#[trigger] list[q] as int] == x;
        assert(want[q] == x);
    }
}

/// What is shown as the dependencies of a package are the packages that it depends on, sorted, and
/// what is shown as its dependents are those that need it, sorted.
pub proof fn law_dependencies_are_those(g: DepGraph, a: Seq<char>, b: Seq<char>)
    requires
        g.wf(),
    ensures
        g.dependencies(a).contains(b) <==> g.depends_on(a, b),
        is_sorted(g.dependencies(a)),
        g.dependents(b).contains(a) <==> g.needed_by(b, a),
        is_sorted(g.dependents(b)),
{
    lemma_dependents_need(g, b, a);
    if g.nodes().contains(b) {
        lemma_sort_texts(names_at(g.nodes(), g.reverse@[g.nodes().index_of(b)]@));
    }
    if g.nodes().contains(a) {
        let i = g.nodes().index_of(a);
        let list = g.forward@[i]@;
        lemma_names_of(g, list, b);
        if g.dependencies(a).contains(b) {
            let q = choose|q: int|
                0 <= q < list.len() && g.nodes()[#[trigger] list[q] as int] == b;
            assert(g.forward@[i]@.contains(list[q]));
            assert(g.edge(i, list[q] as int));
        }
        if g.depends_on(a, b) {
            let (k, j) = choose|k: int, j: int| #[trigger]
                g.edge(k, j) && g.nodes()[k] == a && g.nodes()[j] == b;
            assert(k == i);
            let q = choose|q: int| 0 <= q < list.len() && list[q] == j as usize;
            assert(g.nodes()[list[q] as int] == b);
        }
    } else if g.depends_on(a, b) {
        let (k, j) = choose|k: int, j: int| #[trigger]
            g.edge(k, j) && g.nodes()[k] == a && g.nodes()[j] == b;
        assert(g.nodes().contains(g.nodes()[k]));
    }
}

/// What has to be built again: what needs a package that changed or that is built again itself,
/// and was not changed; and nothing else, in that whatever holds the packages that changed and
/// everything that needs one of its own holds it.
pub proof fn law_rebuild_follows_dependents(
    g: DepGraph,
    changed: Seq<Seq<char>>,
    held: Set<Seq<char>>,
    a: Seq<char>,
    b: Seq<char>,
)
    ensures
        g.needed_by(b, a) && !changed.contains(a) && (changed.contains(b) || needs_rebuild(
            g,
            changed,
            b,
        )) ==> needs_rebuild(g, changed, a),
        needs_rebuild(g, changed, a) ==> !changed.contains(a),
        needs_rebuild(g, changed, a) && (forall|n: Seq<char>| #[trigger]
            changed.contains(n) ==> held.contains(n)) && (forall|m: Seq<char>, n: Seq<char>|
            #[trigger] g.needed_by(m, n) && held.contains(m) ==> held.contains(n))
            ==> held.contains(a),
{
    if changed.contains(b) {
        lemma_reach_start(g, changed, b);
    }
    if g.needed_by(b, a) && is_reached(g, changed, b) {
        lemma_reach_step(g, changed, b, a);
    }
    if needs_rebuild(g, changed, a) && (forall|n: Seq<char>| #[trigger]
        changed.contains(n) ==> held.contains(n)) && (forall|m: Seq<char>, n: Seq<char>|
        #[trigger] g.needed_by(m, n) && held.contains(m) ==> held.contains(n)) {
        let path = choose|path: Seq<Seq<char>>| #[trigger]
            is_path(g, path) && path.len() > 0 && changed.contains(path[0]) && path.last() == a;
        lemma_path_held(g, path, held, path.len() - 1);
    }
}

/// A path from a package of a set that holds everything that needs one of its own stays in it.
proof fn lemma_path_held(g: DepGraph, path: Seq<Seq<char>>, held: Set<Seq<char>>, k: int)
    requires
        is_path(g, path),
        0 <= k < path.len(),
        held.contains(path[0]),
        forall|m: Seq<char>, n: Seq<char>| #[trigger]
            g.needed_by(m, n) && held.contains(m) ==> held.contains(n),
    ensures
        held.contains(path[k]),
    decreases k,
{
    if k > 0 {
        lemma_path_held(g, path, held, k - 1);
        assert(g.needed_by(path[k - 1], path[k]));
    }
}

/// What is built again when packages change has its place in what is given back: everything that
/// needs to be, as far as an order has a place for it, each once, and nothing else.
pub proof fn law_rebuild_set_is_whole(
    g: DepGraph,
    changed: Seq<Seq<char>>,
    order: Seq<Seq<char>>,
    name: Seq<char>,
)
    requires
        g.is_build_order(order),
    ensures
        ({
            let r = order.filter(|n: Seq<char>| needs_rebuild(g, changed, n));
            &&& r.contains(name) <==> order.contains(name) && needs_rebuild(g, changed, name)
            &&& r.no_duplicates()
        }),
{
    let keep = |n: Seq<char>| needs_rebuild(g, changed, n);
    lemma_filter_members(order, keep, name);
    lemma_filter_distinct(order, keep);
}

/// What a filter keeps.
pub proof fn lemma_filter_members(
    order: Seq<Seq<char>>,
    keep: spec_fn(Seq<char>) -> bool,
    name: Seq<char>,
)
    ensures
        order.filter(keep).contains(name) <==> order.contains(name) && keep(name),
    decreases order.len(),
{
    reveal(Seq::filter);
    if order.len() > 0 {
        let front = order.drop_last();
        lemma_filter_members(front, keep, name);
        assert(order =~= front.push(order.last()));
        let before = front.filter(keep);
        let kept = order.filter(keep);
        assert(kept == (if keep(order.last()) {
            before.push(order.last())
        } else {
            before
        }));
        lemma_push_contains(front, order.last(), name);
        lemma_push_contains(before, order.last(), name);
    }
}

/// What a sequence holds after one more.
proof fn lemma_push_contains(s: Seq<Seq<char>>, x: Seq<char>, name: Seq<char>)
    ensures
        s.push(x).contains(name) <==> s.contains(name) || name == x,
{
    if s.contains(name) {
        let k = choose|k: int| 0 <= k < s.len() && s[k] == name;
        assert(s.push(x)[k] == name);
    }
    assert(s.push(x)[s.len() as int] == x);
    if s.push(x).contains(name) && name != x {
        let k = choose|k: int| 0 <= k < s.push(x).len() && s.push(x)[k] == name;
        assert(s[k] == name);
    }
}

/// A filter repeats nothing.
pub proof fn lemma_filter_distinct(order: Seq<Seq<char>>, keep: spec_fn(Seq<char>) -> bool)
    requires
        order.no_duplicates(),
    ensures
        order.filter(keep).no_duplicates(),
    decreases order.len(),
{
    reveal(Seq::filter);
    if order.len() > 0 {
        let front = order.drop_last();
        assert(front.no_duplicates());
        lemma_filter_distinct(front, keep);
        lemma_filter_members(front, keep, order.last());
        if front.contains(order.last()) {
            let k = choose|k: int| 0 <= k < front.len() && front[k] == order.last();
            assert(order[k] == order[order.len() - 1]);
        }
    }
}

/// What is shown under a package where it is first met: its dependents, in their order, each with
/// what is shown under it; under a package that was met before, nothing.
pub proof fn law_tree_shows_dependents_in_order(
    g: DepGraph,
    name: Seq<char>,
    seen: Set<Seq<char>>,
    depth: nat,
    k: int,
)
    requires
        depth > 0,
    ensures
        seen.contains(name) ==> subtrees(g, name, seen, depth).0.len() == 0,
        !seen.contains(name) ==> subtrees(g, name, seen, depth).0.len() == g.dependents(name).len(),
        !seen.contains(name) && 0 <= k < g.dependents(name).len() ==> subtrees(
            g,
            name,
            seen,
            depth,
        ).0[k].name == g.dependents(name)[k],
{
    lemma_forest_names(g, g.dependents(name), seen.insert(name), (depth - 1) as nat);
}

proof fn lemma_forest_names(
    g: DepGraph,
    names: Seq<Seq<char>>,
    seen: Set<Seq<char>>,
    depth: nat,
)
    ensures
        forest(g, names, seen, depth).0.len() == names.len(),
        forall|k: int|
            0 <= k < names.len() ==> (#[trigger] forest(g, names, seen, depth).0[k]).name
                == names[k],
    decreases names.len(),
{
    if names.len() > 0 {
        let part = names.drop_last();
        lemma_forest_names(g, part, seen, depth);
        let all = forest(g, names, seen, depth).0;
        let front = forest(g, part, seen, depth).0;
        assert forall|k: int| 0 <= k < names.len() implies (#[trigger] all[k]).name == names[k] by {
            if k < part.len() {
                assert(all[k] == front[k]);
                assert(part[k] == names[k]);
            }
        }
    }
}

/// Where several packages share a name, the last one says what the name depends on: exactly the other
/// packages that it names. What depends on a package is every name of which some package names it.
pub proof fn law_last_of_a_name_counts(
    ps: Seq<PackageModel>,
    g: DepGraph,
    i: int,
    name: Seq<char>,
)
    requires
        g.is_graph_of(ps),
        0 <= i < ps.len(),
    ensures
        (forall|m: int| i < m < ps.len() ==> (#[trigger] ps[m]).name != ps[i].name) ==> (
        g.depends_on(ps[i].name, name) <==> name != ps[i].name && (exists|k: int|
            0 <= k < ps.len() && (#[trigger] ps[k]).name == name) && (list_names(
            ps[i].makedepends,
            name,
        ) || list_names(ps[i].hostmakedepends, name) || list_names(ps[i].depends, name))),
        name != ps[i].name && (exists|k: int|
            0 <= k < ps.len() && (#[trigger] ps[k]).name == name) && (list_names(
            ps[i].makedepends,
            name,
        ) || list_names(ps[i].hostmakedepends, name) || list_names(ps[i].depends, name))
            ==> g.needed_by(name, ps[i].name),
{
    let p = ps[i];
    lemma_list_names(p.makedepends, name);
    lemma_list_names(p.hostmakedepends, name);
    lemma_list_names(p.depends, name);
    lemma_lists_joined(p.makedepends, p.hostmakedepends, name);
    lemma_lists_joined(p.makedepends + p.hostmakedepends, p.depends, name);
    assert(is_custom(ps, name) <==> exists|k: int|
        0 <= k < ps.len() && (#[trigger] ps[k]).name == name);
    if forall|m: int| i < m < ps.len() ==> (#[trigger] ps[m]).name != p.name {
        assert(is_last_named(ps, i, p.name));
        if needs(ps, p.name, name) {
            let k = choose|k: int| #[trigger] is_last_named(ps, k, p.name) && package_needs(
                ps,
                k,
                name,
            );
            assert(k == i) by {
                if k < i {
                    assert(ps[i].name != p.name);
                } else if k > i {
                    assert(ps[k].name != p.name);
                }
            }
        }
    }
    if package_needs(ps, i, name) {
        assert(ps[i].name == p.name);
        assert(ever_needs(ps, p.name, name));
    }
}

} // verus!
