//! The workspace package graph and its reverse-dependency closure.
//!
//! A [`DependencyGraph`] holds the workspace members as a vector of
//! [`Package`]s and, for each one, the indices of the packages it depends on
//! (an edge `a -> b` reads "`a` depends on `b`"). Reachability is specified
//! through explicit dependency paths, and [`reverse_closure`] computes, for a
//! seed set of packages, exactly the packages that are in the seed set or
//! depend on one of its members through a chain of edges.

use vstd::prelude::*;

verus! {

/// One kind of build target a package exposes.
#[derive(Clone, Copy, Debug, PartialEq, Eq, Structural)]
pub enum TargetKind {
    Library,
    Binary,
    Other,
}

/// One workspace member: its unique name, its directory relative to the
/// workspace root, and the build targets it exposes.
#[derive(Debug)]
pub struct Package {
    pub name: String,
    pub rel_dir: String,
    pub targets: Vec<TargetKind>,
}

/// Whether the package exposes at least one binary target.
pub open spec fn spec_has_binary(p: Package) -> bool {
    exists|t: int| 0 <= t < p.targets@.len() && p.targets@[t] is Binary
}

/// Whether the package exposes at least one binary target.
pub fn has_binary_target(p: &Package) -> (r: bool)
    ensures
        r == spec_has_binary(*p),
{
    let mut t: usize = 0;
    while t < p.targets.len()
        invariant
            t <= p.targets@.len(),
            forall|k: int| 0 <= k < t ==> !(p.targets@[k] is Binary),
        decreases p.targets@.len() - t,
    {
        if matches!(p.targets[t], TargetKind::Binary) {
            return true;
        }
        t += 1;
    }
    false
}

/// A directed dependency graph over the workspace members: `deps[i]` lists the
/// indices of the packages that `packages[i]` depends on.
#[derive(Debug)]
pub struct DependencyGraph {
    pub packages: Vec<Package>,
    pub deps: Vec<Vec<usize>>,
}

impl DependencyGraph {
    /// Well-formedness: one dependency list per package, every edge target in
    /// range, and no two packages sharing a name.
    pub open spec fn wf(&self) -> bool {
        &&& self.deps@.len() == self.packages@.len()
        &&& forall|i: int, k: int|
            0 <= i < self.deps@.len() && 0 <= k < self.deps@[i]@.len() ==> (self.deps@[i]@[k]
                as int) < self.packages@.len()
        &&& forall|i: int, j: int|
            0 <= i < j < self.packages@.len() ==> self.packages@[i].name@
                != self.packages@[j].name@
    }

    /// Edge `a -> b`: the package at index `a` depends on the one at `b`.
    pub open spec fn edge(&self, a: int, b: int) -> bool {
        &&& 0 <= a < self.deps@.len()
        &&& exists|k: int| 0 <= k < self.deps@[a]@.len() && self.deps@[a]@[k] as int == b
    }

    /// Checks `wf` at run time, for callers that assemble a graph from
    /// untrusted parts.
    pub fn well_formed(&self) -> (r: bool)
        ensures
            r == self.wf(),
    {
        if self.deps.len() != self.packages.len() {
            return false;
        }
        let n = self.packages.len();
        let mut i: usize = 0;
        while i < n
            invariant
                i <= n,
                n == self.packages@.len(),
                self.deps@.len() == n,
                forall|a: int, k: int|
                    0 <= a < i && 0 <= k < self.deps@[a]@.len() ==> (self.deps@[a]@[k] as int) < n,
            decreases n - i,
        {
            let m = self.deps[i].len();
            let mut k: usize = 0;
            while k < m
                invariant
                    k <= m,
                    i < n,
                    n == self.packages@.len(),
                    self.deps@.len() == n,
                    m == self.deps@[i as int]@.len(),
                    forall|t: int| 0 <= t < k ==> (self.deps@[i as int]@[t] as int) < n,
                decreases m - k,
            {
                if self.deps[i][k] >= n {
                    return false;
                }
                k += 1;
            }
            i += 1;
        }
        let mut a: usize = 0;
        while a < n
            invariant
                a <= n,
                n == self.packages@.len(),
                self.deps@.len() == n,
                forall|i: int, k: int|
                    0 <= i < n && 0 <= k < self.deps@[i]@.len() ==> (self.deps@[i]@[k] as int) < n,
                forall|i: int, j: int|
                    0 <= i < j < n && i < a ==> self.packages@[i].name@ != self.packages@[j].name@,
            decreases n - a,
        {
            let mut b: usize = a + 1;
            while b < n
                invariant
                    a < b <= n,
                    n == self.packages@.len(),
                    forall|j: int| a < j < b ==> self.packages@[a as int].name@
                        != self.packages@[j].name@,
                decreases n - b,
            {
                if crate::strings::str_eq(self.packages[a].name.as_str(), self.packages[b].name.as_str()) {
                    return false;
                }
                b += 1;
            }
            a += 1;
        }
        true
    }
}

/// A chain of dependency edges: each entry is a package index, and each
/// consecutive pair is an edge of the graph.
pub open spec fn valid_path(g: DependencyGraph, p: Seq<int>) -> bool {
    &&& p.len() >= 1
    &&& forall|k: int| 0 <= k < p.len() ==> 0 <= #[trigger] p[k] < g.packages@.len()
    &&& forall|k: int| 0 <= k < p.len() - 1 ==> g.edge(#[trigger] p[k], p[k + 1])
}

/// Whether package `x` is in the seed set or transitively depends on one of
/// its members: some dependency path leads from `x` to a seed.
pub open spec fn reaches(g: DependencyGraph, seeds: Set<int>, x: int) -> bool {
    exists|p: Seq<int>| valid_path(g, p) && p.first() == x && seeds.contains(p.last())
}

/// The indices marked `true` in a seed vector.
pub open spec fn seed_set(seeds: Seq<bool>) -> Set<int> {
    Set::new(|i: int| 0 <= i < seeds.len() && seeds[i])
}

/// A seed reaches itself through the one-element path.
pub proof fn lemma_seed_reaches(g: DependencyGraph, seeds: Set<int>, x: int)
    requires
        0 <= x < g.packages@.len(),
        seeds.contains(x),
    ensures
        reaches(g, seeds, x),
{
    let p = seq![x];
    assert(valid_path(g, p));
    assert(p.first() == x && seeds.contains(p.last()));
}

/// Reachability extends backward across an edge: a package depending on a
/// reaching package reaches too.
pub proof fn lemma_reaches_step(g: DependencyGraph, seeds: Set<int>, a: int, b: int)
    requires
        0 <= a < g.packages@.len(),
        g.edge(a, b),
        reaches(g, seeds, b),
    ensures
        reaches(g, seeds, a),
{
    let p = choose|p: Seq<int>| valid_path(g, p) && p.first() == b && seeds.contains(p.last());
    let q = seq![a] + p;
    assert(q.first() == a);
    assert(q.last() == p.last());
    assert forall|k: int| 0 <= k < q.len() - 1 implies g.edge(#[trigger] q[k], q[k + 1]) by {
        if k == 0 {
            assert(q[0] == a && q[1] == p[0]);
        } else {
            assert(q[k] == p[k - 1] && q[k + 1] == p[k]);
        }
    }
    assert(valid_path(g, q));
}

/// Number of `true` entries.
pub open spec fn count_true(s: Seq<bool>) -> int
    decreases s.len(),
{
    if s.len() == 0 {
        0
    } else {
        count_true(s.drop_last()) + if s.last() {
            1int
        } else {
            0int
        }
    }
}

proof fn lemma_count_true_bounds(s: Seq<bool>)
    ensures
        0 <= count_true(s) <= s.len(),
    decreases s.len(),
{
    if s.len() > 0 {
        lemma_count_true_bounds(s.drop_last());
    }
}

proof fn lemma_count_true_update(s: Seq<bool>, i: int)
    requires
        0 <= i < s.len(),
        !s[i],
    ensures
        count_true(s.update(i, true)) == count_true(s) + 1,
    decreases s.len(),
{
    let t = s.update(i, true);
    if i == s.len() - 1 {
        assert(t.drop_last() =~= s.drop_last());
    } else {
        assert(t.drop_last() =~= s.drop_last().update(i, true));
        lemma_count_true_update(s.drop_last(), i);
    }
}

/// Every package on a dependency path into a marked-closed, seed-covering set
/// is marked; in particular the path's start is.
proof fn lemma_path_marked(g: DependencyGraph, seeds: Set<int>, m: Seq<bool>, p: Seq<int>)
    requires
        m.len() == g.packages@.len(),
        forall|j: int| seeds.contains(j) && 0 <= j < m.len() ==> m[j],
        forall|a: int, b: int|
            0 <= a < m.len() && 0 <= b < m.len() && g.edge(a, b) && m[b] ==> m[a],
        valid_path(g, p),
        seeds.contains(p.last()),
    ensures
        m[p.first()],
    decreases p.len(),
{
    if p.len() == 1 {
        assert(p.first() == p.last());
    } else {
        let q = p.drop_first();
        assert forall|k: int| 0 <= k < q.len() - 1 implies g.edge(#[trigger] q[k], q[k + 1]) by {
            assert(q[k] == p[k + 1] && q[k + 1] == p[k + 2]);
            assert(g.edge(p[k + 1], p[k + 2]));
        }
        assert(valid_path(g, q));
        assert(q.last() == p.last());
        lemma_path_marked(g, seeds, m, q);
        assert(m[p[1]]);
        assert(g.edge(p[0], p[1]));
    }
}

/// Marks exactly the packages that are seeds or transitively depend on a seed:
/// the reverse-dependency closure of the seed set, seeds included.
pub fn reverse_closure(g: &DependencyGraph, seeds: &Vec<bool>) -> (marked: Vec<bool>)
    requires
        g.wf(),
        seeds@.len() == g.packages@.len(),
    ensures
        marked@.len() == g.packages@.len(),
        forall|i: int|
            0 <= i < marked@.len() ==> marked@[i] == reaches(*g, seed_set(seeds@), i),
{
    let ghost sset = seed_set(seeds@);
    let n = g.packages.len();
    let mut marked: Vec<bool> = Vec::new();
    let mut i: usize = 0;
    while i < n
        invariant
            i <= n,
            marked@.len() == i,
            seeds@.len() == n,
            forall|k: int| 0 <= k < i ==> marked@[k] == seeds@[k],
        decreases n - i,
    {
        marked.push(seeds[i]);
        i += 1;
    }
    proof {
        assert forall|k: int| 0 <= k < n && marked@[k] implies reaches(*g, sset, k) by {
            assert(sset.contains(k));
            lemma_seed_reaches(*g, sset, k);
        }
    }
    let mut changed = true;
    while changed
        invariant
            marked@.len() == n,
            seeds@.len() == n,
            n == g.packages@.len(),
            g.wf(),
            sset == seed_set(seeds@),
            forall|k: int| 0 <= k < n && seeds@[k] ==> marked@[k],
            forall|k: int| 0 <= k < n && marked@[k] ==> reaches(*g, sset, k),
            !changed ==> forall|a: int|
                0 <= a < n ==> marked@[a] || (forall|b: int|
                    0 <= b < n && g.edge(a, b) ==> !marked@[b]),
        decreases n - count_true(marked@) + if changed {
            1int
        } else {
            0int
        },
    {
        let ghost base = marked@;
        changed = false;
        let mut i: usize = 0;
        while i < n
            invariant
                i <= n,
                marked@.len() == n,
                seeds@.len() == n,
                n == g.packages@.len(),
                g.wf(),
                sset == seed_set(seeds@),
                base.len() == n,
                forall|k: int| 0 <= k < n && seeds@[k] ==> marked@[k],
                forall|k: int| 0 <= k < n && marked@[k] ==> reaches(*g, sset, k),
                count_true(marked@) >= count_true(base),
                changed ==> count_true(marked@) > count_true(base),
                !changed ==> marked@ == base,
                !changed ==> forall|a: int|
                    0 <= a < i ==> marked@[a] || (forall|b: int|
                        0 <= b < n && g.edge(a, b) ==> !marked@[b]),
            decreases n - i,
        {
            if !marked[i] {
                let m = g.deps[i].len();
                let mut t: usize = 0;
                let mut hit = false;
                while t < m
                    invariant
                        t <= m,
                        i < n,
                        marked@.len() == n,
                        n == g.packages@.len(),
                        g.wf(),
                        m == g.deps@[i as int]@.len(),
                        hit == exists|u: int|
                            0 <= u < t && marked@[g.deps@[i as int]@[u] as int],
                    decreases m - t,
                {
                    let d = g.deps[i][t];
                    if marked[d] {
                        hit = true;
                    }
                    t += 1;
                }
                if hit {
                    proof {
                        let u = choose|u: int|
                            0 <= u < m && marked@[g.deps@[i as int]@[u] as int];
                        let b = g.deps@[i as int]@[u] as int;
                        assert(g.edge(i as int, b));
                        lemma_reaches_step(*g, sset, i as int, b);
                        lemma_count_true_update(marked@, i as int);
                    }
                    marked.set(i, true);
                    changed = true;
                }
            }
            i += 1;
        }
        proof {
            lemma_count_true_bounds(marked@);
            lemma_count_true_bounds(base);
        }
    }
    proof {
        assert forall|i: int| 0 <= i < n && reaches(*g, sset, i) implies marked@[i] by {
            let p = choose|p: Seq<int>|
                valid_path(*g, p) && p.first() == i && sset.contains(p.last());
            lemma_path_marked(*g, sset, marked@, p);
        }
    }
    marked
}

} // verus!
