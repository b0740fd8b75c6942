//! The graph of build jobs: one node per package of a resolution (node 0 is the root), each
//! with the work it asks for and the targets it builds, and edges to the packages it depends
//! on. The graph decides which jobs can start and which builds can be let go; running them is
//! the caller's.

use vstd::prelude::*;
use crate::builds::{Target, Targets, Work};

verus! {

/// Whether every node in `cs` holds a built binary.
pub open spec fn all_fresh<B, S, H>(works: Seq<Work<B, S, H>>, cs: Seq<usize>) -> bool {
    forall|k: int| 0 <= k < cs.len() ==> (#[trigger] works[cs[k] as int]) is Fresh
}

/// A job that can start: it is to be built and every package it depends on is built.
pub open spec fn is_bottom<B, S, H>(works: Seq<Work<B, S, H>>, children: Seq<Seq<usize>>, i: int) -> bool {
    works[i] is Dirty && all_fresh(works, children[i])
}

/// The jobs below `n` that can start, in order.
pub open spec fn bottoms<B, S, H>(works: Seq<Work<B, S, H>>, children: Seq<Seq<usize>>, n: int) -> Seq<usize>
    decreases n,
{
    if n <= 0 {
        seq![]
    } else if is_bottom(works, children, n - 1) {
        bottoms(works, children, n - 1).push((n - 1) as usize)
    } else {
        bottoms(works, children, n - 1)
    }
}

/// The nodes of `cs` (in order) whose work is `kind`: 0 for none, 1 for fresh.
pub open spec fn with_work<B, S, H>(works: Seq<Work<B, S, H>>, cs: Seq<usize>, fresh: bool) -> Seq<usize>
    decreases cs.len(),
{
    if cs.len() == 0 {
        seq![]
    } else {
        let c = cs.last();
        let keep = if fresh { works[c as int] is Fresh } else { works[c as int] is Nothing };
        if keep {
            with_work(works, cs.drop_last(), fresh).push(c)
        } else {
            with_work(works, cs.drop_last(), fresh)
        }
    }
}

/// Whether every package that depends on `c` is built.
pub open spec fn parents_fresh<B, S, H>(works: Seq<Work<B, S, H>>, children: Seq<Seq<usize>>, c: usize) -> bool {
    forall|p: int| 0 <= p < children.len() && (#[trigger] children[p]).contains(c) ==> works[p] is Fresh
}

/// The work of a node once its job has finished: the binary it made, or nothing where it made
/// none and was still to be built.
pub open spec fn finished<B, S, H>(works: Seq<Work<B, S, H>>, node: int, binary: Option<B>) -> Seq<Work<B, S, H>> {
    match binary {
        Some(b) => works.update(node, Work::Fresh(b)),
        None => if works[node] is Dirty {
            works.update(node, Work::Nothing)
        } else {
            works
        },
    }
}

/// A build graph.
pub struct JobGraph<B, S, H> {
    works: Vec<Work<B, S, H>>,
    targets: Vec<Targets>,
    children: Vec<Vec<usize>>,
}

pub open spec fn children_view(c: Seq<Vec<usize>>) -> Seq<Seq<usize>> {
    c.map_values(|v: Vec<usize>| v@)
}

pub open spec fn edges_ok(c: Seq<Seq<usize>>) -> bool {
    forall|i: int, j: int| 0 <= i < c.len() && 0 <= j < c[i].len() ==> #[trigger] c[i][j] < c.len()
}

impl<B, S, H> JobGraph<B, S, H> {
    /// The nodes' work, targets and edges agree in number, and every edge leads to a node.
    pub closed spec fn wf(&self) -> bool {
        &&& self.works@.len() == self.children@.len()
        &&& self.targets@.len() == self.children@.len()
        &&& edges_ok(children_view(self.children@))
    }

    pub closed spec fn works_v(&self) -> Seq<Work<B, S, H>> {
        self.works@
    }

    pub closed spec fn targets_v(&self) -> Seq<Seq<Target>> {
        self.targets@.map_values(|t: Targets| t.0@)
    }

    pub closed spec fn children_v(&self) -> Seq<Seq<usize>> {
        children_view(self.children@)
    }

    /// The facts that every graph keeps.
    pub proof fn facts(&self)
        requires
            self.wf(),
        ensures
            self.works_v().len() == self.children_v().len(),
            self.targets_v().len() == self.children_v().len(),
            edges_ok(self.children_v()),
    {
    }

    /// A graph with these edges, every node without work and building a plain library; `None`
    /// where an edge leads to no node.
    pub fn new(children: Vec<Vec<usize>>) -> (r: Option<JobGraph<B, S, H>>)
        ensures
            match r {
                Some(g) => g.wf() && g.children_v() == children_view(children@)
                    && (forall|i: int| 0 <= i < g.works_v().len() ==> #[trigger] g.works_v()[i] is Nothing)
                    && (forall|i: int| 0 <= i < g.targets_v().len() ==> #[trigger] g.targets_v()[i] == seq![Target::Lib(false)]),
                None => !edges_ok(children_view(children@)),
            },
    {
        let n = children.len();
        let mut i: usize = 0;
        while i < n
            invariant
                n == children@.len(),
                i <= n,
                forall|a: int, b: int| 0 <= a < i && 0 <= b < children@[a]@.len() ==> #[trigger] children@[a]@[b] < n,
            decreases n - i,
        {
            let mut j: usize = 0;
            while j < children[i].len()
                invariant
                    n == children@.len(),
                    i < n,
                    j <= children@[i as int]@.len(),
                    forall|b: int| 0 <= b < j ==> #[trigger] children@[i as int]@[b] < n,
                decreases children@[i as int]@.len() - j,
            {
                if children[i][j] >= n {
                    assert(children_view(children@)[i as int][j as int] == children@[i as int]@[j as int]);
                    return None;
                }
                j = j + 1;
            }
            i = i + 1;
        }
        let mut works: Vec<Work<B, S, H>> = Vec::new();
        let mut targets: Vec<Targets> = Vec::new();
        let mut k: usize = 0;
        while k < n
            invariant
                k <= n,
                works@.len() == k,
                targets@.len() == k,
                forall|a: int| 0 <= a < k ==> #[trigger] works@[a] is Nothing,
                forall|a: int| 0 <= a < k ==> (#[trigger] targets@[a]).0@ == seq![Target::Lib(false)],
            decreases n - k,
        {
            works.push(Work::Nothing);
            let t = Targets::plain_lib();
            targets.push(t);
            k = k + 1;
        }
        let g = JobGraph { works, targets, children };
        assert(g.targets_v() =~= g.targets@.map_values(|t: Targets| t.0@));
        Some(g)
    }

    pub fn len(&self) -> (r: usize)
        requires
            self.wf(),
        ensures
            r == self.children_v().len(),
    {
        self.children.len()
    }

    pub fn work(&self, i: usize) -> (r: &Work<B, S, H>)
        requires
            self.wf(),
            i < self.children_v().len(),
        ensures
            *r == self.works_v()[i as int],
    {
        &self.works[i]
    }

    pub fn targets(&self, i: usize) -> (r: &Targets)
        requires
            self.wf(),
            i < self.children_v().len(),
        ensures
            r.0@ == self.targets_v()[i as int],
    {
        &self.targets[i]
    }

    pub fn children(&self, i: usize) -> (r: &Vec<usize>)
        requires
            self.wf(),
            i < self.children_v().len(),
        ensures
            r@ == self.children_v()[i as int],
    {
        &self.children[i]
    }

    /// Records what a node was found to need, and returns the packages it depends on that
    /// have not been looked at yet (those without work) where it is to be built.
    pub fn record(&mut self, node: usize, work: Work<B, S, H>, targets: Targets) -> (r: Vec<usize>)
        requires
            old(self).wf(),
            node < old(self).children_v().len(),
        ensures
            final(self).wf(),
            final(self).children_v() == old(self).children_v(),
            final(self).works_v() == old(self).works_v().update(node as int, work),
            final(self).targets_v() == old(self).targets_v().update(node as int, targets.0@),
            r@ == if work is Dirty {
                with_work(old(self).works_v(), old(self).children_v()[node as int], false)
            } else {
                seq![]
            },
    {
        let mut next: Vec<usize> = Vec::new();
        let dirty = work.is_dirty();
        if dirty {
            let ghost cs = self.children@[node as int]@;
            let mut k: usize = 0;
            while k < self.children[node].len()
                invariant
                    node < self.children@.len(),
                    self.works@.len() == self.children@.len(),
                    edges_ok(children_view(self.children@)),
                    cs == self.children@[node as int]@,
                    k <= cs.len(),
                    next@ == with_work(self.works@, cs.take(k as int), false),
                decreases cs.len() - k,
            {
                let c = self.children[node][k];
                assert(children_view(self.children@)[node as int][k as int] == c);
                assert(cs.take(k as int + 1).drop_last() =~= cs.take(k as int));
                assert(cs.take(k as int + 1).last() == c);
                if self.works[c].is_none() {
                    next.push(c);
                }
                k = k + 1;
            }
            assert(cs.take(k as int) =~= cs);
        }
        let ghost old_targets = self.targets_v();
        self.works.set(node, work);
        self.targets.set(node, targets);
        assert(self.targets_v() =~= old_targets.update(node as int, self.targets@[node as int].0@));
        next
    }

    /// The jobs that can start, in order: to be built, with every package they depend on built.
    pub fn bottom_jobs(&self) -> (r: Vec<usize>)
        requires
            self.wf(),
        ensures
            r@ == bottoms(self.works_v(), self.children_v(), self.children_v().len() as int),
    {
        let mut out: Vec<usize> = Vec::new();
        let mut i: usize = 0;
        while i < self.works.len()
            invariant
                self.works@.len() == self.children@.len(),
                edges_ok(children_view(self.children@)),
                i <= self.works@.len(),
                out@ == bottoms(self.works@, children_view(self.children@), i as int),
            decreases self.works@.len() - i,
        {
            if self.works[i].is_dirty() {
                let ghost cs = children_view(self.children@)[i as int];
                let mut all = true;
                let mut k: usize = 0;
                while k < self.children[i].len()
                    invariant
                        self.works@.len() == self.children@.len(),
                        edges_ok(children_view(self.children@)),
                        i < self.works@.len(),
                        cs == children_view(self.children@)[i as int],
                        k <= cs.len(),
                        all == forall|m: int| 0 <= m < k ==> (#[trigger] self.works@[cs[m] as int]) is Fresh,
                    decreases cs.len() - k,
                {
                    let c = self.children[i][k];
                    assert(cs[k as int] == c);
                    if !self.works[c].is_fresh() {
                        all = false;
                    }
                    k = k + 1;
                }
                if all {
                    out.push(i);
                }
            }
            i = i + 1;
        }
        out
    }

    /// Records that a node's job finished, with the binary it made, if any; then every
    /// package it depends on whose dependents are all built is let go (it has no work left).
    pub fn complete(&mut self, node: usize, binary: Option<B>)
        requires
            old(self).wf(),
            node < old(self).children_v().len(),
        ensures
            final(self).wf(),
            final(self).children_v() == old(self).children_v(),
            final(self).targets_v() == old(self).targets_v(),
            final(self).works_v().len() == old(self).works_v().len(),
            forall|k: int| 0 <= k < final(self).works_v().len() ==> #[trigger] final(self).works_v()[k] == if (
                old(self).children_v()[node as int].contains(k as usize)
                    && parents_fresh(finished(old(self).works_v(), node as int, binary), old(self).children_v(), k as usize)
            ) {
                Work::Nothing
            } else {
                finished(old(self).works_v(), node as int, binary)[k]
            },
    {
        let ghost cv = children_view(self.children@);
        let ghost mid = finished(self.works@, node as int, binary);
        match binary {
            Some(b) => {
                self.works.set(node, Work::Fresh(b));
            },
            None => {
                if self.works[node].is_dirty() {
                    self.works.set(node, Work::Nothing);
                }
            },
        }
        assert(self.works@ =~= mid);
        let n = self.works.len();
        let ghost cs = cv[node as int];
        // The packages that can be let go, decided before any is.
        let mut done: Vec<usize> = Vec::new();
        let mut k: usize = 0;
        while k < self.children[node].len()
            invariant
                self.wf(),
                self.targets@ == old(self).targets@,
                self.children@ == old(self).children@,
                n == self.works@.len(),
                self.works@.len() == self.children@.len(),
                cv == children_view(self.children@),
                edges_ok(cv),
                self.works@ == mid,
                node < n,
                cs == cv[node as int],
                k <= cs.len(),
                forall|m: int| 0 <= m < done@.len() ==> cs.contains(#[trigger] done@[m]) && parents_fresh(mid, cv, done@[m]),
                forall|m: int| 0 <= m < k && parents_fresh(mid, cv, #[trigger] cs[m]) ==> done@.contains(cs[m]),
                forall|m: int| 0 <= m < done@.len() ==> #[trigger] done@[m] < n,
            decreases cs.len() - k,
        {
            let c = self.children[node][k];
            assert(cs[k as int] == c);
            let ready = self.parents_all_fresh(c);
            let ghost before = done@;
            if ready {
                done.push(c);
                assert(done@[done@.len() - 1] == c);
                assert(done@.contains(c));
            }
            proof {
                assert forall|m: int| 0 <= m < k + 1 && parents_fresh(mid, cv, #[trigger] cs[m]) implies done@.contains(cs[m]) by {
                    if m < k {
                        assert(before.contains(cs[m]));
                        let w = choose|w: int| 0 <= w < before.len() && before[w] == cs[m];
                        assert(done@[w] == before[w]);
                    }
                }
            }
            k = k + 1;
        }
        let mut d: usize = 0;
        while d < done.len()
            invariant
                self.wf(),
                self.targets@ == old(self).targets@,
                self.children@ == old(self).children@,
                n == self.works@.len(),
                self.works@.len() == self.children@.len(),
                cv == children_view(self.children@),
                edges_ok(cv),
                forall|m: int| 0 <= m < done@.len() ==> cs.contains(#[trigger] done@[m]) && parents_fresh(mid, cv, done@[m]),
                forall|m: int| 0 <= m < cs.len() && parents_fresh(mid, cv, #[trigger] cs[m]) ==> done@.contains(cs[m]),
                forall|m: int| 0 <= m < done@.len() ==> #[trigger] done@[m] < n,
                d <= done@.len(),
                forall|q: int| 0 <= q < n ==> #[trigger] self.works@[q] == if done@.take(d as int).contains(q as usize) {
                    Work::Nothing
                } else {
                    mid[q]
                },
            decreases done@.len() - d,
        {
            let c = done[d];
            self.works.set(c, Work::Nothing);
            proof {
                assert forall|q: int| 0 <= q < n implies #[trigger] self.works@[q] == if done@.take(d as int + 1).contains(q as usize) {
                    Work::<B, S, H>::Nothing
                } else {
                    mid[q]
                } by {
                    assert(done@.take(d as int + 1) =~= done@.take(d as int).push(c));
                    if q == c as int {
                        assert(done@.take(d as int + 1)[d as int] == c);
                    }
                }
            }
            d = d + 1;
        }
        assert(done@.take(d as int) =~= done@);
        proof {
            assert forall|q: int| 0 <= q < n implies #[trigger] self.works@[q] == if cs.contains(q as usize)
                && parents_fresh(mid, cv, q as usize) {
                Work::<B, S, H>::Nothing
            } else {
                mid[q]
            } by {
                if cs.contains(q as usize) && parents_fresh(mid, cv, q as usize) {
                    let m = choose|m: int| 0 <= m < cs.len() && cs[m] == q as usize;
                    assert(parents_fresh(mid, cv, cs[m]));
                    assert(done@.contains(cs[m]));
                }
                if done@.contains(q as usize) {
                    let m = choose|m: int| 0 <= m < done@.len() && done@[m] == q as usize;
                    assert(cs.contains(done@[m]));
                }
            }
        }
    }

    /// Whether every node that depends on `c` holds a built binary.
    fn parents_all_fresh(&self, c: usize) -> (r: bool)
        requires
            self.wf(),
        ensures
            r == parents_fresh(self.works_v(), self.children_v(), c),
    {
        let ghost cv = children_view(self.children@);
        let mut p: usize = 0;
        while p < self.children.len()
            invariant
                self.works@.len() == self.children@.len(),
                cv == children_view(self.children@),
                p <= self.children@.len(),
                forall|q: int| 0 <= q < p && (#[trigger] cv[q]).contains(c) ==> self.works@[q] is Fresh,
            decreases self.children@.len() - p,
        {
            let mut has = false;
            let mut j: usize = 0;
            while j < self.children[p].len()
                invariant
                    cv == children_view(self.children@),
                    p < self.children@.len(),
                    j <= cv[p as int].len(),
                    has == exists|m: int| 0 <= m < j && cv[p as int][m] == c,
                decreases cv[p as int].len() - j,
            {
                assert(cv[p as int][j as int] == self.children[p as int]@[j as int]);
                if self.children[p][j] == c {
                    has = true;
                }
                j = j + 1;
            }
            if has && !self.works[p].is_fresh() {
                let ghost m = choose|m: int| 0 <= m < j && cv[p as int][m] == c;
                assert(cv[p as int].contains(c));
                return false;
            }
            proof {
                if cv[p as int].contains(c) {
                    let m = choose|m: int| 0 <= m < cv[p as int].len() && cv[p as int][m] == c;
                    assert(has);
                }
            }
            p = p + 1;
        }
        true
    }

    /// The packages that the root depends on directly and that hold a built binary, in order.
    pub fn fresh_root_children(&self) -> (r: Vec<usize>)
        requires
            self.wf(),
            self.children_v().len() > 0,
        ensures
            r@ == with_work(self.works_v(), self.children_v()[0], true),
    {
        let ghost cs = children_view(self.children@)[0];
        let mut out: Vec<usize> = Vec::new();
        let mut k: usize = 0;
        while k < self.children[0].len()
            invariant
                self.works@.len() == self.children@.len(),
                self.children@.len() > 0,
                edges_ok(children_view(self.children@)),
                cs == children_view(self.children@)[0],
                k <= cs.len(),
                out@ == with_work(self.works@, cs.take(k as int), true),
            decreases cs.len() - k,
        {
            let c = self.children[0][k];
            assert(cs[k as int] == c);
            assert(cs.take(k as int + 1).drop_last() =~= cs.take(k as int));
            assert(cs.take(k as int + 1).last() == c);
            if self.works[c].is_fresh() {
                out.push(c);
            }
            k = k + 1;
        }
        assert(cs.take(k as int) =~= cs);
        out
    }

    /// The hash that the root is built with, where the root is to be built.
    pub fn root_hash(&self) -> (r: Option<&H>)
        requires
            self.wf(),
            self.children_v().len() > 0,
        ensures
            match self.works_v()[0] {
                Work::Dirty(_, h) => r == Some(&h),
                _ => r is None,
            },
    {
        match &self.works[0] {
            Work::Dirty(_, h) => Some(h),
            _ => None,
        }
    }
}

/// The targets that a node builds: the root's own, and a plain library for every other
/// package.
pub fn node_targets(node: usize, root: &Targets) -> (r: Targets)
    ensures
        node == 0 ==> r.0@ == root.0@,
        node != 0 ==> r.0@ == seq![Target::Lib(false)],
{
    if node == 0 {
        root.copy()
    } else {
        let t = Targets::plain_lib();
        t
    }
}

/// Whether a node's build hash covers code generation: it does for a package other than the
/// root, or for the root where code is generated, when a target makes an executable.
pub fn hash_covers_codegen(node: usize, codegen: bool, targets: &Targets) -> (r: bool)
    ensures
        r == ((node != 0 || codegen) && exists|i: int| 0 <= i < targets.0@.len() && crate::builds::target_codegen(#[trigger] targets.0@[i])),
{
    (node != 0 || codegen) && targets.is_codegen()
}

/// Whether a node is the root built in its own output directory, which keeps its library there
/// and shows the compiler's output.
pub fn builds_in_place(node: usize, is_root: bool) -> (r: bool)
    ensures
        r == (node == 0 && is_root),
{
    node == 0 && is_root
}

/// What a node of the build graph is found to need while the graph is walked: nothing for the
/// root where its own output is already built with this hash; else the cached build of that
/// hash, where the cache holds one; else its source is to be built.
pub fn node_work<B, S, H>(node: usize, root_built: bool, cached: Option<B>, source: S, hash: H) -> (r: Work<B, S, H>)
    ensures
        r == if node == 0 && root_built {
            Work::Nothing
        } else {
            match cached {
                Some(b) => Work::Fresh(b),
                None => Work::Dirty(source, hash),
            }
        },
{
    if node == 0 && root_built {
        Work::Nothing
    } else {
        match cached {
            Some(b) => Work::Fresh(b),
            None => Work::Dirty(source, hash),
        }
    }
}

} // verus!
