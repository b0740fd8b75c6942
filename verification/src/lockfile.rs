//! Lockfiles: the packages of a resolution with their dependencies, and the graph they stand
//! for.

use vstd::prelude::*;
use crate::ids::{PackageId, PackageIdV, Summary, package_id_eq};
use crate::version::Version;
use crate::version::{VersionV, ver_eq};

verus! {

/// A locked package and the packages it depends on.
#[derive(Debug)]
pub struct LockedPkg {
    pub sum: Summary,
    pub dependencies: Vec<Summary>,
}

/// The packages of a lockfile.
#[derive(Debug)]
pub struct LockfileToml {
    pub packages: Vec<LockedPkg>,
}

/// A fully resolved graph of packages: its nodes, and its edges from a package to one it
/// depends on, as positions in the nodes.
#[derive(Debug)]
pub struct Solve {
    pub nodes: Vec<Summary>,
    pub edges: Vec<(usize, usize)>,
}

pub type SumV = (PackageIdV, VersionV);

pub open spec fn sum_view(s: Summary) -> SumV {
    (s.id@, s.version@)
}

/// Summary equality: the same package at the same version.
pub open spec fn sum_eq(a: SumV, b: SumV) -> bool {
    package_id_eq(a.0, b.0) && ver_eq(a.1, b.1)
}

/// The position of the first node from `i` on equal to `s`, or the number of nodes.
pub open spec fn node_pos(nodes: Seq<SumV>, s: SumV, i: int) -> int
    decreases nodes.len() - i,
{
    if i < 0 || i >= nodes.len() {
        nodes.len() as int
    } else if sum_eq(nodes[i], s) {
        i
    } else {
        node_pos(nodes, s, i + 1)
    }
}

/// The nodes with `s` added where no equal node is there, and its position.
pub open spec fn find_or_add(nodes: Seq<SumV>, s: SumV) -> (Seq<SumV>, int) {
    let k = node_pos(nodes, s, 0);
    if k < nodes.len() {
        (nodes, k)
    } else {
        (nodes.push(s), nodes.len() as int)
    }
}

/// The graph after the first `n` dependencies of a package at position `from`.
pub open spec fn add_deps(g: (Seq<SumV>, Seq<(int, int)>), from: int, deps: Seq<SumV>, n: int) -> (Seq<SumV>, Seq<(int, int)>)
    decreases n,
{
    if n <= 0 {
        g
    } else {
        let (nodes, edges) = add_deps(g, from, deps, n - 1);
        let (nodes2, k) = find_or_add(nodes, deps[n - 1]);
        (nodes2, edges.push((from, k)))
    }
}

/// The graph of the first `n` packages: each package a node (equal packages one node), and an
/// edge to each of its dependencies.
pub open spec fn lock_graph(pkgs: Seq<(SumV, Seq<SumV>)>, n: int) -> (Seq<SumV>, Seq<(int, int)>)
    decreases n,
{
    if n <= 0 {
        (seq![], seq![])
    } else {
        let (nodes, edges) = lock_graph(pkgs, n - 1);
        let (nodes2, k) = find_or_add(nodes, pkgs[n - 1].0);
        add_deps((nodes2, edges), k, pkgs[n - 1].1, pkgs[n - 1].1.len() as int)
    }
}

pub open spec fn pkgs_view(p: Seq<LockedPkg>) -> Seq<(SumV, Seq<SumV>)> {
    p.map_values(|l: LockedPkg| (sum_view(l.sum), l.dependencies@.map_values(|d: Summary| sum_view(d))))
}

pub open spec fn nodes_view(n: Seq<Summary>) -> Seq<SumV> {
    n.map_values(|s: Summary| sum_view(s))
}

proof fn lemma_node_pos_bound(nodes: Seq<SumV>, s: SumV, i: int)
    requires
        0 <= i,
    ensures
        node_pos(nodes, s, i) <= nodes.len(),
        node_pos(nodes, s, i) >= i || node_pos(nodes, s, i) == nodes.len(),
        node_pos(nodes, s, i) < nodes.len() ==> sum_eq(nodes[node_pos(nodes, s, i)], s),
    decreases nodes.len() - i,
{
    if i < nodes.len() && !sum_eq(nodes[i], s) {
        lemma_node_pos_bound(nodes, s, i + 1);
    }
}

fn sum_copy(s: &Summary) -> (r: Summary)
    ensures
        sum_view(r) == sum_view(*s),
{
    Summary::new(s.id.copy(), s.version.copy())
}

/// The position of a node equal to `s`, added where there is none.
fn find_or_add_exec(nodes: &mut Vec<Summary>, s: &Summary) -> (k: usize)
    ensures
        (nodes_view(final(nodes)@), k as int) == find_or_add(nodes_view(old(nodes)@), sum_view(*s)),
{
    let ghost nv = nodes_view(nodes@);
    proof {
        lemma_node_pos_bound(nv, sum_view(*s), 0);
    }
    let mut i: usize = 0;
    while i < nodes.len() && !(nodes[i].id.same(&s.id) && nodes[i].version.same(&s.version))
        invariant
            i <= nodes@.len(),
            nv == nodes_view(nodes@),
            node_pos(nv, sum_view(*s), 0) == node_pos(nv, sum_view(*s), i as int),
        decreases nodes@.len() - i,
    {
        assert(nv[i as int] == sum_view(nodes@[i as int]));
        i = i + 1;
    }
    if i < nodes.len() {
        assert(nv[i as int] == sum_view(nodes@[i as int]));
        i
    } else {
        let n = nodes.len();
        nodes.push(sum_copy(s));
        assert(nodes_view(nodes@) =~= nv.push(sum_view(*s)));
        n
    }
}

impl LockfileToml {
    /// The graph that the lockfile stands for: a node for each package (equal packages share
    /// one), in the order in which they first occur, and an edge from each package to each of
    /// its dependencies.
    pub fn graph(&self) -> (r: Solve)
        ensures
            (nodes_view(r.nodes@), r.edges@.map_values(|e: (usize, usize)| (e.0 as int, e.1 as int)))
                == lock_graph(pkgs_view(self.packages@), self.packages@.len() as int),
    {
        let ghost pv = pkgs_view(self.packages@);
        let mut nodes: Vec<Summary> = Vec::new();
        let mut edges: Vec<(usize, usize)> = Vec::new();
        let mut i: usize = 0;
        assert(nodes_view(nodes@) =~= seq![]);
        assert(edges@.map_values(|e: (usize, usize)| (e.0 as int, e.1 as int)) =~= seq![]);
        while i < self.packages.len()
            invariant
                i <= self.packages@.len(),
                pv == pkgs_view(self.packages@),
                (nodes_view(nodes@), edges@.map_values(|e: (usize, usize)| (e.0 as int, e.1 as int))) == lock_graph(pv, i as int),
            decreases self.packages@.len() - i,
        {
            let pkg = &self.packages[i];
            assert(pv[i as int] == (sum_view(pkg.sum), pkg.dependencies@.map_values(|d: Summary| sum_view(d))));
            let k = find_or_add_exec(&mut nodes, &pkg.sum);
            let ghost dv = pkg.dependencies@.map_values(|d: Summary| sum_view(d));
            let ghost start = (nodes_view(nodes@), edges@.map_values(|e: (usize, usize)| (e.0 as int, e.1 as int)));
            let mut j: usize = 0;
            while j < pkg.dependencies.len()
                invariant
                    j <= pkg.dependencies@.len(),
                    dv == pkg.dependencies@.map_values(|d: Summary| sum_view(d)),
                    (nodes_view(nodes@), edges@.map_values(|e: (usize, usize)| (e.0 as int, e.1 as int)))
                        == add_deps(start, k as int, dv, j as int),
                decreases pkg.dependencies@.len() - j,
            {
                let ghost before_edges = edges@;
                let d = find_or_add_exec(&mut nodes, &pkg.dependencies[j]);
                assert(dv[j as int] == sum_view(pkg.dependencies@[j as int]));
                edges.push((k, d));
                assert(edges@.map_values(|e: (usize, usize)| (e.0 as int, e.1 as int)) =~= before_edges.map_values(
                    |e: (usize, usize)| (e.0 as int, e.1 as int),
                ).push((k as int, d as int)));
                j = j + 1;
            }
            i = i + 1;
        }
        Solve { nodes, edges }
    }
}

/// The position of the first node from `i` on whose package is `id`, or the number of nodes.
pub open spec fn id_pos(nodes: Seq<SumV>, id: PackageIdV, i: int) -> int
    decreases nodes.len() - i,
{
    if i < 0 || i >= nodes.len() {
        nodes.len() as int
    } else if package_id_eq(nodes[i].0, id) {
        i
    } else {
        id_pos(nodes, id, i + 1)
    }
}

impl Solve {
    /// The position of the first node equal to `node`, if there is one.
    pub fn find_node(&self, node: &Summary) -> (r: Option<usize>)
        ensures
            r == (if node_pos(nodes_view(self.nodes@), sum_view(*node), 0) < self.nodes@.len() {
                Some(node_pos(nodes_view(self.nodes@), sum_view(*node), 0) as usize)
            } else {
                None::<usize>
            }),
    {
        let ghost nv = nodes_view(self.nodes@);
        proof {
            lemma_node_pos_bound(nv, sum_view(*node), 0);
        }
        let mut i: usize = 0;
        while i < self.nodes.len()
            invariant
                i <= self.nodes@.len(),
                nv == nodes_view(self.nodes@),
                node_pos(nv, sum_view(*node), 0) == node_pos(nv, sum_view(*node), i as int),
            decreases self.nodes@.len() - i,
        {
            assert(nv[i as int] == sum_view(self.nodes@[i as int]));
            if self.nodes[i].id.same(&node.id) && self.nodes[i].version.same(&node.version) {
                return Some(i);
            }
            i = i + 1;
        }
        None
    }

    /// The version of the first node of package `id`, if there is one.
    pub fn get_pkg_version(&self, id: &PackageId) -> (r: Option<Version>)
        ensures
            match r {
                Some(v) => id_pos(nodes_view(self.nodes@), id@, 0) < self.nodes@.len()
                    && v@ == self.nodes@[id_pos(nodes_view(self.nodes@), id@, 0)].version@,
                None => id_pos(nodes_view(self.nodes@), id@, 0) >= self.nodes@.len(),
            },
    {
        let ghost nv = nodes_view(self.nodes@);
        let mut i: usize = 0;
        while i < self.nodes.len()
            invariant
                i <= self.nodes@.len(),
                nv == nodes_view(self.nodes@),
                id_pos(nv, id@, 0) == id_pos(nv, id@, i as int),
            decreases self.nodes@.len() - i,
        {
            assert(nv[i as int] == sum_view(self.nodes@[i as int]));
            if self.nodes[i].id.same(id) {
                return Some(self.nodes[i].version.copy());
            }
            i = i + 1;
        }
        None
    }
}

} // verus!
