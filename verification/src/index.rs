//! Package indices: the entries that an index lists for a package, with each dependency's
//! index resolved through the index's configuration, and the choice of a package that a spec
//! asks for.
//!
//! Reading an index from disk is the caller's; the entries come here as read.

use vstd::prelude::*;
use crate::package::{Name, NameV, name_same};
use crate::version::{Version, VersionV, ver_eq, version_order, Order, opt_version_view};
use crate::constraint::Constraint;
use crate::interval::RangeV;
use crate::resolution::{DirectRes, DirectResV, IndexRes, Resolution, ResolutionV, direct_res_eq, str_eq};
use crate::ids::{PackageId, PackageIdV, Spec, Summary};

verus! {

/// Why no package could be found.
#[derive(Debug, PartialEq, Eq, Structural, Copy, Clone)]
pub enum IndexError {
    /// No index in use has the package, or has it at the version asked for.
    PackageNotFound,
}

/// A dependency of an index entry: the package's name, its index (a name from the index's
/// configuration as read, a resolved index once resolved), and its constraint.
#[derive(Debug)]
pub struct Dep<T> {
    pub name: Name,
    pub index: T,
    pub req: Constraint,
}

/// A version of a package that an index lists.
#[derive(Debug)]
pub struct IndexEntry<T> {
    pub name: Name,
    pub version: Version,
    pub dependencies: Vec<Dep<T>>,
    pub yanked: bool,
    pub location: DirectRes,
}

/// An entry as an index file holds it.
pub type TomlEntry = IndexEntry<Option<String>>;

/// An entry whose dependencies' indices are resolved.
pub type ResolvedEntry = IndexEntry<IndexRes>;

/// An index's configuration.
#[derive(Debug)]
pub struct IndexConfig {
    pub index: IndexConfInner,
}

#[derive(Debug)]
pub struct IndexConfInner {
    pub secure: bool,
    /// The indices that this one's packages may depend on, by the names its entries use.
    pub dependencies: Vec<(String, IndexRes)>,
}

/// An index: where it comes from and its configuration.
#[derive(Debug)]
pub struct Index {
    pub id: IndexRes,
    pub config: IndexConfig,
}

/// The first position of a configured index with this name, or the length.
pub open spec fn named_from(cfg: Seq<(String, IndexRes)>, name: Seq<char>, i: int) -> int
    decreases cfg.len() - i,
{
    if i >= cfg.len() {
        cfg.len() as int
    } else if cfg[i].0@ == name {
        i
    } else {
        named_from(cfg, name, i + 1)
    }
}

/// The index that a dependency names: the configured index of that name, or the entry's own
/// index where it names none or an unknown one.
pub open spec fn dep_index(cfg: Seq<(String, IndexRes)>, own: DirectResV, ix: Option<Seq<char>>) -> DirectResV {
    match ix {
        Some(name) => {
            let k = named_from(cfg, name, 0);
            if k < cfg.len() {
                cfg[k].1.res@
            } else {
                own
            }
        },
        None => own,
    }
}

pub open spec fn opt_str(o: Option<String>) -> Option<Seq<char>> {
    match o {
        Some(s) => Some(s@),
        None => None,
    }
}

/// Whether `r` is the dependency `d` with its index resolved.
pub open spec fn dep_resolves(r: Dep<IndexRes>, d: Dep<Option<String>>, cfg: Seq<(String, IndexRes)>, own: DirectResV) -> bool {
    r.name@ == d.name@ && r.req@ == d.req@ && r.index.res@ == dep_index(cfg, own, opt_str(d.index))
}

/// Whether `r` is the entry `e` with its dependencies' indices resolved.
pub open spec fn entry_resolves(r: ResolvedEntry, e: TomlEntry, cfg: Seq<(String, IndexRes)>, own: DirectResV) -> bool {
    &&& r.name@ == e.name@
    &&& r.version@ == e.version@
    &&& r.yanked == e.yanked
    &&& r.location@ == e.location@
    &&& r.dependencies@.len() == e.dependencies@.len()
    &&& forall|j: int| 0 <= j < r.dependencies@.len() ==> dep_resolves(#[trigger] r.dependencies@[j], e.dependencies@[j], cfg, own)
}

/// The position in `keep` (positions into `keys`) of a key equal to `k` from `i` on, or the
/// length of `keep`.
pub open spec fn pos_by<K>(keys: Seq<K>, keep: Seq<int>, k: K, eq: spec_fn(K, K) -> bool, i: int) -> int
    decreases keep.len() - i,
{
    if i < 0 || i >= keep.len() {
        keep.len() as int
    } else if eq(keys[keep[i]], k) {
        i
    } else {
        pos_by(keys, keep, k, eq, i + 1)
    }
}

/// The positions of the first `n` keys that a map keeps, in its order: a key equal to one
/// already there takes its place.
pub open spec fn kept_by<K>(keys: Seq<K>, eq: spec_fn(K, K) -> bool, n: int) -> Seq<int>
    decreases n,
{
    if n <= 0 {
        seq![]
    } else {
        let prev = kept_by(keys, eq, n - 1);
        let k = pos_by(keys, prev, keys[n - 1], eq, 0);
        if k < prev.len() {
            prev.update(k, n - 1)
        } else {
            prev.push(n - 1)
        }
    }
}

pub open spec fn same_version() -> spec_fn(VersionV, VersionV) -> bool {
    |a: VersionV, b: VersionV| ver_eq(a, b)
}

pub open spec fn same_source() -> spec_fn(DirectResV, DirectResV) -> bool {
    |a: DirectResV, b: DirectResV| direct_res_eq(a, b)
}

pub open spec fn entry_versions<T>(es: Seq<IndexEntry<T>>) -> Seq<VersionV> {
    es.map_values(|e: IndexEntry<T>| e.version@)
}

proof fn lemma_pos_by_bound<K>(keys: Seq<K>, keep: Seq<int>, k: K, eq: spec_fn(K, K) -> bool, i: int)
    requires
        0 <= i,
    ensures
        i <= pos_by(keys, keep, k, eq, i) <= keep.len() || pos_by(keys, keep, k, eq, i) == keep.len(),
        pos_by(keys, keep, k, eq, i) < keep.len() ==> eq(keys[keep[pos_by(keys, keep, k, eq, i)]], k),
    decreases keep.len() - i,
{
    if i < keep.len() && !eq(keys[keep[i]], k) {
        lemma_pos_by_bound(keys, keep, k, eq, i + 1);
    }
}

proof fn lemma_kept_bounds<K>(keys: Seq<K>, eq: spec_fn(K, K) -> bool, n: int)
    requires
        0 <= n,
    ensures
        forall|k: int| 0 <= k < kept_by(keys, eq, n).len() ==> 0 <= #[trigger] kept_by(keys, eq, n)[k] < n,
    decreases n,
{
    if n > 0 {
        lemma_kept_bounds(keys, eq, n - 1);
        lemma_pos_by_bound(keys, kept_by(keys, eq, n - 1), keys[n - 1], eq, 0);
    }
}

impl Index {
    /// A dependency with its index resolved through this index's configuration.
    pub fn resolve_dep(&self, d: &Dep<Option<String>>) -> (r: Dep<IndexRes>)
        ensures
            dep_resolves(r, *d, self.config.index.dependencies@, self.id.res@),
    {
        let cfg = &self.config.index.dependencies;
        let index = match &d.index {
            Some(ix) => {
                let mut i: usize = 0;
                while i < cfg.len() && !str_eq(cfg[i].0.as_str(), ix.as_str())
                    invariant
                        i <= cfg@.len(),
                        named_from(cfg@, ix@, 0) == named_from(cfg@, ix@, i as int),
                    decreases cfg@.len() - i,
                {
                    i = i + 1;
                }
                if i < cfg.len() {
                    cfg[i].1.copy()
                } else {
                    self.id.copy()
                }
            },
            None => self.id.copy(),
        };
        Dep { name: d.name.copy(), index, req: d.req.copy() }
    }

    /// An entry with every dependency's index resolved.
    pub fn resolve_entry(&self, e: &TomlEntry) -> (r: ResolvedEntry)
        ensures
            entry_resolves(r, *e, self.config.index.dependencies@, self.id.res@),
    {
        let mut deps: Vec<Dep<IndexRes>> = Vec::new();
        let mut i: usize = 0;
        while i < e.dependencies.len()
            invariant
                i <= e.dependencies@.len(),
                deps@.len() == i,
                forall|j: int| 0 <= j < i ==> dep_resolves(#[trigger] deps@[j], e.dependencies@[j],
                    self.config.index.dependencies@, self.id.res@),
            decreases e.dependencies@.len() - i,
        {
            let rd = self.resolve_dep(&e.dependencies[i]);
            deps.push(rd);
            i = i + 1;
        }
        IndexEntry {
            name: e.name.copy(),
            version: e.version.copy(),
            dependencies: deps,
            yanked: e.yanked,
            location: e.location.copy(),
        }
    }

    /// The entries of a package as a map keyed by version: in the order of each version's first
    /// entry, each holding the last entry of its version, with its dependencies resolved.
    pub fn entries(&self, raw: &Vec<TomlEntry>) -> (r: Vec<ResolvedEntry>)
        ensures
            r@.len() == kept_by(entry_versions(raw@), same_version(), raw@.len() as int).len(),
            forall|k: int| 0 <= k < r@.len() ==> entry_resolves(#[trigger] r@[k],
                raw@[kept_by(entry_versions(raw@), same_version(), raw@.len() as int)[k]],
                self.config.index.dependencies@, self.id.res@),
    {
        let ghost vs = entry_versions(raw@);
        let ghost eq = same_version();
        let mut out: Vec<ResolvedEntry> = Vec::new();
        let mut i: usize = 0;
        while i < raw.len()
            invariant
                i <= raw@.len(),
                vs == entry_versions(raw@),
                eq == same_version(),
                out@.len() == kept_by(vs, eq, i as int).len(),
                forall|k: int| 0 <= k < out@.len() ==> entry_resolves(#[trigger] out@[k], raw@[kept_by(vs, eq, i as int)[k]],
                    self.config.index.dependencies@, self.id.res@),
                forall|k: int| 0 <= k < out@.len() ==> (#[trigger] out@[k]).version@ == vs[kept_by(vs, eq, i as int)[k]],
            decreases raw@.len() - i,
        {
            let re = self.resolve_entry(&raw[i]);
            assert(vs[i as int] == raw@[i as int].version@);
            let ghost prev = kept_by(vs, eq, i as int);
            proof {
                lemma_kept_bounds(vs, eq, i as int);
                lemma_pos_by_bound(vs, prev, vs[i as int], eq, 0);
            }
            let mut k: usize = 0;
            while k < out.len() && !out[k].version.same(&re.version)
                invariant
                    out@.len() == prev.len(),
                    eq == same_version(),
                    forall|m: int| 0 <= m < out@.len() ==> (#[trigger] out@[m]).version@ == vs[prev[m]],
                    k <= out@.len(),
                    re.version@ == vs[i as int],
                    pos_by(vs, prev, vs[i as int], eq, 0) == pos_by(vs, prev, vs[i as int], eq, k as int),
                decreases out@.len() - k,
            {
                k = k + 1;
            }
            let ghost before = out@;
            if k < out.len() {
                assert(pos_by(vs, prev, vs[i as int], eq, 0) == k);
                out.set(k, re);
                assert(kept_by(vs, eq, i as int + 1) == prev.update(k as int, i as int));
            } else {
                assert(pos_by(vs, prev, vs[i as int], eq, k as int) == prev.len());
                out.push(re);
                assert(kept_by(vs, eq, i as int + 1) == prev.push(i as int));
            }
            proof {
                let nk = kept_by(vs, eq, i as int + 1);
                assert forall|m: int| 0 <= m < out@.len() implies entry_resolves(#[trigger] out@[m], raw@[nk[m]],
                    self.config.index.dependencies@, self.id.res@) && out@[m].version@ == vs[nk[m]] by {
                    if m < before.len() && m != k {
                        assert(out@[m] == before[m]);
                    }
                }
            }
            i = i + 1;
        }
        out
    }
}

/// Whether the entries are ordered by version.
pub open spec fn sorted_by_version<T>(es: Seq<IndexEntry<T>>) -> bool {
    forall|i: int, j: int| 0 <= i < j < es.len() ==> crate::version::ver_le(#[trigger] es[i].version@, #[trigger] es[j].version@)
}

/// Orders entries by version, as the map of a package's versions is ordered before use.
pub fn sort_entries(es: Vec<ResolvedEntry>) -> (r: Vec<ResolvedEntry>)
    ensures
        sorted_by_version(r@),
        r@.to_multiset() == es@.to_multiset(),
{
    broadcast use vstd::multiset::group_multiset_axioms;
    let ghost all = es@;
    let mut rest = es;
    let mut out: Vec<ResolvedEntry> = Vec::new();
    proof {
        out@.to_multiset_ensures();
        assert(out@.to_multiset() =~= vstd::multiset::Multiset::empty());
        assert(out@.to_multiset().add(rest@.to_multiset()) =~= all.to_multiset());
    }
    while rest.len() > 0
        invariant
            sorted_by_version(out@),
            out@.to_multiset().add(rest@.to_multiset()) == all.to_multiset(),
        decreases rest@.len(),
    {
        let ghost before_rest = rest@;
        let e = rest.pop().unwrap();
        proof {
            rest@.to_multiset_ensures();
            assert(before_rest =~= rest@.push(e));
        }
        let mut p: usize = out.len();
        while p > 0 && out[p - 1].version.compare(&e.version) == Order::Greater
            invariant
                p <= out@.len(),
                forall|j: int| p <= j < out@.len() ==> version_order(#[trigger] out@[j].version@, e.version@) == Order::Greater,
            decreases p,
        {
            p = p - 1;
        }
        let ghost before = out@;
        let ghost ev = e.version@;
        out.insert(p, e);
        proof {
            assert(out@ =~= before.insert(p as int, e));
            before.to_multiset_ensures();
            out@.to_multiset_ensures();
            assert(out@.remove(p as int) =~= before);
            assert(out@[p as int] == e);
            assert(out@.to_multiset() =~= before.to_multiset().insert(e));
            assert forall|a: int, b: int| 0 <= a < b < out@.len() implies crate::version::ver_le(#[trigger] out@[a].version@,
                #[trigger] out@[b].version@) by {
                if a < p && b == p {
                    if a < p - 1 {
                        assert(crate::version::ver_le(before[a].version@, before[p - 1].version@));
                    }
                    crate::version::lemma_version_order_trans(before[a].version@, before[p - 1].version@, ev);
                } else if a < p && b > p {
                    assert(out@[b] == before[b - 1]);
                } else if a == p && b > p {
                    assert(out@[b] == before[b - 1]);
                    crate::version::lemma_version_order_antisym(before[b - 1].version@, ev);
                } else if a > p {
                    assert(out@[a] == before[a - 1]);
                    assert(out@[b] == before[b - 1]);
                }
            }
        }
    }
    proof {
        rest@.to_multiset_ensures();
        assert(rest@.to_multiset() =~= vstd::multiset::Multiset::empty());
        assert(out@.to_multiset().add(rest@.to_multiset()) =~= out@.to_multiset());
    }
    out
}

/// The indices in use.
#[derive(Debug)]
pub struct Indices {
    indices: Vec<Index>,
}

impl Indices {
    /// The indices, in order.
    pub closed spec fn list(&self) -> Seq<Index> {
        self.indices@
    }

    pub closed spec fn ids(&self) -> Seq<DirectResV> {
        self.indices@.map_values(|i: Index| i.id.res@)
    }

    /// The indices keyed by where they come from: an index whose source is already there
    /// takes its place.
    pub fn new(indices: Vec<Index>) -> (r: Indices)
        ensures
            r.list().len() == kept_by(indices@.map_values(|i: Index| i.id.res@), same_source(), indices@.len() as int).len(),
            r.ids() == r.list().map_values(|i: Index| i.id.res@),
            forall|k: int| 0 <= k < r.list().len() ==> #[trigger] r.list()[k]
                == indices@[kept_by(indices@.map_values(|i: Index| i.id.res@), same_source(), indices@.len() as int)[k]],
    {
        let ghost all = indices@;
        let n = indices.len();
        let ghost keys = all.map_values(|i: Index| i.id.res@);
        let ghost eq = same_source();
        let mut rest = indices;
        let mut rev: Vec<Index> = Vec::new();
        while rest.len() > 0
            invariant
                rest@ == all.take(rest@.len() as int),
                rest@.len() + rev@.len() == all.len(),
                forall|j: int| 0 <= j < rev@.len() ==> #[trigger] rev@[j] == all[all.len() - 1 - j],
            decreases rest@.len(),
        {
            let e = rest.pop().unwrap();
            assert(rest@ =~= all.take(rest@.len() as int));
            rev.push(e);
        }
        let mut out: Vec<Index> = Vec::new();
        let mut i: usize = 0;
        while rev.len() > 0
            invariant
                i + rev@.len() == all.len(),
                n == all.len(),
                keys == all.map_values(|i: Index| i.id.res@),
                eq == same_source(),
                forall|j: int| 0 <= j < rev@.len() ==> #[trigger] rev@[j] == all[all.len() - 1 - j],
                out@.len() == kept_by(keys, eq, i as int).len(),
                forall|k: int| 0 <= k < out@.len() ==> #[trigger] out@[k] == all[kept_by(keys, eq, i as int)[k]],
            decreases rev@.len(),
        {
            let ix = rev.pop().unwrap();
            assert(ix == all[i as int]);
            assert(keys[i as int] == ix.id.res@);
            let ghost prev = kept_by(keys, eq, i as int);
            proof {
                lemma_kept_bounds(keys, eq, i as int);
                lemma_pos_by_bound(keys, prev, keys[i as int], eq, 0);
            }
            let mut k: usize = 0;
            while k < out.len() && !out[k].id.same(&ix.id)
                invariant
                    out@.len() == prev.len(),
                    eq == same_source(),
                    keys == all.map_values(|i: Index| i.id.res@),
                    forall|m: int| 0 <= m < prev.len() ==> 0 <= #[trigger] prev[m] < i,
                    i < all.len(),
                    forall|m: int| 0 <= m < out@.len() ==> #[trigger] out@[m] == all[prev[m]],
                    k <= out@.len(),
                    ix.id.res@ == keys[i as int],
                    pos_by(keys, prev, keys[i as int], eq, 0) == pos_by(keys, prev, keys[i as int], eq, k as int),
                decreases out@.len() - k,
            {
                assert(keys[prev[k as int]] == out@[k as int].id.res@);
                k = k + 1;
            }
            if k < out.len() {
                assert(keys[prev[k as int]] == out@[k as int].id.res@);
            }
            let ghost before = out@;
            if k < out.len() {
                assert(pos_by(keys, prev, keys[i as int], eq, 0) == k);
                out.set(k, ix);
                assert(kept_by(keys, eq, i as int + 1) == prev.update(k as int, i as int));
            } else {
                assert(pos_by(keys, prev, keys[i as int], eq, k as int) == prev.len());
                out.push(ix);
                assert(kept_by(keys, eq, i as int + 1) == prev.push(i as int));
            }
            proof {
                let nk = kept_by(keys, eq, i as int + 1);
                assert forall|m: int| 0 <= m < out@.len() implies #[trigger] out@[m] == all[nk[m]] by {
                    if m < before.len() && m != k {
                        assert(out@[m] == before[m]);
                    }
                }
            }
            i = i + 1;
        }
        Indices { indices: out }
    }

    pub fn len(&self) -> (r: usize)
        ensures
            r == self.ids().len(),
    {
        self.indices.len()
    }

    pub fn index(&self, i: usize) -> (r: &Index)
        requires
            i < self.ids().len(),
        ensures
            r.id.res@ == self.ids()[i as int],
    {
        &self.indices[i]
    }

    /// The position of the index that a package comes from: `PackageNotFound` where the
    /// package comes from no index in use.
    pub fn index_of(&self, pkg: &PackageId) -> (r: Result<usize, IndexError>)
        ensures
            match r {
                Ok(i) => i < self.ids().len() && (pkg@.resolution matches ResolutionV::Index(d)
                    && direct_res_eq(self.ids()[i as int], d)
                    && forall|j: int| 0 <= j < i ==> !direct_res_eq(#[trigger] self.ids()[j], d)),
                Err(e) => e == IndexError::PackageNotFound && match pkg@.resolution {
                    ResolutionV::Index(d) => forall|j: int| 0 <= j < self.ids().len() ==> !direct_res_eq(#[trigger] self.ids()[j], d),
                    _ => true,
                },
            },
    {
        match pkg.resolution() {
            Resolution::Index(ir) => {
                let mut i: usize = 0;
                while i < self.indices.len()
                    invariant
                        i <= self.ids().len(),
                        self.ids().len() == self.indices@.len(),
                        pkg@.resolution == ResolutionV::Index(ir.res@),
                        forall|j: int| 0 <= j < i ==> !direct_res_eq(#[trigger] self.ids()[j], ir.res@),
                    decreases self.indices@.len() - i,
                {
                    assert(self.ids()[i as int] == self.indices@[i as int].id.res@);
                    if self.indices[i].id.same(ir) {
                        return Ok(i);
                    }
                    i = i + 1;
                }
                Err(IndexError::PackageNotFound)
            },
            _ => Err(IndexError::PackageNotFound),
        }
    }
}

/// Whether an entry may be selected for a spec: not yanked, and of the spec's version where
/// it gives one.
pub open spec fn selectable(e: ResolvedEntry, ver: Option<VersionV>) -> bool {
    !e.yanked && match ver {
        Some(v) => ver_eq(e.version@, v),
        None => true,
    }
}

/// The last selectable entry below `n`, or -1.
pub open spec fn last_selectable(es: Seq<ResolvedEntry>, ver: Option<VersionV>, n: int) -> int
    decreases n,
{
    if n <= 0 {
        -1
    } else if selectable(es[n - 1], ver) {
        n - 1
    } else {
        last_selectable(es, ver, n - 1)
    }
}

/// Whether an index is searched for a spec: every index where the spec names no resolution,
/// else the index it names.
pub open spec fn index_searched(id: DirectResV, res: Option<ResolutionV>) -> bool {
    match res {
        None => true,
        Some(r) => crate::resolution::resolution_eq(r, ResolutionV::Index(id)),
    }
}

/// The index and entry that a spec selects, given each index's entries for the spec's name:
/// the first index searched whose entries hold a selectable one, and its last selectable
/// entry.
pub open spec fn select_spec(ids: Seq<DirectResV>, res: Option<ResolutionV>, ver: Option<VersionV>,
    per_index: Seq<Option<Vec<ResolvedEntry>>>, i: int) -> Option<(int, int)>
    decreases ids.len() - i,
{
    if i >= ids.len() || i < 0 {
        None
    } else if index_searched(ids[i], res) && i < per_index.len() && (per_index[i] matches Some(es)
        && last_selectable(es@, ver, es@.len() as int) >= 0) {
        Some((i, last_selectable(per_index[i]->Some_0@, ver, per_index[i]->Some_0@.len() as int)))
    } else {
        select_spec(ids, res, ver, per_index, i + 1)
    }
}

impl Indices {
    /// The package that a spec selects: `per_index[i]` holds the entries of the spec's name in
    /// the `i`-th index, where they could be read. The summary names the index it was found in;
    /// `PackageNotFound` where no index searched has a selectable entry.
    pub fn select_by_spec(&self, spec: &Spec, per_index: &Vec<Option<Vec<ResolvedEntry>>>) -> (r: Result<Summary, IndexError>)
        ensures
            match select_spec(self.ids(), crate::ids::opt_res_view(spec.resolution), opt_version_view(spec.version),
                per_index@, 0) {
                Some((i, k)) => r matches Ok(s) && s.id@ == (PackageIdV { name: spec.name@, resolution: ResolutionV::Index(self.ids()[i]) })
                    && s.version@ == per_index@[i]->Some_0@[k].version@,
                None => r == Err::<Summary, IndexError>(IndexError::PackageNotFound),
            },
    {
        let ghost res = crate::ids::opt_res_view(spec.resolution);
        let ghost ver = opt_version_view(spec.version);
        let mut i: usize = 0;
        while i < self.indices.len()
            invariant
                i <= self.ids().len(),
                self.ids().len() == self.indices@.len(),
                res == crate::ids::opt_res_view(spec.resolution),
                ver == opt_version_view(spec.version),
                select_spec(self.ids(), res, ver, per_index@, 0) == select_spec(self.ids(), res, ver, per_index@, i as int),
            decreases self.indices@.len() - i,
        {
            assert(self.ids()[i as int] == self.indices@[i as int].id.res@);
            let searched = match &spec.resolution {
                None => true,
                Some(r) => {
                    let here = Resolution::Index(self.indices[i].id.copy());
                    r.same(&here)
                },
            };
            assert(searched == index_searched(self.ids()[i as int], res));
            if searched && i < per_index.len() {
                match &per_index[i] {
                    Some(es) => {
                        let mut k: usize = es.len();
                        while k > 0
                            invariant
                                i < self.indices@.len(),
                                self.ids().len() == self.indices@.len(),
                                k <= es@.len(),
                                ver == opt_version_view(spec.version),
                                res == crate::ids::opt_res_view(spec.resolution),
                                index_searched(self.ids()[i as int], res),
                                i < per_index@.len(),
                                per_index@[i as int] == Some(*es),
                                select_spec(self.ids(), res, ver, per_index@, 0) == select_spec(self.ids(), res, ver, per_index@, i as int),
                                self.ids()[i as int] == self.indices@[i as int].id.res@,
                                last_selectable(es@, ver, es@.len() as int) == last_selectable(es@, ver, k as int),
                            decreases k,
                        {
                            let e = &es[k - 1];
                            let ok = !e.yanked && match &spec.version {
                                Some(v) => e.version.same(v),
                                None => true,
                            };
                            assert(ok == selectable(es@[k - 1], ver));
                            if ok {
                                let id = PackageId::new(spec.name.copy(), Resolution::Index(self.indices[i].id.copy()));
                                assert(last_selectable(es@, ver, es@.len() as int) == k - 1);
                                return Ok(Summary::new(id, e.version.copy()));
                            }
                            k = k - 1;
                        }
                        assert(last_selectable(es@, ver, es@.len() as int) < 0);
                    },
                    None => {},
                }
            }
            i = i + 1;
        }
        Err(IndexError::PackageNotFound)
    }
}

} // verus!
