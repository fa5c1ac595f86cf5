//! The dependency-graph walker: from per-unit usage results to the
//! global used / unused partition.
use vstd::prelude::*;
use crate::cache::{id_set_of, pid_get, pid_lookup, sorted_id_set, CacheUsedPackages};
use crate::diag::{find_name_from, find_name_pos};
use crate::graph::{adj_views, closed_under, closure, covers_start, in_every_closure, BuildTarget,
    DepEdge, Package, ResolveGraph, TargetKind};
use crate::opts::views;
use crate::strutil::str_eq;
use crate::PackageId;

verus! {

/// A copy of a package identity.
pub fn clone_pid(p: &PackageId) -> (r: PackageId)
    ensures
        r == *p,
{
    PackageId { repr: p.repr.clone() }
}

/// Whether this dependency edge feeds a target of the given kind: a
/// build script sees the build dependencies, everything else the normal
/// and development ones.
pub open spec fn edge_active(e: DepEdge, kind: TargetKind) -> bool {
    match kind {
        TargetKind::CustomBuild => e.build,
        _ => e.normal || e.dev,
    }
}

/// Whether a target of this kind links its own package's library.
pub open spec fn links_self_lib(kind: TargetKind) -> bool {
    !(kind is Lib) && !(kind is CustomBuild)
}

/// The (package index, linkage name) pairs visible to one target of the
/// package, reading the dependency list from `i` on and closing with the
/// package's own library where the target links it.
pub open spec fn link_pairs(p: Package, from: usize, kind: TargetKind, i: int) -> Seq<
    (usize, Seq<char>),
>
    decreases p.deps@.len() - i when 0 <= i <= p.deps@.len()
{
    if i < p.deps@.len() {
        (if edge_active(p.deps@[i], kind) {
            seq![(p.deps@[i].to, p.deps@[i].ext_name@)]
        } else {
            Seq::empty()
        }) + link_pairs(p, from, kind, i + 1)
    } else {
        if links_self_lib(kind) && p.lib_link_name is Some {
            seq![(from, p.lib_link_name->0@)]
        } else {
            Seq::empty()
        }
    }
}

/// The views of a vector of (index, name) pairs.
pub open spec fn pair_views(v: Seq<(usize, String)>) -> Seq<(usize, Seq<char>)> {
    v.map(|i: int, e: (usize, String)| (e.0, e.1@))
}

/// The linkage-name map of one unit: which package each visible linkage
/// name resolves to.
pub fn unit_link_names(g: &ResolveGraph, from: usize, kind: TargetKind) -> (r: Vec<
    (usize, String),
>)
    requires
        (from as int) < g.packages@.len(),
    ensures
        pair_views(r@) == link_pairs(g.packages@[from as int], from, kind, 0),
{
    let ghost p = g.packages@[from as int];
    let mut r: Vec<(usize, String)> = Vec::new();
    let pkg = &g.packages[from];
    let nd = pkg.deps.len();
    let mut i: usize = 0;
    while i < nd
        invariant
            p == g.packages@[from as int],
            (from as int) < g.packages@.len(),
            pkg == &g.packages@[from as int],
            nd == p.deps@.len(),
            i <= nd,
            pair_views(r@) + link_pairs(p, from, kind, i as int) =~= link_pairs(p, from, kind, 0),
        decreases nd - i,
    {
        let ghost before = r@;
        let e = &pkg.deps[i];
        let active = match kind {
            TargetKind::CustomBuild => e.build,
            _ => e.normal || e.dev,
        };
        if active {
            r.push((e.to, e.ext_name.clone()));
            proof {
                assert(pair_views(r@) =~= pair_views(before) + seq![
                    (p.deps@[i as int].to, p.deps@[i as int].ext_name@),
                ]);
            }
        }
        proof {
            assert(pair_views(r@) + link_pairs(p, from, kind, i as int + 1) =~= link_pairs(
                p,
                from,
                kind,
                0,
            ));
        }
        i = i + 1;
    }
    let self_links = match kind {
        TargetKind::Lib => false,
        TargetKind::CustomBuild => false,
        _ => true,
    };
    let ghost before_tail = r@;
    if self_links {
        match &pkg.lib_link_name {
            Some(nm) => {
                r.push((from, nm.clone()));
                proof {
                    assert(pair_views(r@) =~= pair_views(before_tail) + seq![
                        (from, p.lib_link_name->0@),
                    ]);
                }
            },
            None => {},
        }
    }
    proof {
        assert(pair_views(r@) =~= link_pairs(p, from, kind, 0));
    }
    r
}

/// Whether the index `x` occurs in `s`, from `i` on.
pub open spec fn idx_present(s: Seq<usize>, x: usize, i: int) -> bool
    decreases s.len() - i when 0 <= i <= s.len()
{
    i < s.len() && (s[i] == x || idx_present(s, x, i + 1))
}

proof fn lemma_idx_present_skip(s: Seq<usize>, x: usize, i: int, j: int)
    requires
        0 <= i <= j <= s.len(),
        forall|m: int| i <= m < j ==> (#[trigger] s[m]) != x,
    ensures
        idx_present(s, x, i) == idx_present(s, x, j),
    decreases j - i,
{
    if i < j {
        lemma_idx_present_skip(s, x, i + 1, j);
    }
}

/// The package indexes whose linkage names the probe confirmed, reading
/// the pairs from `i` on with `acc` already collected: each package
/// appears once, however many of its edges share the name.
pub open spec fn mapped_ids(
    links: Seq<(usize, Seq<char>)>,
    used: Seq<Seq<char>>,
    i: int,
    acc: Seq<usize>,
) -> Seq<usize>
    decreases links.len() - i when 0 <= i <= links.len()
{
    if i < links.len() {
        let acc2 = if find_name_from(used, links[i].1, 0) is Some && !idx_present(
            acc,
            links[i].0,
            0,
        ) {
            acc.push(links[i].0)
        } else {
            acc
        };
        mapped_ids(links, used, i + 1, acc2)
    } else {
        acc
    }
}

/// Whether the index `x` occurs in `r`.
fn idx_contains(r: &Vec<usize>, x: usize) -> (b: bool)
    ensures
        b == idx_present(r@, x, 0),
{
    let mut j: usize = 0;
    while j < r.len()
        invariant
            j <= r@.len(),
            forall|m: int| 0 <= m < j ==> (#[trigger] r@[m]) != x,
        decreases r@.len() - j,
    {
        if r[j] == x {
            proof {
                lemma_idx_present_skip(r@, x, 0, j as int);
            }
            return true;
        }
        j = j + 1;
    }
    proof {
        lemma_idx_present_skip(r@, x, 0, r@.len() as int);
    }
    false
}

/// Maps the linkage names a probe kept back to the packages supplying
/// them, in the order of the unit's linkage-name map, each package
/// reported once even when several of its edges share a name.
pub fn map_used_names(links: &Vec<(usize, String)>, used: &Vec<String>) -> (r: Vec<usize>)
    ensures
        r@ == mapped_ids(pair_views(links@), views(used@), 0, Seq::empty()),
{
    let ghost lv = pair_views(links@);
    let ghost uv = views(used@);
    let mut r: Vec<usize> = Vec::new();
    let mut i: usize = 0;
    while i < links.len()
        invariant
            lv == pair_views(links@),
            uv == views(used@),
            i <= links@.len(),
            mapped_ids(lv, uv, 0, Seq::empty()) == mapped_ids(lv, uv, i as int, r@),
        decreases links@.len() - i,
    {
        match find_name_pos(used, links[i].1.as_str()) {
            Some(_) => {
                if !idx_contains(&r, links[i].0) {
                    r.push(links[i].0);
                }
            },
            None => {},
        }
        i = i + 1;
    }
    r
}

/// First package index at or after `i` bearing the identity `k`.
pub open spec fn pkg_idx(ps: Seq<Package>, k: Seq<char>, i: int) -> Option<int>
    decreases ps.len() - i when 0 <= i <= ps.len()
{
    if i >= ps.len() {
        None
    } else if ps[i].id.repr@ == k {
        Some(i)
    } else {
        pkg_idx(ps, k, i + 1)
    }
}

pub proof fn lemma_pkg_skip(ps: Seq<Package>, k: Seq<char>, i: int, j: int)
    requires
        0 <= i <= j <= ps.len(),
        forall|p: int| i <= p < j ==> (#[trigger] ps[p]).id.repr@ != k,
    ensures
        pkg_idx(ps, k, i) == pkg_idx(ps, k, j),
    decreases j - i,
{
    if i < j {
        lemma_pkg_skip(ps, k, i + 1, j);
    }
}

pub proof fn lemma_pkg_range(ps: Seq<Package>, k: Seq<char>, i: int)
    requires
        0 <= i <= ps.len(),
        pkg_idx(ps, k, i) is Some,
    ensures
        i <= pkg_idx(ps, k, i)->0 < ps.len(),
        ps[pkg_idx(ps, k, i)->0].id.repr@ == k,
    decreases ps.len() - i,
{
    if i < ps.len() && ps[i].id.repr@ != k {
        lemma_pkg_range(ps, k, i + 1);
    }
}

/// The package index supplying the identity, when the graph has it.
pub fn resolve_index(g: &ResolveGraph, id: &PackageId) -> (r: Option<usize>)
    ensures
        match r {
            Some(p) => pkg_idx(g.packages@, id.repr@, 0) == Some(p as int),
            None => pkg_idx(g.packages@, id.repr@, 0) is None,
        },
{
    let mut i: usize = 0;
    while i < g.packages.len()
        invariant
            i <= g.packages@.len(),
            forall|p: int| 0 <= p < i ==> (#[trigger] g.packages@[p]).id.repr@ != id.repr@,
        decreases g.packages@.len() - i,
    {
        if str_eq(g.packages[i].id.repr.as_str(), id.repr.as_str()) {
            proof {
                lemma_pkg_skip(g.packages@, id.repr@, 0, i as int);
            }
            return Some(i);
        }
        i = i + 1;
    }
    proof {
        lemma_pkg_skip(g.packages@, id.repr@, 0, g.packages@.len() as int);
    }
    None
}

/// The graph indexes of the identities that resolve, from `i` on.
pub open spec fn resolve_list(ps: Seq<Package>, ids: Seq<PackageId>, i: int) -> Seq<usize>
    decreases ids.len() - i when 0 <= i <= ids.len()
{
    if i < ids.len() {
        (match pkg_idx(ps, ids[i].repr@, 0) {
            Some(x) => seq![x as usize],
            None => Seq::empty(),
        }) + resolve_list(ps, ids, i + 1)
    } else {
        Seq::empty()
    }
}

pub proof fn lemma_resolve_list_bounds(ps: Seq<Package>, ids: Seq<PackageId>, i: int)
    requires
        0 <= i <= ids.len(),
    ensures
        forall|q: int|
            0 <= q < resolve_list(ps, ids, i).len() ==> (#[trigger] resolve_list(ps, ids, i)[
                q
            ] as int) < ps.len(),
    decreases ids.len() - i,
{
    if i < ids.len() {
        lemma_resolve_list_bounds(ps, ids, i + 1);
        let h: Seq<usize> = match pkg_idx(ps, ids[i].repr@, 0) {
            Some(x) => seq![x as usize],
            None => Seq::empty(),
        };
        if pkg_idx(ps, ids[i].repr@, 0) is Some {
            lemma_pkg_range(ps, ids[i].repr@, 0);
        }
        assert(resolve_list(ps, ids, i) == h + resolve_list(ps, ids, i + 1));
        assert forall|q: int| 0 <= q < resolve_list(ps, ids, i).len() implies (resolve_list(
            ps,
            ids,
            i,
        )[q] as int) < ps.len() by {
            if q < h.len() {
                assert(resolve_list(ps, ids, i)[q] == h[q]);
            } else {
                assert(resolve_list(ps, ids, i)[q] == resolve_list(ps, ids, i + 1)[q - h.len()]);
            }
        }
    }
}

/// Resolves a list of identities to graph indexes, dropping the ones the
/// graph does not carry.
pub fn resolve_ids(g: &ResolveGraph, ids: &Vec<PackageId>) -> (r: Vec<usize>)
    ensures
        r@ == resolve_list(g.packages@, ids@, 0),
{
    let ghost ps = g.packages@;
    let mut r: Vec<usize> = Vec::new();
    let mut i: usize = 0;
    while i < ids.len()
        invariant
            ps == g.packages@,
            i <= ids@.len(),
            r@ + resolve_list(ps, ids@, i as int) =~= resolve_list(ps, ids@, 0),
        decreases ids@.len() - i,
    {
        let ghost before = r@;
        match resolve_index(g, &ids[i]) {
            Some(x) => {
                r.push(x);
                proof {
                    assert(r@ =~= before + seq![x]);
                }
            },
            None => {},
        }
        proof {
            assert(r@ + resolve_list(ps, ids@, i as int + 1) =~= resolve_list(ps, ids@, 0));
        }
        i = i + 1;
    }
    proof {
        assert(r@ =~= r@ + resolve_list(ps, ids@, ids@.len() as int));
    }
    r
}

/// The identities one cache slot holds, empty when nothing is stored.
pub open spec fn opt_ids(o: Option<Vec<PackageId>>) -> Seq<PackageId> {
    match o {
        Some(v) => v@,
        None => Seq::empty(),
    }
}

/// The walker's successors of package `i`: the packages its recorded
/// library and build-script probes confirmed. A package with no recorded
/// result contributes no further edges.
pub open spec fn walk_succ(
    ps: Seq<Package>,
    entries: Seq<(PackageId, CacheUsedPackages)>,
    i: int,
) -> Seq<usize> {
    match pid_lookup(entries, ps[i].id.repr@) {
        Some(e) => resolve_list(ps, opt_ids(e.lib), 0) + resolve_list(
            ps,
            opt_ids(e.custom_build),
            0,
        ),
        None => Seq::empty(),
    }
}

/// The walker's whole adjacency.
pub open spec fn walk_adj_spec(
    ps: Seq<Package>,
    entries: Seq<(PackageId, CacheUsedPackages)>,
) -> Seq<Seq<usize>> {
    Seq::new(ps.len(), |i: int| walk_succ(ps, entries, i))
}

/// Builds the walker's adjacency lists.
pub fn build_walk_adj(g: &ResolveGraph, entries: &Vec<(PackageId, CacheUsedPackages)>) -> (r: Vec<
    Vec<usize>,
>)
    ensures
        r@.len() == g.packages@.len(),
        adj_views(r@) == walk_adj_spec(g.packages@, entries@),
        forall|a: int, k: int|
            #![trigger r@[a]@[k]]
            0 <= a < r@.len() && 0 <= k < r@[a]@.len() ==> (r@[a]@[k] as int) < g.packages@.len(),
{
    let ghost ps = g.packages@;
    let n = g.packages.len();
    let mut r: Vec<Vec<usize>> = Vec::new();
    let mut i: usize = 0;
    while i < n
        invariant
            ps == g.packages@,
            n == ps.len(),
            i <= n,
            r@.len() == i,
            forall|a: int| 0 <= a < i ==> (#[trigger] r@[a])@ == walk_succ(ps, entries@, a),
            forall|a: int, k: int|
                #![trigger r@[a]@[k]]
                0 <= a < i && 0 <= k < r@[a]@.len() ==> (r@[a]@[k] as int) < ps.len(),
        decreases n - i,
    {
        let mut row: Vec<usize> = Vec::new();
        match pid_get(entries, &g.packages[i].id) {
            Some(e) => {
                let mut lib_part = match &e.lib {
                    Some(l) => resolve_ids(g, l),
                    None => Vec::new(),
                };
                let mut cb_part = match &e.custom_build {
                    Some(l) => resolve_ids(g, l),
                    None => Vec::new(),
                };
                proof {
                    lemma_resolve_list_bounds(ps, opt_ids(e.lib), 0);
                    lemma_resolve_list_bounds(ps, opt_ids(e.custom_build), 0);
                    assert(resolve_list(ps, Seq::<PackageId>::empty(), 0) =~= Seq::<
                        usize,
                    >::empty());
                }
                row.append(&mut lib_part);
                row.append(&mut cb_part);
                proof {
                    assert(row@ =~= walk_succ(ps, entries@, i as int));
                }
            },
            None => {
                proof {
                    assert(row@ =~= walk_succ(ps, entries@, i as int));
                }
            },
        }
        r.push(row);
        i = i + 1;
    }
    proof {
        assert(adj_views(r@) =~= walk_adj_spec(ps, entries@));
    }
    r
}

/// The non-development successors of a package: the edges declared as
/// normal or build dependencies, from `i` on.
pub open spec fn nondev_succ(p: Package, i: int) -> Seq<usize>
    decreases p.deps@.len() - i when 0 <= i <= p.deps@.len()
{
    if i < p.deps@.len() {
        (if p.deps@[i].normal || p.deps@[i].build {
            seq![p.deps@[i].to]
        } else {
            Seq::empty()
        }) + nondev_succ(p, i + 1)
    } else {
        Seq::empty()
    }
}

/// The non-development adjacency of the whole graph.
pub open spec fn nondev_adj_spec(ps: Seq<Package>) -> Seq<Seq<usize>> {
    Seq::new(ps.len(), |i: int| nondev_succ(ps[i], 0))
}

proof fn lemma_nondev_succ_bounds(ps: Seq<Package>, p: Package, i: int)
    requires
        0 <= i <= p.deps@.len(),
        forall|k: int| 0 <= k < p.deps@.len() ==> ((#[trigger] p.deps@[k]).to as int) < ps.len(),
    ensures
        forall|q: int|
            0 <= q < nondev_succ(p, i).len() ==> ((#[trigger] nondev_succ(p, i)[q]) as int)
                < ps.len(),
    decreases p.deps@.len() - i,
{
    if i < p.deps@.len() {
        lemma_nondev_succ_bounds(ps, p, i + 1);
        let h: Seq<usize> = if p.deps@[i].normal || p.deps@[i].build {
            seq![p.deps@[i].to]
        } else {
            Seq::empty()
        };
        assert(nondev_succ(p, i) == h + nondev_succ(p, i + 1));
        assert forall|q: int| 0 <= q < nondev_succ(p, i).len() implies ((nondev_succ(p, i)[
        q]) as int) < ps.len() by {
            if q < h.len() {
                assert(nondev_succ(p, i)[q] == h[q]);
            } else {
                assert(nondev_succ(p, i)[q] == nondev_succ(p, i + 1)[q - h.len()]);
            }
        }
    }
}

/// Builds the non-development adjacency lists.
pub fn build_nondev_adj(g: &ResolveGraph) -> (r: Vec<Vec<usize>>)
    requires
        g.wf(),
    ensures
        r@.len() == g.packages@.len(),
        adj_views(r@) == nondev_adj_spec(g.packages@),
        forall|a: int, k: int|
            #![trigger r@[a]@[k]]
            0 <= a < r@.len() && 0 <= k < r@[a]@.len() ==> (r@[a]@[k] as int) < g.packages@.len(),
{
    let ghost ps = g.packages@;
    let n = g.packages.len();
    let mut r: Vec<Vec<usize>> = Vec::new();
    let mut i: usize = 0;
    while i < n
        invariant
            g.wf(),
            ps == g.packages@,
            n == ps.len(),
            i <= n,
            r@.len() == i,
            forall|a: int| 0 <= a < i ==> (#[trigger] r@[a])@ == nondev_succ(ps[a], 0),
            forall|a: int, k: int|
                #![trigger r@[a]@[k]]
                0 <= a < i && 0 <= k < r@[a]@.len() ==> (r@[a]@[k] as int) < ps.len(),
        decreases n - i,
    {
        let ghost p = ps[i as int];
        let mut row: Vec<usize> = Vec::new();
        let pkg = &g.packages[i];
        let nd = pkg.deps.len();
        let mut k: usize = 0;
        while k < nd
            invariant
                p == ps[i as int],
                (i as int) < ps.len(),
                pkg == &ps[i as int],
                nd == p.deps@.len(),
                k <= nd,
                row@ + nondev_succ(p, k as int) =~= nondev_succ(p, 0),
            decreases nd - k,
        {
            let ghost before = row@;
            let e = &pkg.deps[k];
            if e.normal || e.build {
                row.push(e.to);
                proof {
                    assert(row@ =~= before + seq![p.deps@[k as int].to]);
                }
            }
            proof {
                assert(row@ + nondev_succ(p, k as int + 1) =~= nondev_succ(p, 0));
            }
            k = k + 1;
        }
        proof {
            assert(row@ =~= nondev_succ(p, 0));
            lemma_nondev_succ_bounds(ps, p, 0);
        }
        r.push(row);
        i = i + 1;
    }
    proof {
        assert(adj_views(r@) =~= nondev_adj_spec(ps));
    }
    r
}

/// Whether the identity `k` occurs among `ids`, from `i` on.
pub open spec fn id_present(ids: Seq<PackageId>, k: Seq<char>, i: int) -> bool
    decreases ids.len() - i when 0 <= i <= ids.len()
{
    if i >= ids.len() {
        false
    } else {
        ids[i].repr@ == k || id_present(ids, k, i + 1)
    }
}

proof fn lemma_id_present_skip(ids: Seq<PackageId>, k: Seq<char>, i: int, j: int)
    requires
        0 <= i <= j <= ids.len(),
        forall|p: int| i <= p < j ==> (#[trigger] ids[p]).repr@ != k,
    ensures
        id_present(ids, k, i) == id_present(ids, k, j),
    decreases j - i,
{
    if i < j {
        lemma_id_present_skip(ids, k, i + 1, j);
    }
}

/// Whether the identity occurs in the list.
pub fn id_contains(ids: &Vec<PackageId>, k: &PackageId) -> (r: bool)
    ensures
        r == id_present(ids@, k.repr@, 0),
{
    let mut i: usize = 0;
    while i < ids.len()
        invariant
            i <= ids@.len(),
            forall|p: int| 0 <= p < i ==> (#[trigger] ids@[p]).repr@ != k.repr@,
        decreases ids@.len() - i,
    {
        if str_eq(ids[i].repr.as_str(), k.repr.as_str()) {
            proof {
                lemma_id_present_skip(ids@, k.repr@, 0, i as int);
            }
            return true;
        }
        i = i + 1;
    }
    proof {
        lemma_id_present_skip(ids@, k.repr@, 0, ids@.len() as int);
    }
    false
}

/// Whether walking this target kind skips the development-dependency
/// pruning: tests, examples and build scripts keep every edge relevant.
pub open spec fn skips_dev_pruning(kind: TargetKind) -> bool {
    kind is Test || kind is ExampleLib || kind is ExampleBin || kind is CustomBuild
}

/// The walker's start set: the root package itself, plus what the root
/// unit's recorded probe confirmed.
pub open spec fn start_spec(
    ps: Seq<Package>,
    entries: Seq<(PackageId, CacheUsedPackages)>,
    root: usize,
    kind: TargetKind,
    name: Seq<char>,
) -> Seq<usize> {
    seq![root] + (match pid_lookup(entries, ps[root as int].id.repr@) {
        Some(e) => match e.spec_get(kind, name) {
            Some(u) => resolve_list(ps, u@, 0),
            None => Seq::empty(),
        },
        None => Seq::empty(),
    })
}

/// Whether package `j` is reached by the walker: member of the least
/// set containing the start set and closed under the recorded probes.
pub open spec fn reached(
    ps: Seq<Package>,
    entries: Seq<(PackageId, CacheUsedPackages)>,
    root: usize,
    kind: TargetKind,
    name: Seq<char>,
    j: int,
) -> bool {
    in_every_closure(j, walk_adj_spec(ps, entries), start_spec(ps, entries, root, kind, name))
}

/// Every resolved index comes from some identity in the list.
proof fn lemma_resolve_list_elems(ps: Seq<Package>, ids: Seq<PackageId>, i: int)
    requires
        0 <= i <= ids.len(),
        ps.len() <= usize::MAX,
    ensures
        forall|q: int|
            #![trigger resolve_list(ps, ids, i)[q]]
            0 <= q < resolve_list(ps, ids, i).len() ==> exists|m: int|
                i <= m < ids.len() && pkg_idx(ps, (#[trigger] ids[m]).repr@, 0) == Some(
                    resolve_list(ps, ids, i)[q] as int,
                ),
    decreases ids.len() - i,
{
    if i < ids.len() {
        lemma_resolve_list_elems(ps, ids, i + 1);
        let h: Seq<usize> = match pkg_idx(ps, ids[i].repr@, 0) {
            Some(x) => seq![x as usize],
            None => Seq::empty(),
        };
        if pkg_idx(ps, ids[i].repr@, 0) is Some {
            lemma_pkg_range(ps, ids[i].repr@, 0);
        }
        assert(resolve_list(ps, ids, i) == h + resolve_list(ps, ids, i + 1));
        assert forall|q: int|
            #![trigger resolve_list(ps, ids, i)[q]]
            0 <= q < resolve_list(ps, ids, i).len() implies exists|m: int|
            i <= m < ids.len() && pkg_idx(ps, (#[trigger] ids[m]).repr@, 0) == Some(
                resolve_list(ps, ids, i)[q] as int,
            ) by {
            if q < h.len() {
                assert(resolve_list(ps, ids, i)[q] == h[q]);
                assert(pkg_idx(ps, (#[trigger] ids[i]).repr@, 0) == Some(
                    resolve_list(ps, ids, i)[q] as int,
                ));
            } else {
                assert(resolve_list(ps, ids, i)[q] == resolve_list(ps, ids, i + 1)[q - h.len()]);
                let m = choose|m: int|
                    i + 1 <= m < ids.len() && pkg_idx(ps, (#[trigger] ids[m]).repr@, 0) == Some(
                        resolve_list(ps, ids, i + 1)[q - h.len()] as int,
                    );
                assert(pkg_idx(ps, (#[trigger] ids[m]).repr@, 0) == Some(
                    resolve_list(ps, ids, i)[q] as int,
                ));
            }
        }
    }
}

/// An identity list that does not hold `d`'s identity never resolves to
/// `d`, as long as identities are pairwise distinct.
proof fn lemma_absent_not_resolved(ps: Seq<Package>, ids: Seq<PackageId>, d: int)
    requires
        0 <= d < ps.len(),
        ps.len() <= usize::MAX,
        forall|i: int, j: int|
            0 <= i < j < ps.len() ==> (#[trigger] ps[i]).id.repr@ != (#[trigger] ps[j]).id.repr@,
        !id_present(ids, ps[d].id.repr@, 0),
    ensures
        forall|q: int|
            #![trigger resolve_list(ps, ids, 0)[q]]
            0 <= q < resolve_list(ps, ids, 0).len() ==> (resolve_list(ps, ids, 0)[q] as int) != d,
{
    lemma_resolve_list_elems(ps, ids, 0);
    crate::cache::lemma_id_present_exists(ids, ps[d].id.repr@, 0);
    assert forall|q: int| 0 <= q < resolve_list(ps, ids, 0).len() implies ((#[trigger] resolve_list(
        ps,
        ids,
        0,
    )[q]) as int) != d by {
        if (resolve_list(ps, ids, 0)[q] as int) == d {
            let m = choose|m: int|
                0 <= m < ids.len() && pkg_idx(ps, (#[trigger] ids[m]).repr@, 0) == Some(
                    resolve_list(ps, ids, 0)[q] as int,
                );
            lemma_pkg_range(ps, ids[m].repr@, 0);
            assert(ps[d].id.repr@ == ids[m].repr@);
            assert((#[trigger] ids[m]).repr@ == ps[d].id.repr@);
            assert(false);
        }
    }
}

/// Transitive-closure soundness for an unconfirmed package: with
/// pairwise distinct identities, a package other than the root whose
/// identity stands in no recorded library or build-script result — nor
/// in the root unit's own recorded result — is not reached by the
/// walker, and `find`'s classification then lists it among the unused.
pub proof fn lemma_unconfirmed_is_unreached(
    ps: Seq<Package>,
    entries: Seq<(PackageId, CacheUsedPackages)>,
    root: usize,
    kind: TargetKind,
    name: Seq<char>,
    d: int,
)
    requires
        0 <= d < ps.len(),
        ps.len() <= usize::MAX,
        (root as int) < ps.len(),
        d != root as int,
        forall|i: int, j: int|
            0 <= i < j < ps.len() ==> (#[trigger] ps[i]).id.repr@ != (#[trigger] ps[j]).id.repr@,
        forall|q: int|
            0 <= q < entries.len() ==> !id_present(
                opt_ids((#[trigger] entries[q]).1.lib),
                ps[d].id.repr@,
                0,
            ) && !id_present(opt_ids(entries[q].1.custom_build), ps[d].id.repr@, 0),
        match pid_lookup(entries, ps[root as int].id.repr@) {
            Some(e) => match e.spec_get(kind, name) {
                Some(u) => !id_present(u@, ps[d].id.repr@, 0),
                None => true,
            },
            None => true,
        },
    ensures
        !reached(ps, entries, root, kind, name, d),
{
    let adj = walk_adj_spec(ps, entries);
    let start = start_spec(ps, entries, root, kind, name);
    let sv = Set::new(|x: int| 0 <= x < ps.len() && x != d);
    assert forall|k: int| 0 <= k < start.len() implies #[trigger] sv.contains(
        start[k] as int,
    ) by {
        if k == 0 {
            assert(start[0] == root);
        } else {
            match pid_lookup(entries, ps[root as int].id.repr@) {
                Some(e) => {
                    match e.spec_get(kind, name) {
                        Some(u) => {
                            let tail = resolve_list(ps, u@, 0);
                            assert(start[k] == tail[k - 1]);
                            lemma_resolve_list_bounds(ps, u@, 0);
                            lemma_absent_not_resolved(ps, u@, d);
                            assert((tail[k - 1] as int) < ps.len());
                            assert((tail[k - 1] as int) != d);
                        },
                        None => {
                            assert(false);
                        },
                    }
                },
                None => {
                    assert(false);
                },
            }
        }
    }
    assert(covers_start(sv, start));
    assert forall|a: int, kk: int|
        #![trigger sv.contains(a), adj[a][kk]]
        0 <= a < adj.len() && sv.contains(a) && 0 <= kk < adj[a].len() implies sv.contains(
        adj[a][kk] as int,
    ) by {
        assert(adj[a] == walk_succ(ps, entries, a));
        match pid_lookup(entries, ps[a].id.repr@) {
            Some(e) => {
                crate::cache::lemma_pid_range(entries, ps[a].id.repr@, 0);
                let i = crate::cache::pid_idx(entries, ps[a].id.repr@, 0)->0;
                assert(e == (#[trigger] entries[i]).1);
                let l1 = resolve_list(ps, opt_ids(e.lib), 0);
                let l2 = resolve_list(ps, opt_ids(e.custom_build), 0);
                assert(adj[a] == l1 + l2);
                lemma_resolve_list_bounds(ps, opt_ids(e.lib), 0);
                lemma_resolve_list_bounds(ps, opt_ids(e.custom_build), 0);
                lemma_absent_not_resolved(ps, opt_ids(e.lib), d);
                lemma_absent_not_resolved(ps, opt_ids(e.custom_build), d);
                if kk < l1.len() {
                    assert(adj[a][kk] == l1[kk]);
                } else {
                    assert(adj[a][kk] == l2[kk - l1.len()]);
                }
            },
            None => {
                assert(adj[a].len() == 0);
            },
        }
    }
    assert(closed_under(sv, adj));
    if reached(ps, entries, root, kind, name, d) {
        assert(sv.contains(d));
        assert(false);
    }
}

/// Whether package `j` sits outside the non-development reach of the
/// root, under a target kind that prunes development edges.
pub open spec fn unnecessary_dev(ps: Seq<Package>, root: usize, kind: TargetKind, j: int) -> bool {
    if skips_dev_pruning(kind) {
        false
    } else {
        !in_every_closure(j, nondev_adj_spec(ps), seq![root])
    }
}

/// The identities at marked positions, in table order, from `i` on.
pub open spec fn marked_ids(ps: Seq<Package>, marks: Seq<bool>, i: int) -> Seq<PackageId>
    decreases ps.len() - i when 0 <= i <= ps.len()
{
    if i < ps.len() {
        (if marks[i] {
            seq![ps[i].id]
        } else {
            Seq::empty()
        }) + marked_ids(ps, marks, i + 1)
    } else {
        Seq::empty()
    }
}

/// Collects the identities at marked positions.
pub fn collect_marked(g: &ResolveGraph, marks: &Vec<bool>) -> (r: Vec<PackageId>)
    requires
        marks@.len() == g.packages@.len(),
    ensures
        r@ == marked_ids(g.packages@, marks@, 0),
{
    let ghost ps = g.packages@;
    let mut r: Vec<PackageId> = Vec::new();
    let mut i: usize = 0;
    while i < g.packages.len()
        invariant
            ps == g.packages@,
            marks@.len() == ps.len(),
            i <= ps.len(),
            r@ + marked_ids(ps, marks@, i as int) =~= marked_ids(ps, marks@, 0),
        decreases ps.len() - i,
    {
        let ghost before = r@;
        if marks[i] {
            let id = clone_pid(&g.packages[i].id);
            r.push(id);
            proof {
                assert(r@ =~= before + seq![ps[i as int].id]);
            }
        }
        proof {
            assert(r@ + marked_ids(ps, marks@, i as int + 1) =~= marked_ids(ps, marks@, 0));
        }
        i = i + 1;
    }
    proof {
        assert(r@ =~= r@ + marked_ids(ps, marks@, ps.len() as int));
    }
    r
}

/// List actually used crates: the identities the walker reached, and the
/// rest split into the never-relevant and the possibly obsolete.
pub struct LinkedPackages {
    pub used: Vec<PackageId>,
    pub unused: LinkedPackagesUnused,
}

/// The unused identities: never part of the active target's real
/// dependency subgraph at all, or compiled yet never confirmed needed.
pub struct LinkedPackagesUnused {
    pub trivial: Vec<PackageId>,
    pub maybe_obsolete: Vec<PackageId>,
}

/// The trivially-unused identities: unreached, and either never seen
/// compiling this run or pruned with the development edges.
pub open spec fn trivial_ids(
    ps: Seq<Package>,
    marks: Seq<bool>,
    unnecessary: Seq<bool>,
    compiled: Seq<PackageId>,
    i: int,
) -> Seq<PackageId>
    decreases ps.len() - i when 0 <= i <= ps.len()
{
    if i < ps.len() {
        (if !marks[i] && (!id_present(compiled, ps[i].id.repr@, 0) || unnecessary[i]) {
            seq![ps[i].id]
        } else {
            Seq::empty()
        }) + trivial_ids(ps, marks, unnecessary, compiled, i + 1)
    } else {
        Seq::empty()
    }
}

/// The possibly obsolete identities: unreached, compiled this run, and
/// not pruned with the development edges.
pub open spec fn maybe_obsolete_ids(
    ps: Seq<Package>,
    marks: Seq<bool>,
    unnecessary: Seq<bool>,
    compiled: Seq<PackageId>,
    i: int,
) -> Seq<PackageId>
    decreases ps.len() - i when 0 <= i <= ps.len()
{
    if i < ps.len() {
        (if !marks[i] && id_present(compiled, ps[i].id.repr@, 0) && !unnecessary[i] {
            seq![ps[i].id]
        } else {
            Seq::empty()
        }) + maybe_obsolete_ids(ps, marks, unnecessary, compiled, i + 1)
    } else {
        Seq::empty()
    }
}

impl LinkedPackages {
    /// Walks the graph from the root unit over the recorded usage
    /// results and assembles the used / unused report: `used` is the
    /// sorted identity set of exactly the reached packages; the rest are
    /// trivially unused when never compiled this run or pruned with the
    /// development edges, and possibly obsolete otherwise — each list a
    /// sorted, duplicate-free identity set, for stable output.
    pub fn find(
        g: &ResolveGraph,
        root: usize,
        target: &BuildTarget,
        entries: &Vec<(PackageId, CacheUsedPackages)>,
        compiled: &Vec<PackageId>,
    ) -> (r: LinkedPackages)
        requires
            g.wf(),
            (root as int) < g.packages@.len(),
        ensures
            ({
                let ps = g.packages@;
                let rm = Seq::new(
                    ps.len(),
                    |j: int| reached(ps, entries@, root, target.kind, target.name@, j),
                );
                let un = Seq::new(
                    ps.len(),
                    |j: int| unnecessary_dev(ps, root, target.kind, j),
                );
                &&& id_set_of(r.used@, marked_ids(ps, rm, 0))
                &&& id_set_of(r.unused.trivial@, trivial_ids(ps, rm, un, compiled@, 0))
                &&& id_set_of(r.unused.maybe_obsolete@, maybe_obsolete_ids(ps, rm, un, compiled@, 0))
            }),
    {
        let ghost ps = g.packages@;
        let n = g.packages.len();
        let adj = build_walk_adj(g, entries);
        let mut start: Vec<usize> = Vec::new();
        start.push(root);
        match pid_get(entries, &g.packages[root].id) {
            Some(e) => {
                let t = BuildTarget { kind: target.kind, name: target.name.clone() };
                match e.get(&t) {
                    Some(u) => {
                        let mut more = resolve_ids(g, u);
                        proof {
                            lemma_resolve_list_bounds(ps, u@, 0);
                        }
                        start.append(&mut more);
                    },
                    None => {},
                }
            },
            None => {},
        }
        proof {
            assert(start@ =~= start_spec(ps, entries@, root, target.kind, target.name@));
        }
        let marks = closure(n, &adj, &start);
        let ghost rm = Seq::new(
            ps.len(),
            |j: int| reached(ps, entries@, root, target.kind, target.name@, j),
        );
        proof {
            assert(marks@ =~= rm);
        }
        let skip_dev = match target.kind {
            TargetKind::Test => true,
            TargetKind::ExampleLib => true,
            TargetKind::ExampleBin => true,
            TargetKind::CustomBuild => true,
            _ => false,
        };
        let mut unnecessary: Vec<bool> = Vec::new();
        if skip_dev {
            let mut i: usize = 0;
            while i < n
                invariant
                    n == ps.len(),
                    i <= n,
                    unnecessary@.len() == i,
                    forall|j: int| 0 <= j < i ==> !(#[trigger] unnecessary@[j]),
                decreases n - i,
            {
                unnecessary.push(false);
                i = i + 1;
            }
        } else {
            let ndadj = build_nondev_adj(g);
            let mut ndstart: Vec<usize> = Vec::new();
            ndstart.push(root);
            let ndmarks = closure(n, &ndadj, &ndstart);
            proof {
                assert(ndstart@ =~= seq![root]);
            }
            let mut i: usize = 0;
            while i < n
                invariant
                    n == ps.len(),
                    g.wf(),
                    i <= n,
                    ndmarks@.len() == n,
                    ndstart@ == seq![root],
                    forall|j: int|
                        0 <= j < n ==> ((#[trigger] ndmarks@[j]) <==> in_every_closure(
                            j,
                            nondev_adj_spec(ps),
                            seq![root],
                        )),
                    unnecessary@.len() == i,
                    forall|j: int|
                        0 <= j < i ==> ((#[trigger] unnecessary@[j]) == !ndmarks@[j]),
                decreases n - i,
            {
                let x = ndmarks[i];
                unnecessary.push(!x);
                i = i + 1;
            }
        }
        let ghost un = Seq::new(ps.len(), |j: int| unnecessary_dev(ps, root, target.kind, j));
        proof {
            assert(unnecessary@ =~= un);
        }
        let used = collect_marked(g, &marks);
        let mut trivial: Vec<PackageId> = Vec::new();
        let mut maybe_obsolete: Vec<PackageId> = Vec::new();
        let mut i: usize = 0;
        while i < n
            invariant
                ps == g.packages@,
                n == ps.len(),
                i <= n,
                marks@ == rm,
                unnecessary@ == un,
                rm.len() == n,
                un.len() == n,
                trivial@ + trivial_ids(ps, rm, un, compiled@, i as int) =~= trivial_ids(
                    ps,
                    rm,
                    un,
                    compiled@,
                    0,
                ),
                maybe_obsolete@ + maybe_obsolete_ids(ps, rm, un, compiled@, i as int)
                    =~= maybe_obsolete_ids(ps, rm, un, compiled@, 0),
            decreases n - i,
        {
            let ghost tb = trivial@;
            let ghost mb = maybe_obsolete@;
            if !marks[i] {
                let comp = id_contains(compiled, &g.packages[i].id);
                if !comp || unnecessary[i] {
                    let id = clone_pid(&g.packages[i].id);
                    trivial.push(id);
                    proof {
                        assert(trivial@ =~= tb + seq![ps[i as int].id]);
                    }
                } else {
                    let id = clone_pid(&g.packages[i].id);
                    maybe_obsolete.push(id);
                    proof {
                        assert(maybe_obsolete@ =~= mb + seq![ps[i as int].id]);
                    }
                }
            }
            proof {
                assert(trivial@ + trivial_ids(ps, rm, un, compiled@, i as int + 1) =~= trivial_ids(
                    ps,
                    rm,
                    un,
                    compiled@,
                    0,
                ));
                assert(maybe_obsolete@ + maybe_obsolete_ids(ps, rm, un, compiled@, i as int + 1)
                    =~= maybe_obsolete_ids(ps, rm, un, compiled@, 0));
            }
            i = i + 1;
        }
        proof {
            assert(trivial@ =~= trivial@ + trivial_ids(ps, rm, un, compiled@, n as int));
            assert(maybe_obsolete@ =~= maybe_obsolete@ + maybe_obsolete_ids(
                ps,
                rm,
                un,
                compiled@,
                n as int,
            ));
        }
        let used = sorted_id_set(&used);
        let trivial = sorted_id_set(&trivial);
        let maybe_obsolete = sorted_id_set(&maybe_obsolete);
        LinkedPackages { used, unused: LinkedPackagesUnused { trivial, maybe_obsolete } }
    }
}

} // verus!
