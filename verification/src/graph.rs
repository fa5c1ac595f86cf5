//! The resolved dependency graph as this crate models it, and the
//! reachability closure the walker is built on.
use vstd::prelude::*;
use crate::PackageId;

verus! {

/// What a build target is.
#[derive(Clone, Copy, PartialEq, Eq, Structural)]
pub enum TargetKind {
    Lib,
    Bin,
    Test,
    Bench,
    ExampleLib,
    ExampleBin,
    CustomBuild,
}

/// One build target of a package.
pub struct BuildTarget {
    pub kind: TargetKind,
    pub name: String,
}

/// One resolved dependency edge, with the linkage name under which the
/// target package's library is visible to the source package, and the
/// dependency kinds under which the edge was declared.
pub struct DepEdge {
    /// Index of the target package in the graph's package table.
    pub to: usize,
    /// Declared as a normal dependency.
    pub normal: bool,
    /// Declared as a development dependency.
    pub dev: bool,
    /// Declared as a build-script dependency.
    pub build: bool,
    /// The linkage name of the target's library as seen from the source.
    pub ext_name: String,
}

/// One package of the resolved graph.
pub struct Package {
    pub id: PackageId,
    pub targets: Vec<BuildTarget>,
    pub deps: Vec<DepEdge>,
    /// The linkage name of this package's own library, for the non-library
    /// targets that link against it.
    pub lib_link_name: Option<String>,
}

/// The resolved dependency graph: packages indexed by position.
pub struct ResolveGraph {
    pub packages: Vec<Package>,
}

impl ResolveGraph {
    /// Every edge points into the package table.
    pub open spec fn wf(&self) -> bool {
        forall|a: int, k: int|
            0 <= a < self.packages@.len() && 0 <= k < self.packages@[a].deps@.len() ==> ((
            #[trigger] self.packages@[a].deps@[k]).to as int) < self.packages@.len()
    }
}

/// A set covering every start vertex.
pub open spec fn covers_start(s: Set<int>, start: Seq<usize>) -> bool {
    forall|k: int| 0 <= k < start.len() ==> #[trigger] s.contains(start[k] as int)
}

/// A set closed under the adjacency lists.
pub open spec fn closed_under(s: Set<int>, adj: Seq<Seq<usize>>) -> bool {
    forall|a: int, k: int|
        #![trigger s.contains(a), adj[a][k]]
        0 <= a < adj.len() && s.contains(a) && 0 <= k < adj[a].len() ==> s.contains(
            adj[a][k] as int,
        )
}

/// Membership in every covering closed set: the least-fixpoint
/// characterization of reachability.
pub open spec fn in_every_closure(j: int, adj: Seq<Seq<usize>>, start: Seq<usize>) -> bool {
    forall|s: Set<int>|
        #![trigger covers_start(s, start), closed_under(s, adj)]
        covers_start(s, start) && closed_under(s, adj) ==> s.contains(j)
}

/// The adjacency lists of an adjacency vector, as sequences.
pub open spec fn adj_views(adj: Seq<Vec<usize>>) -> Seq<Seq<usize>> {
    adj.map(|i: int, v: Vec<usize>| v@)
}

/// The number of cleared entries from `i` on.
pub open spec fn count_false(s: Seq<bool>, i: int) -> int
    decreases s.len() - i when 0 <= i <= s.len()
{
    if i >= s.len() {
        0
    } else {
        (if !s[i] {
            1int
        } else {
            0int
        }) + count_false(s, i + 1)
    }
}

pub proof fn lemma_count_false_nonneg(s: Seq<bool>, i: int)
    requires
        0 <= i <= s.len(),
    ensures
        count_false(s, i) >= 0,
    decreases s.len() - i,
{
    if i < s.len() {
        lemma_count_false_nonneg(s, i + 1);
    }
}

/// Setting a cleared entry lowers the cleared count by one.
pub proof fn lemma_count_false_update(s: Seq<bool>, j: int, i: int)
    requires
        0 <= i <= s.len(),
        0 <= j < s.len(),
        !s[j],
    ensures
        i <= j ==> count_false(s.update(j, true), i) == count_false(s, i) - 1,
        j < i ==> count_false(s.update(j, true), i) == count_false(s, i),
    decreases s.len() - i,
{
    if i < s.len() {
        lemma_count_false_update(s, j, i + 1);
    }
}

/// The reachability closure: marks exactly the vertices reachable from
/// `start` along `adj`, i.e. the least set that covers `start` and is
/// closed under the edges.
pub fn closure(n: usize, adj: &Vec<Vec<usize>>, start: &Vec<usize>) -> (r: Vec<bool>)
    requires
        adj@.len() == n,
        forall|a: int, k: int|
            #![trigger adj@[a]@[k]]
            0 <= a < n && 0 <= k < adj@[a]@.len() ==> (adj@[a]@[k] as int) < n,
        forall|k: int| 0 <= k < start@.len() ==> (#[trigger] start@[k] as int) < n,
    ensures
        r@.len() == n,
        forall|k: int| 0 <= k < start@.len() ==> r@[#[trigger] start@[k] as int],
        forall|a: int, k: int|
            #![trigger adj@[a]@[k]]
            0 <= a < n && r@[a] && 0 <= k < adj@[a]@.len() ==> r@[adj@[a]@[k] as int],
        forall|j: int|
            0 <= j < n ==> ((#[trigger] r@[j]) <==> in_every_closure(j, adj_views(adj@), start@)),
{
    let ghost adjs = adj_views(adj@);
    proof {
        assert(forall|a: int| 0 <= a < n ==> #[trigger] adjs[a] == adj@[a]@);
    }
    let mut visited: Vec<bool> = vec![false; n];
    let mut queue: Vec<usize> = Vec::new();
    let mut s: usize = 0;
    while s < start.len()
        invariant
            visited@.len() == n,
            adj@.len() == n,
            adjs == adj_views(adj@),
            forall|a: int| 0 <= a < n ==> #[trigger] adjs[a] == adj@[a]@,
            forall|a: int, k: int|
                #![trigger adj@[a]@[k]]
                0 <= a < n && 0 <= k < adj@[a]@.len() ==> (adj@[a]@[k] as int) < n,
            forall|k: int| 0 <= k < start@.len() ==> (#[trigger] start@[k] as int) < n,
            s <= start@.len(),
            forall|q: int|
                0 <= q < queue@.len() ==> (#[trigger] queue@[q] as int) < n
                    && visited@[queue@[q] as int],
            forall|k: int| 0 <= k < s ==> visited@[#[trigger] start@[k] as int],
            forall|j: int|
                0 <= j < n && #[trigger] visited@[j] ==> in_every_closure(j, adjs, start@),
            forall|j: int|
                0 <= j < n && #[trigger] visited@[j] ==> exists|q: int|
                    0 <= q < queue@.len() && queue@[q] as int == j,
        decreases start@.len() - s,
    {
        let v = start[s];
        if !visited[v] {
            let ghost old_vis = visited@;
            let ghost old_q = queue@;
            proof {
                assert forall|sx: Set<int>|
                    #![trigger covers_start(sx, start@), closed_under(sx, adjs)]
                    covers_start(sx, start@) && closed_under(sx, adjs) implies sx.contains(
                    v as int,
                ) by {
                    assert(sx.contains(start@[s as int] as int));
                }
            }
            visited[v] = true;
            queue.push(v);
            proof {
                assert forall|j: int| 0 <= j < n && visited@[j] implies exists|q: int|
                    0 <= q < queue@.len() && queue@[q] as int == j by {
                    if j == v as int {
                        assert(queue@[queue@.len() - 1] as int == j);
                    } else {
                        assert(old_vis[j]);
                        let q = choose|q: int| 0 <= q < old_q.len() && old_q[q] as int == j;
                        assert(queue@[q] as int == j);
                    }
                }
            }
        }
        s = s + 1;
    }
    let mut head: usize = 0;
    proof {
        lemma_count_false_nonneg(visited@, 0);
    }
    while head < queue.len()
        invariant
            visited@.len() == n,
            adj@.len() == n,
            adjs == adj_views(adj@),
            forall|a: int| 0 <= a < n ==> #[trigger] adjs[a] == adj@[a]@,
            forall|a: int, k: int|
                #![trigger adj@[a]@[k]]
                0 <= a < n && 0 <= k < adj@[a]@.len() ==> (adj@[a]@[k] as int) < n,
            head <= queue@.len(),
            forall|q: int|
                0 <= q < queue@.len() ==> (#[trigger] queue@[q] as int) < n
                    && visited@[queue@[q] as int],
            forall|k: int| 0 <= k < start@.len() ==> (#[trigger] start@[k] as int) < n,
            forall|k: int| 0 <= k < start@.len() ==> visited@[#[trigger] start@[k] as int],
            forall|j: int|
                0 <= j < n && #[trigger] visited@[j] ==> in_every_closure(j, adjs, start@),
            forall|j: int|
                0 <= j < n && #[trigger] visited@[j] ==> exists|q: int|
                    0 <= q < queue@.len() && queue@[q] as int == j,
            forall|q: int, k: int|
                #![trigger adj@[queue@[q] as int]@[k]]
                0 <= q < head && 0 <= k < adj@[queue@[q] as int]@.len() ==> visited@[adj@[queue@[
                    q] as int]@[k] as int],
        decreases count_false(visited@, 0) + queue@.len() - head,
    {
        let a = queue[head];
        head = head + 1;
        proof {
            lemma_count_false_nonneg(visited@, 0);
        }
        let ghost phi_entry = count_false(visited@, 0) + queue@.len() - head;
        let deg = adj[a].len();
        let mut k: usize = 0;
        while k < deg
            invariant
                visited@.len() == n,
                adj@.len() == n,
                adjs == adj_views(adj@),
                forall|a2: int| 0 <= a2 < n ==> #[trigger] adjs[a2] == adj@[a2]@,
                (a as int) < n,
                visited@[a as int],
                deg == adj@[a as int]@.len(),
                forall|a2: int, k2: int|
                    #![trigger adj@[a2]@[k2]]
                    0 <= a2 < n && 0 <= k2 < adj@[a2]@.len() ==> (adj@[a2]@[k2] as int) < n,
                k <= deg,
                1 <= head <= queue@.len(),
                forall|kk: int| 0 <= kk < start@.len() ==> (#[trigger] start@[kk] as int) < n,
                forall|q: int|
                    0 <= q < queue@.len() ==> (#[trigger] queue@[q] as int) < n
                        && visited@[queue@[q] as int],
                forall|kk: int| 0 <= kk < start@.len() ==> visited@[#[trigger] start@[kk] as int],
                forall|j: int|
                    0 <= j < n && #[trigger] visited@[j] ==> in_every_closure(j, adjs, start@),
                forall|j: int|
                    0 <= j < n && #[trigger] visited@[j] ==> exists|q: int|
                        0 <= q < queue@.len() && queue@[q] as int == j,
                forall|q: int, kk: int|
                    #![trigger adj@[queue@[q] as int]@[kk]]
                    0 <= q < head - 1 && 0 <= kk < adj@[queue@[q] as int]@.len() ==> visited@[adj@[
                        queue@[q] as int]@[kk] as int],
                queue@[head - 1] == a,
                forall|kk: int| 0 <= kk < k ==> visited@[(#[trigger] adj@[a as int]@[kk]) as int],
                count_false(visited@, 0) + queue@.len() - head <= phi_entry,
                count_false(visited@, 0) >= 0,
            decreases deg - k,
        {
            let b = adj[a][k];
            if !visited[b] {
                let ghost old_vis = visited@;
                let ghost old_q = queue@;
                proof {
                    assert(in_every_closure(a as int, adjs, start@));
                    assert forall|sx: Set<int>|
                        #![trigger covers_start(sx, start@), closed_under(sx, adjs)]
                        covers_start(sx, start@) && closed_under(sx, adjs) implies sx.contains(
                        b as int,
                    ) by {
                        assert(sx.contains(a as int));
                        assert(adjs[a as int][k as int] == adj@[a as int]@[k as int]);
                        assert(sx.contains(adjs[a as int][k as int] as int));
                    }
                    lemma_count_false_update(visited@, b as int, 0);
                }
                visited[b] = true;
                queue.push(b);
                proof {
                    assert(visited@[b as int] && queue@[queue@.len() - 1] as int == b as int);
                    lemma_count_false_nonneg(visited@, 0);
                    assert forall|j: int| 0 <= j < n && visited@[j] implies exists|q: int|
                        0 <= q < queue@.len() && queue@[q] as int == j by {
                        if j == b as int {
                            assert(queue@[queue@.len() - 1] as int == j);
                        } else {
                            assert(old_vis[j]);
                            let q = choose|q: int| 0 <= q < old_q.len() && old_q[q] as int == j;
                            assert(queue@[q] as int == j);
                        }
                    }
                }
            }
            k = k + 1;
        }
    }
    proof {
        assert forall|a: int, k: int|
            #![trigger adj@[a]@[k]]
            0 <= a < n && visited@[a] && 0 <= k < adj@[a]@.len() implies visited@[adj@[a]@[
        k] as int] by {
            let q = choose|q: int| 0 <= q < queue@.len() && queue@[q] as int == a;
            assert(visited@[adj@[queue@[q] as int]@[k] as int]);
        }
        let sv = Set::new(|x: int| 0 <= x < n && visited@[x]);
        assert(covers_start(sv, start@));
        assert forall|a: int, k: int|
            #![trigger sv.contains(a), adjs[a][k]]
            0 <= a < adjs.len() && sv.contains(a) && 0 <= k < adjs[a].len() implies sv.contains(
            adjs[a][k] as int,
        ) by {
            assert(visited@[a]);
            assert(adjs[a][k] == adj@[a]@[k]);
            assert(visited@[adj@[a]@[k] as int]);
        }
        assert(closed_under(sv, adjs));
        assert forall|j: int| 0 <= j < n && in_every_closure(j, adjs, start@) implies visited@[
        j] by {
            assert(sv.contains(j));
        }
    }
    visited
}

} // verus!
