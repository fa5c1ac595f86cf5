//! The persisted cache of per-unit usage results, and the in-run store
//! the prober writes into.
//!
//! Maps here are association vectors: lookups find the first entry with
//! the wanted key, and every operation's contract is stated over that
//! lookup.
use vstd::prelude::*;
use vstd::string::StrSliceExecFns;
use crate::graph::{BuildTarget, TargetKind};
use crate::linked::{clone_pid, id_present};
use crate::strutil::str_eq;
use crate::PackageId;

verus! {

/// Strict lexicographic order on character sequences.
pub open spec fn lex_lt(a: Seq<char>, b: Seq<char>) -> bool
    decreases a.len(),
{
    if b.len() == 0 {
        false
    } else if a.len() == 0 {
        true
    } else if a[0] != b[0] {
        a[0] < b[0]
    } else {
        lex_lt(a.drop_first(), b.drop_first())
    }
}

/// Whether `a` orders strictly before `b`, character by character.
pub fn str_lt(a: &str, b: &str) -> (r: bool)
    ensures
        r == lex_lt(a@, b@),
{
    let na = a.unicode_len();
    let nb = b.unicode_len();
    let mut i: usize = 0;
    proof {
        assert(a@.skip(0) =~= a@);
        assert(b@.skip(0) =~= b@);
    }
    while i < na && i < nb
        invariant
            na == a@.len(),
            nb == b@.len(),
            i <= na,
            i <= nb,
            lex_lt(a@, b@) == lex_lt(a@.skip(i as int), b@.skip(i as int)),
            forall|m: int| 0 <= m < i ==> a@[m] == b@[m],
        decreases na - i,
    {
        let ca = a.get_char(i);
        let cb = b.get_char(i);
        if ca != cb {
            proof {
                assert(a@.skip(i as int)[0] == ca && b@.skip(i as int)[0] == cb);
            }
            return ca < cb;
        }
        proof {
            assert(a@.skip(i as int).drop_first() =~= a@.skip(i as int + 1));
            assert(b@.skip(i as int).drop_first() =~= b@.skip(i as int + 1));
        }
        i = i + 1;
    }
    proof {
        assert(a@.skip(i as int).len() == na - i);
        assert(b@.skip(i as int).len() == nb - i);
    }
    na < nb
}

/// The lexicographic order never puts a sequence before itself.
pub proof fn lemma_lex_irrefl(a: Seq<char>)
    ensures
        !lex_lt(a, a),
    decreases a.len(),
{
    if a.len() > 0 {
        lemma_lex_irrefl(a.drop_first());
    }
}

/// The lexicographic order is transitive.
pub proof fn lemma_lex_trans(a: Seq<char>, b: Seq<char>, c: Seq<char>)
    requires
        lex_lt(a, b),
        lex_lt(b, c),
    ensures
        lex_lt(a, c),
    decreases a.len() + b.len() + c.len(),
{
    if c.len() == 0 {
        assert(false);
    } else if a.len() == 0 {
    } else {
        assert(b.len() > 0);
        if a[0] == b[0] && b[0] == c[0] {
            lemma_lex_trans(a.drop_first(), b.drop_first(), c.drop_first());
        }
    }
}

/// Two sequences neither of which orders before the other are equal.
pub proof fn lemma_lex_connex(a: Seq<char>, b: Seq<char>)
    requires
        !lex_lt(a, b),
        !lex_lt(b, a),
    ensures
        a == b,
    decreases a.len(),
{
    if b.len() == 0 {
        assert(a.len() == 0);
        assert(a =~= b);
    } else if a.len() == 0 {
        assert(lex_lt(a, b));
        assert(false);
    } else {
        assert(a[0] == b[0]);
        lemma_lex_connex(a.drop_first(), b.drop_first());
        assert(a =~= b) by {
            assert(a.len() == a.drop_first().len() + 1);
            assert(b.len() == b.drop_first().len() + 1);
            assert(forall|i: int|
                1 <= i < a.len() ==> a[i] == a.drop_first()[i - 1] && b[i] == b.drop_first()[i
                    - 1]);
        }
    }
}

/// First index at or after `i` whose key reads `k`.
pub open spec fn assoc_idx<V>(m: Seq<(String, V)>, k: Seq<char>, i: int) -> Option<int>
    decreases m.len() - i when 0 <= i <= m.len()
{
    if i >= m.len() {
        None
    } else if m[i].0@ == k {
        Some(i)
    } else {
        assoc_idx(m, k, i + 1)
    }
}

/// The value under key `k`, when present.
pub open spec fn assoc_lookup<V>(m: Seq<(String, V)>, k: Seq<char>) -> Option<V> {
    match assoc_idx(m, k, 0) {
        Some(i) => Some(m[i].1),
        None => None,
    }
}

pub proof fn lemma_assoc_skip<V>(m: Seq<(String, V)>, k: Seq<char>, i: int, j: int)
    requires
        0 <= i <= j <= m.len(),
        forall|p: int| i <= p < j ==> (#[trigger] m[p].0)@ != k,
    ensures
        assoc_idx(m, k, i) == assoc_idx(m, k, j),
    decreases j - i,
{
    if i < j {
        lemma_assoc_skip(m, k, i + 1, j);
    }
}

pub proof fn lemma_assoc_range<V>(m: Seq<(String, V)>, k: Seq<char>, i: int)
    requires
        0 <= i <= m.len(),
        assoc_idx(m, k, i) is Some,
    ensures
        i <= assoc_idx(m, k, i)->0 < m.len(),
        m[assoc_idx(m, k, i)->0].0@ == k,
        forall|p: int| i <= p < assoc_idx(m, k, i)->0 ==> (#[trigger] m[p].0)@ != k,
    decreases m.len() - i,
{
    if i < m.len() && m[i].0@ != k {
        lemma_assoc_range(m, k, i + 1);
    }
}

/// When two maps agree on key views position by position, lookup indexes
/// agree too.
pub proof fn lemma_assoc_idx_same_keys<V, W>(
    m1: Seq<(String, V)>,
    m2: Seq<(String, W)>,
    k: Seq<char>,
    i: int,
)
    requires
        m1.len() == m2.len(),
        0 <= i <= m1.len(),
        forall|p: int| 0 <= p < m1.len() ==> (#[trigger] m1[p].0)@ == m2[p].0@,
    ensures
        assoc_idx(m1, k, i) == assoc_idx(m2, k, i),
    decreases m1.len() - i,
{
    if i < m1.len() {
        assert(m1[i].0@ == m2[i].0@);
        lemma_assoc_idx_same_keys(m1, m2, k, i + 1);
    }
}

/// Lookup after a push: present keys keep their entry; the pushed key
/// becomes visible exactly when it was absent.
pub proof fn lemma_assoc_idx_push<V>(m: Seq<(String, V)>, e: (String, V), k: Seq<char>, i: int)
    requires
        0 <= i <= m.len(),
    ensures
        assoc_idx(m, k, i) is Some ==> assoc_idx(m.push(e), k, i) == assoc_idx(m, k, i),
        assoc_idx(m, k, i) is None && e.0@ == k ==> assoc_idx(m.push(e), k, i) == Some(
            m.len() as int,
        ),
        assoc_idx(m, k, i) is None && e.0@ != k ==> assoc_idx(m.push(e), k, i) is None,
    decreases m.len() - i,
{
    if i < m.len() {
        assert((m.push(e))[i] == m[i]);
        lemma_assoc_idx_push(m, e, k, i + 1);
    } else {
        assert(assoc_idx(m, k, i) is None);
        assert((m.push(e))[i] == e);
        if e.0@ != k {
            assert(assoc_idx(m.push(e), k, i + 1) is None);
        }
    }
}

/// A borrow of the value under `k`, exactly when the key is present.
pub fn assoc_get<'a, V>(m: &'a Vec<(String, V)>, k: &str) -> (r: Option<&'a V>)
    ensures
        match r {
            Some(v) => assoc_lookup(m@, k@) == Some(*v),
            None => assoc_lookup(m@, k@) is None,
        },
{
    let mut i: usize = 0;
    while i < m.len()
        invariant
            i <= m@.len(),
            forall|p: int| 0 <= p < i ==> (#[trigger] m@[p].0)@ != k@,
        decreases m@.len() - i,
    {
        if str_eq(m[i].0.as_str(), k) {
            proof {
                lemma_assoc_skip(m@, k@, 0, i as int);
            }
            return Some(&m[i].1);
        }
        i = i + 1;
    }
    proof {
        lemma_assoc_skip(m@, k@, 0, m@.len() as int);
    }
    None
}

/// Binds `v` to `k`: replaces the first entry with that key, or appends
/// a new one.
pub fn assoc_set<V>(m: &mut Vec<(String, V)>, k: String, v: V)
    ensures
        match assoc_idx(old(m)@, k@, 0) {
            Some(i) => final(m)@ == old(m)@.update(i, (k, v)),
            None => final(m)@ == old(m)@.push((k, v)),
        },
{
    let mut i: usize = 0;
    while i < m.len()
        invariant
            m@ == old(m)@,
            i <= m@.len(),
            forall|p: int| 0 <= p < i ==> (#[trigger] m@[p].0)@ != k@,
        decreases m@.len() - i,
    {
        if str_eq(m[i].0.as_str(), k.as_str()) {
            proof {
                lemma_assoc_skip(m@, k@, 0, i as int);
                assert(assoc_idx(m@, k@, i as int) == Some(i as int));
            }
            m[i] = (k, v);
            return ;
        }
        i = i + 1;
    }
    proof {
        lemma_assoc_skip(m@, k@, 0, m@.len() as int);
        assert(assoc_idx(m@, k@, m@.len() as int) is None);
    }
    m.push((k, v));
}

/// First index at or after `i` whose package identity reads `k`.
pub open spec fn pid_idx<V>(m: Seq<(PackageId, V)>, k: Seq<char>, i: int) -> Option<int>
    decreases m.len() - i when 0 <= i <= m.len()
{
    if i >= m.len() {
        None
    } else if m[i].0.repr@ == k {
        Some(i)
    } else {
        pid_idx(m, k, i + 1)
    }
}

/// The value under the package identity `k`, when present.
pub open spec fn pid_lookup<V>(m: Seq<(PackageId, V)>, k: Seq<char>) -> Option<V> {
    match pid_idx(m, k, 0) {
        Some(i) => Some(m[i].1),
        None => None,
    }
}

pub proof fn lemma_pid_skip<V>(m: Seq<(PackageId, V)>, k: Seq<char>, i: int, j: int)
    requires
        0 <= i <= j <= m.len(),
        forall|p: int| i <= p < j ==> (#[trigger] m[p].0).repr@ != k,
    ensures
        pid_idx(m, k, i) == pid_idx(m, k, j),
    decreases j - i,
{
    if i < j {
        lemma_pid_skip(m, k, i + 1, j);
    }
}

pub proof fn lemma_pid_range<V>(m: Seq<(PackageId, V)>, k: Seq<char>, i: int)
    requires
        0 <= i <= m.len(),
        pid_idx(m, k, i) is Some,
    ensures
        i <= pid_idx(m, k, i)->0 < m.len(),
        m[pid_idx(m, k, i)->0].0.repr@ == k,
    decreases m.len() - i,
{
    if i < m.len() && m[i].0.repr@ != k {
        lemma_pid_range(m, k, i + 1);
    }
}

/// A borrow of the value under the package identity `k`.
pub fn pid_get<'a, V>(m: &'a Vec<(PackageId, V)>, k: &PackageId) -> (r: Option<&'a V>)
    ensures
        match r {
            Some(v) => pid_lookup(m@, k.repr@) == Some(*v),
            None => pid_lookup(m@, k.repr@) is None,
        },
{
    let mut i: usize = 0;
    while i < m.len()
        invariant
            i <= m@.len(),
            forall|p: int| 0 <= p < i ==> (#[trigger] m@[p].0).repr@ != k.repr@,
        decreases m@.len() - i,
    {
        if str_eq(m[i].0.repr.as_str(), k.repr.as_str()) {
            proof {
                lemma_pid_skip(m@, k.repr@, 0, i as int);
            }
            return Some(&m[i].1);
        }
        i = i + 1;
    }
    proof {
        lemma_pid_skip(m@, k.repr@, 0, m@.len() as int);
    }
    None
}

/// Strictly ascending identities over the entries of a store.
pub open spec fn entries_sorted<V>(m: Seq<(PackageId, V)>) -> bool {
    forall|i: int, j: int|
        0 <= i < j < m.len() ==> lex_lt((#[trigger] m[i]).0.repr@, (#[trigger] m[j]).0.repr@)
}

/// What inserting one entry does to a lookup scan for a different
/// identity: the found position shifts past the insertion point and
/// nothing else changes.
pub proof fn lemma_pid_idx_insert<V>(
    m: Seq<(PackageId, V)>,
    e: (PackageId, V),
    p: int,
    k: Seq<char>,
    i: int,
)
    requires
        0 <= p <= m.len(),
        0 <= i <= m.len() + 1,
        e.0.repr@ != k,
    ensures
        pid_idx(m.insert(p, e), k, i) == (match pid_idx(
            m,
            k,
            if i <= p {
                i
            } else {
                i - 1
            },
        ) {
            Some(q) => Some(
                if q < p {
                    q
                } else {
                    q + 1
                },
            ),
            None => None::<int>,
        }),
    decreases m.len() + 1 - i,
{
    let new = m.insert(p, e);
    assert(new.len() == m.len() + 1);
    if i < new.len() {
        lemma_pid_idx_insert(m, e, p, k, i + 1);
        if i < p {
            assert(new[i] == m[i]);
        } else if i == p {
            assert(new[i] == e);
        } else {
            assert(new[i] == m[i - 1]);
        }
    }
}

/// Strictly ascending identity strings: sorted, each listed once.
pub open spec fn ids_sorted(s: Seq<PackageId>) -> bool {
    forall|i: int, j: int|
        0 <= i < j < s.len() ==> lex_lt((#[trigger] s[i]).repr@, (#[trigger] s[j]).repr@)
}

/// Presence of an identity is the existence of a position holding it.
pub proof fn lemma_id_present_exists(s: Seq<PackageId>, k: Seq<char>, i: int)
    requires
        0 <= i <= s.len(),
    ensures
        id_present(s, k, i) == (exists|q: int| i <= q < s.len() && (#[trigger] s[q]).repr@ == k),
    decreases s.len() - i,
{
    if i < s.len() {
        lemma_id_present_exists(s, k, i + 1);
        if s[i].repr@ == k {
            assert((#[trigger] s[i]).repr@ == k);
        }
    }
}

/// Inserts one identity into a sorted set, keeping it sorted and
/// duplicate-free: membership afterwards is membership before plus the
/// new identity.
fn sorted_id_insert(v: &mut Vec<PackageId>, id: PackageId)
    requires
        ids_sorted(old(v)@),
    ensures
        ids_sorted(final(v)@),
        forall|k: Seq<char>|
            #[trigger] id_present(final(v)@, k, 0) == (id_present(old(v)@, k, 0) || k
                == id.repr@),
{
    let ghost m1 = v@;
    let ghost kv = id.repr@;
    proof {
        assert(ids_sorted(m1));
    }
    let n = v.len();
    let mut p: usize = 0;
    while p < n && str_lt(v[p].repr.as_str(), id.repr.as_str())
        invariant
            v@ == m1,
            ids_sorted(m1),
            kv == id.repr@,
            n == m1.len(),
            p <= n,
            forall|q: int| 0 <= q < p ==> lex_lt((#[trigger] m1[q]).repr@, kv),
        decreases n - p,
    {
        p = p + 1;
    }
    proof {
        assert forall|q: int| 0 <= q < p implies (#[trigger] m1[q]).repr@ != kv by {
            if m1[q].repr@ == kv {
                lemma_lex_irrefl(kv);
            }
        }
    }
    if p < n && str_eq(v[p].repr.as_str(), id.repr.as_str()) {
        proof {
            assert forall|k: Seq<char>| true implies #[trigger] id_present(v@, k, 0) == (
            id_present(m1, k, 0) || k == kv) by {
                if k == kv {
                    lemma_id_present_exists(m1, k, 0);
                    assert((#[trigger] m1[p as int]).repr@ == k);
                }
            }
        }
        return ;
    }
    proof {
        if (p as int) < m1.len() {
            assert(!lex_lt(m1[p as int].repr@, kv));
            if !lex_lt(kv, m1[p as int].repr@) {
                lemma_lex_connex(kv, m1[p as int].repr@);
                lemma_lex_irrefl(kv);
                assert(false);
            }
        }
    }
    v.insert(p, id);
    proof {
        assert(ids_sorted(v@)) by {
            assert forall|a: int, b: int| 0 <= a < b < v@.len() implies lex_lt(
                (#[trigger] v@[a]).repr@,
                (#[trigger] v@[b]).repr@,
            ) by {
                if b < p {
                    assert(v@[a] == m1[a] && v@[b] == m1[b]);
                } else if b == p {
                    assert(v@[a] == m1[a]);
                    assert(v@[b].repr@ == kv);
                } else if a < p {
                    assert(v@[a] == m1[a] && v@[b] == m1[b - 1]);
                } else if a == p {
                    assert(v@[a].repr@ == kv);
                    assert(v@[b] == m1[b - 1]);
                    if b - 1 > p {
                        lemma_lex_trans(kv, m1[p as int].repr@, m1[b - 1].repr@);
                    }
                } else {
                    assert(v@[a] == m1[a - 1] && v@[b] == m1[b - 1]);
                }
            }
        }
        assert forall|k: Seq<char>| true implies #[trigger] id_present(v@, k, 0) == (id_present(
            m1,
            k,
            0,
        ) || k == kv) by {
            lemma_id_present_exists(v@, k, 0);
            lemma_id_present_exists(m1, k, 0);
            if id_present(v@, k, 0) {
                let q = choose|q: int| 0 <= q < v@.len() && (#[trigger] v@[q]).repr@ == k;
                if q < p {
                    assert(v@[q] == m1[q]);
                    assert((#[trigger] m1[q]).repr@ == k);
                } else if q == p {
                    assert(k == kv);
                } else {
                    assert(v@[q] == m1[q - 1]);
                    assert((#[trigger] m1[q - 1]).repr@ == k);
                }
            }
            if id_present(m1, k, 0) {
                let q = choose|q: int| 0 <= q < m1.len() && (#[trigger] m1[q]).repr@ == k;
                if q < p {
                    assert((#[trigger] v@[q]).repr@ == k);
                } else {
                    assert(v@[q + 1] == m1[q]);
                    assert((#[trigger] v@[q + 1]).repr@ == k);
                }
            }
            if k == kv {
                assert((#[trigger] v@[p as int]).repr@ == k);
            }
        }
    }
}

/// The sorted set holding exactly the identities of `src`.
pub open spec fn id_set_of(r: Seq<PackageId>, src: Seq<PackageId>) -> bool {
    &&& ids_sorted(r)
    &&& forall|k: Seq<char>| #[trigger] id_present(r, k, 0) == id_present(src, k, 0)
}

/// The identities of `ids` as a sorted, duplicate-free set.
pub fn sorted_id_set(ids: &Vec<PackageId>) -> (r: Vec<PackageId>)
    ensures
        id_set_of(r@, ids@),
{
    let mut r: Vec<PackageId> = Vec::new();
    let mut i: usize = 0;
    while i < ids.len()
        invariant
            i <= ids@.len(),
            ids_sorted(r@),
            forall|k: Seq<char>|
                #[trigger] id_present(r@, k, 0) == (exists|q: int|
                    0 <= q < i && (#[trigger] ids@[q]).repr@ == k),
        decreases ids@.len() - i,
    {
        let ghost before = r@;
        let id = clone_pid(&ids[i]);
        sorted_id_insert(&mut r, id);
        proof {
            assert forall|k: Seq<char>| true implies #[trigger] id_present(r@, k, 0) == (exists|
                q: int,
            | 0 <= q < i + 1 && (#[trigger] ids@[q]).repr@ == k) by {
                if id_present(r@, k, 0) {
                    if id_present(before, k, 0) {
                        let q = choose|q: int| 0 <= q < i && (#[trigger] ids@[q]).repr@ == k;
                        assert((#[trigger] ids@[q]).repr@ == k);
                    } else {
                        assert(k == ids@[i as int].repr@);
                        assert((#[trigger] ids@[i as int]).repr@ == k);
                    }
                } else {
                    if exists|q: int| 0 <= q < i + 1 && (#[trigger] ids@[q]).repr@ == k {
                        let q = choose|q: int| 0 <= q < i + 1 && (#[trigger] ids@[q]).repr@ == k;
                        if q < i {
                            assert(id_present(before, k, 0));
                            assert(false);
                        } else {
                            assert(k == ids@[i as int].repr@);
                            assert(false);
                        }
                    }
                }
            }
        }
        i = i + 1;
    }
    proof {
        assert forall|k: Seq<char>| true implies #[trigger] id_present(r@, k, 0) == id_present(
            ids@,
            k,
            0,
        ) by {
            lemma_id_present_exists(ids@, k, 0);
        }
    }
    r
}

/// The usage results of one package, by target.
pub struct CacheUsedPackages {
    pub lib: Option<Vec<PackageId>>,
    pub bin: Vec<(String, Vec<PackageId>)>,
    pub test: Vec<(String, Vec<PackageId>)>,
    pub bench: Vec<(String, Vec<PackageId>)>,
    pub example_lib: Vec<(String, Vec<PackageId>)>,
    pub example_bin: Vec<(String, Vec<PackageId>)>,
    pub custom_build: Option<Vec<PackageId>>,
}

/// What `CacheUsedPackages::insert` leaves behind: the named target's
/// slot bound to `val`, every other slot untouched.
pub open spec fn insert_post(
    pre: CacheUsedPackages,
    post: CacheUsedPackages,
    kind: TargetKind,
    name: Seq<char>,
    val: Vec<PackageId>,
) -> bool {
    match kind {
        TargetKind::Lib => post == CacheUsedPackages { lib: Some(val), ..pre },
        TargetKind::CustomBuild => post == CacheUsedPackages { custom_build: Some(val), ..pre },
        TargetKind::Bin => {
            &&& post == CacheUsedPackages { bin: post.bin, ..pre }
            &&& assoc_lookup(post.bin@, name) == Some(val)
            &&& (forall|n2: Seq<char>|
                n2 != name ==> #[trigger] assoc_lookup(post.bin@, n2) == assoc_lookup(
                    pre.bin@,
                    n2,
                ))
        },
        TargetKind::Test => {
            &&& post == CacheUsedPackages { test: post.test, ..pre }
            &&& assoc_lookup(post.test@, name) == Some(val)
            &&& (forall|n2: Seq<char>|
                n2 != name ==> #[trigger] assoc_lookup(post.test@, n2) == assoc_lookup(
                    pre.test@,
                    n2,
                ))
        },
        TargetKind::Bench => {
            &&& post == CacheUsedPackages { bench: post.bench, ..pre }
            &&& assoc_lookup(post.bench@, name) == Some(val)
            &&& (forall|n2: Seq<char>|
                n2 != name ==> #[trigger] assoc_lookup(post.bench@, n2) == assoc_lookup(
                    pre.bench@,
                    n2,
                ))
        },
        TargetKind::ExampleLib => {
            &&& post == CacheUsedPackages { example_lib: post.example_lib, ..pre }
            &&& assoc_lookup(post.example_lib@, name) == Some(val)
            &&& (forall|n2: Seq<char>|
                n2 != name ==> #[trigger] assoc_lookup(post.example_lib@, n2) == assoc_lookup(
                    pre.example_lib@,
                    n2,
                ))
        },
        TargetKind::ExampleBin => {
            &&& post == CacheUsedPackages { example_bin: post.example_bin, ..pre }
            &&& assoc_lookup(post.example_bin@, name) == Some(val)
            &&& (forall|n2: Seq<char>|
                n2 != name ==> #[trigger] assoc_lookup(post.example_bin@, n2) == assoc_lookup(
                    pre.example_bin@,
                    n2,
                ))
        },
    }
}

impl CacheUsedPackages {
    /// The usage result stored for a target of the given kind and name.
    pub open spec fn spec_get(&self, kind: TargetKind, name: Seq<char>) -> Option<
        Vec<PackageId>,
    > {
        match kind {
            TargetKind::Lib => self.lib,
            TargetKind::CustomBuild => self.custom_build,
            TargetKind::Bin => assoc_lookup(self.bin@, name),
            TargetKind::Test => assoc_lookup(self.test@, name),
            TargetKind::Bench => assoc_lookup(self.bench@, name),
            TargetKind::ExampleLib => assoc_lookup(self.example_lib@, name),
            TargetKind::ExampleBin => assoc_lookup(self.example_bin@, name),
        }
    }

    /// A result with nothing recorded yet.
    pub fn empty() -> (r: CacheUsedPackages)
        ensures
            r.lib is None,
            r.custom_build is None,
            r.bin@.len() == 0,
            r.test@.len() == 0,
            r.bench@.len() == 0,
            r.example_lib@.len() == 0,
            r.example_bin@.len() == 0,
    {
        CacheUsedPackages {
            lib: None,
            bin: Vec::new(),
            test: Vec::new(),
            bench: Vec::new(),
            example_lib: Vec::new(),
            example_bin: Vec::new(),
            custom_build: None,
        }
    }

    /// The usage result stored for `target`, when any.
    pub fn get<'a>(&'a self, target: &BuildTarget) -> (r: Option<&'a Vec<PackageId>>)
        ensures
            match r {
                Some(v) => self.spec_get(target.kind, target.name@) == Some(*v),
                None => self.spec_get(target.kind, target.name@) is None,
            },
    {
        match target.kind {
            TargetKind::Lib => self.lib.as_ref(),
            TargetKind::CustomBuild => self.custom_build.as_ref(),
            TargetKind::Bin => assoc_get(&self.bin, target.name.as_str()),
            TargetKind::Test => assoc_get(&self.test, target.name.as_str()),
            TargetKind::Bench => assoc_get(&self.bench, target.name.as_str()),
            TargetKind::ExampleLib => assoc_get(&self.example_lib, target.name.as_str()),
            TargetKind::ExampleBin => assoc_get(&self.example_bin, target.name.as_str()),
        }
    }

    /// Records `packages` as the usage result of `target`, replacing any
    /// earlier result for that target and touching nothing else.
    pub fn insert(&mut self, target: &BuildTarget, packages: Vec<PackageId>)
        ensures
            final(self).spec_get(target.kind, target.name@) matches Some(stored) && id_set_of(
                stored@,
                packages@,
            ) && insert_post(*old(self), *final(self), target.kind, target.name@, stored),
    {
        let packages = sorted_id_set(&packages);
        let ghost val = packages;
        match target.kind {
            TargetKind::Lib => {
                self.lib = Some(packages);
            },
            TargetKind::CustomBuild => {
                self.custom_build = Some(packages);
            },
            TargetKind::Bin => {
                let ghost pre = self.bin@;
                assoc_set(&mut self.bin, target.name.clone(), packages);
                proof {
                    lemma_assoc_post(pre, self.bin@, target.name@, val);
                }
            },
            TargetKind::Test => {
                let ghost pre = self.test@;
                assoc_set(&mut self.test, target.name.clone(), packages);
                proof {
                    lemma_assoc_post(pre, self.test@, target.name@, val);
                }
            },
            TargetKind::Bench => {
                let ghost pre = self.bench@;
                assoc_set(&mut self.bench, target.name.clone(), packages);
                proof {
                    lemma_assoc_post(pre, self.bench@, target.name@, val);
                }
            },
            TargetKind::ExampleLib => {
                let ghost pre = self.example_lib@;
                assoc_set(&mut self.example_lib, target.name.clone(), packages);
                proof {
                    lemma_assoc_post(pre, self.example_lib@, target.name@, val);
                }
            },
            TargetKind::ExampleBin => {
                let ghost pre = self.example_bin@;
                assoc_set(&mut self.example_bin, target.name.clone(), packages);
                proof {
                    lemma_assoc_post(pre, self.example_bin@, target.name@, val);
                }
            },
        }
    }
}

/// What `assoc_set` did to the lookups: the written key now holds `val`,
/// every other key reads as before.
proof fn lemma_assoc_post(
    pre: Seq<(String, Vec<PackageId>)>,
    post: Seq<(String, Vec<PackageId>)>,
    k: Seq<char>,
    val: Vec<PackageId>,
)
    requires
        match assoc_idx(pre, k, 0) {
            Some(i) => exists|ks: String|
                ks@ == k && post == pre.update(i, (ks, val)),
            None => exists|ks: String| ks@ == k && post == pre.push((ks, val)),
        },
    ensures
        assoc_lookup(post, k) == Some(val),
        forall|n2: Seq<char>|
            n2 != k ==> #[trigger] assoc_lookup(post, n2) == assoc_lookup(pre, n2),
{
    match assoc_idx(pre, k, 0) {
        Some(i) => {
            lemma_assoc_range(pre, k, 0);
            let ks = choose|ks: String| ks@ == k && post == pre.update(i, (ks, val));
            assert(forall|p: int| 0 <= p < pre.len() ==> (#[trigger] pre[p].0)@ == post[p].0@);
            assert forall|n2: Seq<char>| true implies #[trigger] assoc_idx(post, n2, 0)
                == assoc_idx(pre, n2, 0) by {
                lemma_assoc_idx_same_keys(pre, post, n2, 0);
            }
            assert(assoc_lookup(post, k) == Some(val));
            assert forall|n2: Seq<char>| n2 != k implies #[trigger] assoc_lookup(post, n2)
                == assoc_lookup(pre, n2) by {
                if assoc_idx(pre, n2, 0) is Some {
                    lemma_assoc_range(pre, n2, 0);
                    let i2 = assoc_idx(pre, n2, 0)->0;
                    assert(pre[i2].0@ == n2);
                    assert(i2 != i);
                    assert(post[i2] == pre[i2]);
                }
            }
        },
        None => {
            let ks = choose|ks: String| ks@ == k && post == pre.push((ks, val));
            assert forall|n2: Seq<char>| true implies (assoc_idx(pre, n2, 0) is Some
                ==> #[trigger] assoc_idx(post, n2, 0) == assoc_idx(pre, n2, 0)) && (assoc_idx(
                pre,
                n2,
                0,
            ) is None && n2 != k ==> assoc_idx(post, n2, 0) is None) by {
                lemma_assoc_idx_push(pre, (ks, val), n2, 0);
            }
            lemma_assoc_idx_push(pre, (ks, val), k, 0);
            assert(assoc_lookup(post, k) == Some(val));
            assert forall|n2: Seq<char>| n2 != k implies #[trigger] assoc_lookup(post, n2)
                == assoc_lookup(pre, n2) by {
                if assoc_idx(pre, n2, 0) is Some {
                    lemma_assoc_range(pre, n2, 0);
                    let i2 = assoc_idx(pre, n2, 0)->0;
                    assert(post[i2] == pre[i2]);
                }
            }
        },
    }
}

/// The key of one cache section: the build profile it was probed under.
pub struct CacheKey {
    pub profile_kind: String,
}

impl CacheKey {
    /// A key for the named build profile.
    pub fn new(profile_kind: &str) -> (r: CacheKey)
        ensures
            r.profile_kind@ == profile_kind@,
    {
        CacheKey { profile_kind: profile_kind.to_owned() }
    }
}

/// One cache section: a profile key with its per-package usage results.
pub struct CacheValue {
    pub key: CacheKey,
    pub used_packages: Vec<(PackageId, CacheUsedPackages)>,
}

/// The whole persisted cache.
pub struct Cache(pub Vec<CacheValue>);

/// First section index at or after `i` carrying profile `k`.
pub open spec fn cache_idx(m: Seq<CacheValue>, k: Seq<char>, i: int) -> Option<int>
    decreases m.len() - i when 0 <= i <= m.len()
{
    if i >= m.len() {
        None
    } else if m[i].key.profile_kind@ == k {
        Some(i)
    } else {
        cache_idx(m, k, i + 1)
    }
}

pub proof fn lemma_cache_skip(m: Seq<CacheValue>, k: Seq<char>, i: int, j: int)
    requires
        0 <= i <= j <= m.len(),
        forall|p: int| i <= p < j ==> (#[trigger] m[p]).key.profile_kind@ != k,
    ensures
        cache_idx(m, k, i) == cache_idx(m, k, j),
    decreases j - i,
{
    if i < j {
        lemma_cache_skip(m, k, i + 1, j);
    }
}

/// Strictly ascending profile keys: sorted, with no key twice.
pub open spec fn keys_sorted(m: Seq<CacheValue>) -> bool {
    forall|i: int, j: int|
        0 <= i < j < m.len() ==> lex_lt(
            (#[trigger] m[i]).key.profile_kind@,
            (#[trigger] m[j]).key.profile_kind@,
        )
}

/// First position whose key does not order before `k`, from `i` on.
pub open spec fn sorted_pos(m: Seq<CacheValue>, k: Seq<char>, i: int) -> int
    decreases m.len() - i when 0 <= i <= m.len()
{
    if i < m.len() && lex_lt(m[i].key.profile_kind@, k) {
        sorted_pos(m, k, i + 1)
    } else {
        i
    }
}

pub proof fn lemma_sorted_pos_skip(m: Seq<CacheValue>, k: Seq<char>, i: int, j: int)
    requires
        0 <= i <= j <= m.len(),
        forall|q: int| i <= q < j ==> lex_lt((#[trigger] m[q]).key.profile_kind@, k),
    ensures
        sorted_pos(m, k, i) == sorted_pos(m, k, j),
    decreases j - i,
{
    if i < j {
        lemma_sorted_pos_skip(m, k, i + 1, j);
    }
}

impl Cache {
    /// An empty cache, as a missing or blank cache file reads.
    pub fn empty() -> (r: Cache)
        ensures
            r.0@.len() == 0,
            keys_sorted(r.0@),
    {
        Cache(Vec::new())
    }

    /// Removes and returns the section for `key`, or an empty section
    /// when none is stored; the remaining sections keep their key order.
    pub fn take_or_default(&mut self, key: &CacheKey) -> (r: Vec<(PackageId, CacheUsedPackages)>)
        requires
            keys_sorted(old(self).0@),
        ensures
            keys_sorted(final(self).0@),
            match cache_idx(old(self).0@, key.profile_kind@, 0) {
                Some(i) => final(self).0@ == old(self).0@.remove(i) && r == old(
                    self,
                ).0@[i].used_packages,
                None => final(self).0@ == old(self).0@ && r@.len() == 0,
            },
    {
        let ghost m1 = self.0@;
        proof {
            assert(keys_sorted(m1));
        }
        let mut i: usize = 0;
        while i < self.0.len()
            invariant
                self == old(self),
                m1 == self.0@,
                keys_sorted(m1),
                i <= self.0@.len(),
                forall|p: int| 0 <= p < i ==> (#[trigger] self.0@[p]).key.profile_kind@
                    != key.profile_kind@,
            decreases self.0@.len() - i,
        {
            if str_eq(self.0[i].key.profile_kind.as_str(), key.profile_kind.as_str()) {
                proof {
                    lemma_cache_skip(self.0@, key.profile_kind@, 0, i as int);
                }
                let v = self.0.remove(i);
                proof {
                    assert(keys_sorted(self.0@)) by {
                        assert forall|a: int, b: int| 0 <= a < b < self.0@.len() implies lex_lt(
                            (#[trigger] self.0@[a]).key.profile_kind@,
                            (#[trigger] self.0@[b]).key.profile_kind@,
                        ) by {
                            let head = m1.subrange(0, i as int);
                            let tail = m1.subrange(i as int + 1, m1.len() as int);
                            assert(self.0@ == head + tail);
                            let a0: int = if a < i { a } else { a + 1 };
                            let b0: int = if b < i { b } else { b + 1 };
                            if a < i {
                                assert(self.0@[a] == head[a]);
                            } else {
                                assert(self.0@[a] == tail[a - i]);
                            }
                            if b < i {
                                assert(self.0@[b] == head[b]);
                            } else {
                                assert(self.0@[b] == tail[b - i]);
                            }
                            assert(self.0@[a] == m1[a0]);
                            assert(self.0@[b] == m1[b0]);
                            assert(lex_lt(m1[a0].key.profile_kind@, m1[b0].key.profile_kind@));
                        }
                    }
                }
                return v.used_packages;
            }
            i = i + 1;
        }
        proof {
            lemma_cache_skip(self.0@, key.profile_kind@, 0, self.0@.len() as int);
        }
        Vec::new()
    }

    /// Binds the section for `key`: replaces the one stored under that
    /// key, or inserts a new one at its ordered place, so the cache
    /// keeps strictly ascending profile keys — the stable on-disk
    /// ordering its rendering preserves.
    pub fn insert(&mut self, key: CacheKey, value: Vec<(PackageId, CacheUsedPackages)>)
        requires
            keys_sorted(old(self).0@),
        ensures
            keys_sorted(final(self).0@),
            ({
                let m1 = old(self).0@;
                let e = CacheValue { key, used_packages: value };
                match cache_idx(m1, key.profile_kind@, 0) {
                    Some(i) => final(self).0@ == m1.update(i, e),
                    None => final(self).0@ == m1.insert(sorted_pos(m1, key.profile_kind@, 0), e),
                }
            }),
    {
        let ghost m1 = self.0@;
        let ghost kv = key.profile_kind@;
        proof {
            assert(keys_sorted(m1));
        }
        let n = self.0.len();
        let mut p: usize = 0;
        while p < n && str_lt(self.0[p].key.profile_kind.as_str(), key.profile_kind.as_str())
            invariant
                self == old(self),
                m1 == self.0@,
                keys_sorted(m1),
                kv == key.profile_kind@,
                n == m1.len(),
                p <= n,
                forall|q: int| 0 <= q < p ==> lex_lt((#[trigger] m1[q]).key.profile_kind@, kv),
            decreases n - p,
        {
            p = p + 1;
        }
        proof {
            lemma_sorted_pos_skip(m1, kv, 0, p as int);
            assert(sorted_pos(m1, kv, 0) == p as int);
            assert forall|q: int| 0 <= q < p implies (#[trigger] m1[q]).key.profile_kind@
                != kv by {
                if m1[q].key.profile_kind@ == kv {
                    lemma_lex_irrefl(kv);
                }
            }
        }
        if p < n && str_eq(self.0[p].key.profile_kind.as_str(), key.profile_kind.as_str()) {
            proof {
                lemma_cache_skip(m1, kv, 0, p as int);
                assert(cache_idx(m1, kv, 0) == Some(p as int));
            }
            self.0[p] = CacheValue { key, used_packages: value };
            proof {
                assert(keys_sorted(self.0@)) by {
                    assert forall|a: int, b: int| 0 <= a < b < self.0@.len() implies lex_lt(
                        (#[trigger] self.0@[a]).key.profile_kind@,
                        (#[trigger] self.0@[b]).key.profile_kind@,
                    ) by {
                        assert(self.0@[a].key.profile_kind@ == m1[a].key.profile_kind@);
                        assert(self.0@[b].key.profile_kind@ == m1[b].key.profile_kind@);
                    }
                }
            }
        } else {
            proof {
                if (p as int) < m1.len() {
                    assert(!lex_lt(m1[p as int].key.profile_kind@, kv));
                    if !lex_lt(kv, m1[p as int].key.profile_kind@) {
                        lemma_lex_connex(kv, m1[p as int].key.profile_kind@);
                        lemma_lex_irrefl(kv);
                        assert(false);
                    }
                }
                assert forall|q: int| p <= q < m1.len() implies (#[trigger] m1[q]).key.profile_kind@
                    != kv by {
                    if q > p {
                        lemma_lex_trans(
                            kv,
                            m1[p as int].key.profile_kind@,
                            m1[q].key.profile_kind@,
                        );
                    }
                    if m1[q].key.profile_kind@ == kv {
                        lemma_lex_irrefl(kv);
                    }
                }
                lemma_cache_skip(m1, kv, 0, m1.len() as int);
                assert(cache_idx(m1, kv, 0) is None);
            }
            self.0.insert(p, CacheValue { key, used_packages: value });
            proof {
                assert(keys_sorted(self.0@)) by {
                    assert forall|a: int, b: int| 0 <= a < b < self.0@.len() implies lex_lt(
                        (#[trigger] self.0@[a]).key.profile_kind@,
                        (#[trigger] self.0@[b]).key.profile_kind@,
                    ) by {
                        if b < p {
                            assert(self.0@[a] == m1[a] && self.0@[b] == m1[b]);
                        } else if b == p {
                            assert(self.0@[a] == m1[a]);
                            assert(self.0@[b].key.profile_kind@ == kv);
                        } else if a < p {
                            assert(self.0@[a] == m1[a] && self.0@[b] == m1[b - 1]);
                        } else if a == p {
                            assert(self.0@[a].key.profile_kind@ == kv);
                            assert(self.0@[b] == m1[b - 1]);
                            if b - 1 > p {
                                lemma_lex_trans(
                                    kv,
                                    m1[p as int].key.profile_kind@,
                                    m1[b - 1].key.profile_kind@,
                                );
                            }
                        } else {
                            assert(self.0@[a] == m1[a - 1] && self.0@[b] == m1[b - 1]);
                        }
                    }
                }
            }
        }
    }

    /// The section stored for `key`, when any.
    pub fn get<'a>(&'a self, key: &CacheKey) -> (r: Option<
        &'a Vec<(PackageId, CacheUsedPackages)>,
    >)
        ensures
            match r {
                Some(v) => cache_idx(self.0@, key.profile_kind@, 0) matches Some(i) && *v == self.0@[
                    i
                ].used_packages,
                None => cache_idx(self.0@, key.profile_kind@, 0) is None,
            },
    {
        let mut i: usize = 0;
        while i < self.0.len()
            invariant
                i <= self.0@.len(),
                forall|p: int| 0 <= p < i ==> (#[trigger] self.0@[p]).key.profile_kind@
                    != key.profile_kind@,
            decreases self.0@.len() - i,
        {
            if str_eq(self.0[i].key.profile_kind.as_str(), key.profile_kind.as_str()) {
                proof {
                    lemma_cache_skip(self.0@, key.profile_kind@, 0, i as int);
                }
                return Some(&self.0[i].used_packages);
            }
            i = i + 1;
        }
        proof {
            lemma_cache_skip(self.0@, key.profile_kind@, 0, self.0@.len() as int);
        }
        None
    }
}

/// The in-run store: what the prober has recorded so far, and which
/// units this run has seen at all.
pub struct ExecStore {
    /// The usage results, carried over from the cache and overwritten by
    /// fresh probes.
    pub used_packages: Vec<(PackageId, CacheUsedPackages)>,
    /// Every (package, target) pair this run was asked about.
    pub all_targets: Vec<(PackageId, BuildTarget)>,
}

/// A usage result with nothing recorded.
pub open spec fn empty_used(e: CacheUsedPackages) -> bool {
    &&& e.lib is None
    &&& e.custom_build is None
    &&& e.bin@.len() == 0
    &&& e.test@.len() == 0
    &&& e.bench@.len() == 0
    &&& e.example_lib@.len() == 0
    &&& e.example_bin@.len() == 0
}

impl ExecStore {
    /// A store primed with the cache section for this profile.
    pub fn new(used_packages: Vec<(PackageId, CacheUsedPackages)>) -> (r: ExecStore)
        ensures
            r.used_packages == used_packages,
            r.all_targets@.len() == 0,
    {
        ExecStore { used_packages, all_targets: Vec::new() }
    }

    /// Whether the store holds no usage result for the unit, so a probe
    /// is owed.
    pub open spec fn needs_probe(&self, id: PackageId, target: BuildTarget) -> bool {
        match pid_lookup(self.used_packages@, id.repr@) {
            Some(e) => e.spec_get(target.kind, target.name@) is None,
            None => true,
        }
    }

    /// Whether a probe is owed now: always for a unit the build freshly
    /// recompiled this run — a stored result must never mask a source
    /// change — and otherwise exactly when no result is stored, so an
    /// untouched unit with a stored result costs no compiler invocation.
    /// The unit is also recorded as seen.
    pub fn needs_fresh_probe(
        &mut self,
        id: &PackageId,
        target: &BuildTarget,
        freshly_compiled: bool,
    ) -> (r: bool)
        ensures
            r == (freshly_compiled || old(self).needs_probe(*id, *target)),
            final(self).used_packages == old(self).used_packages,
            pid_lookup(final(self).all_targets@, id.repr@) is Some,
            forall|k2: Seq<char>|
                k2 != id.repr@ ==> #[trigger] pid_lookup(final(self).all_targets@, k2)
                    == pid_lookup(old(self).all_targets@, k2),
    {
        let ghost pre = self.all_targets@;
        let seen = BuildTarget { kind: target.kind, name: target.name.clone() };
        let id2 = PackageId { repr: id.repr.clone() };
        self.all_targets.push((id2, seen));
        proof {
            let e = self.all_targets@[pre.len() as int];
            lemma_pid_push(pre, e, id.repr@, 0);
            assert forall|k2: Seq<char>| k2 != id.repr@ implies #[trigger] pid_lookup(
                self.all_targets@,
                k2,
            ) == pid_lookup(pre, k2) by {
                lemma_pid_push(pre, e, k2, 0);
                if pid_idx(pre, k2, 0) is Some {
                    lemma_pid_range(pre, k2, 0);
                    let i2 = pid_idx(pre, k2, 0)->0;
                    assert(self.all_targets@[i2] == pre[i2]);
                }
            }
        }
        let stored = match pid_get(&self.used_packages, id) {
            Some(e) => {
                match e.get(target) {
                    Some(_) => true,
                    None => false,
                }
            },
            None => false,
        };
        freshly_compiled || !stored
    }

    /// Records a freshly probed usage result for the unit, overwriting
    /// whatever the store held for it and touching no other unit; the
    /// entries keep their ascending identity order, so the cache file
    /// renders the same whatever order the probes ran in.
    pub fn record(&mut self, id: &PackageId, target: &BuildTarget, used: Vec<PackageId>)
        requires
            entries_sorted(old(self).used_packages@),
        ensures
            entries_sorted(final(self).used_packages@),
            final(self).all_targets == old(self).all_targets,
            pid_lookup(final(self).used_packages@, id.repr@) matches Some(e2) && (e2.spec_get(
                target.kind,
                target.name@,
            ) matches Some(stored) && id_set_of(stored@, used@) && (match pid_lookup(
                old(self).used_packages@,
                id.repr@,
            ) {
                Some(e) => insert_post(e, e2, target.kind, target.name@, stored),
                None => exists|pre: CacheUsedPackages|
                    empty_used(pre) && #[trigger] insert_post(
                        pre,
                        e2,
                        target.kind,
                        target.name@,
                        stored,
                    ),
            })),
            forall|k2: Seq<char>|
                k2 != id.repr@ ==> #[trigger] pid_lookup(final(self).used_packages@, k2)
                    == pid_lookup(old(self).used_packages@, k2),
    {
        let ghost pre = self.used_packages@;
        proof {
            assert(entries_sorted(pre));
        }
        match pid_pos(&self.used_packages, id) {
            Some(i) => {
                proof {
                    lemma_pid_range(pre, id.repr@, 0);
                }
                let mut entry = self.used_packages.remove(i);
                entry.1.insert(target, used);
                self.used_packages.insert(i, entry);
                proof {
                    assert(self.used_packages@ =~= pre.update(
                        i as int,
                        self.used_packages@[i as int],
                    ));
                    assert(self.used_packages@[i as int].0 == pre[i as int].0);
                    assert(entries_sorted(self.used_packages@)) by {
                        assert forall|a: int, b: int|
                            0 <= a < b < self.used_packages@.len() implies lex_lt(
                            (#[trigger] self.used_packages@[a]).0.repr@,
                            (#[trigger] self.used_packages@[b]).0.repr@,
                        ) by {
                            assert(self.used_packages@[a].0.repr@ == pre[a].0.repr@);
                            assert(self.used_packages@[b].0.repr@ == pre[b].0.repr@);
                        }
                    }
                    lemma_pid_same_keys(pre, self.used_packages@, id.repr@, 0);
                    assert(pid_lookup(self.used_packages@, id.repr@) == Some(
                        self.used_packages@[i as int].1,
                    ));
                    assert forall|k2: Seq<char>| k2 != id.repr@ implies #[trigger] pid_lookup(
                        self.used_packages@,
                        k2,
                    ) == pid_lookup(pre, k2) by {
                        lemma_pid_same_keys(pre, self.used_packages@, k2, 0);
                        if pid_idx(pre, k2, 0) is Some {
                            lemma_pid_range(pre, k2, 0);
                            let i2 = pid_idx(pre, k2, 0)->0;
                            assert(i2 != i as int);
                            assert(self.used_packages@[i2] == pre[i2]);
                        }
                    }
                }
            },
            None => {
                let mut entry = CacheUsedPackages::empty();
                entry.insert(target, used);
                let id2 = PackageId { repr: id.repr.clone() };
                let ghost kv = id.repr@;
                let n = self.used_packages.len();
                let mut p: usize = 0;
                while p < n && str_lt(self.used_packages[p].0.repr.as_str(), id.repr.as_str())
                    invariant
                        pre == self.used_packages@,
                        entries_sorted(pre),
                        kv == id.repr@,
                        n == pre.len(),
                        p <= n,
                        forall|q: int| 0 <= q < p ==> lex_lt((#[trigger] pre[q]).0.repr@, kv),
                    decreases n - p,
                {
                    p = p + 1;
                }
                self.used_packages.insert(p, (id2, entry));
                proof {
                    let ghost e = self.used_packages@[p as int];
                    assert(self.used_packages@ == pre.insert(p as int, e));
                    assert(e.0.repr@ == kv);
                    assert(entries_sorted(self.used_packages@)) by {
                        if (p as int) < pre.len() {
                            assert(!lex_lt(pre[p as int].0.repr@, kv));
                            if !lex_lt(kv, pre[p as int].0.repr@) {
                                lemma_lex_connex(kv, pre[p as int].0.repr@);
                                assert forall|q: int| 0 <= q < p implies (#[trigger] pre[
                                    q]).0.repr@ != kv by {
                                    if pre[q].0.repr@ == kv {
                                        lemma_lex_irrefl(kv);
                                    }
                                }
                                lemma_pid_skip(pre, kv, 0, p as int);
                                assert(pid_idx(pre, kv, p as int) == Some(p as int));
                                assert(false);
                            }
                        }
                        assert forall|a: int, b: int|
                            0 <= a < b < self.used_packages@.len() implies lex_lt(
                            (#[trigger] self.used_packages@[a]).0.repr@,
                            (#[trigger] self.used_packages@[b]).0.repr@,
                        ) by {
                            if b < p {
                                assert(self.used_packages@[a] == pre[a]);
                                assert(self.used_packages@[b] == pre[b]);
                            } else if b == p {
                                assert(self.used_packages@[a] == pre[a]);
                                assert(self.used_packages@[b].0.repr@ == kv);
                            } else if a < p {
                                assert(self.used_packages@[a] == pre[a]);
                                assert(self.used_packages@[b] == pre[b - 1]);
                            } else if a == p {
                                assert(self.used_packages@[a].0.repr@ == kv);
                                assert(self.used_packages@[b] == pre[b - 1]);
                                if b - 1 > p {
                                    lemma_lex_trans(
                                        kv,
                                        pre[p as int].0.repr@,
                                        pre[b - 1].0.repr@,
                                    );
                                }
                            } else {
                                assert(self.used_packages@[a] == pre[a - 1]);
                                assert(self.used_packages@[b] == pre[b - 1]);
                            }
                        }
                    }
                    assert forall|q: int| 0 <= q < p implies (#[trigger] self.used_packages@[
                        q]).0.repr@ != kv by {
                        if self.used_packages@[q].0.repr@ == kv {
                            lemma_lex_irrefl(kv);
                        }
                    }
                    lemma_pid_skip(self.used_packages@, kv, 0, p as int);
                    assert(pid_idx(self.used_packages@, kv, p as int) == Some(p as int));
                    assert(pid_lookup(self.used_packages@, kv) == Some(e.1));
                    assert forall|k2: Seq<char>| k2 != kv implies #[trigger] pid_lookup(
                        self.used_packages@,
                        k2,
                    ) == pid_lookup(pre, k2) by {
                        lemma_pid_idx_insert(pre, e, p as int, k2, 0);
                        match pid_idx(pre, k2, 0) {
                            Some(q) => {
                                lemma_pid_range(pre, k2, 0);
                                if q < p {
                                    assert(self.used_packages@[q] == pre[q]);
                                } else {
                                    assert(self.used_packages@[q + 1] == pre[q]);
                                }
                            },
                            None => {},
                        }
                    }
                }
            },
        }
    }
}

/// Idempotence of probing: once a unit's usage result stands in the
/// store, nothing is owed a probe for it, so a second pass over a unit
/// the build did not freshly recompile makes zero further compiler
/// invocations and reads the identical used-package set back.
pub proof fn lemma_probe_idempotent(
    store: ExecStore,
    id: PackageId,
    target: BuildTarget,
    e: CacheUsedPackages,
    v: Vec<PackageId>,
)
    requires
        pid_lookup(store.used_packages@, id.repr@) == Some(e),
        e.spec_get(target.kind, target.name@) == Some(v),
    ensures
        !store.needs_probe(id, target),
{
}

/// Staleness: whatever a store held for a freshly re-probed unit,
/// `record`'s contract binds the unit's slot to the new result, and a
/// store standing in that state owes the unit no further probe.
pub proof fn lemma_fresh_probe_overwrites(
    post: ExecStore,
    id: PackageId,
    target: BuildTarget,
    e2: CacheUsedPackages,
    used: Vec<PackageId>,
)
    requires
        pid_lookup(post.used_packages@, id.repr@) == Some(e2),
        e2.spec_get(target.kind, target.name@) == Some(used),
    ensures
        !post.needs_probe(id, target),
{
}

/// First index whose package identity matches, as an index.
pub fn pid_pos<V>(m: &Vec<(PackageId, V)>, k: &PackageId) -> (r: Option<usize>)
    ensures
        match r {
            Some(p) => pid_idx(m@, k.repr@, 0) == Some(p as int),
            None => pid_idx(m@, k.repr@, 0) is None,
        },
{
    let mut i: usize = 0;
    while i < m.len()
        invariant
            i <= m@.len(),
            forall|p: int| 0 <= p < i ==> (#[trigger] m@[p].0).repr@ != k.repr@,
        decreases m@.len() - i,
    {
        if str_eq(m[i].0.repr.as_str(), k.repr.as_str()) {
            proof {
                lemma_pid_skip(m@, k.repr@, 0, i as int);
            }
            return Some(i);
        }
        i = i + 1;
    }
    proof {
        lemma_pid_skip(m@, k.repr@, 0, m@.len() as int);
    }
    None
}

/// When two stores agree on identity views position by position, lookup
/// indexes agree too.
pub proof fn lemma_pid_same_keys<V, W>(
    m1: Seq<(PackageId, V)>,
    m2: Seq<(PackageId, W)>,
    k: Seq<char>,
    i: int,
)
    requires
        m1.len() == m2.len(),
        0 <= i <= m1.len(),
        forall|p: int| 0 <= p < m1.len() ==> (#[trigger] m1[p].0).repr@ == m2[p].0.repr@,
    ensures
        pid_idx(m1, k, i) == pid_idx(m2, k, i),
    decreases m1.len() - i,
{
    if i < m1.len() {
        assert(m1[i].0.repr@ == m2[i].0.repr@);
        lemma_pid_same_keys(m1, m2, k, i + 1);
    }
}

/// Lookup after a push, keyed by package identity.
pub proof fn lemma_pid_push<V>(m: Seq<(PackageId, V)>, e: (PackageId, V), k: Seq<char>, i: int)
    requires
        0 <= i <= m.len(),
    ensures
        pid_idx(m, k, i) is Some ==> pid_idx(m.push(e), k, i) == pid_idx(m, k, i),
        pid_idx(m, k, i) is None && e.0.repr@ == k ==> pid_idx(m.push(e), k, i) == Some(
            m.len() as int,
        ),
        pid_idx(m, k, i) is None && e.0.repr@ != k ==> pid_idx(m.push(e), k, i) is None,
    decreases m.len() - i,
{
    if i < m.len() {
        assert((m.push(e))[i] == m[i]);
        lemma_pid_push(m, e, k, i + 1);
    } else {
        assert(pid_idx(m, k, i) is None);
        assert((m.push(e))[i] == e);
        if e.0.repr@ != k {
            assert(pid_idx(m.push(e), k, i + 1) is None);
        }
    }
}

} // verus!
