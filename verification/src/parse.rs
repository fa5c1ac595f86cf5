//! The static pre-filter's walk over a unit's module files.
//!
//! A collaborator reads and syntactically scans one source file at a
//! time and reports which crate-like names its `use` and `extern crate`
//! items reference and which out-of-line modules it declares. The walk
//! below decides which files to read, in what order, and accumulates the
//! confirmed names. It is an accelerant only: a caller that cannot scan
//! a file abandons the walk and proceeds with no confirmed names.
use vstd::prelude::*;
use vstd::string::StrSliceExecFns;
use crate::diag::{find_name_from, find_name_pos};
use crate::opts::views;
use crate::path::{join_spec, pop_spec, Utf8PathBuf};

verus! {

/// What the collaborator's scan of one file reports.
pub struct ModScan {
    /// Names referenced by top-level `use` paths (their first segments)
    /// or `extern crate` items, attribute-free items only.
    pub used_roots: Vec<String>,
    /// Out-of-line modules declared anywhere in the file.
    pub mods: Vec<String>,
}

/// Adds to `used` every root in `roots` (from `i` on) that is among the
/// candidates and not yet recorded.
pub open spec fn add_confirmed_spec(
    used: Seq<Seq<char>>,
    roots: Seq<Seq<char>>,
    cands: Seq<Seq<char>>,
    i: int,
) -> Seq<Seq<char>>
    decreases roots.len() - i when 0 <= i <= roots.len()
{
    if i < roots.len() {
        let u2 = if find_name_from(cands, roots[i], 0) is Some && find_name_from(
            used,
            roots[i],
            0,
        ) is None {
            used.push(roots[i])
        } else {
            used
        };
        add_confirmed_spec(u2, roots, cands, i + 1)
    } else {
        used
    }
}

/// Merges freshly scanned roots into the confirmed set.
pub fn add_confirmed(used: &mut Vec<String>, roots: &Vec<String>, cands: &Vec<String>)
    ensures
        views(final(used)@) == add_confirmed_spec(views(old(used)@), views(roots@), views(cands@), 0),
{
    let ghost rv = views(roots@);
    let ghost cv = views(cands@);
    let mut i: usize = 0;
    while i < roots.len()
        invariant
            rv == views(roots@),
            cv == views(cands@),
            i <= roots@.len(),
            add_confirmed_spec(views(old(used)@), rv, cv, 0) == add_confirmed_spec(
                views(used@),
                rv,
                cv,
                i as int,
            ),
        decreases roots@.len() - i,
    {
        let in_cands = match find_name_pos(cands, roots[i].as_str()) {
            Some(_) => true,
            None => false,
        };
        let in_used = match find_name_pos(used, roots[i].as_str()) {
            Some(_) => true,
            None => false,
        };
        if in_cands && !in_used {
            let ghost before = views(used@);
            used.push(roots[i].clone());
            proof {
                assert(views(used@) =~= before.push(rv[i as int]));
            }
        }
        i = i + 1;
    }
}

/// Joining each of `parts` (from `i` on) onto `base` in turn.
pub open spec fn fold_join(base: Seq<char>, parts: Seq<Seq<char>>, i: int) -> Seq<char>
    decreases parts.len() - i when 0 <= i <= parts.len()
{
    if i < parts.len() {
        fold_join(join_spec(base, parts[i]), parts, i + 1)
    } else {
        base
    }
}

/// The file a module chain names: the root file itself for the empty
/// chain, else the chain's directories under the root file's parent,
/// with the last component as `<name>.rs`.
pub open spec fn chain_primary(root: Seq<char>, chain: Seq<Seq<char>>) -> Seq<char> {
    if chain.len() == 0 {
        root
    } else {
        join_spec(
            fold_join(pop_spec(root), chain.take(chain.len() - 1), 0),
            chain[chain.len() - 1] + ".rs"@,
        )
    }
}

/// The alternate file of a nonempty chain: `<name>/mod.rs`.
pub open spec fn chain_alternate(root: Seq<char>, chain: Seq<Seq<char>>) -> Seq<char> {
    join_spec(
        join_spec(fold_join(pop_spec(root), chain.take(chain.len() - 1), 0), chain[chain.len() - 1]),
        "mod.rs"@,
    )
}

/// The views of a queue of module chains.
pub open spec fn chain_views(q: Seq<Vec<String>>) -> Seq<Seq<Seq<char>>> {
    q.map(|i: int, c: Vec<String>| views(c@))
}

/// The chains gained from one scan: the current chain extended by each
/// declared module, in order.
pub open spec fn extended_chains(chain: Seq<Seq<char>>, mods: Seq<Seq<char>>, i: int) -> Seq<
    Seq<Seq<char>>,
>
    decreases mods.len() - i when 0 <= i <= mods.len()
{
    if i < mods.len() {
        seq![chain.push(mods[i])] + extended_chains(chain, mods, i + 1)
    } else {
        Seq::empty()
    }
}

/// The walk over a unit's module files.
pub struct ModWalk {
    /// The unit's root source file.
    root: Utf8PathBuf,
    /// The linkage names whose use is being looked for.
    candidates: Vec<String>,
    /// Module chains discovered so far, visited in discovery order.
    queue: Vec<Vec<String>>,
    /// How many chains have been visited.
    head: usize,
    /// The candidates confirmed referenced so far.
    used: Vec<String>,
}

impl ModWalk {
    pub closed spec fn spec_root(&self) -> Seq<char> {
        self.root@
    }

    pub closed spec fn spec_candidates(&self) -> Seq<Seq<char>> {
        views(self.candidates@)
    }

    pub closed spec fn spec_queue(&self) -> Seq<Seq<Seq<char>>> {
        chain_views(self.queue@)
    }

    pub closed spec fn spec_head(&self) -> int {
        self.head as int
    }

    pub closed spec fn spec_used(&self) -> Seq<Seq<char>> {
        views(self.used@)
    }

    pub open spec fn wf(&self) -> bool {
        self.spec_head() <= self.spec_queue().len()
    }

    /// A walk that starts at the unit's root file.
    pub fn new(root: Utf8PathBuf, candidates: Vec<String>) -> (r: ModWalk)
        ensures
            r.wf(),
            r.spec_root() == root@,
            r.spec_candidates() == views(candidates@),
            r.spec_queue() =~= seq![Seq::<Seq<char>>::empty()],
            r.spec_head() == 0,
            r.spec_used() =~= Seq::<Seq<char>>::empty(),
    {
        let mut queue: Vec<Vec<String>> = Vec::new();
        let empty_chain: Vec<String> = Vec::new();
        proof {
            assert(views(empty_chain@) =~= Seq::<Seq<char>>::empty());
        }
        queue.push(empty_chain);
        proof {
            assert(chain_views(queue@) =~= seq![Seq::<Seq<char>>::empty()]);
        }
        ModWalk { root, candidates, queue, head: 0, used: Vec::new() }
    }

    /// Whether every discovered file has been visited.
    pub fn done(&self) -> (r: bool)
        ensures
            r == (self.spec_head() >= self.spec_queue().len()),
    {
        self.head >= self.queue.len()
    }

    /// The next file to read and scan: the chain's file, and — for a
    /// nonempty chain — the `mod.rs` form to try when the first does
    /// not exist. Neither existing makes the walk fail, and the caller
    /// degrades to no pre-filter information.
    pub fn next_request(&self) -> (r: Option<(Utf8PathBuf, Option<Utf8PathBuf>)>)
        requires
            self.wf(),
        ensures
            match r {
                Some(p) => {
                    &&& self.spec_head() < self.spec_queue().len()
                    &&& p.0@ == chain_primary(
                        self.spec_root(),
                        self.spec_queue()[self.spec_head()],
                    )
                    &&& match p.1 {
                        Some(alt) => self.spec_queue()[self.spec_head()].len() > 0 && alt@
                            == chain_alternate(
                            self.spec_root(),
                            self.spec_queue()[self.spec_head()],
                        ),
                        None => self.spec_queue()[self.spec_head()].len() == 0,
                    }
                },
                None => self.spec_head() >= self.spec_queue().len(),
            },
    {
        if self.head >= self.queue.len() {
            return None;
        }
        let chain = &self.queue[self.head];
        let ghost cv = views(chain@);
        let k = chain.len();
        if k == 0 {
            proof {
                assert(chain_views(self.queue@)[self.head as int] =~= cv);
            }
            return Some((self.root.clone_path(), None));
        }
        let mut dir = self.root.clone_path();
        dir.pop();
        let mut i: usize = 0;
        while i < k - 1
            invariant
                cv == views(chain@),
                k == chain@.len(),
                k >= 1,
                i <= k - 1,
                fold_join(dir@, cv.take(k - 1 as int), i as int) == fold_join(
                    pop_spec(self.spec_root()),
                    cv.take(k - 1 as int),
                    0,
                ),
            decreases k - 1 - i,
        {
            proof {
                assert(cv.take(k - 1 as int)[i as int] == cv[i as int]);
            }
            dir.push(chain[i].as_str());
            i = i + 1;
        }
        proof {
            assert(dir@ == fold_join(pop_spec(self.spec_root()), cv.take(k - 1 as int), 0));
        }
        let last = &chain[k - 1];
        let primary = dir.as_path().join(last.clone().concat(".rs").as_str());
        let alt_dir = dir.as_path().join(last.as_str());
        let alternate = alt_dir.as_path().join("mod.rs");
        proof {
            assert(chain_views(self.queue@)[self.head as int] =~= cv);
            reveal_strlit(".rs");
            reveal_strlit("mod.rs");
            assert(primary@ == chain_primary(self.spec_root(), cv));
            assert(alternate@ == chain_alternate(self.spec_root(), cv));
        }
        Some((primary, Some(alternate)))
    }

    /// Feeds the scan of the current chain's file: its confirmed roots
    /// join the used set, its declared modules extend the queue, and the
    /// walk moves to the next chain.
    pub fn supply(&mut self, scan: &ModScan)
        requires
            old(self).wf(),
            old(self).spec_head() < old(self).spec_queue().len(),
        ensures
            final(self).wf(),
            final(self).spec_root() == old(self).spec_root(),
            final(self).spec_candidates() == old(self).spec_candidates(),
            final(self).spec_head() == old(self).spec_head() + 1,
            final(self).spec_used() == add_confirmed_spec(
                old(self).spec_used(),
                views(scan.used_roots@),
                old(self).spec_candidates(),
                0,
            ),
            final(self).spec_queue() =~= old(self).spec_queue() + extended_chains(
                old(self).spec_queue()[old(self).spec_head()],
                views(scan.mods@),
                0,
            ),
    {
        let ghost chain = chain_views(self.queue@)[self.head as int];
        add_confirmed(&mut self.used, &scan.used_roots, &self.candidates);
        let ghost used_after = self.used@;
        let ghost q0 = chain_views(self.queue@);
        let ghost mv = views(scan.mods@);
        let base = crate::strutil::clone_strings(&self.queue[self.head]);
        proof {
            assert(views(base@) =~= chain);
        }
        let mut i: usize = 0;
        while i < scan.mods.len()
            invariant
                self.root == old(self).root,
                self.candidates@ == old(self).candidates@,
                self.used@ == used_after,
                self.head == old(self).head,
                (self.head as int) < q0.len(),
                q0.len() <= self.queue@.len(),
                views(base@) == chain,
                mv == views(scan.mods@),
                i <= mv.len(),
                chain_views(self.queue@) + extended_chains(chain, mv, i as int) =~= q0
                    + extended_chains(chain, mv, 0),
            decreases mv.len() - i,
        {
            let ghost before = chain_views(self.queue@);
            let mut c2 = crate::strutil::clone_strings(&base);
            c2.push(scan.mods[i].clone());
            proof {
                assert(views(c2@) =~= chain.push(mv[i as int]));
            }
            self.queue.push(c2);
            proof {
                assert(chain_views(self.queue@) =~= before + seq![views(c2@)]);
                assert(chain_views(self.queue@) + extended_chains(chain, mv, i as int + 1) =~= q0
                    + extended_chains(chain, mv, 0));
            }
            i = i + 1;
        }
        proof {
            assert(chain_views(self.queue@) =~= chain_views(self.queue@) + extended_chains(
                chain,
                mv,
                mv.len() as int,
            ));
        }
        let qn = self.queue.len();
        proof {
            assert((self.head as int) < qn as int);
        }
        self.head = self.head + 1;
    }
}

impl ModWalk {
    /// The candidates confirmed referenced, in discovery order.
    pub fn confirmed(self) -> (r: Vec<String>)
        ensures
            views(r@) == self.spec_used(),
    {
        self.used
    }
}

/// The older edition needs no walk: the root file's attribute-free
/// `extern crate` items decide, and a file carrying inner attributes
/// yields no information at all.
pub fn uses_2015(has_attrs: bool, ext_crate_names: &Vec<String>, candidates: &Vec<String>) -> (r:
    Vec<String>)
    ensures
        views(r@) == if has_attrs {
            Seq::<Seq<char>>::empty()
        } else {
            add_confirmed_spec(
                Seq::<Seq<char>>::empty(),
                views(ext_crate_names@),
                views(candidates@),
                0,
            )
        },
{
    let mut used: Vec<String> = Vec::new();
    proof {
        assert(views(used@) =~= Seq::<Seq<char>>::empty());
    }
    if has_attrs {
        return used;
    }
    add_confirmed(&mut used, ext_crate_names, candidates);
    used
}

} // verus!
