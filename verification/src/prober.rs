//! The usage prober: a state machine that discovers which of one
//! compilation unit's extern arguments the compiler actually needs.
//!
//! The machine never runs the compiler itself. Each `step` consumes the
//! outcome of the invocation it last asked for — made with the current
//! exclusion set — and answers with the next thing to do. The caller
//! renders the invocation through `RustcOpts::to_args` with the current
//! exclusion set whenever the answer is `Invoke`.
use vstd::prelude::*;
use crate::bits::{fbs_bits, fbs_contains, fbs_insert, fbs_len, fbs_set, fbs_with_capacity};
use crate::diag::{apply_error_messages, dispatch_all, find_name_from, has_abandon_code,
    ErrorMessage};
use crate::opts::{views, Extern};

verus! {

/// What the last requested invocation did.
pub enum ProbeOutcome {
    /// The compiler succeeded under the current exclusion set.
    Success,
    /// It failed, with these structured diagnostics, in emission order.
    Failure(Vec<ErrorMessage>),
}

/// What the machine asks for next.
pub enum ProbeStep {
    /// Invoke the compiler with the current exclusion set.
    Invoke,
    /// The probe is resolved; read the answer off the exclusion set.
    Done,
    /// The restoring invocation failed: the probe cannot finish.
    Fail,
}

/// Where the machine stands.
pub enum ProbePhase {
    /// Interpreting diagnostics and un-excluding what they name.
    Iterating,
    /// Trying the stalled exclusion set's candidates one by one: the
    /// stalled set, and the candidate currently on trial.
    Fallback(fixedbitset::FixedBitSet, usize),
    /// Re-running with the settled exclusion set to leave a good build.
    FinalRun,
    /// Finished.
    Resolved,
}

/// A sequence of `n` cleared bits.
pub open spec fn all_false(n: int) -> Seq<bool> {
    Seq::new(n as nat, |i: int| false)
}

/// First set bit at or after `j`.
pub open spec fn first_set_from(bits: Seq<bool>, j: int) -> Option<int>
    decreases bits.len() - j when 0 <= j <= bits.len()
{
    if j >= bits.len() {
        None
    } else if bits[j] {
        Some(j)
    } else {
        first_set_from(bits, j + 1)
    }
}

pub proof fn lemma_first_set_skip(bits: Seq<bool>, j: int, k: int)
    requires
        0 <= j <= k <= bits.len(),
        forall|m: int| j <= m < k ==> !bits[m],
    ensures
        first_set_from(bits, j) == first_set_from(bits, k),
    decreases k - j,
{
    if j < k {
        lemma_first_set_skip(bits, j + 1, k);
    }
}

pub proof fn lemma_first_set_range(bits: Seq<bool>, j: int)
    requires
        0 <= j <= bits.len(),
        first_set_from(bits, j) is Some,
    ensures
        j <= first_set_from(bits, j)->0 < bits.len(),
        bits[first_set_from(bits, j)->0],
    decreases bits.len() - j,
{
    if j < bits.len() && !bits[j] {
        lemma_first_set_range(bits, j + 1);
    }
}

/// First set bit of `b` at or after `j`, as an index.
pub fn fbs_first_set_from(b: &fixedbitset::FixedBitSet, j: usize) -> (r: Option<usize>)
    requires
        j <= fbs_bits(*b).len(),
    ensures
        match r {
            Some(k) => first_set_from(fbs_bits(*b), j as int) == Some(k as int),
            None => first_set_from(fbs_bits(*b), j as int) is None,
        },
{
    let n = fbs_len(b);
    let mut k: usize = j;
    while k < n
        invariant
            j <= k <= n,
            n == fbs_bits(*b).len(),
            forall|m: int| j <= m < k ==> !fbs_bits(*b)[m],
        decreases n - k,
    {
        if fbs_contains(b, k) {
            proof {
                lemma_first_set_skip(fbs_bits(*b), j as int, k as int);
            }
            return Some(k);
        }
        k = k + 1;
    }
    proof {
        lemma_first_set_skip(fbs_bits(*b), j as int, n as int);
    }
    None
}

/// The usage prober for one compilation unit.
pub struct UsageProber {
    /// The unit's extern arguments, in their original order.
    pub externs: Vec<Extern>,
    /// Their linkage names, aligned with `externs`.
    pub names: Vec<String>,
    /// The current exclusion set: excluded externs are left out of the
    /// next invocation.
    pub exclude: fixedbitset::FixedBitSet,
    /// Where the machine stands.
    pub phase: ProbePhase,
}

impl UsageProber {
    /// The current exclusion set, as bits.
    pub open spec fn excl(&self) -> Seq<bool> {
        fbs_bits(self.exclude)
    }

    /// The linkage names, as sequences.
    pub open spec fn link_names(&self) -> Seq<Seq<char>> {
        views(self.names@)
    }

    pub open spec fn n(&self) -> int {
        self.externs@.len() as int
    }

    pub open spec fn wf(&self) -> bool {
        &&& self.excl().len() == self.n()
        &&& self.names@.len() == self.n()
        &&& (forall|i: int| 0 <= i < self.n() ==> (#[trigger] self.externs@[i]).wf())
        &&& (forall|i: int|
            0 <= i < self.n() ==> (#[trigger] self.names@[i])@ == self.externs@[i].spec_name())
        &&& match self.phase {
            ProbePhase::Fallback(prev, idx) => {
                &&& fbs_bits(prev).len() == self.n()
                &&& 0 <= (idx as int) < self.n()
                &&& fbs_bits(prev)[idx as int]
                &&& self.excl()[idx as int]
                &&& (forall|j: int|
                    0 <= j < self.n() && #[trigger] self.excl()[j] ==> fbs_bits(prev)[j])
                &&& (forall|j: int| idx < j < self.n() ==> !self.excl()[j])
            },
            _ => true,
        }
    }

    /// The linkage names of the externs the probe keeps, i.e. the
    /// complement of the exclusion set, in original order.
    pub fn included_names(&self) -> (r: Vec<String>)
        requires
            self.wf(),
        ensures
            views(r@) == kept_names(self.excl(), self.link_names(), 0),
    {
        let ghost bits = self.excl();
        let ghost nv = self.link_names();
        let mut r: Vec<String> = Vec::new();
        let mut i: usize = 0;
        while i < self.names.len()
            invariant
                self.wf(),
                bits == self.excl(),
                nv == self.link_names(),
                i <= self.names@.len(),
                views(r@) + kept_names(bits, nv, i as int) =~= kept_names(bits, nv, 0),
            decreases self.names@.len() - i,
        {
            let ghost before = r@;
            if !fbs_contains(&self.exclude, i) {
                r.push(self.names[i].clone());
                proof {
                    assert(views(r@) =~= views(before) + seq![nv[i as int]]);
                }
            }
            proof {
                assert(views(r@) + kept_names(bits, nv, i as int + 1) =~= kept_names(bits, nv, 0));
            }
            i = i + 1;
        }
        proof {
            assert(views(r@) =~= views(r@) + kept_names(bits, nv, self.names@.len() as int));
        }
        r
    }
}

/// The names at the positions an exclusion set keeps, in order, from
/// index `i` on.
pub open spec fn kept_names(excl: Seq<bool>, names: Seq<Seq<char>>, i: int) -> Seq<Seq<char>>
    decreases names.len() - i when 0 <= i <= names.len()
{
    if i < names.len() {
        (if !excl[i] {
            seq![names[i]]
        } else {
            Seq::empty()
        }) + kept_names(excl, names, i + 1)
    } else {
        Seq::empty()
    }
}

impl UsageProber {
    /// Starts a probe for one unit. Every extern is excluded except the
    /// ones the static pre-filter positively confirmed referenced; with
    /// no pre-filter information, pass the empty vector and everything
    /// starts excluded. A unit with no externs resolves at once, and the
    /// compiler is never invoked for it.
    pub fn new(externs: Vec<Extern>, confirmed: &Vec<String>) -> (r: (UsageProber, ProbeStep))
        requires
            forall|i: int| 0 <= i < externs@.len() ==> (#[trigger] externs@[i]).wf(),
        ensures
            r.0.wf(),
            r.0.externs == externs,
            forall|i: int|
                0 <= i < externs@.len() ==> (#[trigger] r.0.excl()[i]) == (find_name_from(
                    views(confirmed@),
                    externs@[i].spec_name(),
                    0,
                ) is None),
            externs@.len() == 0 ==> r.0.phase is Resolved && r.1 is Done,
            externs@.len() > 0 ==> r.0.phase is Iterating && r.1 is Invoke,
    {
        let n = externs.len();
        let mut names: Vec<String> = Vec::new();
        let mut exclude = fbs_with_capacity(n);
        let mut i: usize = 0;
        while i < n
            invariant
                n == externs@.len(),
                i <= n,
                forall|k: int| 0 <= k < n ==> (#[trigger] externs@[k]).wf(),
                names@.len() == i,
                forall|k: int|
                    0 <= k < i ==> (#[trigger] names@[k])@ == externs@[k].spec_name(),
                fbs_bits(exclude).len() == n,
                forall|k: int|
                    0 <= k < i ==> (#[trigger] fbs_bits(exclude)[k]) == (find_name_from(
                        views(confirmed@),
                        externs@[k].spec_name(),
                        0,
                    ) is None),
                forall|k: int| i <= k < n ==> !(#[trigger] fbs_bits(exclude)[k]),
            decreases n - i,
        {
            let name = externs[i].name().to_owned();
            match crate::diag::find_name_pos(confirmed, name.as_str()) {
                Some(_) => {},
                None => {
                    fbs_insert(&mut exclude, i);
                },
            }
            names.push(name);
            i = i + 1;
        }
        let phase = if n == 0 {
            ProbePhase::Resolved
        } else {
            ProbePhase::Iterating
        };
        let step = if n == 0 {
            ProbeStep::Done
        } else {
            ProbeStep::Invoke
        };
        (UsageProber { externs, names, exclude, phase }, step)
    }
}

/// The exact relation between one machine state, the outcome fed to it,
/// the state after the step, and what the step asked for.
pub open spec fn step_spec(
    pre: UsageProber,
    outcome: ProbeOutcome,
    post: UsageProber,
    act: ProbeStep,
) -> bool {
    &&& post.externs == pre.externs
    &&& post.names == pre.names
    &&& match pre.phase {
        ProbePhase::Iterating => match outcome {
            ProbeOutcome::Success => {
                &&& post.phase is Resolved
                &&& post.excl() == pre.excl()
                &&& act is Done
            },
            ProbeOutcome::Failure(msgs) => {
                let newx = dispatch_all(pre.excl(), pre.link_names(), msgs@, 0);
                let abandon = has_abandon_code(msgs@);
                if newx != pre.excl() && !abandon {
                    &&& post.phase is Iterating
                    &&& post.excl() == newx
                    &&& act is Invoke
                } else {
                    match first_set_from(newx, 0) {
                        Some(k) => {
                            &&& post.phase matches ProbePhase::Fallback(prev, idx)
                                && fbs_bits(prev) == newx && idx as int == k
                            &&& post.excl() == all_false(pre.n()).update(k, true)
                            &&& act is Invoke
                        },
                        None => {
                            &&& post.phase is Resolved
                            &&& post.excl() == newx
                            &&& act is Done
                        },
                    }
                }
            },
        },
        ProbePhase::Fallback(prev, idx) => {
            let kept = outcome is Success;
            let x1 = if kept {
                pre.excl()
            } else {
                pre.excl().update(idx as int, false)
            };
            match first_set_from(fbs_bits(prev), idx as int + 1) {
                Some(k) => {
                    &&& post.phase matches ProbePhase::Fallback(prev2, idx2) && fbs_bits(prev2)
                        == fbs_bits(prev) && idx2 as int == k
                    &&& post.excl() == x1.update(k, true)
                    &&& act is Invoke
                },
                None => {
                    if kept {
                        &&& post.phase is Resolved
                        &&& post.excl() == x1
                        &&& act is Done
                    } else {
                        &&& post.phase is FinalRun
                        &&& post.excl() == x1
                        &&& act is Invoke
                    }
                },
            }
        },
        ProbePhase::FinalRun => {
            &&& post.phase is Resolved
            &&& post.excl() == pre.excl()
            &&& act == if outcome is Success {
                ProbeStep::Done
            } else {
                ProbeStep::Fail
            }
        },
        ProbePhase::Resolved => false,
    }
}

impl UsageProber {
    /// Feeds the machine the outcome of the invocation it last asked
    /// for, and moves it one step, exactly as `step_spec` relates.
    pub fn step(self, outcome: ProbeOutcome) -> (r: (UsageProber, ProbeStep))
        requires
            self.wf(),
            !(self.phase is Resolved),
        ensures
            r.0.wf(),
            step_spec(self, outcome, r.0, r.1),
    {
        let UsageProber { externs, names, mut exclude, phase } = self;
        match phase {
            ProbePhase::Iterating => {
                match outcome {
                    ProbeOutcome::Success => {
                        (
                            UsageProber { externs, names, exclude, phase: ProbePhase::Resolved },
                            ProbeStep::Done,
                        )
                    },
                    ProbeOutcome::Failure(msgs) => {
                        let ghost pre_bits = fbs_bits(exclude);
                        let (updated, abandon) = apply_error_messages(
                            &names,
                            &mut exclude,
                            &msgs,
                        );
                        proof {
                            crate::diag::lemma_dispatch_all_monotone(
                                pre_bits,
                                views(names@),
                                msgs@,
                                0,
                            );
                        }
                        if updated && !abandon {
                            (
                                UsageProber {
                                    externs,
                                    names,
                                    exclude,
                                    phase: ProbePhase::Iterating,
                                },
                                ProbeStep::Invoke,
                            )
                        } else {
                            let n = fbs_len(&exclude);
                            match fbs_first_set_from(&exclude, 0) {
                                Some(k) => {
                                    proof {
                                        lemma_first_set_range(fbs_bits(exclude), 0);
                                    }
                                    let prev = exclude;
                                    let mut fresh = fbs_with_capacity(n);
                                    fbs_insert(&mut fresh, k);
                                    (
                                        UsageProber {
                                            externs,
                                            names,
                                            exclude: fresh,
                                            phase: ProbePhase::Fallback(prev, k),
                                        },
                                        ProbeStep::Invoke,
                                    )
                                },
                                None => {
                                    (
                                        UsageProber {
                                            externs,
                                            names,
                                            exclude,
                                            phase: ProbePhase::Resolved,
                                        },
                                        ProbeStep::Done,
                                    )
                                },
                            }
                        }
                    },
                }
            },
            ProbePhase::Fallback(prev, idx) => {
                proof {
                    assert(self.phase == ProbePhase::Fallback(prev, idx));
                }
                let n_ext = externs.len();
                proof {
                    assert((idx as int) < n_ext as int);
                }
                let kept = match &outcome {
                    ProbeOutcome::Success => true,
                    ProbeOutcome::Failure(_) => false,
                };
                if !kept {
                    fbs_set(&mut exclude, idx, false);
                }
                match fbs_first_set_from(&prev, idx + 1) {
                    Some(k) => {
                        proof {
                            lemma_first_set_range(fbs_bits(prev), idx as int + 1);
                        }
                        fbs_insert(&mut exclude, k);
                        (
                            UsageProber {
                                externs,
                                names,
                                exclude,
                                phase: ProbePhase::Fallback(prev, k),
                            },
                            ProbeStep::Invoke,
                        )
                    },
                    None => {
                        if kept {
                            (
                                UsageProber {
                                    externs,
                                    names,
                                    exclude,
                                    phase: ProbePhase::Resolved,
                                },
                                ProbeStep::Done,
                            )
                        } else {
                            (
                                UsageProber {
                                    externs,
                                    names,
                                    exclude,
                                    phase: ProbePhase::FinalRun,
                                },
                                ProbeStep::Invoke,
                            )
                        }
                    },
                }
            },
            ProbePhase::FinalRun => {
                let act = match &outcome {
                    ProbeOutcome::Success => ProbeStep::Done,
                    ProbeOutcome::Failure(_) => ProbeStep::Fail,
                };
                (UsageProber { externs, names, exclude, phase: ProbePhase::Resolved }, act)
            },
            ProbePhase::Resolved => {
                proof {
                    assert(false);
                }
                (UsageProber { externs, names, exclude, phase: ProbePhase::Resolved },
                ProbeStep::Done)
            },
        }
    }
}

/// `n` spaces.
pub open spec fn spaces(n: int) -> Seq<char>
    decreases n when n >= 0
{
    if n <= 0 {
        Seq::empty()
    } else {
        seq![' '] + spaces(n - 1)
    }
}

/// The longest name length from `i` on.
pub open spec fn max_name_len(names: Seq<Seq<char>>, i: int) -> int
    decreases names.len() - i when 0 <= i <= names.len()
{
    if i < names.len() {
        let rest = max_name_len(names, i + 1);
        if names[i].len() > rest {
            names[i].len() as int
        } else {
            rest
        }
    } else {
        0
    }
}

/// One extern's report line: a tree branch, the name, and its state,
/// with the states aligned under the longest name.
pub open spec fn exclusion_line(
    names: Seq<Seq<char>>,
    bits: Seq<bool>,
    w: int,
    i: int,
) -> Seq<char> {
    (if i + 1 < names.len() {
        "    ├─── "@
    } else {
        "    └─── "@
    }) + names[i] + ": "@ + spaces(w - names[i].len()) + (if bits[i] {
        "off"@
    } else {
        "on"@
    })
}

/// The extern lines of the report, from `i` on.
pub open spec fn exclusion_lines_from(
    names: Seq<Seq<char>>,
    bits: Seq<bool>,
    w: int,
    i: int,
) -> Seq<Seq<char>>
    decreases names.len() - i when 0 <= i <= names.len()
{
    if i < names.len() {
        seq![exclusion_line(names, bits, w, i)] + exclusion_lines_from(names, bits, w, i + 1)
    } else {
        Seq::empty()
    }
}

/// The whole report: the unit in backticks, the target on a tree root,
/// then one aligned on/off line per extern.
pub open spec fn exclusion_report_spec(
    unit: Seq<char>,
    target: Seq<char>,
    names: Seq<Seq<char>>,
    bits: Seq<bool>,
) -> Seq<Seq<char>> {
    seq![seq!['`'] + unit + seq!['`'], "└─── "@ + target] + exclusion_lines_from(
        names,
        bits,
        max_name_len(names, 0),
        0,
    )
}

fn push_spaces(out: &mut Vec<char>, n: usize)
    ensures
        final(out)@ == old(out)@ + spaces(n as int),
{
    let mut i: usize = 0;
    while i < n
        invariant
            i <= n,
            out@ + spaces(n as int - i as int) =~= old(out)@ + spaces(n as int),
        decreases n - i,
    {
        out.push(' ');
        proof {
            assert(out@ + spaces(n as int - i as int - 1) =~= old(out)@ + spaces(n as int));
        }
        i = i + 1;
    }
    proof {
        assert(out@ =~= out@ + spaces(0));
    }
}

impl UsageProber {
    /// Renders the state of the current exclusion set as the progress
    /// report the caller streams to its log: exactly the lines that
    /// `exclusion_report_spec` spells.
    pub fn exclusion_report(&self, unit: &str, target: &str) -> (r: Vec<String>)
        requires
            self.wf(),
        ensures
            views(r@) == exclusion_report_spec(unit@, target@, self.link_names(), self.excl()),
    {
        let ghost nv = self.link_names();
        let ghost bits = self.excl();
        let mut r: Vec<String> = Vec::new();
        let mut head: Vec<char> = Vec::new();
        head.push('`');
        crate::strutil::push_chars_of(&mut head, unit);
        head.push('`');
        let ghost head_view = head@;
        r.push(crate::strutil::string_from_chars(head));
        let mut root: Vec<char> = Vec::new();
        crate::strutil::push_chars_of(&mut root, "└─── ");
        crate::strutil::push_chars_of(&mut root, target);
        let ghost root_view = root@;
        r.push(crate::strutil::string_from_chars(root));
        proof {
            assert(head_view =~= seq!['`'] + unit@ + seq!['`']);
            assert(root_view =~= "└─── "@ + target@);
        }
        let n = self.names.len();
        let mut w: usize = 0;
        let mut i: usize = n;
        while i > 0
            invariant
                self.wf(),
                nv == self.link_names(),
                n == self.names@.len(),
                i <= n,
                w as int == max_name_len(nv, i as int),
            decreases i,
        {
            let len_i = self.names[i - 1].as_str().unicode_len();
            if len_i > w {
                w = len_i;
            }
            i = i - 1;
        }
        proof {
            assert forall|k: int| 0 <= k < n implies nv[k].len() <= w as int by {
                lemma_max_name_len_bound(nv, k);
            }
        }
        let mut i: usize = 0;
        while i < n
            invariant
                self.wf(),
                nv == self.link_names(),
                bits == self.excl(),
                n == self.names@.len(),
                i <= n,
                w as int == max_name_len(nv, 0),
                forall|k: int| 0 <= k < n ==> nv[k].len() <= w as int,
                views(r@) + exclusion_lines_from(nv, bits, w as int, i as int)
                    =~= exclusion_report_spec(unit@, target@, nv, bits),
            decreases n - i,
        {
            let ghost before = views(r@);
            let mut line: Vec<char> = Vec::new();
            if i + 1 < n {
                crate::strutil::push_chars_of(&mut line, "    ├─── ");
            } else {
                crate::strutil::push_chars_of(&mut line, "    └─── ");
            }
            crate::strutil::push_chars_of(&mut line, self.names[i].as_str());
            crate::strutil::push_chars_of(&mut line, ": ");
            let len_i = self.names[i].as_str().unicode_len();
            proof {
                lemma_max_name_len_bound(nv, i as int);
            }
            push_spaces(&mut line, w - len_i);
            if fbs_contains(&self.exclude, i) {
                crate::strutil::push_chars_of(&mut line, "off");
            } else {
                crate::strutil::push_chars_of(&mut line, "on");
            }
            proof {
                assert(line@ =~= exclusion_line(nv, bits, w as int, i as int));
            }
            r.push(crate::strutil::string_from_chars(line));
            proof {
                assert(views(r@) =~= before.push(exclusion_line(nv, bits, w as int, i as int)));
                assert(views(r@) + exclusion_lines_from(nv, bits, w as int, i as int + 1)
                    =~= exclusion_report_spec(unit@, target@, nv, bits));
            }
            i = i + 1;
        }
        proof {
            assert(views(r@) =~= views(r@) + exclusion_lines_from(nv, bits, w as int, n as int));
        }
        r
    }
}

/// Every name is at most the longest.
proof fn lemma_max_name_len_bound(names: Seq<Seq<char>>, i: int)
    requires
        0 <= i < names.len(),
    ensures
        names[i].len() <= max_name_len(names, 0),
    decreases 0int,
{
    lemma_max_name_len_bound_from(names, 0, i);
}

proof fn lemma_max_name_len_bound_from(names: Seq<Seq<char>>, j: int, i: int)
    requires
        0 <= j <= i < names.len(),
    ensures
        names[i].len() <= max_name_len(names, j),
    decreases i - j,
{
    if j < i {
        lemma_max_name_len_bound_from(names, j + 1, i);
    }
}

/// The one entry into `Resolved` that no successful invocation backs: a
/// stalled (or abandoned) iterative pass whose dispatch left nothing
/// excluded at all, so the fallback has no candidate to try.
pub open spec fn degenerate_stall(pre: UsageProber, outcome: ProbeOutcome) -> bool {
    &&& pre.phase is Iterating
    &&& outcome matches ProbeOutcome::Failure(msgs) && {
        let newx = dispatch_all(pre.excl(), pre.link_names(), msgs@, 0);
        &&& (newx == pre.excl() || has_abandon_code(msgs@))
        &&& first_set_from(newx, 0) is None
    }
}

/// Soundness of exclusion: whenever a step resolves the probe with
/// `Done`, the exclusion set it resolves with is exactly the one the
/// just-reported invocation ran with, and that invocation succeeded —
/// so rendering the invocation under the final exclusion set is the
/// invocation that was seen to compile. The one entry this cannot be
/// said of is the degenerate stall, which resolves with every extern
/// included and no successful invocation of its own.
pub proof fn lemma_resolved_only_on_success(
    pre: UsageProber,
    outcome: ProbeOutcome,
    post: UsageProber,
    act: ProbeStep,
)
    requires
        pre.wf(),
        step_spec(pre, outcome, post, act),
        post.phase is Resolved,
        act is Done,
        !degenerate_stall(pre, outcome),
    ensures
        outcome is Success,
        post.excl() == pre.excl(),
{
}

/// Monotonicity of the one-by-one fallback: a fallback step never
/// excludes an extern outside the stalled set `prev`, so every extern
/// the diagnostics-driven pass had already confirmed included (cleared
/// in `prev`) stays included through the whole fallback, whatever the
/// outcomes — the fallback cannot report fewer needed externs than the
/// iterative pass had established.
pub proof fn lemma_fallback_monotone(
    pre: UsageProber,
    outcome: ProbeOutcome,
    post: UsageProber,
    act: ProbeStep,
    prev: fixedbitset::FixedBitSet,
    idx: usize,
)
    requires
        pre.wf(),
        step_spec(pre, outcome, post, act),
        pre.phase == ProbePhase::Fallback(prev, idx),
    ensures
        forall|j: int|
            0 <= j < post.excl().len() && #[trigger] post.excl()[j] ==> fbs_bits(prev)[j],
        post.phase matches ProbePhase::Fallback(prev2, _) ==> fbs_bits(prev2) == fbs_bits(prev),
{
    let kept = outcome is Success;
    let x1 = if kept {
        pre.excl()
    } else {
        pre.excl().update(idx as int, false)
    };
    if first_set_from(fbs_bits(prev), idx as int + 1) is Some {
        lemma_first_set_range(fbs_bits(prev), idx as int + 1);
    }
    assert(forall|j: int| 0 <= j < x1.len() && #[trigger] x1[j] ==> fbs_bits(prev)[j]);
}

/// Fallback monotonicity over a whole run: starting in the fallback
/// with stalled set `prev` and feeding any sequence of outcomes — for
/// any extern ordering — every later state's exclusion set, the final
/// one included, stays within `prev`. So every extern the
/// diagnostics-driven pass had confirmed included is still included
/// when the fallback resolves: the fallback never reports fewer needed
/// externs than the iterative pass had established.
pub proof fn lemma_fallback_monotone_trace(
    states: Seq<UsageProber>,
    outcomes: Seq<ProbeOutcome>,
    acts: Seq<ProbeStep>,
    prev: fixedbitset::FixedBitSet,
    idx: usize,
    t: int,
)
    requires
        states.len() == outcomes.len() + 1,
        acts.len() == outcomes.len(),
        forall|i: int|
            0 <= i < outcomes.len() ==> #[trigger] step_spec(
                states[i],
                outcomes[i],
                states[i + 1],
                acts[i],
            ),
        forall|i: int| 0 <= i < states.len() ==> (#[trigger] states[i]).wf(),
        states[0].phase == ProbePhase::Fallback(prev, idx),
        0 <= t < states.len(),
    ensures
        forall|j: int|
            0 <= j < states[t].excl().len() && #[trigger] states[t].excl()[j] ==> fbs_bits(prev)[
                j
            ],
        states[t].phase matches ProbePhase::Fallback(p2, _) ==> fbs_bits(p2) == fbs_bits(prev),
        states[t].phase is Fallback || states[t].phase is FinalRun || states[t].phase is Resolved,
    decreases t,
{
    if t == 0 {
        assert(states[0].wf());
    } else {
        lemma_fallback_monotone_trace(states, outcomes, acts, prev, idx, t - 1);
        let i = t - 1;
        assert(step_spec(states[i], outcomes[i], states[i + 1], acts[i]));
        assert(states[i + 1] == states[t]);
        match states[t - 1].phase {
            ProbePhase::Fallback(p2, i2) => {
                lemma_fallback_monotone(
                    states[t - 1],
                    outcomes[t - 1],
                    states[t],
                    acts[t - 1],
                    p2,
                    i2,
                );
                assert(forall|j: int|
                    0 <= j < states[t].excl().len() && #[trigger] states[t].excl()[j]
                        ==> fbs_bits(p2)[j]);
            },
            ProbePhase::FinalRun => {},
            _ => {
                assert(false);
            },
        }
    }
}

/// The included set a resolved fallback reports contains every extern
/// the iterative pass had confirmed: entering the fallback with stalled
/// set `prev` and leaving it in any way, every index cleared in `prev`
/// is still cleared in the final exclusion set.
pub proof fn lemma_fallback_keeps_confirmed(
    pre: UsageProber,
    outcome: ProbeOutcome,
    post: UsageProber,
    act: ProbeStep,
    prev: fixedbitset::FixedBitSet,
    idx: usize,
)
    requires
        pre.wf(),
        step_spec(pre, outcome, post, act),
        pre.phase == ProbePhase::Fallback(prev, idx),
    ensures
        forall|j: int|
            0 <= j < post.excl().len() && !fbs_bits(prev)[j] ==> !(#[trigger] post.excl()[j]),
{
    lemma_fallback_monotone(pre, outcome, post, act, prev, idx);
}

} // verus!
