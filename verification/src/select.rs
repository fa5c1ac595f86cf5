//! Choosing the single target a run works on, and what to do with each
//! unit when demonstrating the result.
use vstd::prelude::*;
use vstd::string::StrSliceExecFns;
use crate::error::{Error, ErrorKind};
use crate::graph::{BuildTarget, TargetKind};
use crate::linked::id_present;
use crate::strutil::str_eq;
use crate::PackageId;

verus! {

/// The classes a selection flag can name.
pub enum SelKind {
    Lib,
    Bin,
    AnyBin,
    Test,
    Bench,
    Example,
}

/// Whether one target answers to a selection of the given class and name.
pub open spec fn sel_matches(k: SelKind, t: BuildTarget, name: Seq<char>) -> bool {
    match k {
        SelKind::Lib => t.kind is Lib,
        SelKind::AnyBin => t.kind is Bin,
        SelKind::Bin => t.kind is Bin && t.name@ == name,
        SelKind::Test => t.kind is Test && t.name@ == name,
        SelKind::Bench => t.kind is Bench && t.name@ == name,
        SelKind::Example => (t.kind is ExampleLib || t.kind is ExampleBin) && t.name@ == name,
    }
}

/// First matching target at or after `i`.
pub open spec fn find_target(ts: Seq<BuildTarget>, k: SelKind, name: Seq<char>, i: int) -> Option<
    int,
>
    decreases ts.len() - i when 0 <= i <= ts.len()
{
    if i >= ts.len() {
        None
    } else if sel_matches(k, ts[i], name) {
        Some(i)
    } else {
        find_target(ts, k, name, i + 1)
    }
}

pub proof fn lemma_find_target_skip(ts: Seq<BuildTarget>, k: SelKind, name: Seq<char>, i: int, j: int)
    requires
        0 <= i <= j <= ts.len(),
        forall|m: int| i <= m < j ==> !sel_matches(k, #[trigger] ts[m], name),
    ensures
        find_target(ts, k, name, i) == find_target(ts, k, name, j),
    decreases j - i,
{
    if i < j {
        lemma_find_target_skip(ts, k, name, i + 1, j);
    }
}

pub proof fn lemma_find_target_range(ts: Seq<BuildTarget>, k: SelKind, name: Seq<char>, i: int)
    requires
        0 <= i <= ts.len(),
        find_target(ts, k, name, i) is Some,
    ensures
        i <= find_target(ts, k, name, i)->0 < ts.len(),
        sel_matches(k, ts[find_target(ts, k, name, i)->0], name),
    decreases ts.len() - i,
{
    if i < ts.len() && !sel_matches(k, ts[i], name) {
        lemma_find_target_range(ts, k, name, i + 1);
    }
}

/// How many binary targets there are from `i` on.
pub open spec fn count_bins(ts: Seq<BuildTarget>, i: int) -> int
    decreases ts.len() - i when 0 <= i <= ts.len()
{
    if i < ts.len() {
        (if ts[i].kind is Bin {
            1int
        } else {
            0int
        }) + count_bins(ts, i + 1)
    } else {
        0
    }
}

fn sel_matches_exec(k: &SelKind, t: &BuildTarget, name: &str) -> (r: bool)
    ensures
        r == sel_matches(*k, *t, name@),
{
    match k {
        SelKind::Lib => matches!(t.kind, TargetKind::Lib),
        SelKind::AnyBin => matches!(t.kind, TargetKind::Bin),
        SelKind::Bin => matches!(t.kind, TargetKind::Bin) && str_eq(t.name.as_str(), name),
        SelKind::Test => matches!(t.kind, TargetKind::Test) && str_eq(t.name.as_str(), name),
        SelKind::Bench => matches!(t.kind, TargetKind::Bench) && str_eq(t.name.as_str(), name),
        SelKind::Example => (matches!(t.kind, TargetKind::ExampleLib) || matches!(
            t.kind,
            TargetKind::ExampleBin,
        )) && str_eq(t.name.as_str(), name),
    }
}

/// First target answering to the selection, as an index.
pub fn find_target_exec(ts: &Vec<BuildTarget>, k: SelKind, name: &str) -> (r: Option<usize>)
    ensures
        match r {
            Some(p) => find_target(ts@, k, name@, 0) == Some(p as int),
            None => find_target(ts@, k, name@, 0) is None,
        },
{
    let mut i: usize = 0;
    while i < ts.len()
        invariant
            i <= ts@.len(),
            forall|m: int| 0 <= m < i ==> !sel_matches(k, #[trigger] ts@[m], name@),
        decreases ts@.len() - i,
    {
        if sel_matches_exec(&k, &ts[i], name) {
            proof {
                lemma_find_target_skip(ts@, k, name@, 0, i as int);
            }
            return Some(i);
        }
        i = i + 1;
    }
    proof {
        lemma_find_target_skip(ts@, k, name@, 0, ts@.len() as int);
    }
    None
}

/// The target a selection names, when the flags name exactly one: the
/// library, a named binary / integration test / bench / example, or —
/// with no flag — the only binary, or the one the manifest names as the
/// default run.
pub open spec fn selection_spec(
    ts: Seq<BuildTarget>,
    lib: bool,
    bin: Option<Seq<char>>,
    test: Option<Seq<char>>,
    bench: Option<Seq<char>>,
    example: Option<Seq<char>>,
    default_run: Option<Seq<char>>,
) -> Option<int> {
    if lib {
        find_target(ts, SelKind::Lib, Seq::empty(), 0)
    } else if bin is Some {
        find_target(ts, SelKind::Bin, bin->0, 0)
    } else if test is Some {
        find_target(ts, SelKind::Test, test->0, 0)
    } else if bench is Some {
        find_target(ts, SelKind::Bench, bench->0, 0)
    } else if example is Some {
        find_target(ts, SelKind::Example, example->0, 0)
    } else if count_bins(ts, 0) == 1 {
        find_target(ts, SelKind::AnyBin, Seq::empty(), 0)
    } else {
        match default_run {
            Some(n) => find_target(ts, SelKind::Bin, n, 0),
            None => None,
        }
    }
}

/// Picks the single target the flags name, exactly as `selection_spec`
/// says; when they name none, the error says what was missing, and an
/// unflagged run over several binaries without a declared default is
/// ambiguous.
pub fn select_single_target(
    targets: &Vec<BuildTarget>,
    lib: bool,
    bin: &Option<String>,
    test: &Option<String>,
    bench: &Option<String>,
    example: &Option<String>,
    default_run: &Option<String>,
) -> (r: Result<usize, Error>)
    ensures
        match r {
            Ok(i) => selection_spec(
                targets@,
                lib,
                crate::opts::opt_view(*bin),
                crate::opts::opt_view(*test),
                crate::opts::opt_view(*bench),
                crate::opts::opt_view(*example),
                crate::opts::opt_view(*default_run),
            ) == Some(i as int) && (i as int) < targets@.len(),
            Err(e) => selection_spec(
                targets@,
                lib,
                crate::opts::opt_view(*bin),
                crate::opts::opt_view(*test),
                crate::opts::opt_view(*bench),
                crate::opts::opt_view(*example),
                crate::opts::opt_view(*default_run),
            ) is None && (e.spec_kind() is AmbiguousTarget || e.spec_kind() is NoSuchTarget),
        },
{
    if lib {
        match find_target_exec(targets, SelKind::Lib, "") {
            Some(i) => {
                proof {
                    lemma_find_target_range(targets@, SelKind::Lib, ""@, 0);
                    assert(find_target(targets@, SelKind::Lib, ""@, 0) == find_target(
                        targets@,
                        SelKind::Lib,
                        Seq::<char>::empty(),
                        0,
                    )) by {
                        reveal_strlit("");
                        assert(""@ =~= Seq::<char>::empty());
                    }
                }
                return Ok(i);
            },
            None => {
                proof {
                    reveal_strlit("");
                    assert(""@ =~= Seq::<char>::empty());
                }
                return Err(Error::from_kind(ErrorKind::NoSuchTarget {
                    kind: String::from_str("lib"),
                    name: None,
                }));
            },
        }
    }
    if let Some(n) = bin {
        match find_target_exec(targets, SelKind::Bin, n.as_str()) {
            Some(i) => {
                proof {
                    lemma_find_target_range(targets@, SelKind::Bin, n@, 0);
                }
                return Ok(i);
            },
            None => {
                return Err(Error::from_kind(ErrorKind::NoSuchTarget {
                    kind: String::from_str("bin"),
                    name: Some(n.clone()),
                }));
            },
        }
    }
    if let Some(n) = test {
        match find_target_exec(targets, SelKind::Test, n.as_str()) {
            Some(i) => {
                proof {
                    lemma_find_target_range(targets@, SelKind::Test, n@, 0);
                }
                return Ok(i);
            },
            None => {
                return Err(Error::from_kind(ErrorKind::NoSuchTarget {
                    kind: String::from_str("integration-test"),
                    name: Some(n.clone()),
                }));
            },
        }
    }
    if let Some(n) = bench {
        match find_target_exec(targets, SelKind::Bench, n.as_str()) {
            Some(i) => {
                proof {
                    lemma_find_target_range(targets@, SelKind::Bench, n@, 0);
                }
                return Ok(i);
            },
            None => {
                return Err(Error::from_kind(ErrorKind::NoSuchTarget {
                    kind: String::from_str("bench"),
                    name: Some(n.clone()),
                }));
            },
        }
    }
    if let Some(n) = example {
        match find_target_exec(targets, SelKind::Example, n.as_str()) {
            Some(i) => {
                proof {
                    lemma_find_target_range(targets@, SelKind::Example, n@, 0);
                }
                return Ok(i);
            },
            None => {
                return Err(Error::from_kind(ErrorKind::NoSuchTarget {
                    kind: String::from_str("example"),
                    name: Some(n.clone()),
                }));
            },
        }
    }
    let mut nbins: usize = 0;
    let mut i: usize = 0;
    while i < targets.len()
        invariant
            i <= targets@.len(),
            nbins as int == count_bins(targets@, 0) - count_bins(targets@, i as int),
            nbins <= i,
        decreases targets@.len() - i,
    {
        if matches!(targets[i].kind, TargetKind::Bin) {
            nbins = nbins + 1;
        }
        i = i + 1;
    }
    if nbins == 1 {
        match find_target_exec(targets, SelKind::AnyBin, "") {
            Some(i) => {
                proof {
                    lemma_find_target_range(targets@, SelKind::AnyBin, ""@, 0);
                    reveal_strlit("");
                    assert(""@ =~= Seq::<char>::empty());
                }
                return Ok(i);
            },
            None => {
                proof {
                    lemma_count_bins_found(targets@, 0);
                    reveal_strlit("");
                    assert(""@ =~= Seq::<char>::empty());
                }
                return Err(Error::from_kind(ErrorKind::AmbiguousTarget));
            },
        }
    }
    match default_run {
        Some(n) => {
            match find_target_exec(targets, SelKind::Bin, n.as_str()) {
                Some(i) => {
                    proof {
                        lemma_find_target_range(targets@, SelKind::Bin, n@, 0);
                    }
                    Ok(i)
                },
                None => {
                    Err(Error::from_kind(ErrorKind::NoSuchTarget {
                        kind: String::from_str("bin"),
                        name: Some(n.clone()),
                    }))
                },
            }
        },
        None => Err(Error::from_kind(ErrorKind::AmbiguousTarget)),
    }
}

/// A positive binary count means some binary target exists.
proof fn lemma_count_bins_found(ts: Seq<BuildTarget>, i: int)
    requires
        0 <= i <= ts.len(),
        count_bins(ts, i) > 0,
    ensures
        find_target(ts, SelKind::AnyBin, Seq::empty(), i) is Some,
    decreases ts.len() - i,
{
    if i < ts.len() && !(ts[i].kind is Bin) {
        lemma_count_bins_found(ts, i + 1);
    }
}

/// What the demonstration build does with one unit: the target under
/// test and every used package build normally, other build scripts are
/// stubbed out, and everything else is skipped.
pub enum DemonstrateAction {
    RunNormally,
    StubBuildScript,
    Skip,
}

/// Decides one unit's fate in a demonstration build.
pub fn demonstrate_action(
    current: &PackageId,
    used: &Vec<PackageId>,
    unit: &PackageId,
    is_custom_build: bool,
) -> (r: DemonstrateAction)
    ensures
        r == (if unit.repr@ == current.repr@ || id_present(used@, unit.repr@, 0) {
            DemonstrateAction::RunNormally
        } else if is_custom_build {
            DemonstrateAction::StubBuildScript
        } else {
            DemonstrateAction::Skip
        }),
{
    if str_eq(unit.repr.as_str(), current.repr.as_str()) || crate::linked::id_contains(
        used,
        unit,
    ) {
        DemonstrateAction::RunNormally
    } else if is_custom_build {
        DemonstrateAction::StubBuildScript
    } else {
        DemonstrateAction::Skip
    }
}

} // verus!
