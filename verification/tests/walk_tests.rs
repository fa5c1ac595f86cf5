use cargo_linked::cache::{Cache, CacheKey, CacheUsedPackages, ExecStore};
use cargo_linked::graph::{BuildTarget, DepEdge, Package, ResolveGraph, TargetKind};
use cargo_linked::linked::{map_used_names, unit_link_names, LinkedPackages};
use cargo_linked::PackageId;

fn pid(s: &str) -> PackageId {
    PackageId {
        repr: String::from(s),
    }
}

fn pids(xs: &[&str]) -> Vec<PackageId> {
    xs.iter().map(|s| pid(s)).collect()
}

fn strings(xs: &[&str]) -> Vec<String> {
    xs.iter().map(|s| String::from(*s)).collect()
}

fn reprs(ids: &[PackageId]) -> Vec<String> {
    ids.iter().map(|p| p.repr.clone()).collect()
}

fn lib_target() -> BuildTarget {
    BuildTarget {
        kind: TargetKind::Lib,
        name: String::from("thelib"),
    }
}

fn bin_target(name: &str) -> BuildTarget {
    BuildTarget {
        kind: TargetKind::Bin,
        name: String::from(name),
    }
}

fn edge(to: usize, name: &str, dev: bool) -> DepEdge {
    DepEdge {
        to,
        normal: !dev,
        dev,
        build: false,
        ext_name: String::from(name),
    }
}

/// A → B → C, with D declared by A but never referenced anywhere.
fn four_package_graph(d_is_dev: bool) -> ResolveGraph {
    let a = Package {
        id: pid("a 0.1.0"),
        targets: vec![bin_target("a")],
        deps: vec![edge(1, "b", false), edge(3, "d", d_is_dev)],
        lib_link_name: None,
    };
    let b = Package {
        id: pid("b 0.1.0"),
        targets: vec![lib_target()],
        deps: vec![edge(2, "c", false)],
        lib_link_name: Some(String::from("b")),
    };
    let c = Package {
        id: pid("c 0.1.0"),
        targets: vec![lib_target()],
        deps: Vec::new(),
        lib_link_name: Some(String::from("c")),
    };
    let d = Package {
        id: pid("d 0.1.0"),
        targets: vec![lib_target()],
        deps: Vec::new(),
        lib_link_name: Some(String::from("d")),
    };
    ResolveGraph {
        packages: vec![a, b, c, d],
    }
}

fn entries_for_run() -> Vec<(PackageId, CacheUsedPackages)> {
    let mut store = ExecStore::new(Vec::new());
    // A's binary probe confirmed only b; b's library confirmed c
    store.record(&pid("a 0.1.0"), &bin_target("a"), pids(&["b 0.1.0"]));
    store.record(&pid("b 0.1.0"), &lib_target(), pids(&["c 0.1.0"]));
    store.record(&pid("c 0.1.0"), &lib_target(), Vec::new());
    store.record(&pid("d 0.1.0"), &lib_target(), Vec::new());
    store.used_packages
}

#[test]
fn walker_reaches_transitive_uses_and_reports_unreferenced() {
    let g = four_package_graph(false);
    let entries = entries_for_run();
    let compiled = pids(&["a 0.1.0", "b 0.1.0", "c 0.1.0", "d 0.1.0"]);
    let out = LinkedPackages::find(&g, 0, &bin_target("a"), &entries, &compiled);
    assert_eq!(reprs(&out.used), strings(&["a 0.1.0", "b 0.1.0", "c 0.1.0"]));
    assert_eq!(reprs(&out.unused.trivial), Vec::<String>::new());
    assert_eq!(reprs(&out.unused.maybe_obsolete), strings(&["d 0.1.0"]));
}

#[test]
fn dev_only_declarations_are_trivially_unused() {
    let g = four_package_graph(true);
    let entries = entries_for_run();
    let compiled = pids(&["a 0.1.0", "b 0.1.0", "c 0.1.0", "d 0.1.0"]);
    let out = LinkedPackages::find(&g, 0, &bin_target("a"), &entries, &compiled);
    assert_eq!(reprs(&out.used), strings(&["a 0.1.0", "b 0.1.0", "c 0.1.0"]));
    assert_eq!(reprs(&out.unused.trivial), strings(&["d 0.1.0"]));
    assert_eq!(reprs(&out.unused.maybe_obsolete), Vec::<String>::new());
}

#[test]
fn never_compiled_packages_are_trivially_unused() {
    let g = four_package_graph(false);
    let entries = entries_for_run();
    let compiled = pids(&["a 0.1.0", "b 0.1.0", "c 0.1.0"]);
    let out = LinkedPackages::find(&g, 0, &bin_target("a"), &entries, &compiled);
    assert_eq!(reprs(&out.unused.trivial), strings(&["d 0.1.0"]));
    assert_eq!(reprs(&out.unused.maybe_obsolete), Vec::<String>::new());
}

#[test]
fn probe_with_no_confirmed_uses_keeps_only_the_root() {
    let g = four_package_graph(false);
    let mut store = ExecStore::new(Vec::new());
    store.record(&pid("a 0.1.0"), &bin_target("a"), Vec::new());
    let compiled = pids(&["a 0.1.0", "b 0.1.0", "c 0.1.0", "d 0.1.0"]);
    let out = LinkedPackages::find(&g, 0, &bin_target("a"), &store.used_packages, &compiled);
    assert_eq!(reprs(&out.used), strings(&["a 0.1.0"]));
    assert_eq!(
        reprs(&out.unused.maybe_obsolete),
        strings(&["b 0.1.0", "c 0.1.0", "d 0.1.0"])
    );
}

#[test]
fn link_names_map_names_back_to_packages() {
    let g = four_package_graph(false);
    let links = unit_link_names(&g, 0, TargetKind::Bin);
    let link_view: Vec<(usize, String)> = links.clone();
    assert_eq!(link_view[0], (1, String::from("b")));
    assert_eq!(link_view[1], (3, String::from("d")));
    let used = map_used_names(&links, &strings(&["b"]));
    assert_eq!(used, vec![1]);
}

#[test]
fn a_package_declared_under_two_kinds_maps_once() {
    // the same linkage name on two edges (say normal and build) must not
    // double the package in the confirmed set
    let links = vec![
        (1usize, String::from("serde")),
        (1usize, String::from("serde")),
        (2usize, String::from("log")),
    ];
    let used = map_used_names(&links, &strings(&["serde", "log"]));
    assert_eq!(used, vec![1, 2]);
}

#[test]
fn build_script_units_see_build_dependencies_only() {
    let p = Package {
        id: pid("x 1.0.0"),
        targets: Vec::new(),
        deps: vec![
            DepEdge {
                to: 1,
                normal: true,
                dev: false,
                build: false,
                ext_name: String::from("serde"),
            },
            DepEdge {
                to: 2,
                normal: false,
                dev: false,
                build: true,
                ext_name: String::from("cc"),
            },
        ],
        lib_link_name: Some(String::from("x")),
    };
    let g = ResolveGraph {
        packages: vec![
            p,
            Package {
                id: pid("serde 1.0.0"),
                targets: Vec::new(),
                deps: Vec::new(),
                lib_link_name: Some(String::from("serde")),
            },
            Package {
                id: pid("cc 1.0.0"),
                targets: Vec::new(),
                deps: Vec::new(),
                lib_link_name: Some(String::from("cc")),
            },
        ],
    };
    let links = unit_link_names(&g, 0, TargetKind::CustomBuild);
    assert_eq!(links, vec![(2usize, String::from("cc"))]);
    let links = unit_link_names(&g, 0, TargetKind::Bin);
    // a binary also links the package's own library
    assert_eq!(
        links,
        vec![(1usize, String::from("serde")), (0usize, String::from("x"))]
    );
}

#[test]
fn cached_units_are_not_probed_again() {
    // idempotence: with the artifact unchanged and a populated store, a
    // second pass asks for no probe, so the probe runs zero times
    let mut store = ExecStore::new(Vec::new());
    let id = pid("a 0.1.0");
    let t = bin_target("a");
    assert!(store.needs_fresh_probe(&id, &t, true));
    store.record(&id, &t, pids(&["b 0.1.0"]));
    assert!(!store.needs_fresh_probe(&id, &t, false));
    assert!(!store.needs_fresh_probe(&id, &t, false));
    // another target of the same package still needs its own probe
    assert!(store.needs_fresh_probe(&id, &lib_target(), false));
}

#[test]
fn freshly_recompiled_units_are_probed_despite_the_cache() {
    // staleness: a fresh recompilation owes a probe even with a stored
    // result, so a stale entry can never mask a source change
    let mut store = ExecStore::new(Vec::new());
    let id = pid("u 0.1.0");
    let t = lib_target();
    store.record(&id, &t, pids(&["old 1.0.0"]));
    assert!(store.needs_fresh_probe(&id, &t, true));
    assert!(!store.needs_fresh_probe(&id, &t, false));
}

#[test]
fn recorded_results_are_sorted_and_deduplicated() {
    let mut store = ExecStore::new(Vec::new());
    let id = pid("u 0.1.0");
    let t = lib_target();
    store.record(&id, &t, pids(&["z 1.0.0", "a 1.0.0", "z 1.0.0", "m 1.0.0"]));
    let entry = store
        .used_packages
        .iter()
        .find(|e| e.0.repr == "u 0.1.0")
        .unwrap();
    let got = entry.1.get(&t).unwrap();
    assert_eq!(reprs(got), strings(&["a 1.0.0", "m 1.0.0", "z 1.0.0"]));
}

#[test]
fn fresh_recompilation_overwrites_the_cached_result() {
    // staleness: a fresh probe's record replaces the stale entry
    let mut store = ExecStore::new(Vec::new());
    let id = pid("u 0.1.0");
    let t = lib_target();
    store.record(&id, &t, pids(&["old 1.0.0"]));
    store.record(&id, &t, pids(&["new 2.0.0"]));
    let entry = store
        .used_packages
        .iter()
        .find(|e| e.0.repr == "u 0.1.0")
        .unwrap();
    let got = entry.1.get(&t).unwrap();
    assert_eq!(reprs(got), strings(&["new 2.0.0"]));
}

#[test]
fn cache_sections_round_trip_by_profile() {
    let mut cache = Cache::empty();
    let mut store = ExecStore::new(Vec::new());
    store.record(&pid("a 0.1.0"), &lib_target(), pids(&["b 0.1.0"]));
    cache.insert(CacheKey::new("release"), Vec::new());
    cache.insert(CacheKey::new("dev"), store.used_packages);
    // sections stay ordered by profile key
    assert_eq!(cache.0[0].key.profile_kind, "dev");
    assert_eq!(cache.0[1].key.profile_kind, "release");
    let section = cache.get(&CacheKey::new("dev")).unwrap();
    assert_eq!(section.len(), 1);
    let taken = cache.take_or_default(&CacheKey::new("dev"));
    assert_eq!(taken.len(), 1);
    assert_eq!(cache.0.len(), 1);
    let missing = cache.take_or_default(&CacheKey::new("dev"));
    assert!(missing.is_empty());
}
