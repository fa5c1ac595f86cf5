use cargo_linked::cache::{Cache, CacheKey, CacheUsedPackages, ExecStore};
use cargo_linked::error::ErrorKind;
use cargo_linked::graph::{BuildTarget, TargetKind};
use cargo_linked::linked::{LinkedPackages, LinkedPackagesUnused};
use cargo_linked::logparse::{parse_trace, split_lines, tokenize};
use cargo_linked::parse::{uses_2015, ModScan, ModWalk};
use cargo_linked::path::{Utf8Path, Utf8PathBuf};
use cargo_linked::select::{select_single_target, DemonstrateAction};
use cargo_linked::{CargoLinked, PackageId};

fn strings(xs: &[&str]) -> Vec<String> {
    xs.iter().map(|s| String::from(*s)).collect()
}

fn pid(s: &str) -> PackageId {
    PackageId {
        repr: String::from(s),
    }
}

fn pids(xs: &[&str]) -> Vec<PackageId> {
    xs.iter().map(|s| pid(s)).collect()
}

#[test]
fn tokenizer_honors_posix_quoting() {
    let toks = tokenize("rustc --crate-name foo 'src/my lib.rs' a\\ b", true).unwrap();
    assert_eq!(
        toks,
        strings(&["rustc", "--crate-name", "foo", "src/my lib.rs", "a b"])
    );
    let toks = tokenize("a \"b c\" d", true).unwrap();
    assert_eq!(toks, strings(&["a", "b c", "d"]));
    assert!(tokenize("unterminated 'quote", true).is_none());
    assert!(tokenize("trailing \\", true).is_none());
}

#[test]
fn tokenizer_keeps_single_quotes_literal_off_posix() {
    let toks = tokenize("a 'b' \"c d\"", false).unwrap();
    assert_eq!(toks, strings(&["a", "'b'", "c d"]));
}

#[test]
fn lines_split_like_the_trace_reader_expects() {
    let ls = split_lines("a\nb\r\n\nlast");
    assert_eq!(ls, strings(&["a", "b", "", "last"]));
    let ls = split_lines("closing\n");
    assert_eq!(ls, strings(&["closing"]));
    assert_eq!(split_lines(""), Vec::<String>::new());
}

#[test]
fn trace_round_trips_running_lines() {
    let text = "   Compiling foo v0.1.0 (/work/foo)\n{\"reason\":\"compiler-artifact\"}\n     Running `CARGO_PKG_NAME=foo /usr/bin/rustc --crate-name foo 'src/my lib.rs'`\n     Running `rustc`\n     Running `A=1 B=2 /bin/cc -o out main.c`\n     Finished dev [unoptimized] target(s) in 0.5s\n";
    let invs = parse_trace(text, true).unwrap();
    // the single-token invocation is discarded: two remain
    assert_eq!(invs.len(), 2);
    assert_eq!(
        invs[0].env,
        vec![(String::from("CARGO_PKG_NAME"), String::from("foo"))]
    );
    assert_eq!(
        invs[0].args,
        strings(&["/usr/bin/rustc", "--crate-name", "foo", "src/my lib.rs"])
    );
    assert_eq!(invs[1].env.len(), 2);
    assert_eq!(invs[1].args, strings(&["/bin/cc", "-o", "out", "main.c"]));
}

#[test]
fn trace_splits_windows_environment_prefixes() {
    let text = "     Running `K=V && prog arg1`\n";
    let invs = parse_trace(text, false).unwrap();
    assert_eq!(invs.len(), 1);
    assert_eq!(invs[0].env, vec![(String::from("K"), String::from("V"))]);
    assert_eq!(invs[0].args, strings(&["prog", "arg1"]));
}

#[test]
fn unknown_trace_lines_fail_the_run() {
    let err = parse_trace("something the grammar does not know\n", true).unwrap_err();
    assert!(matches!(err.kind(), ErrorKind::UnparseableTrace { .. }));
    let err = parse_trace("     Running `unterminated 'quote`\n", true).unwrap_err();
    assert!(matches!(err.kind(), ErrorKind::UnparseableTrace { .. }));
}

#[test]
fn mod_walk_follows_declared_modules() {
    let root = Utf8PathBuf::from_string(String::from("src/lib.rs"));
    let mut walk = ModWalk::new(root, strings(&["serde", "log", "regex"]));
    let (primary, alt) = walk.next_request().unwrap();
    assert_eq!(primary.as_str(), "src/lib.rs");
    assert!(alt.is_none());
    walk.supply(&ModScan {
        used_roots: strings(&["serde", "std", "serde"]),
        mods: strings(&["util"]),
    });
    let (primary, alt) = walk.next_request().unwrap();
    assert_eq!(primary.as_str(), "src/util.rs");
    assert_eq!(alt.unwrap().as_str(), "src/util/mod.rs");
    walk.supply(&ModScan {
        used_roots: strings(&["log"]),
        mods: Vec::new(),
    });
    assert!(walk.done());
    assert!(walk.next_request().is_none());
    assert_eq!(walk.confirmed(), strings(&["serde", "log"]));
}

#[test]
fn mod_walk_reaches_nested_modules() {
    let root = Utf8PathBuf::from_string(String::from("src/main.rs"));
    let mut walk = ModWalk::new(root, strings(&["serde"]));
    let _ = walk.next_request().unwrap();
    walk.supply(&ModScan {
        used_roots: Vec::new(),
        mods: strings(&["a"]),
    });
    let _ = walk.next_request().unwrap();
    walk.supply(&ModScan {
        used_roots: Vec::new(),
        mods: strings(&["b"]),
    });
    let (primary, alt) = walk.next_request().unwrap();
    assert_eq!(primary.as_str(), "src/a/b.rs");
    assert_eq!(alt.unwrap().as_str(), "src/a/b/mod.rs");
}

#[test]
fn older_edition_scan_needs_no_walk() {
    let used = uses_2015(false, &strings(&["serde", "foo"]), &strings(&["serde", "log"]));
    assert_eq!(used, strings(&["serde"]));
    let used = uses_2015(true, &strings(&["serde"]), &strings(&["serde"]));
    assert_eq!(used, Vec::<String>::new());
}

#[test]
fn paths_join_and_pop_with_one_separator() {
    let p = Utf8Path::new("src");
    assert!(!p.is_absolute());
    assert_eq!(p.join("lib.rs").as_str(), "src/lib.rs");
    assert_eq!(Utf8Path::new("src/").join("lib.rs").as_str(), "src/lib.rs");
    assert_eq!(Utf8Path::new("src").join("/abs").as_str(), "/abs");
    assert!(Utf8Path::new("/abs").is_absolute());
    let mut b = Utf8PathBuf::from_string(String::from("a/b/c"));
    b.pop();
    assert_eq!(b.as_str(), "a/b");
    let mut b = Utf8PathBuf::from_string(String::from("plain"));
    b.pop();
    assert_eq!(b.as_str(), "");
    let mut b = Utf8PathBuf::from_string(String::from("/root"));
    b.pop();
    assert_eq!(b.as_str(), "/");
}

#[test]
fn report_renders_compact_json() {
    let out = LinkedPackages {
        used: pids(&["a 0.1.0", "b 0.1.0"]),
        unused: LinkedPackagesUnused {
            trivial: pids(&["c \"quoted\""]),
            maybe_obsolete: Vec::new(),
        },
    };
    assert_eq!(
        out.to_json(),
        "{\"used\":[\"a 0.1.0\",\"b 0.1.0\"],\"unused\":{\"trivial\":[\"c \\\"quoted\\\"\"],\"maybe_obsolete\":[]}}"
    );
}

#[test]
fn cache_renders_compact_json() {
    let mut store = ExecStore::new(Vec::new());
    store.record(
        &pid("a 0.1.0"),
        &BuildTarget {
            kind: TargetKind::Bin,
            name: String::from("tool"),
        },
        pids(&["b 0.1.0"]),
    );
    let mut cache = Cache::empty();
    cache.insert(CacheKey::new("dev"), store.used_packages);
    let expected = String::from("[{\"key\":{\"profile_kind\":\"dev\"},\"used_packages\":{\"a 0.1.0\":{\"lib\":null,\"bin\":{\"tool\":[\"b 0.1.0\"]},\"test\":{},\"bench\":{},\"example_lib\":{},\"example_bin\":{},\"custom_build\":null}}}]");
    assert_eq!(cache.to_json(), expected);
    let empty = Cache::empty();
    assert_eq!(empty.to_json(), "[]");
}

fn targets_fixture() -> Vec<BuildTarget> {
    vec![
        BuildTarget {
            kind: TargetKind::Lib,
            name: String::from("mylib"),
        },
        BuildTarget {
            kind: TargetKind::Bin,
            name: String::from("alpha"),
        },
        BuildTarget {
            kind: TargetKind::Bin,
            name: String::from("beta"),
        },
        BuildTarget {
            kind: TargetKind::Test,
            name: String::from("integration"),
        },
    ]
}

#[test]
fn target_selection_follows_the_flags() {
    let ts = targets_fixture();
    let none: Option<String> = None;
    assert_eq!(
        select_single_target(&ts, true, &none, &none, &none, &none, &none).unwrap(),
        0
    );
    let bin = Some(String::from("beta"));
    assert_eq!(
        select_single_target(&ts, false, &bin, &none, &none, &none, &none).unwrap(),
        2
    );
    let test = Some(String::from("integration"));
    assert_eq!(
        select_single_target(&ts, false, &none, &test, &none, &none, &none).unwrap(),
        3
    );
}

#[test]
fn target_selection_reports_missing_and_ambiguous() {
    let ts = targets_fixture();
    let none: Option<String> = None;
    let bad = Some(String::from("nope"));
    let err = select_single_target(&ts, false, &bad, &none, &none, &none, &none).unwrap_err();
    assert!(matches!(err.kind(), ErrorKind::NoSuchTarget { .. }));
    // two binaries and no default run
    let err = select_single_target(&ts, false, &none, &none, &none, &none, &none).unwrap_err();
    assert!(matches!(err.kind(), ErrorKind::AmbiguousTarget));
    // a declared default run resolves the ambiguity
    let run = Some(String::from("alpha"));
    assert_eq!(
        select_single_target(&ts, false, &none, &none, &none, &none, &run).unwrap(),
        1
    );
}

#[test]
fn demonstrate_decisions_match_the_used_set() {
    let current = pid("root 0.1.0");
    let used = pids(&["keep 1.0.0"]);
    let d = cargo_linked::select::demonstrate_action(&current, &used, &pid("root 0.1.0"), false);
    assert!(matches!(d, DemonstrateAction::RunNormally));
    let d = cargo_linked::select::demonstrate_action(&current, &used, &pid("keep 1.0.0"), false);
    assert!(matches!(d, DemonstrateAction::RunNormally));
    let d = cargo_linked::select::demonstrate_action(&current, &used, &pid("drop 1.0.0"), true);
    assert!(matches!(d, DemonstrateAction::StubBuildScript));
    let d = cargo_linked::select::demonstrate_action(&current, &used, &pid("drop 1.0.0"), false);
    assert!(matches!(d, DemonstrateAction::Skip));
}

#[test]
fn run_flags_name_their_profile() {
    let mut flags = CargoLinked {
        demonstrate: false,
        lib: true,
        debug: true,
        all_features: false,
        no_default_features: false,
        frozen: false,
        locked: false,
        offline: false,
        jobs: None,
        bin: None,
        example: None,
        test: None,
        bench: None,
        features: Vec::new(),
        manifest_path: None,
        color: None,
    };
    assert_eq!(flags.profile_name(), "dev");
    flags.debug = false;
    assert_eq!(flags.profile_name(), "release");
    let ts = targets_fixture();
    let none: Option<String> = None;
    assert_eq!(flags.select_target(&ts, &none).unwrap(), 0);
}

#[test]
fn package_identities_compare_by_text() {
    assert!(pid("a 1.0").same_as(&pid("a 1.0")));
    assert!(!pid("a 1.0").same_as(&pid("a 2.0")));
}
