use cargo_linked::bits::{fbs_contains, fbs_insert, fbs_with_capacity};
use cargo_linked::error::{Error, ErrorKind};
use cargo_linked::opts::{Extern, RustcOpts};

fn strings(xs: &[&str]) -> Vec<String> {
    xs.iter().map(|s| String::from(*s)).collect()
}

#[test]
fn extern_parses_name_and_keeps_text() {
    let e = Extern::from_str("serde=/path/a.rlib").unwrap();
    assert_eq!(e.name(), "serde");
    assert_eq!(e.as_arg(), "serde=/path/a.rlib");
    let e2 = Extern::from_str("once_cell1=x").unwrap();
    assert_eq!(e2.name(), "once_cell1");
}

#[test]
fn extern_rejects_malformed_values() {
    for bad in ["", "=x", "serde", "se rde=x", "-serde=x"] {
        let err = Extern::from_str(bad).unwrap_err();
        assert!(matches!(err.kind(), ErrorKind::Regex { .. }));
    }
}

#[test]
fn parse_decomposes_a_typical_invocation() {
    let args = strings(&[
        "rustc",
        "--crate-name",
        "foo",
        "--edition",
        "2018",
        "-L",
        "dependency=/deps",
        "--extern",
        "serde=/deps/libserde.rlib",
        "--extern",
        "log=/deps/liblog.rlib",
        "-C",
        "debuginfo=2",
        "--test",
        "src/lib.rs",
    ]);
    let o = RustcOpts::parse(&args).unwrap();
    assert_eq!(o.crate_name.as_deref(), Some("foo"));
    assert_eq!(o.edition.as_deref(), Some("2018"));
    assert_eq!(o.link_path, strings(&["dependency=/deps"]));
    assert_eq!(o.externs.len(), 2);
    assert_eq!(o.externs[0].name(), "serde");
    assert_eq!(o.externs[1].name(), "log");
    assert_eq!(o.codegen, strings(&["debuginfo=2"]));
    assert!(o.test);
    assert_eq!(o.input, "src/lib.rs");
}

#[test]
fn parse_accepts_equals_and_attached_forms() {
    let args = strings(&["rustc", "--crate-name=foo", "-Ldeps", "main.rs"]);
    let o = RustcOpts::parse(&args).unwrap();
    assert_eq!(o.crate_name.as_deref(), Some("foo"));
    assert_eq!(o.link_path, strings(&["deps"]));
    assert_eq!(o.input, "main.rs");
}

#[test]
fn parse_rejects_bad_vectors() {
    // unknown flag
    let e = RustcOpts::parse(&strings(&["rustc", "--no-such-flag", "x.rs"])).unwrap_err();
    assert!(matches!(e.kind(), ErrorKind::ParseRustcOptions { .. }));
    // missing value
    let e = RustcOpts::parse(&strings(&["rustc", "x.rs", "--crate-name"])).unwrap_err();
    assert!(matches!(e.kind(), ErrorKind::ParseRustcOptions { .. }));
    // no input file
    let e = RustcOpts::parse(&strings(&["rustc", "--crate-name", "foo"])).unwrap_err();
    assert!(matches!(e.kind(), ErrorKind::ParseRustcOptions { .. }));
    // two input files
    let e = RustcOpts::parse(&strings(&["rustc", "a.rs", "b.rs"])).unwrap_err();
    assert!(matches!(e.kind(), ErrorKind::ParseRustcOptions { .. }));
    // repeated single-occurrence option
    let e = RustcOpts::parse(&strings(&["rustc", "--crate-name", "a", "--crate-name", "b", "x.rs"]))
        .unwrap_err();
    assert!(matches!(e.kind(), ErrorKind::ParseRustcOptions { .. }));
    // malformed extern value
    let e = RustcOpts::parse(&strings(&["rustc", "--extern", "bad value", "x.rs"])).unwrap_err();
    assert!(matches!(e.kind(), ErrorKind::ParseRustcOptions { .. }));
    // empty vector
    let e = RustcOpts::parse(&Vec::new()).unwrap_err();
    assert!(matches!(e.kind(), ErrorKind::ParseRustcOptions { .. }));
}

#[test]
fn render_preserves_order_and_drops_excluded_externs() {
    let args = strings(&[
        "rustc",
        "--crate-name",
        "foo",
        "--extern",
        "serde=/a.rlib",
        "--extern",
        "regex=/b.rlib",
        "--extern",
        "log=/c.rlib",
        "src/main.rs",
    ]);
    let o = RustcOpts::parse(&args).unwrap();
    let none = fbs_with_capacity(3);
    let rendered = o.to_args(&none, false);
    assert_eq!(
        rendered,
        strings(&[
            "--crate-name",
            "foo",
            "--extern",
            "serde=/a.rlib",
            "--extern",
            "regex=/b.rlib",
            "--extern",
            "log=/c.rlib",
            "src/main.rs",
        ])
    );
    let mut skip_middle = fbs_with_capacity(3);
    fbs_insert(&mut skip_middle, 1);
    let rendered = o.to_args(&skip_middle, false);
    assert_eq!(
        rendered,
        strings(&[
            "--crate-name",
            "foo",
            "--extern",
            "serde=/a.rlib",
            "--extern",
            "log=/c.rlib",
            "src/main.rs",
        ])
    );
    assert!(fbs_contains(&skip_middle, 1));
    assert!(!fbs_contains(&skip_middle, 0));
}

#[test]
fn render_forces_json_diagnostics_when_asked() {
    let args = strings(&["rustc", "--error-format", "human", "x.rs"]);
    let o = RustcOpts::parse(&args).unwrap();
    let none = fbs_with_capacity(0);
    assert_eq!(
        o.to_args(&none, true),
        strings(&["--error-format", "json", "x.rs"])
    );
    assert_eq!(
        o.to_args(&none, false),
        strings(&["--error-format", "human", "x.rs"])
    );
}

#[test]
fn parse_then_render_round_trips_a_canonical_vector() {
    let canonical = strings(&[
        "--cfg",
        "feature=\"std\"",
        "-L",
        "dependency=/deps",
        "--crate-name",
        "foo",
        "--extern",
        "serde=/a.rlib",
        "src/lib.rs",
    ]);
    let mut with_program = strings(&["rustc"]);
    with_program.extend(canonical.iter().cloned());
    let o = RustcOpts::parse(&with_program).unwrap();
    let none = fbs_with_capacity(1);
    assert_eq!(o.to_args(&none, false), canonical);
}

#[test]
fn error_messages_spell_their_kind() {
    let e = Error::from_kind(ErrorKind::AmbiguousTarget);
    assert_eq!(e.message(), "Could not determine which binary to run");
    let e = Error::with_cause(ErrorKind::Cargo, String::from("deeper trouble"));
    assert_eq!(e.message(), "Cargo error");
    assert_eq!(e.causes(), &vec![String::from("deeper trouble")]);
    let e = Error::from_kind(ErrorKind::NoSuchTarget {
        kind: String::from("bin"),
        name: Some(String::from("missing")),
    });
    assert_eq!(e.message(), "No such `bin`: missing");
    let e = Error::from_kind(ErrorKind::NoSuchTarget {
        kind: String::from("lib"),
        name: None,
    });
    assert_eq!(e.message(), "No such `lib`");
}
