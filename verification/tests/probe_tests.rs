use cargo_linked::bits::{fbs_contains, fbs_with_capacity, fbs_insert};
use cargo_linked::diag::{
    apply_error_messages, e0432_extract, e0433_extract, e0463_extract, parse_diagnostics,
    ErrorMessage,
};
use cargo_linked::error::ErrorKind;
use cargo_linked::opts::Extern;
use cargo_linked::prober::{ProbeOutcome, ProbeStep, UsageProber};

fn strings(xs: &[&str]) -> Vec<String> {
    xs.iter().map(|s| String::from(*s)).collect()
}

fn externs(xs: &[&str]) -> Vec<Extern> {
    xs.iter().map(|s| Extern::from_str(s).unwrap()).collect()
}

fn diag(message: &str, code: Option<&str>) -> ErrorMessage {
    ErrorMessage {
        message: String::from(message),
        code: code.map(String::from),
    }
}

#[test]
fn extractors_read_the_three_message_shapes() {
    assert_eq!(
        e0432_extract("unresolved import `serde`").as_deref(),
        Some("serde")
    );
    assert_eq!(e0432_extract("unresolved import `serde::de`"), None);
    assert_eq!(
        e0463_extract("can't find crate for `log`").as_deref(),
        Some("log")
    );
    assert_eq!(e0463_extract("can't find crate for `log` again"), None);
    assert_eq!(
        e0433_extract("failed to resolve use of undeclared type or module `regex`").as_deref(),
        Some("regex")
    );
    assert_eq!(
        e0433_extract("failed to resolve use of undeclared type or module `regex` in `{{root}}`")
            .as_deref(),
        Some("regex")
    );
    assert_eq!(
        e0433_extract("failed to resolve use of undeclared type or module `regex` in `{{root}}`x"),
        None
    );
    assert_eq!(e0433_extract("failed to resolve `regex`"), None);
}

#[test]
fn dispatch_matches_whole_names_not_substrings() {
    // serde and serde_json share a substring; only the exact name moves
    let names = strings(&["serde", "serde_json"]);
    let mut exclude = fbs_with_capacity(2);
    fbs_insert(&mut exclude, 0);
    fbs_insert(&mut exclude, 1);
    let msgs = vec![diag("unresolved import `serde_json`", Some("E0432"))];
    let (updated, abandon) = apply_error_messages(&names, &mut exclude, &msgs);
    assert!(updated);
    assert!(!abandon);
    assert!(fbs_contains(&exclude, 0));
    assert!(!fbs_contains(&exclude, 1));
}

#[test]
fn dispatch_handles_each_code_family_exactly_once() {
    let names = strings(&["alpha", "beta", "gamma"]);
    let mut exclude = fbs_with_capacity(3);
    for i in 0..3 {
        fbs_insert(&mut exclude, i);
    }
    let msgs = vec![
        diag("unresolved import `alpha`", Some("E0432")),
        diag("failed to resolve use of undeclared crate or module `beta`", Some("E0433")),
        diag("can't find crate for `gamma`", Some("E0463")),
    ];
    let (updated, abandon) = apply_error_messages(&names, &mut exclude, &msgs);
    assert!(updated);
    assert!(!abandon);
    for i in 0..3 {
        assert!(!fbs_contains(&exclude, i));
    }
}

#[test]
fn dispatch_ignores_unknown_codes_and_flags_feature_gates() {
    let names = strings(&["alpha"]);
    let mut exclude = fbs_with_capacity(1);
    fbs_insert(&mut exclude, 0);
    let msgs = vec![
        diag("mismatched types", Some("E0308")),
        diag("use of unstable library feature 'x'", Some("E0658")),
        diag("no code at all", None),
    ];
    let (updated, abandon) = apply_error_messages(&names, &mut exclude, &msgs);
    assert!(!updated);
    assert!(abandon);
    assert!(fbs_contains(&exclude, 0));
}

#[test]
fn probe_resolves_example_scenario() {
    // externs serde, regex, log; the source uses only serde and log
    let (p, step) = UsageProber::new(
        externs(&["serde=/path/a.rlib", "regex=/path/b.rlib", "log=/path/c.rlib"]),
        &Vec::new(),
    );
    assert!(matches!(step, ProbeStep::Invoke));
    let (p, step) = p.step(ProbeOutcome::Failure(vec![diag(
        "can't find crate for `serde`",
        Some("E0463"),
    )]));
    assert!(matches!(step, ProbeStep::Invoke));
    let (p, step) = p.step(ProbeOutcome::Failure(vec![diag(
        "can't find crate for `log`",
        Some("E0463"),
    )]));
    assert!(matches!(step, ProbeStep::Invoke));
    let (p, step) = p.step(ProbeOutcome::Success);
    assert!(matches!(step, ProbeStep::Done));
    assert_eq!(p.included_names(), strings(&["serde", "log"]));
}

#[test]
fn probe_with_no_externs_never_invokes() {
    let (p, step) = UsageProber::new(Vec::new(), &Vec::new());
    assert!(matches!(step, ProbeStep::Done));
    assert_eq!(p.included_names(), Vec::<String>::new());
}

#[test]
fn prefilter_seeds_the_exclusion_set() {
    let (p, step) = UsageProber::new(
        externs(&["serde=/a.rlib", "log=/b.rlib"]),
        &strings(&["serde"]),
    );
    assert!(matches!(step, ProbeStep::Invoke));
    // serde was confirmed by the pre-filter, so only log stays excluded
    let (p, step) = p.step(ProbeOutcome::Success);
    assert!(matches!(step, ProbeStep::Done));
    assert_eq!(p.included_names(), strings(&["serde"]));
}

#[test]
fn stalled_probe_falls_back_one_by_one() {
    // two externs, no diagnostics recognized: the fallback tries each
    let (p, step) = UsageProber::new(externs(&["alpha=/a.rlib", "beta=/b.rlib"]), &Vec::new());
    assert!(matches!(step, ProbeStep::Invoke));
    // stall: failure without a recognizable unresolved-name diagnostic
    let (p, step) = p.step(ProbeOutcome::Failure(vec![diag("mismatched types", Some("E0308"))]));
    assert!(matches!(step, ProbeStep::Invoke));
    // trial: alpha excluded alone; compiling fine means alpha stays out
    let (p, step) = p.step(ProbeOutcome::Success);
    assert!(matches!(step, ProbeStep::Invoke));
    // trial: alpha and beta excluded; failure re-includes beta
    let (p, step) = p.step(ProbeOutcome::Failure(Vec::new()));
    // the last trial failed, so one restoring invocation follows
    assert!(matches!(step, ProbeStep::Invoke));
    let (p, step) = p.step(ProbeOutcome::Success);
    assert!(matches!(step, ProbeStep::Done));
    assert_eq!(p.included_names(), strings(&["beta"]));
}

#[test]
fn fallback_keeps_iteratively_confirmed_externs() {
    // the iterative pass confirms serde, then stalls; the fallback may
    // re-exclude only what was still excluded at the stall
    let (p, step) = UsageProber::new(externs(&["serde=/a.rlib", "log=/b.rlib"]), &Vec::new());
    assert!(matches!(step, ProbeStep::Invoke));
    let (p, step) = p.step(ProbeOutcome::Failure(vec![diag(
        "can't find crate for `serde`",
        Some("E0463"),
    )]));
    assert!(matches!(step, ProbeStep::Invoke));
    let (p, step) = p.step(ProbeOutcome::Failure(vec![diag("mismatched types", Some("E0308"))]));
    // fallback: only log is a candidate; serde stays included throughout
    assert!(matches!(step, ProbeStep::Invoke));
    let (p, step) = p.step(ProbeOutcome::Success);
    assert!(matches!(step, ProbeStep::Done));
    assert_eq!(p.included_names(), strings(&["serde"]));
}

#[test]
fn failed_restoring_run_reports_failure() {
    let (p, step) = UsageProber::new(externs(&["alpha=/a.rlib"]), &Vec::new());
    assert!(matches!(step, ProbeStep::Invoke));
    let (p, step) = p.step(ProbeOutcome::Failure(Vec::new()));
    assert!(matches!(step, ProbeStep::Invoke));
    let (p, step) = p.step(ProbeOutcome::Failure(Vec::new()));
    assert!(matches!(step, ProbeStep::Invoke));
    let (_p, step) = p.step(ProbeOutcome::Failure(Vec::new()));
    assert!(matches!(step, ProbeStep::Fail));
}

#[test]
fn diagnostics_parse_from_json_lines() {
    let lines = strings(&[
        "{\"message\":\"can't find crate for `serde`\",\"code\":{\"code\":\"E0463\"}}",
        "{\"message\":\"aborting due to previous error\",\"code\":null}",
        "{\"message\":\"just text\"}",
    ]);
    let ds = parse_diagnostics(&lines).unwrap();
    assert_eq!(ds.len(), 3);
    assert_eq!(ds[0].message, "can't find crate for `serde`");
    assert_eq!(ds[0].code.as_deref(), Some("E0463"));
    assert_eq!(ds[1].code, None);
    assert_eq!(ds[2].message, "just text");
    assert_eq!(ds[2].code, None);
}

#[test]
fn malformed_diagnostic_lines_fail_the_probe() {
    let lines = strings(&["{\"message\":\"ok\"}", "not json at all"]);
    let err = parse_diagnostics(&lines).unwrap_err();
    assert!(matches!(err.kind(), ErrorKind::MalformedDiagnostic { .. }));
    let lines = strings(&["{\"nomessage\":true}"]);
    let err = parse_diagnostics(&lines).unwrap_err();
    assert!(matches!(err.kind(), ErrorKind::MalformedDiagnostic { .. }));
}

#[test]
fn exclusion_report_aligns_names() {
    let (p, _) = UsageProber::new(
        externs(&["serde=/a.rlib", "log=/b.rlib"]),
        &strings(&["serde"]),
    );
    let lines = p.exclusion_report("a 0.1.0", "bin `a`");
    assert_eq!(
        lines,
        strings(&[
            "`a 0.1.0`",
            "└─── bin `a`",
            "    ├─── serde: on",
            "    └─── log:   off",
        ])
    );
}
