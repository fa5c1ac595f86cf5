//! The compiler-invocation model: one invocation's argument vector as
//! structured data, rendered back with any chosen subset of its
//! `--extern` arguments left out.
use vstd::prelude::*;
use vstd::string::StrSliceExecFns;
use crate::bits::{fbs_bits, fbs_contains};
use crate::error::{Error, ErrorKind};
use crate::strutil::{clone_strings, starts_with_spec, str_eq, str_starts_with};

verus! {

/// One character of a crate linkage name.
pub open spec fn is_ident_char(c: char) -> bool {
    ('a' <= c && c <= 'z') || ('A' <= c && c <= 'Z') || ('0' <= c && c <= '9') || c == '_'
}

pub fn ident_char(c: char) -> (r: bool)
    ensures
        r == is_ident_char(c),
{
    ('a' <= c && c <= 'z') || ('A' <= c && c <= 'Z') || ('0' <= c && c <= '9') || c == '_'
}

/// Length of the run of ident characters in `s` starting at `i`.
pub open spec fn ident_run(s: Seq<char>, i: int) -> int
    decreases s.len() - i when 0 <= i <= s.len()
{
    if i < s.len() && is_ident_char(s[i]) {
        1 + ident_run(s, i + 1)
    } else {
        0
    }
}

/// The run length is exactly the distance to the first non-ident position.
pub proof fn lemma_ident_run_at(s: Seq<char>, i: int, j: int)
    requires
        0 <= j <= i <= s.len(),
        forall|m: int| j <= m < i ==> is_ident_char(s[m]),
        i == s.len() || !is_ident_char(s[i]),
    ensures
        ident_run(s, j) == i - j,
    decreases i - j,
{
    if j < i {
        lemma_ident_run_at(s, i, j + 1);
    }
}

/// The linkage name of a well-shaped `--extern` value `name=path`: a
/// nonempty ident run followed by `=`.
pub open spec fn extern_name_of(s: Seq<char>) -> Option<Seq<char>> {
    let r = ident_run(s, 0);
    if 0 < r < s.len() && s[r] == '=' {
        Some(s.subrange(0, r))
    } else {
        None
    }
}

/// One `--extern` argument: the full `name=path` text together with the
/// length of its linkage name.
#[derive(Debug)]
pub struct Extern {
    string: String,
    name_len: usize,
}

impl Extern {
    /// The full `name=path` text.
    pub closed spec fn text(&self) -> Seq<char> {
        self.string@
    }

    /// The linkage name, i.e. the text before the first `=`.
    pub closed spec fn spec_name(&self) -> Seq<char> {
        self.string@.subrange(0, self.name_len as int)
    }

    pub closed spec fn wf(&self) -> bool {
        &&& 0 < (self.name_len as int) < self.string@.len()
        &&& self.string@[self.name_len as int] == '='
        &&& forall|i: int| 0 <= i < self.name_len ==> is_ident_char(self.string@[i])
        &&& extern_name_of(self.string@) == Some(self.spec_name())
    }

    /// Parses `name=path`; anything whose head is not a nonempty
    /// `[A-Za-z0-9_]+` run directly followed by `=` is malformed.
    pub fn from_str(s: &str) -> (r: Result<Extern, Error>)
        ensures
            match r {
                Ok(e) => {
                    &&& e.wf()
                    &&& e.text() == s@
                    &&& extern_name_of(s@) == Some(e.spec_name())
                },
                Err(e) => {
                    &&& extern_name_of(s@) is None
                    &&& e.spec_kind() matches ErrorKind::Regex { text, .. } && text@ == s@
                },
            },
    {
        let n = s.unicode_len();
        let mut i: usize = 0;
        while i < n && ident_char(s.get_char(i))
            invariant
                n == s@.len(),
                i <= n,
                forall|m: int| 0 <= m < i ==> is_ident_char(s@[m]),
            decreases n - i,
        {
            i = i + 1;
        }
        proof {
            lemma_ident_run_at(s@, i as int, 0);
        }
        if 0 < i && i < n && s.get_char(i) == '=' {
            Ok(Extern { string: s.to_owned(), name_len: i })
        } else {
            Err(Error::from_kind(ErrorKind::Regex {
                text: s.to_owned(),
                regex: String::from_str("\\A([a-zA-Z0-9_]+)=.*\\z"),
            }))
        }
    }

    /// The linkage name this argument supplies.
    pub fn name(&self) -> (r: &str)
        requires
            self.wf(),
        ensures
            r@ == self.spec_name(),
    {
        self.string.as_str().substring_char(0, self.name_len)
    }

    /// The full argument text, as handed back to the compiler.
    pub fn as_arg(&self) -> (r: &str)
        ensures
            r@ == self.text(),
    {
        self.string.as_str()
    }
}

/// The views of a vector of strings.
pub open spec fn views(v: Seq<String>) -> Seq<Seq<char>> {
    v.map(|i: int, s: String| s@)
}

proof fn lemma_views_push(v: Seq<String>, x: String)
    ensures
        views(v.push(x)) =~= views(v).push(x@),
{
}

/// A repeated option: `flag v` for each value, in order, from index `i` on.
pub open spec fn seg_multi(flag: Seq<char>, vals: Seq<Seq<char>>, i: int) -> Seq<Seq<char>>
    decreases vals.len() - i when 0 <= i <= vals.len()
{
    if i < vals.len() {
        seq![flag, vals[i]] + seg_multi(flag, vals, i + 1)
    } else {
        Seq::empty()
    }
}

/// An optional option: `flag v` when present, nothing otherwise.
pub open spec fn seg_opt(flag: Seq<char>, val: Option<Seq<char>>) -> Seq<Seq<char>> {
    match val {
        Some(v) => seq![flag, v],
        None => Seq::empty(),
    }
}

pub open spec fn opt_view(v: Option<String>) -> Option<Seq<char>> {
    match v {
        Some(s) => Some(s@),
        None => None,
    }
}

/// A bare switch: `flag` when set, nothing otherwise.
pub open spec fn seg_flag(flag: Seq<char>, on: bool) -> Seq<Seq<char>> {
    if on {
        seq![flag]
    } else {
        Seq::empty()
    }
}

/// The surviving `--extern` arguments from index `i` on: each one whose
/// index is not excluded, in the original order.
pub open spec fn seg_externs(excl: Seq<bool>, xs: Seq<Seq<char>>, i: int) -> Seq<Seq<char>>
    decreases xs.len() - i when 0 <= i <= xs.len()
{
    if i < xs.len() {
        (if !excl[i] {
            seq!["--extern"@, xs[i]]
        } else {
            Seq::empty()
        }) + seg_externs(excl, xs, i + 1)
    } else {
        Seq::empty()
    }
}

/// The texts of a vector of extern arguments.
pub open spec fn extern_texts(xs: Seq<Extern>) -> Seq<Seq<char>> {
    xs.map(|i: int, e: Extern| e.text())
}

/// Concatenation of sequences associates.
pub proof fn lemma_cat3<A>(a: Seq<A>, b: Seq<A>, c: Seq<A>)
    ensures
        (a + b) + c == a + (b + c),
{
    assert((a + b) + c =~= a + (b + c));
}

fn push_multi(args: &mut Vec<String>, flag: &str, vals: &Vec<String>)
    ensures
        views(final(args)@) == views(old(args)@) + seg_multi(flag@, views(vals@), 0),
{
    let ghost all = views(vals@);
    let mut i: usize = 0;
    while i < vals.len()
        invariant
            i <= vals.len(),
            all == views(vals@),
            views(args@) + seg_multi(flag@, all, i as int) =~= views(old(args)@) + seg_multi(
                flag@,
                all,
                0,
            ),
        decreases vals.len() - i,
    {
        let ghost before = args@;
        args.push(flag.to_owned());
        args.push(vals[i].clone());
        proof {
            assert(views(args@) =~= views(before) + seq![flag@, all[i as int]]);
            assert(views(args@) + seg_multi(flag@, all, i as int + 1) =~= views(old(args)@)
                + seg_multi(flag@, all, 0));
        }
        i = i + 1;
    }
    proof {
        assert(views(args@) =~= views(args@) + seg_multi(flag@, all, vals@.len() as int));
    }
}

fn push_opt(args: &mut Vec<String>, flag: &str, val: &Option<String>)
    ensures
        views(final(args)@) == views(old(args)@) + seg_opt(flag@, opt_view(*val)),
{
    match val {
        Some(v) => {
            let ghost before = args@;
            args.push(flag.to_owned());
            args.push(v.clone());
            proof {
                assert(views(args@) =~= views(before) + seg_opt(flag@, opt_view(*val)));
            }
        },
        None => {
            proof {
                assert(views(args@) =~= views(args@) + seg_opt(flag@, opt_view(*val)));
            }
        },
    }
}

fn push_switch(args: &mut Vec<String>, flag: &str, on: bool)
    ensures
        views(final(args)@) == views(old(args)@) + seg_flag(flag@, on),
{
    let ghost before = args@;
    if on {
        args.push(flag.to_owned());
    }
    proof {
        assert(views(args@) =~= views(before) + seg_flag(flag@, on));
    }
}

fn push_externs(args: &mut Vec<String>, excl: &fixedbitset::FixedBitSet, xs: &Vec<Extern>)
    requires
        fbs_bits(*excl).len() == xs@.len(),
    ensures
        views(final(args)@) == views(old(args)@) + seg_externs(
            fbs_bits(*excl),
            extern_texts(xs@),
            0,
        ),
{
    let ghost bits = fbs_bits(*excl);
    let ghost all = extern_texts(xs@);
    let mut i: usize = 0;
    while i < xs.len()
        invariant
            i <= xs.len(),
            bits == fbs_bits(*excl),
            all == extern_texts(xs@),
            bits.len() == xs@.len(),
            views(args@) + seg_externs(bits, all, i as int) =~= views(old(args)@) + seg_externs(
                bits,
                all,
                0,
            ),
        decreases xs.len() - i,
    {
        let ghost before = args@;
        if !fbs_contains(excl, i) {
            args.push(String::from_str("--extern"));
            args.push(xs[i].as_arg().to_owned());
            proof {
                assert(views(args@) =~= views(before) + seq!["--extern"@, all[i as int]]);
            }
        }
        proof {
            assert(views(args@) + seg_externs(bits, all, i as int + 1) =~= views(old(args)@)
                + seg_externs(bits, all, 0));
        }
        i = i + 1;
    }
    proof {
        assert(views(args@) =~= views(args@) + seg_externs(bits, all, xs@.len() as int));
    }
}

/// One compiler invocation, decomposed into the option groups this crate
/// recognizes. Only the `--extern` list is interpreted; every other field
/// is carried through opaquely and re-rendered as it came.
#[derive(Debug)]
pub struct RustcOpts {
    pub cfg: Vec<String>,
    pub link_path: Vec<String>,
    pub link_crate: Vec<String>,
    pub crate_type: Option<String>,
    pub crate_name: Option<String>,
    pub edition: Option<String>,
    pub emit: Option<String>,
    pub print: Option<String>,
    pub debuginfo_2: bool,
    pub opt_level_2: bool,
    pub output: Option<String>,
    pub test: bool,
    pub out_dir: Option<String>,
    pub explain: Vec<String>,
    pub target: Option<String>,
    pub warn: Vec<String>,
    pub allow: Vec<String>,
    pub deny: Vec<String>,
    pub forbid: Vec<String>,
    pub cap_lints: Option<String>,
    pub codegen: Vec<String>,
    pub verbose: bool,
    pub externs: Vec<Extern>,
    pub extern_private: Vec<String>,
    pub sysroot: Option<String>,
    pub error_format: Option<String>,
    pub color: Option<String>,
    pub remap_path_prefix: Option<String>,
    pub input: String,
}

impl RustcOpts {
    pub open spec fn wf(&self) -> bool {
        forall|i: int| 0 <= i < self.externs@.len() ==> (#[trigger] self.externs@[i]).wf()
    }

    /// The option groups up to and including `--target`, in render order.
    pub open spec fn head_args(&self) -> Seq<Seq<char>> {
        seg_multi("--cfg"@, views(self.cfg@), 0) + seg_multi("-L"@, views(self.link_path@), 0)
            + seg_multi("-l"@, views(self.link_crate@), 0) + seg_opt(
            "--crate-type"@,
            opt_view(self.crate_type),
        ) + seg_opt("--crate-name"@, opt_view(self.crate_name)) + seg_opt(
            "--edition"@,
            opt_view(self.edition),
        ) + seg_opt("--emit"@, opt_view(self.emit)) + seg_opt("--print"@, opt_view(self.print))
            + seg_flag("-g"@, self.debuginfo_2) + seg_flag("-O"@, self.opt_level_2) + seg_opt(
            "-o"@,
            opt_view(self.output),
        ) + seg_opt("--out-dir"@, opt_view(self.out_dir)) + seg_multi(
            "--explain"@,
            views(self.explain@),
            0,
        ) + seg_flag("--test"@, self.test) + seg_opt("--target"@, opt_view(self.target))
    }

    /// The lint-related option groups, in render order.
    pub open spec fn lint_args(&self) -> Seq<Seq<char>> {
        seg_multi("--warn"@, views(self.warn@), 0) + seg_multi("--allow"@, views(self.allow@), 0)
            + seg_multi("--deny"@, views(self.deny@), 0) + seg_multi(
            "--forbid"@,
            views(self.forbid@),
            0,
        ) + seg_opt("--cap-lints"@, opt_view(self.cap_lints)) + seg_multi(
            "--codegen"@,
            views(self.codegen@),
            0,
        ) + seg_flag("--verbose"@, self.verbose)
    }

    /// Everything after the lint groups: the surviving externs, then the
    /// remaining options, then the input file.
    pub open spec fn tail_args(&self, excl: Seq<bool>, error_format_json: bool) -> Seq<Seq<char>> {
        seg_externs(excl, extern_texts(self.externs@), 0) + seg_multi(
            "--extern-private"@,
            views(self.extern_private@),
            0,
        ) + seg_opt("--sysroot"@, opt_view(self.sysroot)) + (if error_format_json {
            seq!["--error-format"@, "json"@]
        } else {
            seg_opt("--error-format"@, opt_view(self.error_format))
        }) + seg_opt("--color"@, opt_view(self.color)) + seg_opt(
            "--remap-path-prefix"@,
            opt_view(self.remap_path_prefix),
        ) + seq![self.input@]
    }

    /// The full rendering of this invocation with the excluded externs
    /// left out: every other option survives unchanged and in order.
    pub open spec fn args_spec(&self, excl: Seq<bool>, error_format_json: bool) -> Seq<Seq<char>> {
        self.head_args() + self.lint_args() + self.tail_args(excl, error_format_json)
    }

    fn emit_head(&self, args: &mut Vec<String>)
        ensures
            views(final(args)@) == views(old(args)@) + self.head_args(),
    {
        let ghost o = views(old(args)@);
        push_multi(args, "--cfg", &self.cfg);
        let ghost p = seg_multi("--cfg"@, views(self.cfg@), 0);
        push_multi(args, "-L", &self.link_path);
        proof {
            lemma_cat3(o, p, seg_multi("-L"@, views(self.link_path@), 0));
        }
        let ghost p = p + seg_multi("-L"@, views(self.link_path@), 0);
        push_multi(args, "-l", &self.link_crate);
        proof {
            lemma_cat3(o, p, seg_multi("-l"@, views(self.link_crate@), 0));
        }
        let ghost p = p + seg_multi("-l"@, views(self.link_crate@), 0);
        push_opt(args, "--crate-type", &self.crate_type);
        proof {
            lemma_cat3(o, p, seg_opt("--crate-type"@, opt_view(self.crate_type)));
        }
        let ghost p = p + seg_opt("--crate-type"@, opt_view(self.crate_type));
        push_opt(args, "--crate-name", &self.crate_name);
        proof {
            lemma_cat3(o, p, seg_opt("--crate-name"@, opt_view(self.crate_name)));
        }
        let ghost p = p + seg_opt("--crate-name"@, opt_view(self.crate_name));
        push_opt(args, "--edition", &self.edition);
        proof {
            lemma_cat3(o, p, seg_opt("--edition"@, opt_view(self.edition)));
        }
        let ghost p = p + seg_opt("--edition"@, opt_view(self.edition));
        push_opt(args, "--emit", &self.emit);
        proof {
            lemma_cat3(o, p, seg_opt("--emit"@, opt_view(self.emit)));
        }
        let ghost p = p + seg_opt("--emit"@, opt_view(self.emit));
        push_opt(args, "--print", &self.print);
        proof {
            lemma_cat3(o, p, seg_opt("--print"@, opt_view(self.print)));
        }
        let ghost p = p + seg_opt("--print"@, opt_view(self.print));
        push_switch(args, "-g", self.debuginfo_2);
        proof {
            lemma_cat3(o, p, seg_flag("-g"@, self.debuginfo_2));
        }
        let ghost p = p + seg_flag("-g"@, self.debuginfo_2);
        push_switch(args, "-O", self.opt_level_2);
        proof {
            lemma_cat3(o, p, seg_flag("-O"@, self.opt_level_2));
        }
        let ghost p = p + seg_flag("-O"@, self.opt_level_2);
        push_opt(args, "-o", &self.output);
        proof {
            lemma_cat3(o, p, seg_opt("-o"@, opt_view(self.output)));
        }
        let ghost p = p + seg_opt("-o"@, opt_view(self.output));
        push_opt(args, "--out-dir", &self.out_dir);
        proof {
            lemma_cat3(o, p, seg_opt("--out-dir"@, opt_view(self.out_dir)));
        }
        let ghost p = p + seg_opt("--out-dir"@, opt_view(self.out_dir));
        push_multi(args, "--explain", &self.explain);
        proof {
            lemma_cat3(o, p, seg_multi("--explain"@, views(self.explain@), 0));
        }
        let ghost p = p + seg_multi("--explain"@, views(self.explain@), 0);
        push_switch(args, "--test", self.test);
        proof {
            lemma_cat3(o, p, seg_flag("--test"@, self.test));
        }
        let ghost p = p + seg_flag("--test"@, self.test);
        push_opt(args, "--target", &self.target);
        proof {
            lemma_cat3(o, p, seg_opt("--target"@, opt_view(self.target)));
        }
    }

    fn emit_lints(&self, args: &mut Vec<String>)
        ensures
            views(final(args)@) == views(old(args)@) + self.lint_args(),
    {
        let ghost o = views(old(args)@);
        push_multi(args, "--warn", &self.warn);
        let ghost p = seg_multi("--warn"@, views(self.warn@), 0);
        push_multi(args, "--allow", &self.allow);
        proof {
            lemma_cat3(o, p, seg_multi("--allow"@, views(self.allow@), 0));
        }
        let ghost p = p + seg_multi("--allow"@, views(self.allow@), 0);
        push_multi(args, "--deny", &self.deny);
        proof {
            lemma_cat3(o, p, seg_multi("--deny"@, views(self.deny@), 0));
        }
        let ghost p = p + seg_multi("--deny"@, views(self.deny@), 0);
        push_multi(args, "--forbid", &self.forbid);
        proof {
            lemma_cat3(o, p, seg_multi("--forbid"@, views(self.forbid@), 0));
        }
        let ghost p = p + seg_multi("--forbid"@, views(self.forbid@), 0);
        push_opt(args, "--cap-lints", &self.cap_lints);
        proof {
            lemma_cat3(o, p, seg_opt("--cap-lints"@, opt_view(self.cap_lints)));
        }
        let ghost p = p + seg_opt("--cap-lints"@, opt_view(self.cap_lints));
        push_multi(args, "--codegen", &self.codegen);
        proof {
            lemma_cat3(o, p, seg_multi("--codegen"@, views(self.codegen@), 0));
        }
        let ghost p = p + seg_multi("--codegen"@, views(self.codegen@), 0);
        push_switch(args, "--verbose", self.verbose);
        proof {
            lemma_cat3(o, p, seg_flag("--verbose"@, self.verbose));
        }
    }

    fn emit_tail(
        &self,
        args: &mut Vec<String>,
        exclude: &fixedbitset::FixedBitSet,
        error_format_json: bool,
    )
        requires
            fbs_bits(*exclude).len() == self.externs@.len(),
        ensures
            views(final(args)@) == views(old(args)@) + self.tail_args(
                fbs_bits(*exclude),
                error_format_json,
            ),
    {
        let ghost o = views(old(args)@);
        push_externs(args, exclude, &self.externs);
        let ghost p = seg_externs(fbs_bits(*exclude), extern_texts(self.externs@), 0);
        push_multi(args, "--extern-private", &self.extern_private);
        proof {
            lemma_cat3(o, p, seg_multi("--extern-private"@, views(self.extern_private@), 0));
        }
        let ghost p = p + seg_multi("--extern-private"@, views(self.extern_private@), 0);
        push_opt(args, "--sysroot", &self.sysroot);
        proof {
            lemma_cat3(o, p, seg_opt("--sysroot"@, opt_view(self.sysroot)));
        }
        let ghost p = p + seg_opt("--sysroot"@, opt_view(self.sysroot));
        let ghost ef: Seq<Seq<char>> = if error_format_json {
            seq!["--error-format"@, "json"@]
        } else {
            seg_opt("--error-format"@, opt_view(self.error_format))
        };
        if error_format_json {
            let ghost before = args@;
            args.push(String::from_str("--error-format"));
            args.push(String::from_str("json"));
            proof {
                assert(views(args@) =~= views(before) + ef);
            }
        } else {
            push_opt(args, "--error-format", &self.error_format);
        }
        proof {
            lemma_cat3(o, p, ef);
        }
        let ghost p = p + ef;
        push_opt(args, "--color", &self.color);
        proof {
            lemma_cat3(o, p, seg_opt("--color"@, opt_view(self.color)));
        }
        let ghost p = p + seg_opt("--color"@, opt_view(self.color));
        push_opt(args, "--remap-path-prefix", &self.remap_path_prefix);
        proof {
            lemma_cat3(o, p, seg_opt("--remap-path-prefix"@, opt_view(self.remap_path_prefix)));
        }
        let ghost p = p + seg_opt("--remap-path-prefix"@, opt_view(self.remap_path_prefix));
        let ghost before_input = args@;
        args.push(self.input.clone());
        proof {
            assert(views(args@) =~= views(before_input) + seq![self.input@]);
            lemma_cat3(o, p, seq![self.input@]);
        }
    }

    /// Renders the argument vector, omitting exactly the `--extern`
    /// arguments whose index is set in `exclude`, and forcing JSON
    /// diagnostics when asked to.
    pub fn to_args(&self, exclude: &fixedbitset::FixedBitSet, error_format_json: bool) -> (r: Vec<
        String,
    >)
        requires
            fbs_bits(*exclude).len() == self.externs@.len(),
        ensures
            views(r@) == self.args_spec(fbs_bits(*exclude), error_format_json),
    {
        let mut args: Vec<String> = Vec::new();
        proof {
            assert(views(args@) =~= Seq::<Seq<char>>::empty());
        }
        self.emit_head(&mut args);
        self.emit_lints(&mut args);
        self.emit_tail(&mut args, exclude, error_format_json);
        proof {
            assert(views(args@) =~= self.args_spec(fbs_bits(*exclude), error_format_json));
        }
        args
    }
}

/// The mathematical content of a parsed invocation: every field of
/// `RustcOpts` as plain sequences, with the input file still optional
/// while parsing is under way.
#[verifier::ext_equal]
pub struct OptsModel {
    pub cfg: Seq<Seq<char>>,
    pub link_path: Seq<Seq<char>>,
    pub link_crate: Seq<Seq<char>>,
    pub crate_type: Option<Seq<char>>,
    pub crate_name: Option<Seq<char>>,
    pub edition: Option<Seq<char>>,
    pub emit: Option<Seq<char>>,
    pub print: Option<Seq<char>>,
    pub debuginfo_2: bool,
    pub opt_level_2: bool,
    pub output: Option<Seq<char>>,
    pub test: bool,
    pub out_dir: Option<Seq<char>>,
    pub explain: Seq<Seq<char>>,
    pub target: Option<Seq<char>>,
    pub warn: Seq<Seq<char>>,
    pub allow: Seq<Seq<char>>,
    pub deny: Seq<Seq<char>>,
    pub forbid: Seq<Seq<char>>,
    pub cap_lints: Option<Seq<char>>,
    pub codegen: Seq<Seq<char>>,
    pub verbose: bool,
    pub externs: Seq<Seq<char>>,
    pub extern_private: Seq<Seq<char>>,
    pub sysroot: Option<Seq<char>>,
    pub error_format: Option<Seq<char>>,
    pub color: Option<Seq<char>>,
    pub remap_path_prefix: Option<Seq<char>>,
    pub input: Option<Seq<char>>,
}

/// The model with nothing parsed yet.
pub open spec fn empty_model() -> OptsModel {
    OptsModel {
        cfg: Seq::empty(),
        link_path: Seq::empty(),
        link_crate: Seq::empty(),
        crate_type: None,
        crate_name: None,
        edition: None,
        emit: None,
        print: None,
        debuginfo_2: false,
        opt_level_2: false,
        output: None,
        test: false,
        out_dir: None,
        explain: Seq::empty(),
        target: None,
        warn: Seq::empty(),
        allow: Seq::empty(),
        deny: Seq::empty(),
        forbid: Seq::empty(),
        cap_lints: None,
        codegen: Seq::empty(),
        verbose: false,
        externs: Seq::empty(),
        extern_private: Seq::empty(),
        sysroot: None,
        error_format: None,
        color: None,
        remap_path_prefix: None,
        input: None,
    }
}

/// The recognized option groups.
pub enum FlagId {
    Cfg,
    LinkPath,
    LinkCrate,
    CrateType,
    CrateName,
    Edition,
    Emit,
    Print,
    Debuginfo2,
    OptLevel2,
    Output,
    Test,
    OutDir,
    Explain,
    Target,
    Warn,
    Allow,
    Deny,
    Forbid,
    CapLints,
    Codegen,
    Verbose,
    ExternArg,
    ExternPrivate,
    Sysroot,
    ErrorFormat,
    Color,
    RemapPathPrefix,
}

/// What one argument is, before any value from the following argument
/// is attached.
pub enum ArgClass {
    /// An option that takes its value from the next argument.
    TakesValue(FlagId),
    /// An option with its value attached (`--flag=v` or `-Xv`).
    Inline(FlagId, Seq<char>),
    /// A bare switch.
    Switch(FlagId),
    /// The positional input file.
    Positional(Seq<char>),
    /// Nothing this model recognizes.
    Unknown,
}

/// Classification of one long option that takes a value.
pub open spec fn long_val(s: Seq<char>, flag: Seq<char>, eq_form: Seq<char>, f: FlagId) -> Option<
    ArgClass,
> {
    if s == flag {
        Some(ArgClass::TakesValue(f))
    } else if starts_with_spec(s, eq_form) {
        Some(ArgClass::Inline(f, s.subrange(eq_form.len() as int, s.len() as int)))
    } else {
        None
    }
}

/// Classification of one short option that takes a value.
pub open spec fn short_val(s: Seq<char>, flag: Seq<char>, f: FlagId) -> Option<ArgClass> {
    if s == flag {
        Some(ArgClass::TakesValue(f))
    } else if starts_with_spec(s, flag) && s.len() > flag.len() {
        Some(ArgClass::Inline(f, s.subrange(flag.len() as int, s.len() as int)))
    } else {
        None
    }
}

/// The grammar of a single argument. Options are tried in a fixed order;
/// an argument starting with `-` that matches none of them is unknown.
pub open spec fn classify_spec(s: Seq<char>) -> ArgClass {
    if s == "-g"@ {
        ArgClass::Switch(FlagId::Debuginfo2)
    } else if s == "-O"@ {
        ArgClass::Switch(FlagId::OptLevel2)
    } else if s == "--test"@ {
        ArgClass::Switch(FlagId::Test)
    } else if s == "-v"@ || s == "--verbose"@ {
        ArgClass::Switch(FlagId::Verbose)
    } else if long_val(s, "--cfg"@, "--cfg="@, FlagId::Cfg) is Some {
        long_val(s, "--cfg"@, "--cfg="@, FlagId::Cfg)->0
    } else if long_val(s, "--crate-type"@, "--crate-type="@, FlagId::CrateType) is Some {
        long_val(s, "--crate-type"@, "--crate-type="@, FlagId::CrateType)->0
    } else if long_val(s, "--crate-name"@, "--crate-name="@, FlagId::CrateName) is Some {
        long_val(s, "--crate-name"@, "--crate-name="@, FlagId::CrateName)->0
    } else if long_val(s, "--edition"@, "--edition="@, FlagId::Edition) is Some {
        long_val(s, "--edition"@, "--edition="@, FlagId::Edition)->0
    } else if long_val(s, "--emit"@, "--emit="@, FlagId::Emit) is Some {
        long_val(s, "--emit"@, "--emit="@, FlagId::Emit)->0
    } else if long_val(s, "--print"@, "--print="@, FlagId::Print) is Some {
        long_val(s, "--print"@, "--print="@, FlagId::Print)->0
    } else if long_val(s, "--out-dir"@, "--out-dir="@, FlagId::OutDir) is Some {
        long_val(s, "--out-dir"@, "--out-dir="@, FlagId::OutDir)->0
    } else if long_val(s, "--explain"@, "--explain="@, FlagId::Explain) is Some {
        long_val(s, "--explain"@, "--explain="@, FlagId::Explain)->0
    } else if long_val(s, "--target"@, "--target="@, FlagId::Target) is Some {
        long_val(s, "--target"@, "--target="@, FlagId::Target)->0
    } else if long_val(s, "--cap-lints"@, "--cap-lints="@, FlagId::CapLints) is Some {
        long_val(s, "--cap-lints"@, "--cap-lints="@, FlagId::CapLints)->0
    } else if long_val(s, "--codegen"@, "--codegen="@, FlagId::Codegen) is Some {
        long_val(s, "--codegen"@, "--codegen="@, FlagId::Codegen)->0
    } else if long_val(s, "--extern-private"@, "--extern-private="@, FlagId::ExternPrivate)
        is Some {
        long_val(s, "--extern-private"@, "--extern-private="@, FlagId::ExternPrivate)->0
    } else if long_val(s, "--extern"@, "--extern="@, FlagId::ExternArg) is Some {
        long_val(s, "--extern"@, "--extern="@, FlagId::ExternArg)->0
    } else if long_val(s, "--sysroot"@, "--sysroot="@, FlagId::Sysroot) is Some {
        long_val(s, "--sysroot"@, "--sysroot="@, FlagId::Sysroot)->0
    } else if long_val(s, "--error-format"@, "--error-format="@, FlagId::ErrorFormat) is Some {
        long_val(s, "--error-format"@, "--error-format="@, FlagId::ErrorFormat)->0
    } else if long_val(s, "--color"@, "--color="@, FlagId::Color) is Some {
        long_val(s, "--color"@, "--color="@, FlagId::Color)->0
    } else if long_val(
        s,
        "--remap-path-prefix"@,
        "--remap-path-prefix="@,
        FlagId::RemapPathPrefix,
    ) is Some {
        long_val(s, "--remap-path-prefix"@, "--remap-path-prefix="@, FlagId::RemapPathPrefix)->0
    } else if long_val(s, "--warn"@, "--warn="@, FlagId::Warn) is Some {
        long_val(s, "--warn"@, "--warn="@, FlagId::Warn)->0
    } else if long_val(s, "--allow"@, "--allow="@, FlagId::Allow) is Some {
        long_val(s, "--allow"@, "--allow="@, FlagId::Allow)->0
    } else if long_val(s, "--deny"@, "--deny="@, FlagId::Deny) is Some {
        long_val(s, "--deny"@, "--deny="@, FlagId::Deny)->0
    } else if long_val(s, "--forbid"@, "--forbid="@, FlagId::Forbid) is Some {
        long_val(s, "--forbid"@, "--forbid="@, FlagId::Forbid)->0
    } else if short_val(s, "-L"@, FlagId::LinkPath) is Some {
        short_val(s, "-L"@, FlagId::LinkPath)->0
    } else if short_val(s, "-l"@, FlagId::LinkCrate) is Some {
        short_val(s, "-l"@, FlagId::LinkCrate)->0
    } else if short_val(s, "-o"@, FlagId::Output) is Some {
        short_val(s, "-o"@, FlagId::Output)->0
    } else if short_val(s, "-W"@, FlagId::Warn) is Some {
        short_val(s, "-W"@, FlagId::Warn)->0
    } else if short_val(s, "-A"@, FlagId::Allow) is Some {
        short_val(s, "-A"@, FlagId::Allow)->0
    } else if short_val(s, "-D"@, FlagId::Deny) is Some {
        short_val(s, "-D"@, FlagId::Deny)->0
    } else if short_val(s, "-F"@, FlagId::Forbid) is Some {
        short_val(s, "-F"@, FlagId::Forbid)->0
    } else if short_val(s, "-C"@, FlagId::Codegen) is Some {
        short_val(s, "-C"@, FlagId::Codegen)->0
    } else if s.len() > 0 && s[0] == '-' && s.len() > 1 {
        ArgClass::Unknown
    } else {
        ArgClass::Positional(s)
    }
}

/// Attaching a value to an option group; `None` means the vector is
/// rejected (a single-occurrence option repeated, or a malformed
/// `--extern` value).
pub open spec fn apply_flag(m: OptsModel, f: FlagId, v: Seq<char>) -> Option<OptsModel> {
    match f {
        FlagId::Cfg => Some(OptsModel { cfg: m.cfg.push(v), ..m }),
        FlagId::LinkPath => Some(OptsModel { link_path: m.link_path.push(v), ..m }),
        FlagId::LinkCrate => Some(OptsModel { link_crate: m.link_crate.push(v), ..m }),
        FlagId::Explain => Some(OptsModel { explain: m.explain.push(v), ..m }),
        FlagId::Warn => Some(OptsModel { warn: m.warn.push(v), ..m }),
        FlagId::Allow => Some(OptsModel { allow: m.allow.push(v), ..m }),
        FlagId::Deny => Some(OptsModel { deny: m.deny.push(v), ..m }),
        FlagId::Forbid => Some(OptsModel { forbid: m.forbid.push(v), ..m }),
        FlagId::Codegen => Some(OptsModel { codegen: m.codegen.push(v), ..m }),
        FlagId::ExternPrivate => Some(
            OptsModel { extern_private: m.extern_private.push(v), ..m },
        ),
        FlagId::ExternArg => if extern_name_of(v) is Some {
            Some(OptsModel { externs: m.externs.push(v), ..m })
        } else {
            None
        },
        FlagId::CrateType => if m.crate_type is None {
            Some(OptsModel { crate_type: Some(v), ..m })
        } else {
            None
        },
        FlagId::CrateName => if m.crate_name is None {
            Some(OptsModel { crate_name: Some(v), ..m })
        } else {
            None
        },
        FlagId::Edition => if m.edition is None {
            Some(OptsModel { edition: Some(v), ..m })
        } else {
            None
        },
        FlagId::Emit => if m.emit is None {
            Some(OptsModel { emit: Some(v), ..m })
        } else {
            None
        },
        FlagId::Print => if m.print is None {
            Some(OptsModel { print: Some(v), ..m })
        } else {
            None
        },
        FlagId::Output => if m.output is None {
            Some(OptsModel { output: Some(v), ..m })
        } else {
            None
        },
        FlagId::OutDir => if m.out_dir is None {
            Some(OptsModel { out_dir: Some(v), ..m })
        } else {
            None
        },
        FlagId::Target => if m.target is None {
            Some(OptsModel { target: Some(v), ..m })
        } else {
            None
        },
        FlagId::CapLints => if m.cap_lints is None {
            Some(OptsModel { cap_lints: Some(v), ..m })
        } else {
            None
        },
        FlagId::Sysroot => if m.sysroot is None {
            Some(OptsModel { sysroot: Some(v), ..m })
        } else {
            None
        },
        FlagId::ErrorFormat => if m.error_format is None {
            Some(OptsModel { error_format: Some(v), ..m })
        } else {
            None
        },
        FlagId::Color => if m.color is None {
            Some(OptsModel { color: Some(v), ..m })
        } else {
            None
        },
        FlagId::RemapPathPrefix => if m.remap_path_prefix is None {
            Some(OptsModel { remap_path_prefix: Some(v), ..m })
        } else {
            None
        },
        FlagId::Debuginfo2 => None,
        FlagId::OptLevel2 => None,
        FlagId::Test => None,
        FlagId::Verbose => None,
    }
}

/// Turning on a bare switch; repeating one is harmless.
pub open spec fn apply_switch(m: OptsModel, f: FlagId) -> OptsModel {
    match f {
        FlagId::Debuginfo2 => OptsModel { debuginfo_2: true, ..m },
        FlagId::OptLevel2 => OptsModel { opt_level_2: true, ..m },
        FlagId::Test => OptsModel { test: true, ..m },
        FlagId::Verbose => OptsModel { verbose: true, ..m },
        _ => m,
    }
}

/// The positional input file; a second one rejects the vector.
pub open spec fn apply_positional(m: OptsModel, v: Seq<char>) -> Option<OptsModel> {
    if m.input is None {
        Some(OptsModel { input: Some(v), ..m })
    } else {
        None
    }
}

/// The parse of `args` from position `i` on, starting from the partial
/// model `m`. `None` is a vector this model does not decompose.
pub open spec fn parse_from(args: Seq<Seq<char>>, i: int, m: OptsModel) -> Option<OptsModel>
    decreases args.len() - i when 0 <= i <= args.len()
{
    if i >= args.len() {
        Some(m)
    } else {
        match classify_spec(args[i]) {
            ArgClass::TakesValue(f) => {
                if i + 1 < args.len() {
                    match apply_flag(m, f, args[i + 1]) {
                        Some(m2) => parse_from(args, i + 2, m2),
                        None => None,
                    }
                } else {
                    None
                }
            },
            ArgClass::Inline(f, v) => match apply_flag(m, f, v) {
                Some(m2) => parse_from(args, i + 1, m2),
                None => None,
            },
            ArgClass::Switch(f) => parse_from(args, i + 1, apply_switch(m, f)),
            ArgClass::Positional(v) => match apply_positional(m, v) {
                Some(m2) => parse_from(args, i + 1, m2),
                None => None,
            },
            ArgClass::Unknown => None,
        }
    }
}

/// The parse of a whole argument vector: the leading program name is
/// skipped, and the input file must have appeared.
pub open spec fn parse_spec(args: Seq<Seq<char>>) -> Option<OptsModel> {
    if args.len() < 1 {
        None
    } else {
        match parse_from(args, 1, empty_model()) {
            Some(m) => if m.input is Some {
                Some(m)
            } else {
                None
            },
            None => None,
        }
    }
}

/// The executable side of `ArgClass`, carrying owned values.
pub enum ArgClassExec {
    TakesValue(FlagId),
    Inline(FlagId, String),
    Switch(FlagId),
    Positional(String),
    Unknown,
}

/// The executable classification corresponds to the spec one.
pub open spec fn class_corresponds(r: ArgClassExec, c: ArgClass) -> bool {
    match (r, c) {
        (ArgClassExec::TakesValue(f1), ArgClass::TakesValue(f2)) => f1 == f2,
        (ArgClassExec::Inline(f1, v), ArgClass::Inline(f2, w)) => f1 == f2 && v@ == w,
        (ArgClassExec::Switch(f1), ArgClass::Switch(f2)) => f1 == f2,
        (ArgClassExec::Positional(v), ArgClass::Positional(w)) => v@ == w,
        (ArgClassExec::Unknown, ArgClass::Unknown) => true,
        _ => false,
    }
}

/// The value attached after a prefix such as `--cfg=`.
fn tail_from(a: &str, p: &str) -> (r: String)
    requires
        starts_with_spec(a@, p@),
    ensures
        r@ == a@.subrange(p@.len() as int, a@.len() as int),
{
    let np = p.unicode_len();
    let na = a.unicode_len();
    a.substring_char(np, na).to_owned()
}

/// Tries the two forms of a long option that takes a value.
fn try_long_val(a: &str, flag: &str, eq_form: &str, f: FlagId) -> (r: Option<ArgClassExec>)
    ensures
        match r {
            Some(c) => long_val(a@, flag@, eq_form@, f) matches Some(cs) && class_corresponds(
                c,
                cs,
            ),
            None => long_val(a@, flag@, eq_form@, f) is None,
        },
{
    if str_eq(a, flag) {
        Some(ArgClassExec::TakesValue(f))
    } else if str_starts_with(a, eq_form) {
        Some(ArgClassExec::Inline(f, tail_from(a, eq_form)))
    } else {
        None
    }
}

/// Tries the two forms of a short option that takes a value.
fn try_short_val(a: &str, flag: &str, f: FlagId) -> (r: Option<ArgClassExec>)
    ensures
        match r {
            Some(c) => short_val(a@, flag@, f) matches Some(cs) && class_corresponds(c, cs),
            None => short_val(a@, flag@, f) is None,
        },
{
    if str_eq(a, flag) {
        Some(ArgClassExec::TakesValue(f))
    } else if str_starts_with(a, flag) && a.unicode_len() > flag.unicode_len() {
        Some(ArgClassExec::Inline(f, tail_from(a, flag)))
    } else {
        None
    }
}

/// Classifies one argument exactly as `classify_spec` does.
#[verifier::rlimit(60)]
pub fn classify(a: &str) -> (r: ArgClassExec)
    ensures
        class_corresponds(r, classify_spec(a@)),
{
    if str_eq(a, "-g") {
        return ArgClassExec::Switch(FlagId::Debuginfo2);
    }
    if str_eq(a, "-O") {
        return ArgClassExec::Switch(FlagId::OptLevel2);
    }
    if str_eq(a, "--test") {
        return ArgClassExec::Switch(FlagId::Test);
    }
    if str_eq(a, "-v") || str_eq(a, "--verbose") {
        return ArgClassExec::Switch(FlagId::Verbose);
    }
    if let Some(c) = try_long_val(a, "--cfg", "--cfg=", FlagId::Cfg) {
        return c;
    }
    if let Some(c) = try_long_val(a, "--crate-type", "--crate-type=", FlagId::CrateType) {
        return c;
    }
    if let Some(c) = try_long_val(a, "--crate-name", "--crate-name=", FlagId::CrateName) {
        return c;
    }
    if let Some(c) = try_long_val(a, "--edition", "--edition=", FlagId::Edition) {
        return c;
    }
    if let Some(c) = try_long_val(a, "--emit", "--emit=", FlagId::Emit) {
        return c;
    }
    if let Some(c) = try_long_val(a, "--print", "--print=", FlagId::Print) {
        return c;
    }
    if let Some(c) = try_long_val(a, "--out-dir", "--out-dir=", FlagId::OutDir) {
        return c;
    }
    if let Some(c) = try_long_val(a, "--explain", "--explain=", FlagId::Explain) {
        return c;
    }
    if let Some(c) = try_long_val(a, "--target", "--target=", FlagId::Target) {
        return c;
    }
    if let Some(c) = try_long_val(a, "--cap-lints", "--cap-lints=", FlagId::CapLints) {
        return c;
    }
    if let Some(c) = try_long_val(a, "--codegen", "--codegen=", FlagId::Codegen) {
        return c;
    }
    if let Some(c) = try_long_val(
        a,
        "--extern-private",
        "--extern-private=",
        FlagId::ExternPrivate,
    ) {
        return c;
    }
    if let Some(c) = try_long_val(a, "--extern", "--extern=", FlagId::ExternArg) {
        return c;
    }
    if let Some(c) = try_long_val(a, "--sysroot", "--sysroot=", FlagId::Sysroot) {
        return c;
    }
    if let Some(c) = try_long_val(a, "--error-format", "--error-format=", FlagId::ErrorFormat) {
        return c;
    }
    if let Some(c) = try_long_val(a, "--color", "--color=", FlagId::Color) {
        return c;
    }
    if let Some(c) = try_long_val(
        a,
        "--remap-path-prefix",
        "--remap-path-prefix=",
        FlagId::RemapPathPrefix,
    ) {
        return c;
    }
    if let Some(c) = try_long_val(a, "--warn", "--warn=", FlagId::Warn) {
        return c;
    }
    if let Some(c) = try_long_val(a, "--allow", "--allow=", FlagId::Allow) {
        return c;
    }
    if let Some(c) = try_long_val(a, "--deny", "--deny=", FlagId::Deny) {
        return c;
    }
    if let Some(c) = try_long_val(a, "--forbid", "--forbid=", FlagId::Forbid) {
        return c;
    }
    if let Some(c) = try_short_val(a, "-L", FlagId::LinkPath) {
        return c;
    }
    if let Some(c) = try_short_val(a, "-l", FlagId::LinkCrate) {
        return c;
    }
    if let Some(c) = try_short_val(a, "-o", FlagId::Output) {
        return c;
    }
    if let Some(c) = try_short_val(a, "-W", FlagId::Warn) {
        return c;
    }
    if let Some(c) = try_short_val(a, "-A", FlagId::Allow) {
        return c;
    }
    if let Some(c) = try_short_val(a, "-D", FlagId::Deny) {
        return c;
    }
    if let Some(c) = try_short_val(a, "-F", FlagId::Forbid) {
        return c;
    }
    if let Some(c) = try_short_val(a, "-C", FlagId::Codegen) {
        return c;
    }
    let n = a.unicode_len();
    if n > 1 && a.get_char(0) == '-' {
        ArgClassExec::Unknown
    } else {
        ArgClassExec::Positional(a.to_owned())
    }
}

impl RustcOpts {
    /// The model of a fully parsed invocation.
    pub open spec fn model(&self) -> OptsModel {
        OptsModel {
            cfg: views(self.cfg@),
            link_path: views(self.link_path@),
            link_crate: views(self.link_crate@),
            crate_type: opt_view(self.crate_type),
            crate_name: opt_view(self.crate_name),
            edition: opt_view(self.edition),
            emit: opt_view(self.emit),
            print: opt_view(self.print),
            debuginfo_2: self.debuginfo_2,
            opt_level_2: self.opt_level_2,
            output: opt_view(self.output),
            test: self.test,
            out_dir: opt_view(self.out_dir),
            explain: views(self.explain@),
            target: opt_view(self.target),
            warn: views(self.warn@),
            allow: views(self.allow@),
            deny: views(self.deny@),
            forbid: views(self.forbid@),
            cap_lints: opt_view(self.cap_lints),
            codegen: views(self.codegen@),
            verbose: self.verbose,
            externs: extern_texts(self.externs@),
            extern_private: views(self.extern_private@),
            sysroot: opt_view(self.sysroot),
            error_format: opt_view(self.error_format),
            color: opt_view(self.color),
            remap_path_prefix: opt_view(self.remap_path_prefix),
            input: Some(self.input@),
        }
    }

    /// The model of a partially parsed invocation, whose input file is
    /// tracked separately while parsing runs.
    pub open spec fn partial_model(&self, input: Option<String>) -> OptsModel {
        OptsModel { input: opt_view(input), ..self.model() }
    }
}

proof fn lemma_extern_texts_push(v: Seq<Extern>, e: Extern)
    ensures
        extern_texts(v.push(e)) =~= extern_texts(v).push(e.text()),
{
}

/// The rejection of an argument vector this model does not decompose.
fn parse_err(args: &Vec<String>) -> (e: Error)
    ensures
        e.spec_kind() matches ErrorKind::ParseRustcOptions { args: pa } && views(pa@) == views(
            args@,
        ),
{
    Error::from_kind(ErrorKind::ParseRustcOptions { args: clone_strings(args) })
}

/// Attaches one value to the option group `f`, reporting whether the
/// vector stays decomposable, exactly as `apply_flag` says.
fn apply_value(o: &mut RustcOpts, input: &mut Option<String>, f: FlagId, v: String) -> (ok: bool)
    requires
        old(o).wf(),
    ensures
        *final(input) == *old(input),
        final(o).wf(),
        match apply_flag(old(o).partial_model(*old(input)), f, v@) {
            Some(m2) => ok && final(o).partial_model(*final(input)) == m2,
            None => !ok && *final(o) == *old(o),
        },
{
    match f {
        FlagId::Cfg => {
            proof {
                lemma_views_push(o.cfg@, v);
            }
            o.cfg.push(v);
            true
        },
        FlagId::LinkPath => {
            proof {
                lemma_views_push(o.link_path@, v);
            }
            o.link_path.push(v);
            true
        },
        FlagId::LinkCrate => {
            proof {
                lemma_views_push(o.link_crate@, v);
            }
            o.link_crate.push(v);
            true
        },
        FlagId::Explain => {
            proof {
                lemma_views_push(o.explain@, v);
            }
            o.explain.push(v);
            true
        },
        FlagId::Warn => {
            proof {
                lemma_views_push(o.warn@, v);
            }
            o.warn.push(v);
            true
        },
        FlagId::Allow => {
            proof {
                lemma_views_push(o.allow@, v);
            }
            o.allow.push(v);
            true
        },
        FlagId::Deny => {
            proof {
                lemma_views_push(o.deny@, v);
            }
            o.deny.push(v);
            true
        },
        FlagId::Forbid => {
            proof {
                lemma_views_push(o.forbid@, v);
            }
            o.forbid.push(v);
            true
        },
        FlagId::Codegen => {
            proof {
                lemma_views_push(o.codegen@, v);
            }
            o.codegen.push(v);
            true
        },
        FlagId::ExternPrivate => {
            proof {
                lemma_views_push(o.extern_private@, v);
            }
            o.extern_private.push(v);
            true
        },
        FlagId::ExternArg => {
            match Extern::from_str(v.as_str()) {
                Ok(e) => {
                    proof {
                        lemma_extern_texts_push(o.externs@, e);
                    }
                    o.externs.push(e);
                    true
                },
                Err(_) => false,
            }
        },
        FlagId::CrateType => {
            match &o.crate_type {
                Some(_) => false,
                None => {
                    o.crate_type = Some(v);
                    true
                },
            }
        },
        FlagId::CrateName => {
            match &o.crate_name {
                Some(_) => false,
                None => {
                    o.crate_name = Some(v);
                    true
                },
            }
        },
        FlagId::Edition => {
            match &o.edition {
                Some(_) => false,
                None => {
                    o.edition = Some(v);
                    true
                },
            }
        },
        FlagId::Emit => {
            match &o.emit {
                Some(_) => false,
                None => {
                    o.emit = Some(v);
                    true
                },
            }
        },
        FlagId::Print => {
            match &o.print {
                Some(_) => false,
                None => {
                    o.print = Some(v);
                    true
                },
            }
        },
        FlagId::Output => {
            match &o.output {
                Some(_) => false,
                None => {
                    o.output = Some(v);
                    true
                },
            }
        },
        FlagId::OutDir => {
            match &o.out_dir {
                Some(_) => false,
                None => {
                    o.out_dir = Some(v);
                    true
                },
            }
        },
        FlagId::Target => {
            match &o.target {
                Some(_) => false,
                None => {
                    o.target = Some(v);
                    true
                },
            }
        },
        FlagId::CapLints => {
            match &o.cap_lints {
                Some(_) => false,
                None => {
                    o.cap_lints = Some(v);
                    true
                },
            }
        },
        FlagId::Sysroot => {
            match &o.sysroot {
                Some(_) => false,
                None => {
                    o.sysroot = Some(v);
                    true
                },
            }
        },
        FlagId::ErrorFormat => {
            match &o.error_format {
                Some(_) => false,
                None => {
                    o.error_format = Some(v);
                    true
                },
            }
        },
        FlagId::Color => {
            match &o.color {
                Some(_) => false,
                None => {
                    o.color = Some(v);
                    true
                },
            }
        },
        FlagId::RemapPathPrefix => {
            match &o.remap_path_prefix {
                Some(_) => false,
                None => {
                    o.remap_path_prefix = Some(v);
                    true
                },
            }
        },
        FlagId::Debuginfo2 => false,
        FlagId::OptLevel2 => false,
        FlagId::Test => false,
        FlagId::Verbose => false,
    }
}

/// Turns one switch on, exactly as `apply_switch` says.
fn apply_switch_exec(o: &mut RustcOpts, input: &mut Option<String>, f: FlagId)
    requires
        old(o).wf(),
    ensures
        *final(input) == *old(input),
        final(o).wf(),
        final(o).partial_model(*final(input)) == apply_switch(
            old(o).partial_model(*old(input)),
            f,
        ),
{
    match f {
        FlagId::Debuginfo2 => {
            o.debuginfo_2 = true;
        },
        FlagId::OptLevel2 => {
            o.opt_level_2 = true;
        },
        FlagId::Test => {
            o.test = true;
        },
        FlagId::Verbose => {
            o.verbose = true;
        },
        _ => {},
    }
}

impl RustcOpts {
    /// Decomposes a full argument vector (program name first) into the
    /// recognized option groups: `Ok` exactly on the vectors the grammar
    /// accepts, and the parse failure otherwise.
    pub fn parse(args: &Vec<String>) -> (r: Result<RustcOpts, Error>)
        ensures
            match r {
                Ok(o) => {
                    &&& parse_spec(views(args@)) == Some(o.model())
                    &&& o.wf()
                },
                Err(e) => {
                    &&& parse_spec(views(args@)) is None
                    &&& e.spec_kind() matches ErrorKind::ParseRustcOptions { args: pa } && views(
                        pa@,
                    ) == views(args@)
                },
            },
    {
        let ghost va = views(args@);
        if args.len() == 0 {
            return Err(parse_err(args));
        }
        let mut o = RustcOpts {
            cfg: Vec::new(),
            link_path: Vec::new(),
            link_crate: Vec::new(),
            crate_type: None,
            crate_name: None,
            edition: None,
            emit: None,
            print: None,
            debuginfo_2: false,
            opt_level_2: false,
            output: None,
            test: false,
            out_dir: None,
            explain: Vec::new(),
            target: None,
            warn: Vec::new(),
            allow: Vec::new(),
            deny: Vec::new(),
            forbid: Vec::new(),
            cap_lints: None,
            codegen: Vec::new(),
            verbose: false,
            externs: Vec::new(),
            extern_private: Vec::new(),
            sysroot: None,
            error_format: None,
            color: None,
            remap_path_prefix: None,
            input: String::new(),
        };
        let mut input: Option<String> = None;
        proof {
            assert(o.partial_model(input) =~= empty_model());
        }
        let mut i: usize = 1;
        while i < args.len()
            invariant
                va == views(args@),
                1 <= i <= args@.len(),
                o.wf(),
                parse_from(va, 1, empty_model()) == parse_from(
                    va,
                    i as int,
                    o.partial_model(input),
                ),
            decreases args@.len() - i,
        {
            proof {
                assert(va[i as int] == args@[i as int]@);
            }
            let class = classify(args[i].as_str());
            match class {
                ArgClassExec::TakesValue(f) => {
                    if i + 1 >= args.len() {
                        return Err(parse_err(args));
                    }
                    proof {
                        assert(va[i as int + 1] == args@[i as int + 1]@);
                    }
                    let v = args[i + 1].clone();
                    if !apply_value(&mut o, &mut input, f, v) {
                        return Err(parse_err(args));
                    }
                    i = i + 2;
                },
                ArgClassExec::Inline(f, v) => {
                    if !apply_value(&mut o, &mut input, f, v) {
                        return Err(parse_err(args));
                    }
                    i = i + 1;
                },
                ArgClassExec::Switch(f) => {
                    apply_switch_exec(&mut o, &mut input, f);
                    i = i + 1;
                },
                ArgClassExec::Positional(v) => {
                    match &input {
                        Some(_) => {
                            return Err(parse_err(args));
                        },
                        None => {
                            input = Some(v);
                        },
                    }
                    i = i + 1;
                },
                ArgClassExec::Unknown => {
                    return Err(parse_err(args));
                },
            }
        }
        match input {
            Some(s) => {
                proof {
                    assert(parse_from(va, i as int, o.partial_model(Some(s))) == Some(
                        o.partial_model(Some(s)),
                    ));
                }
                o.input = s;
                proof {
                    assert(o.model() =~= o.partial_model(Some(o.input)));
                }
                Ok(o)
            },
            None => Err(parse_err(args)),
        }
    }
}

} // verus!
