//! The build-trace parser: from a verbose build run's text to one
//! structured invocation per `Running` line.
//!
//! The grammar is deterministic. A line is either a `Running` command
//! line, one of the recognized ignorable shapes, or unparseable — and an
//! unparseable line fails the whole run, since silently skipping one
//! could hide an invocation.
use vstd::prelude::*;
use vstd::string::StrSliceExecFns;
use crate::error::{Error, ErrorKind};
use crate::strutil::{starts_with_spec, str_eq, str_starts_with, string_from_chars};
use crate::opts::views;

verus! {

/// One captured invocation: its environment-assignment prefix and the
/// program-and-arguments vector.
#[derive(Debug)]
pub struct Invocation {
    pub env: Vec<(String, String)>,
    pub args: Vec<String>,
}

/// Scanning state of the tokenizer: outside any quote, inside single
/// quotes, or inside double quotes.
pub open spec fn toks(
    s: Seq<char>,
    posix: bool,
    i: int,
    mode: int,
    cur: Seq<char>,
    started: bool,
    acc: Seq<Seq<char>>,
) -> Option<Seq<Seq<char>>>
    decreases s.len() - i, 1int when 0 <= i <= s.len()
{
    if i >= s.len() {
        if mode != 0 {
            None
        } else if started {
            Some(acc.push(cur))
        } else {
            Some(acc)
        }
    } else {
        let c = s[i];
        if mode == 1 {
            if c == '\'' {
                toks(s, posix, i + 1, 0, cur, started, acc)
            } else {
                toks(s, posix, i + 1, 1, cur.push(c), started, acc)
            }
        } else if mode == 2 {
            if c == '"' {
                toks(s, posix, i + 1, 0, cur, started, acc)
            } else if c == '\\' && i + 1 < s.len() && (s[i + 1] == '"' || s[i + 1] == '\\') {
                toks(s, posix, i + 2, 2, cur.push(s[i + 1]), started, acc)
            } else {
                toks(s, posix, i + 1, 2, cur.push(c), started, acc)
            }
        } else {
            if c == ' ' {
                if started {
                    toks(s, posix, i + 1, 0, Seq::empty(), false, acc.push(cur))
                } else {
                    toks(s, posix, i + 1, 0, cur, started, acc)
                }
            } else if c == '"' {
                toks(s, posix, i + 1, 2, cur, true, acc)
            } else if posix && c == '\'' {
                toks(s, posix, i + 1, 1, cur, true, acc)
            } else if posix && c == '\\' {
                if i + 1 < s.len() {
                    toks(s, posix, i + 2, 0, cur.push(s[i + 1]), true, acc)
                } else {
                    None
                }
            } else {
                toks(s, posix, i + 1, 0, cur.push(c), true, acc)
            }
        }
    }
}

/// The tokens of one backtick-quoted command text, or nothing when its
/// quoting does not close.
pub open spec fn tokens_of(s: Seq<char>, posix: bool) -> Option<Seq<Seq<char>>> {
    toks(s, posix, 0, 0, Seq::empty(), false, Seq::empty())
}

/// Splits a command text into tokens under the platform's quoting:
/// spaces separate; double quotes span; on the POSIX side single quotes
/// span too and a backslash escapes the next character.
pub fn tokenize(s: &str, posix: bool) -> (r: Option<Vec<String>>)
    ensures
        match r {
            Some(v) => tokens_of(s@, posix) == Some(views(v@)),
            None => tokens_of(s@, posix) is None,
        },
{
    let n = s.unicode_len();
    let mut acc: Vec<String> = Vec::new();
    let mut cur: Vec<char> = Vec::new();
    let mut started = false;
    let mut mode: u8 = 0;
    let mut i: usize = 0;
    proof {
        assert(views(acc@) =~= Seq::<Seq<char>>::empty());
        assert(cur@ =~= Seq::<char>::empty());
    }
    while i < n
        invariant
            n == s@.len(),
            i <= n,
            mode == 0 || mode == 1 || mode == 2,
            tokens_of(s@, posix) == toks(
                s@,
                posix,
                i as int,
                mode as int,
                cur@,
                started,
                views(acc@),
            ),
        decreases n - i,
    {
        let c = s.get_char(i);
        if mode == 1 {
            if c == '\'' {
                mode = 0;
            } else {
                cur.push(c);
            }
            i = i + 1;
        } else if mode == 2 {
            if c == '"' {
                mode = 0;
                i = i + 1;
            } else if c == '\\' && i + 1 < n && (s.get_char(i + 1) == '"' || s.get_char(i + 1)
                == '\\') {
                cur.push(s.get_char(i + 1));
                i = i + 2;
            } else {
                cur.push(c);
                i = i + 1;
            }
        } else {
            if c == ' ' {
                if started {
                    let ghost av = views(acc@);
                    let t = string_from_chars(cur);
                    acc.push(t);
                    proof {
                        assert(views(acc@) =~= av.push(t@));
                    }
                    cur = Vec::new();
                    started = false;
                }
                i = i + 1;
            } else if c == '"' {
                mode = 2;
                started = true;
                i = i + 1;
            } else if posix && c == '\'' {
                mode = 1;
                started = true;
                i = i + 1;
            } else if posix && c == '\\' {
                if i + 1 < n {
                    cur.push(s.get_char(i + 1));
                    started = true;
                    i = i + 2;
                } else {
                    return None;
                }
            } else {
                cur.push(c);
                started = true;
                i = i + 1;
            }
        }
    }
    if mode != 0 {
        return None;
    }
    if started {
        let ghost av = views(acc@);
        let t = string_from_chars(cur);
        acc.push(t);
        proof {
            assert(views(acc@) =~= av.push(t@));
        }
        return Some(acc);
    }
    Some(acc)
}

/// A trailing carriage return is not part of a line.
pub open spec fn strip_cr(t: Seq<char>) -> Seq<char> {
    if t.len() > 0 && t[t.len() - 1] == '\r' {
        t.drop_last()
    } else {
        t
    }
}

/// The lines of `s`, reading from `i` with the current line `cur`.
pub open spec fn lines_acc(s: Seq<char>, i: int, cur: Seq<char>, acc: Seq<Seq<char>>) -> Seq<
    Seq<char>,
>
    decreases s.len() - i when 0 <= i <= s.len()
{
    if i >= s.len() {
        if cur.len() > 0 {
            acc.push(strip_cr(cur))
        } else {
            acc
        }
    } else if s[i] == '\n' {
        lines_acc(s, i + 1, Seq::empty(), acc.push(strip_cr(cur)))
    } else {
        lines_acc(s, i + 1, cur.push(s[i]), acc)
    }
}

/// The lines of `s`: split at `\n`, with a trailing `\r` stripped from
/// each and no empty final line after a closing newline.
pub open spec fn lines_of(s: Seq<char>) -> Seq<Seq<char>> {
    lines_acc(s, 0, Seq::empty(), Seq::empty())
}

/// Splits text into lines, as `lines_of` spells it.
pub fn split_lines(s: &str) -> (r: Vec<String>)
    ensures
        views(r@) == lines_of(s@),
{
    let n = s.unicode_len();
    let mut acc: Vec<String> = Vec::new();
    let mut cur: Vec<char> = Vec::new();
    let mut i: usize = 0;
    proof {
        assert(views(acc@) =~= Seq::<Seq<char>>::empty());
        assert(cur@ =~= Seq::<char>::empty());
    }
    while i < n
        invariant
            n == s@.len(),
            i <= n,
            lines_of(s@) == lines_acc(s@, i as int, cur@, views(acc@)),
        decreases n - i,
    {
        let c = s.get_char(i);
        if c == '\n' {
            let ghost av = views(acc@);
            if cur.len() > 0 && cur[cur.len() - 1] == '\r' {
                cur.pop();
            }
            let t = string_from_chars(cur);
            acc.push(t);
            proof {
                assert(views(acc@) =~= av.push(t@));
            }
            cur = Vec::new();
        } else {
            cur.push(c);
        }
        i = i + 1;
    }
    if cur.len() > 0 {
        let ghost av = views(acc@);
        if cur[cur.len() - 1] == '\r' {
            cur.pop();
        }
        let t = string_from_chars(cur);
        acc.push(t);
        proof {
            assert(views(acc@) =~= av.push(t@));
        }
    }
    acc
}

/// Index of the first non-space character at or after `i`.
pub open spec fn skip_ws(s: Seq<char>, i: int) -> int
    decreases s.len() - i when 0 <= i <= s.len()
{
    if i < s.len() && s[i] == ' ' {
        skip_ws(s, i + 1)
    } else {
        i
    }
}

pub proof fn lemma_skip_ws_range(s: Seq<char>, i: int)
    requires
        0 <= i <= s.len(),
    ensures
        i <= skip_ws(s, i) <= s.len(),
        skip_ws(s, i) < s.len() ==> s[skip_ws(s, i)] != ' ',
        forall|m: int| i <= m < skip_ws(s, i) ==> s[m] == ' ',
    decreases s.len() - i,
{
    if i < s.len() && s[i] == ' ' {
        lemma_skip_ws_range(s, i + 1);
    }
}

/// A status word followed by free text, or standing alone.
pub open spec fn word_prefix(t: Seq<char>, w: Seq<char>) -> bool {
    starts_with_spec(t, w) && (t.len() == w.len() || t[w.len() as int] == ' ')
}

/// What one trace line is.
pub enum LineShape {
    /// A `Running` line, with the backtick-quoted command text.
    Command(Seq<char>),
    /// A line the grammar knows and ignores.
    Ignored,
    /// A line the grammar does not know.
    Bad,
}

/// The grammar of one trace line: after leading spaces, a `Running`
/// command, a bracketed or JSON line, a recognized status word, or
/// nothing — anything else is unparseable.
pub open spec fn line_shape(line: Seq<char>) -> LineShape {
    let j = skip_ws(line, 0);
    let t = line.subrange(j, line.len() as int);
    if t.len() == 0 {
        LineShape::Ignored
    } else if starts_with_spec(t, "Running `"@) && t.len() > "Running `"@.len() && t[t.len() - 1]
        == '`' {
        LineShape::Command(t.subrange("Running `"@.len() as int, t.len() - 1))
    } else if t[0] == '{' || t[0] == '[' {
        LineShape::Ignored
    } else if word_prefix(t, "Compiling"@) || word_prefix(t, "Checking"@) || word_prefix(
        t,
        "Fresh"@,
    ) || word_prefix(t, "Finished"@) {
        LineShape::Ignored
    } else {
        LineShape::Bad
    }
}

/// The executable side of `LineShape`.
pub enum LineShapeExec {
    Command(String),
    Ignored,
    Bad,
}

pub open spec fn shape_corresponds(r: LineShapeExec, c: LineShape) -> bool {
    match (r, c) {
        (LineShapeExec::Command(v), LineShape::Command(w)) => v@ == w,
        (LineShapeExec::Ignored, LineShape::Ignored) => true,
        (LineShapeExec::Bad, LineShape::Bad) => true,
        _ => false,
    }
}

fn word_prefix_exec(t: &str, w: &str) -> (r: bool)
    ensures
        r == word_prefix(t@, w@),
{
    if !str_starts_with(t, w) {
        return false;
    }
    let tn = t.unicode_len();
    let wn = w.unicode_len();
    tn == wn || t.get_char(wn) == ' '
}

/// Classifies one trace line exactly as `line_shape` does.
pub fn classify_line(line: &str) -> (r: LineShapeExec)
    ensures
        shape_corresponds(r, line_shape(line@)),
{
    let n = line.unicode_len();
    let mut j: usize = 0;
    while j < n && line.get_char(j) == ' '
        invariant
            n == line@.len(),
            j <= n,
            forall|m: int| 0 <= m < j ==> line@[m] == ' ',
        decreases n - j,
    {
        j = j + 1;
    }
    proof {
        lemma_skip_ws_range(line@, 0);
        assert(skip_ws(line@, 0) == j as int) by {
            if (j as int) < skip_ws(line@, 0) {
                assert(line@[j as int] == ' ');
            }
        }
    }
    let t = line.substring_char(j, n);
    let tn = t.unicode_len();
    if tn == 0 {
        return LineShapeExec::Ignored;
    }
    let p = "Running `";
    let pn = p.unicode_len();
    if str_starts_with(t, p) && tn > pn && t.get_char(tn - 1) == '`' {
        let content = t.substring_char(pn, tn - 1);
        return LineShapeExec::Command(content.to_owned());
    }
    let c0 = t.get_char(0);
    if c0 == '{' || c0 == '[' {
        return LineShapeExec::Ignored;
    }
    if word_prefix_exec(t, "Compiling") || word_prefix_exec(t, "Checking") || word_prefix_exec(
        t,
        "Fresh",
    ) || word_prefix_exec(t, "Finished") {
        return LineShapeExec::Ignored;
    }
    LineShapeExec::Bad
}

/// The key and value of an environment assignment `KEY=value`.
pub open spec fn assign_split(t: Seq<char>) -> Option<(Seq<char>, Seq<char>)> {
    let r = crate::opts::ident_run(t, 0);
    if 0 < r < t.len() && t[r] == '=' {
        Some((t.subrange(0, r), t.subrange(r + 1, t.len() as int)))
    } else {
        None
    }
}

/// Splits `KEY=value`, when the token has that shape.
pub fn assign_split_exec(t: &str) -> (r: Option<(String, String)>)
    ensures
        match r {
            Some(p) => assign_split(t@) == Some((p.0@, p.1@)),
            None => assign_split(t@) is None,
        },
{
    let n = t.unicode_len();
    let mut i: usize = 0;
    while i < n && crate::opts::ident_char(t.get_char(i))
        invariant
            n == t@.len(),
            i <= n,
            forall|m: int| 0 <= m < i ==> crate::opts::is_ident_char(t@[m]),
        decreases n - i,
    {
        i = i + 1;
    }
    proof {
        crate::opts::lemma_ident_run_at(t@, i as int, 0);
    }
    if 0 < i && i < n && t.get_char(i) == '=' {
        let key = t.substring_char(0, i).to_owned();
        let val = t.substring_char(i + 1, n).to_owned();
        Some((key, val))
    } else {
        None
    }
}

/// End of the run of leading assignments, from `i` on.
pub open spec fn env_prefix_len(ts: Seq<Seq<char>>, i: int) -> int
    decreases ts.len() - i when 0 <= i <= ts.len()
{
    if i < ts.len() && assign_split(ts[i]) is Some {
        env_prefix_len(ts, i + 1)
    } else {
        i
    }
}

/// First `&&` token at or after `i`.
pub open spec fn find_amp(ts: Seq<Seq<char>>, i: int) -> Option<int>
    decreases ts.len() - i when 0 <= i <= ts.len()
{
    if i >= ts.len() {
        None
    } else if ts[i] == "&&"@ {
        Some(i)
    } else {
        find_amp(ts, i + 1)
    }
}

/// The assignments among the tokens in `[i, p)`.
pub open spec fn env_pairs(ts: Seq<Seq<char>>, i: int, p: int) -> Seq<(Seq<char>, Seq<char>)>
    decreases p - i when 0 <= i <= p
{
    if i < p {
        (match assign_split(ts[i]) {
            Some(kv) => seq![kv],
            None => Seq::empty(),
        }) + env_pairs(ts, i + 1, p)
    } else {
        Seq::empty()
    }
}

/// Where one token vector splits into environment prefix and arguments:
/// on the POSIX side the assignments before the first plain token; on
/// the other side everything before a literal `&&`, keeping whatever of
/// it is an assignment.
pub open spec fn split_point(ts: Seq<Seq<char>>, posix: bool) -> int {
    if posix {
        env_prefix_len(ts, 0)
    } else {
        match find_amp(ts, 0) {
            Some(a) => a + 1,
            None => 0,
        }
    }
}

/// The environment of one token vector.
pub open spec fn env_of(ts: Seq<Seq<char>>, posix: bool) -> Seq<(Seq<char>, Seq<char>)> {
    if posix {
        env_pairs(ts, 0, env_prefix_len(ts, 0))
    } else {
        match find_amp(ts, 0) {
            Some(a) => env_pairs(ts, 0, a),
            None => Seq::empty(),
        }
    }
}

/// The arguments of one token vector: everything after the split point.
pub open spec fn args_of(ts: Seq<Seq<char>>, posix: bool) -> Seq<Seq<char>> {
    ts.subrange(split_point(ts, posix), ts.len() as int)
}

pub proof fn lemma_env_prefix_range(ts: Seq<Seq<char>>, i: int)
    requires
        0 <= i <= ts.len(),
    ensures
        i <= env_prefix_len(ts, i) <= ts.len(),
    decreases ts.len() - i,
{
    if i < ts.len() && assign_split(ts[i]) is Some {
        lemma_env_prefix_range(ts, i + 1);
    }
}

pub proof fn lemma_find_amp_range(ts: Seq<Seq<char>>, i: int)
    requires
        0 <= i <= ts.len(),
        find_amp(ts, i) is Some,
    ensures
        i <= find_amp(ts, i)->0 < ts.len(),
    decreases ts.len() - i,
{
    if i < ts.len() && ts[i] != "&&"@ {
        lemma_find_amp_range(ts, i + 1);
    }
}

proof fn lemma_env_prefix_skip(ts: Seq<Seq<char>>, i: int, j: int)
    requires
        0 <= i <= j <= ts.len(),
        forall|m: int| i <= m < j ==> assign_split(#[trigger] ts[m]) is Some,
    ensures
        env_prefix_len(ts, i) == env_prefix_len(ts, j),
    decreases j - i,
{
    if i < j {
        lemma_env_prefix_skip(ts, i + 1, j);
    }
}

proof fn lemma_find_amp_skip(ts: Seq<Seq<char>>, i: int, j: int)
    requires
        0 <= i <= j <= ts.len(),
        forall|m: int| i <= m < j ==> #[trigger] ts[m] != "&&"@,
    ensures
        find_amp(ts, i) == find_amp(ts, j),
    decreases j - i,
{
    if i < j {
        lemma_find_amp_skip(ts, i + 1, j);
    }
}

/// The views of an environment vector.
pub open spec fn env_views(v: Seq<(String, String)>) -> Seq<(Seq<char>, Seq<char>)> {
    v.map(|i: int, e: (String, String)| (e.0@, e.1@))
}

/// Splits one token vector into its environment prefix and argument
/// vector, exactly as `env_of` and `args_of` spell it.
pub fn split_invocation(mut ts: Vec<String>, posix: bool) -> (r: (Vec<(String, String)>, Vec<
    String,
>))
    ensures
        env_views(r.0@) == env_of(views(ts@), posix),
        views(r.1@) == args_of(views(ts@), posix),
{
    let ghost tv = views(ts@);
    let n = ts.len();
    let mut stop: usize = 0;
    let mut env: Vec<(String, String)> = Vec::new();
    if posix {
        let mut e: usize = 0;
        while e < n && assign_split_exec(ts[e].as_str()).is_some()
            invariant
                tv == views(ts@),
                n == ts@.len(),
                e <= n,
                forall|m: int| 0 <= m < e ==> assign_split(#[trigger] tv[m]) is Some,
            decreases n - e,
        {
            e = e + 1;
        }
        proof {
            lemma_env_prefix_skip(tv, 0, e as int);
            assert(env_prefix_len(tv, 0) == e as int);
        }
        let mut i: usize = 0;
        proof {
            assert(env_views(env@) =~= Seq::<(Seq<char>, Seq<char>)>::empty());
        }
        while i < e
            invariant
                tv == views(ts@),
                n == ts@.len(),
                e <= n,
                i <= e,
                forall|m: int| 0 <= m < e ==> assign_split(#[trigger] tv[m]) is Some,
                env_views(env@) + env_pairs(tv, i as int, e as int) =~= env_pairs(tv, 0, e as int),
            decreases e - i,
        {
            let ghost before = env_views(env@);
            match assign_split_exec(ts[i].as_str()) {
                Some(kv) => {
                    env.push(kv);
                    proof {
                        assert(env_views(env@) =~= before + seq![(kv.0@, kv.1@)]);
                    }
                },
                None => {},
            }
            proof {
                assert(env_views(env@) + env_pairs(tv, i as int + 1, e as int) =~= env_pairs(
                    tv,
                    0,
                    e as int,
                ));
            }
            i = i + 1;
        }
        proof {
            assert(env_views(env@) =~= env_views(env@) + env_pairs(tv, e as int, e as int));
        }
        stop = e;
    } else {
        let mut a: usize = 0;
        let mut found = false;
        while a < n && !str_eq(ts[a].as_str(), "&&")
            invariant
                tv == views(ts@),
                n == ts@.len(),
                a <= n,
                forall|m: int| 0 <= m < a ==> #[trigger] tv[m] != "&&"@,
            decreases n - a,
        {
            a = a + 1;
        }
        if a < n {
            proof {
                lemma_find_amp_skip(tv, 0, a as int);
            }
            let mut i: usize = 0;
            proof {
                assert(env_views(env@) =~= Seq::<(Seq<char>, Seq<char>)>::empty());
            }
            while i < a
                invariant
                    tv == views(ts@),
                    n == ts@.len(),
                    a < n,
                    i <= a,
                    env_views(env@) + env_pairs(tv, i as int, a as int) =~= env_pairs(
                        tv,
                        0,
                        a as int,
                    ),
                decreases a - i,
            {
                let ghost before = env_views(env@);
                match assign_split_exec(ts[i].as_str()) {
                    Some(kv) => {
                        env.push(kv);
                        proof {
                            assert(env_views(env@) =~= before + seq![(kv.0@, kv.1@)]);
                        }
                    },
                    None => {},
                }
                proof {
                    assert(env_views(env@) + env_pairs(tv, i as int + 1, a as int) =~= env_pairs(
                        tv,
                        0,
                        a as int,
                    ));
                }
                i = i + 1;
            }
            proof {
                assert(env_views(env@) =~= env_views(env@) + env_pairs(tv, a as int, a as int));
            }
            stop = a + 1;
        } else {
            proof {
                lemma_find_amp_skip(tv, 0, n as int);
            }
            stop = 0;
        }
    }
    let args = ts.split_off(stop);
    proof {
        assert(views(args@) =~= args_of(tv, posix));
    }
    (env, args)
}

/// The view of one invocation.
pub open spec fn inv_view(x: Invocation) -> (Seq<(Seq<char>, Seq<char>)>, Seq<Seq<char>>) {
    (env_views(x.env@), views(x.args@))
}

/// The views of an invocation vector.
pub open spec fn inv_views(v: Seq<Invocation>) -> Seq<
    (Seq<(Seq<char>, Seq<char>)>, Seq<Seq<char>>),
> {
    v.map(|i: int, x: Invocation| inv_view(x))
}

/// The invocations a sequence of trace lines yields, from line `i` on:
/// each `Running` line's tokens split into environment and arguments,
/// with the one-token and empty invocations discarded; `None` when a
/// line is unparseable.
pub open spec fn trace_lines(ls: Seq<Seq<char>>, posix: bool, i: int) -> Option<
    Seq<(Seq<(Seq<char>, Seq<char>)>, Seq<Seq<char>>)>,
>
    decreases ls.len() - i when 0 <= i <= ls.len()
{
    if i >= ls.len() {
        Some(Seq::empty())
    } else {
        match line_shape(ls[i]) {
            LineShape::Bad => None,
            LineShape::Ignored => trace_lines(ls, posix, i + 1),
            LineShape::Command(content) => match tokens_of(content, posix) {
                None => None,
                Some(ts) => match trace_lines(ls, posix, i + 1) {
                    None => None,
                    Some(rest) => Some(
                        (if args_of(ts, posix).len() <= 1 {
                            Seq::empty()
                        } else {
                            seq![(env_of(ts, posix), args_of(ts, posix))]
                        }) + rest,
                    ),
                },
            },
        }
    }
}

/// What a whole trace parses to.
pub open spec fn trace_spec(text: Seq<char>, posix: bool) -> Option<
    Seq<(Seq<(Seq<char>, Seq<char>)>, Seq<Seq<char>>)>,
> {
    trace_lines(lines_of(text), posix, 0)
}

/// Option-level concatenation of a known head with a rest.
pub open spec fn opt_concat<A>(h: Seq<A>, o: Option<Seq<A>>) -> Option<Seq<A>> {
    match o {
        Some(r) => Some(h + r),
        None => None,
    }
}

/// Parses the whole build trace into its invocations, exactly as
/// `trace_spec` spells it; the first unparseable line fails the run.
pub fn parse_trace(text: &str, posix: bool) -> (r: Result<Vec<Invocation>, Error>)
    ensures
        match r {
            Ok(invs) => trace_spec(text@, posix) == Some(inv_views(invs@)),
            Err(e) => {
                &&& trace_spec(text@, posix) is None
                &&& e.spec_kind() matches ErrorKind::UnparseableTrace { line }
            },
        },
{
    let lines = split_lines(text);
    let ghost ls = lines_of(text@);
    let mut invs: Vec<Invocation> = Vec::new();
    let mut i: usize = 0;
    proof {
        assert(inv_views(invs@) =~= Seq::<(Seq<(Seq<char>, Seq<char>)>, Seq<Seq<char>>)>::empty());
    }
    while i < lines.len()
        invariant
            ls == lines_of(text@),
            views(lines@) == ls,
            lines@.len() == ls.len(),
            i <= ls.len(),
            trace_lines(ls, posix, 0) == opt_concat(inv_views(invs@), trace_lines(
                ls,
                posix,
                i as int,
            )),
        decreases ls.len() - i,
    {
        proof {
            assert(ls[i as int] == lines@[i as int]@);
        }
        match classify_line(lines[i].as_str()) {
            LineShapeExec::Bad => {
                return Err(Error::from_kind(ErrorKind::UnparseableTrace {
                    line: lines[i].clone(),
                }));
            },
            LineShapeExec::Ignored => {},
            LineShapeExec::Command(content) => {
                match tokenize(content.as_str(), posix) {
                    None => {
                        return Err(Error::from_kind(ErrorKind::UnparseableTrace {
                            line: lines[i].clone(),
                        }));
                    },
                    Some(ts) => {
                        let ghost tsv = views(ts@);
                        let (env, args) = split_invocation(ts, posix);
                        if args.len() > 1 {
                            let ghost before = inv_views(invs@);
                            let x = Invocation { env, args };
                            invs.push(x);
                            proof {
                                assert(inv_views(invs@) =~= before + seq![inv_view(x)]);
                                assert(inv_view(x) == (env_of(tsv, posix), args_of(tsv, posix)));
                            }
                        }
                    },
                }
            },
        }
        proof {
            assert(trace_lines(ls, posix, 0) == opt_concat(inv_views(invs@), trace_lines(
                ls,
                posix,
                i as int + 1,
            )));
        }
        i = i + 1;
    }
    proof {
        assert(inv_views(invs@) =~= inv_views(invs@) + Seq::<
            (Seq<(Seq<char>, Seq<char>)>, Seq<Seq<char>>),
        >::empty());
    }
    Ok(invs)
}

} // verus!
