//! Structured compiler diagnostics and their interpretation.
//!
//! Three diagnostic families signal an unresolved external name; each has
//! its own message shape from which the name is extracted. A fourth,
//! the feature-gate family, signals that exclusion probing itself cannot
//! continue and forces the one-by-one fallback.
use vstd::prelude::*;
use vstd::string::StrSliceExecFns;
use crate::opts::{ident_run, is_ident_char, lemma_ident_run_at, opt_view, views};
use crate::strutil::{starts_with_spec, str_eq, str_starts_with};

verus! {

/// One structured diagnostic: its text and its machine code, when any.
#[derive(Debug)]
pub struct ErrorMessage {
    pub message: String,
    pub code: Option<String>,
}

/// The rest of `s` after the prefix `p`, when `p` is its prefix.
pub open spec fn strip_prefix_spec(s: Seq<char>, p: Seq<char>) -> Option<Seq<char>> {
    if starts_with_spec(s, p) {
        Some(s.subrange(p.len() as int, s.len() as int))
    } else {
        None
    }
}

/// A nonempty ident run that fills `rest` up to a final backtick.
pub open spec fn ident_then_closing(rest: Seq<char>) -> Option<Seq<char>> {
    let r = ident_run(rest, 0);
    if r > 0 && r == rest.len() - 1 && rest[r] == '`' {
        Some(rest.subrange(0, r))
    } else {
        None
    }
}

/// The unresolved name in an "unresolved import" message:
/// `unresolved import \`name\``.
pub open spec fn e0432_name(msg: Seq<char>) -> Option<Seq<char>> {
    match strip_prefix_spec(msg, "unresolved import `"@) {
        Some(rest) => ident_then_closing(rest),
        None => None,
    }
}

/// The unresolved name in a "cannot find external crate" message:
/// `can't find crate for \`name\``.
pub open spec fn e0463_name(msg: Seq<char>) -> Option<Seq<char>> {
    match strip_prefix_spec(msg, "can't find crate for `"@) {
        Some(rest) => ident_then_closing(rest),
        None => None,
    }
}

/// One character of the free-text run in a path-resolution message.
pub open spec fn is_lowsp_char(c: char) -> bool {
    ('a' <= c && c <= 'z') || c == ' '
}

/// Length of the run of lowercase-or-space characters from `i` on.
pub open spec fn lowsp_run(s: Seq<char>, i: int) -> int
    decreases s.len() - i when 0 <= i <= s.len()
{
    if i < s.len() && is_lowsp_char(s[i]) {
        1 + lowsp_run(s, i + 1)
    } else {
        0
    }
}

/// The run length is exactly the distance to the first other character.
pub proof fn lemma_lowsp_run_at(s: Seq<char>, i: int, j: int)
    requires
        0 <= j <= i <= s.len(),
        forall|m: int| j <= m < i ==> is_lowsp_char(s[m]),
        i == s.len() || !is_lowsp_char(s[i]),
    ensures
        lowsp_run(s, j) == i - j,
    decreases i - j,
{
    if j < i {
        lemma_lowsp_run_at(s, i, j + 1);
    }
}

/// The unresolved name in a path-resolution failure:
/// `failed to resolve <free text>\`name\``, optionally followed by
/// `` in \`{{root}}\```.
pub open spec fn e0433_name(msg: Seq<char>) -> Option<Seq<char>> {
    match strip_prefix_spec(msg, "failed to resolve "@) {
        Some(rest) => {
            let a = lowsp_run(rest, 0);
            if a > 0 && a < rest.len() && rest[a] == '`' {
                let rest2 = rest.subrange(a + 1, rest.len() as int);
                let r = ident_run(rest2, 0);
                if r > 0 && r < rest2.len() && rest2[r] == '`' {
                    let tail = rest2.subrange(r + 1, rest2.len() as int);
                    if tail.len() == 0 || tail == " in `{{root}}`"@ {
                        Some(rest2.subrange(0, r))
                    } else {
                        None
                    }
                } else {
                    None
                }
            } else {
                None
            }
        },
        None => None,
    }
}

/// The name a diagnostic asks for, under the family its code names;
/// diagnostics of any other family contribute nothing.
pub open spec fn extracted_name(d: ErrorMessage) -> Option<Seq<char>> {
    match d.code {
        Some(c) => if c@ == "E0432"@ {
            e0432_name(d.message@)
        } else if c@ == "E0433"@ {
            e0433_name(d.message@)
        } else if c@ == "E0463"@ {
            e0463_name(d.message@)
        } else {
            None
        },
        None => None,
    }
}

/// Whether any diagnostic carries the feature-gate code, after which
/// exclusion probing cannot safely continue.
pub open spec fn has_abandon_code(ds: Seq<ErrorMessage>) -> bool {
    exists|i: int| 0 <= i < ds.len() && opt_view((#[trigger] ds[i]).code) == Some("E0658"@)
}

/// First position at or after `j` holding `name`.
pub open spec fn find_name_from(names: Seq<Seq<char>>, name: Seq<char>, j: int) -> Option<int>
    decreases names.len() - j when 0 <= j <= names.len()
{
    if j >= names.len() {
        None
    } else if names[j] == name {
        Some(j)
    } else {
        find_name_from(names, name, j + 1)
    }
}

pub proof fn lemma_find_name_skip(names: Seq<Seq<char>>, name: Seq<char>, j: int, k: int)
    requires
        0 <= j <= k <= names.len(),
        forall|m: int| j <= m < k ==> names[m] != name,
    ensures
        find_name_from(names, name, j) == find_name_from(names, name, k),
    decreases k - j,
{
    if j < k {
        lemma_find_name_skip(names, name, j + 1, k);
    }
}

/// One diagnostic's effect on the exclusion set: the first extern whose
/// linkage name the diagnostic asks for is un-excluded.
pub open spec fn dispatch_one(excl: Seq<bool>, names: Seq<Seq<char>>, d: ErrorMessage) -> Seq<
    bool,
> {
    match extracted_name(d) {
        Some(nm) => match find_name_from(names, nm, 0) {
            Some(p) => excl.update(p, false),
            None => excl,
        },
        None => excl,
    }
}

/// The effect of a whole diagnostic stream, in emission order.
pub open spec fn dispatch_all(
    excl: Seq<bool>,
    names: Seq<Seq<char>>,
    ds: Seq<ErrorMessage>,
    i: int,
) -> Seq<bool>
    decreases ds.len() - i when 0 <= i <= ds.len()
{
    if i >= ds.len() {
        excl
    } else {
        dispatch_all(dispatch_one(excl, names, ds[i]), names, ds, i + 1)
    }
}

/// Dispatching never grows the exclusion set and never changes its size.
pub proof fn lemma_dispatch_all_monotone(
    excl: Seq<bool>,
    names: Seq<Seq<char>>,
    ds: Seq<ErrorMessage>,
    i: int,
)
    requires
        0 <= i <= ds.len(),
        names.len() == excl.len(),
    ensures
        dispatch_all(excl, names, ds, i).len() == excl.len(),
        forall|j: int|
            0 <= j < excl.len() && #[trigger] dispatch_all(excl, names, ds, i)[j] ==> excl[j],
    decreases ds.len() - i,
{
    if i < ds.len() {
        let d1 = dispatch_one(excl, names, ds[i]);
        let en = extracted_name(ds[i]);
        if en is Some && find_name_from(names, en->0, 0) is Some {
            lemma_find_name_range(names, en->0, 0);
        }
        assert(d1.len() == excl.len());
        assert(forall|j: int| 0 <= j < excl.len() && #[trigger] d1[j] ==> excl[j]);
        lemma_dispatch_all_monotone(d1, names, ds, i + 1);
    }
}

/// Helper for `find_name_from`: a found position lies in range and holds
/// the name.
pub proof fn lemma_find_name_range(names: Seq<Seq<char>>, name: Seq<char>, j: int)
    requires
        0 <= j <= names.len(),
        find_name_from(names, name, j) is Some,
    ensures
        j <= find_name_from(names, name, j)->0 < names.len(),
        names[find_name_from(names, name, j)->0] == name,
    decreases names.len() - j,
{
    if j < names.len() && names[j] != name {
        lemma_find_name_range(names, name, j + 1);
    }
}

/// Whether the feature-gate code occurs among the first `k` diagnostics.
pub open spec fn abandon_upto(ds: Seq<ErrorMessage>, k: int) -> bool
    decreases k when 0 <= k <= ds.len()
{
    if k <= 0 {
        false
    } else {
        abandon_upto(ds, k - 1) || opt_view(ds[k - 1].code) == Some("E0658"@)
    }
}

pub proof fn lemma_abandon_upto(ds: Seq<ErrorMessage>, k: int)
    requires
        0 <= k <= ds.len(),
    ensures
        abandon_upto(ds, k) == exists|m: int|
            0 <= m < k && opt_view((#[trigger] ds[m]).code) == Some("E0658"@),
    decreases k,
{
    if k > 0 {
        lemma_abandon_upto(ds, k - 1);
    }
}

pub fn lowsp_char(c: char) -> (r: bool)
    ensures
        r == is_lowsp_char(c),
{
    ('a' <= c && c <= 'z') || c == ' '
}

/// The ident-run-then-backtick shape shared by two of the families.
fn ident_then_closing_exec(rest: &str) -> (r: Option<String>)
    ensures
        opt_view(r) == ident_then_closing(rest@),
{
    let n = rest.unicode_len();
    let mut i: usize = 0;
    while i < n && crate::opts::ident_char(rest.get_char(i))
        invariant
            n == rest@.len(),
            i <= n,
            forall|m: int| 0 <= m < i ==> is_ident_char(rest@[m]),
        decreases n - i,
    {
        i = i + 1;
    }
    proof {
        lemma_ident_run_at(rest@, i as int, 0);
    }
    if i > 0 && i == n - 1 && rest.get_char(i) == '`' {
        Some(rest.substring_char(0, i).to_owned())
    } else {
        None
    }
}

/// Extracts the name from an "unresolved import" message.
pub fn e0432_extract(msg: &str) -> (r: Option<String>)
    ensures
        opt_view(r) == e0432_name(msg@),
{
    let p = "unresolved import `";
    if str_starts_with(msg, p) {
        let rest = msg.substring_char(p.unicode_len(), msg.unicode_len());
        ident_then_closing_exec(rest)
    } else {
        None
    }
}

/// Extracts the name from a "cannot find external crate" message.
pub fn e0463_extract(msg: &str) -> (r: Option<String>)
    ensures
        opt_view(r) == e0463_name(msg@),
{
    let p = "can't find crate for `";
    if str_starts_with(msg, p) {
        let rest = msg.substring_char(p.unicode_len(), msg.unicode_len());
        ident_then_closing_exec(rest)
    } else {
        None
    }
}

/// Extracts the name from a path-resolution failure message.
pub fn e0433_extract(msg: &str) -> (r: Option<String>)
    ensures
        opt_view(r) == e0433_name(msg@),
{
    let p = "failed to resolve ";
    if !str_starts_with(msg, p) {
        return None;
    }
    let rest = msg.substring_char(p.unicode_len(), msg.unicode_len());
    let n = rest.unicode_len();
    let mut a: usize = 0;
    while a < n && lowsp_char(rest.get_char(a))
        invariant
            n == rest@.len(),
            a <= n,
            forall|m: int| 0 <= m < a ==> is_lowsp_char(rest@[m]),
        decreases n - a,
    {
        a = a + 1;
    }
    proof {
        lemma_lowsp_run_at(rest@, a as int, 0);
    }
    if !(a > 0 && a < n && rest.get_char(a) == '`') {
        return None;
    }
    let rest2 = rest.substring_char(a + 1, n);
    let n2 = rest2.unicode_len();
    let mut r: usize = 0;
    while r < n2 && crate::opts::ident_char(rest2.get_char(r))
        invariant
            n2 == rest2@.len(),
            r <= n2,
            forall|m: int| 0 <= m < r ==> is_ident_char(rest2@[m]),
        decreases n2 - r,
    {
        r = r + 1;
    }
    proof {
        lemma_ident_run_at(rest2@, r as int, 0);
    }
    if !(r > 0 && r < n2 && rest2.get_char(r) == '`') {
        return None;
    }
    let tail = rest2.substring_char(r + 1, n2);
    if tail.unicode_len() == 0 || str_eq(tail, " in `{{root}}`") {
        Some(rest2.substring_char(0, r).to_owned())
    } else {
        None
    }
}

/// The name one diagnostic asks for, under its code family.
pub fn extracted_name_exec(d: &ErrorMessage) -> (r: Option<String>)
    ensures
        opt_view(r) == extracted_name(*d),
{
    match &d.code {
        Some(c) => {
            if str_eq(c.as_str(), "E0432") {
                e0432_extract(d.message.as_str())
            } else if str_eq(c.as_str(), "E0433") {
                e0433_extract(d.message.as_str())
            } else if str_eq(c.as_str(), "E0463") {
                e0463_extract(d.message.as_str())
            } else {
                None
            }
        },
        None => None,
    }
}

/// First position of `name` among the linkage names.
pub fn find_name_pos(names: &Vec<String>, name: &str) -> (r: Option<usize>)
    ensures
        match r {
            Some(p) => find_name_from(views(names@), name@, 0) == Some(p as int),
            None => find_name_from(views(names@), name@, 0) is None,
        },
{
    let ghost nv = views(names@);
    let mut j: usize = 0;
    while j < names.len()
        invariant
            nv == views(names@),
            j <= names@.len(),
            forall|m: int| 0 <= m < j ==> nv[m] != name@,
        decreases names@.len() - j,
    {
        if str_eq(names[j].as_str(), name) {
            proof {
                lemma_find_name_skip(nv, name@, 0, j as int);
            }
            return Some(j);
        }
        j = j + 1;
    }
    proof {
        lemma_find_name_skip(nv, name@, 0, names@.len() as int);
    }
    None
}

/// Processes one failed invocation's diagnostic stream: each recognized
/// unresolved-name diagnostic un-excludes the first extern bearing that
/// name. Returns whether anything was un-excluded, and whether the
/// feature-gate family appeared.
pub fn apply_error_messages(
    names: &Vec<String>,
    exclude: &mut fixedbitset::FixedBitSet,
    msgs: &Vec<ErrorMessage>,
) -> (r: (bool, bool))
    requires
        crate::bits::fbs_bits(*old(exclude)).len() == names@.len(),
    ensures
        crate::bits::fbs_bits(*final(exclude)) == dispatch_all(
            crate::bits::fbs_bits(*old(exclude)),
            views(names@),
            msgs@,
            0,
        ),
        r.0 == (crate::bits::fbs_bits(*final(exclude)) != crate::bits::fbs_bits(*old(exclude))),
        r.1 == has_abandon_code(msgs@),
{
    let ghost nv = views(names@);
    let ghost start = crate::bits::fbs_bits(*exclude);
    let mut updated = false;
    let ghost mut wit: int = 0;
    let mut abandon = false;
    let mut k: usize = 0;
    while k < msgs.len()
        invariant
            nv == views(names@),
            start == crate::bits::fbs_bits(*old(exclude)),
            k <= msgs@.len(),
            crate::bits::fbs_bits(*exclude).len() == start.len(),
            start.len() == nv.len(),
            forall|j: int|
                0 <= j < start.len() && #[trigger] crate::bits::fbs_bits(*exclude)[j] ==> start[j],
            dispatch_all(start, nv, msgs@, 0) == dispatch_all(
                crate::bits::fbs_bits(*exclude),
                nv,
                msgs@,
                k as int,
            ),
            updated ==> 0 <= wit < start.len() && start[wit]
                && !crate::bits::fbs_bits(*exclude)[wit],
            !updated ==> crate::bits::fbs_bits(*exclude) == start,
            abandon == abandon_upto(msgs@, k as int),
        decreases msgs@.len() - k,
    {
        match &msgs[k].code {
            Some(c) => {
                if str_eq(c.as_str(), "E0658") {
                    abandon = true;
                }
            },
            None => {},
        }
        let ghost before = crate::bits::fbs_bits(*exclude);
        let nm = extracted_name_exec(&msgs[k]);
        match nm {
            Some(name) => {
                match find_name_pos(names, name.as_str()) {
                    Some(p) => {
                        proof {
                            lemma_find_name_range(nv, name@, 0);
                        }
                        let was = crate::bits::fbs_contains(exclude, p);
                        if was {
                            updated = true;
                            proof {
                                wit = p as int;
                            }
                        }
                        crate::bits::fbs_set(exclude, p, false);
                    },
                    None => {},
                }
            },
            None => {},
        }
        proof {
            assert(crate::bits::fbs_bits(*exclude) == dispatch_one(before, nv, msgs@[k as int]));
            if !updated {
                assert(crate::bits::fbs_bits(*exclude) =~= start);
            }
        }
        k = k + 1;
    }
    proof {
        lemma_abandon_upto(msgs@, msgs@.len() as int);
        if updated {
            assert(crate::bits::fbs_bits(*exclude) != start) by {
                if crate::bits::fbs_bits(*exclude) == start {
                    assert(crate::bits::fbs_bits(*exclude)[wit] == start[wit]);
                }
            }
        }
    }
    (updated, abandon)
}

/// What one diagnostic line parses to: the message text and the machine
/// code, when the line is a structured diagnostic at all. The result is
/// a function of the line alone.
pub uninterp spec fn diag_of(s: Seq<char>) -> Option<(Seq<char>, Option<Seq<char>>)>;

/// Relies on `serde_json::from_str` for `serde_json::Value` and on
/// `Value::get` / `Value::as_str`: a structured diagnostic line is one
/// JSON object with a string `message` and optionally a `code` object
/// with a string `code`; this reads those two fields out of it.
#[verifier::external_body]
fn parse_diag_line(line: &str) -> (r: Option<ErrorMessage>)
    ensures
        match r {
            Some(d) => diag_of(line@) == Some((d.message@, opt_view(d.code))),
            None => diag_of(line@) is None,
        },
{
    let v: serde_json::Value = serde_json::from_str(line).ok()?;
    let message = v.get("message")?.as_str()?.to_owned();
    let code = match v.get("code") {
        None => None,
        Some(serde_json::Value::Null) => None,
        Some(c) => Some(c.get("code")?.as_str()?.to_owned()),
    };
    Some(ErrorMessage { message, code })
}

/// Parses a failed invocation's diagnostic lines, in order. Every line
/// must be a structured message: one that is not fails the whole probe,
/// since skipping it could hide a real unresolved-crate signal.
pub fn parse_diagnostics(lines: &Vec<String>) -> (r: Result<Vec<ErrorMessage>, crate::error::Error>)
    ensures
        match r {
            Ok(ds) => {
                &&& ds@.len() == lines@.len()
                &&& forall|i: int|
                    0 <= i < lines@.len() ==> diag_of((#[trigger] lines@[i])@) == Some(
                        (ds@[i].message@, opt_view(ds@[i].code)),
                    )
            },
            Err(e) => {
                &&& exists|i: int| 0 <= i < lines@.len() && diag_of((#[trigger] lines@[i])@) is None
                &&& e.spec_kind() matches crate::error::ErrorKind::MalformedDiagnostic { line }
                    && diag_of(line@) is None
            },
        },
{
    let mut ds: Vec<ErrorMessage> = Vec::new();
    let mut i: usize = 0;
    while i < lines.len()
        invariant
            i <= lines@.len(),
            ds@.len() == i,
            forall|j: int|
                0 <= j < i ==> diag_of((#[trigger] lines@[j])@) == Some(
                    (ds@[j].message@, opt_view(ds@[j].code)),
                ),
        decreases lines@.len() - i,
    {
        match parse_diag_line(lines[i].as_str()) {
            Some(d) => {
                ds.push(d);
            },
            None => {
                return Err(crate::error::Error::from_kind(
                    crate::error::ErrorKind::MalformedDiagnostic { line: lines[i].clone() },
                ));
            },
        }
        i = i + 1;
    }
    Ok(ds)
}

} // verus!
