//! Rendering the report and the cache as JSON text.
//!
//! The exact text is specified character by character, so what goes to
//! disk or to standard output is pinned by the contracts below.
use vstd::prelude::*;
use vstd::string::StrSliceExecFns;
use crate::cache::{Cache, CacheUsedPackages, CacheValue};
use crate::linked::LinkedPackages;
use crate::strutil::{push_chars_of, string_from_chars};
use crate::PackageId;

verus! {

/// The lowercase hex digit for a nibble.
pub open spec fn hex_digit(n: int) -> char {
    if n < 10 {
        ((48 + n) as u8) as char
    } else {
        ((87 + n) as u8) as char
    }
}

/// The JSON escape of one character inside a string literal.
pub open spec fn json_escape_char(c: char) -> Seq<char> {
    if c == '"' {
        seq!['\\', '"']
    } else if c == '\\' {
        seq!['\\', '\\']
    } else if c == '\n' {
        seq!['\\', 'n']
    } else if c == '\r' {
        seq!['\\', 'r']
    } else if c == '\t' {
        seq!['\\', 't']
    } else if (c as u32) < 32 {
        seq!['\\', 'u', '0', '0', hex_digit((c as u32 / 16) as int), hex_digit(
            (c as u32 % 16) as int,
        )]
    } else {
        seq![c]
    }
}

/// The escaped body of a JSON string, from `i` on.
pub open spec fn json_escaped(s: Seq<char>, i: int) -> Seq<char>
    decreases s.len() - i when 0 <= i <= s.len()
{
    if i < s.len() {
        json_escape_char(s[i]) + json_escaped(s, i + 1)
    } else {
        Seq::empty()
    }
}

/// A JSON string literal.
pub open spec fn json_str(s: Seq<char>) -> Seq<char> {
    seq!['"'] + json_escaped(s, 0) + seq!['"']
}

/// The comma-separated identity strings of a JSON array body.
pub open spec fn json_ids_body(ids: Seq<PackageId>, i: int) -> Seq<char>
    decreases ids.len() - i when 0 <= i <= ids.len()
{
    if i < ids.len() {
        json_str(ids[i].repr@) + (if i + 1 < ids.len() {
            seq![',']
        } else {
            Seq::empty()
        }) + json_ids_body(ids, i + 1)
    } else {
        Seq::empty()
    }
}

/// A JSON array of identity strings.
pub open spec fn json_ids(ids: Seq<PackageId>) -> Seq<char> {
    seq!['['] + json_ids_body(ids, 0) + seq![']']
}

/// An optional identity array: `null` when nothing was recorded.
pub open spec fn json_opt_ids(o: Option<Vec<PackageId>>) -> Seq<char> {
    match o {
        Some(v) => json_ids(v@),
        None => seq!['n', 'u', 'l', 'l'],
    }
}

/// The body of a JSON object mapping target names to identity arrays.
pub open spec fn json_named_body(m: Seq<(String, Vec<PackageId>)>, i: int) -> Seq<char>
    decreases m.len() - i when 0 <= i <= m.len()
{
    if i < m.len() {
        json_str(m[i].0@) + seq![':'] + json_ids(m[i].1@) + (if i + 1 < m.len() {
            seq![',']
        } else {
            Seq::empty()
        }) + json_named_body(m, i + 1)
    } else {
        Seq::empty()
    }
}

/// A JSON object mapping target names to identity arrays.
pub open spec fn json_named(m: Seq<(String, Vec<PackageId>)>) -> Seq<char> {
    seq!['{'] + json_named_body(m, 0) + seq!['}']
}

/// One package's usage results as a JSON object, slot by slot.
pub open spec fn json_used_packages(e: CacheUsedPackages) -> Seq<char> {
    "{\"lib\":"@ + json_opt_ids(e.lib) + ",\"bin\":"@ + json_named(e.bin@) + ",\"test\":"@
        + json_named(e.test@) + ",\"bench\":"@ + json_named(e.bench@) + ",\"example_lib\":"@
        + json_named(e.example_lib@) + ",\"example_bin\":"@ + json_named(e.example_bin@)
        + ",\"custom_build\":"@ + json_opt_ids(e.custom_build) + seq!['}']
}

/// The body of the per-package map of one cache section.
pub open spec fn json_entries_body(m: Seq<(PackageId, CacheUsedPackages)>, i: int) -> Seq<char>
    decreases m.len() - i when 0 <= i <= m.len()
{
    if i < m.len() {
        json_str(m[i].0.repr@) + seq![':'] + json_used_packages(m[i].1) + (if i + 1 < m.len() {
            seq![',']
        } else {
            Seq::empty()
        }) + json_entries_body(m, i + 1)
    } else {
        Seq::empty()
    }
}

/// One cache section as a JSON object.
pub open spec fn json_cache_value(v: CacheValue) -> Seq<char> {
    "{\"key\":{\"profile_kind\":"@ + json_str(v.key.profile_kind@) + "},\"used_packages\":{"@
        + json_entries_body(v.used_packages@, 0) + seq!['}', '}']
}

/// The body of the whole cache array.
pub open spec fn json_cache_body(m: Seq<CacheValue>, i: int) -> Seq<char>
    decreases m.len() - i when 0 <= i <= m.len()
{
    if i < m.len() {
        json_cache_value(m[i]) + (if i + 1 < m.len() {
            seq![',']
        } else {
            Seq::empty()
        }) + json_cache_body(m, i + 1)
    } else {
        Seq::empty()
    }
}

/// The whole cache as JSON text.
pub open spec fn json_cache(m: Seq<CacheValue>) -> Seq<char> {
    seq!['['] + json_cache_body(m, 0) + seq![']']
}

/// The report as JSON text.
pub open spec fn json_linked(r: LinkedPackages) -> Seq<char> {
    "{\"used\":"@ + json_ids(r.used@) + ",\"unused\":{\"trivial\":"@ + json_ids(r.unused.trivial@)
        + ",\"maybe_obsolete\":"@ + json_ids(r.unused.maybe_obsolete@) + seq!['}', '}']
}

fn push_hex_digit(out: &mut Vec<char>, nib: u8)
    requires
        nib < 16,
    ensures
        final(out)@ == old(out)@ + seq![hex_digit(nib as int)],
{
    if nib < 10 {
        out.push((48u8 + nib) as char);
    } else {
        out.push((87u8 + nib) as char);
    }
}

/// Appends the escaped body of `s`.
fn push_json_escaped(out: &mut Vec<char>, s: &str)
    ensures
        final(out)@ == old(out)@ + json_escaped(s@, 0),
{
    let n = s.unicode_len();
    let mut i: usize = 0;
    while i < n
        invariant
            n == s@.len(),
            i <= n,
            out@ + json_escaped(s@, i as int) =~= old(out)@ + json_escaped(s@, 0),
        decreases n - i,
    {
        let ghost before = out@;
        let c = s.get_char(i);
        if c == '"' {
            out.push('\\');
            out.push('"');
        } else if c == '\\' {
            out.push('\\');
            out.push('\\');
        } else if c == '\n' {
            out.push('\\');
            out.push('n');
        } else if c == '\r' {
            out.push('\\');
            out.push('r');
        } else if c == '\t' {
            out.push('\\');
            out.push('t');
        } else if (c as u32) < 32 {
            out.push('\\');
            out.push('u');
            out.push('0');
            out.push('0');
            let v = c as u32;
            push_hex_digit(out, (v / 16) as u8);
            push_hex_digit(out, (v % 16) as u8);
        } else {
            out.push(c);
        }
        proof {
            assert(out@ =~= before + json_escape_char(s@[i as int]));
            assert(out@ + json_escaped(s@, i as int + 1) =~= old(out)@ + json_escaped(s@, 0));
        }
        i = i + 1;
    }
    proof {
        assert(out@ =~= out@ + json_escaped(s@, n as int));
    }
}

/// Appends a JSON string literal for `s`.
fn push_json_str(out: &mut Vec<char>, s: &str)
    ensures
        final(out)@ == old(out)@ + json_str(s@),
{
    out.push('"');
    push_json_escaped(out, s);
    out.push('"');
    proof {
        assert(final(out)@ =~= old(out)@ + json_str(s@));
    }
}

/// Appends a JSON array of identity strings.
fn push_json_ids(out: &mut Vec<char>, ids: &Vec<PackageId>)
    ensures
        final(out)@ == old(out)@ + json_ids(ids@),
{
    out.push('[');
    let mut i: usize = 0;
    while i < ids.len()
        invariant
            i <= ids@.len(),
            out@ + json_ids_body(ids@, i as int) =~= old(out)@ + seq!['['] + json_ids_body(
                ids@,
                0,
            ),
        decreases ids@.len() - i,
    {
        let ghost before = out@;
        push_json_str(out, ids[i].repr.as_str());
        if i + 1 < ids.len() {
            out.push(',');
        }
        proof {
            assert(out@ + json_ids_body(ids@, i as int + 1) =~= old(out)@ + seq!['[']
                + json_ids_body(ids@, 0));
        }
        i = i + 1;
    }
    out.push(']');
    proof {
        assert(out@ =~= old(out)@ + json_ids(ids@));
    }
}

/// Appends `null` or an identity array.
fn push_json_opt_ids(out: &mut Vec<char>, o: &Option<Vec<PackageId>>)
    ensures
        final(out)@ == old(out)@ + json_opt_ids(*o),
{
    match o {
        Some(v) => {
            push_json_ids(out, v);
        },
        None => {
            push_chars_of(out, "null");
            proof {
                reveal_strlit("null");
                assert(out@ =~= old(out)@ + json_opt_ids(*o));
            }
        },
    }
}

/// Appends a JSON object mapping target names to identity arrays.
fn push_json_named(out: &mut Vec<char>, m: &Vec<(String, Vec<PackageId>)>)
    ensures
        final(out)@ == old(out)@ + json_named(m@),
{
    out.push('{');
    let mut i: usize = 0;
    while i < m.len()
        invariant
            i <= m@.len(),
            out@ + json_named_body(m@, i as int) =~= old(out)@ + seq!['{'] + json_named_body(
                m@,
                0,
            ),
        decreases m@.len() - i,
    {
        push_json_str(out, m[i].0.as_str());
        out.push(':');
        push_json_ids(out, &m[i].1);
        if i + 1 < m.len() {
            out.push(',');
        }
        proof {
            assert(out@ + json_named_body(m@, i as int + 1) =~= old(out)@ + seq!['{']
                + json_named_body(m@, 0));
        }
        i = i + 1;
    }
    out.push('}');
    proof {
        assert(out@ =~= old(out)@ + json_named(m@));
    }
}

/// Appends one package's usage results.
#[verifier::rlimit(60)]
fn push_json_used_packages(out: &mut Vec<char>, e: &CacheUsedPackages)
    ensures
        final(out)@ == old(out)@ + json_used_packages(*e),
{
    push_chars_of(out, "{\"lib\":");
    push_json_opt_ids(out, &e.lib);
    push_chars_of(out, ",\"bin\":");
    push_json_named(out, &e.bin);
    push_chars_of(out, ",\"test\":");
    push_json_named(out, &e.test);
    push_chars_of(out, ",\"bench\":");
    push_json_named(out, &e.bench);
    push_chars_of(out, ",\"example_lib\":");
    push_json_named(out, &e.example_lib);
    push_chars_of(out, ",\"example_bin\":");
    push_json_named(out, &e.example_bin);
    push_chars_of(out, ",\"custom_build\":");
    push_json_opt_ids(out, &e.custom_build);
    out.push('}');
    proof {
        assert(out@ =~= old(out)@ + json_used_packages(*e));
    }
}

impl LinkedPackages {
    /// The report as JSON text, exactly as `json_linked` spells it.
    pub fn to_json(&self) -> (r: String)
        ensures
            r@ == json_linked(*self),
    {
        let mut out: Vec<char> = Vec::new();
        push_chars_of(&mut out, "{\"used\":");
        push_json_ids(&mut out, &self.used);
        push_chars_of(&mut out, ",\"unused\":{\"trivial\":");
        push_json_ids(&mut out, &self.unused.trivial);
        push_chars_of(&mut out, ",\"maybe_obsolete\":");
        push_json_ids(&mut out, &self.unused.maybe_obsolete);
        out.push('}');
        out.push('}');
        proof {
            assert(out@ =~= json_linked(*self));
        }
        string_from_chars(out)
    }
}

/// Appends one cache section.
#[verifier::rlimit(60)]
fn push_json_cache_value(out: &mut Vec<char>, v: &CacheValue)
    ensures
        final(out)@ == old(out)@ + json_cache_value(*v),
{
    push_chars_of(out, "{\"key\":{\"profile_kind\":");
    push_json_str(out, v.key.profile_kind.as_str());
    push_chars_of(out, "},\"used_packages\":{");
    let ghost mid = out@;
    let mut j: usize = 0;
    while j < v.used_packages.len()
        invariant
            j <= v.used_packages@.len(),
            out@ + json_entries_body(v.used_packages@, j as int) =~= mid + json_entries_body(
                v.used_packages@,
                0,
            ),
        decreases v.used_packages@.len() - j,
    {
        push_json_str(out, v.used_packages[j].0.repr.as_str());
        out.push(':');
        push_json_used_packages(out, &v.used_packages[j].1);
        if j + 1 < v.used_packages.len() {
            out.push(',');
        }
        proof {
            assert(out@ + json_entries_body(v.used_packages@, j as int + 1) =~= mid
                + json_entries_body(v.used_packages@, 0));
        }
        j = j + 1;
    }
    out.push('}');
    out.push('}');
    proof {
        assert(out@ =~= old(out)@ + json_cache_value(*v));
    }
}

impl Cache {
    /// The cache as JSON text, exactly as `json_cache` spells it.
    pub fn to_json(&self) -> (r: String)
        ensures
            r@ == json_cache(self.0@),
    {
        let mut out: Vec<char> = Vec::new();
        out.push('[');
        let mut i: usize = 0;
        while i < self.0.len()
            invariant
                i <= self.0@.len(),
                out@ + json_cache_body(self.0@, i as int) =~= seq!['['] + json_cache_body(
                    self.0@,
                    0,
                ),
            decreases self.0@.len() - i,
        {
            push_json_cache_value(&mut out, &self.0[i]);
            if i + 1 < self.0.len() {
                out.push(',');
            }
            proof {
                assert(out@ + json_cache_body(self.0@, i as int + 1) =~= seq!['[']
                    + json_cache_body(self.0@, 0));
            }
            i = i + 1;
        }
        out.push(']');
        proof {
            assert(out@ =~= json_cache(self.0@));
        }
        string_from_chars(out)
    }
}

} // verus!