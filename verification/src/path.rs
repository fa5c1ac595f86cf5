//! UTF-8 paths with explicit, verified semantics.
//!
//! Paths here are plain strings joined with `/`. The code that actually
//! touches a file system converts these to and from its native path type
//! at the edge; everything this crate decides about paths is stated over
//! the character sequences below.
use vstd::prelude::*;
use vstd::string::StrSliceExecFns;

verus! {

/// An absolute path starts with the separator.
pub open spec fn is_absolute_spec(s: Seq<char>) -> bool {
    s.len() > 0 && s[0] == '/'
}

/// Joining `b` onto `a`: an absolute `b` replaces `a`; otherwise the two
/// are separated by exactly one `/`.
pub open spec fn join_spec(a: Seq<char>, b: Seq<char>) -> Seq<char> {
    if is_absolute_spec(b) {
        b
    } else if a.len() == 0 {
        b
    } else if a[a.len() - 1] == '/' {
        a + b
    } else {
        a + seq!['/'] + b
    }
}

/// Index of the last `/` in `s`, or `-1` when there is none.
pub open spec fn rfind_sep(s: Seq<char>) -> int
    decreases s.len(),
{
    if s.len() == 0 {
        -1
    } else if s[s.len() - 1] == '/' {
        s.len() - 1
    } else {
        rfind_sep(s.drop_last())
    }
}

/// Removing the last component: everything after the last `/` goes; a
/// path with no separator empties; the root keeps its `/`.
pub open spec fn pop_spec(s: Seq<char>) -> Seq<char> {
    let k = rfind_sep(s);
    if k < 0 {
        Seq::empty()
    } else if k == 0 {
        s.subrange(0, 1)
    } else {
        s.subrange(0, k)
    }
}

/// While the tail of `s` from `m` holds no separator, the last separator
/// of `s` is the last separator of the head.
proof fn lemma_rfind_sep_suffix(s: Seq<char>, m: int)
    requires
        0 <= m <= s.len(),
        forall|j: int| m <= j < s.len() ==> s[j] != '/',
    ensures
        rfind_sep(s) == rfind_sep(s.subrange(0, m)),
    decreases s.len() - m,
{
    if m == s.len() {
        assert(s.subrange(0, m) =~= s);
    } else {
        lemma_rfind_sep_suffix(s, m + 1);
        assert(s.subrange(0, m + 1).drop_last() =~= s.subrange(0, m));
        assert(rfind_sep(s.subrange(0, m + 1)) == rfind_sep(s.subrange(0, m)));
    }
}

/// A borrowed UTF-8 path.
pub struct Utf8Path<'a> {
    s: &'a str,
}

/// An owned UTF-8 path.
#[derive(Debug)]
pub struct Utf8PathBuf {
    s: String,
}

impl<'a> Utf8Path<'a> {
    pub closed spec fn view(&self) -> Seq<char> {
        self.s@
    }

    pub fn new(s: &'a str) -> (r: Utf8Path<'a>)
        ensures
            r@ == s@,
    {
        Utf8Path { s }
    }

    pub fn as_str(&self) -> (r: &'a str)
        ensures
            r@ == self@,
    {
        self.s
    }

    /// Whether the path is absolute under this crate's convention.
    pub fn is_absolute(&self) -> (r: bool)
        ensures
            r == is_absolute_spec(self@),
    {
        if self.s.unicode_len() == 0 {
            false
        } else {
            self.s.get_char(0) == '/'
        }
    }

    /// The path for `other` taken relative to `self`.
    pub fn join(&self, other: &str) -> (r: Utf8PathBuf)
        ensures
            r@ == join_spec(self@, other@),
    {
        let on = other.unicode_len();
        if on > 0 && other.get_char(0) == '/' {
            return Utf8PathBuf { s: other.to_owned() };
        }
        let n = self.s.unicode_len();
        if n == 0 {
            return Utf8PathBuf { s: other.to_owned() };
        }
        let mut out = self.s.to_owned();
        if self.s.get_char(n - 1) != '/' {
            out.append("/");
            proof {
                reveal_strlit("/");
                assert(out@ =~= self@ + seq!['/']);
            }
        }
        out.append(other);
        proof {
            assert(out@ =~= join_spec(self@, other@));
        }
        Utf8PathBuf { s: out }
    }
}

impl Utf8PathBuf {
    pub closed spec fn view(&self) -> Seq<char> {
        self.s@
    }

    pub fn from_string(s: String) -> (r: Utf8PathBuf)
        ensures
            r@ == s@,
    {
        Utf8PathBuf { s }
    }

    pub fn as_path<'a>(&'a self) -> (r: Utf8Path<'a>)
        ensures
            r@ == self@,
    {
        Utf8Path { s: self.s.as_str() }
    }

    pub fn as_str(&self) -> (r: &str)
        ensures
            r@ == self@,
    {
        self.s.as_str()
    }

    pub fn clone_path(&self) -> (r: Utf8PathBuf)
        ensures
            r@ == self@,
    {
        Utf8PathBuf { s: self.s.clone() }
    }

    /// Appends one component, inserting a separator when one is needed.
    pub fn push(&mut self, comp: &str)
        ensures
            final(self)@ == join_spec(old(self)@, comp@),
    {
        let joined = self.as_path().join(comp);
        self.s = joined.s;
    }

    /// Drops the last component, as `pop_spec` describes.
    pub fn pop(&mut self)
        ensures
            final(self)@ == pop_spec(old(self)@),
    {
        let n = self.s.unicode_len();
        let mut i: usize = n;
        // find the last separator
        let mut found: bool = false;
        let mut k: usize = 0;
        while i > 0
            invariant
                i <= n,
                n == self.s@.len(),
                found ==> 0 <= k < n && self.s@[k as int] == '/' && (forall|j: int|
                    k < j < n ==> self.s@[j] != '/'),
                !found ==> forall|j: int| i <= j < n ==> self.s@[j] != '/',
                found ==> i <= k,
            decreases i,
        {
            if !found {
                if self.s.get_char(i - 1) == '/' {
                    found = true;
                    k = i - 1;
                }
            }
            i = i - 1;
        }
        if found {
            proof {
                lemma_rfind_sep_suffix(self.s@, k + 1);
                let h = self.s@.subrange(0, k + 1);
                assert(h[h.len() - 1] == '/');
                assert(rfind_sep(self.s@) == k as int);
            }
            if k == 0 {
                let r = self.s.substring_char(0, 1);
                self.s = r.to_owned();
            } else {
                let r = self.s.substring_char(0, k);
                self.s = r.to_owned();
            }
        } else {
            proof {
                lemma_rfind_sep_suffix(self.s@, 0);
                assert(self.s@.subrange(0, 0) =~= Seq::<char>::empty());
            }
            self.s = String::new();
        }
    }
}

} // verus!
