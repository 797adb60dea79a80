//! Path text helpers and the markdown boundary.
//!
//! Paths are plain `/`-separated strings here; the helpers read their last
//! segment, strip extensions, and test containment, all over the character
//! model of [`crate::text`].

use vstd::prelude::*;
use crate::text;

verus! {

/// The HTML that the markdown renderer produces for the given source text.
pub uninterp spec fn html_of(s: Seq<char>) -> Seq<char>;

/// Renders markdown source to HTML, all markdown extensions enabled.
///
/// Relies on `pulldown_cmark::Parser::new_ext` and
/// `pulldown_cmark::html::push_html`: the rendered HTML is a function of
/// the source text alone.
#[verifier::external_body]
pub fn markdown(content: &str) -> (r: String)
    ensures
        r@ == html_of(content@),
{
    let mut html = String::new();
    pulldown_cmark::html::push_html(
        &mut html,
        pulldown_cmark::Parser::new_ext(content, pulldown_cmark::Options::all()),
    );
    html
}

/// The last `/`-separated segment of a path.
pub open spec fn file_name_of(p: Seq<char>) -> Seq<char> {
    text::split_of(p, '/').last()
}

/// Index of the last occurrence of `c` in `s`, or `-1` when absent.
pub open spec fn rfind_of(s: Seq<char>, c: char) -> int
    decreases s.len(),
{
    if s.len() == 0 {
        -1
    } else if s.last() == c {
        s.len() - 1
    } else {
        rfind_of(s.take(s.len() - 1), c)
    }
}

/// `rfind_of` names the last occurrence: nothing after it matches, and it
/// either points at a match or below zero.
pub proof fn lemma_rfind_of(s: Seq<char>, c: char)
    ensures
        -1 <= rfind_of(s, c) < s.len(),
        forall|j: int| rfind_of(s, c) < j < s.len() ==> s[j] != c,
        rfind_of(s, c) >= 0 ==> s[rfind_of(s, c)] == c,
    decreases s.len(),
{
    if s.len() > 0 && s.last() != c {
        let t = s.take(s.len() - 1);
        lemma_rfind_of(t, c);
        assert forall|j: int| rfind_of(s, c) < j < s.len() implies s[j] != c by {
            if j < s.len() - 1 {
                assert(t[j] == s[j]);
            }
        }
        if rfind_of(s, c) >= 0 {
            assert(t[rfind_of(t, c)] == s[rfind_of(s, c)]);
        }
    }
}

/// A scan back that sees no `c` after `m`, and a match or the start at
/// `m`, has found exactly `rfind_of`.
pub proof fn lemma_rfind_of_is(s: Seq<char>, c: char, m: int)
    requires
        -1 <= m < s.len(),
        forall|j: int| m < j < s.len() ==> s[j] != c,
        m == -1 || s[m] == c,
    ensures
        rfind_of(s, c) == m,
    decreases s.len(),
{
    if s.len() > 0 && s.last() != c {
        let t = s.take(s.len() - 1);
        assert forall|j: int| m < j < t.len() implies t[j] != c by {
            assert(t[j] == s[j]);
        }
        if m >= 0 {
            assert(t[m] == s[m]);
        }
        lemma_rfind_of_is(t, c, m);
    }
}

/// The file name with its extension stripped: everything before the last
/// `.`, unless the only `.` leads the name.
pub open spec fn stem_of(name: Seq<char>) -> Seq<char> {
    let i = rfind_of(name, '.');
    if i <= 0 {
        name
    } else {
        name.take(i)
    }
}

/// The last `/`-separated segment of a path.
pub fn file_name(p: &Vec<char>) -> (r: Vec<char>)
    ensures
        r@ == file_name_of(p@),
{
    let parts = text::split_all(p, '/');
    proof {
        text::lemma_deep_view_is(&parts);
        text::lemma_split_of(p@, '/');
    }
    let last = &parts[parts.len() - 1];
    let r = text::subvec(last, 0, last.len());
    proof {
        assert(r@ =~= parts.deep_view().last());
    }
    r
}

/// The name with its last extension stripped.
pub fn stem(name: &Vec<char>) -> (r: Vec<char>)
    ensures
        r@ == stem_of(name@),
{
    let n = name.len();
    let mut j: usize = n;
    while j > 0 && name[j - 1] != '.'
        invariant
            0 <= j <= n == name@.len(),
            forall|k: int| j <= k < n ==> name@[k] != '.',
        decreases j,
    {
        j = j - 1;
    }
    proof {
        lemma_rfind_of_is(name@, '.', j - 1);
    }
    if j <= 1 {
        let r = text::subvec(name, 0, n);
        proof {
            assert(r@ =~= name@);
        }
        r
    } else {
        text::subvec(name, 0, j - 1)
    }
}

/// `base` extended by segment path `rel`: a `/` is added unless `base`
/// already ends with one.
pub open spec fn joined_of(base: Seq<char>, rel: Seq<char>) -> Seq<char> {
    if base.len() > 0 && base.last() == '/' {
        base + rel
    } else {
        base + seq!['/'] + rel
    }
}

/// Whether a path is relative: it does not start with `/`.
pub open spec fn is_relative_of(p: Seq<char>) -> bool {
    !(p.len() > 0 && p[0] == '/')
}

/// A relative path resolved against `base`; an absolute one is unchanged.
pub open spec fn resolved_of(base: Seq<char>, p: Seq<char>) -> Seq<char> {
    if is_relative_of(p) {
        joined_of(base, p)
    } else {
        p
    }
}

/// Joins `base` and `rel` with a single `/` between them.
pub fn join_path(base: &str, rel: &str) -> (r: String)
    ensures
        r@ == joined_of(base@, rel@),
{
    let b = text::to_chars(base);
    let t = text::to_chars(rel);
    let mut v = b;
    if v.len() == 0 || v[v.len() - 1] != '/' {
        v.push('/');
    }
    let mut i: usize = 0;
    while i < t.len()
        invariant
            i <= t@.len(),
            t@ == rel@,
            v@ == (if base@.len() > 0 && base@.last() == '/' {
                base@
            } else {
                base@ + seq!['/']
            }) + t@.take(i as int),
        decreases t@.len() - i,
    {
        v.push(t[i]);
        i = i + 1;
        proof {
            assert(v@ =~= (if base@.len() > 0 && base@.last() == '/' {
                base@
            } else {
                base@ + seq!['/']
            }) + t@.take(i as int));
        }
    }
    proof {
        assert(t@.take(t@.len() as int) =~= rel@);
        assert(v@ =~= joined_of(base@, rel@));
    }
    text::from_chars(&v)
}

/// Path extension helpers: containment and resolution against a base.
pub trait Prefix {
    /// Whether `path` is this path itself or lies below it.
    fn is_sub(&self, path: &String) -> (r: bool)
        ensures
            r == text::is_under_of(self.chars(), path@),
    ;

    /// Resolves this path against `base` when it is relative.
    fn prefix(&mut self, base: &String)
        ensures
            final(self).chars() == resolved_of(base@, old(self).chars()),
    ;

    /// The characters of the path.
    spec fn chars(&self) -> Seq<char>;
}

impl Prefix for String {
    open spec fn chars(&self) -> Seq<char> {
        self@
    }

    fn is_sub(&self, path: &String) -> (r: bool) {
        let a = text::to_chars(self.as_str());
        let b = text::to_chars(path.as_str());
        text::is_under(&a, &b)
    }

    fn prefix(&mut self, base: &String) {
        let first_is_slash = if self.as_str().unicode_len() > 0 {
            self.as_str().get_char(0) == '/'
        } else {
            false
        };
        if !first_is_slash {
            *self = join_path(base.as_str(), self.as_str());
        }
    }
}

/// Path reading helpers: the file-name segment of a path.
pub trait Read {
    /// The last `/`-separated segment of the path, when it is non-empty.
    fn file_name(&self) -> (r: Option<String>)
        ensures
            r is Some <==> file_name_of(self.chars()).len() > 0,
            r matches Some(n) ==> n@ == file_name_of(self.chars()),
    ;

    /// The characters of the path.
    spec fn chars(&self) -> Seq<char>;
}

impl Read for String {
    open spec fn chars(&self) -> Seq<char> {
        self@
    }

    fn file_name(&self) -> (r: Option<String>) {
        let p = text::to_chars(self.as_str());
        let name = file_name(&p);
        if name.len() == 0 {
            None
        } else {
            Some(text::from_chars(&name))
        }
    }
}

} // verus!
