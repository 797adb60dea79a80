//! The site manifest: title and resolved source and output paths.
//!
//! The manifest names where the posts, public assets, templates, theme and
//! favicon live and where the output tree goes.  Relative paths are
//! resolved against the project root exactly once; nothing here touches
//! the filesystem.

use vstd::prelude::*;
use crate::date::{self, Date};
use crate::post::{self, Post, LoadError};
use crate::text;
use crate::theme;
use crate::utils::{self, Prefix};

verus! {

/// The smallest configuration a project needs.
pub const MINIMAL_MANIFEST: &'static str = r#"
out = "out"
posts = "posts"
title = "Cydonia"
"#;

/// The manifest of a site.
#[derive(Clone, Debug)]
pub struct Manifest {
    /// The name of the site.
    pub title: String,
    /// The base URL of the site.
    pub base: String,
    /// The description of the site.
    pub description: String,
    /// The path of the favicon.
    pub favicon: String,
    /// The output directory.
    pub out: String,
    /// The path of the posts.
    pub posts: String,
    /// The path of the public directory.
    pub public: String,
    /// The path of the templates.
    pub templates: String,
    /// The path of the theme: a file or a directory.
    pub theme: String,
}

/// Default base URL.
pub fn base() -> (r: String)
    ensures
        r@ == "/"@,
{
    "/".to_owned()
}

/// Default favicon path.
pub fn favicon() -> (r: String)
    ensures
        r@ == "favicon.svg"@,
{
    "favicon.svg".to_owned()
}

/// Default output directory.
pub fn out() -> (r: String)
    ensures
        r@ == "out"@,
{
    "out".to_owned()
}

/// Default posts directory.
pub fn posts() -> (r: String)
    ensures
        r@ == "posts"@,
{
    "posts".to_owned()
}

/// Default public directory.
pub fn public() -> (r: String)
    ensures
        r@ == "public"@,
{
    "public".to_owned()
}

/// Default templates directory.
pub fn templates() -> (r: String)
    ensures
        r@ == "templates"@,
{
    "templates".to_owned()
}

/// Default theme path.
pub fn theme() -> (r: String)
    ensures
        r@ == "theme"@,
{
    "theme".to_owned()
}

impl Default for Manifest {
    /// The manifest every setting of which is its default.
    fn default() -> (r: Manifest)
        ensures
            r.title@ == "Cydonia"@,
            r.base@ == "/"@,
            r.description@ == ""@,
            r.favicon@ == "favicon.svg"@,
            r.out@ == "out"@,
            r.posts@ == "posts"@,
            r.public@ == "public"@,
            r.templates@ == "templates"@,
            r.theme@ == "theme"@,
    {
        Manifest {
            title: "Cydonia".to_owned(),
            base: base(),
            description: "".to_owned(),
            favicon: favicon(),
            out: out(),
            posts: posts(),
            public: public(),
            templates: templates(),
            theme: theme(),
        }
    }
}

impl Manifest {
    /// Overlays `other` on this manifest: each path setting of `other`
    /// that differs from its default replaces the one here; the title,
    /// base and description stay.
    pub fn merge(&mut self, other: Manifest)
        ensures
            final(self).title == old(self).title,
            final(self).base == old(self).base,
            final(self).description == old(self).description,
            final(self).favicon == (if other.favicon@ != "favicon.svg"@ {
                other.favicon
            } else {
                old(self).favicon
            }),
            final(self).out == (if other.out@ != "out"@ {
                other.out
            } else {
                old(self).out
            }),
            final(self).posts == (if other.posts@ != "posts"@ {
                other.posts
            } else {
                old(self).posts
            }),
            final(self).public == (if other.public@ != "public"@ {
                other.public
            } else {
                old(self).public
            }),
            final(self).templates == (if other.templates@ != "templates"@ {
                other.templates
            } else {
                old(self).templates
            }),
            final(self).theme == (if other.theme@ != "theme"@ {
                other.theme
            } else {
                old(self).theme
            }),
    {
        if !(other.favicon == favicon()) {
            self.favicon = other.favicon;
        }
        if !(other.out == out()) {
            self.out = other.out;
        }
        if !(other.posts == posts()) {
            self.posts = other.posts;
        }
        if !(other.public == public()) {
            self.public = other.public;
        }
        if !(other.templates == templates()) {
            self.templates = other.templates;
        }
        if !(other.theme == theme()) {
            self.theme = other.theme;
        }
    }

    /// The five tracked source paths, in classification order: favicon,
    /// posts, public, templates, theme.
    pub fn paths(&self) -> (r: Vec<String>)
        ensures
            r@.len() == 5,
            r@[0] == self.favicon,
            r@[1] == self.posts,
            r@[2] == self.public,
            r@[3] == self.templates,
            r@[4] == self.theme,
    {
        let mut r: Vec<String> = Vec::new();
        r.push(self.favicon.clone());
        r.push(self.posts.clone());
        r.push(self.public.clone());
        r.push(self.templates.clone());
        r.push(self.theme.clone());
        r
    }

    /// Resolves every relative path setting against `prefix`, exactly
    /// once, at load time.
    pub fn abs(self, prefix: &String) -> (r: Manifest)
        ensures
            r.title == self.title,
            r.base == self.base,
            r.description == self.description,
            r.favicon@ == utils::resolved_of(prefix@, self.favicon@),
            r.out@ == utils::resolved_of(prefix@, self.out@),
            r.posts@ == utils::resolved_of(prefix@, self.posts@),
            r.public@ == utils::resolved_of(prefix@, self.public@),
            r.templates@ == utils::resolved_of(prefix@, self.templates@),
            r.theme@ == utils::resolved_of(prefix@, self.theme@),
    {
        let mut m = self;
        m.favicon.prefix(prefix);
        m.out.prefix(prefix);
        m.posts.prefix(prefix);
        m.public.prefix(prefix);
        m.templates.prefix(prefix);
        m.theme.prefix(prefix);
        m
    }

    /// The theme-adjacent files to write into the output directory:
    /// `theme.css` and the two highlighter assets, each the override text
    /// when the theme directory holds one, else the built-in default.
    pub fn write_theme(
        &self,
        theme_css: Option<String>,
        hl_css: Option<String>,
        hl_js: Option<String>,
    ) -> (r: Vec<(String, String)>)
        ensures
            r@.len() == 3,
            r@[0].0@ == "theme.css"@ && r@[0].1@ == (if theme_css is Some {
                theme_css->0@
            } else {
                theme::DEFAULT_THEME@
            }),
            r@[1].0@ == "highlight.css"@ && r@[1].1@ == (if hl_css is Some {
                hl_css->0@
            } else {
                theme::HIGHLIGHT_CSS@
            }),
            r@[2].0@ == "highlight.js"@ && r@[2].1@ == (if hl_js is Some {
                hl_js->0@
            } else {
                theme::HIGHLIGHT_JS@
            }),
    {
        let mut r: Vec<(String, String)> = Vec::new();
        let t = match theme_css {
            Some(c) => c,
            None => theme::DEFAULT_THEME.to_owned(),
        };
        r.push(("theme.css".to_owned(), t));
        let css = match hl_css {
            Some(c) => c,
            None => theme::HIGHLIGHT_CSS.to_owned(),
        };
        r.push(("highlight.css".to_owned(), css));
        let js = match hl_js {
            Some(j) => j,
            None => theme::HIGHLIGHT_JS.to_owned(),
        };
        r.push(("highlight.js".to_owned(), js));
        r
    }
}

/// A loaded post: its date is resolved and names a real calendar day.
pub open spec fn wf_post(p: Post) -> bool {
    p.meta.date is Some && p.meta.date->0.valid()
}

/// The chronological key of a loaded post.
pub open spec fn date_key_of(p: Post) -> int {
    p.meta.date->0.key()
}

/// The calendar year of a loaded post.
pub open spec fn year_of(p: Post) -> int {
    p.meta.date->0.year as int
}

/// Newest first: every earlier entry dates at or after every later one.
pub open spec fn sorted_desc(s: Seq<Post>) -> bool {
    forall|i: int, j: int| 0 <= i < j < s.len() ==> date_key_of(s[i]) >= date_key_of(s[j])
}

/// The resolved date of a loaded post.
fn post_date(p: &Post) -> (r: Date)
    requires
        wf_post(*p),
    ensures
        r == p.meta.date->0,
        r.valid(),
{
    match &p.meta.date {
        Some(d) => *d,
        None => {
            proof {
                assert(false);
            }
            Date { year: 0, month: 1, day: 1 }
        },
    }
}

/// Loads every file of the batch, in order, failing fast on the first
/// malformed entry.
#[verifier::rlimit(100)]
pub fn load_posts(files: &Vec<(String, String)>) -> (r: Result<Vec<Post>, LoadError>)
    ensures
        r is Ok <==> (forall|i: int|
            0 <= i < files@.len() ==> post::load_ok_of(
                #[trigger] files@[i].0@,
                files@[i].1@,
            )),
        r matches Ok(ps) ==> (ps@.len() == files@.len() && (forall|i: int|
            0 <= i < files@.len() ==> post::is_loaded_post(
                files@[i].0@,
                files@[i].1@,
                #[trigger] ps@[i],
            )) && (forall|i: int| 0 <= i < ps@.len() ==> wf_post(#[trigger] ps@[i]))),
        r matches Err(e) ==> (exists|i: int|
            0 <= i < files@.len() && !post::load_ok_of(#[trigger] files@[i].0@, files@[i].1@)
                && e == post::load_err_of(files@[i].0@, files@[i].1@) && (forall|j: int|
                0 <= j < i ==> post::load_ok_of(#[trigger] files@[j].0@, files@[j].1@))),
{
    let mut ps: Vec<Post> = Vec::new();
    let mut i: usize = 0;
    while i < files.len()
        invariant
            i <= files@.len(),
            ps@.len() == i,
            forall|k: int|
                0 <= k < i ==> post::is_loaded_post(
                    files@[k].0@,
                    files@[k].1@,
                    #[trigger] ps@[k],
                ),
            forall|k: int| 0 <= k < i ==> wf_post(#[trigger] ps@[k]),
            forall|k: int| 0 <= k < i ==> post::load_ok_of(#[trigger] files@[k].0@, files@[k].1@),
        decreases files@.len() - i,
    {
        let file = &files[i];
        match Post::load(file.0.as_str(), file.1.as_str()) {
            Ok(p) => {
                proof {
                    reveal(post::is_loaded_post);
                    assert(wf_post(p));
                }
                ps.push(p);
            },
            Err(e) => {
                return Err(e);
            },
        }
        i = i + 1;
    }
    Ok(ps)
}

/// The posts dated with key `k`, in order: one date's run of the list.
pub open spec fn with_date_key(s: Seq<Post>, k: int) -> Seq<Post>
    decreases s.len(),
{
    if s.len() == 0 {
        Seq::empty()
    } else {
        let rest = with_date_key(s.drop_last(), k);
        if date_key_of(s.last()) == k {
            rest.push(s.last())
        } else {
            rest
        }
    }
}

/// A list without a date has an empty run of it.
proof fn lemma_with_key_empty(s: Seq<Post>, k: int)
    requires
        forall|j: int| 0 <= j < s.len() ==> date_key_of(#[trigger] s[j]) != k,
    ensures
        with_date_key(s, k) == Seq::<Post>::empty(),
    decreases s.len(),
{
    if s.len() > 0 {
        let t = s.drop_last();
        assert(forall|j: int| 0 <= j < t.len() ==> date_key_of(#[trigger] t[j]) != k);
        lemma_with_key_empty(t, k);
        assert(date_key_of(s.last()) != k);
    }
}

/// Inserting a post before every other post of its date prepends it to
/// that date's run and leaves every other run unchanged.
proof fn lemma_with_key_insert(s: Seq<Post>, idx: int, p: Post, k: int)
    requires
        0 <= idx <= s.len(),
        date_key_of(p) == k ==> (forall|j: int| 0 <= j < idx ==> date_key_of(#[trigger] s[j])
            != k),
    ensures
        with_date_key(s.insert(idx, p), k) == (if date_key_of(p) == k {
            seq![p] + with_date_key(s, k)
        } else {
            with_date_key(s, k)
        }),
    decreases s.len(),
{
    let s2 = s.insert(idx, p);
    if idx == s.len() {
        assert(s2 =~= s.push(p));
        assert(s2.drop_last() =~= s);
        if date_key_of(p) == k {
            lemma_with_key_empty(s, k);
            assert(with_date_key(s2, k) =~= seq![p] + with_date_key(s, k));
        }
    } else {
        assert(s2.last() == s.last());
        assert(s2.drop_last() =~= s.drop_last().insert(idx, p));
        assert(forall|j: int| 0 <= j < s.drop_last().len() ==> #[trigger] s.drop_last()[j]
            == s[j]);
        lemma_with_key_insert(s.drop_last(), idx, p, k);
        if date_key_of(p) == k {
            assert(with_date_key(s2.drop_last(), k) == seq![p] + with_date_key(
                s.drop_last(),
                k,
            ));
            if date_key_of(s.last()) == k {
                assert((seq![p] + with_date_key(s.drop_last(), k)).push(s.last()) =~= seq![p]
                    + with_date_key(s.drop_last(), k).push(s.last()));
            }
        }
    }
}

/// Sorts loaded posts newest first, keeping posts that share a date in
/// their given order.  The result holds exactly the given posts.
pub fn sort_posts(posts_in: Vec<Post>) -> (r: Vec<Post>)
    requires
        forall|i: int| 0 <= i < posts_in@.len() ==> wf_post(#[trigger] posts_in@[i]),
    ensures
        r@.to_multiset() == posts_in@.to_multiset(),
        r@.len() == posts_in@.len(),
        sorted_desc(r@),
        forall|i: int| 0 <= i < r@.len() ==> wf_post(#[trigger] r@[i]),
        forall|k: int| #[trigger] with_date_key(r@, k) == with_date_key(posts_in@, k),
{
    let mut v = posts_in;
    let mut r: Vec<Post> = Vec::new();
    proof {
        assert forall|x: Post| r@.to_multiset().count(x) == 0 by {
            r@.to_multiset_ensures();
            assert(!r@.contains(x));
        }
        assert(r@.to_multiset().add(v@.to_multiset()) =~= v@.to_multiset());
        assert forall|k: int| #[trigger] with_date_key(posts_in@, k) == with_date_key(v@, k)
            + with_date_key(r@, k) by {
            assert(with_date_key(r@, k) =~= Seq::<Post>::empty());
            assert(with_date_key(v@, k) + with_date_key(r@, k) =~= with_date_key(v@, k));
        }
    }
    while v.len() > 0
        invariant
            r@.to_multiset().add(v@.to_multiset()) == posts_in@.to_multiset(),
            r@.len() + v@.len() == posts_in@.len(),
            sorted_desc(r@),
            forall|i: int| 0 <= i < v@.len() ==> wf_post(#[trigger] v@[i]),
            forall|i: int| 0 <= i < r@.len() ==> wf_post(#[trigger] r@[i]),
            forall|k: int| #[trigger] with_date_key(posts_in@, k) == with_date_key(v@, k)
                + with_date_key(r@, k),
        decreases v@.len(),
    {
        let ghost v_pre = v@;
        let p = match v.pop() {
            Some(p) => p,
            None => {
                proof {
                    assert(false);
                }
                continue ;
            },
        };
        proof {
            v@.to_multiset_ensures();
            assert(v_pre =~= v@.push(p));
            assert(v_pre.to_multiset() == v@.push(p).to_multiset());
            assert(v@.push(p).to_multiset() =~= v@.to_multiset().insert(p));
        }
        let pd = post_date(&p);
        let mut idx: usize = 0;
        while idx < r.len() && pd.lt(&post_date(&r[idx]))
            invariant
                idx <= r@.len(),
                wf_post(p),
                pd == p.meta.date->0,
                sorted_desc(r@),
                forall|i: int| 0 <= i < r@.len() ==> wf_post(#[trigger] r@[i]),
                forall|k: int| 0 <= k < idx ==> date_key_of(#[trigger] r@[k]) > date_key_of(p),
            decreases r@.len() - idx,
        {
            idx = idx + 1;
        }
        let ghost r_pre = r@;
        r.insert(idx, p);
        proof {
            assert forall|k: int| #[trigger] with_date_key(posts_in@, k) == with_date_key(v@, k)
                + with_date_key(r@, k) by {
                assert(v_pre.drop_last() =~= v@);
                assert(v_pre.last() == p);
                lemma_with_key_insert(r_pre, idx as int, p, k);
                if date_key_of(p) == k {
                    assert(with_date_key(v_pre, k) == with_date_key(v@, k).push(p));
                    assert(with_date_key(r@, k) == seq![p] + with_date_key(r_pre, k));
                    assert(with_date_key(v@, k).push(p) + with_date_key(r_pre, k)
                        =~= with_date_key(v@, k) + (seq![p] + with_date_key(r_pre, k)));
                } else {
                    assert(with_date_key(v_pre, k) == with_date_key(v@, k));
                }
            }
            r@.to_multiset_ensures();
            assert(r@ == r_pre.insert(idx as int, p));
            assert(r@.remove(idx as int) =~= r_pre);
            assert(r@[idx as int] == p);
            assert(r@.contains(p));
            assert(r@.to_multiset().count(p) > 0);
            assert(r@.remove(idx as int).to_multiset() =~= r@.to_multiset().remove(p));
            assert(r@.to_multiset() =~= r_pre.to_multiset().insert(p));
            assert forall|i: int, j: int| 0 <= i < j < r@.len() implies date_key_of(r@[i])
                >= date_key_of(r@[j]) by {
                if j < idx {
                    assert(r@[i] == r_pre[i] && r@[j] == r_pre[j]);
                } else if i > idx {
                    assert(r@[i] == r_pre[i - 1] && r@[j] == r_pre[j - 1]);
                } else if i == idx {
                    assert(r@[j] == r_pre[j - 1]);
                    if idx < r_pre.len() {
                        assert(date_key_of(r_pre[idx as int]) <= date_key_of(p));
                    }
                } else if j == idx {
                    assert(r@[i] == r_pre[i]);
                } else {
                    assert(r@[i] == r_pre[i] && r@[j] == r_pre[j - 1]);
                    if idx < r_pre.len() {
                        assert(date_key_of(r_pre[idx as int]) <= date_key_of(p));
                    }
                }
            }
            assert forall|i: int| 0 <= i < r@.len() implies wf_post(#[trigger] r@[i]) by {
                if i < idx {
                    assert(r@[i] == r_pre[i]);
                } else if i > idx {
                    assert(r@[i] == r_pre[i - 1]);
                }
            }
        }
    }
    proof {
        assert forall|x: Post| v@.to_multiset().count(x) == 0 by {
            v@.to_multiset_ensures();
            assert(!v@.contains(x));
        }
        assert(r@.to_multiset() =~= posts_in@.to_multiset());
        assert forall|k: int| #[trigger] with_date_key(r@, k) == with_date_key(posts_in@, k) by {
            assert(with_date_key(v@, k) =~= Seq::<Post>::empty());
            assert(with_date_key(v@, k) + with_date_key(r@, k) =~= with_date_key(r@, k));
        }
    }
    r
}

/// Two posts that differ at most in their year label.
pub open spec fn same_but_year(a: Post, b: Post) -> bool {
    b.content == a.content && b.meta == a.meta && b.path == a.path && b.index.index
        == a.index.index && b.index.link == a.index.link
}

/// Marks the first post of each calendar year in a newest-first list:
/// its year label becomes the printed year, every other label becomes
/// empty.
pub fn mark_years(posts_in: Vec<Post>) -> (r: Vec<Post>)
    requires
        sorted_desc(posts_in@),
        forall|i: int| 0 <= i < posts_in@.len() ==> wf_post(#[trigger] posts_in@[i]),
    ensures
        r@.len() == posts_in@.len(),
        forall|i: int| 0 <= i < r@.len() ==> same_but_year(#[trigger] posts_in@[i], r@[i]),
        forall|i: int|
            0 <= i < r@.len() ==> (#[trigger] r@[i].index.year@) == (if i == 0 || year_of(
                posts_in@[i - 1],
            ) != year_of(posts_in@[i]) {
                date::year_chars(year_of(posts_in@[i]))
            } else {
                Seq::<char>::empty()
            }),
        sorted_desc(r@),
        forall|i: int| 0 <= i < r@.len() ==> wf_post(#[trigger] r@[i]),
{
    let mut v = posts_in;
    let ghost orig = v@;
    let mut r: Vec<Post> = Vec::new();
    while v.len() > 0
        invariant
            r@.len() + v@.len() == orig.len(),
            v@ == orig.skip(r@.len() as int),
            sorted_desc(orig),
            forall|k: int| 0 <= k < orig.len() ==> wf_post(#[trigger] orig[k]),
            forall|k: int| 0 <= k < r@.len() ==> same_but_year(#[trigger] orig[k], r@[k]),
            forall|k: int|
                0 <= k < r@.len() ==> (#[trigger] r@[k].index.year@) == (if k == 0 || year_of(
                    orig[k - 1],
                ) != year_of(orig[k]) {
                    date::year_chars(year_of(orig[k]))
                } else {
                    Seq::<char>::empty()
                }),
        decreases v@.len(),
    {
        let ghost i = r@.len() as int;
        let mut p = v.remove(0);
        proof {
            assert(orig.skip(i)[0] == orig[i]);
            assert(v@ =~= orig.skip(i + 1));
        }
        let d = post_date(&p);
        let marked = if r.len() == 0 {
            true
        } else {
            proof {
                assert(same_but_year(orig[i - 1], r@[i - 1]));
                assert(wf_post(r@[i - 1]));
            }
            let prev = post_date(&r[r.len() - 1]);
            prev.year != d.year
        };
        p.index.year = if marked {
            date::format_year(&d)
        } else {
            String::new()
        };
        r.push(p);
    }
    proof {
        assert(r@.len() == orig.len());
        assert forall|i: int, j: int| 0 <= i < j < r@.len() implies date_key_of(r@[i])
            >= date_key_of(r@[j]) by {
            assert(same_but_year(orig[i], r@[i]) && same_but_year(orig[j], r@[j]));
        }
        assert forall|i: int| 0 <= i < r@.len() implies wf_post(#[trigger] r@[i]) by {
            assert(same_but_year(orig[i], r@[i]));
        }
    }
    r
}

/// The paths of the posts dated with key `k`, in order.
pub open spec fn paths_with_key(s: Seq<Post>, k: int) -> Seq<Seq<char>>
    decreases s.len(),
{
    if s.len() == 0 {
        Seq::empty()
    } else {
        let rest = paths_with_key(s.drop_last(), k);
        if date_key_of(s.last()) == k {
            rest.push(s.last().path@)
        } else {
            rest
        }
    }
}

/// The chronological key a file's post loads with.
pub open spec fn load_key_of(path: Seq<char>, contents: Seq<char>) -> int {
    post::resolved_date_of(
        post::post_parse_of(contents)->Ok_0.0,
        post::post_name_of(path),
    )->Ok_0.key()
}

/// The paths of the batch files whose post loads with date key `k`, in
/// batch order.
pub open spec fn file_paths_with_key(files: Seq<(String, String)>, k: int) -> Seq<Seq<char>>
    decreases files.len(),
{
    if files.len() == 0 {
        Seq::empty()
    } else {
        let rest = file_paths_with_key(files.drop_last(), k);
        if load_key_of(files.last().0@, files.last().1@) == k {
            rest.push(files.last().0@)
        } else {
            rest
        }
    }
}

/// A date's run of paths is that run of posts, projected to their paths.
proof fn lemma_paths_from_runs(s: Seq<Post>, k: int)
    ensures
        paths_with_key(s, k) == with_date_key(s, k).map_values(|p: Post| p.path@),
    decreases s.len(),
{
    if s.len() == 0 {
        assert(paths_with_key(s, k) =~= with_date_key(s, k).map_values(|p: Post| p.path@));
    } else {
        lemma_paths_from_runs(s.drop_last(), k);
        assert(paths_with_key(s, k) =~= with_date_key(s, k).map_values(|p: Post| p.path@));
    }
}

/// Loaded posts carry their file's path and date, so their runs of paths
/// are the batch's runs.
proof fn lemma_paths_match_files(files: Seq<(String, String)>, ps: Seq<Post>, k: int)
    requires
        ps.len() == files.len(),
        forall|i: int|
            0 <= i < files.len() ==> post::is_loaded_post(
                #[trigger] files[i].0@,
                files[i].1@,
                ps[i],
            ),
    ensures
        paths_with_key(ps, k) == file_paths_with_key(files, k),
    decreases files.len(),
{
    reveal(post::is_loaded_post);
    if files.len() > 0 {
        assert forall|i: int| 0 <= i < files.len() - 1 implies post::is_loaded_post(
            #[trigger] files.drop_last()[i].0@,
            files.drop_last()[i].1@,
            ps.drop_last()[i],
        ) by {
            assert(files.drop_last()[i] == files[i] && ps.drop_last()[i] == ps[i]);
        }
        lemma_paths_match_files(files.drop_last(), ps.drop_last(), k);
        let n = files.len() - 1;
        assert(post::is_loaded_post(files[n].0@, files[n].1@, ps[n]));
        assert(ps.last().path@ == files.last().0@);
        assert(date_key_of(ps.last()) == load_key_of(files.last().0@, files.last().1@));
    }
}

/// Changing only year labels changes no date's run of paths.
proof fn lemma_paths_same_but_year(a: Seq<Post>, b: Seq<Post>, k: int)
    requires
        a.len() == b.len(),
        forall|i: int| 0 <= i < a.len() ==> same_but_year(#[trigger] a[i], b[i]),
    ensures
        paths_with_key(b, k) == paths_with_key(a, k),
    decreases a.len(),
{
    if a.len() > 0 {
        assert forall|i: int| 0 <= i < a.drop_last().len() implies same_but_year(
            #[trigger] a.drop_last()[i],
            b.drop_last()[i],
        ) by {
            assert(a.drop_last()[i] == a[i] && b.drop_last()[i] == b[i]);
        }
        lemma_paths_same_but_year(a.drop_last(), b.drop_last(), k);
        assert(same_but_year(a.last(), b.last()));
    }
}

/// A list without a date has an empty run of its paths.
proof fn lemma_paths_key_empty(s: Seq<Post>, k: int)
    requires
        forall|j: int| 0 <= j < s.len() ==> date_key_of(#[trigger] s[j]) != k,
    ensures
        paths_with_key(s, k) == Seq::<Seq<char>>::empty(),
    decreases s.len(),
{
    if s.len() > 0 {
        let t = s.drop_last();
        assert(forall|j: int| 0 <= j < t.len() ==> date_key_of(#[trigger] t[j]) != k);
        lemma_paths_key_empty(t, k);
        assert(date_key_of(s.last()) != k);
    }
}

/// A list opening with date `k` opens that date's run of paths.
proof fn lemma_paths_front(s: Seq<Post>, k: int)
    requires
        s.len() > 0,
        date_key_of(s[0]) == k,
    ensures
        paths_with_key(s, k) == seq![s[0].path@] + paths_with_key(s.skip(1), k),
    decreases s.len(),
{
    if s.len() == 1 {
        assert(s.skip(1) =~= Seq::<Post>::empty());
        assert(s.drop_last() =~= Seq::<Post>::empty());
        lemma_paths_key_empty(s.skip(1), k);
        lemma_paths_key_empty(s.drop_last(), k);
        assert(s.last() == s[0]);
        assert(paths_with_key(s, k) =~= seq![s[0].path@] + paths_with_key(s.skip(1), k));
    } else {
        let t = s.drop_last();
        assert(t[0] == s[0]);
        lemma_paths_front(t, k);
        assert(t.skip(1) =~= s.skip(1).drop_last());
        assert(s.skip(1).last() == s.last());
        if date_key_of(s.last()) == k {
            assert(paths_with_key(s, k) == paths_with_key(t, k).push(s.last().path@));
            assert(paths_with_key(s.skip(1), k) == paths_with_key(
                s.skip(1).drop_last(),
                k,
            ).push(s.last().path@));
        } else {
            assert(paths_with_key(s, k) == paths_with_key(t, k));
            assert(paths_with_key(s.skip(1), k) == paths_with_key(s.skip(1).drop_last(), k));
        }
        assert(paths_with_key(s, k) =~= seq![s[0].path@] + paths_with_key(s.skip(1), k));
    }
}

/// A list opening with another date has the same run of paths as its
/// tail.
proof fn lemma_paths_skip_front(s: Seq<Post>, k: int)
    requires
        s.len() > 0,
        date_key_of(s[0]) != k,
    ensures
        paths_with_key(s, k) == paths_with_key(s.skip(1), k),
    decreases s.len(),
{
    if s.len() == 1 {
        assert(s.skip(1) =~= Seq::<Post>::empty());
        assert(s.drop_last() =~= Seq::<Post>::empty());
        lemma_paths_key_empty(s.skip(1), k);
        lemma_paths_key_empty(s.drop_last(), k);
        assert(s.last() == s[0]);
        assert(paths_with_key(s, k) =~= paths_with_key(s.skip(1), k));
    } else {
        let t = s.drop_last();
        assert(t[0] == s[0]);
        lemma_paths_skip_front(t, k);
        assert(t.skip(1) =~= s.skip(1).drop_last());
        assert(s.skip(1).last() == s.last());
        if date_key_of(s.last()) == k {
            assert(paths_with_key(s, k) == paths_with_key(t, k).push(s.last().path@));
            assert(paths_with_key(s.skip(1), k) == paths_with_key(
                s.skip(1).drop_last(),
                k,
            ).push(s.last().path@));
        } else {
            assert(paths_with_key(s, k) == paths_with_key(t, k));
            assert(paths_with_key(s.skip(1), k) == paths_with_key(s.skip(1).drop_last(), k));
        }
        assert(paths_with_key(s, k) =~= paths_with_key(s.skip(1), k));
    }
}

/// Two newest-first lists that agree on every date's run of paths list
/// the same dates and paths in the same order.  Re-running the pipeline
/// over an unchanged batch therefore yields the pages in the same order.
pub proof fn lemma_order_determined(s1: Seq<Post>, s2: Seq<Post>)
    requires
        sorted_desc(s1),
        sorted_desc(s2),
        s1.len() == s2.len(),
        forall|k: int| #[trigger] paths_with_key(s1, k) == paths_with_key(s2, k),
    ensures
        forall|i: int|
            0 <= i < s1.len() ==> (date_key_of(#[trigger] s1[i]) == date_key_of(s2[i])
                && s1[i].path@ == s2[i].path@),
    decreases s1.len(),
{
    if s1.len() > 0 {
        let k1 = date_key_of(s1[0]);
        let k2 = date_key_of(s2[0]);
        lemma_paths_front(s1, k1);
        lemma_paths_front(s2, k2);
        assert(paths_with_key(s2, k1).len() > 0);
        assert(exists|j: int| 0 <= j < s2.len() && date_key_of(#[trigger] s2[j]) == k1) by {
            if forall|j: int| 0 <= j < s2.len() ==> date_key_of(#[trigger] s2[j]) != k1 {
                lemma_paths_key_empty(s2, k1);
            }
        }
        let j1 = choose|j: int| 0 <= j < s2.len() && date_key_of(#[trigger] s2[j]) == k1;
        assert(k1 <= k2);
        assert(paths_with_key(s1, k2).len() > 0);
        assert(exists|j: int| 0 <= j < s1.len() && date_key_of(#[trigger] s1[j]) == k2) by {
            if forall|j: int| 0 <= j < s1.len() ==> date_key_of(#[trigger] s1[j]) != k2 {
                lemma_paths_key_empty(s1, k2);
            }
        }
        let j2 = choose|j: int| 0 <= j < s1.len() && date_key_of(#[trigger] s1[j]) == k2;
        assert(k2 <= k1);
        assert(k1 == k2);
        assert(s1[0].path@ == s2[0].path@) by {
            assert(paths_with_key(s1, k1)[0] == s1[0].path@);
            assert(paths_with_key(s2, k1)[0] == s2[0].path@);
        }
        let t1 = s1.skip(1);
        let t2 = s2.skip(1);
        assert forall|i: int, j: int| 0 <= i < j < t1.len() implies date_key_of(t1[i])
            >= date_key_of(t1[j]) by {
            assert(t1[i] == s1[i + 1] && t1[j] == s1[j + 1]);
        }
        assert forall|i: int, j: int| 0 <= i < j < t2.len() implies date_key_of(t2[i])
            >= date_key_of(t2[j]) by {
            assert(t2[i] == s2[i + 1] && t2[j] == s2[j + 1]);
        }
        assert forall|k: int| #[trigger] paths_with_key(t1, k) == paths_with_key(t2, k) by {
            if k == k1 {
                assert(seq![s1[0].path@] + paths_with_key(t1, k) == seq![s2[0].path@]
                    + paths_with_key(t2, k));
                assert(paths_with_key(t1, k) =~= (seq![s1[0].path@] + paths_with_key(
                    t1,
                    k,
                )).skip(1));
                assert(paths_with_key(t2, k) =~= (seq![s2[0].path@] + paths_with_key(
                    t2,
                    k,
                )).skip(1));
            } else {
                lemma_paths_skip_front(s1, k);
                lemma_paths_skip_front(s2, k);
            }
        }
        lemma_order_determined(t1, t2);
        assert forall|i: int|
            0 <= i < s1.len() implies (date_key_of(#[trigger] s1[i]) == date_key_of(s2[i])
            && s1[i].path@ == s2[i].path@) by {
            if i > 0 {
                assert(t1[i - 1] == s1[i] && t2[i - 1] == s2[i]);
            }
        }
    }
}

/// Whether the post at `i` carries a year label.
pub open spec fn year_marked(s: Seq<Post>, i: int) -> bool {
    s[i].index.year@.len() > 0
}

/// In a newest-first list, dates never grow, so calendar years never
/// grow either.
pub proof fn lemma_years_nonincreasing(ps: Seq<Post>, i: int, j: int)
    requires
        sorted_desc(ps),
        forall|k: int| 0 <= k < ps.len() ==> wf_post(#[trigger] ps[k]),
        0 <= i < j < ps.len(),
    ensures
        year_of(ps[i]) >= year_of(ps[j]),
{
    assert(date_key_of(ps[i]) >= date_key_of(ps[j]));
    assert(wf_post(ps[i]) && wf_post(ps[j]));
}

/// Every post's year is represented by a marked post at or before it.
pub proof fn lemma_year_representative(ps: Seq<Post>, i: int)
    requires
        sorted_desc(ps),
        forall|k: int| 0 <= k < ps.len() ==> wf_post(#[trigger] ps[k]),
        forall|k: int|
            0 <= k < ps.len() ==> (#[trigger] ps[k].index.year@) == (if k == 0 || year_of(
                ps[k - 1],
            ) != year_of(ps[k]) {
                date::year_chars(year_of(ps[k]))
            } else {
                Seq::<char>::empty()
            }),
        0 <= i < ps.len(),
    ensures
        exists|j: int| 0 <= j <= i && #[trigger] year_marked(ps, j) && year_of(ps[j]) == year_of(
            ps[i],
        ),
    decreases i,
{
    lemma_year_chars_nonempty(year_of(ps[i]));
    if i == 0 || year_of(ps[i - 1]) != year_of(ps[i]) {
        assert(year_marked(ps, i));
    } else {
        lemma_year_representative(ps, i - 1);
    }
}

/// A printed year is never the empty label.
proof fn lemma_year_chars_nonempty(y: int)
    ensures
        date::year_chars(y).len() > 0,
{
    if y > 9999 {
        text::lemma_digits_of_len(y);
    }
}

/// In a marked newest-first list, the year labels name each calendar
/// year exactly once: the marked posts carry distinct years, every post's
/// year is carried by some marked post, and a marked label prints its
/// post's year while every other label is empty.
pub proof fn lemma_year_markers(ps: Seq<Post>)
    requires
        sorted_desc(ps),
        forall|k: int| 0 <= k < ps.len() ==> wf_post(#[trigger] ps[k]),
        forall|k: int|
            0 <= k < ps.len() ==> (#[trigger] ps[k].index.year@) == (if k == 0 || year_of(
                ps[k - 1],
            ) != year_of(ps[k]) {
                date::year_chars(year_of(ps[k]))
            } else {
                Seq::<char>::empty()
            }),
    ensures
        forall|i: int, j: int|
            0 <= i < j < ps.len() && #[trigger] year_marked(ps, i) && #[trigger] year_marked(
                ps,
                j,
            ) ==> year_of(ps[i]) != year_of(ps[j]),
        forall|i: int|
            0 <= i < ps.len() && #[trigger] year_marked(ps, i) ==> ps[i].index.year@
                == date::year_chars(year_of(ps[i])),
{
    assert forall|i: int, j: int|
        0 <= i < j < ps.len() && #[trigger] year_marked(ps, i) && #[trigger] year_marked(ps, j)
        implies year_of(ps[i]) != year_of(ps[j]) by {
        assert(year_of(ps[j - 1]) != year_of(ps[j]));
        lemma_years_nonincreasing(ps, j - 1, j);
        if i < j - 1 {
            lemma_years_nonincreasing(ps, i, j - 1);
        }
    }
}

impl Manifest {
    /// Loads every post of the batch, sorts them newest first — posts
    /// sharing a date keep their batch order — and marks the first post
    /// of each calendar year.  Fails fast on the first malformed entry.
    pub fn posts(&self, files: &Vec<(String, String)>) -> (r: Result<Vec<Post>, LoadError>)
        ensures
            r is Ok <==> (forall|i: int|
                0 <= i < files@.len() ==> post::load_ok_of(
                    #[trigger] files@[i].0@,
                    files@[i].1@,
                )),
            r matches Err(e) ==> (exists|i: int|
                0 <= i < files@.len() && !post::load_ok_of(#[trigger] files@[i].0@, files@[i].1@)
                    && e == post::load_err_of(files@[i].0@, files@[i].1@) && (forall|j: int|
                    0 <= j < i ==> post::load_ok_of(#[trigger] files@[j].0@, files@[j].1@))),
            r matches Ok(ps) ==> (ps@.len() == files@.len() && sorted_desc(ps@) && (forall|k: int|
                #[trigger] paths_with_key(ps@, k) == file_paths_with_key(files@, k)) && (forall|i: int|
                0 <= i < ps@.len() ==> wf_post(#[trigger] ps@[i])) && (forall|i: int|
                0 <= i < ps@.len() ==> (#[trigger] ps@[i].index.year@) == (if i == 0 || year_of(
                    ps@[i - 1],
                ) != year_of(ps@[i]) {
                    date::year_chars(year_of(ps@[i]))
                } else {
                    Seq::<char>::empty()
                }))),
    {
        let loaded = match load_posts(files) {
            Ok(ps) => ps,
            Err(e) => {
                return Err(e);
            },
        };
        let sorted = sort_posts(loaded);
        let marked = mark_years(sorted);
        proof {
            assert forall|k: int| #[trigger] paths_with_key(marked@, k) == file_paths_with_key(
                files@,
                k,
            ) by {
                lemma_paths_match_files(files@, loaded@, k);
                lemma_paths_from_runs(loaded@, k);
                lemma_paths_from_runs(sorted@, k);
                assert(with_date_key(sorted@, k) == with_date_key(loaded@, k));
                assert(paths_with_key(sorted@, k) == paths_with_key(loaded@, k));
                lemma_paths_same_but_year(sorted@, marked@, k);
            }
            assert forall|i: int| 0 <= i < marked@.len() implies (#[trigger] marked@[i].index.year@)
                == (if i == 0 || year_of(marked@[i - 1]) != year_of(marked@[i]) {
                date::year_chars(year_of(marked@[i]))
            } else {
                Seq::<char>::empty()
            }) by {
                assert(same_but_year(sorted@[i], marked@[i]));
                if i > 0 {
                    assert(same_but_year(sorted@[i - 1], marked@[i - 1]));
                }
            }
        }
        Ok(marked)
    }
}

} // verus!
