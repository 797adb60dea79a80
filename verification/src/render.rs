//! The build plan: which pages a full render writes, and the data every
//! page template receives.
//!
//! Rendering itself — the templating engine and the file writes — lives
//! outside this crate.  The plan pins the output paths, the template each
//! page uses, and the post each page shows; two plans over the same
//! inputs agree on all of it, which is what makes a re-run of the build
//! reproduce the same output tree.

use vstd::prelude::*;
use crate::manifest::Manifest;
use crate::post::Post;
use crate::utils;
use crate::watch;

verus! {

/// One page of the output tree.
#[derive(Clone, Debug)]
pub struct PageJob {
    /// Where the page is written, under the output directory.
    pub out_path: String,
    /// The template that renders it: `post` or `index`.
    pub template: String,
    /// The post the page shows; `None` for the listing page.
    pub post_index: Option<usize>,
}

/// The fields every page template receives beside its own.
#[derive(Clone, Debug)]
pub struct BaseData {
    /// The site title.
    pub title: String,
    /// The base URL.
    pub base: String,
    /// The site description.
    pub description: String,
    /// The favicon link, `/<favicon file name>`.
    pub favicon_href: String,
    /// The reload endpoint, when a preview session runs.
    pub livereload: Option<String>,
}

/// Whether `r` is the build plan for `m` and `posts`: one page per post,
/// written where its link points under the output directory and showing
/// that post, and the listing page last.
pub open spec fn is_build_plan(m: Manifest, posts: Seq<Post>, r: Seq<PageJob>) -> bool {
    &&& r.len() == posts.len() + 1
    &&& forall|i: int|
        0 <= i < posts.len() ==> ((#[trigger] r[i].out_path@) == utils::joined_of(
            m.out@,
            posts[i].index.link@,
        ) && r[i].template@ == "post"@ && (r[i].post_index matches Some(k) && k == i))
    &&& r.last().out_path@ == utils::joined_of(m.out@, "index.html"@)
    &&& r.last().template@ == "index"@
    &&& r.last().post_index is None
}

/// The pages a full build writes: one per post, then the listing page.
pub fn build_plan(m: &Manifest, posts: &Vec<Post>) -> (r: Vec<PageJob>)
    ensures
        is_build_plan(*m, posts@, r@),
{
    let mut r: Vec<PageJob> = Vec::new();
    let mut i: usize = 0;
    while i < posts.len()
        invariant
            i <= posts@.len(),
            r@.len() == i,
            forall|k: int|
                0 <= k < i ==> ((#[trigger] r@[k].out_path@) == utils::joined_of(
                    m.out@,
                    posts@[k].index.link@,
                ) && r@[k].template@ == "post"@ && (r@[k].post_index matches Some(t) && t == k)),
        decreases posts@.len() - i,
    {
        let out_path = utils::join_path(m.out.as_str(), posts[i].index.link.as_str());
        r.push(PageJob { out_path, template: "post".to_owned(), post_index: Some(i) });
        i = i + 1;
    }
    let out_path = utils::join_path(m.out.as_str(), "index.html");
    r.push(PageJob { out_path, template: "index".to_owned(), post_index: None });
    r
}

/// Two build plans over the same manifest and posts name the same pages:
/// the same paths, templates and posts in the same order.  A re-run of a
/// full build with unchanged sources therefore rewrites the same tree.
pub proof fn lemma_build_plan_deterministic(
    m: Manifest,
    posts: Seq<Post>,
    r1: Seq<PageJob>,
    r2: Seq<PageJob>,
)
    requires
        is_build_plan(m, posts, r1),
        is_build_plan(m, posts, r2),
    ensures
        r1.len() == r2.len(),
        forall|i: int|
            0 <= i < r1.len() ==> ((#[trigger] r1[i].out_path@) == r2[i].out_path@
                && r1[i].template@ == r2[i].template@ && r1[i].post_index == r2[i].post_index),
{
    assert forall|i: int|
        0 <= i < r1.len() implies ((#[trigger] r1[i].out_path@) == r2[i].out_path@
        && r1[i].template@ == r2[i].template@ && r1[i].post_index == r2[i].post_index) by {
        if i < posts.len() {
            assert(r1[i].out_path@ == utils::joined_of(m.out@, posts[i].index.link@));
            assert(r2[i].out_path@ == utils::joined_of(m.out@, posts[i].index.link@));
        } else {
            assert(r1[i] == r1.last() && r2[i] == r2.last());
        }
    }
}

/// The shared template data of a render pass: the site fields of the
/// manifest, the root-relative favicon link, and the reload endpoint
/// exactly when a preview session runs.
pub fn base_data(m: &Manifest, livereload: bool) -> (r: BaseData)
    ensures
        r.title == m.title,
        r.base == m.base,
        r.description == m.description,
        r.favicon_href@ == seq!['/'] + utils::file_name_of(m.favicon@),
        livereload ==> (r.livereload matches Some(e) && e@ == watch::LIVERELOAD_ENDPOINT@),
        !livereload ==> r.livereload is None,
{
    let fav = crate::text::to_chars(m.favicon.as_str());
    let name = utils::file_name(&fav);
    let mut href: Vec<char> = Vec::new();
    href.push('/');
    let mut i: usize = 0;
    while i < name.len()
        invariant
            i <= name@.len(),
            href@ == seq!['/'] + name@.take(i as int),
        decreases name@.len() - i,
    {
        href.push(name[i]);
        i = i + 1;
        proof {
            assert(href@ =~= seq!['/'] + name@.take(i as int));
        }
    }
    proof {
        assert(name@.take(name@.len() as int) =~= name@);
    }
    BaseData {
        title: m.title.clone(),
        base: m.base.clone(),
        description: m.description.clone(),
        favicon_href: crate::text::from_chars(&href),
        livereload: if livereload {
            Some(watch::LIVERELOAD_ENDPOINT.to_owned())
        } else {
            None
        },
    }
}

} // verus!
