//! The change classifier: from a batch of changed paths to the minimal
//! set of re-render actions.
//!
//! Each changed path is classified by the first tracked root that holds
//! it, in a fixed precedence order: posts, theme, public assets, favicon,
//! templates.  Each category runs at most once per batch however many
//! paths matched it; a batch matching no tracked root is a no-op.  Any
//! match re-renders the listing page, and a templates match re-renders
//! every post page.

use vstd::prelude::*;
use crate::manifest::Manifest;
use crate::text;

verus! {

/// Which of the tracked roots exist on disk; a root that does not exist
/// classifies nothing.
#[derive(Clone, Copy, Debug)]
pub struct RootsPresent {
    /// Whether the posts directory exists.
    pub posts: bool,
    /// Whether the theme path exists.
    pub theme: bool,
    /// Whether the public directory exists.
    pub public: bool,
    /// Whether the favicon file exists.
    pub favicon: bool,
    /// Whether the templates directory exists.
    pub templates: bool,
}

/// The category a changed path falls in.
#[derive(Clone, Copy, Debug, PartialEq, Eq, Structural)]
pub enum Category {
    /// Under the posts directory: reload that post, re-render its page.
    PostFile,
    /// Under the theme path: reload and rewrite the whole theme.
    ThemePath,
    /// Under the public directory: re-copy the public tree.
    PublicDir,
    /// The favicon: re-copy it.
    FaviconFile,
    /// Under the templates directory: reload the templates and re-render
    /// every post page.
    TemplatesDir,
}

/// The category of one changed path: the first tracked, existing root
/// that holds it, in precedence order; `None` when no root does.
pub open spec fn category_of(m: Manifest, pr: RootsPresent, p: Seq<char>) -> Option<Category> {
    if pr.posts && text::is_under_of(m.posts@, p) {
        Some(Category::PostFile)
    } else if pr.theme && text::is_under_of(m.theme@, p) {
        Some(Category::ThemePath)
    } else if pr.public && text::is_under_of(m.public@, p) {
        Some(Category::PublicDir)
    } else if pr.favicon && text::is_under_of(m.favicon@, p) {
        Some(Category::FaviconFile)
    } else if pr.templates && text::is_under_of(m.templates@, p) {
        Some(Category::TemplatesDir)
    } else {
        None
    }
}

/// The actions one change batch asks for; each runs at most once.
#[derive(Clone, Debug)]
pub struct RenderPlan {
    /// The changed post paths, first occurrences only, in batch order:
    /// each is reloaded and its page re-rendered.
    pub posts_to_render: Vec<String>,
    /// Reload the theme and rewrite both surfaces.
    pub reload_theme: bool,
    /// Re-copy the public tree.
    pub copy_public: bool,
    /// Re-copy the favicon.
    pub copy_favicon: bool,
    /// Reload all templates and re-render every post page.
    pub reload_templates: bool,
    /// Re-render the listing page; set exactly when any category matched.
    pub render_index: bool,
}

/// The category of one changed path.
pub fn categorize(m: &Manifest, pr: &RootsPresent, p: &String) -> (r: Option<Category>)
    ensures
        r == category_of(*m, *pr, p@),
{
    let pc = text::to_chars(p.as_str());
    if pr.posts && is_under_str(&m.posts, &pc) {
        Some(Category::PostFile)
    } else if pr.theme && is_under_str(&m.theme, &pc) {
        Some(Category::ThemePath)
    } else if pr.public && is_under_str(&m.public, &pc) {
        Some(Category::PublicDir)
    } else if pr.favicon && is_under_str(&m.favicon, &pc) {
        Some(Category::FaviconFile)
    } else if pr.templates && is_under_str(&m.templates, &pc) {
        Some(Category::TemplatesDir)
    } else {
        None
    }
}

/// Whether the path lies at or under the root.
fn is_under_str(root: &String, path: &Vec<char>) -> (r: bool)
    ensures
        r == text::is_under_of(root@, path@),
{
    let rc = text::to_chars(root.as_str());
    text::is_under(&rc, path)
}

/// Classifies a batch of changed paths into its render plan: each
/// category at most once, the listing page re-rendered exactly when some
/// path matched some category, and a batch matching nothing a no-op.
#[verifier::rlimit(100)]
pub fn classify(m: &Manifest, pr: &RootsPresent, paths: &Vec<String>) -> (r: RenderPlan)
    ensures
        r.reload_theme <==> (exists|i: int|
            0 <= i < paths@.len() && category_of(*m, *pr, #[trigger] paths@[i]@) == Some(
                Category::ThemePath,
            )),
        r.copy_public <==> (exists|i: int|
            0 <= i < paths@.len() && category_of(*m, *pr, #[trigger] paths@[i]@) == Some(
                Category::PublicDir,
            )),
        r.copy_favicon <==> (exists|i: int|
            0 <= i < paths@.len() && category_of(*m, *pr, #[trigger] paths@[i]@) == Some(
                Category::FaviconFile,
            )),
        r.reload_templates <==> (exists|i: int|
            0 <= i < paths@.len() && category_of(*m, *pr, #[trigger] paths@[i]@) == Some(
                Category::TemplatesDir,
            )),
        r.render_index <==> (exists|i: int|
            0 <= i < paths@.len() && category_of(*m, *pr, #[trigger] paths@[i]@) is Some),
        forall|k: int|
            0 <= k < r.posts_to_render@.len() ==> (exists|i: int|
                0 <= i < paths@.len() && #[trigger] r.posts_to_render@[k]@ == paths@[i]@
                    && category_of(*m, *pr, paths@[i]@) == Some(Category::PostFile)),
        forall|i: int|
            0 <= i < paths@.len() && category_of(*m, *pr, #[trigger] paths@[i]@) == Some(
                Category::PostFile,
            ) ==> (exists|k: int|
                0 <= k < r.posts_to_render@.len() && #[trigger] r.posts_to_render@[k]@
                    == paths@[i]@),
        forall|k1: int, k2: int|
            0 <= k1 < k2 < r.posts_to_render@.len() ==> #[trigger] r.posts_to_render@[k1]@
                != #[trigger] r.posts_to_render@[k2]@,
        (forall|i: int|
            0 <= i < paths@.len() ==> category_of(*m, *pr, #[trigger] paths@[i]@) is None) ==> (
        !r.render_index && !r.reload_theme && !r.copy_public && !r.copy_favicon
            && !r.reload_templates && r.posts_to_render@.len() == 0),
        (exists|i: int|
            0 <= i < paths@.len() && category_of(*m, *pr, #[trigger] paths@[i]@) == Some(
                Category::TemplatesDir,
            )) ==> (r.reload_templates && r.render_index),
{
    let mut plan = RenderPlan {
        posts_to_render: Vec::new(),
        reload_theme: false,
        copy_public: false,
        copy_favicon: false,
        reload_templates: false,
        render_index: false,
    };
    let mut i: usize = 0;
    while i < paths.len()
        invariant
            i <= paths@.len(),
            plan.reload_theme <==> (exists|j: int|
                0 <= j < i && category_of(*m, *pr, #[trigger] paths@[j]@) == Some(
                    Category::ThemePath,
                )),
            plan.copy_public <==> (exists|j: int|
                0 <= j < i && category_of(*m, *pr, #[trigger] paths@[j]@) == Some(
                    Category::PublicDir,
                )),
            plan.copy_favicon <==> (exists|j: int|
                0 <= j < i && category_of(*m, *pr, #[trigger] paths@[j]@) == Some(
                    Category::FaviconFile,
                )),
            plan.reload_templates <==> (exists|j: int|
                0 <= j < i && category_of(*m, *pr, #[trigger] paths@[j]@) == Some(
                    Category::TemplatesDir,
                )),
            plan.render_index <==> (exists|j: int|
                0 <= j < i && category_of(*m, *pr, #[trigger] paths@[j]@) is Some),
            forall|k: int|
                0 <= k < plan.posts_to_render@.len() ==> (exists|j: int|
                    0 <= j < i && #[trigger] plan.posts_to_render@[k]@ == paths@[j]@
                        && category_of(*m, *pr, paths@[j]@) == Some(Category::PostFile)),
            forall|j: int|
                0 <= j < i && category_of(*m, *pr, #[trigger] paths@[j]@) == Some(
                    Category::PostFile,
                ) ==> (exists|k: int|
                    0 <= k < plan.posts_to_render@.len() && #[trigger] plan.posts_to_render@[k]@
                        == paths@[j]@),
            forall|k1: int, k2: int|
                0 <= k1 < k2 < plan.posts_to_render@.len() ==> #[trigger] plan.posts_to_render@[k1]@
                    != #[trigger] plan.posts_to_render@[k2]@,
        decreases paths@.len() - i,
    {
        let p = &paths[i];
        match categorize(m, pr, p) {
            Some(Category::PostFile) => {
                let mut seen = false;
                let mut k: usize = 0;
                while k < plan.posts_to_render.len()
                    invariant
                        k <= plan.posts_to_render@.len(),
                        seen <==> (exists|t: int|
                            0 <= t < k && #[trigger] plan.posts_to_render@[t]@ == p@),
                    decreases plan.posts_to_render@.len() - k,
                {
                    if text::str_eq(plan.posts_to_render[k].as_str(), p.as_str()) {
                        seen = true;
                    }
                    k = k + 1;
                }
                let ghost pre = plan.posts_to_render@;
                if !seen {
                    plan.posts_to_render.push(p.clone());
                }
                plan.render_index = true;
                proof {
                    assert(paths@[i as int]@ == p@);
                    assert forall|j: int|
                        0 <= j < i + 1 && category_of(*m, *pr, #[trigger] paths@[j]@) == Some(
                            Category::PostFile,
                        ) implies (exists|k: int|
                        0 <= k < plan.posts_to_render@.len() && #[trigger] plan.posts_to_render@[k]@
                            == paths@[j]@) by {
                        if j < i {
                            let k0 = choose|k: int|
                                0 <= k < pre.len() && #[trigger] pre[k]@ == paths@[j]@;
                            assert(plan.posts_to_render@[k0]@ == paths@[j]@);
                        } else {
                            if seen {
                                let t0 = choose|t: int| 0 <= t < pre.len() && #[trigger] pre[t]@ == p@;
                                assert(plan.posts_to_render@[t0]@ == p@);
                            } else {
                                assert(plan.posts_to_render@[plan.posts_to_render@.len() - 1]@
                                    == p@);
                            }
                        }
                    }
                }
            },
            Some(Category::ThemePath) => {
                plan.reload_theme = true;
                plan.render_index = true;
            },
            Some(Category::PublicDir) => {
                plan.copy_public = true;
                plan.render_index = true;
            },
            Some(Category::FaviconFile) => {
                plan.copy_favicon = true;
                plan.render_index = true;
            },
            Some(Category::TemplatesDir) => {
                plan.reload_templates = true;
                plan.render_index = true;
            },
            None => {},
        }
        i = i + 1;
    }
    proof {
        if (forall|j: int| 0 <= j < paths@.len() ==> category_of(*m, *pr, #[trigger] paths@[j]@) is None) {
            if plan.posts_to_render@.len() > 0 {
                let ghost first = plan.posts_to_render@[0]@;
                let j0 = choose|j: int|
                    0 <= j < i && plan.posts_to_render@[0]@ == #[trigger] paths@[j]@
                        && category_of(*m, *pr, paths@[j]@) == Some(Category::PostFile);
                assert(category_of(*m, *pr, paths@[j0]@) is None);
                assert(false);
            }
        }
    }
    plan
}

} // verus!
