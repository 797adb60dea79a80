//! The theme: composed stylesheet text for the two output surfaces.
//!
//! A theme source is a single stylesheet file, a directory of them, or
//! nothing.  Composition never fails: absent optional files degrade to the
//! empty string, an absent base degrades to the built-in default.

use vstd::prelude::*;

verus! {

/// The built-in fallback stylesheet, used when the project has no theme.
pub const DEFAULT_THEME: &'static str = r#"body { margin: 0 auto; max-width: 42rem; padding: 1rem; font-family: serif; line-height: 1.6; }
h1 { font-size: 1.6rem; }
a { color: #226; text-decoration: none; }
a:hover { text-decoration: underline; }
ul { list-style: none; padding: 0; }
li.post { display: flex; gap: 0.75rem; }
span.year { min-width: 3rem; font-weight: bold; }
span.date { min-width: 4.5rem; color: #666; }
article pre { overflow-x: auto; background: #f6f6f6; padding: 0.75rem; }
p.meta { color: #666; }
"#;

/// The built-in fallback stylesheet for highlighted code blocks.
pub const HIGHLIGHT_CSS: &'static str = r#".hljs { display: block; overflow-x: auto; padding: 0.5em; background: #f6f6f6; color: #333; }
.hljs-comment { color: #888; font-style: italic; }
.hljs-keyword { color: #226; font-weight: bold; }
.hljs-string { color: #262; }
.hljs-number { color: #622; }
"#;

/// The built-in fallback script for highlighting code blocks.
pub const HIGHLIGHT_JS: &'static str = r#"document.addEventListener("DOMContentLoaded", function () {
  if (window.hljs) { document.querySelectorAll("pre code").forEach(function (el) { window.hljs.highlightElement(el); }); }
});
"#;

/// What stands at the configured theme path: nothing, one stylesheet
/// file, or a directory with up to three recognized members.
pub enum ThemeSource {
    /// No theme is present; the built-in default applies to both surfaces.
    Absent,
    /// The theme is a single stylesheet; both surfaces use it identically.
    File(String),
    /// The theme is a directory; `theme.css` (or the default) is the base,
    /// `index.css` and `post.css` extend their surface when present.
    Dir {
        /// The text of `theme.css`, when present.
        theme: Option<String>,
        /// The text of `index.css`, when present.
        index: Option<String>,
        /// The text of `post.css`, when present.
        post: Option<String>,
    },
}

/// The composed stylesheet of the listing surface.
pub open spec fn theme_index_of(src: ThemeSource) -> Seq<char> {
    match src {
        ThemeSource::Absent => DEFAULT_THEME@,
        ThemeSource::File(t) => t@,
        ThemeSource::Dir { theme, index, post } => {
            let base = if theme is Some {
                theme->0@
            } else {
                DEFAULT_THEME@
            };
            base + (if index is Some {
                index->0@
            } else {
                Seq::empty()
            })
        },
    }
}

/// The composed stylesheet of the article surface.
pub open spec fn theme_post_of(src: ThemeSource) -> Seq<char> {
    match src {
        ThemeSource::Absent => DEFAULT_THEME@,
        ThemeSource::File(t) => t@,
        ThemeSource::Dir { theme, index, post } => {
            let base = if theme is Some {
                theme->0@
            } else {
                DEFAULT_THEME@
            };
            base + (if post is Some {
                post->0@
            } else {
                Seq::empty()
            })
        },
    }
}

/// The theme: one composed stylesheet per output surface.
#[derive(Clone, Debug)]
pub struct Theme {
    /// Styles for the listing page.
    pub index: String,
    /// Styles for the article pages.
    pub post: String,
}

impl Default for Theme {
    /// Both surfaces styled by the built-in default stylesheet.
    fn default() -> (r: Theme)
        ensures
            r.index@ == DEFAULT_THEME@,
            r.post@ == DEFAULT_THEME@,
    {
        Theme { index: DEFAULT_THEME.to_owned(), post: DEFAULT_THEME.to_owned() }
    }
}

impl Theme {
    /// Composes the theme from what stands at the theme path.  Composition
    /// never fails: absent optional files contribute nothing, an absent
    /// base falls back to the built-in default.
    pub fn load(src: &ThemeSource) -> (r: Theme)
        ensures
            r.index@ == theme_index_of(*src),
            r.post@ == theme_post_of(*src),
    {
        match src {
            ThemeSource::Absent => Theme {
                index: DEFAULT_THEME.to_owned(),
                post: DEFAULT_THEME.to_owned(),
            },
            ThemeSource::File(t) => Theme { index: t.clone(), post: t.clone() },
            ThemeSource::Dir { theme, index, post } => {
                let base: String = match theme {
                    Some(t) => t.clone(),
                    None => DEFAULT_THEME.to_owned(),
                };
                let i = match index {
                    Some(x) => base.clone().concat(x.as_str()),
                    None => {
                        let b = base.clone();
                        proof {
                            assert(b@ + Seq::<char>::empty() =~= b@);
                        }
                        b
                    },
                };
                let p = match post {
                    Some(x) => base.concat(x.as_str()),
                    None => {
                        proof {
                            assert(base@ + Seq::<char>::empty() =~= base@);
                        }
                        base
                    },
                };
                Theme { index: i, post: p }
            },
        }
    }

    /// The files a theme writes into the output directory: the two
    /// composed surfaces and the highlighter assets, overrides from the
    /// theme directory taking precedence over the built-in defaults.
    pub fn write(&self, hl_css: Option<String>, hl_js: Option<String>) -> (r: Vec<(String, String)>)
        ensures
            r@.len() == 4,
            r@[0].0@ == "index.css"@ && r@[0].1 == self.index,
            r@[1].0@ == "post.css"@ && r@[1].1 == self.post,
            r@[2].0@ == "highlight.css"@ && r@[2].1@ == (if hl_css is Some {
                hl_css->0@
            } else {
                HIGHLIGHT_CSS@
            }),
            r@[3].0@ == "highlight.js"@ && r@[3].1@ == (if hl_js is Some {
                hl_js->0@
            } else {
                HIGHLIGHT_JS@
            }),
    {
        let mut r: Vec<(String, String)> = Vec::new();
        r.push(("index.css".to_owned(), self.index.clone()));
        r.push(("post.css".to_owned(), self.post.clone()));
        let css = match hl_css {
            Some(c) => c,
            None => HIGHLIGHT_CSS.to_owned(),
        };
        r.push(("highlight.css".to_owned(), css));
        let js = match hl_js {
            Some(j) => j,
            None => HIGHLIGHT_JS.to_owned(),
        };
        r.push(("highlight.js".to_owned(), js));
        r
    }
}

/// Theme composition is associative in its fallback order: a directory
/// theme holding only `theme.css` composes to the same stylesheets, on
/// both surfaces, as a single-file theme with the same content.
pub proof fn lemma_theme_dir_matches_file(t: String)
    ensures
        theme_index_of(ThemeSource::Dir { theme: Some(t), index: None, post: None })
            == theme_index_of(ThemeSource::File(t)),
        theme_post_of(ThemeSource::Dir { theme: Some(t), index: None, post: None })
            == theme_post_of(ThemeSource::File(t)),
{
    assert(t@ + Seq::<char>::empty() =~= t@);
}

} // verus!
