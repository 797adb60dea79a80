//! Core of a static-site generator.
//!
//! A site is a directory of date-stamped markdown posts
//! (`posts/YYYY-MM-DD-title.md`), an optional theme (a single stylesheet or a
//! directory of them), a set of page templates and public assets, all
//! described by a small manifest.  This crate holds the verified logic of the
//! generator: the post and theme data model, filename and front-matter
//! parsing, the composition rules for stylesheets, the planning of a full
//! build, the classification of filesystem change batches into minimal
//! re-render actions, and the decision rules of the watch/notify loop.
//!
//! All file, network and template I/O lives outside this crate; every
//! function here computes over plain values and is specified by its
//! contract.

use vstd::prelude::*;

pub mod classify;
pub mod date;
pub mod init;
pub mod manifest;
pub mod post;
pub mod render;
pub mod text;
pub mod theme;
pub mod utils;
pub mod watch;

verus! {

/// The built-in page templates, keyed by file name.
///
/// A project may override them with a `templates` directory; when it has
/// none, these two are registered instead.
pub struct Templates;

/// Text of the built-in listing-page template.
pub const TEMPLATE_INDEX_HBS: &'static str = r#"<!DOCTYPE html>
<html>
<head>
<meta charset="utf-8">
<title>{{tab}}</title>
<link rel="icon" href="{{favicon}}">
<link rel="stylesheet" href="{{base}}index.css">
<link rel="stylesheet" href="{{base}}highlight.css">
</head>
<body>
<h1>{{title}}</h1>
<ul>
{{#each posts}}<li class="post"><span class="year">{{this.year}}</span><span class="date">{{this.index}}</span> <a href="{{../base}}{{this.link}}">{{this.title}}</a></li>
{{/each}}</ul>
{{#if livereload}}<script>new WebSocket("ws://" + location.host + "/{{livereload}}").onmessage = function () { location.reload(); };</script>{{/if}}
</body>
</html>
"#;

/// Text of the built-in article-page template.
pub const TEMPLATE_POST_HBS: &'static str = r#"<!DOCTYPE html>
<html>
<head>
<meta charset="utf-8">
<title>{{tab}}</title>
<meta name="description" content="{{description}}">
<link rel="icon" href="{{favicon}}">
<link rel="stylesheet" href="{{base}}post.css">
<link rel="stylesheet" href="{{base}}highlight.css">
<script src="{{base}}highlight.js"></script>
</head>
<body>
<h1>{{post.title}}</h1>
<p class="meta">{{post.formatted_date}} {{post.author}}</p>
<article>{{{post.content}}}</article>
{{#if livereload}}<script>new WebSocket("ws://" + location.host + "/{{livereload}}").onmessage = function () { location.reload(); };</script>{{/if}}
</body>
</html>
"#;

impl Templates {
    /// Look a built-in template up by its file name.
    pub fn get(name: &str) -> (r: Option<&'static str>)
        ensures
            r is Some <==> (name@ == "index.hbs"@ || name@ == "post.hbs"@),
            name@ == "index.hbs"@ ==> (r matches Some(t) && t@ == TEMPLATE_INDEX_HBS@),
            name@ == "post.hbs"@ ==> (r matches Some(t) && t@ == TEMPLATE_POST_HBS@),
    {
        proof {
            reveal_strlit("index.hbs");
            reveal_strlit("post.hbs");
            assert("index.hbs"@.len() != "post.hbs"@.len());
        }
        if text::str_eq(name, "index.hbs") {
            Some(TEMPLATE_INDEX_HBS)
        } else if text::str_eq(name, "post.hbs") {
            Some(TEMPLATE_POST_HBS)
        } else {
            None
        }
    }
}

} // verus!
