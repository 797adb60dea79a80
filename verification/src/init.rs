//! The boilerplate of a fresh project.
//!
//! Initializing a site creates the posts directory, the minimal
//! configuration file and a dated starter post.  What to create is
//! decided here; writing it to disk happens outside this crate.

use vstd::prelude::*;
use crate::date::{self, Date};
use crate::manifest;
use crate::post;
use crate::text;
use crate::utils;

verus! {

/// The init command: the site title and the directory to fill.
#[derive(Clone, Debug)]
pub struct Init {
    title: String,
    dir: String,
}

/// The directories and files a fresh project is made of.
pub struct InitPlan {
    /// The directories to create, parents first.
    pub dirs: Vec<String>,
    /// The files to write: path and contents.
    pub files: Vec<(String, String)>,
}

/// The file name of the starter post on a given day:
/// `YYYY-MM-DD-hello-world.md`.
pub open spec fn starter_name_of(today: Date) -> Seq<char> {
    date::year_chars(today.year as int) + seq!['-'] + text::pad2_of(today.month as int)
        + seq!['-'] + text::pad2_of(today.day as int) + "-hello-world.md"@
}

impl Init {
    /// An init command for the given title and directory.
    pub fn new(title: String, dir: String) -> (r: Init)
        ensures
            r.spec_title() == title,
            r.spec_dir() == dir,
    {
        Init { title, dir }
    }

    /// The site title.
    pub closed spec fn spec_title(&self) -> String {
        self.title
    }

    /// The target directory.
    pub closed spec fn spec_dir(&self) -> String {
        self.dir
    }

    /// What to create: the project directory and its posts directory, the
    /// minimal configuration, and a starter post dated `today`.
    pub fn plan(&self, today: &Date) -> (r: InitPlan)
        requires
            today.valid(),
        ensures
            r.dirs@.len() == 2,
            r.dirs@[0] == self.spec_dir(),
            r.dirs@[1]@ == utils::joined_of(self.spec_dir()@, "posts"@),
            r.files@.len() == 2,
            r.files@[0].0@ == utils::joined_of(self.spec_dir()@, "cydonia.toml"@),
            r.files@[0].1@ == text::trim_of(manifest::MINIMAL_MANIFEST@),
            r.files@[1].0@ == utils::joined_of(
                utils::joined_of(self.spec_dir()@, "posts"@),
                starter_name_of(*today),
            ),
            r.files@[1].1@ == text::trim_of(post::TEMPLATE_POST@),
    {
        let mut dirs: Vec<String> = Vec::new();
        dirs.push(self.dir.clone());
        let posts_dir = utils::join_path(self.dir.as_str(), "posts");
        dirs.push(posts_dir.clone());

        let mut files: Vec<(String, String)> = Vec::new();
        let toml_path = utils::join_path(self.dir.as_str(), "cydonia.toml");
        let toml_chars = text::to_chars(manifest::MINIMAL_MANIFEST);
        let toml_text = text::from_chars(&text::trim(&toml_chars));
        files.push((toml_path, toml_text));

        let mut v: Vec<char> = Vec::new();
        date::push_year(&mut v, today.year);
        v.push('-');
        text::push_pad2(&mut v, today.month);
        v.push('-');
        text::push_pad2(&mut v, today.day);
        let suffix = text::to_chars("-hello-world.md");
        let mut k: usize = 0;
        let ghost head = v@;
        while k < suffix.len()
            invariant
                k <= suffix@.len(),
                suffix@ == "-hello-world.md"@,
                v@ == head + suffix@.take(k as int),
            decreases suffix@.len() - k,
        {
            v.push(suffix[k]);
            k = k + 1;
            proof {
                assert(v@ =~= head + suffix@.take(k as int));
            }
        }
        proof {
            assert(suffix@.take(suffix@.len() as int) =~= suffix@);
            assert(v@ =~= starter_name_of(*today));
        }
        let post_name = text::from_chars(&v);
        let post_path = utils::join_path(posts_dir.as_str(), post_name.as_str());
        let tpl_chars = text::to_chars(post::TEMPLATE_POST);
        let post_text = text::from_chars(&text::trim(&tpl_chars));
        files.push((post_path, post_text));

        InitPlan { dirs, files }
    }
}

} // verus!
