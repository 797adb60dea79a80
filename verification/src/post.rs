//! Posts: one markdown article with front matter.
//!
//! A post file is a preamble, a front-matter block and a markdown body,
//! the blocks separated by the first two occurrences of the `---` marker.
//! The front matter is a line-oriented key/value block with the recognized
//! keys `author`, `date`, `description`, `labels` and `title`; unknown keys
//! are ignored.  A missing date or title is derived from the file name,
//! which must match `YYYY-MM-DD-title.ext`.

use vstd::prelude::*;
use crate::date::{self, Date};
use crate::text;
use crate::utils;

verus! {

/// The starter post that a fresh project is seeded with.
pub const TEMPLATE_POST: &'static str = r#"
---
author: ""
date: "2024-01-01"
description: "This is my first post with sonata !"
labels: ["sonata", "rust"]
title: "Hello World!"
---
This is my first post with sonata !
"#;

/// Why a post failed to load.
#[derive(Clone, Copy, Debug, PartialEq, Eq, Structural)]
pub enum LoadError {
    /// The file is not preamble, front matter and body around two `---`
    /// markers, or a front-matter line is not `key: value`.
    MalformedPost,
    /// The file name does not match `YYYY-MM-DD-title.ext`.
    BadFilename,
    /// The date text names no real calendar day.
    InvalidDate,
}

impl LoadError {
    /// A human-readable description of the failure; the malformed-post
    /// message names the expected template format.
    pub fn message(&self) -> (r: String)
        ensures
            self is MalformedPost ==> r@
                == "malformed post: expected front matter as ---, metadata, ---, body"@,
            self is BadFilename ==> r@ == "invalid post file name, should be yyyy-mm-dd-title.md"@,
            self is InvalidDate ==> r@ == "invalid date of post"@,
    {
        match self {
            LoadError::MalformedPost => "malformed post: expected front matter as ---, metadata, ---, body".to_owned(),
            LoadError::BadFilename => "invalid post file name, should be yyyy-mm-dd-title.md".to_owned(),
            LoadError::InvalidDate => "invalid date of post".to_owned(),
        }
    }
}

/// The mathematical image of a post's metadata.
pub struct MetaModel {
    /// The author's name.
    pub author: Seq<char>,
    /// The explicit date, when the front matter gave one.
    pub date: Option<Date>,
    /// The description.
    pub description: Seq<char>,
    /// The labels, in front-matter order.
    pub labels: Seq<Seq<char>>,
    /// The explicit title; empty when the front matter gave none.
    pub title: Seq<char>,
}

/// Metadata with nothing set.
pub open spec fn empty_meta() -> MetaModel {
    MetaModel {
        author: Seq::empty(),
        date: None,
        description: Seq::empty(),
        labels: Seq::empty(),
        title: Seq::empty(),
    }
}

/// The labels named by the items of a bracketed list: each item trimmed
/// and unquoted, empties dropped.
pub open spec fn labels_items_of(parts: Seq<Seq<char>>) -> Seq<Seq<char>>
    decreases parts.len(),
{
    if parts.len() == 0 {
        Seq::empty()
    } else {
        let rest = labels_items_of(parts.skip(1));
        let t = text::unquote_of(text::trim_of(parts[0]));
        if t.len() == 0 {
            rest
        } else {
            seq![t] + rest
        }
    }
}

/// The labels written by a `[..]` list value, when it is one.
pub open spec fn labels_of(v: Seq<char>) -> Option<Seq<Seq<char>>> {
    if v.len() >= 2 && v[0] == '[' && v.last() == ']' {
        Some(labels_items_of(text::split_of(v.subrange(1, v.len() - 1), ',')))
    } else {
        None
    }
}

/// One front-matter pair applied to the metadata: recognized keys set
/// their field, unknown keys change nothing, a bad date or label list is
/// an error.
pub open spec fn apply_kv_of(m: MetaModel, k: Seq<char>, v: Seq<char>) -> Result<
    MetaModel,
    LoadError,
> {
    if k == "author"@ {
        Ok(MetaModel { author: text::unquote_of(v), ..m })
    } else if k == "description"@ {
        Ok(MetaModel { description: text::unquote_of(v), ..m })
    } else if k == "title"@ {
        Ok(MetaModel { title: text::unquote_of(v), ..m })
    } else if k == "date"@ {
        match date::date_of_chars(text::unquote_of(v)) {
            Some(d) => Ok(MetaModel { date: Some(d), ..m }),
            None => Err(LoadError::InvalidDate),
        }
    } else if k == "labels"@ {
        match labels_of(v) {
            Some(ls) => Ok(MetaModel { labels: ls, ..m }),
            None => Err(LoadError::MalformedPost),
        }
    } else {
        Ok(m)
    }
}

/// One front-matter line applied to the metadata: blank lines change
/// nothing, any other line must be `key: value`.
pub open spec fn apply_line_of(m: MetaModel, l: Seq<char>) -> Result<MetaModel, LoadError> {
    let t = text::trim_of(l);
    if t.len() == 0 {
        Ok(m)
    } else {
        let i = text::find_of(t, ':');
        if i >= t.len() {
            Err(LoadError::MalformedPost)
        } else {
            apply_kv_of(
                m,
                text::trim_of(t.take(i as int)),
                text::trim_of(t.skip(i + 1 as int)),
            )
        }
    }
}

/// The lines applied to the metadata in order, stopping at the first
/// error.
pub open spec fn fold_lines_of(m: MetaModel, lines: Seq<Seq<char>>) -> Result<
    MetaModel,
    LoadError,
>
    decreases lines.len(),
{
    if lines.len() == 0 {
        Ok(m)
    } else {
        match apply_line_of(m, lines[0]) {
            Ok(m2) => fold_lines_of(m2, lines.skip(1)),
            Err(e) => Err(e),
        }
    }
}

/// The metadata written by a front-matter block.
pub open spec fn meta_of_chars(s: Seq<char>) -> Result<MetaModel, LoadError> {
    fold_lines_of(empty_meta(), text::split_of(s, '\n'))
}

/// The block marker that separates preamble, front matter and body.
pub open spec fn marker() -> Seq<char> {
    seq!['-', '-', '-']
}

/// The front matter and body of a post file: the text between the first
/// two `---` markers, and the text after the second.
pub open spec fn post_parse_of(s: Seq<char>) -> Result<(MetaModel, Seq<char>), LoadError> {
    match text::split3_of(s, marker()) {
        None => Err(LoadError::MalformedPost),
        Some(t) => match meta_of_chars(t.1) {
            Ok(m) => Ok((m, t.2)),
            Err(e) => Err(e),
        },
    }
}

/// The metadata of one post.
#[derive(Clone, Debug)]
pub struct Meta {
    /// The author of the post.
    pub author: String,
    /// The date of the post, when the front matter gave one.
    pub date: Option<Date>,
    /// The resolved date, printed as `Mon. DD, YYYY`.
    pub formatted_date: String,
    /// The description of the post.
    pub description: String,
    /// The labels of the post.
    pub labels: Vec<String>,
    /// The title of the post; empty until one is given or derived.
    pub title: String,
}

impl Meta {
    /// The mathematical image of this metadata.
    pub open spec fn model(&self) -> MetaModel {
        MetaModel {
            author: self.author@,
            date: self.date,
            description: self.description@,
            labels: self.labels.deep_view(),
            title: self.title@,
        }
    }

    /// Metadata with nothing set.
    pub fn new() -> (r: Meta)
        ensures
            r.model() == empty_meta(),
            r.formatted_date@ == Seq::<char>::empty(),
    {
        let r = Meta {
            author: String::new(),
            date: None,
            formatted_date: String::new(),
            description: String::new(),
            labels: Vec::new(),
            title: String::new(),
        };
        proof {
            assert(r.labels.deep_view() =~= Seq::<Seq<char>>::empty());
            assert(r.model() =~~= empty_meta());
        }
        r
    }
}

/// The derived listing fields of one post.
#[derive(Clone, Debug)]
pub struct Index {
    /// The year label, set only on the first post of its year in the
    /// newest-first order.
    pub year: String,
    /// The short date label, `Mon. DD`.
    pub index: String,
    /// The page of the post under the output tree, `posts/<name>.html`.
    pub link: String,
}

/// The output page path of a post named `name`: `posts/<name>.html`.
pub open spec fn link_of(name: Seq<char>) -> Seq<char> {
    seq!['p', 'o', 's', 't', 's', '/'] + name + seq!['.', 'h', 't', 'm', 'l']
}

/// The first three `-`-separated segments of `s`, and the remainder as a
/// fourth; fewer when `s` has fewer segments.
pub open spec fn splitn4_of(s: Seq<char>) -> Seq<Seq<char>> {
    let parts = text::split_of(s, '-');
    if parts.len() <= 4 {
        parts
    } else {
        parts.take(3).push(text::join_of(parts.skip(3), '-'))
    }
}

/// The date a post named `name` resolves to: the explicit front-matter
/// date when there is one, else the date named by the first three
/// file-name segments.
pub open spec fn resolved_date_of(m: MetaModel, name: Seq<char>) -> Result<Date, LoadError> {
    let parts = splitn4_of(name);
    if parts.len() != 4 {
        Err(LoadError::BadFilename)
    } else if m.date is Some {
        Ok(m.date->0)
    } else if !(text::is_digits(parts[0]) && text::is_digits(parts[1]) && text::is_digits(
        parts[2],
    )) {
        Err(LoadError::BadFilename)
    } else if text::digits_val(parts[0]) > i32::MAX || text::digits_val(parts[1]) > u32::MAX
        || text::digits_val(parts[2]) > u32::MAX {
        Err(LoadError::BadFilename)
    } else {
        let d = Date {
            year: text::digits_val(parts[0]) as i32,
            month: text::digits_val(parts[1]) as u32,
            day: text::digits_val(parts[2]) as u32,
        };
        if d.valid() {
            Ok(d)
        } else {
            Err(LoadError::InvalidDate)
        }
    }
}

/// The title a post named `name` resolves to: the explicit front-matter
/// title when there is one, else the capitalized words of the fourth
/// file-name segment.
pub open spec fn resolved_title_of(m: MetaModel, name: Seq<char>) -> Seq<char> {
    if m.title.len() > 0 {
        m.title
    } else {
        text::title_of(splitn4_of(name)[3])
    }
}

/// One article: its body rendered to HTML, its metadata, its derived
/// listing fields, and the path it was loaded from.
#[derive(Clone, Debug)]
pub struct Post {
    /// The body of the post, rendered to HTML.
    pub content: String,
    /// The derived listing fields.
    pub index: Index,
    /// The metadata of the post.
    pub meta: Meta,
    /// The path the post was loaded from.
    pub path: String,
}

/// The first three `-`-separated segments of `s`, and the remainder as a
/// fourth.
pub fn splitn4(s: &Vec<char>) -> (r: Vec<Vec<char>>)
    ensures
        r.deep_view() == splitn4_of(s@),
{
    let mut parts = text::split_all(s, '-');
    let ghost dv = parts.deep_view();
    proof {
        text::lemma_deep_view_is(&parts);
    }
    if parts.len() <= 4 {
        return parts;
    }
    let tail = parts.split_off(3);
    proof {
        text::lemma_deep_view_is(&parts);
        text::lemma_deep_view_is(&tail);
        assert(parts.deep_view() =~= dv.take(3));
        assert(tail.deep_view() =~= dv.skip(3));
    }
    let joined = text::join_all(&tail, '-');
    let ghost dv3 = parts.deep_view();
    parts.push(joined);
    proof {
        text::lemma_deep_view_is(&parts);
        assert forall|k: int| 0 <= k < 3 implies parts.deep_view()[k] == dv3[k] by {
            assert(parts@[k] == parts@.subrange(0, 3)[k]);
        }
        assert(parts.deep_view() =~= splitn4_of(s@));
    }
    parts
}

/// The label list written by a `[..]` value.
fn parse_labels(v: &Vec<char>) -> (r: Option<Vec<String>>)
    ensures
        r is Some <==> labels_of(v@) is Some,
        r matches Some(ls) ==> (labels_of(v@) matches Some(m) && ls.deep_view() == m),
{
    if !(v.len() >= 2) {
        return None;
    }
    if v[0] != '[' || v[v.len() - 1] != ']' {
        return None;
    }
    let inner = text::subvec(v, 1, v.len() - 1);
    let parts = text::split_all(&inner, ',');
    let ghost pdv = parts.deep_view();
    let mut ls: Vec<String> = Vec::new();
    let mut i: usize = 0;
    proof {
        text::lemma_deep_view_strs(&ls);
        assert(ls.deep_view() =~= Seq::<Seq<char>>::empty());
        assert(pdv.skip(0) =~= pdv);
    }
    while i < parts.len()
        invariant
            i <= parts@.len(),
            pdv == parts.deep_view(),
            pdv.len() == parts@.len(),
            labels_items_of(pdv) == ls.deep_view() + labels_items_of(pdv.skip(i as int)),
        decreases parts@.len() - i,
    {
        proof {
            text::lemma_deep_view_is(&parts);
            assert(pdv.skip(i as int)[0] == pdv[i as int]);
            assert(pdv.skip(i as int).skip(1) =~= pdv.skip(i + 1));
        }
        let t = text::trim(&parts[i]);
        let u = text::unquote(&t);
        if u.len() > 0 {
            let ghost ldv = ls.deep_view();
            let item = text::from_chars(&u);
            ls.push(item);
            proof {
                text::lemma_deep_view_strs(&ls);
                assert forall|k: int| 0 <= k < ldv.len() implies ls.deep_view()[k] == ldv[k] by {
                    assert(ls@[k] == ls@.subrange(0, ldv.len() as int)[k]);
                }
                assert(ls.deep_view() =~= ldv + seq![u@]);
                assert(labels_items_of(pdv.skip(i as int)) == seq![u@] + labels_items_of(
                    pdv.skip(i + 1),
                ));
                assert(labels_items_of(pdv) =~= ls.deep_view() + labels_items_of(pdv.skip(i + 1)));
            }
        } else {
            proof {
                assert(labels_items_of(pdv.skip(i as int)) == labels_items_of(pdv.skip(i + 1)));
            }
        }
        i = i + 1;
    }
    proof {
        assert(pdv.skip(parts@.len() as int) =~= Seq::<Seq<char>>::empty());
        assert(labels_items_of(pdv) =~= ls.deep_view());
        assert(inner@ =~= v@.subrange(1, v@.len() - 1));
    }
    Some(ls)
}

/// One front-matter pair applied to the metadata.
fn apply_kv(m: Meta, key: &Vec<char>, val: &Vec<char>) -> (r: Result<Meta, LoadError>)
    ensures
        r is Ok <==> apply_kv_of(m.model(), key@, val@) is Ok,
        r matches Ok(m2) ==> (apply_kv_of(m.model(), key@, val@) matches Ok(mm) && m2.model()
            == mm && m2.formatted_date == m.formatted_date),
        r matches Err(e) ==> apply_kv_of(m.model(), key@, val@) == Err::<MetaModel, LoadError>(e),
{
    let ks = text::from_chars(key);
    if text::str_eq(ks.as_str(), "author") {
        let mut m2 = m;
        let u = text::unquote(val);
        m2.author = text::from_chars(&u);
        proof {
            assert(m2.model() =~~= (MetaModel { author: text::unquote_of(val@), ..m.model() }));
        }
        Ok(m2)
    } else if text::str_eq(ks.as_str(), "description") {
        let mut m2 = m;
        let u = text::unquote(val);
        m2.description = text::from_chars(&u);
        proof {
            assert(m2.model() =~~= (MetaModel {
                description: text::unquote_of(val@),
                ..m.model()
            }));
        }
        Ok(m2)
    } else if text::str_eq(ks.as_str(), "title") {
        let mut m2 = m;
        let u = text::unquote(val);
        m2.title = text::from_chars(&u);
        proof {
            assert(m2.model() =~~= (MetaModel { title: text::unquote_of(val@), ..m.model() }));
        }
        Ok(m2)
    } else if text::str_eq(ks.as_str(), "date") {
        let u = text::unquote(val);
        match date::parse_date(&u) {
            Some(d) => {
                let mut m2 = m;
                m2.date = Some(d);
                proof {
                    assert(m2.model() =~~= (MetaModel { date: Some(d), ..m.model() }));
                }
                Ok(m2)
            },
            None => Err(LoadError::InvalidDate),
        }
    } else if text::str_eq(ks.as_str(), "labels") {
        match parse_labels(val) {
            Some(ls) => {
                let mut m2 = m;
                let ghost lsdv = ls.deep_view();
                m2.labels = ls;
                proof {
                    assert(m2.model() =~~= (MetaModel { labels: lsdv, ..m.model() }));
                }
                Ok(m2)
            },
            None => Err(LoadError::MalformedPost),
        }
    } else {
        Ok(m)
    }
}

/// The metadata written by a front-matter block.
pub fn parse_meta(s: &Vec<char>) -> (r: Result<Meta, LoadError>)
    ensures
        r is Ok <==> meta_of_chars(s@) is Ok,
        r matches Ok(m) ==> (meta_of_chars(s@) matches Ok(mm) && m.model() == mm
            && m.formatted_date@ == Seq::<char>::empty()),
        r matches Err(e) ==> meta_of_chars(s@) == Err::<MetaModel, LoadError>(e),
{
    let lines = text::split_all(s, '\n');
    let ghost ldv = lines.deep_view();
    let mut m = Meta::new();
    let mut i: usize = 0;
    proof {
        assert(ldv.skip(0) =~= ldv);
    }
    while i < lines.len()
        invariant
            i <= lines@.len(),
            ldv == lines.deep_view(),
            ldv.len() == lines@.len(),
            m.formatted_date@ == Seq::<char>::empty(),
            meta_of_chars(s@) == fold_lines_of(m.model(), ldv.skip(i as int)),
        decreases lines@.len() - i,
    {
        proof {
            text::lemma_deep_view_is(&lines);
            assert(ldv.skip(i as int)[0] == ldv[i as int]);
            assert(ldv.skip(i as int).skip(1) =~= ldv.skip(i + 1));
        }
        let t = text::trim(&lines[i]);
        if t.len() > 0 {
            let idx = text::find_char(&t, ':');
            if idx >= t.len() {
                proof {
                    assert(apply_line_of(m.model(), ldv[i as int]) == Err::<MetaModel, LoadError>(
                        LoadError::MalformedPost,
                    ));
                    assert(fold_lines_of(m.model(), ldv.skip(i as int)) == Err::<
                        MetaModel,
                        LoadError,
                    >(LoadError::MalformedPost));
                }
                return Err(LoadError::MalformedPost);
            }
            let key = text::trim(&text::subvec(&t, 0, idx));
            let val = text::trim(&text::subvec(&t, idx + 1, t.len()));
            proof {
                assert(t@.subrange(0, idx as int) =~= t@.take(idx as int));
                assert(t@.subrange(idx + 1, t@.len() as int) =~= t@.skip(idx + 1));
            }
            let ghost pre = m.model();
            match apply_kv(m, &key, &val) {
                Ok(m2) => {
                    proof {
                        assert(apply_line_of(pre, ldv[i as int]) == Ok::<MetaModel, LoadError>(
                            m2.model(),
                        ));
                    }
                    m = m2;
                },
                Err(e) => {
                    proof {
                        assert(apply_line_of(pre, ldv[i as int]) == Err::<MetaModel, LoadError>(e));
                        assert(fold_lines_of(pre, ldv.skip(i as int)) == Err::<
                            MetaModel,
                            LoadError,
                        >(e));
                    }
                    return Err(e);
                },
            }
        } else {
            proof {
                assert(apply_line_of(m.model(), ldv[i as int]) == Ok::<MetaModel, LoadError>(
                    m.model(),
                ));
            }
        }
        i = i + 1;
    }
    proof {
        assert(ldv.skip(lines@.len() as int) =~= Seq::<Seq<char>>::empty());
    }
    Ok(m)
}

/// With no explicit date or title, loading derives both from a valid
/// file name: the date is the one its first three segments write, and the
/// title is the fourth segment's hyphen-separated words, each
/// capitalized, joined with spaces.
pub proof fn lemma_filename_derivation(m: MetaModel, name: Seq<char>)
    requires
        m.date is None,
        m.title.len() == 0,
        splitn4_of(name).len() == 4,
        text::is_digits(splitn4_of(name)[0]),
        text::is_digits(splitn4_of(name)[1]),
        text::is_digits(splitn4_of(name)[2]),
        text::digits_val(splitn4_of(name)[0]) <= i32::MAX,
        text::digits_val(splitn4_of(name)[1]) <= u32::MAX,
        text::digits_val(splitn4_of(name)[2]) <= u32::MAX,
        (Date {
            year: text::digits_val(splitn4_of(name)[0]) as i32,
            month: text::digits_val(splitn4_of(name)[1]) as u32,
            day: text::digits_val(splitn4_of(name)[2]) as u32,
        }).valid(),
    ensures
        resolved_date_of(m, name) == Ok::<Date, LoadError>(
            Date {
                year: text::digits_val(splitn4_of(name)[0]) as i32,
                month: text::digits_val(splitn4_of(name)[1]) as u32,
                day: text::digits_val(splitn4_of(name)[2]) as u32,
            },
        ),
        resolved_title_of(m, name) == text::title_of(splitn4_of(name)[3]),
{
}

/// A file name without the four `YYYY-MM-DD-title` segments never loads:
/// resolution fails whatever the front matter says, and no post comes
/// back.
pub proof fn lemma_bad_filename(m: MetaModel, name: Seq<char>)
    requires
        splitn4_of(name).len() != 4,
    ensures
        resolved_date_of(m, name) == Err::<Date, LoadError>(LoadError::BadFilename),
{
}

/// The file-name stem a post's date, title and link derive from: the last
/// path segment without its extension.
pub open spec fn post_name_of(path: Seq<char>) -> Seq<char> {
    utils::stem_of(utils::file_name_of(path))
}

/// Whether loading succeeds on this path and file text: the text parses
/// and the file name resolves a date.
pub open spec fn load_ok_of(path: Seq<char>, contents: Seq<char>) -> bool {
    post_parse_of(contents) is Ok && resolved_date_of(
        post_parse_of(contents)->Ok_0.0,
        post_name_of(path),
    ) is Ok
}

/// The error loading fails with: the parse error, else the date error.
pub open spec fn load_err_of(path: Seq<char>, contents: Seq<char>) -> LoadError {
    if post_parse_of(contents) is Err {
        post_parse_of(contents)->Err_0
    } else {
        resolved_date_of(post_parse_of(contents)->Ok_0.0, post_name_of(path))->Err_0
    }
}

/// Whether `p` is the post that loading `contents` from `path` yields:
/// every field determined by the text, the file name and the resolution
/// rules.
#[verifier::opaque]
pub open spec fn is_loaded_post(path: Seq<char>, contents: Seq<char>, p: Post) -> bool {
    let t = post_parse_of(contents)->Ok_0;
    let name = post_name_of(path);
    let d = resolved_date_of(t.0, name)->Ok_0;
    &&& load_ok_of(path, contents)
    &&& p.path@ == path
    &&& p.content@ == utils::html_of(t.1)
    &&& p.meta.date == Some(d)
    &&& d.valid()
    &&& p.meta.formatted_date@ == date::full_label(d)
    &&& p.meta.title@ == resolved_title_of(t.0, name)
    &&& p.meta.author@ == t.0.author
    &&& p.meta.description@ == t.0.description
    &&& p.meta.labels.deep_view() == t.0.labels
    &&& p.index.index@ == date::day_label(d)
    &&& p.index.link@ == link_of(name)
    &&& p.index.year@ == Seq::<char>::empty()
}

/// Any date the front matter sets is a valid calendar day.
pub proof fn lemma_fold_date_valid(m: MetaModel, lines: Seq<Seq<char>>)
    requires
        m.date matches Some(d) ==> d.valid(),
    ensures
        fold_lines_of(m, lines) is Ok && fold_lines_of(m, lines)->Ok_0.date is Some
            ==> fold_lines_of(m, lines)->Ok_0.date->0.valid(),
    decreases lines.len(),
{
    if lines.len() > 0 {
        match apply_line_of(m, lines[0]) {
            Ok(m2) => {
                assert(m2.date matches Some(d) ==> d.valid());
                lemma_fold_date_valid(m2, lines.skip(1));
                assert(fold_lines_of(m, lines) == fold_lines_of(m2, lines.skip(1)));
            },
            Err(_) => {
                assert(fold_lines_of(m, lines) is Err);
            },
        }
    }
}

impl Post {
    /// Parses the text of a post file: front matter between the first two
    /// `---` markers, the rest of the file as the markdown body.  The path
    /// and the derived listing fields stay empty.
    pub fn from_str(s: &str) -> (r: Result<Post, LoadError>)
        ensures
            r is Ok <==> post_parse_of(s@) is Ok,
            r matches Ok(p) ==> (post_parse_of(s@) matches Ok(t) && p.meta.model() == t.0
                && p.content@ == utils::html_of(t.1) && p.path@ == Seq::<char>::empty()
                && p.index.year@ == Seq::<char>::empty() && p.index.index@ == Seq::<char>::empty()
                && p.index.link@ == Seq::<char>::empty() && p.meta.formatted_date@ == Seq::<
                char,
            >::empty()),
            r matches Err(e) ==> post_parse_of(s@) == Err::<(MetaModel, Seq<char>), LoadError>(e),
    {
        let cs = text::to_chars(s);
        let mut pat: Vec<char> = Vec::new();
        pat.push('-');
        pat.push('-');
        pat.push('-');
        proof {
            assert(pat@ =~= marker());
        }
        match text::split3(&cs, &pat) {
            None => Err(LoadError::MalformedPost),
            Some(parts) => {
                let (_pre, metatext, body) = parts;
                match parse_meta(&metatext) {
                    Err(e) => Err(e),
                    Ok(meta) => {
                        let body_str = text::from_chars(&body);
                        let content = utils::markdown(body_str.as_str());
                        Ok(
                            Post {
                                content,
                                index: Index {
                                    year: String::new(),
                                    index: String::new(),
                                    link: String::new(),
                                },
                                meta,
                                path: String::new(),
                            },
                        )
                    },
                }
            },
        }
    }

    /// Fills the derived listing fields from the resolved date and the
    /// file-name stem: the `Mon. DD` label and the `posts/<name>.html`
    /// link.  The year label is untouched.
    pub fn index(self, name: &str) -> (r: Post)
        requires
            self.meta.date matches Some(d) && d.valid(),
        ensures
            r.index.index@ == date::day_label(self.meta.date->0),
            r.index.link@ == link_of(name@),
            r.index.year == self.index.year,
            r.meta == self.meta,
            r.content == self.content,
            r.path == self.path,
    {
        let mut p = self;
        let d = match &p.meta.date {
            Some(d) => *d,
            None => {
                proof {
                    assert(false);
                }
                Date { year: 0, month: 1, day: 1 }
            },
        };
        p.index.index = date::format_day_label(&d);
        let nv = text::to_chars(name);
        let mut link: Vec<char> = Vec::new();
        link.push('p');
        link.push('o');
        link.push('s');
        link.push('t');
        link.push('s');
        link.push('/');
        let mut i: usize = 0;
        while i < nv.len()
            invariant
                i <= nv@.len(),
                link@ == seq!['p', 'o', 's', 't', 's', '/'] + nv@.take(i as int),
            decreases nv@.len() - i,
        {
            link.push(nv[i]);
            i = i + 1;
            proof {
                assert(link@ =~= seq!['p', 'o', 's', 't', 's', '/'] + nv@.take(i as int));
            }
        }
        link.push('.');
        link.push('h');
        link.push('t');
        link.push('m');
        link.push('l');
        proof {
            assert(nv@.take(nv@.len() as int) =~= nv@);
            assert(link@ =~= link_of(name@));
        }
        p.index.link = text::from_chars(&link);
        p
    }

    /// Resolves the date and title against the file name, which must match
    /// `YYYY-MM-DD-title.ext`, and fills the derived fields: the long date
    /// label, the listing fields, and the output link.
    pub fn merge_meta(self) -> (r: Result<Post, LoadError>)
        requires
            self.meta.date matches Some(d) ==> d.valid(),
        ensures
            r is Ok <==> resolved_date_of(self.meta.model(), post_name_of(self.path@)) is Ok,
            r matches Err(e) ==> resolved_date_of(self.meta.model(), post_name_of(self.path@))
                == Err::<Date, LoadError>(e),
            r matches Ok(p) ==> (resolved_date_of(self.meta.model(), post_name_of(self.path@))
                matches Ok(d) && p.meta.date == Some(d) && d.valid() && p.meta.formatted_date@
                == date::full_label(d) && p.meta.title@ == resolved_title_of(
                self.meta.model(),
                post_name_of(self.path@),
            ) && p.meta.author == self.meta.author && p.meta.description == self.meta.description
                && p.meta.labels == self.meta.labels && p.content == self.content && p.path
                == self.path && p.index.index@ == date::day_label(d) && p.index.link@ == link_of(
                post_name_of(self.path@),
            ) && p.index.year == self.index.year),
    {
        let path_chars = text::to_chars(self.path.as_str());
        let fname = utils::file_name(&path_chars);
        let name = utils::stem(&fname);
        let parts = splitn4(&name);
        proof {
            text::lemma_deep_view_is(&parts);
        }
        if parts.len() != 4 {
            return Err(LoadError::BadFilename);
        }
        let d: Date = match &self.meta.date {
            Some(d0) => *d0,
            None => {
                let y = match text::parse_u32(&parts[0]) {
                    Some(v) => v,
                    None => {
                        return Err(LoadError::BadFilename);
                    },
                };
                let mo = match text::parse_u32(&parts[1]) {
                    Some(v) => v,
                    None => {
                        return Err(LoadError::BadFilename);
                    },
                };
                let da = match text::parse_u32(&parts[2]) {
                    Some(v) => v,
                    None => {
                        return Err(LoadError::BadFilename);
                    },
                };
                if y > i32::MAX as u32 {
                    return Err(LoadError::BadFilename);
                }
                match Date::new(y as i32, mo, da) {
                    Some(d) => d,
                    None => {
                        return Err(LoadError::InvalidDate);
                    },
                }
            },
        };
        let mut p = self;
        p.meta.date = Some(d);
        p.meta.formatted_date = date::format_full_label(&d);
        let ghost pre_model = p.meta.model();
        if p.meta.title.as_str().unicode_len() == 0 {
            let t = text::title_case(&parts[3]);
            p.meta.title = text::from_chars(&t);
        }
        let name_str = text::from_chars(&name);
        let r = p.index(name_str.as_str());
        proof {
            assert(r.meta.title@ == resolved_title_of(
                self.meta.model(),
                post_name_of(self.path@),
            ));
        }
        Ok(r)
    }

    /// Loads a post from the path it came from and the text read there.
    pub fn load(path: &str, contents: &str) -> (r: Result<Post, LoadError>)
        ensures
            r is Ok <==> load_ok_of(path@, contents@),
            r matches Ok(p) ==> is_loaded_post(path@, contents@, p),
            r matches Err(e) ==> e == load_err_of(path@, contents@),
    {
        proof {
            reveal(is_loaded_post);
        }
        match Post::from_str(contents) {
            Err(e) => Err(e),
            Ok(p) => {
                proof {
                    if post_parse_of(contents@) matches Ok(t) {
                        lemma_fold_date_valid(
                            empty_meta(),
                            text::split_of(
                                text::split3_of(contents@, marker())->Some_0.1,
                                '\n',
                            ),
                        );
                    }
                }
                let mut p2 = p;
                p2.path = path.to_owned();
                p2.merge_meta()
            },
        }
    }
}

} // verus!
