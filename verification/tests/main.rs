//! End-to-end tests of the site generator's verified core.

use cydonia::classify::{classify, RootsPresent};
use cydonia::date::Date;
use cydonia::init::Init;
use cydonia::manifest::Manifest;
use cydonia::post::{LoadError, Post, TEMPLATE_POST};
use cydonia::render::{base_data, build_plan};
use cydonia::theme::{Theme, ThemeSource, DEFAULT_THEME};
use cydonia::utils::markdown;
use cydonia::watch::{on_event, on_render_result, on_start, on_stop, next_port, EventAction, Watch, WatchState, LIVERELOAD_ENDPOINT};
use cydonia::Templates;

fn manifest() -> Manifest {
    let mut m = Manifest::default();
    m.title = "My blog".to_string();
    m.posts = "/site/posts".to_string();
    m.public = "/site/public".to_string();
    m.templates = "/site/templates".to_string();
    m.theme = "/site/theme".to_string();
    m.favicon = "/site/favicon.svg".to_string();
    m.out = "/site/out".to_string();
    m
}

fn all_present() -> RootsPresent {
    RootsPresent { posts: true, theme: true, public: true, favicon: true, templates: true }
}

#[test]
fn embed() {
    assert!(Templates::get("post.hbs").is_some());
}

#[test]
fn template() {
    assert!(Post::from_str(TEMPLATE_POST).is_ok());
}

#[test]
fn template_parse() {
    let p = Post::from_str(TEMPLATE_POST).unwrap();
    assert_eq!(p.meta.title, "Hello World!");
    assert_eq!(p.meta.date, Some(Date { year: 2024, month: 1, day: 1 }));
    assert_eq!(p.meta.labels, vec!["sonata".to_string(), "rust".to_string()]);
    assert_eq!(p.meta.description, "This is my first post with sonata !");
    assert!(p.content.contains("This is my first post with sonata !"));
}

#[test]
fn post() {
    let text = "intro\n---\nauthor: \"someone\"\n---\nHello from twenty twenty-three.\n";
    let p = Post::load("/site/posts/2023-12-29-hello-world.md", text).unwrap();
    assert_eq!(p.meta.title, "Hello World");
    assert_eq!(p.meta.date, Some(Date { year: 2023, month: 12, day: 29 }));
}

#[test]
fn posts() {
    let files = vec![
        (
            "/site/posts/2024-01-01-hello-world.md".to_string(),
            "\n---\nauthor: \"a\"\n---\nbody one\n".to_string(),
        ),
        (
            "/site/posts/2023-12-29-older-note.md".to_string(),
            "\n---\nauthor: \"b\"\n---\nbody two\n".to_string(),
        ),
    ];
    let ps = manifest().posts(&files).unwrap();
    assert_eq!(ps.len(), 2);
    // Newest first, one year label per calendar year.
    assert_eq!(ps[0].meta.title, "Hello World");
    assert_eq!(ps[0].index.year, "2024");
    assert_eq!(ps[1].meta.title, "Older Note");
    assert_eq!(ps[1].index.year, "2023");
}

#[test]
fn derived_date_and_title() {
    // No metadata date or title: both derive from the file name.
    let text = "\n---\ndescription: \"d\"\n---\nbody\n";
    let p = Post::load("/site/posts/2024-03-05-notes-from-MARCH.md", text).unwrap();
    assert_eq!(p.meta.date, Some(Date { year: 2024, month: 3, day: 5 }));
    assert_eq!(p.meta.title, "Notes From March");
    assert_eq!(p.meta.formatted_date, "Mar. 05, 2024");
    assert_eq!(p.index.index, "Mar. 05");
    assert_eq!(p.index.link, "posts/2024-03-05-notes-from-MARCH.html");
    assert_eq!(p.index.year, "");
}

#[test]
fn metadata_wins_over_filename() {
    let text = "\n---\ndate: \"2020-06-30\"\ntitle: \"Given Title\"\n---\nbody\n";
    let p = Post::load("/site/posts/2024-01-01-something-else.md", text).unwrap();
    assert_eq!(p.meta.date, Some(Date { year: 2020, month: 6, day: 30 }));
    assert_eq!(p.meta.title, "Given Title");
    assert_eq!(p.meta.formatted_date, "Jun. 30, 2020");
}

#[test]
fn bad_filename_fails() {
    let text = "\n---\nauthor: \"a\"\n---\nbody\n";
    assert!(matches!(Post::load("/site/posts/nodate.md", text), Err(LoadError::BadFilename)));
    assert!(matches!(Post::load("/site/posts/2024-01-x.md", text), Err(LoadError::BadFilename)));
}

#[test]
fn invalid_date_fails() {
    let text = "\n---\nauthor: \"a\"\n---\nbody\n";
    assert!(matches!(
        Post::load("/site/posts/2024-02-30-impossible-day.md", text),
        Err(LoadError::InvalidDate)
    ));
    let bad_meta = "\n---\ndate: \"2024-13-01\"\n---\nbody\n";
    assert!(matches!(
        Post::load("/site/posts/2024-01-01-fine-name.md", bad_meta),
        Err(LoadError::InvalidDate)
    ));
}

#[test]
fn missing_front_matter_fails() {
    assert!(matches!(
        Post::load("/site/posts/2024-01-01-fine-name.md", "just a body, no marker"),
        Err(LoadError::MalformedPost)
    ));
}

#[test]
fn front_matter_labels() {
    let text = "\n---\nlabels: [\"blog\", \"rust\"]\nunknown: ignored\n---\nbody\n";
    let p = Post::load("/site/posts/2024-01-01-hello-world.md", text).unwrap();
    assert_eq!(p.meta.labels, vec!["blog".to_string(), "rust".to_string()]);
}

#[test]
fn markdown_renders() {
    let html = markdown("# Heading\n\nsome *text*\n");
    assert!(html.contains("<h1>Heading</h1>"));
    assert!(html.contains("<em>text</em>"));
}

#[test]
fn year_markers_span_years() {
    let files = vec![
        ("/p/2024-05-01-a-a.md".to_string(), "\n---\n---\none\n".to_string()),
        ("/p/2024-01-01-b-b.md".to_string(), "\n---\n---\ntwo\n".to_string()),
        ("/p/2022-07-07-c-c.md".to_string(), "\n---\n---\nthree\n".to_string()),
    ];
    let ps = manifest().posts(&files).unwrap();
    assert_eq!(ps.len(), 3);
    let years: Vec<&str> = ps.iter().map(|p| p.index.year.as_str()).collect();
    assert_eq!(years, vec!["2024", "", "2022"]);
}

#[test]
fn posts_fail_fast() {
    let files = vec![
        ("/p/2024-05-01-a-a.md".to_string(), "\n---\n---\none\n".to_string()),
        ("/p/broken.md".to_string(), "\n---\n---\ntwo\n".to_string()),
    ];
    assert!(matches!(manifest().posts(&files), Err(LoadError::BadFilename)));
}

#[test]
fn theme_dir_matches_file() {
    let css = "body { color: #123; }".to_string();
    let from_file = Theme::load(&ThemeSource::File(css.clone()));
    let from_dir = Theme::load(&ThemeSource::Dir {
        theme: Some(css.clone()),
        index: None,
        post: None,
    });
    assert_eq!(from_file.index, from_dir.index);
    assert_eq!(from_file.post, from_dir.post);
}

#[test]
fn theme_absent_defaults() {
    let t = Theme::load(&ThemeSource::Absent);
    assert_eq!(t.index, DEFAULT_THEME);
    assert_eq!(t.post, DEFAULT_THEME);
}

#[test]
fn theme_dir_overrides() {
    let t = Theme::load(&ThemeSource::Dir {
        theme: Some("base;".to_string()),
        index: Some("index;".to_string()),
        post: Some("post;".to_string()),
    });
    assert_eq!(t.index, "base;index;");
    assert_eq!(t.post, "base;post;");
}

#[test]
fn theme_write_files() {
    let t = Theme::load(&ThemeSource::Absent);
    let files = t.write(Some("hl".to_string()), None);
    let names: Vec<&str> = files.iter().map(|f| f.0.as_str()).collect();
    assert_eq!(names, vec!["index.css", "post.css", "highlight.css", "highlight.js"]);
    assert_eq!(files[2].1, "hl");
}

#[test]
fn build_twice_identical() {
    let m = manifest();
    let files = vec![
        ("/p/2024-01-01-hello-world.md".to_string(), "\n---\n---\nhi\n".to_string()),
    ];
    let ps1 = m.posts(&files).unwrap();
    let ps2 = m.posts(&files).unwrap();
    let plan1 = build_plan(&m, &ps1);
    let plan2 = build_plan(&m, &ps2);
    assert_eq!(plan1.len(), plan2.len());
    for (a, b) in plan1.iter().zip(plan2.iter()) {
        assert_eq!(a.out_path, b.out_path);
        assert_eq!(a.template, b.template);
        assert_eq!(a.post_index, b.post_index);
    }
    let t1 = Theme::load(&ThemeSource::Absent).write(None, None);
    let t2 = Theme::load(&ThemeSource::Absent).write(None, None);
    for (a, b) in t1.iter().zip(t2.iter()) {
        assert_eq!(a, b);
    }
}

#[test]
fn build_plan_paths() {
    let m = manifest();
    let files = vec![
        ("/site/posts/2024-01-01-hello-world.md".to_string(), "\n---\n---\nhi\n".to_string()),
    ];
    let ps = m.posts(&files).unwrap();
    let plan = build_plan(&m, &ps);
    assert_eq!(plan.len(), 2);
    assert_eq!(plan[0].out_path, "/site/out/posts/2024-01-01-hello-world.html");
    assert_eq!(plan[0].template, "post");
    assert_eq!(plan[0].post_index, Some(0));
    assert_eq!(plan[1].out_path, "/site/out/index.html");
    assert_eq!(plan[1].template, "index");
    assert_eq!(plan[1].post_index, None);
}

#[test]
fn classify_untracked_is_noop() {
    let plan = classify(&manifest(), &all_present(), &vec!["/elsewhere/file.txt".to_string()]);
    assert!(!plan.render_index);
    assert!(!plan.reload_theme);
    assert!(!plan.copy_public);
    assert!(!plan.copy_favicon);
    assert!(!plan.reload_templates);
    assert!(plan.posts_to_render.is_empty());
}

#[test]
fn classify_templates_rerenders_everything() {
    let plan = classify(
        &manifest(),
        &all_present(),
        &vec!["/site/templates/post.hbs".to_string()],
    );
    assert!(plan.reload_templates);
    assert!(plan.render_index);
    assert!(plan.posts_to_render.is_empty());
}

#[test]
fn classify_posts_dedups() {
    let plan = classify(
        &manifest(),
        &all_present(),
        &vec![
            "/site/posts/2024-01-01-a-a.md".to_string(),
            "/site/posts/2024-01-01-a-a.md".to_string(),
            "/site/posts/2024-01-02-b-b.md".to_string(),
        ],
    );
    assert_eq!(plan.posts_to_render.len(), 2);
    assert!(plan.render_index);
    assert!(!plan.reload_templates);
}

#[test]
fn classify_skips_absent_roots() {
    let mut pr = all_present();
    pr.posts = false;
    let plan = classify(&manifest(), &pr, &vec!["/site/posts/2024-01-01-a-a.md".to_string()]);
    assert!(plan.posts_to_render.is_empty());
    assert!(!plan.render_index);
}

#[test]
fn classify_theme_and_favicon() {
    let plan = classify(
        &manifest(),
        &all_present(),
        &vec!["/site/theme/theme.css".to_string(), "/site/favicon.svg".to_string()],
    );
    assert!(plan.reload_theme);
    assert!(plan.copy_favicon);
    assert!(plan.render_index);
}

#[test]
fn watch_survives_failed_render() {
    // A batch holding only a deleted post still classifies; the render
    // fails; the session keeps watching and publishes nothing.
    let plan = classify(
        &manifest(),
        &all_present(),
        &vec!["/site/posts/2024-01-01-deleted-post.md".to_string()],
    );
    assert_eq!(plan.posts_to_render.len(), 1);
    let (publish, state) = on_render_result(plan.render_index, false);
    assert!(!publish);
    assert_eq!(state, WatchState::Watching);
}

#[test]
fn watch_lifecycle() {
    assert_eq!(on_start(true), WatchState::Watching);
    assert_eq!(on_start(false), WatchState::Idle);
    assert_eq!(on_event(WatchState::Watching, false), EventAction::Classify);
    assert_eq!(on_event(WatchState::Watching, true), EventAction::Ignore);
    assert_eq!(on_event(WatchState::Idle, false), EventAction::Ignore);
    let (publish, state) = on_render_result(true, true);
    assert!(publish);
    assert_eq!(state, WatchState::Watching);
    let (no_publish, _) = on_render_result(false, true);
    assert!(!no_publish);
    assert_eq!(on_stop(WatchState::Watching), WatchState::ShuttingDown);
}

#[test]
fn watch_manifest_override() {
    let w = Watch { dir: ".".to_string(), out: "out".to_string() };
    assert_eq!(w.manifest(manifest()).out, "/site/out");
    let w2 = Watch { dir: ".".to_string(), out: "elsewhere".to_string() };
    assert_eq!(w2.manifest(manifest()).out, "elsewhere");
    let w3 = Watch { dir: ".".to_string(), out: "/abs/out".to_string() };
    assert_eq!(w3.manifest(manifest()).out, "/abs/out");
}

#[test]
fn next_port_increments() {
    assert_eq!(next_port(3000), Some(3001));
    assert_eq!(next_port(u16::MAX), None);
}

#[test]
fn manifest_merge_keeps_defaults() {
    let mut m = manifest();
    let mut other = Manifest::default();
    other.out = "override-out".to_string();
    m.merge(other);
    assert_eq!(m.out, "override-out");
    assert_eq!(m.posts, "/site/posts");
    assert_eq!(m.title, "My blog");
}

#[test]
fn manifest_abs_resolves_relative() {
    let m = Manifest::default().abs(&"/root".to_string());
    assert_eq!(m.posts, "/root/posts");
    assert_eq!(m.out, "/root/out");
    let mut pre = Manifest::default();
    pre.posts = "/already/abs".to_string();
    let m2 = pre.abs(&"/root".to_string());
    assert_eq!(m2.posts, "/already/abs");
}

#[test]
fn manifest_paths_order() {
    let m = manifest();
    let ps = m.paths();
    assert_eq!(
        ps,
        vec![
            "/site/favicon.svg".to_string(),
            "/site/posts".to_string(),
            "/site/public".to_string(),
            "/site/templates".to_string(),
            "/site/theme".to_string(),
        ]
    );
}

#[test]
fn write_theme_defaults_and_overrides() {
    let m = manifest();
    let files = m.write_theme(Some("custom".to_string()), None, None);
    assert_eq!(files[0].0, "theme.css");
    assert_eq!(files[0].1, "custom");
    assert_eq!(files[1].0, "highlight.css");
    assert_eq!(files[2].0, "highlight.js");
}

#[test]
fn base_data_fields() {
    let m = manifest();
    let d = base_data(&m, true);
    assert_eq!(d.title, "My blog");
    assert_eq!(d.favicon_href, "/favicon.svg");
    assert_eq!(d.livereload, Some(LIVERELOAD_ENDPOINT.to_string()));
    let d2 = base_data(&m, false);
    assert_eq!(d2.livereload, None);
}

#[test]
fn init_plan_files() {
    let init = Init::new("blog".to_string(), "/new/site".to_string());
    let today = Date { year: 2024, month: 1, day: 1 };
    let plan = init.plan(&today);
    assert_eq!(plan.dirs, vec!["/new/site".to_string(), "/new/site/posts".to_string()]);
    assert_eq!(plan.files[0].0, "/new/site/cydonia.toml");
    assert!(plan.files[0].1.contains("title = \"Cydonia\""));
    assert_eq!(plan.files[1].0, "/new/site/posts/2024-01-01-hello-world.md");
    assert!(plan.files[1].1.starts_with("---"));
    assert!(Post::load(&plan.files[1].0, &plan.files[1].1).is_ok());
}

#[test]
fn templates_lookup() {
    assert!(Templates::get("index.hbs").is_some());
    assert!(Templates::get("missing.hbs").is_none());
}
