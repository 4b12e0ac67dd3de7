use alog::error::AlogError;
use alog::parser::frontmatter::FrontMatter;
use alog::parser::markdown::{
    ablog_url, derive_slug, fallback_title, generate_summary, markdown_to_html,
    normalize_slug, parse_date_value, truncate_chars, BlogPost, ContentKind, Timestamp,
};

fn epoch() -> Timestamp {
    Timestamp::from_unix(0).unwrap()
}

#[test]
fn test_markdown_to_html() {
    let markdown = "# Hello\n\nThis is **bold** text.";
    let html = markdown_to_html(markdown);
    assert!(html.contains("<h1>Hello</h1>"));
    assert!(html.contains("<strong>bold</strong>"));
}

#[test]
fn test_parse_post_date_without_title_or_date() {
    let content = "---\npost-date: \"2019-1-3 10:20\"\n---\n\n中文内容很长。";
    let mut fm = FrontMatter::default();
    fm.post_date = Some("2019-1-3 10:20".to_string());
    let post = BlogPost::from_source(
        "/tmp/20190103-The road not taken.md",
        content,
        Some(fm),
        &epoch(),
        ContentKind::Post,
    )
    .unwrap();
    assert_eq!(post.metadata.date.to_string(), "2019-01-03");
    assert_eq!(post.metadata.title, "The road not taken");
    assert_eq!(post.metadata.slug, "The-road-not-taken");
}

#[test]
fn test_page_url_and_draft_flag() {
    let content = "---\ntitle: About\npath: about-me\ndraft: true\n---\n\nPage";
    let mut fm = FrontMatter::default();
    fm.title = Some("About".to_string());
    fm.path = Some("about-me".to_string());
    fm.draft = true;
    let page = BlogPost::from_source(
        "/tmp/alog-about-me.md",
        content,
        Some(fm),
        &epoch(),
        ContentKind::Page,
    )
    .unwrap();
    assert_eq!(page.metadata.url, "/p/about-me/");
    assert!(!page.is_public());
}

#[test]
fn post_without_frontmatter_takes_date_and_title_from_file_name() {
    let post = BlogPost::from_source(
        "md/posts/2024-01-15-Hello-World.md",
        "First paragraph with `code`.\n\nSecond.",
        None,
        &epoch(),
        ContentKind::Post,
    )
    .unwrap();
    assert_eq!(post.metadata.date.to_string(), "2024-01-15");
    assert_eq!(post.metadata.title, "Hello-World");
    assert_eq!(post.metadata.slug, "Hello-World");
    assert_eq!(post.metadata.url, "/post/Hello-World.html");
    assert_eq!(post.metadata.year, "2024");
    assert_eq!(post.metadata.month, "01");
    assert_eq!(post.metadata.day, "15");
    assert_eq!(post.metadata.formatted_date, "2024-01-15");
    assert_eq!(post.metadata.summary.as_deref(), Some("First paragraph with code."));
    assert_eq!(post.metadata.kind, "post");
    assert_eq!(post.metadata.created_at, "1970-01-01 00:00:00");
    assert_eq!(post.content, "First paragraph with `code`.\n\nSecond.");
    assert!(post.metadata.html_content.contains("<code>code</code>"));
    assert!(post.is_public());
}

#[test]
fn post_date_from_directories_then_file_time() {
    let post = BlogPost::from_source("md/2024/03/note.md", "x", None, &epoch(), ContentKind::Post)
        .unwrap();
    assert_eq!(post.metadata.date.to_string(), "2024-03-01");
    let later = Timestamp::from_unix(86400 * 31).unwrap();
    let post = BlogPost::from_source("md/misc/note.md", "x", None, &later, ContentKind::Post)
        .unwrap();
    assert_eq!(post.metadata.date.to_string(), "1970-02-01");
    assert_eq!(post.metadata.created_at, "1970-02-01 00:00:00");
    assert_eq!(post.metadata.title, "note");
}

#[test]
fn frontmatter_fields_take_precedence() {
    let mut fm = FrontMatter::default();
    fm.title = Some("A Title".to_string());
    fm.date = Some("2020-05-06".to_string());
    fm.post_date = Some("2019-01-01".to_string());
    fm.category = Some("misc".to_string());
    fm.tags = vec!["rust".to_string()];
    fm.summary = Some("Given summary".to_string());
    fm.slug = Some("My Slug/Part".to_string());
    fm.private = true;
    let post = BlogPost::from_source(
        "md/2021-01-01-file.md",
        "---\ntitle: A Title\n---\nBody",
        Some(fm),
        &epoch(),
        ContentKind::Post,
    )
    .unwrap();
    assert_eq!(post.metadata.title, "A Title");
    assert_eq!(post.metadata.date.to_string(), "2020-05-06");
    assert_eq!(post.metadata.categories, vec!["misc".to_string()]);
    assert_eq!(post.metadata.category, "misc");
    assert_eq!(post.metadata.tags, vec!["rust".to_string()]);
    assert_eq!(post.metadata.summary.as_deref(), Some("Given summary"));
    assert_eq!(post.metadata.slug, "My-Slug-Part");
    assert_eq!(post.metadata.url, "/post/My-Slug-Part.html");
    assert_eq!(post.content, "Body");
    assert!(!post.is_public());
}

#[test]
fn blank_frontmatter_title_falls_back_to_file_name() {
    let mut fm = FrontMatter::default();
    fm.title = Some("   ".to_string());
    fm.categories = vec!["a".to_string(), "b".to_string()];
    fm.category = Some("ignored".to_string());
    let post = BlogPost::from_source(
        "2022-02-02-  Spaced Name .md",
        "",
        Some(fm),
        &epoch(),
        ContentKind::Post,
    )
    .unwrap();
    assert_eq!(post.metadata.title, "Spaced Name");
    assert_eq!(post.metadata.category, "a");
    assert_eq!(post.metadata.categories, vec!["a".to_string(), "b".to_string()]);
    assert!(post.metadata.summary.is_none());
}

#[test]
fn source_without_file_name_is_an_error() {
    let r = BlogPost::from_source("..", "x", None, &epoch(), ContentKind::Post);
    assert_eq!(r.unwrap_err(), AlogError::InvalidFilename);
}

#[test]
fn page_kind_and_url() {
    let page = BlogPost::from_source("pages/projects.md", "Hi", None, &epoch(), ContentKind::Page)
        .unwrap();
    assert_eq!(page.metadata.url, "/p/projects/");
    assert_eq!(page.metadata.kind, "page");
}

#[test]
fn summary_of_markdown() {
    assert_eq!(
        generate_summary("  # Title **bold** and *em*\n\nrest").as_deref(),
        Some("Title bold and em")
    );
    assert_eq!(generate_summary("   \n  "), None);
    let long = "a".repeat(250);
    let s = generate_summary(&long).unwrap();
    assert_eq!(s.chars().count(), 203);
    assert!(s.ends_with("..."));
}

#[test]
fn truncation_counts_characters() {
    assert_eq!(truncate_chars("héllo", 5), "héllo");
    assert_eq!(truncate_chars("héllo", 2), "hé...");
    assert_eq!(truncate_chars("", 0), "");
}

#[test]
fn date_values_in_each_format() {
    assert_eq!(parse_date_value("2024-01-15").unwrap().to_string(), "2024-01-15");
    assert_eq!(parse_date_value(" 2024-1-5 ").unwrap().to_string(), "2024-01-05");
    assert_eq!(parse_date_value("2024/01/15").unwrap().to_string(), "2024-01-15");
    assert_eq!(parse_date_value("2024-01-15 10:20").unwrap().to_string(), "2024-01-15");
    assert_eq!(parse_date_value("2024-01-15 10:20:30").unwrap().to_string(), "2024-01-15");
    assert_eq!(parse_date_value("202401151020").unwrap().to_string(), "2024-01-15");
    assert!(parse_date_value("yesterday").is_none());
    assert!(parse_date_value("2024-02-30").is_none());
}

#[test]
fn titles_from_file_names() {
    assert_eq!(fallback_title("2024-01-15-my-post.md"), "my-post");
    assert_eq!(fallback_title("20190103-The road not taken.md"), "The road not taken");
    assert_eq!(fallback_title("2024-01-15.md"), "");
    assert_eq!(fallback_title("notes.md"), "notes");
}

#[test]
fn slugs() {
    assert_eq!(normalize_slug("  Hello   World  "), "Hello-World");
    assert_eq!(normalize_slug("a/b\\c"), "a-b-c");
    assert_eq!(normalize_slug("--x--"), "x");
    assert_eq!(normalize_slug(""), "");
    for text in [" a / b -- c ", "-/-", "Hello World", "x\\y\tz"] {
        let once = normalize_slug(text);
        assert_eq!(normalize_slug(&once), once);
    }
    assert_eq!(derive_slug("2024-01-15-my-post.md", &None, ContentKind::Post), "my-post");
    assert_eq!(derive_slug("2024-01-15.md", &None, ContentKind::Post), "2024-01-15");
    let mut fm = FrontMatter::default();
    fm.path = Some("about me".to_string());
    fm.slug = Some("ignored".to_string());
    assert_eq!(derive_slug("x.md", &Some(fm.clone()), ContentKind::Page), "about-me");
    assert_eq!(derive_slug("x.md", &Some(fm), ContentKind::Post), "ignored");
}

#[test]
fn urls_of_posts_and_pages() {
    let date = parse_date_value("2024-01-05").unwrap();
    assert_eq!(ablog_url(date, "slug", ContentKind::Post), "/post/slug.html");
    assert_eq!(ablog_url(date, "slug", ContentKind::Page), "/p/slug/");
}

#[test]
fn timestamps_out_of_range() {
    assert!(Timestamp::from_unix(i64::MAX).is_none());
    let t = Timestamp::from_unix(1_700_000_000).unwrap();
    assert_eq!(t.text, "2023-11-14 22:13:20");
    assert_eq!(t.date.to_string(), "2023-11-14");
}
