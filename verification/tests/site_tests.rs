use alog::config::{Config, GiscusCommentsConfig};
use alog::parser::frontmatter::FrontMatter;
use alog::parser::markdown::{BlogPost, ContentKind, Timestamp};
use alog::renderer::html::{build_comments_config, plan_site, sanitize_segment};
use alog::renderer::rss::{feed_dates_valid, generate_rss_feed, site_feed};

fn post(file: &str, title: &str, date: &str, categories: &[&str], tags: &[&str]) -> BlogPost {
    let mut fm = FrontMatter::default();
    fm.title = Some(title.to_string());
    fm.date = Some(date.to_string());
    fm.categories = categories.iter().map(|c| c.to_string()).collect();
    fm.tags = tags.iter().map(|t| t.to_string()).collect();
    let stamp = Timestamp::from_unix(0).unwrap();
    BlogPost::from_source(file, "Body text.", Some(fm), &stamp, ContentKind::Post).unwrap()
}

fn page(file: &str, title: &str, order: Option<usize>, label: Option<&str>) -> BlogPost {
    let mut fm = FrontMatter::default();
    fm.title = Some(title.to_string());
    fm.order = order;
    fm.label = label.map(|l| l.to_string());
    let stamp = Timestamp::from_unix(0).unwrap();
    BlogPost::from_source(file, "Page.", Some(fm), &stamp, ContentKind::Page).unwrap()
}

#[test]
fn plan_orders_posts_newest_first_and_links_neighbours() {
    let posts = vec![
        post("a.md", "Old", "2020-01-01", &["Rust"], &["x"]),
        post("b.md", "New", "2022-01-01", &["rust"], &[]),
        post("c.md", "Mid", "2021-01-01", &[], &["x", "y"]),
    ];
    let plan = plan_site(&posts, &vec![], &Config::default());
    assert_eq!(plan.sorted_posts, vec![1, 2, 0]);
    let newest = &plan.post_outputs[0];
    assert_eq!(newest.post, 1);
    assert!(newest.prev.is_none());
    assert_eq!(newest.next.as_ref().unwrap().title, "Mid");
    assert_eq!(newest.path, vec!["post", "b.html"]);
    assert_eq!(plan.post_outputs.len(), 3);
    let middle = &plan.post_outputs[1];
    assert_eq!(middle.post, 2);
    assert_eq!(middle.prev.as_ref().unwrap().url, "/post/b.html");
    assert_eq!(middle.next.as_ref().unwrap().title, "Old");
    assert_eq!(middle.path, vec!["post", "c.html"]);
    assert_eq!(plan.categories, vec!["Rust".to_string(), "rust".to_string()]);
    assert_eq!(plan.tags, vec!["x".to_string(), "y".to_string()]);
}

#[test]
fn plan_lists_all_posts_then_categories_then_tags() {
    let posts = vec![
        post("a.md", "Old", "2020-01-01", &["Rust"], &["x"]),
        post("b.md", "New", "2022-01-01", &["rust"], &[]),
    ];
    let plan = plan_site(&posts, &vec![], &Config::default());
    // one page for all posts, one per category, one per tag
    assert_eq!(plan.list_outputs.len(), 4);
    let all = &plan.list_outputs[0];
    assert_eq!(all.posts, vec![1, 0]);
    assert_eq!(all.page, 1);
    assert_eq!(all.total_pages, 1);
    assert_eq!(all.base_url, "/index");
    assert_eq!(all.heading, "永远保持初学者的心");
    assert_eq!(all.path, vec!["index.html"]);
    let cat = &plan.list_outputs[1];
    // categories match regardless of ASCII case
    assert_eq!(cat.posts, vec![1, 0]);
    assert_eq!(cat.base_url, "/category/Rust");
    assert_eq!(cat.path, vec!["category/Rust.html"]);
    assert_eq!(cat.heading, "分类：Rust");
    let tag = &plan.list_outputs[3];
    assert_eq!(tag.posts, vec![0]);
    assert_eq!(tag.base_url, "/tag/x");
    assert_eq!(tag.path, vec!["tag/x.html"]);
    assert_eq!(tag.heading, "标签：x");
}

#[test]
fn plan_pages_a_long_list() {
    let mut posts = Vec::new();
    for day in 1..=20 {
        posts.push(post(&format!("p{day}.md"), &format!("P{day}"), &format!("2024-01-{day:02}"), &[], &[]));
    }
    let plan = plan_site(&posts, &vec![], &Config::default());
    assert_eq!(Config::default().pagination.posts_per_page, 15);
    assert_eq!(plan.list_outputs.len(), 2);
    let first = &plan.list_outputs[0];
    let second = &plan.list_outputs[1];
    assert_eq!(first.posts.len(), 15);
    assert_eq!(second.posts.len(), 5);
    assert_eq!(first.total_pages, 2);
    assert_eq!(second.page, 2);
    assert_eq!(second.path, vec!["index-page-2.html"]);
    assert_eq!(first.posts[0], 19);
    assert_eq!(second.posts[4], 0);
}

#[test]
fn plan_without_posts_has_one_empty_list_page() {
    let plan = plan_site(&vec![], &vec![], &Config::default());
    assert_eq!(plan.list_outputs[0].path, vec!["index.html"]);
    assert_eq!(plan.tags_path, vec!["tags.html"]);
    assert_eq!(plan.feed_path, vec!["rss.xml"]);
    assert!(plan.post_outputs.is_empty());
    assert_eq!(plan.list_outputs.len(), 1);
    assert!(plan.list_outputs[0].posts.is_empty());
    assert_eq!(plan.list_outputs[0].total_pages, 1);
}

#[test]
fn plan_skips_drafts_private_posts_and_pages() {
    let mut draft = post("d.md", "Draft", "2024-01-01", &[], &[]);
    draft.metadata.draft = true;
    let mut hidden = page("h.md", "Hidden", None, None);
    hidden.metadata.private = true;
    let posts = vec![draft, post("v.md", "Visible", "2023-01-01", &[], &[])];
    let pages = vec![page("z.md", "Zeta", Some(2), None), hidden, page("a.md", "Alpha", None, Some("A")), page("m.md", "Mu", Some(1), None)];
    let plan = plan_site(&posts, &pages, &Config::default());
    assert_eq!(plan.sorted_posts, vec![1]);
    assert_eq!(plan.public_pages, vec![0, 2, 3]);
    let labels: Vec<&str> = plan.page_links.iter().map(|l| l.label.as_str()).collect();
    // pages without an order come first, then by order
    assert_eq!(labels, vec!["A", "Mu", "Zeta"]);
    assert_eq!(plan.page_links[0].url, "/p/a/");
    assert_eq!(plan.page_outputs.len(), 3);
    assert_eq!(plan.page_outputs[0].page, 0);
    assert_eq!(plan.page_outputs[0].path, vec!["p/z/", "index.html"]);
}

fn giscus() -> GiscusCommentsConfig {
    GiscusCommentsConfig {
        repo: "me/blog".to_string(),
        repo_id: "R1".to_string(),
        category: "General".to_string(),
        category_id: "C1".to_string(),
        mapping: "pathname".to_string(),
        strict: "0".to_string(),
        reactions_enabled: "1".to_string(),
        emit_metadata: "0".to_string(),
        input_position: "bottom".to_string(),
        theme: "light".to_string(),
        lang: "en".to_string(),
    }
}

#[test]
fn comments_only_when_enabled_with_giscus() {
    let mut config = Config::default();
    assert!(build_comments_config(&config).is_none());
    config.comments.enabled = true;
    assert!(build_comments_config(&config).is_none());
    config.comments.giscus = Some(giscus());
    let t = build_comments_config(&config).unwrap();
    assert_eq!(t.repo, "me/blog");
    assert_eq!(t.lang, "en");
    config.comments.system = "disqus".to_string();
    assert!(build_comments_config(&config).is_none());
}

#[test]
fn segments_of_categories() {
    assert_eq!(sanitize_segment("  Rust  Lang "), "Rust-Lang");
    assert_eq!(sanitize_segment("a/b\\c d"), "a-b-c-d");
    assert_eq!(sanitize_segment("-x-"), "-x-");
}

#[test]
fn rss_feed_of_latest_posts() {
    let posts = vec![
        post("b.md", "New & Shiny", "2022-01-02", &[], &[]),
        post("a.md", "Old", "2020-01-01", &[], &[]),
    ];
    let mut config = Config::default();
    config.site_title = "My Blog".to_string();
    assert!(feed_dates_valid(&posts));
    let xml = generate_rss_feed(&posts, &config, "http://localhost:7878/").unwrap();
    assert!(xml.contains("<title>My Blog</title>"));
    assert!(xml.contains("<link>http://localhost:7878/</link>"));
    assert!(xml.contains("<description>My Blog generated with alog</description>"));
    assert!(xml.contains("<language>en-us</language>"));
    assert!(xml.contains("<link>http://localhost:7878/post/b.html</link>"));
    assert!(xml.contains("New &amp; Shiny"));
    assert!(xml.contains("<pubDate>Sun, 2 Jan 2022 00:00:00 +0000</pubDate>"));
    assert!(xml.find("New &amp; Shiny").unwrap() < xml.find("<title>Old</title>").unwrap());
}

#[test]
fn rss_feed_holds_at_most_twenty_items() {
    let mut posts = Vec::new();
    for i in 0..25 {
        posts.push(post(&format!("p{i}.md"), &format!("Post {i}"), "2024-01-01", &[], &[]));
    }
    let xml = generate_rss_feed(&posts, &Config::default(), "http://x").unwrap();
    assert_eq!(xml.matches("<item>").count(), 20);
    assert!(xml.contains("Post 19<"));
    assert!(!xml.contains("Post 20<"));
}

#[test]
fn posts_and_pages_are_written_where_their_urls_point() {
    let posts = vec![post("2024-03-09-x.md", "X", "2024-03-09", &[], &[])];
    let pages = vec![page("about.md", "About", None, None)];
    let plan = plan_site(&posts, &pages, &Config::default());
    let path = &plan.post_outputs[0].path;
    assert_eq!(posts[0].metadata.url, "/post/x.html");
    assert_eq!(format!("/{}", path.join("/")), posts[0].metadata.url);
    let page_path = &plan.page_outputs[0].path;
    assert_eq!(format!("/{}", page_path[0]), pages[0].metadata.url);
    assert_eq!(page_path[1], "index.html");
}

#[test]
fn feed_dates_outside_the_rfc_range() {
    let mut posts = vec![post("a.md", "A", "2020-01-01", &[], &[])];
    assert!(feed_dates_valid(&posts));
    posts[0].metadata.date.year = 10000;
    assert!(!feed_dates_valid(&posts));
    posts[0].metadata.date.year = 2020;
    posts[0].metadata.date.day = 32;
    assert!(!feed_dates_valid(&posts));
}

#[test]
fn site_layout_of_sixteen_posts() {
    let mut posts = Vec::new();
    for day in 1..=15 {
        posts.push(post(&format!("p{day}.md"), &format!("P{day}"), &format!("2024-01-{day:02}"), &[], &[]));
    }
    posts.push(post("2024-02-01-hello.md", "Hello", "2024-02-01", &["Rust"], &["web"]));
    let plan = plan_site(&posts, &vec![], &Config::default());
    let mut files: Vec<String> = Vec::new();
    for o in &plan.post_outputs {
        files.push(o.path.join("/"));
    }
    for o in &plan.list_outputs {
        files.push(o.path.join("/"));
    }
    files.push(plan.tags_path.join("/"));
    files.push(plan.feed_path.join("/"));
    for expected in [
        "index.html",
        "index-page-2.html",
        "post/hello.html",
        "category/Rust.html",
        "tag/web.html",
        "tags.html",
        "rss.xml",
    ] {
        assert!(files.iter().any(|f| f == expected), "missing {expected}");
    }
    // the newest post opens the first list page
    assert_eq!(plan.list_outputs[0].posts[0], 15);
    assert_eq!(plan.list_outputs[1].posts.len(), 1);
}

#[test]
fn posts_per_page_comes_from_the_configuration() {
    let mut posts = Vec::new();
    for day in 1..=5 {
        posts.push(post(&format!("p{day}.md"), &format!("P{day}"), &format!("2024-01-{day:02}"), &[], &[]));
    }
    let mut config = Config::default();
    config.pagination.posts_per_page = 2;
    let plan = plan_site(&posts, &vec![], &config);
    assert_eq!(plan.list_outputs.len(), 3);
    assert_eq!(plan.list_outputs[0].posts, vec![4, 3]);
    assert_eq!(plan.list_outputs[2].posts, vec![0]);
    assert_eq!(plan.list_outputs[2].total_pages, 3);
    assert_eq!(plan.list_outputs[2].path, vec!["index-page-3.html"]);
}

#[test]
fn site_feed_lists_the_plan_newest_first() {
    let posts = vec![
        post("a.md", "Old", "2020-01-01", &[], &[]),
        post("b.md", "New", "2022-01-02", &[], &[]),
    ];
    let plan = plan_site(&posts, &vec![], &Config::default());
    let xml = site_feed(&posts, &plan, &Config::default()).unwrap();
    assert!(xml.contains("<link>http://localhost:7878/post/b.html</link>"));
    assert!(xml.find("<title>New</title>").unwrap() < xml.find("<title>Old</title>").unwrap());
    let sorted = vec![posts[1].clone(), posts[0].clone()];
    assert_eq!(xml, generate_rss_feed(&sorted, &Config::default(), "http://localhost:7878").unwrap());
    let leap = vec![post("l.md", "Leap", "2024-02-29", &[], &[])];
    let plan_leap = plan_site(&leap, &vec![], &Config::default());
    let xml_leap = site_feed(&leap, &plan_leap, &Config::default()).unwrap();
    assert!(xml_leap.contains("<pubDate>Thu, 29 Feb 2024 00:00:00 +0000</pubDate>"));
    let mut late = posts.clone();
    late[0].metadata.date.year = 12000;
    assert!(site_feed(&late, &plan, &Config::default()).is_none());
}
