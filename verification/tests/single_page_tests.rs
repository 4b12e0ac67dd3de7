use alog::listing::{page_file, page_numbers, post_list_pages, LIST_PER_PAGE};
use alog::posts::{
    get_post_filename_as_url, get_post_url, get_posts, get_val_from_json, try_parse_md_source,
    try_post_filename_as_url, PostData,
};
use alog::server::{http_response, requested_files};
use alog::settings::{get_site_settings_val, server_address, SiteSettings};

fn dated(title: &str, date: i64) -> PostData {
    let mut p = PostData::new();
    p.title = title.to_string();
    p.post_date_int = date;
    p
}

#[test]
fn new_post_is_empty() {
    let p = PostData::new();
    assert!(p.title.is_empty() && p.url.is_empty() && p.content.is_empty());
    assert_eq!(p.post_date_int, 0);
    assert!(p.prev_post.is_none() && p.next_post.is_none());
}

#[test]
fn posts_sorted_by_date_and_linked() {
    let posts = vec![dated("c", 30), dated("a", 10), dated("b", 20)];
    let linked = get_posts(posts);
    let titles: Vec<&str> = linked.iter().map(|p| p.title.as_str()).collect();
    assert_eq!(titles, vec!["a", "b", "c"]);
    assert!(linked[0].prev_post.is_none());
    assert_eq!(linked[0].next_post.as_ref().as_ref().unwrap().title, "b");
    let prev_of_c = linked[2].prev_post.as_ref().as_ref().unwrap();
    assert_eq!(prev_of_c.title, "b");
    assert_eq!(prev_of_c.prev_post.as_ref().as_ref().unwrap().title, "a");
    assert!(linked[2].next_post.is_none());
}

#[test]
fn posts_of_the_same_date_keep_their_order() {
    let linked = get_posts(vec![dated("x", 5), dated("y", 5), dated("w", 1)]);
    let titles: Vec<&str> = linked.iter().map(|p| p.title.as_str()).collect();
    assert_eq!(titles, vec!["w", "x", "y"]);
    assert!(get_posts(vec![]).is_empty());
}

#[test]
fn url_part_from_file_name() {
    assert_eq!(get_post_filename_as_url("md/2019-01-03-hello.md"), "hello");
    assert_eq!(get_post_filename_as_url("md/notes.md.md"), "notes");
    assert_eq!(get_post_filename_as_url("md/20190103-a-b.md"), "a-b");
    assert_eq!(get_post_filename_as_url("plain"), "plain");
    assert!(try_post_filename_as_url("..").is_none());
}

#[test]
fn json_fields_with_defaults() {
    let json = r#"{"title": "T", "n": 3}"#;
    assert_eq!(get_val_from_json(json, "title", "d".to_string()), "T");
    assert_eq!(get_val_from_json(json, "missing", "d".to_string()), "d");
    assert_eq!(get_val_from_json(r#"{"title": 5}"#, "title", "".to_string()), "");
    assert_eq!(get_val_from_json(json, "n", "d".to_string()), "d");
    assert_eq!(get_val_from_json("not json", "title", "d".to_string()), "d");
    assert_eq!(get_post_url(r#"{"url": "custom"}"#, "md/2020-01-01-x.md"), "custom");
    assert_eq!(get_post_url("{}", "md/2020-01-01-x.md"), "x");
    assert_eq!(get_post_url(r#"{"url": "custom"}"#, ".."), "custom");
}

#[test]
fn markdown_source_without_block() {
    let post = try_parse_md_source("md/2019-01-03-hello.md", "  # Hi\n", 0).unwrap();
    assert_eq!(post.title, "hello");
    assert_eq!(post.url, "p/1970/01/01/hello/");
    assert_eq!(post.post_date_int, 0);
    assert!(post.post_date.is_empty());
    assert_eq!(post.content, "<h1>Hi</h1>\n");
}

#[test]
fn markdown_source_with_json_block() {
    let content = "<!-- {\"title\": \"Hello\", \"post_date\": \"2019-01-03 10:20\", \"url\": \"hi\"} -->\n\nText";
    let post = try_parse_md_source("md/x.md", content, 0).unwrap();
    assert_eq!(post.title, "Hello");
    assert_eq!(post.post_date, "2019-01-03 10:20");
    assert_eq!(post.post_date_int, 1546510800);
    assert_eq!(post.url, "p/2019/01/03/hi/");
    assert_eq!(post.content, "<p>Text</p>\n");
}

#[test]
fn markdown_source_with_a_title_that_is_not_text() {
    let content = "{\"title\": 3, \"post_date\": \"2019-01-03 10:20\"}\nText";
    let post = try_parse_md_source("md/2019-01-03-x.md", content, 0).unwrap();
    assert_eq!(post.title, "");
    assert_eq!(post.url, "p/2019/01/03/x/");
}

#[test]
fn markdown_source_that_cannot_be_read() {
    // a block whose date does not read
    let bad_date = "{\"title\": \"T\", \"post_date\": \"soon\"}\nText";
    assert!(try_parse_md_source("md/x.md", bad_date, 0).is_none());
    // a block that is not JSON
    assert!(try_parse_md_source("md/x.md", "{oops}\nText", 0).is_none());
    // a block whose URL is not a string
    let bad_url = "{\"url\": 1, \"post_date\": \"2019-01-03 10:20\"}\nText";
    assert!(try_parse_md_source("md/x.md", bad_url, 0).is_none());
    // a path without a file name
    assert!(try_parse_md_source("..", "Text", 0).is_none());
}

#[test]
fn settings_read_back_and_defaults() {
    let mut s = SiteSettings::new();
    assert_eq!(get_site_settings_val(&s, "site_title", "alog"), "alog");
    s.insert("site_title".to_string(), "Debug my self".to_string());
    s.insert("server_port".to_string(), "7878".to_string());
    s.insert("site_title".to_string(), "Second".to_string());
    assert_eq!(get_site_settings_val(&s, "site_title", "alog"), "Second");
    assert_eq!(s.get("server_port").as_deref(), Some("7878"));
    assert!(s.get("theme").is_none());
    assert_eq!(server_address(&s), "127.0.0.1:7878");
    s.insert("server_port".to_string(), "8080".to_string());
    assert_eq!(server_address(&s), "127.0.0.1:8080");
    assert_eq!(server_address(&SiteSettings::new()), "127.0.0.1:7878");
}

#[test]
fn list_pages_one_post_each() {
    assert_eq!(LIST_PER_PAGE, 1);
    let (last, pages) = post_list_pages(3);
    assert_eq!(last, 3);
    assert_eq!(page_numbers(last), vec![1, 2, 3]);
    assert_eq!(pages.len(), 3);
    assert_eq!((pages[0].start, pages[0].end), (0, 1));
    assert_eq!(pages[0].current_url, "p/list/1/");
    assert_eq!(pages[0].prev_url, "");
    assert_eq!(pages[0].next_url, "p/list/2/");
    assert_eq!(pages[1].prev_url, "p/list/1/");
    assert_eq!(pages[1].next_url, "p/list/3/");
    assert_eq!((pages[2].start, pages[2].end), (2, 3));
    assert_eq!(pages[2].prev_url, "p/list/2/");
    // the last page links forward to itself
    assert_eq!(pages[2].next_url, "p/list/3/");
    assert_eq!(page_file(&pages[2].current_url), "p/list/3/index.html");
    assert_eq!(pages[0].files, vec!["p/list/1/index.html", "p/list/index.html"]);
    assert_eq!(pages[2].files, vec!["p/list/3/index.html"]);
}

#[test]
fn list_pages_without_posts() {
    let (last, pages) = post_list_pages(0);
    assert_eq!(last, 0);
    assert!(page_numbers(last).is_empty());
    assert_eq!(pages.len(), 1);
    assert_eq!((pages[0].start, pages[0].end), (0, 0));
    assert_eq!(pages[0].next_url, "");
    let (_, one) = post_list_pages(1);
    assert_eq!(one.len(), 1);
    assert_eq!(one[0].next_url, "");
}

#[test]
fn requests_name_files() {
    let (index, raw) = requested_files("GET /p/2019/01/03/hello/ HTTP/1.1\r\nHost: x\r\n").unwrap();
    assert_eq!(index, "p/2019/01/03/hello/index.html");
    assert_eq!(raw, "p/2019/01/03/hello/");
    let (index, raw) = requested_files("GET /p/%E4%B8%AD/ HTTP/1.1\r\n").unwrap();
    assert_eq!(index, "p/中/index.html");
    assert_eq!(raw, "p/%E4%B8%AD/");
    let (index, raw) = requested_files("GET / HTTP/1.1").unwrap();
    assert_eq!(index, "index.html");
    assert_eq!(raw, "");
    assert!(requested_files("POST / HTTP/1.1").is_none());
    assert!(requested_files("GET /no-space").is_none());
    assert!(requested_files("GET /a\n b").is_none());
}

#[test]
fn responses_carry_contents() {
    assert_eq!(http_response("<p>x</p>"), "HTTP/1.1 200 OK\r\n\r\n<p>x</p>");
    assert_eq!(http_response(""), "HTTP/1.1 200 OK\r\n\r\n");
}
