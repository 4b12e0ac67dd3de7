use alog::cli::{apply_cli_overrides, Cli, Commands};
use alog::config::Config;
use alog::date::Date;
use alog::paths::{ends_with_md, is_markdown_file, sort_content_files};
use alog::watcher::file_watcher::{watch_event_for, ChangeKind, WatchEvent};

#[test]
fn default_configuration() {
    let c = Config::default();
    assert_eq!(c.input_dir, "./md");
    assert_eq!(c.output_dir, "./www");
    assert_eq!(c.server.port, 7878);
    assert_eq!(c.server.host, "0.0.0.0");
    assert_eq!(c.theme.name, "default");
    assert!(c.theme.custom_css.is_none());
    assert_eq!(c.pagination.posts_per_page, 15);
    assert!(!c.comments.enabled);
    assert_eq!(c.comments.system, "giscus");
    assert_eq!(c.site_title, "alog");
}

#[test]
fn command_line_overrides() {
    let mut c = Config::default();
    apply_cli_overrides(&mut c, ".".to_string(), "./www".to_string(), None);
    assert_eq!(c.input_dir, "./md");
    assert_eq!(c.output_dir, "./www");
    assert_eq!(c.server.port, 7878);
    apply_cli_overrides(&mut c, "posts".to_string(), "out".to_string(), Some(3000));
    assert_eq!(c.input_dir, "posts");
    assert_eq!(c.output_dir, "out");
    assert_eq!(c.server.port, 3000);
    // the default port leaves the configured one
    apply_cli_overrides(&mut c, "./".to_string(), "./www/".to_string(), Some(7878));
    assert_eq!(c.input_dir, "posts");
    assert_eq!(c.output_dir, "out");
    assert_eq!(c.server.port, 3000);
    assert_eq!(c.server.host, "0.0.0.0");
}

#[test]
fn commands_carry_their_options() {
    let cli = Cli {
        command: Commands::Serve { port: 8080, input_dir: "md".to_string(), output_dir: "www".to_string() },
    };
    match cli.command {
        Commands::Serve { port, .. } => assert_eq!(port, 8080),
        Commands::Build { .. } => panic!("expected serve"),
    }
}

#[test]
fn watch_events_only_for_markdown() {
    match watch_event_for(ChangeKind::Create, "md/a.md") {
        Some(WatchEvent::FileCreated(p)) => assert_eq!(p, "md/a.md"),
        other => panic!("unexpected {other:?}"),
    }
    match watch_event_for(ChangeKind::Remove, "md/a.md") {
        Some(WatchEvent::FileDeleted(p)) => assert_eq!(p, "md/a.md"),
        other => panic!("unexpected {other:?}"),
    }
    match watch_event_for(ChangeKind::Other, "md/a.md") {
        Some(WatchEvent::FileChanged(p)) => assert_eq!(p, "md/a.md"),
        other => panic!("unexpected {other:?}"),
    }
    assert!(watch_event_for(ChangeKind::Modify, "md/a.txt").is_none());
    assert!(watch_event_for(ChangeKind::Modify, "md/.md").is_none());
}

#[test]
fn markdown_files_by_extension() {
    assert!(is_markdown_file("md/posts/a.md"));
    assert!(!is_markdown_file("md/posts/a.MD"));
    assert!(!is_markdown_file("md/posts/a.markdown"));
    assert!(!is_markdown_file("md/posts/md"));
}

#[test]
fn markdown_files_by_suffix() {
    assert!(ends_with_md("md/a.md"));
    assert!(ends_with_md(".md"));
    assert!(!ends_with_md("md"));
    assert!(!ends_with_md("md/a.mdx"));
}

#[test]
fn content_files_in_path_order() {
    let files = vec![
        "md/posts/b.md".to_string(),
        "md/posts/a-b.md".to_string(),
        "md/posts/a/z.md".to_string(),
        "md/posts/a.md".to_string(),
    ];
    assert_eq!(
        sort_content_files(&files),
        vec!["md/posts/a/z.md", "md/posts/a-b.md", "md/posts/a.md", "md/posts/b.md"]
    );
    let mut by_path: Vec<std::path::PathBuf> = files.iter().map(std::path::PathBuf::from).collect();
    by_path.sort();
    let expected: Vec<String> = by_path.iter().map(|p| p.to_str().unwrap().to_string()).collect();
    assert_eq!(sort_content_files(&files), expected);
}

#[test]
fn calendar_dates() {
    let d = |year, month, day| Date { year, month, day };
    assert!(d(2024, 2, 29).is_valid());
    assert_eq!(d(2024, 2, 29).to_string(), "2024-02-29");
    assert!(!d(2023, 2, 29).is_valid());
    assert!(!d(1900, 2, 29).is_valid());
    assert!(d(2000, 2, 29).is_valid());
    assert!(d(-4, 2, 29).is_valid());
    assert!(!d(2024, 13, 1).is_valid());
    assert!(!d(2024, 4, 31).is_valid());
    assert!(!d(2024, 4, 0).is_valid());
    assert!(!d(262143, 1, 1).is_valid());
    assert!(d(-262143, 1, 1).is_valid());
    assert_eq!(d(-5, 1, 1).to_string(), "-0005-01-01");
    assert_eq!(d(12345, 1, 1).to_string(), "+12345-01-01");
    assert!(d(2024, 1, 1).before(&d(2024, 1, 2)));
    assert!(!d(2024, 1, 2).before(&d(2024, 1, 2)));
}
