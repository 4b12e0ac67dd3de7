use alog::error::AlogError;
use alog::parser::frontmatter::{
    extract_directory_date, extract_filename_date, split_frontmatter, string_vec_from_yaml,
    FrontMatter, YamlStrings,
};

#[test]
fn test_split_frontmatter() {
    let content = "---\ntitle: Test\n---\n\nBody";
    let (yaml, body) = split_frontmatter(content);
    assert!(yaml.unwrap().contains("title: Test"));
    assert_eq!(body, "Body");
}

#[test]
fn test_extract_filename_date() {
    assert_eq!(
        extract_filename_date("2024-01-15-my-post.md").unwrap().to_string(),
        "2024-01-15"
    );
    assert_eq!(
        extract_filename_date("20240115-my-post.md").unwrap().to_string(),
        "2024-01-15"
    );
}

#[test]
fn split_without_opening_delimiter_keeps_everything() {
    let content = "title: Test\n---\nBody";
    let (yaml, body) = split_frontmatter(content);
    assert!(yaml.is_none());
    assert_eq!(body, content);
}

#[test]
fn split_without_closing_delimiter_keeps_everything() {
    let content = "---\ntitle: Test\nBody";
    let (yaml, body) = split_frontmatter(content);
    assert!(yaml.is_none());
    assert_eq!(body, content);
}

#[test]
fn split_of_empty_text() {
    let (yaml, body) = split_frontmatter("");
    assert!(yaml.is_none());
    assert_eq!(body, "");
}

#[test]
fn split_yaml_keeps_line_ends_and_ignores_dashes_inside_lines() {
    let content = "--- \ntitle: a --- b\nx: 1\n  ---  \n\n\n  Text ---\nmore";
    let (yaml, body) = split_frontmatter(content);
    assert_eq!(yaml, Some("title: a --- b\nx: 1\n"));
    assert_eq!(body, "Text ---\nmore");
}

#[test]
fn split_empty_block() {
    let (yaml, body) = split_frontmatter("---\n---\nBody\n");
    assert_eq!(yaml, Some(""));
    assert_eq!(body, "Body\n");
}

#[test]
fn split_with_crlf_line_ends() {
    let (yaml, body) = split_frontmatter("---\r\ntitle: T\r\n---\r\nBody");
    assert_eq!(yaml, Some("title: T\r\n"));
    assert_eq!(body, "Body");
}

#[test]
fn filename_date_with_time_prefix() {
    let date = extract_filename_date("202401151020-title.md").unwrap();
    assert_eq!(date.to_string(), "2024-01-15");
}

#[test]
fn filename_date_in_a_directory() {
    let date = extract_filename_date("md/posts/2023-12-31-last.md").unwrap();
    assert_eq!(date.to_string(), "2023-12-31");
}

#[test]
fn filename_without_date_is_an_error() {
    let err = extract_filename_date("hello-world.md").unwrap_err();
    assert_eq!(err, AlogError::NoFilenameDate);
    assert_eq!(err.message(), "Filename does not contain a supported date");
}

#[test]
fn filename_with_impossible_date_is_an_error() {
    assert_eq!(
        extract_filename_date("2023-02-30-x.md").unwrap_err(),
        AlogError::NoFilenameDate
    );
}

#[test]
fn filename_date_on_a_leap_day() {
    assert_eq!(
        extract_filename_date("2024-02-29-leap.md").unwrap().to_string(),
        "2024-02-29"
    );
    assert!(extract_filename_date("2023-02-29-leap.md").is_err());
}

#[test]
fn path_without_file_name_is_invalid() {
    assert_eq!(extract_filename_date("..").unwrap_err(), AlogError::InvalidFilename);
    assert_eq!(AlogError::InvalidFilename.message(), "Invalid filename");
}

#[test]
fn directory_date_from_year_and_month_directories() {
    let date = extract_directory_date("md/2024/01/my-post.md").unwrap();
    assert_eq!(date.to_string(), "2024-01-01");
}

#[test]
fn directory_date_with_year_below_month_directory() {
    let date = extract_directory_date("md/03/2021/post.md").unwrap();
    assert_eq!(date.to_string(), "2021-03-01");
}

#[test]
fn directory_date_absent() {
    assert!(extract_directory_date("md/posts/post.md").is_none());
    assert!(extract_directory_date("post.md").is_none());
    assert!(extract_directory_date("md/2024/13/post.md").is_none());
}

#[test]
fn yaml_strings_of_each_kind() {
    assert!(string_vec_from_yaml(YamlStrings::Null).unwrap().is_empty());
    assert_eq!(
        string_vec_from_yaml(YamlStrings::Text("rust".to_string())).unwrap(),
        vec!["rust".to_string()]
    );
    assert_eq!(
        string_vec_from_yaml(YamlStrings::Sequence(vec![
            Some("rust".to_string()),
            None,
            Some("blog".to_string()),
        ]))
        .unwrap(),
        vec!["rust".to_string(), "blog".to_string()]
    );
    let err = string_vec_from_yaml(YamlStrings::Other("Bool(true)".to_string())).unwrap_err();
    assert_eq!(err, AlogError::ExpectedStrings("Bool(true)".to_string()));
    assert_eq!(
        err.message(),
        "expected a string or list of strings, got Bool(true)"
    );
}

#[test]
fn frontmatter_default_is_empty() {
    let fm = FrontMatter::default();
    assert!(fm.title.is_none() && fm.date.is_none() && fm.post_date.is_none());
    assert!(fm.categories.is_empty() && fm.tags.is_empty());
    assert!(!fm.draft && !fm.private);
}
