//! Site configuration.

use vstd::prelude::*;

verus! {

broadcast use vstd::string::group_string_axioms;

/// Site configuration, as `config.toml` gives it.
#[derive(Clone, Debug)]
pub struct Config {
    pub input_dir: String,
    pub output_dir: String,
    pub server: ServerConfig,
    pub theme: ThemeConfig,
    pub pagination: PaginationConfig,
    pub comments: CommentsConfig,
    /// The site's title, shown on every page and in the feed.
    pub site_title: String,
}

/// Where the development server listens.
#[derive(Clone, Debug)]
pub struct ServerConfig {
    pub port: u16,
    pub host: String,
}

/// The theme in use.
#[derive(Clone, Debug)]
pub struct ThemeConfig {
    pub name: String,
    pub custom_css: Option<String>,
}

/// How many posts a list page holds.
#[derive(Clone, Debug)]
pub struct PaginationConfig {
    pub posts_per_page: usize,
}

/// Comment system settings.
#[derive(Clone, Debug)]
pub struct CommentsConfig {
    pub enabled: bool,
    pub system: String,
    pub giscus: Option<GiscusCommentsConfig>,
}

/// Settings of the giscus comment widget.
#[derive(Clone, Debug)]
pub struct GiscusCommentsConfig {
    pub repo: String,
    pub repo_id: String,
    pub category: String,
    pub category_id: String,
    pub mapping: String,
    pub strict: String,
    pub reactions_enabled: String,
    pub emit_metadata: String,
    pub input_position: String,
    pub theme: String,
    pub lang: String,
}

impl Default for Config {
    /// Content in `./md`, output in `./www`, the server on `0.0.0.0:7878`, the
    /// default theme, 15 posts per page, comments off (giscus when on), and the
    /// site titled `alog`.
    fn default() -> (r: Config)
        ensures
            r.input_dir@ == "./md"@,
            r.output_dir@ == "./www"@,
            r.server.port == 7878,
            r.server.host@ == "0.0.0.0"@,
            r.theme.name@ == "default"@,
            r.theme.custom_css is None,
            r.pagination.posts_per_page == 15,
            !r.comments.enabled,
            r.comments.system@ == "giscus"@,
            r.comments.giscus is None,
            r.site_title@ == "alog"@,
    {
        Config {
            input_dir: "./md".to_string(),
            output_dir: "./www".to_string(),
            server: ServerConfig { port: 7878, host: "0.0.0.0".to_string() },
            theme: ThemeConfig { name: "default".to_string(), custom_css: None },
            pagination: PaginationConfig { posts_per_page: 15 },
            comments: CommentsConfig {
                enabled: false,
                system: "giscus".to_string(),
                giscus: None,
            },
            site_title: "alog".to_string(),
        }
    }
}

} // verus!
