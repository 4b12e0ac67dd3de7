//! A static blog generator: parsing of Markdown posts with YAML frontmatter,
//! slug and URL derivation, site planning (post pages, list pages, category and
//! tag indexes) and RSS feed generation; and the older single-page layout, whose
//! posts carry a JSON block and link to their neighbours.

pub mod cli;
pub mod config;
pub mod date;
pub mod error;
pub mod text;
pub mod parser;
pub mod paths;
pub mod posts;
pub mod sorting;
pub mod renderer;
pub mod watcher;
pub mod server;
pub mod settings;
pub mod listing;

pub use posts::{get_post_filename_as_url, get_post_url, get_posts, get_val_from_json, PostData};
pub use settings::get_site_settings_val;
