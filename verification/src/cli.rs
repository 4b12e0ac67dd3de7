//! Command line: the commands, and how their options override the configuration.

use vstd::prelude::*;
use crate::config::Config;
use crate::paths::{same_path, std_same_path};

verus! {

/// The command line.
#[derive(Clone, Debug)]
pub struct Cli {
    pub command: Commands,
}

/// What to do.
#[derive(Clone, Debug)]
pub enum Commands {
    /// Build the blog (generate HTML from Markdown).
    Build {
        /// Directory containing markdown files.
        input_dir: String,
        /// Output directory for generated site.
        output_dir: String,
    },
    /// Start the development server.
    Serve {
        /// Port number.
        port: u16,
        /// Directory containing markdown files.
        input_dir: String,
        /// Output directory for generated site.
        output_dir: String,
    },
}

/// The options given on the command line override the configuration: the input
/// directory unless it is `.`, the output directory unless it is `./www`, the
/// port when one is given and it is not 7878.  Everything else is kept.
pub fn apply_cli_overrides(
    config: &mut Config,
    input_dir: String,
    output_dir: String,
    port: Option<u16>,
)
    ensures
        final(config).input_dir@ == (if std_same_path(input_dir@, "."@) {
            old(config).input_dir@
        } else {
            input_dir@
        }),
        final(config).output_dir@ == (if std_same_path(output_dir@, "./www"@) {
            old(config).output_dir@
        } else {
            output_dir@
        }),
        final(config).server.port == (match port {
            Some(p) if p != 7878 => p,
            _ => old(config).server.port,
        }),
        final(config).server.host == old(config).server.host,
        final(config).theme == old(config).theme,
        final(config).pagination == old(config).pagination,
        final(config).comments == old(config).comments,
        final(config).site_title == old(config).site_title,
{
    if !same_path(input_dir.as_str(), ".") {
        config.input_dir = input_dir;
    }
    if !same_path(output_dir.as_str(), "./www") {
        config.output_dir = output_dir;
    }
    if let Some(p) = port {
        if p != 7878 {
            config.server.port = p;
        }
    }
}

} // verus!
