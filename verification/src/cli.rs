//! The commands the program accepts.  Parsing the command line into these
//! values is the binary's business; the library only fixes their shape.

use vstd::prelude::*;
use crate::model::ArticleId;

verus! {

pub struct Args {
    pub subcommand: Commands,
}

pub enum Commands {
    /// Serve the HTTP API.
    Run {
        http_port: u16,
        http_host: String,
        cloudflare_support: bool,
        /// Kept for compatibility; the token is always read from stdin.
        read_bearer_token_from_stdin: bool,
    },
    /// Store one file's text as a new private article.
    Import {
        file_path: String,
        article_id: ArticleId,
    },
    /// Print the version.
    Version {
        plain: bool,
    },
}

} // verus!
