//! The command line of the extractor.

use vstd::prelude::*;
use std::path::PathBuf;

verus! {

/// `std::path::PathBuf`, the path of the scrape, held opaque: the library only carries it.
#[verifier::external_type_specification]
#[verifier::external_body]
pub struct ExPathBuf(PathBuf);

/// The options and arguments that the extractor is run with.
pub struct Args {
    /// The server (guild) ID; `--parse-websockets` needs it.
    pub guild_id: Option<String>,
    /// Whether to go through the gateway events for the server's icon, emojis and more.
    pub use_websockets: bool,
    /// The path of the scrape.
    pub file: PathBuf,
    /// The kind of scrape: `dht`, `discard2`, `plaintext` or `dce`.
    pub file_type: String,
}

} // verus!
