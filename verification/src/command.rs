//! The commands the client understands. The command-line front end maps its
//! own argument types onto these.

use vstd::prelude::*;

verus! {

/// The parsed command line.
#[derive(Clone, Debug)]
pub struct Args {
    pub command: Command,
}

/// One of the client's four commands; each carries its sole argument.
#[derive(Clone, Debug)]
pub enum Command {
    /// Print a bencoded value as structured text.
    Decode { value: String },
    /// Print a metainfo file's tracker URL, length, info hash and digests.
    Info { torrent: String },
    /// Print the tracker's peer list.
    Peers { torrent: String },
    /// Run the whole pipeline and write the payload.
    Download { torrent: String },
}

} // verus!
