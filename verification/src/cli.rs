//! The structured command-line surface.
//!
//! Argument parsing is an external collaborator's concern: it hands the
//! program already-validated values.  These types are the shape of those
//! values; the process builds them at its edge and acts on them.

use vstd::prelude::*;

verus! {

/// A parsed invocation: one subcommand.
pub struct Cli {
    pub command: Commands,
}

/// The subcommands the program accepts.
pub enum Commands {
    Recipe(RecipeCommand),
    Config(ConfigCommand),
    Peer(PeerCommand),
}

/// Operations on the recipe catalog.
pub enum RecipeCommand {
    Add { title: String, servings: u32, time: String, tags: Vec<String> },
    Show { recipe_id: u64 },
    List { mine: bool, tag: Option<String> },
    Delete { recipe_id: u64 },
}

/// Operations on the stored configuration.  (`Put` writes one key; the
/// usual name for that operation collides with a word of the verifier.)
pub enum ConfigCommand {
    Get { key: String },
    Put { key: String, value: String },
    List,
}

/// Operations on the peer set.
pub enum PeerCommand {
    List,
    Connect { peer_id: String },
    Disconnect { peer_id: String },
}

} // verus!
