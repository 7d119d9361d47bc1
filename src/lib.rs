//! Keeps a repository's secrets (config files and environment variables) in
//! a shared vault entry named after the repository's remote URL: the entry
//! title, the vault's listing, the entry body envelope, the note model and
//! the restore decisions.
use vstd::prelude::*;

pub mod command;
pub mod envelope;
pub mod listing;
pub mod naming;
pub mod note;
pub mod number;
pub mod repo;
pub mod restore;
pub mod text;

verus! {

} // verus!
