//! Verified core of the Epic Games Fab client: naming rules, engine version
//! handling, the Fab library cache annotations, job bookkeeping and the
//! decisions that the HTTP layer makes before it touches the filesystem.
use vstd::prelude::*;

pub mod assets;
pub mod create;
pub mod discovery;
pub mod download;
pub mod fab_cache;
pub mod jobs;
pub mod json;
pub mod launch;
pub mod listing;
pub mod models;
pub mod naming;
pub mod paths;
pub mod search;
pub mod settings;
pub mod text;
pub mod versions;

verus! {
} // verus!
