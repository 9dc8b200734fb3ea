//! Core engine of a mod manager: it keeps the set of locally installed
//! mods for one game in sync with the user's remote subscriptions.
//!
//! The library holds the verified logic: the persisted manifest and its
//! binary encoding, the secret-splitting scheme for oversized tokens, the
//! reconciler that diffs subscriptions against the manifest, the per-mod
//! install state machine, and the bounded-concurrency pipeline scheduler.
//! File, network and secret-store I/O live outside, in the binary that
//! drives this library.

pub mod archive;
pub mod codec;
pub mod errors;
pub mod install;
pub mod manifest;
pub mod pipeline;
pub mod platform;
pub mod reconcile;
pub mod secret;
