//! Manifest-driven file and directory templating.
//!
//! A manifest names a set of values (literal text or interactive prompts)
//! and a set of templates (a source tree and a destination). Deploying a
//! template walks its source entries, substitutes `{{name}}` references in
//! destination paths and text contents, and plans the writes under a
//! conflict policy. All file-system and console work is left to the caller;
//! this crate computes and checks every decision.

pub mod deploy;
pub mod manifest;
pub mod manifest_toml;
pub mod resolve;
pub mod subst;
pub mod text;

use vstd::prelude::*;

verus! {

/// True when every key of an association list is distinct from every other.
pub open spec fn keys_unique<T>(entries: Seq<(String, T)>) -> bool {
    forall|i: int, j: int|
        0 <= i < j < entries.len() ==> entries[i].0@ != entries[j].0@
}

} // verus!
