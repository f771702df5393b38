//! Configuration carried by value into the resolver and the orchestrator.
//!
//! The credentials are loaded once at startup by the surrounding program and
//! handed in as plain strings; no hidden global is consulted afterwards.
use vstd::prelude::*;

verus! {

/// The two credentials every extraction cycle needs: the personal access
/// token sent as a request header, and the key of the design file to read.
pub struct FigmaConfig {
    pub figma_access_token: String,
    pub figma_file_key: String,
}

impl FigmaConfig {
    /// Builds a configuration value from already-loaded credentials.
    pub fn new(figma_access_token: String, figma_file_key: String) -> (config: Self)
        ensures
            config.figma_access_token@ == figma_access_token@,
            config.figma_file_key@ == figma_file_key@,
    {
        FigmaConfig { figma_access_token, figma_file_key }
    }
}

} // verus!
