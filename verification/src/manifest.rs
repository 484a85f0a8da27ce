//! Provenance records written beside fetched payloads and built plugins.

use vstd::prelude::*;
use crate::paths::{path_with_extension, with_extension};

verus! {

/// What `build-plugin` reports: the input and output paths, the plugin
/// format, and the output's checksum.
#[derive(Clone, Debug)]
pub struct OutputManifest {
    pub input: String,
    pub output: String,
    pub format: String,
    pub checksum: String,
}

/// Where a fetched payload came from: its source, URL, version, and whether
/// it is a generated sample.
#[derive(Clone, Debug)]
pub struct FetchedSourceManifest {
    pub source: String,
    pub source_url: String,
    pub version: String,
    pub sample: bool,
}

/// The provenance file of a fetched payload: the payload's path with its
/// extension replaced by `source.json`.
pub fn source_manifest_path(raw_path: &str) -> (r: String)
    ensures
        r@ == path_with_extension(raw_path@, "source.json"@),
{
    proof {
        reveal_strlit("source.json");
    }
    with_extension(raw_path, "source.json")
}

} // verus!
