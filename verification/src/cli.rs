//! The command line's shape: commands and their arguments, as plain values.
//! Paths are kept as text.

use vstd::prelude::*;
use crate::lexicon::PreparedKind;
use crate::sources::SourceId;

verus! {

/// The `textcase` command line.
#[derive(Debug)]
pub struct Cli {
    pub command: Commands,
}

#[derive(Debug)]
pub enum Commands {
    Lexicon(LexiconArgs),
}

#[derive(Debug)]
pub struct LexiconArgs {
    pub command: LexiconCommand,
}

#[derive(Debug)]
pub enum LexiconCommand {
    /// List supported data sources.
    ListSources,
    /// Show licensing and workflow guidance for a source.
    ShowLicense { source: SourceId },
    /// Fetch source data from a production upstream source.
    Fetch(FetchArgs),
    /// Convert raw source input into a prepared lexicon file.
    Prepare(PrepareArgs),
    /// Build a JSON or FST plugin from a prepared lexicon file.
    BuildPlugin(BuildPluginArgs),
    /// Inspect a JSON or FST plugin file.
    InspectPlugin { path: String },
}

#[derive(Clone, Copy, Debug, PartialEq, Eq, Structural)]
pub enum PluginFormat {
    Json,
    Fst,
}

#[derive(Clone, Copy, Debug, PartialEq, Eq, Structural)]
pub enum PreparedKindArg {
    WordSet,
    CanonicalMap,
    MultiwordMap,
    RankedCandidates,
    ProtectedForms,
}

pub open spec fn spec_kind_of(value: PreparedKindArg) -> PreparedKind {
    match value {
        PreparedKindArg::WordSet => PreparedKind::WordSet,
        PreparedKindArg::CanonicalMap => PreparedKind::CanonicalMap,
        PreparedKindArg::MultiwordMap => PreparedKind::MultiwordMap,
        PreparedKindArg::RankedCandidates => PreparedKind::RankedCandidates,
        PreparedKindArg::ProtectedForms => PreparedKind::ProtectedForms,
    }
}

impl From<PreparedKindArg> for PreparedKind {
    fn from(value: PreparedKindArg) -> (r: Self) {
        match value {
            PreparedKindArg::WordSet => PreparedKind::WordSet,
            PreparedKindArg::CanonicalMap => PreparedKind::CanonicalMap,
            PreparedKindArg::MultiwordMap => PreparedKind::MultiwordMap,
            PreparedKindArg::RankedCandidates => PreparedKind::RankedCandidates,
            PreparedKindArg::ProtectedForms => PreparedKind::ProtectedForms,
        }
    }
}

impl vstd::std_specs::convert::FromSpecImpl<PreparedKindArg> for PreparedKind {
    open spec fn obeys_from_spec() -> bool {
        true
    }

    open spec fn from_spec(value: PreparedKindArg) -> PreparedKind {
        spec_kind_of(value)
    }
}

/// Arguments of `lexicon fetch`.
#[derive(Debug)]
pub struct FetchArgs {
    pub source: SourceId,
    pub lang: Option<String>,
    pub country: Option<String>,
    pub region: Option<String>,
    pub url: Option<String>,
    pub sample: bool,
    pub output_dir: String,
    pub acknowledge_cc_by_sa: bool,
    pub acknowledge_share_alike: bool,
    pub acknowledge_odbl: bool,
}

/// Arguments of `lexicon prepare`.
#[derive(Debug)]
pub struct PrepareArgs {
    pub source: SourceId,
    pub input: String,
    pub output: String,
    pub kind: PreparedKindArg,
    pub lang: Option<String>,
    pub acknowledge_cc_by_sa: bool,
    pub acknowledge_share_alike: bool,
    pub acknowledge_odbl: bool,
}

/// Arguments of `lexicon build-plugin`.
#[derive(Debug)]
pub struct BuildPluginArgs {
    pub input: String,
    pub format: PluginFormat,
    pub output: String,
}

} // verus!
