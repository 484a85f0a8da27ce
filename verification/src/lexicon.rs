//! Prepared lexicons: the kinds of lookup table a plugin can carry, and the
//! records that source parsers produce for the builders.

use vstd::prelude::*;
use crate::collections::{StringMap, strictly_sorted, views};

verus! {

/// The lookup table a prepared lexicon carries.
#[derive(Clone, Copy, Debug, PartialEq, Eq, Structural)]
pub enum PreparedKind {
    WordSet,
    CanonicalMap,
    MultiwordMap,
    RankedCandidates,
    ProtectedForms,
}

impl PreparedKind {
    /// The variant's name as `{:?}` prints it.
    pub open spec fn spec_debug_name(self) -> Seq<char> {
        match self {
            PreparedKind::WordSet => "WordSet"@,
            PreparedKind::CanonicalMap => "CanonicalMap"@,
            PreparedKind::MultiwordMap => "MultiwordMap"@,
            PreparedKind::RankedCandidates => "RankedCandidates"@,
            PreparedKind::ProtectedForms => "ProtectedForms"@,
        }
    }

    pub fn debug_name(&self) -> (r: &'static str)
        ensures
            r@ == self.spec_debug_name(),
    {
        match self {
            PreparedKind::WordSet => "WordSet",
            PreparedKind::CanonicalMap => "CanonicalMap",
            PreparedKind::MultiwordMap => "MultiwordMap",
            PreparedKind::RankedCandidates => "RankedCandidates",
            PreparedKind::ProtectedForms => "ProtectedForms",
        }
    }
}

/// How a record's ranking score is obtained. Most sources give a fixed
/// decimal score; three derive it from floating-point data, which is kept
/// here as the JSON number text and evaluated outside the library.
#[derive(Clone, Debug)]
pub enum Score {
    /// A decimal score in hundredths: `150` stands for 1.5.
    Hundredths(u32),
    /// A Natural Earth populated place: 2.0 plus log10(`pop_max`)/10 where the
    /// `pop_max` number (its JSON text) is positive, else 2.0.
    PopulatedPlace(Option<String>),
    /// A Nominatim result: 1.0 plus `importance` (any JSON number, else 0) plus
    /// `place_rank`/100 (an unsigned JSON integer, else 0).
    Nominatim { importance: Option<String>, place_rank: Option<String> },
    /// A DBpedia lookup result: the reported score text read as `f32`, or 1.0
    /// where there is none or it does not read as a number.
    Reported(Option<String>),
}

/// A score as plain values.
pub enum ScoreModel {
    Hundredths(nat),
    PopulatedPlace(Option<Seq<char>>),
    Nominatim(Option<Seq<char>>, Option<Seq<char>>),
    Reported(Option<Seq<char>>),
}

pub open spec fn opt_view(o: Option<String>) -> Option<Seq<char>> {
    match o {
        Some(s) => Some(s@),
        None => None,
    }
}

impl View for Score {
    type V = ScoreModel;

    open spec fn view(&self) -> ScoreModel {
        match self {
            Score::Hundredths(n) => ScoreModel::Hundredths(*n as nat),
            Score::PopulatedPlace(p) => ScoreModel::PopulatedPlace(opt_view(*p)),
            Score::Nominatim { importance, place_rank } => ScoreModel::Nominatim(
                opt_view(*importance),
                opt_view(*place_rank),
            ),
            Score::Reported(t) => ScoreModel::Reported(opt_view(*t)),
        }
    }
}

/// One name a source yields: its canonical form, other spellings or names
/// for it, and its ranking score.
#[derive(Clone, Debug)]
pub struct SourceRecord {
    pub canonical: String,
    pub aliases: Vec<String>,
    pub score: Score,
}

/// A record as plain values.
pub struct RecordModel {
    pub canonical: Seq<char>,
    pub aliases: Seq<Seq<char>>,
    pub score: ScoreModel,
}

impl View for SourceRecord {
    type V = RecordModel;

    open spec fn view(&self) -> RecordModel {
        RecordModel { canonical: self.canonical@, aliases: views(self.aliases@), score: self.score@ }
    }
}

pub open spec fn record_views(v: Seq<SourceRecord>) -> Seq<RecordModel> {
    v.map_values(|r: SourceRecord| r@)
}

pub open spec fn record_model(canonical: Seq<char>, aliases: Seq<Seq<char>>, score: ScoreModel) -> RecordModel {
    RecordModel { canonical, aliases, score }
}

/// Every record lists its aliases in ascending order, each once.
pub open spec fn aliases_sorted(rs: Seq<RecordModel>) -> bool {
    forall|i: int| 0 <= i < rs.len() ==> strictly_sorted(#[trigger] rs[i].aliases)
}

/// A record lists its aliases in ascending order, each once, and not its own
/// canonical form among them.
pub open spec fn record_tidy(r: RecordModel) -> bool {
    strictly_sorted(r.aliases) && !r.aliases.contains(r.canonical)
}

/// Every record is tidy.
pub open spec fn aliases_tidy(rs: Seq<RecordModel>) -> bool {
    forall|i: int| 0 <= i < rs.len() ==> record_tidy(#[trigger] rs[i])
}

/// A ranked candidate value and its score in hundredths.
#[derive(Clone, Debug)]
pub struct Candidate {
    pub value: String,
    pub score: u32,
}

/// The table a prepared lexicon carries.
pub enum PreparedPayload {
    WordSet(Vec<String>),
    CanonicalMap(StringMap<String>),
    MultiwordMap(StringMap<String>),
    RankedCandidates(StringMap<Vec<Candidate>>),
    ProtectedForms(StringMap<String>),
}

/// License facts carried by a prepared lexicon.
#[derive(Clone, Debug)]
pub struct LicenseMetadata {
    pub name: String,
    pub summary: String,
    pub acknowledgement_flag: Option<String>,
}

/// Provenance of one source of a prepared lexicon.
#[derive(Clone, Debug)]
pub struct SourceMetadata {
    pub id: String,
    pub display_name: String,
    pub url: String,
    pub version: String,
    pub class: String,
}

/// A prepared lexicon: metadata plus one lookup table.
pub struct PreparedLexicon {
    pub name: String,
    pub kind: PreparedKind,
    pub locale: String,
    pub license: LicenseMetadata,
    pub sources: Vec<SourceMetadata>,
    pub generated_at: String,
    pub payload: PreparedPayload,
}

} // verus!
