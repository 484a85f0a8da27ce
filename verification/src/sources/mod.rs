//! The catalogue of lexicon data sources: identity, licensing class,
//! supported plugin kinds, fetch workflows, and the dispatch from a source to
//! its parser.

pub mod cldr;
pub mod common;
pub mod dbpedia;
pub mod wikidata;
pub mod discogs;
pub mod geonames;
pub mod getty;
pub mod gleif;
pub mod gnd;
pub mod musicbrainz;
pub mod natural_earth;
pub mod openstreetmap;
pub mod orcid;
pub mod ror;
pub mod ud_german_gsd;
pub mod wiktionary;

use vstd::prelude::*;
use crate::collections::{StringSet, set_listing, text_map, views};
use crate::json::{JsonModel, item_views, json_encode, json_pretty, opt_text, text_or};
use crate::lexicon::{
    LicenseMetadata, PreparedKind, PreparedLexicon, PreparedPayload, RecordModel, SourceMetadata,
    SourceRecord, record_views,
};
use crate::manifest::FetchedSourceManifest;
use crate::prepare::{canonical_map, multiword_map, ranked};
use crate::text::{contains_seq, occurs_at, starts_with, ascii_lowercase, ascii_uppercase, str_lowercase, to_ascii_lowercase, to_ascii_uppercase, to_lowercase, utf8_encode};
use vstd::string::*;

verus! {

/// A lexicon data source.
#[derive(Clone, Copy, Debug, PartialEq, Eq, Hash, Structural)]
pub enum SourceId {
    Wikidata,
    Geonames,
    Discogs,
    Gleif,
    Ror,
    Cldr,
    NaturalEarth,
    UdGermanGsd,
    Gnd,
    Orcid,
    Musicbrainz,
    Getty,
    Wiktionary,
    Dbpedia,
    Openstreetmap,
}

/// Licensing class of a source.
#[derive(Clone, Copy, Debug, PartialEq, Eq, Structural)]
pub enum SourceClass {
    Green,
    Yellow,
    Orange,
}

/// The opt-in flag a source with share-alike or database obligations needs.
#[derive(Clone, Copy, Debug, PartialEq, Eq, Structural)]
pub enum AckFlag {
    CcBySa,
    ShareAlike,
    Odbl,
}

/// Every source, in catalogue order.
pub open spec fn all_sources() -> Seq<SourceId> {
    seq![SourceId::Wikidata, SourceId::Geonames, SourceId::Discogs, SourceId::Gleif, SourceId::Ror, SourceId::Cldr, SourceId::NaturalEarth, SourceId::UdGermanGsd, SourceId::Gnd, SourceId::Orcid, SourceId::Musicbrainz, SourceId::Getty, SourceId::Wiktionary, SourceId::Dbpedia, SourceId::Openstreetmap]
}

/// The source's command-line name (`Display`).
pub open spec fn spec_source_name(id: SourceId) -> Seq<char> {
    match id {
            SourceId::Wikidata => "wikidata"@,
            SourceId::Geonames => "geonames"@,
            SourceId::Discogs => "discogs"@,
            SourceId::Gleif => "gleif"@,
            SourceId::Ror => "ror"@,
            SourceId::Cldr => "cldr"@,
            SourceId::NaturalEarth => "natural-earth"@,
            SourceId::UdGermanGsd => "ud-german-gsd"@,
            SourceId::Gnd => "gnd"@,
            SourceId::Orcid => "orcid"@,
            SourceId::Musicbrainz => "musicbrainz"@,
            SourceId::Getty => "getty"@,
            SourceId::Wiktionary => "wiktionary"@,
            SourceId::Dbpedia => "dbpedia"@,
            SourceId::Openstreetmap => "openstreetmap"@,
    }
}

impl SourceId {
    pub fn as_str(&self) -> (r: &'static str)
        ensures
            r@ == spec_source_name(*self),
    {
        match self {
            SourceId::Wikidata => "wikidata",
            SourceId::Geonames => "geonames",
            SourceId::Discogs => "discogs",
            SourceId::Gleif => "gleif",
            SourceId::Ror => "ror",
            SourceId::Cldr => "cldr",
            SourceId::NaturalEarth => "natural-earth",
            SourceId::UdGermanGsd => "ud-german-gsd",
            SourceId::Gnd => "gnd",
            SourceId::Orcid => "orcid",
            SourceId::Musicbrainz => "musicbrainz",
            SourceId::Getty => "getty",
            SourceId::Wiktionary => "wiktionary",
            SourceId::Dbpedia => "dbpedia",
            SourceId::Openstreetmap => "openstreetmap",
        }
    }
}

impl SourceClass {
    pub open spec fn spec_name(self) -> Seq<char> {
        match self {
            SourceClass::Green => "green"@,
            SourceClass::Yellow => "yellow"@,
            SourceClass::Orange => "orange"@,
        }
    }

    /// The class's name (`Display`).
    pub fn as_str(&self) -> (r: &'static str)
        ensures
            r@ == self.spec_name(),
    {
        match self {
            SourceClass::Green => "green",
            SourceClass::Yellow => "yellow",
            SourceClass::Orange => "orange",
        }
    }
}

impl AckFlag {
    pub open spec fn spec_text(self) -> Seq<char> {
        match self {
            AckFlag::CcBySa => "--acknowledge-cc-by-sa"@,
            AckFlag::ShareAlike => "--acknowledge-share-alike"@,
            AckFlag::Odbl => "--acknowledge-odbl"@,
        }
    }

    pub fn text(&self) -> (r: &'static str)
        ensures
            r@ == self.spec_text(),
    {
        match self {
            AckFlag::CcBySa => "--acknowledge-cc-by-sa",
            AckFlag::ShareAlike => "--acknowledge-share-alike",
            AckFlag::Odbl => "--acknowledge-odbl",
        }
    }
}

pub open spec fn spec_class(id: SourceId) -> SourceClass {
    match id {
        SourceId::Wikidata => SourceClass::Green,
        SourceId::Geonames => SourceClass::Yellow,
        SourceId::Discogs => SourceClass::Green,
        SourceId::Gleif => SourceClass::Green,
        SourceId::Ror => SourceClass::Green,
        SourceId::Cldr => SourceClass::Green,
        SourceId::NaturalEarth => SourceClass::Green,
        SourceId::UdGermanGsd => SourceClass::Orange,
        SourceId::Gnd => SourceClass::Green,
        SourceId::Orcid => SourceClass::Green,
        SourceId::Musicbrainz => SourceClass::Green,
        SourceId::Getty => SourceClass::Yellow,
        SourceId::Wiktionary => SourceClass::Orange,
        SourceId::Dbpedia => SourceClass::Orange,
        SourceId::Openstreetmap => SourceClass::Orange,
    }
}

pub open spec fn spec_ack_flag(id: SourceId) -> Option<AckFlag> {
    match id {
        SourceId::Wikidata => None,
        SourceId::Geonames => None,
        SourceId::Discogs => None,
        SourceId::Gleif => None,
        SourceId::Ror => None,
        SourceId::Cldr => None,
        SourceId::NaturalEarth => None,
        SourceId::UdGermanGsd => Some(AckFlag::CcBySa),
        SourceId::Gnd => None,
        SourceId::Orcid => None,
        SourceId::Musicbrainz => None,
        SourceId::Getty => None,
        SourceId::Wiktionary => Some(AckFlag::ShareAlike),
        SourceId::Dbpedia => Some(AckFlag::ShareAlike),
        SourceId::Openstreetmap => Some(AckFlag::Odbl),
    }
}

pub open spec fn spec_recommended(id: SourceId) -> bool {
    match id {
        SourceId::Wikidata => true,
        SourceId::Geonames => true,
        SourceId::Discogs => true,
        SourceId::Gleif => true,
        SourceId::Ror => true,
        SourceId::Cldr => true,
        SourceId::NaturalEarth => false,
        SourceId::UdGermanGsd => false,
        SourceId::Gnd => true,
        SourceId::Orcid => true,
        SourceId::Musicbrainz => true,
        SourceId::Getty => false,
        SourceId::Wiktionary => false,
        SourceId::Dbpedia => false,
        SourceId::Openstreetmap => false,
    }
}

pub open spec fn spec_plugin_kinds(id: SourceId) -> Seq<PreparedKind> {
    match id {
        SourceId::Wikidata => seq![PreparedKind::CanonicalMap, PreparedKind::MultiwordMap],
        SourceId::Geonames => seq![PreparedKind::CanonicalMap, PreparedKind::MultiwordMap],
        SourceId::Discogs => seq![PreparedKind::CanonicalMap, PreparedKind::MultiwordMap, PreparedKind::ProtectedForms],
        SourceId::Gleif => seq![PreparedKind::CanonicalMap, PreparedKind::MultiwordMap, PreparedKind::ProtectedForms],
        SourceId::Ror => seq![PreparedKind::CanonicalMap, PreparedKind::MultiwordMap],
        SourceId::Cldr => seq![PreparedKind::CanonicalMap, PreparedKind::MultiwordMap],
        SourceId::NaturalEarth => seq![PreparedKind::CanonicalMap, PreparedKind::MultiwordMap],
        SourceId::UdGermanGsd => seq![PreparedKind::RankedCandidates],
        SourceId::Gnd => seq![PreparedKind::CanonicalMap, PreparedKind::MultiwordMap, PreparedKind::ProtectedForms],
        SourceId::Orcid => seq![PreparedKind::CanonicalMap, PreparedKind::MultiwordMap],
        SourceId::Musicbrainz => seq![PreparedKind::CanonicalMap, PreparedKind::MultiwordMap, PreparedKind::ProtectedForms],
        SourceId::Getty => seq![PreparedKind::CanonicalMap, PreparedKind::MultiwordMap],
        SourceId::Wiktionary => seq![PreparedKind::WordSet, PreparedKind::RankedCandidates],
        SourceId::Dbpedia => seq![PreparedKind::CanonicalMap, PreparedKind::MultiwordMap],
        SourceId::Openstreetmap => seq![PreparedKind::CanonicalMap, PreparedKind::MultiwordMap],
    }
}

pub open spec fn spec_domain_tags(id: SourceId) -> Seq<Seq<char>> {
    match id {
        SourceId::Wikidata => seq!["proper-nouns"@, "multilingual"@, "entities"@],
        SourceId::Geonames => seq!["geography"@, "places"@],
        SourceId::Discogs => seq!["music"@, "media"@],
        SourceId::Gleif => seq!["organizations"@, "companies"@],
        SourceId::Ror => seq!["organizations"@, "research"@],
        SourceId::Cldr => seq!["locale"@, "names"@, "multilingual"@],
        SourceId::NaturalEarth => seq!["geography"@, "places"@],
        SourceId::UdGermanGsd => seq!["german"@, "ranking"@, "nlp"@],
        SourceId::Gnd => seq!["authority"@, "names"@, "german"@],
        SourceId::Orcid => seq!["people"@, "research"@],
        SourceId::Musicbrainz => seq!["music"@, "media"@],
        SourceId::Getty => seq!["arts"@, "culture"@],
        SourceId::Wiktionary => seq!["lexical"@, "hints"@],
        SourceId::Dbpedia => seq!["entities"@, "multilingual"@],
        SourceId::Openstreetmap => seq!["geography"@, "locality"@],
    }
}

/// Human-readable name.
pub open spec fn spec_display_name(id: SourceId) -> Seq<char> {
    match id {
            SourceId::Wikidata => "Wikidata"@,
            SourceId::Geonames => "GeoNames"@,
            SourceId::Discogs => "Discogs"@,
            SourceId::Gleif => "GLEIF"@,
            SourceId::Ror => "ROR"@,
            SourceId::Cldr => "Unicode CLDR"@,
            SourceId::NaturalEarth => "Natural Earth"@,
            SourceId::UdGermanGsd => "UD German GSD"@,
            SourceId::Gnd => "GND"@,
            SourceId::Orcid => "ORCID"@,
            SourceId::Musicbrainz => "MusicBrainz"@,
            SourceId::Getty => "Getty"@,
            SourceId::Wiktionary => "Wiktionary"@,
            SourceId::Dbpedia => "DBpedia"@,
            SourceId::Openstreetmap => "OpenStreetMap"@,
    }
}

/// License name.
pub open spec fn spec_license_name(id: SourceId) -> Seq<char> {
    match id {
            SourceId::Wikidata => "CC0"@,
            SourceId::Geonames => "GeoNames attribution"@,
            SourceId::Discogs => "CC0"@,
            SourceId::Gleif => "CC0"@,
            SourceId::Ror => "CC0"@,
            SourceId::Cldr => "Unicode License v3"@,
            SourceId::NaturalEarth => "public domain"@,
            SourceId::UdGermanGsd => "CC BY-SA 4.0"@,
            SourceId::Gnd => "CC0"@,
            SourceId::Orcid => "CC0"@,
            SourceId::Musicbrainz => "CC0"@,
            SourceId::Getty => "ODC-By 1.0"@,
            SourceId::Wiktionary => "CC BY-SA / GFDL"@,
            SourceId::Dbpedia => "share-alike derived data"@,
            SourceId::Openstreetmap => "ODbL"@,
    }
}

/// One-line license summary.
pub open spec fn spec_license_summary(id: SourceId) -> Seq<char> {
    match id {
            SourceId::Wikidata => "CC0 multilingual entity labels and aliases"@,
            SourceId::Geonames => "geographic names with attribution obligations"@,
            SourceId::Discogs => "CC0 monthly dumps of artists, labels, and releases"@,
            SourceId::Gleif => "global legal entity names from the LEI system"@,
            SourceId::Ror => "research organization names from the ROR registry"@,
            SourceId::Cldr => "language and territory display names per locale"@,
            SourceId::NaturalEarth => "world-scale country and city names, no attribution required"@,
            SourceId::UdGermanGsd => "optional German ranking hints with share-alike obligations"@,
            SourceId::Gnd => "authority names for persons, places, and works"@,
            SourceId::Orcid => "researcher and affiliation names"@,
            SourceId::Musicbrainz => "artists, bands, albums, and works"@,
            SourceId::Getty => "cultural and heritage vocabulary with attribution"@,
            SourceId::Wiktionary => "rich lexical hints with share-alike obligations"@,
            SourceId::Dbpedia => "broad entity graph with stronger obligations"@,
            SourceId::Openstreetmap => "fine-grained locality names with ODbL obligations"@,
    }
}

/// Anchor of the source's section in docs/sources.md.
pub open spec fn spec_docs_anchor(id: SourceId) -> Seq<char> {
    match id {
            SourceId::Wikidata => "#wikidata"@,
            SourceId::Geonames => "#geonames"@,
            SourceId::Discogs => "#discogs"@,
            SourceId::Gleif => "#gleif"@,
            SourceId::Ror => "#ror"@,
            SourceId::Cldr => "#cldr"@,
            SourceId::NaturalEarth => "#natural-earth"@,
            SourceId::UdGermanGsd => "#ud-german-gsd"@,
            SourceId::Gnd => "#gnd"@,
            SourceId::Orcid => "#orcid"@,
            SourceId::Musicbrainz => "#musicbrainz"@,
            SourceId::Getty => "#getty"@,
            SourceId::Wiktionary => "#wiktionary"@,
            SourceId::Dbpedia => "#dbpedia"@,
            SourceId::Openstreetmap => "#openstreetmap"@,
    }
}

/// What the source is good for.
pub open spec fn spec_purpose(id: SourceId) -> Seq<char> {
    match id {
            SourceId::Wikidata => "multilingual proper nouns and aliases"@,
            SourceId::Geonames => "geographical names and alternates"@,
            SourceId::Discogs => "music artist, label, and release names"@,
            SourceId::Gleif => "company and organization legal names"@,
            SourceId::Ror => "research organization and institution names"@,
            SourceId::Cldr => "language, country, and region display names"@,
            SourceId::NaturalEarth => "coarse geographic names without attribution obligations"@,
            SourceId::UdGermanGsd => "German ranked candidates"@,
            SourceId::Gnd => "authority-style proper nouns"@,
            SourceId::Orcid => "researcher and affiliation names"@,
            SourceId::Musicbrainz => "music and media proper nouns"@,
            SourceId::Getty => "culture and arts authority names"@,
            SourceId::Wiktionary => "lexical hints and candidate forms"@,
            SourceId::Dbpedia => "entity names and multilingual labels"@,
            SourceId::Openstreetmap => "local places, roads, and locality names"@,
    }
}

/// How a plugin built from the source may be shipped.
pub open spec fn spec_bundling_policy(id: SourceId) -> Seq<char> {
    match id {
            SourceId::Wikidata => "external plugin only"@,
            SourceId::Geonames => "external plugin only with attribution guidance"@,
            SourceId::Discogs => "external plugin only"@,
            SourceId::Gleif => "external plugin only"@,
            SourceId::Ror => "external plugin only"@,
            SourceId::Cldr => "external plugin only"@,
            SourceId::NaturalEarth => "external plugin only"@,
            SourceId::UdGermanGsd => "optional end-user plugin only"@,
            SourceId::Gnd => "external plugin only"@,
            SourceId::Orcid => "external plugin only"@,
            SourceId::Musicbrainz => "external plugin only"@,
            SourceId::Getty => "external plugin only with attribution guidance"@,
            SourceId::Wiktionary => "optional end-user plugin only"@,
            SourceId::Dbpedia => "optional end-user plugin only"@,
            SourceId::Openstreetmap => "optional end-user plugin only"@,
    }
}

/// How to fetch the source.
pub open spec fn spec_fetch_guidance(id: SourceId) -> Seq<char> {
    match id {
            SourceId::Wikidata => "URL-driven; point --url at a Wikidata entity export such as Special:EntityData/Q64.json or a curated entities JSON file"@,
            SourceId::Geonames => "built-in download; use --country for a national extract or omit it for allCountries"@,
            SourceId::Discogs => "URL-driven; point --url at a monthly dump from data.discogs.com, e.g. https://discogs-data-dumps.s3.us-west-2.amazonaws.com/data/2025/discogs_20250601_artists.xml.gz (the URL carries the dump date)"@,
            SourceId::Gleif => "URL-driven; point --url at a GLEIF golden copy or concatenated LEI file (zip, gz, or xml) from gleif.org/en/lei-data"@,
            SourceId::Ror => "URL-driven; point --url at the latest ROR data dump zip from Zenodo (https://doi.org/10.5281/zenodo.6347574)"@,
            SourceId::Cldr => "built-in download; requires --lang and fetches that locale's territory and language display names from cldr-json (pinned release)"@,
            SourceId::NaturalEarth => "built-in download; fetches world countries and populated places GeoJSON from a pinned Natural Earth release"@,
            SourceId::UdGermanGsd => "built-in download; fetches the UD German GSD r2.13 train/dev/test files"@,
            SourceId::Gnd => "URL-driven; point --url at a lobid.org GND record or search result JSON feed"@,
            SourceId::Orcid => "URL-driven; point --url at an ORCID public API personal-details document for a curated researcher set"@,
            SourceId::Musicbrainz => "URL-driven; point --url at a MusicBrainz ws/2 search result or entity JSON document"@,
            SourceId::Getty => "URL-driven; point --url at a Getty linked-art JSON record such as AAT or TGN"@,
            SourceId::Wiktionary => "built-in download; requires --lang and --acknowledge-share-alike, with Kaikki-backed editions for de/es/fr/it/nl/pl/pt/tr/cs and English words"@,
            SourceId::Dbpedia => "URL-driven; point --url at a DBpedia Lookup API result or a resource-graph JSON response"@,
            SourceId::Openstreetmap => "URL-driven; point --url at a Nominatim JSON search scoped to the locality set you need, and acknowledge ODbL"@,
    }
}

/// Whether the catalogue fetches a source itself.
pub open spec fn has_built_in_download(s: SourceId) -> bool {
    s == SourceId::Geonames || s == SourceId::UdGermanGsd || s == SourceId::NaturalEarth || s == SourceId::Cldr
        || s == SourceId::Wiktionary
}

/// A source's fetch guidance starts with "built-in download" exactly when
/// the source has a built-in fetch plan (one that succeeds for German);
/// every other source's guidance is URL-driven and names `--url`.
pub proof fn lemma_guidance_matches_fetch_plans(s: SourceId)
    ensures
        starts_with(spec_fetch_guidance(s), "built-in download"@) <==> has_built_in_download(s),
        has_built_in_download(s) <==> spec_fetch_plan(s, Some("de"@), None) is Ok,
        !has_built_in_download(s) ==> starts_with(spec_fetch_guidance(s), "URL-driven"@)
            && contains_seq(spec_fetch_guidance(s), "--url"@),
{
    reveal_strlit("built-in download");
    reveal_strlit("URL-driven");
    reveal_strlit("--url");
    reveal_strlit("de");
    assert(ascii_lowercase("de"@) =~= "de"@);
    let g = spec_fetch_guidance(s);
    match s {
        SourceId::Wikidata => {
            reveal_strlit("URL-driven; point --url at a Wikidata entity export such as Special:EntityData/Q64.json or a curated entities JSON file");
            assert(g.take(10) =~= "URL-driven"@);
            assert(g.subrange(18, 23) =~= "--url"@);
            assert(occurs_at(g, "--url"@, 18));
            assert(g.take(17)[0] != "built-in download"@[0]);
        },
        SourceId::Geonames => {
            reveal_strlit("built-in download; use --country for a national extract or omit it for allCountries");
            assert(g.take(17) =~= "built-in download"@);
        },
        SourceId::Discogs => {
            reveal_strlit("URL-driven; point --url at a monthly dump from data.discogs.com, e.g. https://discogs-data-dumps.s3.us-west-2.amazonaws.com/data/2025/discogs_20250601_artists.xml.gz (the URL carries the dump date)");
            assert(g.take(10) =~= "URL-driven"@);
            assert(g.subrange(18, 23) =~= "--url"@);
            assert(occurs_at(g, "--url"@, 18));
            assert(g.take(17)[0] != "built-in download"@[0]);
        },
        SourceId::Gleif => {
            reveal_strlit("URL-driven; point --url at a GLEIF golden copy or concatenated LEI file (zip, gz, or xml) from gleif.org/en/lei-data");
            assert(g.take(10) =~= "URL-driven"@);
            assert(g.subrange(18, 23) =~= "--url"@);
            assert(occurs_at(g, "--url"@, 18));
            assert(g.take(17)[0] != "built-in download"@[0]);
        },
        SourceId::Ror => {
            reveal_strlit("URL-driven; point --url at the latest ROR data dump zip from Zenodo (https://doi.org/10.5281/zenodo.6347574)");
            assert(g.take(10) =~= "URL-driven"@);
            assert(g.subrange(18, 23) =~= "--url"@);
            assert(occurs_at(g, "--url"@, 18));
            assert(g.take(17)[0] != "built-in download"@[0]);
        },
        SourceId::Cldr => {
            reveal_strlit("built-in download; requires --lang and fetches that locale's territory and language display names from cldr-json (pinned release)");
            assert(g.take(17) =~= "built-in download"@);
        },
        SourceId::NaturalEarth => {
            reveal_strlit("built-in download; fetches world countries and populated places GeoJSON from a pinned Natural Earth release");
            assert(g.take(17) =~= "built-in download"@);
        },
        SourceId::UdGermanGsd => {
            reveal_strlit("built-in download; fetches the UD German GSD r2.13 train/dev/test files");
            assert(g.take(17) =~= "built-in download"@);
        },
        SourceId::Gnd => {
            reveal_strlit("URL-driven; point --url at a lobid.org GND record or search result JSON feed");
            assert(g.take(10) =~= "URL-driven"@);
            assert(g.subrange(18, 23) =~= "--url"@);
            assert(occurs_at(g, "--url"@, 18));
            assert(g.take(17)[0] != "built-in download"@[0]);
        },
        SourceId::Orcid => {
            reveal_strlit("URL-driven; point --url at an ORCID public API personal-details document for a curated researcher set");
            assert(g.take(10) =~= "URL-driven"@);
            assert(g.subrange(18, 23) =~= "--url"@);
            assert(occurs_at(g, "--url"@, 18));
            assert(g.take(17)[0] != "built-in download"@[0]);
        },
        SourceId::Musicbrainz => {
            reveal_strlit("URL-driven; point --url at a MusicBrainz ws/2 search result or entity JSON document");
            assert(g.take(10) =~= "URL-driven"@);
            assert(g.subrange(18, 23) =~= "--url"@);
            assert(occurs_at(g, "--url"@, 18));
            assert(g.take(17)[0] != "built-in download"@[0]);
        },
        SourceId::Getty => {
            reveal_strlit("URL-driven; point --url at a Getty linked-art JSON record such as AAT or TGN");
            assert(g.take(10) =~= "URL-driven"@);
            assert(g.subrange(18, 23) =~= "--url"@);
            assert(occurs_at(g, "--url"@, 18));
            assert(g.take(17)[0] != "built-in download"@[0]);
        },
        SourceId::Wiktionary => {
            reveal_strlit("built-in download; requires --lang and --acknowledge-share-alike, with Kaikki-backed editions for de/es/fr/it/nl/pl/pt/tr/cs and English words");
            assert(g.take(17) =~= "built-in download"@);
        },
        SourceId::Dbpedia => {
            reveal_strlit("URL-driven; point --url at a DBpedia Lookup API result or a resource-graph JSON response");
            assert(g.take(10) =~= "URL-driven"@);
            assert(g.subrange(18, 23) =~= "--url"@);
            assert(occurs_at(g, "--url"@, 18));
            assert(g.take(17)[0] != "built-in download"@[0]);
        },
        SourceId::Openstreetmap => {
            reveal_strlit("URL-driven; point --url at a Nominatim JSON search scoped to the locality set you need, and acknowledge ODbL");
            assert(g.take(10) =~= "URL-driven"@);
            assert(g.subrange(18, 23) =~= "--url"@);
            assert(occurs_at(g, "--url"@, 18));
            assert(g.take(17)[0] != "built-in download"@[0]);
        },
    }
}

/// What the catalogue records about a source.
#[derive(Clone, Debug)]
pub struct SourceDescriptor {
    pub id: SourceId,
    pub display_name: &'static str,
    pub class: SourceClass,
    pub license_name: &'static str,
    pub license_summary: &'static str,
    pub acknowledgement_flag: Option<&'static str>,
    pub recommended: bool,
    pub plugin_kinds: Vec<PreparedKind>,
    pub domain_tags: Vec<&'static str>,
    pub docs_anchor: &'static str,
    pub purpose: &'static str,
    pub bundling_policy: &'static str,
}

pub open spec fn opt_str_view(o: Option<&'static str>) -> Option<Seq<char>> {
    match o {
        Some(s) => Some(s@),
        None => None,
    }
}

pub open spec fn ack_text(o: Option<AckFlag>) -> Option<Seq<char>> {
    match o {
        Some(f) => Some(f.spec_text()),
        None => None,
    }
}

pub open spec fn str_views(v: Seq<&'static str>) -> Seq<Seq<char>> {
    v.map_values(|s: &'static str| s@)
}

/// `d` is the catalogue entry of `id`.
pub open spec fn describes(d: SourceDescriptor, id: SourceId) -> bool {
    &&& d.id == id
    &&& d.display_name@ == spec_display_name(id)
    &&& d.class == spec_class(id)
    &&& d.license_name@ == spec_license_name(id)
    &&& d.license_summary@ == spec_license_summary(id)
    &&& opt_str_view(d.acknowledgement_flag) == ack_text(spec_ack_flag(id))
    &&& d.recommended == spec_recommended(id)
    &&& d.plugin_kinds@ == spec_plugin_kinds(id)
    &&& str_views(d.domain_tags@) == spec_domain_tags(id)
    &&& d.docs_anchor@ == spec_docs_anchor(id)
    &&& d.purpose@ == spec_purpose(id)
    &&& d.bundling_policy@ == spec_bundling_policy(id)
}

/// The catalogue entry of a source.
pub fn descriptor(id: SourceId) -> (r: SourceDescriptor)
    ensures
        describes(r, id),
{
    let r = match id {

        SourceId::Wikidata => SourceDescriptor {
            id: SourceId::Wikidata,
            display_name: "Wikidata",
            class: SourceClass::Green,
            license_name: "CC0",
            license_summary: "CC0 multilingual entity labels and aliases",
            acknowledgement_flag: None,
            recommended: true,
            plugin_kinds: vec![PreparedKind::CanonicalMap, PreparedKind::MultiwordMap],
            domain_tags: vec!["proper-nouns", "multilingual", "entities"],
            docs_anchor: "#wikidata",
            purpose: "multilingual proper nouns and aliases",
            bundling_policy: "external plugin only",
        },
        SourceId::Geonames => SourceDescriptor {
            id: SourceId::Geonames,
            display_name: "GeoNames",
            class: SourceClass::Yellow,
            license_name: "GeoNames attribution",
            license_summary: "geographic names with attribution obligations",
            acknowledgement_flag: None,
            recommended: true,
            plugin_kinds: vec![PreparedKind::CanonicalMap, PreparedKind::MultiwordMap],
            domain_tags: vec!["geography", "places"],
            docs_anchor: "#geonames",
            purpose: "geographical names and alternates",
            bundling_policy: "external plugin only with attribution guidance",
        },
        SourceId::Discogs => SourceDescriptor {
            id: SourceId::Discogs,
            display_name: "Discogs",
            class: SourceClass::Green,
            license_name: "CC0",
            license_summary: "CC0 monthly dumps of artists, labels, and releases",
            acknowledgement_flag: None,
            recommended: true,
            plugin_kinds: vec![PreparedKind::CanonicalMap, PreparedKind::MultiwordMap, PreparedKind::ProtectedForms],
            domain_tags: vec!["music", "media"],
            docs_anchor: "#discogs",
            purpose: "music artist, label, and release names",
            bundling_policy: "external plugin only",
        },
        SourceId::Gleif => SourceDescriptor {
            id: SourceId::Gleif,
            display_name: "GLEIF",
            class: SourceClass::Green,
            license_name: "CC0",
            license_summary: "global legal entity names from the LEI system",
            acknowledgement_flag: None,
            recommended: true,
            plugin_kinds: vec![PreparedKind::CanonicalMap, PreparedKind::MultiwordMap, PreparedKind::ProtectedForms],
            domain_tags: vec!["organizations", "companies"],
            docs_anchor: "#gleif",
            purpose: "company and organization legal names",
            bundling_policy: "external plugin only",
        },
        SourceId::Ror => SourceDescriptor {
            id: SourceId::Ror,
            display_name: "ROR",
            class: SourceClass::Green,
            license_name: "CC0",
            license_summary: "research organization names from the ROR registry",
            acknowledgement_flag: None,
            recommended: true,
            plugin_kinds: vec![PreparedKind::CanonicalMap, PreparedKind::MultiwordMap],
            domain_tags: vec!["organizations", "research"],
            docs_anchor: "#ror",
            purpose: "research organization and institution names",
            bundling_policy: "external plugin only",
        },
        SourceId::Cldr => SourceDescriptor {
            id: SourceId::Cldr,
            display_name: "Unicode CLDR",
            class: SourceClass::Green,
            license_name: "Unicode License v3",
            license_summary: "language and territory display names per locale",
            acknowledgement_flag: None,
            recommended: true,
            plugin_kinds: vec![PreparedKind::CanonicalMap, PreparedKind::MultiwordMap],
            domain_tags: vec!["locale", "names", "multilingual"],
            docs_anchor: "#cldr",
            purpose: "language, country, and region display names",
            bundling_policy: "external plugin only",
        },
        SourceId::NaturalEarth => SourceDescriptor {
            id: SourceId::NaturalEarth,
            display_name: "Natural Earth",
            class: SourceClass::Green,
            license_name: "public domain",
            license_summary: "world-scale country and city names, no attribution required",
            acknowledgement_flag: None,
            recommended: false,
            plugin_kinds: vec![PreparedKind::CanonicalMap, PreparedKind::MultiwordMap],
            domain_tags: vec!["geography", "places"],
            docs_anchor: "#natural-earth",
            purpose: "coarse geographic names without attribution obligations",
            bundling_policy: "external plugin only",
        },
        SourceId::UdGermanGsd => SourceDescriptor {
            id: SourceId::UdGermanGsd,
            display_name: "UD German GSD",
            class: SourceClass::Orange,
            license_name: "CC BY-SA 4.0",
            license_summary: "optional German ranking hints with share-alike obligations",
            acknowledgement_flag: Some("--acknowledge-cc-by-sa"),
            recommended: false,
            plugin_kinds: vec![PreparedKind::RankedCandidates],
            domain_tags: vec!["german", "ranking", "nlp"],
            docs_anchor: "#ud-german-gsd",
            purpose: "German ranked candidates",
            bundling_policy: "optional end-user plugin only",
        },
        SourceId::Gnd => SourceDescriptor {
            id: SourceId::Gnd,
            display_name: "GND",
            class: SourceClass::Green,
            license_name: "CC0",
            license_summary: "authority names for persons, places, and works",
            acknowledgement_flag: None,
            recommended: true,
            plugin_kinds: vec![PreparedKind::CanonicalMap, PreparedKind::MultiwordMap, PreparedKind::ProtectedForms],
            domain_tags: vec!["authority", "names", "german"],
            docs_anchor: "#gnd",
            purpose: "authority-style proper nouns",
            bundling_policy: "external plugin only",
        },
        SourceId::Orcid => SourceDescriptor {
            id: SourceId::Orcid,
            display_name: "ORCID",
            class: SourceClass::Green,
            license_name: "CC0",
            license_summary: "researcher and affiliation names",
            acknowledgement_flag: None,
            recommended: true,
            plugin_kinds: vec![PreparedKind::CanonicalMap, PreparedKind::MultiwordMap],
            domain_tags: vec!["people", "research"],
            docs_anchor: "#orcid",
            purpose: "researcher and affiliation names",
            bundling_policy: "external plugin only",
        },
        SourceId::Musicbrainz => SourceDescriptor {
            id: SourceId::Musicbrainz,
            display_name: "MusicBrainz",
            class: SourceClass::Green,
            license_name: "CC0",
            license_summary: "artists, bands, albums, and works",
            acknowledgement_flag: None,
            recommended: true,
            plugin_kinds: vec![PreparedKind::CanonicalMap, PreparedKind::MultiwordMap, PreparedKind::ProtectedForms],
            domain_tags: vec!["music", "media"],
            docs_anchor: "#musicbrainz",
            purpose: "music and media proper nouns",
            bundling_policy: "external plugin only",
        },
        SourceId::Getty => SourceDescriptor {
            id: SourceId::Getty,
            display_name: "Getty",
            class: SourceClass::Yellow,
            license_name: "ODC-By 1.0",
            license_summary: "cultural and heritage vocabulary with attribution",
            acknowledgement_flag: None,
            recommended: false,
            plugin_kinds: vec![PreparedKind::CanonicalMap, PreparedKind::MultiwordMap],
            domain_tags: vec!["arts", "culture"],
            docs_anchor: "#getty",
            purpose: "culture and arts authority names",
            bundling_policy: "external plugin only with attribution guidance",
        },
        SourceId::Wiktionary => SourceDescriptor {
            id: SourceId::Wiktionary,
            display_name: "Wiktionary",
            class: SourceClass::Orange,
            license_name: "CC BY-SA / GFDL",
            license_summary: "rich lexical hints with share-alike obligations",
            acknowledgement_flag: Some("--acknowledge-share-alike"),
            recommended: false,
            plugin_kinds: vec![PreparedKind::WordSet, PreparedKind::RankedCandidates],
            domain_tags: vec!["lexical", "hints"],
            docs_anchor: "#wiktionary",
            purpose: "lexical hints and candidate forms",
            bundling_policy: "optional end-user plugin only",
        },
        SourceId::Dbpedia => SourceDescriptor {
            id: SourceId::Dbpedia,
            display_name: "DBpedia",
            class: SourceClass::Orange,
            license_name: "share-alike derived data",
            license_summary: "broad entity graph with stronger obligations",
            acknowledgement_flag: Some("--acknowledge-share-alike"),
            recommended: false,
            plugin_kinds: vec![PreparedKind::CanonicalMap, PreparedKind::MultiwordMap],
            domain_tags: vec!["entities", "multilingual"],
            docs_anchor: "#dbpedia",
            purpose: "entity names and multilingual labels",
            bundling_policy: "optional end-user plugin only",
        },
        SourceId::Openstreetmap => SourceDescriptor {
            id: SourceId::Openstreetmap,
            display_name: "OpenStreetMap",
            class: SourceClass::Orange,
            license_name: "ODbL",
            license_summary: "fine-grained locality names with ODbL obligations",
            acknowledgement_flag: Some("--acknowledge-odbl"),
            recommended: false,
            plugin_kinds: vec![PreparedKind::CanonicalMap, PreparedKind::MultiwordMap],
            domain_tags: vec!["geography", "locality"],
            docs_anchor: "#openstreetmap",
            purpose: "local places, roads, and locality names",
            bundling_policy: "optional end-user plugin only",
        },
    };
    assert(str_views(r.domain_tags@) =~= spec_domain_tags(id));
    assert(r.plugin_kinds@ =~= spec_plugin_kinds(id));
    r
}

/// The whole catalogue, in catalogue order.
pub fn descriptors() -> (r: Vec<SourceDescriptor>)
    ensures
        r@.len() == all_sources().len(),
        forall|i: int| 0 <= i < r@.len() ==> describes(#[trigger] r@[i], all_sources()[i]),
{
    let ids = vec![SourceId::Wikidata, SourceId::Geonames, SourceId::Discogs, SourceId::Gleif, SourceId::Ror, SourceId::Cldr, SourceId::NaturalEarth, SourceId::UdGermanGsd, SourceId::Gnd, SourceId::Orcid, SourceId::Musicbrainz, SourceId::Getty, SourceId::Wiktionary, SourceId::Dbpedia, SourceId::Openstreetmap];
    assert(ids@ =~= all_sources());
    let mut out: Vec<SourceDescriptor> = Vec::new();
    for i in 0..ids.len()
        invariant
            ids@ == all_sources(),
            out@.len() == i,
            forall|k: int| 0 <= k < i ==> describes(#[trigger] out@[k], all_sources()[k]),
    {
        out.push(descriptor(ids[i]));
    }
    out
}

/// The opt-in flag a source needs, if any.
pub fn acknowledgement(id: SourceId) -> (r: Option<AckFlag>)
    ensures
        r == spec_ack_flag(id),
{
    match id {
        SourceId::Wikidata => None,
        SourceId::Geonames => None,
        SourceId::Discogs => None,
        SourceId::Gleif => None,
        SourceId::Ror => None,
        SourceId::Cldr => None,
        SourceId::NaturalEarth => None,
        SourceId::UdGermanGsd => Some(AckFlag::CcBySa),
        SourceId::Gnd => None,
        SourceId::Orcid => None,
        SourceId::Musicbrainz => None,
        SourceId::Getty => None,
        SourceId::Wiktionary => Some(AckFlag::ShareAlike),
        SourceId::Dbpedia => Some(AckFlag::ShareAlike),
        SourceId::Openstreetmap => Some(AckFlag::Odbl),
    }
}

/// Whether the source's opt-in flag, if it has one, was given.
pub open spec fn acknowledged(id: SourceId, cc_by_sa: bool, share_alike: bool, odbl: bool) -> bool {
    match spec_ack_flag(id) {
        Some(AckFlag::CcBySa) => cc_by_sa,
        Some(AckFlag::ShareAlike) => share_alike,
        Some(AckFlag::Odbl) => odbl,
        None => true,
    }
}

/// Exactly the orange sources need an acknowledgement flag: a green or
/// yellow source is always acknowledged, an orange one never without its
/// flag, and always with all three.
pub proof fn lemma_orange_sources_need_acknowledgement(id: SourceId, cc_by_sa: bool, share_alike: bool, odbl: bool)
    ensures
        spec_ack_flag(id) is Some <==> spec_class(id) == SourceClass::Orange,
        spec_class(id) != SourceClass::Orange ==> acknowledged(id, cc_by_sa, share_alike, odbl),
        spec_class(id) == SourceClass::Orange ==> !acknowledged(id, false, false, false) && acknowledged(id, true, true, true),
{
}

/// The error for a missing opt-in flag.
pub open spec fn missing_flag_message(f: AckFlag) -> Seq<char> {
    match f {
        AckFlag::CcBySa => "missing required --acknowledge-cc-by-sa flag"@,
        AckFlag::ShareAlike => "missing required --acknowledge-share-alike flag"@,
        AckFlag::Odbl => "missing required --acknowledge-odbl flag"@,
    }
}

/// Refuses a source whose opt-in flag was not given.
pub fn require_acknowledgement(
    source: SourceId,
    acknowledge_cc_by_sa: bool,
    acknowledge_share_alike: bool,
    acknowledge_odbl: bool,
) -> (r: Result<(), String>)
    ensures
        r is Ok <==> acknowledged(source, acknowledge_cc_by_sa, acknowledge_share_alike, acknowledge_odbl),
        r matches Err(m) ==> m@ == missing_flag_message(spec_ack_flag(source)->0),
{
    match acknowledgement(source) {
        Some(AckFlag::CcBySa) if !acknowledge_cc_by_sa => Err(
            String::from_str("missing required --acknowledge-cc-by-sa flag"),
        ),
        Some(AckFlag::ShareAlike) if !acknowledge_share_alike => Err(
            String::from_str("missing required --acknowledge-share-alike flag"),
        ),
        Some(AckFlag::Odbl) if !acknowledge_odbl => Err(
            String::from_str("missing required --acknowledge-odbl flag"),
        ),
        _ => Ok(()),
    }
}

/// The file extension a fetched payload of the source is written with.
pub open spec fn spec_extension(source: SourceId) -> Seq<char> {
    match source {
        SourceId::Geonames => "tsv"@,
        SourceId::UdGermanGsd => "conllu"@,
        SourceId::Wiktionary => "jsonl.gz"@,
        SourceId::Discogs => "xml.gz"@,
        SourceId::NaturalEarth => "geojson"@,
        SourceId::Gleif => "xml"@,
        _ => "json"@,
    }
}

/// The file name a fetched payload is written under.
pub open spec fn spec_output_name(source: SourceId, suffix: Seq<char>) -> Seq<char> {
    spec_source_name(source) + "-"@ + str_lowercase(suffix) + "."@ + spec_extension(source)
}

pub fn suggested_output_name(source: SourceId, suffix: &str) -> (r: String)
    ensures
        r@ == spec_output_name(source, suffix@),
{
    let extension = match source {
        SourceId::Geonames => "tsv",
        SourceId::UdGermanGsd => "conllu",
        SourceId::Wiktionary => "jsonl.gz",
        SourceId::Discogs => "xml.gz",
        SourceId::NaturalEarth => "geojson",
        SourceId::Gleif => "xml",
        _ => "json",
    };
    let mut out = String::from_str(source.as_str());
    out.append("-");
    let lower = to_lowercase(suffix);
    out.append(lower.as_str());
    out.append(".");
    out.append(extension);
    out
}

pub fn fetch_guidance(source: SourceId) -> (r: &'static str)
    ensures
        r@ == spec_fetch_guidance(source),
{
    match source {
        SourceId::Wikidata => "URL-driven; point --url at a Wikidata entity export such as Special:EntityData/Q64.json or a curated entities JSON file",
        SourceId::Geonames => "built-in download; use --country for a national extract or omit it for allCountries",
        SourceId::Discogs => "URL-driven; point --url at a monthly dump from data.discogs.com, e.g. https://discogs-data-dumps.s3.us-west-2.amazonaws.com/data/2025/discogs_20250601_artists.xml.gz (the URL carries the dump date)",
        SourceId::Gleif => "URL-driven; point --url at a GLEIF golden copy or concatenated LEI file (zip, gz, or xml) from gleif.org/en/lei-data",
        SourceId::Ror => "URL-driven; point --url at the latest ROR data dump zip from Zenodo (https://doi.org/10.5281/zenodo.6347574)",
        SourceId::Cldr => "built-in download; requires --lang and fetches that locale's territory and language display names from cldr-json (pinned release)",
        SourceId::NaturalEarth => "built-in download; fetches world countries and populated places GeoJSON from a pinned Natural Earth release",
        SourceId::UdGermanGsd => "built-in download; fetches the UD German GSD r2.13 train/dev/test files",
        SourceId::Gnd => "URL-driven; point --url at a lobid.org GND record or search result JSON feed",
        SourceId::Orcid => "URL-driven; point --url at an ORCID public API personal-details document for a curated researcher set",
        SourceId::Musicbrainz => "URL-driven; point --url at a MusicBrainz ws/2 search result or entity JSON document",
        SourceId::Getty => "URL-driven; point --url at a Getty linked-art JSON record such as AAT or TGN",
        SourceId::Wiktionary => "built-in download; requires --lang and --acknowledge-share-alike, with Kaikki-backed editions for de/es/fr/it/nl/pl/pt/tr/cs and English words",
        SourceId::Dbpedia => "URL-driven; point --url at a DBpedia Lookup API result or a resource-graph JSON response",
        SourceId::Openstreetmap => "URL-driven; point --url at a Nominatim JSON search scoped to the locality set you need, and acknowledge ODbL",
    }
}

/// Whether the fetched download must be normalized in memory (zip extraction,
/// JSON merge, or multi-file concatenation) before it can be written, versus a
/// single payload that is streamed straight to disk. Mirrors the non-default
/// arms of `normalize_download`.
pub open spec fn spec_requires_normalization(source: SourceId) -> bool {
    match source {
        SourceId::Geonames | SourceId::Cldr | SourceId::NaturalEarth | SourceId::Ror
        | SourceId::Gleif | SourceId::UdGermanGsd => true,
        _ => false,
    }
}

pub fn requires_normalization(source: SourceId) -> (r: bool)
    ensures
        r == spec_requires_normalization(source),
{
    match source {
        SourceId::Geonames | SourceId::Cldr | SourceId::NaturalEarth | SourceId::Ror
        | SourceId::Gleif | SourceId::UdGermanGsd => true,
        _ => false,
    }
}


// ---------------------------------------------------------------------------
// Built-in fetch workflows
// ---------------------------------------------------------------------------

/// What a built-in fetch downloads: the URL recorded as the payload's
/// origin, the URLs to fetch, the version recorded, and the suffix of the
/// output file's name.
#[derive(Clone, Debug)]
pub struct FetchPlan {
    pub source_url: String,
    pub urls: Vec<String>,
    pub version: String,
    pub output_suffix: String,
}

pub struct FetchPlanModel {
    pub source_url: Seq<char>,
    pub urls: Seq<Seq<char>>,
    pub version: Seq<char>,
    pub output_suffix: Seq<char>,
}

impl View for FetchPlan {
    type V = FetchPlanModel;

    open spec fn view(&self) -> FetchPlanModel {
        FetchPlanModel {
            source_url: self.source_url@,
            urls: views(self.urls@),
            version: self.version@,
            output_suffix: self.output_suffix@,
        }
    }
}

pub open spec fn geonames_url(code: Seq<char>) -> Seq<char> {
    "https://download.geonames.org/export/dump/"@ + code + ".zip"@
}

pub open spec fn ud_base() -> Seq<char> {
    "https://raw.githubusercontent.com/UniversalDependencies/UD_German-GSD/r2.13/"@
}

pub open spec fn no_workflow_message(source: SourceId) -> Seq<char> {
    spec_source_name(source) + " does not have a built-in fetch workflow; pass --url with a documented upstream endpoint"@
}

/// The built-in fetch of a source: GeoNames (one country, uppercased, or
/// all countries), UD German GSD (three files), Natural Earth (two layers),
/// CLDR and Wiktionary (one language, which they require). Other sources have
/// none.
pub open spec fn spec_fetch_plan(source: SourceId, lang: Option<Seq<char>>, country: Option<Seq<char>>) -> Result<FetchPlanModel, Seq<char>> {
    match source {
        SourceId::Geonames => {
            let (code, suffix) = match country {
                Some(c) => (ascii_uppercase(c), ascii_lowercase(c)),
                None => ("allCountries"@, "allcountries"@),
            };
            Ok(FetchPlanModel { source_url: geonames_url(code), urls: seq![geonames_url(code)], version: code, output_suffix: suffix })
        },
        SourceId::UdGermanGsd => Ok(FetchPlanModel {
            source_url: ud_base(),
            urls: seq![
                ud_base() + "de_gsd-ud-train.conllu"@,
                ud_base() + "de_gsd-ud-dev.conllu"@,
                ud_base() + "de_gsd-ud-test.conllu"@,
            ],
            version: "r2.13"@,
            output_suffix: "r2.13"@,
        }),
        SourceId::NaturalEarth => Ok(FetchPlanModel {
            source_url: natural_earth::download_base(),
            urls: seq![
                natural_earth::download_base() + "/ne_110m_admin_0_countries.geojson"@,
                natural_earth::download_base() + "/ne_10m_populated_places_simple.geojson"@,
            ],
            version: natural_earth::natural_earth_version(),
            output_suffix: "world"@,
        }),
        SourceId::Cldr => match lang {
            None => Err("cldr built-in fetch requires --lang"@),
            Some(l) => Ok(FetchPlanModel {
                source_url: cldr::download_base(l),
                urls: seq![cldr::download_base(l) + "/territories.json"@, cldr::download_base(l) + "/languages.json"@],
                version: cldr::cldr_json_version(),
                output_suffix: ascii_lowercase(l),
            }),
        },
        SourceId::Wiktionary => match lang {
            None => Err("wiktionary built-in fetch requires --lang"@),
            Some(l) => match wiktionary::spec_built_in_download(l) {
                Err(e) => Err(e),
                Ok((url, version)) => Ok(FetchPlanModel { source_url: url, urls: seq![url], version, output_suffix: ascii_lowercase(l) }),
            },
        },
        _ => Err(no_workflow_message(source)),
    }
}

pub fn built_in_fetch_plan(
    source: SourceId,
    lang: Option<&str>,
    country: Option<&str>,
    _region: Option<&str>,
) -> (r: Result<FetchPlan, String>)
    ensures
        match r {
            Ok(plan) => spec_fetch_plan(source, opt_text(lang), opt_text(country)) matches Ok(m) && plan@ == m,
            Err(e) => spec_fetch_plan(source, opt_text(lang), opt_text(country)) == Err::<FetchPlanModel, Seq<char>>(e@),
        },
{
    match source {
        SourceId::Geonames => {
            let (code, suffix) = match country {
                Some(c) => (to_ascii_uppercase(c), to_ascii_lowercase(c)),
                None => (String::from_str("allCountries"), String::from_str("allcountries")),
            };
            let mut url = String::from_str("https://download.geonames.org/export/dump/");
            url.append(code.as_str());
            url.append(".zip");
            let urls = vec![url.clone()];
            let plan = FetchPlan { source_url: url, urls, version: code, output_suffix: suffix };
            assert(plan@.urls =~= seq![plan@.source_url]);
            Ok(plan)
        },
        SourceId::UdGermanGsd => {
            let urls = vec![
                String::from_str("https://raw.githubusercontent.com/UniversalDependencies/UD_German-GSD/r2.13/de_gsd-ud-train.conllu"),
                String::from_str("https://raw.githubusercontent.com/UniversalDependencies/UD_German-GSD/r2.13/de_gsd-ud-dev.conllu"),
                String::from_str("https://raw.githubusercontent.com/UniversalDependencies/UD_German-GSD/r2.13/de_gsd-ud-test.conllu"),
            ];
            let plan = FetchPlan {
                source_url: String::from_str("https://raw.githubusercontent.com/UniversalDependencies/UD_German-GSD/r2.13/"),
                urls,
                version: String::from_str("r2.13"),
                output_suffix: String::from_str("r2.13"),
            };
            proof {
                reveal_strlit("https://raw.githubusercontent.com/UniversalDependencies/UD_German-GSD/r2.13/de_gsd-ud-train.conllu");
                reveal_strlit("https://raw.githubusercontent.com/UniversalDependencies/UD_German-GSD/r2.13/de_gsd-ud-dev.conllu");
                reveal_strlit("https://raw.githubusercontent.com/UniversalDependencies/UD_German-GSD/r2.13/de_gsd-ud-test.conllu");
                reveal_strlit("https://raw.githubusercontent.com/UniversalDependencies/UD_German-GSD/r2.13/");
                reveal_strlit("de_gsd-ud-train.conllu");
                reveal_strlit("de_gsd-ud-dev.conllu");
                reveal_strlit("de_gsd-ud-test.conllu");
                assert(plan@.urls[0] =~= ud_base() + "de_gsd-ud-train.conllu"@);
                assert(plan@.urls[1] =~= ud_base() + "de_gsd-ud-dev.conllu"@);
                assert(plan@.urls[2] =~= ud_base() + "de_gsd-ud-test.conllu"@);
                assert(plan@.urls =~= seq![
                    ud_base() + "de_gsd-ud-train.conllu"@,
                    ud_base() + "de_gsd-ud-dev.conllu"@,
                    ud_base() + "de_gsd-ud-test.conllu"@,
                ]);
            }
            Ok(plan)
        },
        SourceId::NaturalEarth => {
            let (source_url, urls) = natural_earth::built_in_download();
            let version = String::from_str(natural_earth::natural_earth_version_str());
            Ok(FetchPlan { source_url, urls, version, output_suffix: String::from_str("world") })
        },
        SourceId::Cldr => {
            let lang = match lang {
                Some(l) => l,
                None => return Err(String::from_str("cldr built-in fetch requires --lang")),
            };
            let (source_url, urls) = cldr::built_in_download(lang);
            Ok(FetchPlan {
                source_url,
                urls,
                version: String::from_str("47.0.0"),
                output_suffix: to_ascii_lowercase(lang),
            })
        },
        SourceId::Wiktionary => {
            let lang = match lang {
                Some(l) => l,
                None => return Err(String::from_str("wiktionary built-in fetch requires --lang")),
            };
            let (url, version) = match wiktionary::built_in_download(lang) {
                Ok(p) => p,
                Err(e) => return Err(e),
            };
            let urls = vec![url.clone()];
            let plan = FetchPlan { source_url: url, urls, version, output_suffix: to_ascii_lowercase(lang) };
            assert(plan@.urls =~= seq![plan@.source_url]);
            Ok(plan)
        },
        _ => {
            let mut m = String::from_str(source.as_str());
            m.append(" does not have a built-in fetch workflow; pass --url with a documented upstream endpoint");
            Err(m)
        },
    }
}

// ---------------------------------------------------------------------------
// Fetched payloads
// ---------------------------------------------------------------------------

/// GeoNames extracts are tab-separated tables whose reader this library does
/// not define; every operation on their content reports this.
pub open spec fn geonames_unreadable_message() -> Seq<char> {
    "GeoNames extracts cannot be read: their table layout is not defined"@
}

pub fn geonames_unreadable() -> (r: String)
    ensures
        r@ == geonames_unreadable_message(),
{
    String::from_str("GeoNames extracts cannot be read: their table layout is not defined")
}

pub open spec fn ends_with_newline(m: Seq<u8>) -> bool {
    m.len() > 0 && m.last() == 10u8
}

/// UD files concatenated, each ending in a line feed (one added where it is
/// missing).
pub open spec fn ud_concat(downloads: Seq<Seq<u8>>) -> Seq<u8>
    decreases downloads.len(),
{
    if downloads.len() == 0 {
        Seq::empty()
    } else {
        let merged = ud_concat(downloads.drop_last());
        let separated = if downloads.len() > 1 && !ends_with_newline(merged) {
            merged.push(10u8)
        } else {
            merged
        };
        let joined = separated + downloads.last();
        if !ends_with_newline(joined) {
            joined.push(10u8)
        } else {
            joined
        }
    }
}

pub open spec fn first_or(downloads: Seq<Seq<u8>>, message: Seq<char>) -> Result<Seq<u8>, Seq<char>> {
    if downloads.len() == 0 {
        Err(message)
    } else {
        Ok(downloads[0])
    }
}

/// What the fetched downloads become before they are written.
/// UD files are joined in order with a line feed after each: the joined
/// files end in one, and one more file is appended after them, with a line
/// feed added where it lacks one.
pub proof fn lemma_ud_files_joined(files: Seq<Seq<u8>>, more: Seq<u8>)
    ensures
        files.len() > 0 ==> ends_with_newline(ud_concat(files)),
        ud_concat(files.push(more)) == (if ends_with_newline(ud_concat(files) + more) {
            ud_concat(files) + more
        } else {
            (ud_concat(files) + more).push(10u8)
        }),
    decreases files.len(),
{
    if files.len() > 0 {
        lemma_ud_files_joined(files.drop_last(), files.last());
        assert(files.drop_last().push(files.last()) =~= files);
    } else {
        assert(Seq::<u8>::empty() + more =~= more);
    }
    assert(files.push(more).drop_last() =~= files);
}

pub open spec fn spec_normalize(source: SourceId, downloads: Seq<Seq<u8>>) -> Result<Seq<u8>, Seq<char>> {
    match source {
        SourceId::Geonames => match first_or(downloads, "GeoNames fetch returned no payload"@) {
            Err(e) => Err(e),
            Ok(_) => Err(geonames_unreadable_message()),
        },
        SourceId::Cldr => cldr::cldr_merge(downloads),
        SourceId::NaturalEarth => natural_earth::ne_merge(downloads),
        SourceId::Ror => match first_or(downloads, "ROR fetch returned no payload"@) {
            Err(e) => Err(e),
            Ok(p) => ror::ror_extract(p),
        },
        SourceId::Gleif => match first_or(downloads, "GLEIF fetch returned no payload"@) {
            Err(e) => Err(e),
            Ok(p) => gleif::gleif_extract(p),
        },
        SourceId::UdGermanGsd => Ok(ud_concat(downloads)),
        _ => first_or(downloads, "download returned no payload"@),
    }
}

fn ends_with_newline_exec(m: &Vec<u8>) -> (r: bool)
    ensures
        r == ends_with_newline(m@),
{
    m.len() > 0 && m[m.len() - 1] == 10u8
}

/// Turns the fetched downloads into the payload to write: GeoNames archives
/// are refused, CLDR and Natural Earth documents merged, the ROR and GLEIF
/// payload extracted from its archive, the UD files concatenated; any other
/// source's first download is its payload.
pub fn normalize_download(source: SourceId, downloads: Vec<Vec<u8>>) -> (r: Result<Vec<u8>, String>)
    ensures
        match r {
            Ok(v) => spec_normalize(source, item_views(downloads@)) == Ok::<Seq<u8>, Seq<char>>(v@),
            Err(e) => spec_normalize(source, item_views(downloads@)) == Err::<Seq<u8>, Seq<char>>(e@),
        },
{
    let ghost dv = item_views(downloads@);
    match source {
        SourceId::Geonames => {
            if downloads.len() == 0 {
                return Err(String::from_str("GeoNames fetch returned no payload"));
            }
            Err(geonames_unreadable())
        },
        SourceId::Cldr => cldr::merge(downloads),
        SourceId::NaturalEarth => natural_earth::merge(downloads),
        SourceId::Ror => {
            if downloads.len() == 0 {
                return Err(String::from_str("ROR fetch returned no payload"));
            }
            ror::extract_payload(downloads[0].as_slice())
        },
        SourceId::Gleif => {
            if downloads.len() == 0 {
                return Err(String::from_str("GLEIF fetch returned no payload"));
            }
            gleif::extract_payload(downloads[0].as_slice())
        },
        SourceId::UdGermanGsd => {
            let mut merged: Vec<u8> = Vec::new();
            assert(dv.take(0) =~= Seq::<Seq<u8>>::empty());
            for index in 0..downloads.len()
                invariant
                    dv == item_views(downloads@),
                    merged@ == ud_concat(dv.take(index as int)),
            {
                proof {
                    assert(dv.take(index + 1).drop_last() =~= dv.take(index as int));
                    assert(dv.take(index + 1).last() == dv[index as int]);
                }
                if index > 0 && !ends_with_newline_exec(&merged) {
                    merged.push(10u8);
                }
                let mut part = crate::json::copy_bytes_vec(downloads[index].as_slice());
                merged.append(&mut part);
                if !ends_with_newline_exec(&merged) {
                    merged.push(10u8);
                }
            }
            assert(dv.take(downloads.len() as int) =~= dv);
            Ok(merged)
        },
        _ => {
            if downloads.len() == 0 {
                return Err(String::from_str("download returned no payload"));
            }
            let mut downloads = downloads;
            Ok(downloads.swap_remove(0))
        },
    }
}

pub open spec fn unit_of(r: Result<Seq<RecordModel>, Seq<char>>) -> Result<(), Seq<char>> {
    match r {
        Ok(_) => Ok(()),
        Err(e) => Err(e),
    }
}

/// Whether a payload is one the source's parser accepts (for Wiktionary,
/// judged on its first entries; for UD German GSD, it must yield a noun).
pub open spec fn spec_validate(source: SourceId, bytes: Seq<u8>) -> Result<(), Seq<char>> {
    match source {
        SourceId::Geonames => Err(geonames_unreadable_message()),
        SourceId::Discogs => unit_of(discogs::discogs_parse(bytes)),
        SourceId::Gleif => unit_of(gleif::gleif_parse(bytes)),
        SourceId::Ror => unit_of(ror::ror_parse(bytes)),
        SourceId::Cldr => unit_of(cldr::cldr_parse(bytes)),
        SourceId::NaturalEarth => unit_of(natural_earth::ne_parse(bytes)),
        SourceId::UdGermanGsd => match ud_german_gsd::ud_parse(bytes) {
            Err(e) => Err(e),
            Ok(records) => if records.len() > 0 {
                Ok(())
            } else {
                Err(ud_german_gsd::empty_message())
            },
        },
        SourceId::Wikidata => unit_of(wikidata::wikidata_parse(bytes, None)),
        SourceId::Gnd => unit_of(gnd::gnd_parse(bytes)),
        SourceId::Orcid => unit_of(orcid::orcid_parse(bytes)),
        SourceId::Musicbrainz => unit_of(musicbrainz::musicbrainz_parse(bytes)),
        SourceId::Getty => unit_of(getty::getty_parse(bytes)),
        SourceId::Dbpedia => unit_of(dbpedia::dbpedia_parse(bytes)),
        SourceId::Openstreetmap => unit_of(openstreetmap::osm_parse(bytes)),
        SourceId::Wiktionary => unit_of(wiktionary::wikt_parse(bytes, None, Some(32))),
    }
}

fn unit_result(r: Result<Vec<SourceRecord>, String>) -> (u: Result<(), String>)
    ensures
        match u {
            Ok(()) => r is Ok,
            Err(e) => r matches Err(m) && m@ == e@,
        },
{
    match r {
        Ok(_) => Ok(()),
        Err(e) => Err(e),
    }
}

/// Checks that a payload is one the source's parser accepts.
pub fn validate_source_bytes(source: SourceId, bytes: &[u8]) -> (r: Result<(), String>)
    ensures
        match r {
            Ok(()) => spec_validate(source, bytes@) is Ok,
            Err(e) => spec_validate(source, bytes@) == Err::<(), Seq<char>>(e@),
        },
{
    match source {
        SourceId::Geonames => Err(geonames_unreadable()),
        SourceId::Discogs => discogs::validate(bytes),
        SourceId::Gleif => gleif::validate(bytes),
        SourceId::Ror => ror::validate(bytes),
        SourceId::Cldr => cldr::validate(bytes),
        SourceId::NaturalEarth => natural_earth::validate(bytes),
        SourceId::UdGermanGsd => ud_german_gsd::validate(bytes),
        SourceId::Wikidata => unit_result(wikidata::parse(bytes, None)),
        SourceId::Gnd => unit_result(gnd::parse(bytes)),
        SourceId::Orcid => unit_result(orcid::parse(bytes)),
        SourceId::Musicbrainz => unit_result(musicbrainz::parse(bytes)),
        SourceId::Getty => unit_result(getty::parse(bytes)),
        SourceId::Dbpedia => unit_result(dbpedia::parse(bytes)),
        SourceId::Openstreetmap => unit_result(openstreetmap::parse(bytes)),
        SourceId::Wiktionary => wiktionary::validate(bytes),
    }
}

pub open spec fn json_text(s: Seq<char>) -> Seq<u8> {
    json_encode(JsonModel::Text(s))
}

/// A source's deterministic sample payload. The language picks the sample's
/// language (its default differs by source), GeoNames takes the country,
/// OpenStreetMap the region.
pub open spec fn spec_sample(source: SourceId, lang: Option<Seq<char>>, country: Option<Seq<char>>, region: Option<Seq<char>>) -> Seq<u8> {
    match source {
        SourceId::Wikidata => json_pretty(wikidata::sample_compact(json_text(text_or(lang, "en"@)))),
        SourceId::Geonames => utf8_encode(geonames::sample_text(text_or(country, "XX"@))),
        SourceId::Discogs => utf8_encode(discogs::sample_text()),
        SourceId::Gleif => utf8_encode(gleif::sample_text()),
        SourceId::Ror => json_pretty(utf8_encode(ror::sample_compact())),
        SourceId::Cldr => json_pretty(cldr::sample_compact(json_text(text_or(lang, "de"@)))),
        SourceId::NaturalEarth => json_pretty(utf8_encode(natural_earth::sample_compact())),
        SourceId::UdGermanGsd => utf8_encode(ud_german_gsd::sample_text()),
        SourceId::Gnd => json_pretty(gnd::sample_compact(json_text(text_or(lang, "de"@)))),
        SourceId::Orcid => utf8_encode(orcid::sample_head() + text_or(lang, "en"@) + orcid::sample_tail()),
        SourceId::Musicbrainz => json_pretty(musicbrainz::sample_compact(json_text(text_or(lang, "en"@)))),
        SourceId::Getty => json_pretty(getty::sample_compact(json_text(text_or(lang, "en"@)))),
        SourceId::Wiktionary => wiktionary::sample_bytes(json_text(text_or(lang, "de"@))),
        SourceId::Dbpedia => json_pretty(dbpedia::sample_compact(json_text(text_or(lang, "en"@)))),
        SourceId::Openstreetmap => json_pretty(openstreetmap::sample_compact(json_text("name:"@ + text_or(region, "de"@)))),
    }
}

pub fn sample_payload(source: SourceId, lang: Option<&str>, country: Option<&str>, region: Option<&str>) -> (r: Vec<u8>)
    ensures
        r@ == spec_sample(source, opt_text(lang), opt_text(country), opt_text(region)),
{
    match source {
        SourceId::Wikidata => wikidata::sample(lang),
        SourceId::Geonames => geonames::sample(country),
        SourceId::Discogs => discogs::sample(lang),
        SourceId::Gleif => gleif::sample(lang),
        SourceId::Ror => ror::sample(lang),
        SourceId::Cldr => cldr::sample(lang),
        SourceId::NaturalEarth => natural_earth::sample(lang),
        SourceId::UdGermanGsd => ud_german_gsd::sample(),
        SourceId::Gnd => gnd::sample(lang),
        SourceId::Orcid => orcid::sample(lang),
        SourceId::Musicbrainz => musicbrainz::sample(lang),
        SourceId::Getty => getty::sample(lang),
        SourceId::Wiktionary => wiktionary::sample(lang),
        SourceId::Dbpedia => dbpedia::sample(lang),
        SourceId::Openstreetmap => openstreetmap::sample(region),
    }
}


// ---------------------------------------------------------------------------
// Preparing lexicons
// ---------------------------------------------------------------------------

pub open spec fn spec_kind_label(kind: PreparedKind) -> Seq<char> {
    match kind {
        PreparedKind::WordSet => "word-set"@,
        PreparedKind::CanonicalMap => "canonical-map"@,
        PreparedKind::MultiwordMap => "multiword-map"@,
        PreparedKind::RankedCandidates => "ranked-candidates"@,
        PreparedKind::ProtectedForms => "protected-forms"@,
    }
}

/// The kind's name in prepared lexicon names.
pub fn kind_label(kind: PreparedKind) -> (r: &'static str)
    ensures
        r@ == spec_kind_label(kind),
{
    match kind {
        PreparedKind::WordSet => "word-set",
        PreparedKind::CanonicalMap => "canonical-map",
        PreparedKind::MultiwordMap => "multiword-map",
        PreparedKind::RankedCandidates => "ranked-candidates",
        PreparedKind::ProtectedForms => "protected-forms",
    }
}

/// Every canonical form and alias, lowercased.
pub open spec fn words_of(records: Seq<RecordModel>) -> Set<Seq<char>>
    decreases records.len(),
{
    if records.len() == 0 {
        Set::empty()
    } else {
        let r = records.last();
        words_of(records.drop_last()).insert(str_lowercase(r.canonical)).union(
            r.aliases.map_values(|a: Seq<char>| str_lowercase(a)).to_set(),
        )
    }
}

/// The lowercased words of the records, once each, in ascending order.
pub fn build_word_set(records: &[SourceRecord]) -> (r: Vec<String>)
    ensures
        views(r@) == set_listing(words_of(record_views(records@))),
        crate::collections::sorted_listing(views(r@), words_of(record_views(records@))),
{
    let ghost rv = record_views(records@);
    let mut words = StringSet::new();
    assert(words.set() =~= words_of(rv.take(0)));
    for i in 0..records.len()
        invariant
            rv == record_views(records@),
            words.set() == words_of(rv.take(i as int)),
    {
        proof {
            assert(rv.take(i + 1).drop_last() =~= rv.take(i as int));
            assert(rv.take(i + 1).last() == records@[i as int]@);
        }
        let ghost before = words.set();
        words.insert(to_lowercase(records[i].canonical.as_str()));
        let ghost with_canonical = words.set();
        let aliases = &records[i].aliases;
        let ghost av = views(aliases@).map_values(|a: Seq<char>| str_lowercase(a));
        assert(words.set() =~= with_canonical.union(av.take(0).to_set()));
        for k in 0..aliases.len()
            invariant
                av == views(aliases@).map_values(|a: Seq<char>| str_lowercase(a)),
                words.set() == with_canonical.union(av.take(k as int).to_set()),
        {
            words.insert(to_lowercase(aliases[k].as_str()));
            proof {
                assert(av.take(k + 1) =~= av.take(k as int).push(av[k as int]));
                crate::collections::lemma_push_to_set(av.take(k as int), av[k as int]);
            }
            assert(words.set() =~= with_canonical.union(av.take(k + 1).to_set()));
        }
        assert(av.take(aliases.len() as int) =~= av);
    }
    assert(rv.take(records.len() as int) =~= rv);
    let ghost all = words.set();
    let listed = words.into_vec();
    proof {
        crate::collections::lemma_set_listing(views(listed@), all);
    }
    listed
}

pub open spec fn unsupported_kind_message(source: SourceId, kind: PreparedKind) -> Seq<char> {
    spec_source_name(source) + " does not support "@ + kind.spec_debug_name()
}

/// The records a payload yields for a source.
pub open spec fn spec_source_records(source: SourceId, bytes: Seq<u8>, lang: Option<Seq<char>>) -> Result<Seq<RecordModel>, Seq<char>> {
    match source {
        SourceId::Wikidata => wikidata::wikidata_parse(bytes, lang),
        SourceId::Geonames => Err(geonames_unreadable_message()),
        SourceId::Discogs => discogs::discogs_parse(bytes),
        SourceId::Gleif => gleif::gleif_parse(bytes),
        SourceId::Ror => ror::ror_parse(bytes),
        SourceId::Cldr => if lang is None {
            Err("cldr prepare requires --lang"@)
        } else {
            cldr::cldr_parse(bytes)
        },
        SourceId::NaturalEarth => natural_earth::ne_parse(bytes),
        SourceId::UdGermanGsd => ud_german_gsd::ud_parse(bytes),
        SourceId::Gnd => gnd::gnd_parse(bytes),
        SourceId::Orcid => orcid::orcid_parse(bytes),
        SourceId::Musicbrainz => musicbrainz::musicbrainz_parse(bytes),
        SourceId::Getty => getty::getty_parse(bytes),
        SourceId::Wiktionary => wiktionary::wikt_parse(bytes, lang, None),
        SourceId::Dbpedia => dbpedia::dbpedia_parse(bytes),
        SourceId::Openstreetmap => openstreetmap::osm_parse(bytes),
    }
}

/// The records a source is prepared from: refused unless the source offers
/// the kind.
pub open spec fn spec_prepare_records(source: SourceId, bytes: Seq<u8>, kind: PreparedKind, lang: Option<Seq<char>>) -> Result<Seq<RecordModel>, Seq<char>> {
    if !spec_plugin_kinds(source).contains(kind) {
        Err(unsupported_kind_message(source, kind))
    } else {
        spec_source_records(source, bytes, lang)
    }
}

/// The payload holds the kind's table, built from the records.
pub open spec fn payload_of(p: PreparedPayload, kind: PreparedKind, records: Seq<RecordModel>) -> bool {
    match p {
        PreparedPayload::WordSet(v) => kind == PreparedKind::WordSet && views(v@) == set_listing(words_of(records)),
        PreparedPayload::CanonicalMap(m) => kind == PreparedKind::CanonicalMap
            && text_map(m@) == canonical_map::canonical_map_of(records),
        PreparedPayload::MultiwordMap(m) => kind == PreparedKind::MultiwordMap
            && text_map(m@) == multiword_map::multiword_map_of(records),
        PreparedPayload::RankedCandidates(m) => kind == PreparedKind::RankedCandidates
            && ranked::candidate_map(m@) == ranked::ranked_of(records),
        PreparedPayload::ProtectedForms(m) => kind == PreparedKind::ProtectedForms
            && text_map(m@) == canonical_map::protected_map_of(records),
    }
}

pub open spec fn opt_string_view(o: Option<String>) -> Option<Seq<char>> {
    match o {
        Some(s) => Some(s@),
        None => None,
    }
}

pub open spec fn provenance_url(source: SourceId, provenance: Option<&FetchedSourceManifest>) -> Seq<char> {
    match provenance {
        Some(m) => m.source_url@,
        None => "https://docs.invalid/textcase/sources/"@ + spec_source_name(source),
    }
}

pub open spec fn provenance_version(provenance: Option<&FetchedSourceManifest>) -> Seq<char> {
    match provenance {
        Some(m) => m.version@,
        None => "user-supplied"@,
    }
}

/// A prepared lexicon's metadata: named `<source>-<kind>`, tagged with the
/// language ("und" without one), the source's license, and one source entry
/// whose URL and version come from the payload's provenance where there is
/// one.
pub open spec fn metadata_of(
    lex: PreparedLexicon,
    source: SourceId,
    kind: PreparedKind,
    lang: Option<Seq<char>>,
    provenance: Option<&FetchedSourceManifest>,
) -> bool {
    &&& lex.name@ == spec_source_name(source) + "-"@ + spec_kind_label(kind)
    &&& lex.kind == kind
    &&& lex.locale@ == text_or(lang, "und"@)
    &&& lex.license.name@ == spec_license_name(source)
    &&& lex.license.summary@ == spec_license_summary(source)
    &&& opt_string_view(lex.license.acknowledgement_flag) == ack_text(spec_ack_flag(source))
    &&& lex.sources@.len() == 1
    &&& lex.sources@[0].id@ == spec_source_name(source)
    &&& lex.sources@[0].display_name@ == spec_display_name(source)
    &&& lex.sources@[0].url@ == provenance_url(source, provenance)
    &&& lex.sources@[0].version@ == provenance_version(provenance)
    &&& lex.sources@[0].class@ == spec_class(source).spec_name()
    &&& lex.generated_at@ == "1970-01-01T00:00:00Z"@
}

fn parse_source(source: SourceId, bytes: &[u8], lang: Option<&str>) -> (r: Result<Vec<SourceRecord>, String>)
    ensures
        match r {
            Ok(records) => spec_source_records(source, bytes@, opt_text(lang)) == Ok::<Seq<RecordModel>, Seq<char>>(record_views(records@)),
            Err(e) => spec_source_records(source, bytes@, opt_text(lang)) == Err::<Seq<RecordModel>, Seq<char>>(e@),
        },
        (source == SourceId::UdGermanGsd || source == SourceId::Wiktionary) ==> (r matches Ok(records) ==>
            forall|i: int| 0 <= i < records@.len() ==> ranked::fixed_score(#[trigger] records@[i]@)),
{
    match source {
        SourceId::Wikidata => wikidata::parse(bytes, lang),
        SourceId::Geonames => Err(geonames_unreadable()),
        SourceId::Discogs => discogs::parse(bytes),
        SourceId::Gleif => gleif::parse(bytes),
        SourceId::Ror => ror::parse(bytes),
        SourceId::Cldr => {
            if lang.is_none() {
                return Err(String::from_str("cldr prepare requires --lang"));
            }
            cldr::parse(bytes)
        },
        SourceId::NaturalEarth => natural_earth::parse(bytes),
        SourceId::UdGermanGsd => ud_german_gsd::parse(bytes),
        SourceId::Gnd => gnd::parse(bytes),
        SourceId::Orcid => orcid::parse(bytes),
        SourceId::Musicbrainz => musicbrainz::parse(bytes),
        SourceId::Getty => getty::parse(bytes),
        SourceId::Wiktionary => wiktionary::parse(bytes, lang),
        SourceId::Dbpedia => dbpedia::parse(bytes),
        SourceId::Openstreetmap => openstreetmap::parse(bytes),
    }
}

fn kinds_contain(kinds: &Vec<PreparedKind>, kind: PreparedKind) -> (r: bool)
    ensures
        r == kinds@.contains(kind),
{
    for i in 0..kinds.len()
        invariant
            forall|k: int| 0 <= k < i ==> kinds@[k] != kind,
    {
        if kinds[i] == kind {
            assert(kinds@[i as int] == kind);
            return true;
        }
    }
    false
}

/// Parses a source payload and builds the requested kind of prepared
/// lexicon from its records.
pub fn prepare_source(
    source: SourceId,
    bytes: &[u8],
    kind: PreparedKind,
    lang: Option<&str>,
    provenance: Option<&FetchedSourceManifest>,
) -> (r: Result<PreparedLexicon, String>)
    ensures
        match r {
            Ok(lex) => spec_prepare_records(source, bytes@, kind, opt_text(lang)) matches Ok(records)
                && payload_of(lex.payload, kind, records)
                && metadata_of(lex, source, kind, opt_text(lang), provenance),
            Err(e) => spec_prepare_records(source, bytes@, kind, opt_text(lang)) == Err::<Seq<RecordModel>, Seq<char>>(e@),
        },
{
    let d = descriptor(source);
    if !kinds_contain(&d.plugin_kinds, kind) {
        let mut m = String::from_str(source.as_str());
        m.append(" does not support ");
        m.append(kind.debug_name());
        return Err(m);
    }
    let records = match parse_source(source, bytes, lang) {
        Ok(r) => r,
        Err(e) => return Err(e),
    };
    let payload = match kind {
        PreparedKind::CanonicalMap => PreparedPayload::CanonicalMap(canonical_map::build(records.as_slice())),
        PreparedKind::MultiwordMap => PreparedPayload::MultiwordMap(multiword_map::build(records.as_slice())),
        PreparedKind::ProtectedForms => PreparedPayload::ProtectedForms(canonical_map::build_protected(records.as_slice())),
        PreparedKind::WordSet => PreparedPayload::WordSet(build_word_set(records.as_slice())),
        PreparedKind::RankedCandidates => {
            assert(source == SourceId::UdGermanGsd || source == SourceId::Wiktionary);
            PreparedPayload::RankedCandidates(ranked::build(records.as_slice()))
        },
    };
    let mut name = String::from_str(source.as_str());
    name.append("-");
    name.append(kind_label(kind));
    let locale = String::from_str(crate::json::str_or(lang, "und"));
    let acknowledgement_flag = match d.acknowledgement_flag {
        Some(f) => Some(String::from_str(f)),
        None => None,
    };
    let url = match provenance {
        Some(m) => m.source_url.clone(),
        None => {
            let mut u = String::from_str("https://docs.invalid/textcase/sources/");
            u.append(source.as_str());
            u
        },
    };
    let version = match provenance {
        Some(m) => m.version.clone(),
        None => String::from_str("user-supplied"),
    };
    let meta = SourceMetadata {
        id: String::from_str(source.as_str()),
        display_name: String::from_str(d.display_name),
        url,
        version,
        class: String::from_str(d.class.as_str()),
    };
    let lex = PreparedLexicon {
        name,
        kind,
        locale,
        license: LicenseMetadata {
            name: String::from_str(d.license_name),
            summary: String::from_str(d.license_summary),
            acknowledgement_flag,
        },
        sources: vec![meta],
        generated_at: String::from_str("1970-01-01T00:00:00Z"),
        payload,
    };
    Ok(lex)
}

/// A source that needs no normalization gets its first download as its
/// payload, as the catch-all arm of `normalize_download` does; the sources
/// that do are exactly those with an arm of their own.
pub proof fn lemma_normalization_mirrors_download_arms(source: SourceId, downloads: Seq<Seq<u8>>)
    ensures
        !spec_requires_normalization(source) ==> spec_normalize(source, downloads) == first_or(
            downloads,
            "download returned no payload"@,
        ),
        spec_requires_normalization(source) <==> (source == SourceId::Geonames || source == SourceId::Cldr
            || source == SourceId::NaturalEarth || source == SourceId::Ror || source == SourceId::Gleif
            || source == SourceId::UdGermanGsd),
{
}

} // verus!
