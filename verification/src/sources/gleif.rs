//! GLEIF LEI-CDF XML payloads (golden copy or concatenated file).
//!
//! Each `LEIRecord` yields one record: the entity's `LegalName` plus its
//! other and transliterated names as aliases. Previous legal names are
//! skipped: mapping an old name to the current one would rewrite text, not
//! recase it.

use vstd::prelude::*;
use vstd::string::*;
use crate::archive::{
    copy_bytes, gunzip, gzip_decode, gzip_magic, is_gzip, is_zip, zip_data_at, zip_entry_count,
    zip_entry_data, zip_entry_name, zip_len, zip_magic, zip_name_at,
};
use crate::collections::{lemma_finite_set_listing, StringSet, set_listing};
use crate::sources::common::make_record;
use crate::lexicon::{RecordModel, Score, ScoreModel, SourceRecord, opt_view, record_model, record_views, aliases_tidy};
use crate::text::{chars_of, encode_utf8, ends_with, ends_with_str, is_mixed_case, mixed_case, trim, trim_str, utf8_encode};
use crate::xml::{
    XmlEvent, XmlEventModel, bytes_eq, qname_local, qname_local_name, unescape_text,
    next_event, open_xml, remaining_events, xml_tokens, xml_text,
};

verus! {

/// The parser's state between events.
pub struct GleifState {
    pub current: Seq<u8>,
    pub in_record: bool,
    pub skip_name: bool,
    pub records: Seq<RecordModel>,
    pub canonical: Option<Seq<char>>,
    pub aliases: Set<Seq<char>>,
}

pub open spec fn gleif_score(name: Seq<char>) -> nat {
    if mixed_case(name) {
        200
    } else {
        140
    }
}

pub open spec fn gleif_step(st: Result<GleifState, Seq<char>>, ev: XmlEventModel) -> Result<GleifState, Seq<char>> {
    match st {
        Err(e) => Err(e),
        Ok(s) => match ev {
            XmlEventModel::Start(name, type_attr) => {
                let current = qname_local(name);
                if current == "LEIRecord".spec_bytes() {
                    Ok(GleifState { current, in_record: true, canonical: None, aliases: Set::empty(), ..s })
                } else if current == "OtherEntityName".spec_bytes() {
                    match type_attr {
                        Err(e) => Err(e),
                        Ok(Some(v)) => Ok(GleifState { current, skip_name: v == "PREVIOUS_LEGAL_NAME".spec_bytes(), ..s }),
                        Ok(None) => Ok(GleifState { current, skip_name: false, ..s }),
                    }
                } else {
                    Ok(GleifState { current, ..s })
                }
            },
            XmlEventModel::End(name) => {
                if qname_local(name) == "LEIRecord".spec_bytes() {
                    match s.canonical {
                        Some(n) => Ok(GleifState {
                            current: Seq::empty(),
                            in_record: false,
                            records: s.records.push(record_model(
                                n,
                                set_listing(s.aliases.remove(n)),
                                ScoreModel::Hundredths(gleif_score(n)),
                            )),
                            canonical: None,
                            aliases: Set::empty(),
                            ..s
                        }),
                        None => Ok(GleifState { current: Seq::empty(), in_record: false, ..s }),
                    }
                } else {
                    Ok(GleifState { current: Seq::empty(), ..s })
                }
            },
            XmlEventModel::Text(raw) => {
                if !s.in_record {
                    Ok(s)
                } else {
                    match xml_text(raw) {
                        Err(e) => Err(e),
                        Ok(t) => {
                            let text = trim(t);
                            if text.len() == 0 {
                                Ok(s)
                            } else if s.current == "LegalName".spec_bytes() && s.canonical is None {
                                Ok(GleifState { canonical: Some(text), ..s })
                            } else if (s.current == "OtherEntityName".spec_bytes() && !s.skip_name)
                                || s.current == "TransliteratedOtherEntityName".spec_bytes() {
                                Ok(GleifState { aliases: s.aliases.insert(text), ..s })
                            } else {
                                Ok(s)
                            }
                        },
                    }
                }
            },
            XmlEventModel::Other => Ok(s),
        },
    }
}

proof fn lemma_tag_bytes_differ()
    ensures
        "OtherEntityName".spec_bytes().len() == 15,
        "LEIRecord".spec_bytes().len() == 9,
        "LegalName".spec_bytes().len() == 9,
        "TransliteratedOtherEntityName".spec_bytes().len() == 29,
        "LEIRecord".spec_bytes()[1] == 69u8,
        "LegalName".spec_bytes()[1] == 101u8,
{
    reveal_strlit("OtherEntityName");
    reveal_strlit("LEIRecord");
    reveal_strlit("LegalName");
    reveal_strlit("TransliteratedOtherEntityName");
    vstd::string::is_ascii_spec_bytes("OtherEntityName");
    vstd::string::is_ascii_spec_bytes("LEIRecord");
    vstd::string::is_ascii_spec_bytes("LegalName");
    vstd::string::is_ascii_spec_bytes("TransliteratedOtherEntityName");
}

/// Previous legal names are no aliases: after the start of an
/// `OtherEntityName` typed `PREVIOUS_LEGAL_NAME`, its text adds nothing;
/// typed otherwise (or untyped), its non-blank text inside a record is added,
/// trimmed, as an alias.
pub proof fn lemma_previous_names_skipped(s: GleifState, name: Seq<u8>, ty: Option<Seq<u8>>, raw: Seq<u8>)
    requires
        qname_local(name) == "OtherEntityName".spec_bytes(),
    ensures
        ty == Some("PREVIOUS_LEGAL_NAME".spec_bytes()) ==> (gleif_step(
            gleif_step(Ok(s), XmlEventModel::Start(name, Ok(ty))),
            XmlEventModel::Text(raw),
        ) matches Ok(t) ==> t.aliases == s.aliases),
        ty != Some("PREVIOUS_LEGAL_NAME".spec_bytes()) && s.in_record && (xml_text(raw) matches Ok(x) && trim(x).len()
            > 0) ==> gleif_step(gleif_step(Ok(s), XmlEventModel::Start(name, Ok(ty))), XmlEventModel::Text(raw))
            == Ok::<GleifState, Seq<char>>(GleifState {
            current: "OtherEntityName".spec_bytes(),
            skip_name: false,
            aliases: s.aliases.insert(trim(xml_text(raw)->Ok_0)),
            ..s
        }),
{
    reveal_strlit("OtherEntityName");
    reveal_strlit("LEIRecord");
    reveal_strlit("LegalName");
    reveal_strlit("TransliteratedOtherEntityName");
    lemma_tag_bytes_differ();
}

/// A record is named by the first non-blank text of a `LegalName` inside it:
/// that text, trimmed, becomes the name unless the record already has one.
pub proof fn lemma_legal_name_names_the_record(s: GleifState, name: Seq<u8>, attr: Result<Option<Seq<u8>>, Seq<char>>, raw: Seq<u8>)
    requires
        qname_local(name) == "LegalName".spec_bytes(),
        s.in_record,
        xml_text(raw) matches Ok(x) && trim(x).len() > 0,
    ensures
        gleif_step(gleif_step(Ok(s), XmlEventModel::Start(name, attr)), XmlEventModel::Text(raw)) matches Ok(t)
            && t.canonical == (if s.canonical is None {
            Some(trim(xml_text(raw)->Ok_0))
        } else {
            s.canonical
        }) && t.aliases == s.aliases,
{
    reveal_strlit("OtherEntityName");
    reveal_strlit("LEIRecord");
    reveal_strlit("LegalName");
    reveal_strlit("TransliteratedOtherEntityName");
    lemma_tag_bytes_differ();
}

/// The end of a named record appends one record with that name, listing
/// every collected alias other than the name, and starts afresh.
pub proof fn lemma_record_end_appends(s: GleifState, name: Seq<u8>, n: Seq<char>, a: Seq<char>)
    requires
        qname_local(name) == "LEIRecord".spec_bytes(),
        s.canonical == Some(n),
        s.aliases.finite(),
    ensures
        gleif_step(Ok(s), XmlEventModel::End(name)) matches Ok(t) && t.records.len() == s.records.len() + 1
            && t.records.take(s.records.len() as int) == s.records && t.records.last().canonical == n && (s.aliases.contains(
            a) && a != n ==> t.records.last().aliases.contains(a)) && !t.records.last().aliases.contains(n)
            && t.canonical is None && t.aliases.len() == 0 && !t.in_record,
{
    lemma_finite_set_listing(s.aliases.remove(n));
    let t = gleif_step(Ok(s), XmlEventModel::End(name))->Ok_0;
    assert(t.records.take(s.records.len() as int) =~= s.records);
}

pub open spec fn gleif_fold(events: Seq<XmlEventModel>) -> Result<GleifState, Seq<char>>
    decreases events.len(),
{
    if events.len() == 0 {
        Ok(GleifState {
            current: Seq::empty(),
            in_record: false,
            skip_name: false,
            records: Seq::empty(),
            canonical: None,
            aliases: Set::empty(),
        })
    } else {
        gleif_step(gleif_fold(events.drop_last()), events.last())
    }
}

pub open spec fn no_records_message() -> Seq<char> {
    "GLEIF payload did not yield any records"@
}

/// The records of a GLEIF payload.
pub open spec fn gleif_parse(bytes: Seq<u8>) -> Result<Seq<RecordModel>, Seq<char>> {
    let (events, read_error) = xml_tokens(bytes);
    match gleif_fold(events) {
        Err(e) => Err(e),
        Ok(s) => match read_error {
            Some(e) => Err(e),
            None => if s.records.len() == 0 {
                Err(no_records_message())
            } else {
                Ok(s.records)
            },
        },
    }
}

proof fn lemma_gleif_error_sticks(evs: Seq<XmlEventModel>, i: int, e: Seq<char>)
    requires
        0 <= i <= evs.len(),
        gleif_fold(evs.take(i)) == Err::<GleifState, Seq<char>>(e),
    ensures
        gleif_fold(evs) == Err::<GleifState, Seq<char>>(e),
    decreases evs.len() - i,
{
    if i < evs.len() {
        assert(evs.take(i + 1).drop_last() =~= evs.take(i));
        lemma_gleif_error_sticks(evs, i + 1, e);
    } else {
        assert(evs.take(i) =~= evs);
    }
}

/// Parses a GLEIF LEI-CDF payload into one record per `LEIRecord`.
pub fn parse(bytes: &[u8]) -> (r: Result<Vec<SourceRecord>, String>)
    ensures
        match r {
            Ok(records) => gleif_parse(bytes@) == Ok::<Seq<RecordModel>, Seq<char>>(record_views(records@)),
            Err(e) => gleif_parse(bytes@) == Err::<Seq<RecordModel>, Seq<char>>(e@),
        },
        r matches Ok(records) ==> aliases_tidy(record_views(records@)),
{
    let mut reader = open_xml(bytes);
    let ghost evs = xml_tokens(bytes@).0;
    let ghost end = xml_tokens(bytes@).1;
    let ghost mut i: int = 0;
    let mut finished = false;
    let mut current: Vec<u8> = Vec::new();
    let mut in_record = false;
    let mut skip_name = false;
    let mut records: Vec<SourceRecord> = Vec::new();
    let mut canonical: Option<String> = None;
    let mut aliases = StringSet::new();
    proof {
        assert(evs.take(0) =~= Seq::<XmlEventModel>::empty());
        assert(evs.skip(0) =~= evs);
        assert(current@ =~= Seq::<u8>::empty());
        assert(record_views(records@) =~= Seq::<RecordModel>::empty());
        assert(aliases.set() =~= Set::<Seq<char>>::empty());
    }
    while !finished
        invariant
            aliases_tidy(record_views(records@)),
            xml_tokens(bytes@) == (evs, end),
            0 <= i <= evs.len(),
            !finished ==> remaining_events(reader) == (evs.skip(i), end),
            finished ==> i == evs.len() && end is None,
            gleif_fold(evs.take(i)) == Ok::<GleifState, Seq<char>>(GleifState {
                current: current@,
                in_record,
                skip_name,
                records: record_views(records@),
                canonical: opt_view(canonical),
                aliases: aliases.set(),
            }),
        decreases evs.len() - i + if finished { 0int } else { 1int },
    {
        let event = match next_event(&mut reader) {
            Ok(Some(ev)) => ev,
            Ok(None) => {
                finished = true;
                continue;
            },
            Err(e) => {
                assert(evs.take(i) =~= evs);
                return Err(e);
            },
        };
        proof {
            assert(evs.skip(i)[0] == evs[i]);
            assert(evs.skip(i).drop_first() =~= evs.skip(i + 1));
            assert(evs.take(i + 1).drop_last() =~= evs.take(i));
            assert(evs.take(i + 1).last() == event@);
        }
        match &event {
            XmlEvent::Start(name, type_attr) => {
                current = qname_local_name(name.as_slice());
                if bytes_eq(current.as_slice(), "LEIRecord".as_bytes()) {
                    in_record = true;
                    canonical = None;
                    aliases.clear();
                    assert(aliases.set() =~= Set::<Seq<char>>::empty());
                } else if bytes_eq(current.as_slice(), "OtherEntityName".as_bytes()) {
                    match type_attr {
                        Err(e) => {
                            let msg = e.clone();
                            proof {
                                assert(gleif_fold(evs.take(i + 1)) == Err::<GleifState, Seq<char>>(msg@));
                                lemma_gleif_error_sticks(evs, i + 1, msg@);
                            }
                            return Err(msg);
                        },
                        Ok(Some(v)) => {
                            skip_name = bytes_eq(v.as_slice(), "PREVIOUS_LEGAL_NAME".as_bytes());
                        },
                        Ok(None) => {
                            skip_name = false;
                        },
                    }
                }
            },
            XmlEvent::End(name) => {
                let local = qname_local_name(name.as_slice());
                if bytes_eq(local.as_slice(), "LEIRecord".as_bytes()) {
                    in_record = false;
                    if canonical.is_some() {
                        let mut taken_name: Option<String> = None;
                        std::mem::swap(&mut taken_name, &mut canonical);
                        let n = taken_name.unwrap();
                        aliases.remove(n.as_str());
                        let mut taken = StringSet::new();
                        std::mem::swap(&mut taken, &mut aliases);
                        let score: u32 = if is_mixed_case(n.as_str()) {
                            200
                        } else {
                            140
                        };
                        let rec = make_record(n, taken, Score::Hundredths(score));
                        let ghost rv = record_views(records@);
                        records.push(rec);
                        assert(record_views(records@) =~= rv.push(rec@));
                        assert(aliases.set() =~= Set::<Seq<char>>::empty());
                    }
                }
                current = Vec::new();
                assert(current@ =~= Seq::<u8>::empty());
            },
            XmlEvent::Text(raw) => {
                if in_record {
                    let unescaped = match unescape_text(raw.as_slice()) {
                        Ok(t) => t,
                        Err(e) => {
                            proof {
                                assert(gleif_fold(evs.take(i + 1)) == Err::<GleifState, Seq<char>>(e@));
                                lemma_gleif_error_sticks(evs, i + 1, e@);
                            }
                            return Err(e);
                        },
                    };
                    let text = trim_str(unescaped.as_str());
                    let empty = chars_of(text.as_str()).len() == 0;
                    if !empty {
                        if bytes_eq(current.as_slice(), "LegalName".as_bytes()) && canonical.is_none() {
                            canonical = Some(text);
                        } else if (bytes_eq(current.as_slice(), "OtherEntityName".as_bytes()) && !skip_name)
                            || bytes_eq(current.as_slice(), "TransliteratedOtherEntityName".as_bytes()) {
                            aliases.insert(text);
                        }
                    }
                }
            },
            XmlEvent::Other => {},
        }
        proof {
            i = i + 1;
        }
    }
    proof {
        assert(evs.take(i) =~= evs);
    }
    if records.len() == 0 {
        return Err(String::from_str("GLEIF payload did not yield any records"));
    }
    Ok(records)
}

/// Accepts a payload that yields at least one record.
pub fn validate(bytes: &[u8]) -> (r: Result<(), String>)
    ensures
        r is Ok <==> gleif_parse(bytes@) is Ok,
        r matches Err(e) ==> gleif_parse(bytes@) == Err::<Seq<RecordModel>, Seq<char>>(e@),
{
    match parse(bytes) {
        Ok(_) => Ok(()),
        Err(e) => Err(e),
    }
}

pub open spec fn no_xml_message() -> Seq<char> {
    "GLEIF archive did not contain an .xml payload"@
}

/// The first entry from `index` on whose name ends in `.xml`, read out.
pub open spec fn first_xml_entry(bytes: Seq<u8>, index: nat, count: nat) -> Result<Seq<u8>, Seq<char>>
    decreases count - index,
{
    if index >= count {
        Err(no_xml_message())
    } else {
        match zip_entry_name(bytes, index) {
            Err(e) => Err(e),
            Ok(name) => if ends_with(name, ".xml"@) {
                zip_entry_data(bytes, index)
            } else {
                first_xml_entry(bytes, index + 1, count)
            },
        }
    }
}

/// The XML a GLEIF download carries: the first `.xml` entry of a zip archive
/// (golden copy, concatenated file), the contents of a gzip stream (delta
/// files), or the payload itself.
pub open spec fn gleif_extract(bytes: Seq<u8>) -> Result<Seq<u8>, Seq<char>> {
    if zip_magic(bytes) {
        match zip_len(bytes) {
            Err(e) => Err(e),
            Ok(n) => first_xml_entry(bytes, 0, n),
        }
    } else if gzip_magic(bytes) {
        gzip_decode(bytes)
    } else {
        Ok(bytes)
    }
}

pub fn extract_payload(bytes: &[u8]) -> (r: Result<Vec<u8>, String>)
    ensures
        match r {
            Ok(v) => gleif_extract(bytes@) == Ok::<Seq<u8>, Seq<char>>(v@),
            Err(e) => gleif_extract(bytes@) == Err::<Seq<u8>, Seq<char>>(e@),
        },
{
    if is_zip(bytes) {
        let count = match zip_entry_count(bytes) {
            Ok(n) => n,
            Err(e) => return Err(e),
        };
        let mut index: usize = 0;
        while index < count
            invariant
                zip_magic(bytes@),
                zip_len(bytes@) == Ok::<nat, Seq<char>>(count as nat),
                index <= count,
                gleif_extract(bytes@) == first_xml_entry(bytes@, index as nat, count as nat),
            decreases count - index,
        {
            let name = match zip_name_at(bytes, index) {
                Ok(n) => n,
                Err(e) => return Err(e),
            };
            if ends_with_str(name.as_str(), ".xml") {
                return zip_data_at(bytes, index);
            }
            index = index + 1;
        }
        return Err(String::from_str("GLEIF archive did not contain an .xml payload"));
    }
    if is_gzip(bytes) {
        return gunzip(bytes);
    }
    Ok(copy_bytes(bytes))
}

pub open spec fn sample_text() -> Seq<char> {
    "<lei:LEIData xmlns:lei=\"http://www.gleif.org/data/schema/leidata/2016\">\n  <lei:LEIRecords>\n    <lei:LEIRecord>\n      <lei:LEI>HWUPKR0MPOU8FGXBT394</lei:LEI>\n      <lei:Entity>\n        <lei:LegalName xml:lang=\"en\">Apple Inc.</lei:LegalName>\n        <lei:OtherEntityNames>\n          <lei:OtherEntityName type=\"PREVIOUS_LEGAL_NAME\">Apple Computer, Inc.</lei:OtherEntityName>\n        </lei:OtherEntityNames>\n      </lei:Entity>\n    </lei:LEIRecord>\n    <lei:LEIRecord>\n      <lei:LEI>529900T8BM49AURSDO55</lei:LEI>\n      <lei:Entity>\n        <lei:LegalName xml:lang=\"de\">Volkswagen Aktiengesellschaft</lei:LegalName>\n        <lei:OtherEntityNames>\n          <lei:OtherEntityName type=\"TRADING_OR_OPERATING_NAME\">Volkswagen AG</lei:OtherEntityName>\n        </lei:OtherEntityNames>\n      </lei:Entity>\n    </lei:LEIRecord>\n  </lei:LEIRecords>\n</lei:LEIData>\n"@
}

/// Two LEI records: one with a previous legal name, one with a trading name.
pub fn sample(_locale: Option<&str>) -> (r: Vec<u8>)
    ensures
        r@ == utf8_encode(sample_text()),
{
    encode_utf8("<lei:LEIData xmlns:lei=\"http://www.gleif.org/data/schema/leidata/2016\">\n  <lei:LEIRecords>\n    <lei:LEIRecord>\n      <lei:LEI>HWUPKR0MPOU8FGXBT394</lei:LEI>\n      <lei:Entity>\n        <lei:LegalName xml:lang=\"en\">Apple Inc.</lei:LegalName>\n        <lei:OtherEntityNames>\n          <lei:OtherEntityName type=\"PREVIOUS_LEGAL_NAME\">Apple Computer, Inc.</lei:OtherEntityName>\n        </lei:OtherEntityNames>\n      </lei:Entity>\n    </lei:LEIRecord>\n    <lei:LEIRecord>\n      <lei:LEI>529900T8BM49AURSDO55</lei:LEI>\n      <lei:Entity>\n        <lei:LegalName xml:lang=\"de\">Volkswagen Aktiengesellschaft</lei:LegalName>\n        <lei:OtherEntityNames>\n          <lei:OtherEntityName type=\"TRADING_OR_OPERATING_NAME\">Volkswagen AG</lei:OtherEntityName>\n        </lei:OtherEntityNames>\n      </lei:Entity>\n    </lei:LEIRecord>\n  </lei:LEIRecords>\n</lei:LEIData>\n")
}

} // verus!
