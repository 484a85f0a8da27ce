//! XML documents as event sequences.
//!
//! `quick_xml` reads a document (with text trimming on) into start, end, and
//! text events; the parsers are verified state machines over that sequence.

use vstd::prelude::*;
use flate2::read::GzDecoder;
use quick_xml::Reader;
use quick_xml::events::Event::{End, Eof, Start, Text};
use std::io::{BufRead, BufReader};
use vstd::string::*;
use crate::text::{decode_utf8, utf8_decode};

verus! {

/// One event of an XML document.
#[derive(Debug)]
pub enum XmlEvent {
    /// A start tag: its qualified name, and what reading its `type` attribute
    /// gave (`BytesStart::try_get_attribute("type")`).
    Start(Vec<u8>, Result<Option<Vec<u8>>, String>),
    /// An end tag and its qualified name.
    End(Vec<u8>),
    /// Character data, still escaped.
    Text(Vec<u8>),
    /// Anything else (empty-element tags, comments, CDATA, declarations, ...).
    Other,
}

pub enum XmlEventModel {
    Start(Seq<u8>, Result<Option<Seq<u8>>, Seq<char>>),
    End(Seq<u8>),
    Text(Seq<u8>),
    Other,
}

pub open spec fn attr_view(a: Result<Option<Vec<u8>>, String>) -> Result<Option<Seq<u8>>, Seq<char>> {
    match a {
        Ok(Some(v)) => Ok(Some(v@)),
        Ok(None) => Ok(None),
        Err(e) => Err(e@),
    }
}

impl View for XmlEvent {
    type V = XmlEventModel;

    open spec fn view(&self) -> XmlEventModel {
        match self {
            XmlEvent::Start(n, a) => XmlEventModel::Start(n@, attr_view(*a)),
            XmlEvent::End(n) => XmlEventModel::End(n@),
            XmlEvent::Text(t) => XmlEventModel::Text(t@),
            XmlEvent::Other => XmlEventModel::Other,
        }
    }
}

/// The events `quick_xml` reads from the bytes (with `trim_text(true)`) up to
/// the end of the document or up to its first read error, and that error's
/// message.
pub uninterp spec fn xml_tokens(bytes: Seq<u8>) -> (Seq<XmlEventModel>, Option<Seq<char>>);

/// The events `quick_xml` reads from the gzip stream the bytes hold,
/// decompressed as it reads (`flate2::read::GzDecoder`), up to the end of the
/// document or up to the first read or decompression error, and its message.
pub uninterp spec fn gzip_xml_tokens(bytes: Seq<u8>) -> (Seq<XmlEventModel>, Option<Seq<char>>);

/// A document being read one event at a time: a `quick_xml::Reader` (with
/// `trim_text(true)`) over the payload or over a gzip decoder of it, and its
/// event buffer. Nothing is read ahead, so a large payload is never held
/// decoded in memory.
#[verifier::external_body]
pub struct XmlReader<'a> {
    reader: Reader<Box<dyn BufRead + 'a>>,
    buf: Vec<u8>,
}

/// What a reader still delivers: its remaining events, and the message of
/// the read error that ends them (none where the document ends).
pub uninterp spec fn remaining_events(r: XmlReader) -> (Seq<XmlEventModel>, Option<Seq<char>>);

/// Opens a reader on the payload; it delivers `xml_tokens`.
#[verifier::external_body]
pub(crate) fn open_xml<'a>(bytes: &'a [u8]) -> (r: XmlReader<'a>)
    ensures
        remaining_events(r) == xml_tokens(bytes@),
{
    let input: Box<dyn BufRead + 'a> = Box::new(bytes);
    let mut reader = Reader::from_reader(input);
    reader.config_mut().trim_text(true);
    XmlReader { reader, buf: Vec::new() }
}

/// Opens a reader on the decompressed gzip payload; it delivers
/// `gzip_xml_tokens`.
#[verifier::external_body]
pub(crate) fn open_gzip_xml<'a>(bytes: &'a [u8]) -> (r: XmlReader<'a>)
    ensures
        remaining_events(r) == gzip_xml_tokens(bytes@),
{
    let input: Box<dyn BufRead + 'a> = Box::new(BufReader::new(GzDecoder::new(bytes)));
    let mut reader = Reader::from_reader(input);
    reader.config_mut().trim_text(true);
    XmlReader { reader, buf: Vec::new() }
}

/// Reads the next event with `Reader::read_event_into`: the first remaining
/// event, nothing at the end of the document, or the read error.
#[verifier::external_body]
pub(crate) fn next_event(r: &mut XmlReader) -> (e: Result<Option<XmlEvent>, String>)
    ensures
        remaining_events(*old(r)).0.len() > 0 ==> (e matches Ok(Some(x)) && x@ == remaining_events(*old(r)).0[0]
            && remaining_events(*final(r)) == (remaining_events(*old(r)).0.drop_first(), remaining_events(*old(r)).1)),
        remaining_events(*old(r)).0.len() == 0 ==> match remaining_events(*old(r)).1 {
            Some(m) => (e matches Err(x) && x@ == m),
            None => (e matches Ok(None)),
        },
{
    r.buf.clear();
    Ok(Some(match r.reader.read_event_into(&mut r.buf).map_err(|e| e.to_string())? {
        Start(e) => XmlEvent::Start(e.name().0.to_vec(), e.try_get_attribute("type")
            .map(|a| a.map(|a| a.value.to_vec())).map_err(|e| e.to_string())),
        End(e) => XmlEvent::End(e.name().0.to_vec()),
        Text(e) => XmlEvent::Text(e.to_vec()),
        Eof => return Ok(None),
        _ => XmlEvent::Other,
    }))
}

/// What `BytesText::unescape` gives for character data that is already text:
/// the text with its entity and character references resolved, or the
/// error's message.
pub uninterp spec fn xml_unescape(text: Seq<char>) -> Result<Seq<char>, Seq<char>>;

/// Resolves the references in character data with
/// `BytesText::from_escaped(..).unescape()`; the outcome is named `xml_unescape`.
#[verifier::external_body]
pub(crate) fn unescape_escaped(text: &str) -> (r: Result<String, String>)
    ensures
        match r {
            Ok(s) => xml_unescape(text@) == Ok::<Seq<char>, Seq<char>>(s@),
            Err(e) => xml_unescape(text@) == Err::<Seq<char>, Seq<char>>(e@),
        },
{
    let unescaped = quick_xml::events::BytesText::from_escaped(text).unescape();
    unescaped.map(|c| c.into_owned()).map_err(|e| e.to_string())
}

/// The message of quick-xml's error for character data that is not UTF-8
/// (`EncodingError::Utf8`), around std's message.
pub open spec fn not_utf8_message(e: Seq<char>) -> Seq<char> {
    "cannot decode input using UTF-8: "@ + e
}

/// What `BytesText::unescape` gives for the raw character data of a text
/// event: the data decoded as UTF-8, then its references resolved.
pub open spec fn xml_text(raw: Seq<u8>) -> Result<Seq<char>, Seq<char>> {
    match utf8_decode(raw) {
        Ok(t) => xml_unescape(t),
        Err(e) => Err(not_utf8_message(e)),
    }
}

/// Decodes and unescapes the raw character data of a text event.
pub(crate) fn unescape_text(raw: &[u8]) -> (r: Result<String, String>)
    ensures
        match r {
            Ok(s) => xml_text(raw@) == Ok::<Seq<char>, Seq<char>>(s@),
            Err(e) => xml_text(raw@) == Err::<Seq<char>, Seq<char>>(e@),
        },
{
    match decode_utf8(raw) {
        Ok(text) => unescape_escaped(text.as_str()),
        Err(e) => {
            let mut m = String::from_str("cannot decode input using UTF-8: ");
            m.append(e.as_str());
            Err(m)
        },
    }
}

/// The local part of a qualified name: after the first `:` (`QName::local_name`).
pub open spec fn local_part(name: Seq<u8>) -> Seq<u8>
    decreases name.len(),
{
    if name.len() == 0 {
        name
    } else if name[0] == 58u8 {
        name.drop_first()
    } else {
        local_part(name.drop_first())
    }
}

/// Whether a name has a namespace prefix.
pub open spec fn has_colon(name: Seq<u8>) -> bool {
    name.contains(58u8)
}

/// `QName::local_name`: the name after its first `:`, or the whole name.
pub open spec fn qname_local(name: Seq<u8>) -> Seq<u8> {
    if has_colon(name) {
        local_part(name)
    } else {
        name
    }
}

pub fn qname_local_name(name: &[u8]) -> (r: Vec<u8>)
    ensures
        r@ == qname_local(name@),
{
    let n = name.len();
    let mut i: usize = 0;
    assert(name@.skip(0) =~= name@);
    while i < n && name[i] != 58u8
        invariant
            n == name@.len(),
            i <= n,
            forall|k: int| 0 <= k < i ==> name@[k] != 58u8,
            local_part(name@) == local_part(name@.skip(i as int)),
        decreases n - i,
    {
        assert(name@.skip(i as int)[0] == name@[i as int]);
        assert(name@.skip(i as int).drop_first() =~= name@.skip(i + 1));
        i = i + 1;
    }
    if i == n {
        assert(!has_colon(name@));
        let mut out: Vec<u8> = Vec::new();
        for k in 0..n
            invariant
                n == name@.len(),
                out@ == name@.take(k as int),
        {
            out.push(name[k]);
            assert(out@ =~= name@.take(k + 1));
        }
        assert(name@.take(n as int) =~= name@);
        return out;
    }
    assert(name@[i as int] == 58u8);
    assert(has_colon(name@));
    assert(name@.skip(i as int)[0] == 58u8);
    assert(name@.skip(i as int).drop_first() =~= name@.skip(i + 1));
    let mut out: Vec<u8> = Vec::new();
    let mut k = i + 1;
    while k < n
        invariant
            n == name@.len(),
            i < n,
            i + 1 <= k <= n,
            out@ == name@.subrange(i + 1, k as int),
        decreases n - k,
    {
        out.push(name[k]);
        assert(out@ =~= name@.subrange(i + 1, k + 1));
        k = k + 1;
    }
    assert(name@.subrange(i + 1, n as int) =~= name@.skip(i + 1));
    out
}

pub fn bytes_eq(a: &[u8], b: &[u8]) -> (r: bool)
    ensures
        r == (a@ == b@),
{
    if a.len() != b.len() {
        return false;
    }
    for i in 0..a.len()
        invariant
            a@.len() == b@.len(),
            forall|k: int| 0 <= k < i ==> a@[k] == b@[k],
    {
        if a[i] != b[i] {
            return false;
        }
    }
    assert(a@ =~= b@);
    true
}

} // verus!
