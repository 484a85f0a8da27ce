//! Text payloads read one line at a time.
//!
//! A payload (plain or gzip-compressed, decompressed by `flate2` as it is
//! read) is read with `BufRead::read_line`, so a large payload is never held
//! decoded in memory and reading stops where the caller stops.

use vstd::prelude::*;
use flate2::read::GzDecoder;
use std::io::{BufRead, BufReader};

verus! {

/// The lines `BufRead::read_line` reads from the bytes, each with its line
/// feed where it has one, up to the end of the input or up to the first read
/// error (such as text that is not UTF-8), and that error's message.
pub uninterp spec fn text_lines(bytes: Seq<u8>) -> (Seq<Seq<char>>, Option<Seq<char>>);

/// The lines `BufRead::read_line` reads from the gzip stream the bytes hold,
/// decompressed as it reads (`flate2::read::GzDecoder`), up to the end of the
/// stream or up to the first read or decompression error, and its message.
pub uninterp spec fn gzip_text_lines(bytes: Seq<u8>) -> (Seq<Seq<char>>, Option<Seq<char>>);

/// A payload being read one line at a time: a buffered reader over the bytes
/// or over a gzip decoder of them.
#[verifier::external_body]
pub struct LineReader<'a> {
    reader: Box<dyn BufRead + 'a>,
}

/// What a reader still delivers: its remaining lines, and the message of the
/// read error that ends them (none where the input ends).
pub uninterp spec fn remaining_lines(r: LineReader) -> (Seq<Seq<char>>, Option<Seq<char>>);

/// Opens a reader on the payload; it delivers `text_lines`.
#[verifier::external_body]
pub(crate) fn open_lines<'a>(bytes: &'a [u8]) -> (r: LineReader<'a>)
    ensures
        remaining_lines(r) == text_lines(bytes@),
{
    LineReader { reader: Box::new(bytes) }
}

/// Opens a reader on the decompressed gzip payload; it delivers
/// `gzip_text_lines`.
#[verifier::external_body]
pub(crate) fn open_gzip_lines<'a>(bytes: &'a [u8]) -> (r: LineReader<'a>)
    ensures
        remaining_lines(r) == gzip_text_lines(bytes@),
{
    LineReader { reader: Box::new(BufReader::new(GzDecoder::new(bytes))) }
}

/// Reads the next line with `BufRead::read_line` into an empty string: the
/// first remaining line (never empty, as `read_line` reads nothing only at
/// the end of the input), the empty string at the end, or the read error.
#[verifier::external_body]
pub(crate) fn next_line(r: &mut LineReader) -> (l: Result<String, String>)
    ensures
        remaining_lines(*old(r)).0.len() > 0 ==> (l matches Ok(x) && x@ == remaining_lines(*old(r)).0[0]
            && x@.len() > 0 && remaining_lines(*final(r)) == (remaining_lines(*old(r)).0.drop_first(), remaining_lines(*old(r)).1)),
        remaining_lines(*old(r)).0.len() == 0 ==> match remaining_lines(*old(r)).1 {
            Some(m) => (l matches Err(x) && x@ == m),
            None => (l matches Ok(x) && x@.len() == 0),
        },
{
    let mut line = String::new();
    r.reader.read_line(&mut line).map(|_| line).map_err(|e| e.to_string())
}

} // verus!
