//! Compressed payloads: gzip streams (`flate2`) and zip archives (`zip`).

use vstd::prelude::*;
use std::io::{Cursor, Read};

verus! {

/// What `flate2::read::GzDecoder` reads from the bytes: the decompressed
/// bytes, or the error's message.
pub uninterp spec fn gzip_decode(bytes: Seq<u8>) -> Result<Seq<u8>, Seq<char>>;

/// Reads the bytes through `flate2::read::GzDecoder` to the end; the outcome
/// is named `gzip_decode`.
#[verifier::external_body]
pub(crate) fn gunzip(bytes: &[u8]) -> (r: Result<Vec<u8>, String>)
    ensures
        match r {
            Ok(v) => gzip_decode(bytes@) == Ok::<Seq<u8>, Seq<char>>(v@),
            Err(e) => gzip_decode(bytes@) == Err::<Seq<u8>, Seq<char>>(e@),
        },
{
    let mut out = Vec::new();
    flate2::read::GzDecoder::new(bytes).read_to_end(&mut out).map_err(|e| e.to_string())?;
    Ok(out)
}

/// The number of entries `zip::ZipArchive` finds in the bytes, or the message
/// of its error.
pub uninterp spec fn zip_len(bytes: Seq<u8>) -> Result<nat, Seq<char>>;

/// Opens the bytes with `zip::ZipArchive::new` and calls `len`; the outcome is
/// named `zip_len`.
#[verifier::external_body]
pub(crate) fn zip_entry_count(bytes: &[u8]) -> (r: Result<usize, String>)
    ensures
        match r {
            Ok(n) => zip_len(bytes@) == Ok::<nat, Seq<char>>(n as nat),
            Err(e) => zip_len(bytes@) == Err::<nat, Seq<char>>(e@),
        },
{
    let archive = zip::ZipArchive::new(Cursor::new(bytes)).map_err(|e| e.to_string())?;
    Ok(archive.len())
}

/// The names of the archive's entries, in the order `ZipArchive::file_names`
/// walks them (empty where the archive does not open).
pub uninterp spec fn zip_names(bytes: Seq<u8>) -> Seq<Seq<char>>;

/// Collects `ZipArchive::file_names`; the names are named `zip_names`.
#[verifier::external_body]
pub(crate) fn zip_file_names(bytes: &[u8]) -> (r: Vec<String>)
    ensures
        r@.map_values(|s: String| s@) == zip_names(bytes@),
{
    match zip::ZipArchive::new(Cursor::new(bytes)) {
        Ok(archive) => archive.file_names().map(|n| n.to_string()).collect(),
        Err(_) => Vec::new(),
    }
}

/// The name of entry `index` (`ZipArchive::by_index(index)?.name()`), or the
/// message of the error opening the archive or the entry.
pub uninterp spec fn zip_entry_name(bytes: Seq<u8>, index: nat) -> Result<Seq<char>, Seq<char>>;

/// Opens entry `index` with `ZipArchive::by_index` and reads its name; the
/// outcome is named `zip_entry_name`.
#[verifier::external_body]
pub(crate) fn zip_name_at(bytes: &[u8], index: usize) -> (r: Result<String, String>)
    ensures
        match r {
            Ok(n) => zip_entry_name(bytes@, index as nat) == Ok::<Seq<char>, Seq<char>>(n@),
            Err(e) => zip_entry_name(bytes@, index as nat) == Err::<Seq<char>, Seq<char>>(e@),
        },
{
    let mut archive = zip::ZipArchive::new(Cursor::new(bytes)).map_err(|e| e.to_string())?;
    let file = archive.by_index(index).map_err(|e| e.to_string())?;
    Ok(file.name().to_string())
}

/// The contents of entry `index`, or the message of the error opening or
/// reading it.
pub uninterp spec fn zip_entry_data(bytes: Seq<u8>, index: nat) -> Result<Seq<u8>, Seq<char>>;

/// Opens entry `index` with `ZipArchive::by_index` and reads it to the end;
/// the outcome is named `zip_entry_data`.
#[verifier::external_body]
pub(crate) fn zip_data_at(bytes: &[u8], index: usize) -> (r: Result<Vec<u8>, String>)
    ensures
        match r {
            Ok(v) => zip_entry_data(bytes@, index as nat) == Ok::<Seq<u8>, Seq<char>>(v@),
            Err(e) => zip_entry_data(bytes@, index as nat) == Err::<Seq<u8>, Seq<char>>(e@),
        },
{
    let mut archive = zip::ZipArchive::new(Cursor::new(bytes)).map_err(|e| e.to_string())?;
    let mut file = archive.by_index(index).map_err(|e| e.to_string())?;
    let mut out = Vec::new();
    file.read_to_end(&mut out).map_err(|e| e.to_string())?;
    Ok(out)
}

/// The contents of the entry named `name`, or the message of the error
/// opening or reading it.
pub uninterp spec fn zip_named_data(bytes: Seq<u8>, name: Seq<char>) -> Result<Seq<u8>, Seq<char>>;

/// Opens the entry with `ZipArchive::by_name` and reads it to the end; the
/// outcome is named `zip_named_data`.
#[verifier::external_body]
pub(crate) fn zip_data_named(bytes: &[u8], name: &str) -> (r: Result<Vec<u8>, String>)
    ensures
        match r {
            Ok(v) => zip_named_data(bytes@, name@) == Ok::<Seq<u8>, Seq<char>>(v@),
            Err(e) => zip_named_data(bytes@, name@) == Err::<Seq<u8>, Seq<char>>(e@),
        },
{
    let mut archive = zip::ZipArchive::new(Cursor::new(bytes)).map_err(|e| e.to_string())?;
    let mut file = archive.by_name(name).map_err(|e| e.to_string())?;
    let mut out = Vec::new();
    file.read_to_end(&mut out).map_err(|e| e.to_string())?;
    Ok(out)
}

/// Whether the bytes start with the gzip magic number 1f 8b.
pub open spec fn gzip_magic(bytes: Seq<u8>) -> bool {
    bytes.len() >= 2 && bytes[0] == 0x1fu8 && bytes[1] == 0x8bu8
}

/// Whether the bytes start with the zip signature `PK`.
pub open spec fn zip_magic(bytes: Seq<u8>) -> bool {
    bytes.len() >= 2 && bytes[0] == 80u8 && bytes[1] == 75u8
}

pub fn is_gzip(bytes: &[u8]) -> (r: bool)
    ensures
        r == gzip_magic(bytes@),
{
    bytes.len() >= 2 && bytes[0] == 0x1f && bytes[1] == 0x8b
}

pub fn is_zip(bytes: &[u8]) -> (r: bool)
    ensures
        r == zip_magic(bytes@),
{
    bytes.len() >= 2 && bytes[0] == 80 && bytes[1] == 75
}

pub fn copy_bytes(bytes: &[u8]) -> (r: Vec<u8>)
    ensures
        r@ == bytes@,
{
    let mut out: Vec<u8> = Vec::new();
    for i in 0..bytes.len()
        invariant
            out@ == bytes@.take(i as int),
    {
        out.push(bytes[i]);
        assert(out@ =~= bytes@.take(i + 1));
    }
    assert(bytes@.take(bytes.len() as int) =~= bytes@);
    out
}

} // verus!
