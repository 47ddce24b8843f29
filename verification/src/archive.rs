use vstd::prelude::*;

use std::io::Write;

verus! {

/// Why an archive could not be produced.
#[derive(Clone, Copy, PartialEq, Eq, Structural, Debug)]
pub enum ArchiveError {
    /// The archive encoder rejected the entry or its data.
    WriteFailed,
}

#[verifier::external_type_specification]
#[verifier::external_body]
pub struct ExZipError(zip::result::ZipError);

/// The view of an optional borrowed stamp string.
pub open spec fn stamp_view(stamp: Option<&String>) -> Option<Seq<char>> {
    match stamp {
        Option::Some(t) => Option::Some(t@),
        Option::None => Option::None,
    }
}

/// The base of an archive's file names: the database name,
/// extended with an underscore and the timestamp when one is
/// configured.
pub open spec fn spec_base_name(db: Seq<char>, stamp: Option<Seq<char>>) -> Seq<char> {
    match stamp {
        Option::Some(t) => db + "_"@ + t,
        Option::None => db,
    }
}

/// The name of the single entry inside an archive: the raw dump
/// file's base name.
pub open spec fn spec_entry_name(db: Seq<char>, stamp: Option<Seq<char>>) -> Seq<char> {
    spec_base_name(db, stamp) + ".sql"@
}

/// The path of the intermediate raw dump file.
pub open spec fn spec_raw_path(folder: Seq<char>, db: Seq<char>, stamp: Option<Seq<char>>) -> Seq<
    char,
> {
    folder + "/"@ + spec_base_name(db, stamp) + ".sql"@
}

/// The path of the finished archive.
pub open spec fn spec_zip_path(folder: Seq<char>, db: Seq<char>, stamp: Option<Seq<char>>) -> Seq<
    char,
> {
    folder + "/"@ + spec_base_name(db, stamp) + ".zip"@
}

/// The three names one dump attempt works with: the raw file's
/// path, the archive's path, and the entry name inside the
/// archive — the raw file's base name.
pub fn archive_file_names(folder: &String, db: &String, stamp: Option<&String>) -> (r: (
    String,
    String,
    String,
))
    ensures
        r.0@ == spec_raw_path(folder@, db@, stamp_view(stamp)),
        r.1@ == spec_zip_path(folder@, db@, stamp_view(stamp)),
        r.2@ == spec_entry_name(db@, stamp_view(stamp)),
{
    let mut base = String::new();
    base.append(db.as_str());
    match stamp {
        Option::Some(t) => {
            base.append("_");
            base.append(t.as_str());
        },
        Option::None => {},
    }
    proof {
        assert(base@ =~= spec_base_name(db@, stamp_view(stamp)));
    }
    let mut entry = String::new();
    entry.append(base.as_str());
    entry.append(".sql");
    let mut raw = String::new();
    raw.append(folder.as_str());
    raw.append("/");
    raw.append(base.as_str());
    raw.append(".sql");
    let mut zipped = String::new();
    zipped.append(folder.as_str());
    zipped.append("/");
    zipped.append(base.as_str());
    zipped.append(".zip");
    proof {
        assert(raw@ =~= spec_raw_path(folder@, db@, stamp_view(stamp)));
        assert(zipped@ =~= spec_zip_path(folder@, db@, stamp_view(stamp)));
        assert(entry@ =~= spec_entry_name(db@, stamp_view(stamp)));
    }
    (raw, zipped, entry)
}

/// Whether chrono's format parser accepts every item of a
/// format string; this depends on the format text alone.
pub uninterp spec fn strftime_ok(fmt: Seq<char>) -> bool;

/// Relies on chrono's `StrftimeItems` and
/// `DateTime::format_with_items`: renders the clock's current
/// local time with the given format, or nothing when the format
/// has an invalid item.  Whether an item is invalid depends on
/// the format alone; the rendered text depends on the clock, so
/// nothing is claimed of it.
#[verifier::external_body]
fn format_timestamp_now(fmt: &str) -> (r: Option<String>)
    ensures
        r is Some <==> strftime_ok(fmt@),
{
    let items: Vec<chrono::format::Item> = chrono::format::StrftimeItems::new(fmt).collect();
    if items.iter().any(|it| matches!(it, chrono::format::Item::Error)) {
        return None;
    }
    Some(chrono::Local::now().format_with_items(items.into_iter()).to_string())
}

/// The timestamp that goes into an attempt's file names: nothing
/// when no format is configured, otherwise the current local
/// time rendered with the configured format, read once so that
/// the raw name and the archive name agree.
pub fn current_stamp(fmt: &String) -> (r: Option<String>)
    ensures
        fmt@.len() == 0 ==> r is None,
        fmt@.len() > 0 ==> (r is Some <==> strftime_ok(fmt@)),
{
    if fmt.as_str().is_empty() {
        None
    } else {
        format_timestamp_now(fmt.as_str())
    }
}

/// Relies on zip's `ZipWriter` over an in-memory buffer with
/// `SimpleFileOptions`: deflate compression, AES-256 encryption
/// under the passphrase, owner read/write and world read
/// permissions.  Encodes one entry holding `data` and returns
/// the archive's bytes; the encryption salt is drawn fresh, so
/// only success and non-emptiness are claimed.
#[verifier::external_body]
fn zip_encode(entry_name: &str, data: &Vec<u8>, passphrase: &str) -> (r: Result<
    Vec<u8>,
    zip::result::ZipError,
>)
    ensures
        r is Ok ==> r->Ok_0@.len() > 0,
{
    let cursor = std::io::Cursor::new(Vec::new());
    let mut zw = zip::ZipWriter::new(cursor);
    let options = zip::write::SimpleFileOptions::default().compression_method(
        zip::CompressionMethod::Deflated,
    ).with_aes_encryption(zip::AesMode::Aes256, passphrase).unix_permissions(0o644);
    zw.start_file(entry_name, options)?;
    zw.write_all(data).map_err(zip::result::ZipError::from)?;
    let cursor = zw.finish()?;
    Ok(cursor.into_inner())
}

/// Produces the password-protected, compressed archive bytes for
/// one dump: a single entry named after the raw file, holding
/// the dump's bytes.  The caller writes the bytes to the archive
/// path; writing over an existing archive replaces it.
pub fn build_archive(entry_name: &String, data: &Vec<u8>, passphrase: &String) -> (r: Result<
    Vec<u8>,
    ArchiveError,
>)
    ensures
        r is Ok ==> r->Ok_0@.len() > 0,
{
    match zip_encode(entry_name.as_str(), data, passphrase.as_str()) {
        Ok(bytes) => Ok(bytes),
        Err(_) => Err(ArchiveError::WriteFailed),
    }
}

} // verus!
