//! Trusted boundary to the archive extraction collaborators: zip member
//! lookup and gzip decompression are done by outside crates, and their
//! results are named so that the extraction orchestrator's contract can
//! speak about them exactly.
use vstd::prelude::*;

verus! {

/// What looking a member up in a zip archive yields: `None` for a
/// malformed archive, `Some(None)` for a well-formed archive without the
/// member, `Some(Some(data))` for the member's decompressed bytes. It is a
/// function of the archive bytes and the member name alone.
pub uninterp spec fn zip_entry(b: Seq<u8>, name: Seq<char>) -> Option<Option<Seq<u8>>>;

/// Relies on `zip::ZipArchive::new` and `ZipArchive::by_name`: reading an
/// in-memory archive's directory and extracting a member by exact name is
/// deterministic in the bytes and the name, and `ZipError::FileNotFound`
/// is the one error that means a readable archive lacks the member.
#[verifier::external_body]
pub fn zip_find_member(bytes: &Vec<u8>, name: &str) -> (r: Result<Option<Vec<u8>>, String>)
    ensures
        ({
            let z = zip_entry(bytes@, name@);
            match r {
                Ok(Some(v)) => z == Some(Some(v@)),
                Ok(None) => z == Some(None::<Seq<u8>>),
                Err(_) => z is None,
            }
        }),
{
    let cursor = std::io::Cursor::new(bytes.as_slice());
    let mut archive = zip::ZipArchive::new(cursor).map_err(|e| format!("{e}"))?;
    let mut file = match archive.by_name(name) {
        Ok(f) => f,
        Err(zip::result::ZipError::FileNotFound) => return Ok(None),
        Err(e) => return Err(format!("{e}")),
    };
    let mut out = Vec::new();
    std::io::Read::read_to_end(&mut file, &mut out).map_err(|e| format!("{e}"))?;
    Ok(Some(out))
}

/// What decompressing a gzip stream yields: `None` when the bytes are not
/// a well-formed gzip stream, otherwise the decompressed bytes. It is a
/// function of the input bytes alone.
pub uninterp spec fn gzip_decoded(b: Seq<u8>) -> Option<Seq<u8>>;

/// Relies on `flate2::read::GzDecoder`: decoding an in-memory gzip stream
/// is deterministic in the input bytes, and fails exactly on input that is
/// not a well-formed gzip stream.
#[verifier::external_body]
pub fn gzip_decompress(bytes: &Vec<u8>) -> (r: Result<Vec<u8>, String>)
    ensures
        ({
            let g = gzip_decoded(bytes@);
            match r {
                Ok(v) => g == Some(v@),
                Err(_) => g is None,
            }
        }),
{
    let mut decoder = flate2::read::GzDecoder::new(bytes.as_slice());
    let mut out = Vec::new();
    match std::io::Read::read_to_end(&mut decoder, &mut out) {
        Ok(_) => Ok(out),
        Err(e) => Err(format!("{e}")),
    }
}

} // verus!
