//! Gzip decompression and the temporary-then-rename discipline around it:
//! the decoder runs on bytes in memory, and the writer outside the library
//! streams to the temporary path computed here, renaming it into place only
//! once the write is complete, so a failure mid-decode never touches the
//! output path.

use vstd::prelude::*;

verus! {

use vstd::string::StringExecFns;

/// What the gzip decoder produces for a compressed byte stream; `None` for a
/// malformed stream. Decoding depends on the bytes alone.
pub uninterp spec fn gunzip_of(b: Seq<u8>) -> Option<Seq<u8>>;

/// Relies on flate2's GzDecoder, driven to the end of the stream: the
/// decoded bytes depend on the compressed bytes alone.
#[verifier::external_body]
fn gunzip(data: &Vec<u8>) -> (r: Option<Vec<u8>>)
    ensures
        r is Some <==> gunzip_of(data@) is Some,
        (r matches Some(v) ==> gunzip_of(data@) == Some(v@)),
{
    let mut decoder = flate2::read::GzDecoder::new(data.as_slice());
    let mut out: Vec<u8> = Vec::new();
    match std::io::Read::read_to_end(&mut decoder, &mut out) {
        Ok(_) => Some(out),
        Err(_) => None,
    }
}

/// Decompresses a gzip stream held in memory; `None` exactly on a stream the
/// decoder rejects.
pub fn decompress_gzip(data: &Vec<u8>) -> (r: Option<Vec<u8>>)
    ensures
        r is Some <==> gunzip_of(data@) is Some,
        (r matches Some(v) ==> gunzip_of(data@) == Some(v@)),
{
    gunzip(data)
}

/// The temporary path the decompressed bytes are written to before the
/// atomic rename: `output` with ".tmp" appended — never `output` itself, so
/// the previous file at `output`, if any, stays intact until the rename.
pub fn tmp_path(output: &str) -> (r: String)
    ensures
        r@ == output@ + ".tmp"@,
        r@ != output@,
{
    proof {
        reveal_strlit(".tmp");
    }
    let mut s = output.to_owned();
    s.append(".tmp");
    proof {
        assert(s@.len() == output@.len() + 4);
    }
    s
}

/// Whether the plain artifact must be produced anew from the compressed
/// one: after a fresh download, and whenever the plain file is missing.
pub fn needs_decompress(downloaded: bool, output_exists: bool) -> (r: bool)
    ensures
        r == (downloaded || !output_exists),
{
    downloaded || !output_exists
}

} // verus!
