use vstd::prelude::*;
use vstd::utf8::{decode_utf8, valid_utf8};

verus! {

/// The compression format of a word-list archive.
#[derive(Debug, Clone, Copy, PartialEq, Eq, Structural)]
pub enum Codec {
    /// A Brotli stream.
    Brotli,
    /// A raw Deflate stream.
    Deflate,
}

/// Why an archive holds no text.
#[derive(Debug, Clone, Copy, PartialEq, Eq, Structural)]
pub enum ArchiveError {
    /// The bytes are no stream of the codec.
    Decompress,
    /// The decompressed bytes are not UTF-8.
    Utf8,
}

#[verifier::external_type_specification]
#[verifier::external_body]
pub struct ExDecompressError(miniz_oxide::inflate::DecompressError);

/// What brotli decodes from a stream, or `None` where the bytes are no
/// complete Brotli stream.
pub uninterp spec fn brotli_decoded(b: Seq<u8>) -> Option<Seq<u8>>;

/// What miniz_oxide inflates from a raw Deflate stream, or `None` where the
/// bytes are no complete Deflate stream.
pub uninterp spec fn inflated(b: Seq<u8>) -> Option<Seq<u8>>;

/// Relies on brotli::BrotliDecompress: it writes the decoded stream to the
/// output, and fails where the input is no Brotli stream.
#[verifier::external_body]
fn brotli_decompress(b: &[u8]) -> (r: Option<Vec<u8>>)
    ensures
        r is Some <==> brotli_decoded(b@) is Some,
        r matches Some(v) ==> brotli_decoded(b@) == Some(v@),
{
    let mut input = b;
    let mut out: Vec<u8> = Vec::new();
    match brotli::BrotliDecompress(&mut input, &mut out) {
        Ok(()) => Some(out),
        Err(_) => None,
    }
}

/// Relies on miniz_oxide::inflate::decompress_to_vec: the inflated bytes, or
/// an error where the input is no Deflate stream.
#[verifier::external_body]
fn inflate(b: &[u8]) -> (r: Result<Vec<u8>, miniz_oxide::inflate::DecompressError>)
    ensures
        r is Ok <==> inflated(b@) is Some,
        r matches Ok(v) ==> inflated(b@) == Some(v@),
{
    miniz_oxide::inflate::decompress_to_vec(b)
}

/// Relies on String::from_utf8: the text that the bytes encode, or `None`
/// where they are not UTF-8.
#[verifier::external_body]
fn utf8_to_string(b: Vec<u8>) -> (r: Option<String>)
    ensures
        r is Some <==> valid_utf8(b@),
        r matches Some(s) ==> s@ == decode_utf8(b@),
{
    String::from_utf8(b).ok()
}

/// The bytes that an archive decompresses to, or `None`.
pub open spec fn decompressed(codec: Codec, b: Seq<u8>) -> Option<Seq<u8>> {
    match codec {
        Codec::Brotli => brotli_decoded(b),
        Codec::Deflate => inflated(b),
    }
}

/// The text that an archive holds, or why it holds none.
pub open spec fn archive_text(codec: Codec, b: Seq<u8>) -> Result<Seq<char>, ArchiveError> {
    match decompressed(codec, b) {
        None => Err(ArchiveError::Decompress),
        Some(raw) => if valid_utf8(raw) {
            Ok(decode_utf8(raw))
        } else {
            Err(ArchiveError::Utf8)
        },
    }
}

/// Decompresses an archive and reads the result as UTF-8 text.
pub fn decompress_to_string(codec: Codec, bytes: &[u8]) -> (r: Result<String, ArchiveError>)
    ensures
        r matches Ok(s) ==> archive_text(codec, bytes@) == Ok::<Seq<char>, ArchiveError>(s@),
        r matches Err(e) ==> archive_text(codec, bytes@) == Err::<Seq<char>, ArchiveError>(e),
{
    let raw = match codec {
        Codec::Brotli => brotli_decompress(bytes),
        Codec::Deflate => match inflate(bytes) {
            Ok(v) => Some(v),
            Err(_) => None,
        },
    };
    match raw {
        None => Err(ArchiveError::Decompress),
        Some(v) => match utf8_to_string(v) {
            Some(s) => Ok(s),
            None => Err(ArchiveError::Utf8),
        },
    }
}

} // verus!
