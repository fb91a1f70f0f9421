//! Clipboard payload framing: the JSON list of peers is gzip-compressed and
//! base64-encoded so that it survives copy and paste; plain JSON is still
//! accepted when reading.

use base64::Engine;
use base64::engine::general_purpose::STANDARD as BASE64;
use flate2::Compression;
use flate2::read::GzDecoder;
use flate2::write::GzEncoder;
use std::io::{Read, Write};
use vstd::prelude::*;
use vstd::string::StrSliceExecFns;
use vstd::string::StringSliceAdditionalSpecFns;
use vstd::utf8::encode_utf8;

use crate::multiplayer::RemotePeer;

verus! {

broadcast use vstd::string::group_string_axioms;

#[verifier::external_type_specification]
#[verifier::external_body]
pub struct ExDecodeError(base64::DecodeError);

#[verifier::external_type_specification]
#[verifier::external_body]
pub struct ExIoError(std::io::Error);

/// The text `base64`'s standard engine (padded) encodes `bytes` as.
pub uninterp spec fn base64_encoded(bytes: Seq<u8>) -> Seq<char>;

/// The bytes the standard engine decodes `text` to, if it accepts it.
pub uninterp spec fn base64_decoded(text: Seq<char>) -> Option<Seq<u8>>;

/// The gzip stream `flate2` writes for `data` at the best compression level
/// (default header).
pub uninterp spec fn gzip_best(data: Seq<u8>) -> Seq<u8>;

/// The UTF-8 text a gzip stream decompresses to, if it is well formed and
/// its contents are UTF-8.
pub uninterp spec fn gunzip_text(bytes: Seq<u8>) -> Option<Seq<char>>;

/// `STANDARD.encode(bytes)`: named; the engine decodes the text back to
/// `bytes` (see [`base64_decode`]).
#[verifier::external_body]
fn base64_encode(bytes: &[u8]) -> (r: String)
    requires
        bytes@.len() <= isize::MAX,
    ensures
        r@ == base64_encoded(bytes@),
{
    BASE64.encode(bytes)
}

/// `STANDARD.decode(text)`: whether and to what it decodes is named; text
/// that the engine itself encoded decodes to the bytes it encoded.
#[verifier::external_body]
fn base64_decode(text: &str) -> (r: Result<Vec<u8>, base64::DecodeError>)
    ensures
        r is Err ==> base64_decoded(text@) is None,
        r matches Ok(v) ==> base64_decoded(text@) == Some(v@),
        (exists|b: Seq<u8>| text@ == #[trigger] base64_encoded(b)) ==> r is Ok,
        r matches Ok(v) ==> forall|b: Seq<u8>| text@ == #[trigger] base64_encoded(b) ==> v@ == b,
{
    BASE64.decode(text)
}

/// Gzip `text`'s UTF-8 bytes at the best level. The encoder writes into a
/// `Vec`, which takes every write, so it succeeds; the stream is the named
/// one, and as a `Vec` it is at most `isize::MAX` bytes long.
#[verifier::external_body]
fn gzip_string(text: &str) -> (r: Result<Vec<u8>, std::io::Error>)
    ensures
        r is Ok,
        r matches Ok(b) ==> b@ == gzip_best(text.spec_bytes()) && b@.len() <= isize::MAX,
{
    let mut encoder = GzEncoder::new(Vec::new(), Compression::best());
    match encoder.write_all(text.as_bytes()) {
        Ok(()) => encoder.finish(),
        Err(e) => Err(e),
    }
}

/// Decompress a gzip stream into a UTF-8 string: named; a stream gzip made
/// of a text's UTF-8 bytes decompresses to that text.
#[verifier::external_body]
fn gunzip_to_string(bytes: &[u8]) -> (r: Result<String, std::io::Error>)
    ensures
        r is Err ==> gunzip_text(bytes@) is None,
        r matches Ok(s) ==> gunzip_text(bytes@) == Some(s@),
        (exists|t: Seq<char>| bytes@ == #[trigger] gzip_best(encode_utf8(t))) ==> r is Ok,
        r matches Ok(s) ==> forall|t: Seq<char>|
            bytes@ == #[trigger] gzip_best(encode_utf8(t)) ==> s@ == t,
{
    let mut decoder = GzDecoder::new(bytes);
    let mut output = String::new();
    match decoder.read_to_string(&mut output) {
        Ok(_) => Ok(output),
        Err(e) => Err(e),
    }
}

/// The clipboard text for a payload's JSON: base64 of its gzip stream, or
/// the JSON itself if compression failed.
pub open spec fn compressed_text(json: Seq<char>, compressed: bool) -> Seq<char> {
    if compressed {
        base64_encoded(gzip_best(encode_utf8(json)))
    } else {
        json
    }
}

/// Compress a payload's JSON for the clipboard: base64 of its gzip stream.
pub fn compress_payload_json(json: &str) -> (r: String)
    ensures
        r@ == compressed_text(json@, true),
{
    match gzip_string(json) {
        Ok(bytes) => base64_encode(bytes.as_slice()),
        Err(_) => json.to_string(),
    }
}

/// The JSON a clipboard text carries: the gunzipped contents of its base64
/// decoding when both steps succeed, otherwise the text itself.
pub open spec fn payload_json_spec(text: Seq<char>) -> Seq<char> {
    match base64_decoded(text) {
        Some(b) => match gunzip_text(b) {
            Some(j) => j,
            None => text,
        },
        None => text,
    }
}

/// Recover the JSON from clipboard text. Text that [`compress_payload_json`]
/// compressed gives back the JSON it was made from.
pub fn payload_json_text(text: &str) -> (r: String)
    ensures
        r@ == payload_json_spec(text@),
        forall|j: Seq<char>| text@ == #[trigger] compressed_text(j, true) ==> r@ == j,
{
    match base64_decode(text) {
        Ok(bytes) => match gunzip_to_string(bytes.as_slice()) {
            Ok(json) => json,
            Err(_) => text.to_string(),
        },
        Err(_) => text.to_string(),
    }
}

/// Decode clipboard text into peers; `parse` reads a JSON list of peers.
pub fn decompress_remote_peers<F: Fn(String) -> Result<Vec<RemotePeer>, String>>(
    text: &str,
    parse: &F,
) -> (r: Result<Vec<RemotePeer>, String>)
    requires
        forall|s: String| parse.requires((s,)),
    ensures
        exists|json: String| json@ == payload_json_spec(text@) && #[trigger] parse.ensures((json,), r),
{
    let json = payload_json_text(text);
    let ghost j = json;
    let r = parse(json);
    assert(parse.ensures((j,), r));
    r
}

/// The clipboard text for a list of peers, given their serialized JSON
/// (`None` when serialization failed, which yields an empty JSON list).
pub fn compress_serialized_peers(json: Option<String>) -> (r: String)
    ensures
        match json {
            Some(j) => r@ == compressed_text(j@, true),
            None => r@ == "[]"@,
        },
{
    match json {
        Some(j) => compress_payload_json(j.as_str()),
        None => "[]".to_string(),
    }
}

} // verus!
