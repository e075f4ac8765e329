//! The bytes of a stored index: the gzip framing around the serialized index, and the
//! order in which the stored formats are tried when an index is loaded.

use vstd::prelude::*;

verus! {

/// What `flate2`'s gzip decoder gives for `raw`, read to its end: the decompressed
/// bytes, or `None` when the read fails.
pub uninterp spec fn gunzipped(raw: Seq<u8>) -> Option<Seq<u8>>;

/// What `flate2`'s gzip encoder at compression level `level` writes for `encoded`,
/// once finished (its header carries no time stamp, name or comment).
pub uninterp spec fn gzipped(encoded: Seq<u8>, level: u32) -> Option<Seq<u8>>;

/// `flate2::read::GzDecoder::new` over the bytes, read with `Read::read_to_end`: the
/// decompressed bytes, or `None` when the read fails (the bytes are not one gzip
/// stream). The result is `gunzipped` of the bytes. Gzip is lossless: bytes that the
/// encoder wrote for some input decode to that input.
#[verifier::external_body]
fn gunzip(raw: &[u8]) -> (r: Option<Vec<u8>>)
    ensures
        match r {
            Some(v) => gunzipped(raw@) == Some(v@),
            None => gunzipped(raw@) is None,
        },
        forall|x: Seq<u8>, level: u32| #[trigger] gzipped(x, level) == Some(raw@) ==> r is Some && r.unwrap()@ == x,
{
    let mut out = Vec::new();
    match std::io::Read::read_to_end(&mut flate2::read::GzDecoder::new(raw), &mut out) {
        Ok(_) => Some(out),
        Err(_) => None,
    }
}

/// `flate2::write::GzEncoder::new` over an empty `Vec` at `Compression::new(level)`,
/// given the bytes with `Write::write_all`, then `finish`: the gzip stream, or `None`
/// when a write fails. The result is `gzipped` of the bytes and the level.
#[verifier::external_body]
fn gzip(encoded: &[u8], level: u32) -> (r: Option<Vec<u8>>)
    requires
        level <= 9,
    ensures
        match r {
            Some(v) => gzipped(encoded@, level) == Some(v@),
            None => gzipped(encoded@, level) is None,
        },
{
    let mut e = flate2::write::GzEncoder::new(Vec::new(), flate2::Compression::new(level));
    match std::io::Write::write_all(&mut e, encoded) {
        Ok(()) => {},
        Err(_) => return None,
    }
    match e.finish() {
        Ok(v) => Some(v),
        Err(_) => None,
    }
}

/// The compression level a stored index is written with: 1 (fast) for the bincode
/// form, 6 (the default) for the JSON form.
pub open spec fn stored_level(fast: bool) -> u32 {
    if fast {
        1
    } else {
        6
    }
}

/// The serialized index inside the bytes of a stored index file: their gzip
/// decompression, or `None` when they are not a gzip stream. Bytes written by
/// `encode_stored_index` give back what was encoded.
pub fn decode_stored_index(raw: &[u8]) -> (r: Option<Vec<u8>>)
    ensures
        r is Some == gunzipped(raw@) is Some,
        r matches Some(v) ==> gunzipped(raw@) == Some(v@),
        forall|x: Seq<u8>, fast: bool| #[trigger] gzipped(x, stored_level(fast)) == Some(raw@)
            ==> (r matches Some(v) && v@ == x),
{
    let r = gunzip(raw);
    assert forall|x: Seq<u8>, fast: bool| #[trigger] gzipped(x, stored_level(fast)) == Some(raw@)
        implies (r matches Some(v) && v@ == x) by {
        assert(gzipped(x, stored_level(fast)) == Some(raw@));
    }
    r
}

/// The bytes of a stored index file for the serialized index `encoded`: its gzip
/// compression, fast for the bincode form (`fast`) and at the default level for the
/// JSON form. `None` when compressing fails.
pub fn encode_stored_index(encoded: &[u8], fast: bool) -> (r: Option<Vec<u8>>)
    ensures
        r is Some == gzipped(encoded@, stored_level(fast)) is Some,
        r matches Some(v) ==> gzipped(encoded@, stored_level(fast)) == Some(v@),
{
    let level: u32 = if fast { 1 } else { 6 };
    gzip(encoded, level)
}

/// The forms an index file may hold.
#[derive(Clone, Copy, Debug, PartialEq, Eq, Structural)]
pub enum StoredFormat {
    /// bincode, gzip-compressed (what saving writes first).
    GzipBincode,
    /// JSON, gzip-compressed (what saving writes when bincode fails).
    GzipJson,
    /// JSON as plain text (the older form).
    PlainJson,
}

/// The form to try after `tried` when loading an index: gzip bincode first, then gzip
/// JSON, then plain JSON; none after that.
pub open spec fn format_after(tried: Option<StoredFormat>) -> Option<StoredFormat> {
    match tried {
        None => Some(StoredFormat::GzipBincode),
        Some(StoredFormat::GzipBincode) => Some(StoredFormat::GzipJson),
        Some(StoredFormat::GzipJson) => Some(StoredFormat::PlainJson),
        Some(StoredFormat::PlainJson) => None,
    }
}

/// The form to try first (`tried` is `None`), or after the form `tried` failed (see
/// `format_after`).
pub fn stored_format_after(tried: Option<StoredFormat>) -> (r: Option<StoredFormat>)
    ensures
        r == format_after(tried),
{
    match tried {
        None => Some(StoredFormat::GzipBincode),
        Some(StoredFormat::GzipBincode) => Some(StoredFormat::GzipJson),
        Some(StoredFormat::GzipJson) => Some(StoredFormat::PlainJson),
        Some(StoredFormat::PlainJson) => None,
    }
}

/// Whether a stored form is gzip-compressed (and so goes through
/// `decode_stored_index` before it is parsed).
pub fn is_gzip_format(f: StoredFormat) -> (r: bool)
    ensures
        r == (f != StoredFormat::PlainJson),
{
    match f {
        StoredFormat::PlainJson => false,
        _ => true,
    }
}

} // verus!
