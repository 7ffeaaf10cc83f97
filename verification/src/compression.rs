//! Optional payload compression.
//!
//! A compressed payload travels in a self-describing frame:
//! `MAGIC(3) | algo(1) | version(1) | compressed-bytes...`. Uncompressed payloads
//! carry no frame at all.

use vstd::prelude::*;
use crate::text::{decimal, decimal_u64, string_of, chars_of, signed_decimal, decimal_i64};

verus! {

/// Compression algorithm selection.
#[derive(Debug, Clone, Copy, PartialEq, Eq, Structural)]
pub enum CompressionType {
    /// No compression
    Uncompressed,
    /// Zstandard compression
    Zstd,
    /// LZ4 compression
    Lz4,
    /// Gzip compression
    Gzip,
}

/// The metadata value naming an algorithm.
pub open spec fn metadata_value_of(t: CompressionType) -> Seq<char> {
    match t {
        CompressionType::Uncompressed => "none"@,
        CompressionType::Zstd => "zstd"@,
        CompressionType::Lz4 => "lz4"@,
        CompressionType::Gzip => "gzip"@,
    }
}

/// The algorithm a metadata value names, if any.
pub open spec fn type_of_metadata_value(s: Seq<char>) -> Option<CompressionType> {
    if s == "none"@ {
        Some(CompressionType::Uncompressed)
    } else if s == "zstd"@ {
        Some(CompressionType::Zstd)
    } else if s == "lz4"@ {
        Some(CompressionType::Lz4)
    } else if s == "gzip"@ {
        Some(CompressionType::Gzip)
    } else {
        None
    }
}

impl CompressionType {
    /// Convert to metadata key value
    pub fn to_metadata_value(&self) -> (s: &'static str)
        ensures
            s@ == metadata_value_of(*self),
    {
        match self {
            CompressionType::Uncompressed => "none",
            CompressionType::Zstd => "zstd",
            CompressionType::Lz4 => "lz4",
            CompressionType::Gzip => "gzip",
        }
    }

    /// Parse from metadata key value
    pub fn from_metadata_value(s: &str) -> (r: Option<Self>)
        ensures
            r == type_of_metadata_value(s@),
    {
        if crate::text::str_eq(s, "none") {
            Some(CompressionType::Uncompressed)
        } else if crate::text::str_eq(s, "zstd") {
            Some(CompressionType::Zstd)
        } else if crate::text::str_eq(s, "lz4") {
            Some(CompressionType::Lz4)
        } else if crate::text::str_eq(s, "gzip") {
            Some(CompressionType::Gzip)
        } else {
            None
        }
    }
}

/// Every algorithm's metadata value reads back as that algorithm.
pub proof fn lemma_metadata_value_roundtrip(t: CompressionType)
    ensures
        type_of_metadata_value(metadata_value_of(t)) == Some(t),
{
    reveal_strlit("none");
    reveal_strlit("zstd");
    reveal_strlit("lz4");
    reveal_strlit("gzip");
    assert("zstd"@[0] != "none"@[0]);
    assert("lz4"@.len() != "none"@.len());
    assert("lz4"@.len() != "zstd"@.len());
    assert("gzip"@[0] != "none"@[0]);
    assert("gzip"@[0] != "zstd"@[0]);
    assert("gzip"@.len() != "lz4"@.len());
}

/// Compression errors
#[derive(Debug)]
pub enum CompressionError {
    /// An encoder reported a failure
    CompressionFailed(String),
    /// A payload could not be decoded
    DecompressionFailed(String),
    /// A payload names an algorithm this library does not know
    UnsupportedType(String),
    /// The compression level lies outside 1..=9
    InvalidLevel(i32),
}

/// A compression error with its text as a character sequence.
pub enum CompressionFault {
    CompressionFailed(Seq<char>),
    DecompressionFailed(Seq<char>),
    UnsupportedType(Seq<char>),
    InvalidLevel(i32),
}

impl View for CompressionError {
    type V = CompressionFault;

    open spec fn view(&self) -> CompressionFault {
        match self {
            CompressionError::CompressionFailed(s) => CompressionFault::CompressionFailed(s@),
            CompressionError::DecompressionFailed(s) => CompressionFault::DecompressionFailed(s@),
            CompressionError::UnsupportedType(s) => CompressionFault::UnsupportedType(s@),
            CompressionError::InvalidLevel(l) => CompressionFault::InvalidLevel(*l),
        }
    }
}

/// The message of a compression error.
pub open spec fn fault_message(f: CompressionFault) -> Seq<char> {
    match f {
        CompressionFault::CompressionFailed(s) => "Compression failed: "@ + s,
        CompressionFault::DecompressionFailed(s) => "Decompression failed: "@ + s,
        CompressionFault::UnsupportedType(s) => "Unsupported compression type: "@ + s,
        CompressionFault::InvalidLevel(l) => "Invalid compression level: "@ + signed_decimal(
            l as int,
        ),
    }
}

impl CompressionError {
    /// The human-readable message of this error.
    pub fn message(&self) -> (m: String)
        ensures
            m@ == fault_message(self@),
    {
        match self {
            CompressionError::CompressionFailed(s) => {
                let mut m = String::from_str("Compression failed: ");
                m.append(s.as_str());
                m
            },
            CompressionError::DecompressionFailed(s) => {
                let mut m = String::from_str("Decompression failed: ");
                m.append(s.as_str());
                m
            },
            CompressionError::UnsupportedType(s) => {
                let mut m = String::from_str("Unsupported compression type: ");
                m.append(s.as_str());
                m
            },
            CompressionError::InvalidLevel(l) => {
                let mut m = String::from_str("Invalid compression level: ");
                let d = string_of(decimal_i64(*l as i64).as_slice());
                m.append(d.as_str());
                m
            },
        }
    }
}

/// The version byte of the compression frame.
pub const FRAME_VERSION: u8 = 1;

/// The length of the compression frame header.
pub const FRAME_HEADER_LEN: usize = 5;

/// Frame byte of zstd payloads.
pub const ALGO_ZSTD: u8 = 1;

/// Frame byte of lz4 payloads.
pub const ALGO_LZ4: u8 = 2;

/// Frame byte of gzip payloads.
pub const ALGO_GZIP: u8 = 3;

/// The three magic bytes `GZC` that open a compression frame.
pub open spec fn frame_magic() -> Seq<u8> {
    seq![71u8, 90u8, 67u8]
}

/// The frame byte of an algorithm.
pub open spec fn algo_byte(t: CompressionType) -> u8 {
    match t {
        CompressionType::Uncompressed => 0,
        CompressionType::Zstd => ALGO_ZSTD,
        CompressionType::Lz4 => ALGO_LZ4,
        CompressionType::Gzip => ALGO_GZIP,
    }
}

/// Map a (compressing) algorithm to its on-wire frame byte.
pub fn algo_to_byte(compression_type: CompressionType) -> (b: u8)
    ensures
        b == algo_byte(compression_type),
{
    match compression_type {
        CompressionType::Uncompressed => 0,
        CompressionType::Zstd => ALGO_ZSTD,
        CompressionType::Lz4 => ALGO_LZ4,
        CompressionType::Gzip => ALGO_GZIP,
    }
}

/// What `zstd::encode_all(data, level)` gives back: the frame, or the error's text.
pub uninterp spec fn zstd_encoding(data: Seq<u8>, level: i32) -> Result<Seq<u8>, Seq<char>>;

/// What `zstd::decode_all(payload)` gives back: the data, or the error's text.
pub uninterp spec fn zstd_decoding(payload: Seq<u8>) -> Result<Seq<u8>, Seq<char>>;

/// What `lz4::block::compress(data, Some(HIGHCOMPRESSION(level)), true)` gives back.
pub uninterp spec fn lz4_encoding(data: Seq<u8>, level: i32) -> Result<Seq<u8>, Seq<char>>;

/// What `lz4::block::decompress(payload, None)` gives back.
pub uninterp spec fn lz4_decoding(payload: Seq<u8>) -> Result<Seq<u8>, Seq<char>>;

/// What a `flate2::write::GzEncoder` at `Compression::new(level)` writes for `data`.
pub uninterp spec fn gzip_encoding(data: Seq<u8>, level: u32) -> Result<Seq<u8>, Seq<char>>;

/// What a `flate2::read::GzDecoder` reads out of `payload`.
pub uninterp spec fn gzip_decoding(payload: Seq<u8>) -> Result<Seq<u8>, Seq<char>>;

/// A byte result with its error text as a character sequence.
pub open spec fn bytes_outcome(r: Result<Vec<u8>, String>) -> Result<Seq<u8>, Seq<char>> {
    match r {
        Ok(v) => Ok(v@),
        Err(e) => Err(e@),
    }
}

/// A decoder outcome for `payload` that gives back the data of every zstd frame
/// equal to `payload` that was made at a level in 1..=9.
pub open spec fn zstd_inverts_encoder(r: Result<Seq<u8>, Seq<char>>, payload: Seq<u8>) -> bool {
    forall|d: Seq<u8>, l: i32|
        1 <= l <= 9 && #[trigger] zstd_encoding(d, l) == Ok::<Seq<u8>, Seq<char>>(payload) ==> r
            == Ok::<Seq<u8>, Seq<char>>(d)
}

/// A decoder outcome for `payload` that gives back the data of every lz4 block
/// equal to `payload` that was made at a level in 1..=9.
pub open spec fn lz4_inverts_encoder(r: Result<Seq<u8>, Seq<char>>, payload: Seq<u8>) -> bool {
    forall|d: Seq<u8>, l: i32|
        1 <= l <= 9 && #[trigger] lz4_encoding(d, l) == Ok::<Seq<u8>, Seq<char>>(payload) ==> r
            == Ok::<Seq<u8>, Seq<char>>(d)
}

/// A decoder outcome for `payload` that gives back the data of every gzip stream
/// equal to `payload` that was made at a level in 1..=9.
pub open spec fn gzip_inverts_encoder(r: Result<Seq<u8>, Seq<char>>, payload: Seq<u8>) -> bool {
    forall|d: Seq<u8>, l: u32|
        1 <= l <= 9 && #[trigger] gzip_encoding(d, l) == Ok::<Seq<u8>, Seq<char>>(payload) ==> r
            == Ok::<Seq<u8>, Seq<char>>(d)
}

/// Calls `zstd::encode_all`; claims its result is the named zstd encoding of
/// `data` at `level`.
#[verifier::external_body]
fn zstd_encode(data: &[u8], level: i32) -> (r: Result<Vec<u8>, String>)
    ensures
        bytes_outcome(r) == zstd_encoding(data@, level),
{
    zstd::encode_all(data, level).map_err(|e| e.to_string())
}

/// Calls `zstd::decode_all`; claims its result is the named zstd decoding of
/// `payload`, and that a frame `encode_all` made at a level in 1..=9 decodes to
/// the data it was made from.
#[verifier::external_body]
fn zstd_decode(payload: &[u8]) -> (r: Result<Vec<u8>, String>)
    ensures
        bytes_outcome(r) == zstd_decoding(payload@),
        zstd_inverts_encoder(bytes_outcome(r), payload@),
{
    zstd::decode_all(payload).map_err(|e| e.to_string())
}

/// Calls `lz4::block::compress` in high-compression mode with the size
/// prepended; claims its result is the named lz4 encoding, and, as the crate
/// documents, an error for inputs longer than `i32::MAX` bytes.
#[verifier::external_body]
fn lz4_encode(data: &[u8], level: i32) -> (r: Result<Vec<u8>, String>)
    ensures
        bytes_outcome(r) == lz4_encoding(data@, level),
        data@.len() > i32::MAX ==> r is Err,
{
    lz4::block::compress(data, Some(lz4::block::CompressionMode::HIGHCOMPRESSION(level)), true)
        .map_err(|e| e.to_string())
}

/// Calls `lz4::block::decompress` with the size read from the block; claims its
/// result is the named lz4 decoding, and that a block `compress` made with the
/// size prepended decodes to the data it was made from.
#[verifier::external_body]
fn lz4_decode(payload: &[u8]) -> (r: Result<Vec<u8>, String>)
    ensures
        bytes_outcome(r) == lz4_decoding(payload@),
        lz4_inverts_encoder(bytes_outcome(r), payload@),
{
    lz4::block::decompress(payload, None).map_err(|e| e.to_string())
}

/// Writes `data` through a `flate2::write::GzEncoder` at `Compression::new(level)`
/// and finishes it; claims the output is the named gzip encoding. Only levels
/// 1..=9 are passed: flate2's deflate backends assert the level's range.
#[verifier::external_body]
fn gzip_encode(data: &[u8], level: u32) -> (r: Result<Vec<u8>, String>)
    requires
        1 <= level <= 9,
    ensures
        bytes_outcome(r) == gzip_encoding(data@, level),
{
    let mut encoder = flate2::write::GzEncoder::new(Vec::new(), flate2::Compression::new(level));
    std::io::Write::write_all(&mut encoder, data).map_err(|e| e.to_string())?;
    encoder.finish().map_err(|e| e.to_string())
}

/// Reads `payload` to the end through a `flate2::read::GzDecoder`; claims the
/// output is the named gzip decoding, and that a stream the encoder wrote at a
/// level in 1..=9 decodes to the data it was made from.
#[verifier::external_body]
fn gzip_decode(payload: &[u8]) -> (r: Result<Vec<u8>, String>)
    ensures
        bytes_outcome(r) == gzip_decoding(payload@),
        gzip_inverts_encoder(bytes_outcome(r), payload@),
{
    let mut decoder = flate2::read::GzDecoder::new(payload);
    let mut out = Vec::new();
    std::io::Read::read_to_end(&mut decoder, &mut out).map_err(|e| e.to_string())?;
    Ok(out)
}

/// The encoder output of an algorithm for `data` at `level`.
pub open spec fn encoding(data: Seq<u8>, t: CompressionType, level: i32) -> Result<
    Seq<u8>,
    Seq<char>,
> {
    match t {
        CompressionType::Uncompressed => Ok(data),
        CompressionType::Zstd => zstd_encoding(data, level),
        CompressionType::Lz4 => lz4_encoding(data, level),
        CompressionType::Gzip => gzip_encoding(data, level as u32),
    }
}

/// The frame that carries an encoded payload.
pub open spec fn framed(t: CompressionType, payload: Seq<u8>) -> Seq<u8> {
    frame_magic() + seq![algo_byte(t), FRAME_VERSION] + payload
}

/// What `compress` gives back.
pub open spec fn compress_spec(data: Seq<u8>, t: CompressionType, level: i32) -> Result<
    Seq<u8>,
    CompressionFault,
> {
    if !(1 <= level <= 9) {
        Err(CompressionFault::InvalidLevel(level))
    } else if t == CompressionType::Uncompressed {
        Ok(data)
    } else {
        match encoding(data, t, level) {
            Ok(p) => Ok(framed(t, p)),
            Err(e) => Err(CompressionFault::CompressionFailed(e)),
        }
    }
}

/// A decoder outcome as a decompression outcome.
pub open spec fn decoded(r: Result<Seq<u8>, Seq<char>>) -> Result<Seq<u8>, CompressionFault> {
    match r {
        Ok(d) => Ok(d),
        Err(e) => Err(CompressionFault::DecompressionFailed(e)),
    }
}

/// What `decompress` gives back.
pub open spec fn decompress_spec(data: Seq<u8>, declared: CompressionType) -> Result<
    Seq<u8>,
    CompressionFault,
> {
    if declared == CompressionType::Uncompressed {
        Ok(data)
    } else if data.len() < 5 || data.take(3) != frame_magic() {
        Err(
            CompressionFault::DecompressionFailed(
                "compressed payload is missing the expected frame header"@,
            ),
        )
    } else if data[4] != FRAME_VERSION {
        Err(
            CompressionFault::DecompressionFailed(
                "unsupported compression frame version "@ + decimal(data[4] as nat),
            ),
        )
    } else {
        let payload = data.skip(5);
        if data[3] == ALGO_ZSTD {
            decoded(zstd_decoding(payload))
        } else if data[3] == ALGO_LZ4 {
            decoded(lz4_decoding(payload))
        } else if data[3] == ALGO_GZIP {
            decoded(gzip_decoding(payload))
        } else {
            Err(
                CompressionFault::UnsupportedType(
                    "unknown compression algorithm byte "@ + decimal(data[3] as nat),
                ),
            )
        }
    }
}

/// A compression result as a sequence of bytes or a fault.
pub open spec fn outcome(r: Result<Vec<u8>, CompressionError>) -> Result<Seq<u8>, CompressionFault> {
    match r {
        Ok(v) => Ok(v@),
        Err(e) => Err(e@),
    }
}

/// A copy of a byte slice.
pub fn bytes_copy(data: &[u8]) -> (v: Vec<u8>)
    ensures
        v@ == data@,
{
    let mut v: Vec<u8> = Vec::new();
    append_bytes(&mut v, data);
    v
}

/// Appends a byte slice to a vector.
pub fn append_bytes(v: &mut Vec<u8>, data: &[u8])
    ensures
        final(v)@ == old(v)@ + data@,
{
    let mut i: usize = 0;
    while i < data.len()
        invariant
            i <= data.len(),
            v@ == old(v)@ + data@.take(i as int),
        decreases data.len() - i,
    {
        v.push(data[i]);
        i = i + 1;
        assert(v@ =~= old(v)@ + data@.take(i as int));
    }
    assert(data@.take(data.len() as int) =~= data@);
}

/// Compress data using the specified algorithm and level, wrapping the result in
/// a self-describing frame.
///
/// The level must lie in 1..=9 (higher = better compression). `Uncompressed`
/// gives the data back unframed.
pub fn compress(data: &[u8], compression_type: CompressionType, level: i32) -> (r: Result<
    Vec<u8>,
    CompressionError,
>)
    ensures
        outcome(r) == compress_spec(data@, compression_type, level),
{
    if !(1 <= level && level <= 9) {
        return Err(CompressionError::InvalidLevel(level));
    }
    if compression_type == CompressionType::Uncompressed {
        return Ok(bytes_copy(data));
    }
    let encoded = match compression_type {
        CompressionType::Zstd => zstd_encode(data, level),
        CompressionType::Lz4 => lz4_encode(data, level),
        _ => gzip_encode(data, level as u32),
    };
    let payload = match encoded {
        Ok(p) => p,
        Err(e) => {
            return Err(CompressionError::CompressionFailed(e));
        },
    };
    let mut framed_bytes: Vec<u8> = Vec::new();
    framed_bytes.push(71u8);
    framed_bytes.push(90u8);
    framed_bytes.push(67u8);
    framed_bytes.push(algo_to_byte(compression_type));
    framed_bytes.push(FRAME_VERSION);
    append_bytes(&mut framed_bytes, payload.as_slice());
    assert(framed_bytes@ =~= framed(compression_type, payload@));
    Ok(framed_bytes)
}

/// A decoder result as a decompression result.
fn decoder_result(r: Result<Vec<u8>, String>) -> (o: Result<Vec<u8>, CompressionError>)
    ensures
        outcome(o) == decoded(bytes_outcome(r)),
{
    match r {
        Ok(v) => Ok(v),
        Err(e) => Err(CompressionError::DecompressionFailed(e)),
    }
}

/// Decompress a framed payload produced by [`compress`].
///
/// `declared_type` is the algorithm advertised in the message metadata. For
/// `Uncompressed` the data is returned unchanged; otherwise the frame is
/// validated (magic + version) and dispatched by the algorithm byte it carries.
///
/// Whatever `compress` framed with any algorithm at a valid level decompresses
/// back to the original data, under any declared compressing algorithm.
pub fn decompress(data: &[u8], declared_type: CompressionType) -> (r: Result<
    Vec<u8>,
    CompressionError,
>)
    ensures
        outcome(r) == decompress_spec(data@, declared_type),
        declared_type != CompressionType::Uncompressed ==> forall|
            d: Seq<u8>,
            t: CompressionType,
            l: i32,
        |
            t != CompressionType::Uncompressed && #[trigger] compress_spec(d, t, l) == Ok::<
                Seq<u8>,
                CompressionFault,
            >(data@) ==> outcome(r) == Ok::<Seq<u8>, CompressionFault>(d),
{
    if declared_type == CompressionType::Uncompressed {
        return Ok(bytes_copy(data));
    }
    if data.len() < FRAME_HEADER_LEN || data[0] != 71u8 || data[1] != 90u8 || data[2] != 67u8 {
        proof {
            if data@.len() >= 5 {
                if data@.take(3) == frame_magic() {
                    assert(data@.take(3)[0] == data@[0]);
                    assert(data@.take(3)[1] == data@[1]);
                    assert(data@.take(3)[2] == data@[2]);
                }
            }
            lemma_no_frame(data@);
        }
        let m = String::from_str("compressed payload is missing the expected frame header");
        return Err(CompressionError::DecompressionFailed(m));
    }
    assert(data@.take(3) =~= frame_magic());
    let algo = data[3];
    let version = data[4];
    if version != FRAME_VERSION {
        proof {
            lemma_frame_bytes(data@);
        }
        let mut m = String::from_str("unsupported compression frame version ");
        let d = string_of(decimal_u64(version as u64).as_slice());
        m.append(d.as_str());
        return Err(CompressionError::DecompressionFailed(m));
    }
    let payload = &data[FRAME_HEADER_LEN..data.len()];
    assert(payload@ =~= data@.skip(5));
    proof {
        lemma_frame_bytes(data@);
    }
    if algo == ALGO_ZSTD {
        decoder_result(zstd_decode(payload))
    } else if algo == ALGO_LZ4 {
        decoder_result(lz4_decode(payload))
    } else if algo == ALGO_GZIP {
        decoder_result(gzip_decode(payload))
    } else {
        let mut m = String::from_str("unknown compression algorithm byte ");
        let d = string_of(decimal_u64(algo as u64).as_slice());
        m.append(d.as_str());
        Err(CompressionError::UnsupportedType(m))
    }
}

/// A frame `compress` made starts with the magic, its algorithm's byte and the
/// frame version, and carries the encoder output after them.
proof fn lemma_frame_bytes(data: Seq<u8>)
    ensures
        forall|d: Seq<u8>, t: CompressionType, l: i32|
            t != CompressionType::Uncompressed && #[trigger] compress_spec(d, t, l) == Ok::<
                Seq<u8>,
                CompressionFault,
            >(data) ==> {
                &&& data.len() >= 5
                &&& data.take(3) == frame_magic()
                &&& data[3] == algo_byte(t)
                &&& data[4] == FRAME_VERSION
                &&& encoding(d, t, l) == Ok::<Seq<u8>, Seq<char>>(data.skip(5))
                &&& 1 <= l <= 9
            },
{
    assert forall|d: Seq<u8>, t: CompressionType, l: i32|
        t != CompressionType::Uncompressed && #[trigger] compress_spec(d, t, l) == Ok::<
            Seq<u8>,
            CompressionFault,
        >(data) implies {
        &&& data.len() >= 5
        &&& data.take(3) == frame_magic()
        &&& data[3] == algo_byte(t)
        &&& data[4] == FRAME_VERSION
        &&& encoding(d, t, l) == Ok::<Seq<u8>, Seq<char>>(data.skip(5))
        &&& 1 <= l <= 9
    } by {
        let p = encoding(d, t, l)->Ok_0;
        assert(data =~= framed(t, p));
        assert(data.take(3) =~= frame_magic());
        assert(data.skip(5) =~= p);
    }
}

/// Data without the frame header is no frame `compress` made.
proof fn lemma_no_frame(data: Seq<u8>)
    requires
        data.len() < 5 || data.take(3) != frame_magic(),
    ensures
        forall|d: Seq<u8>, t: CompressionType, l: i32|
            t != CompressionType::Uncompressed ==> #[trigger] compress_spec(d, t, l) != Ok::<
                Seq<u8>,
                CompressionFault,
            >(data),
{
    lemma_frame_bytes(data);
}

} // verus!
