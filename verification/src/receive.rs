//! What a received sample becomes: its attachment read as metadata, its
//! payload decompressed as the metadata says, and its timestamp as a
//! presentation time.

use vstd::prelude::*;
use crate::compression::{
    decompress, decompress_spec, outcome, type_of_metadata_value, CompressionError,
    CompressionFault, CompressionType,
};
use crate::metadata::{parse_attachment, BufferTiming, MetadataFields, MetadataParser};

verus! {

/// The algorithm a sample's metadata names, when it names a known one.
pub open spec fn sample_compression(m: MetadataFields) -> Option<CompressionType> {
    match m.compression {
        Some(c) => type_of_metadata_value(c),
        None => None,
    }
}

/// What a sample decodes to: the payload (decompressed when the metadata
/// names a known algorithm) and the metadata when the attachment parses, or
/// why decompression failed. An attachment that does not parse is ignored.
pub open spec fn decode_spec(attachment: Option<Seq<u8>>, payload: Seq<u8>) -> Result<
    (Seq<u8>, Option<MetadataFields>),
    CompressionFault,
> {
    match attachment {
        None => Ok((payload, None)),
        Some(a) => match parse_attachment(a) {
            Err(_) => Ok((payload, None)),
            Ok(m) => match sample_compression(m) {
                None => Ok((payload, Some(m))),
                Some(t) => match decompress_spec(payload, t) {
                    Ok(d) => Ok((d, Some(m))),
                    Err(e) => Err(e),
                },
            },
        },
    }
}

/// A decoded sample: its data, its metadata, and why its attachment did not
/// parse, if it did not.
pub struct DecodedSample {
    pub data: Vec<u8>,
    pub metadata: Option<MetadataParser>,
    pub metadata_error: Option<String>,
}

/// The metadata of a decoded sample.
pub open spec fn metadata_view(m: Option<MetadataParser>) -> Option<MetadataFields> {
    match m {
        Some(p) => Some(p@),
        None => None,
    }
}

/// Decode a received sample: parse its attachment, if any, as metadata and
/// decompress its payload when the metadata names a known algorithm.
pub fn decode_sample(attachment: Option<&[u8]>, payload: &[u8]) -> (r: Result<
    DecodedSample,
    CompressionError,
>)
    ensures
        match (r, decode_spec(
            match attachment {
                Some(a) => Some(a@),
                None => None,
            },
            payload@,
        )) {
            (Ok(s), Ok((d, m))) => s.data@ == d && metadata_view(s.metadata) == m && (
            s.metadata_error is Some <==> (attachment is Some && parse_attachment(
                attachment->Some_0@,
            ) is Err)) && (s.metadata_error matches Some(e) ==> parse_attachment(
                attachment->Some_0@,
            ) == Err::<MetadataFields, Seq<char>>(e@)),
            (Err(e), Err(f)) => e@ == f,
            _ => false,
        },
{
    let a = match attachment {
        None => {
            return Ok(
                DecodedSample {
                    data: crate::compression::bytes_copy(payload),
                    metadata: None,
                    metadata_error: None,
                },
            );
        },
        Some(a) => a,
    };
    match MetadataParser::parse(a) {
        Err(e) => Ok(
            DecodedSample {
                data: crate::compression::bytes_copy(payload),
                metadata: None,
                metadata_error: Some(e),
            },
        ),
        Ok(m) => {
            let t = match m.compression() {
                Some(c) => CompressionType::from_metadata_value(c),
                None => None,
            };
            match t {
                None => Ok(
                    DecodedSample {
                        data: crate::compression::bytes_copy(payload),
                        metadata: Some(m),
                        metadata_error: None,
                    },
                ),
                Some(t) => {
                    let r = decompress(payload, t);
                    match r {
                        Ok(d) => Ok(DecodedSample { data: d, metadata: Some(m), metadata_error: None }),
                        Err(e) => Err(e),
                    }
                },
            }
        },
    }
}

/// Seconds from the NTP epoch (1900) to the Unix epoch (1970).
pub const NTP_UNIX_OFFSET: u64 = 2208988800;

/// Calls `NTP64::as_secs`; claims it gives the upper 32 bits of the
/// timestamp, the seconds part.
#[verifier::external_body]
fn ntp_secs(t: u64) -> (s: u32)
    ensures
        s == t / 0x1_0000_0000,
{
    zenoh::time::NTP64(t).as_secs()
}

/// Calls `NTP64::subsec_nanos`; claims it gives the lower 32 bits, the
/// fraction of a second, in nanoseconds rounded up.
#[verifier::external_body]
fn ntp_subsec_nanos(t: u64) -> (n: u32)
    ensures
        n as int == ((t % 0x1_0000_0000) * 1_000_000_000 + 0xffff_ffff) / 0x1_0000_0000,
{
    zenoh::time::NTP64(t).subsec_nanos()
}

/// The Unix time in nanoseconds of an NTP64 timestamp, when it lies after
/// the Unix epoch.
pub open spec fn ntp_unix_nanos(t: u64) -> Option<u64> {
    let secs = t / 0x1_0000_0000;
    let nanos = ((t % 0x1_0000_0000) * 1_000_000_000 + 0xffff_ffff) / 0x1_0000_0000;
    if secs >= NTP_UNIX_OFFSET {
        Some(((secs - NTP_UNIX_OFFSET) * 1_000_000_000 + nanos) as u64)
    } else {
        None
    }
}

/// Convert an NTP64 timestamp (seconds since 1900 in the upper 32 bits, the
/// fraction of a second in the lower) to nanoseconds since the Unix epoch;
/// `None` for times before 1970.
pub fn ntp_to_unix_nanos(t: u64) -> (r: Option<u64>)
    ensures
        r == ntp_unix_nanos(t),
{
    let secs = ntp_secs(t) as u64;
    let nanos = ntp_subsec_nanos(t) as u64;
    if secs >= NTP_UNIX_OFFSET {
        assert(nanos <= 1_000_000_000) by (nonlinear_arith)
            requires
                nanos as int == ((t % 0x1_0000_0000) * 1_000_000_000 + 0xffff_ffff) / 0x1_0000_0000,
        ;
        assert((secs - NTP_UNIX_OFFSET) * 1_000_000_000 <= 0x1_0000_0000 * 1_000_000_000)
            by (nonlinear_arith)
            requires
                secs < 0x1_0000_0000,
                secs >= NTP_UNIX_OFFSET,
        ;
        let unix_secs = secs - NTP_UNIX_OFFSET;
        Some(unix_secs * 1_000_000_000 + nanos)
    } else {
        None
    }
}

/// The timing a buffer carries when it is created: nothing set.
pub open spec fn fresh_timing() -> BufferTiming {
    BufferTiming {
        pts: None,
        dts: None,
        duration: None,
        offset: u64::MAX,
        offset_end: u64::MAX,
        flags: crate::metadata::BufferFlags::none_set(),
    }
}

/// A buffer's timing after the metadata's timing fields are applied: each
/// field the metadata has replaces the buffer's own.
pub open spec fn timing_from(t: BufferTiming, m: MetadataFields) -> BufferTiming {
    BufferTiming {
        pts: if m.pts is Some {
            m.pts
        } else {
            t.pts
        },
        dts: if m.dts is Some {
            m.dts
        } else {
            t.dts
        },
        duration: if m.duration is Some {
            m.duration
        } else {
            t.duration
        },
        offset: match m.offset {
            Some(o) => o,
            None => t.offset,
        },
        offset_end: match m.offset_end {
            Some(o) => o,
            None => t.offset_end,
        },
        flags: match m.flags {
            Some(f) => f,
            None => t.flags,
        },
    }
}

/// Whether the metadata carries any buffer timing.
pub open spec fn has_timing(m: MetadataFields) -> bool {
    m.pts is Some || m.dts is Some || m.duration is Some || m.offset is Some || m.offset_end is Some
        || m.flags is Some
}

/// Whether a buffer timing carries every timing field the metadata has: its
/// timestamps, its offsets and its flags.
pub open spec fn carries_timing(m: MetadataFields, t: BufferTiming) -> bool {
    &&& (m.pts matches Some(p) ==> t.pts == Some(p))
    &&& (m.dts matches Some(d) ==> t.dts == Some(d))
    &&& (m.duration matches Some(d) ==> t.duration == Some(d))
    &&& (m.offset matches Some(o) ==> t.offset == o)
    &&& (m.offset_end matches Some(o) ==> t.offset_end == o)
    &&& (m.flags matches Some(f) ==> t.flags == f)
}

/// The timing of a new buffer: nothing set.
pub fn fresh_buffer_timing() -> (t: BufferTiming)
    ensures
        t == fresh_timing(),
{
    BufferTiming {
        pts: None,
        dts: None,
        duration: None,
        offset: u64::MAX,
        offset_end: u64::MAX,
        flags: crate::metadata::BufferFlags::empty(),
    }
}

/// Whether parsed metadata carries any buffer timing.
pub fn metadata_has_timing(m: &MetadataParser) -> (r: bool)
    ensures
        r == has_timing(m@),
{
    m.pts().is_some() || m.dts().is_some() || m.duration().is_some() || m.offset().is_some()
        || m.offset_end().is_some() || m.flags().is_some()
}

} // verus!
