//! Metadata keys used in attachments.

use vstd::prelude::*;

verus! {

/// GStreamer caps serialized as a string
pub const CAPS: &'static str = "gst.caps";

/// Custom user-defined metadata prefix
pub const USER_PREFIX: &'static str = "user.";

/// Metadata format version
pub const VERSION: &'static str = "gst.version";

/// Compression algorithm used (if any)
pub const COMPRESSION: &'static str = "gst.compression";

/// Buffer presentation timestamp in nanoseconds
pub const PTS: &'static str = "gst.pts";

/// Buffer decoding timestamp in nanoseconds
pub const DTS: &'static str = "gst.dts";

/// Buffer duration in nanoseconds
pub const DURATION: &'static str = "gst.duration";

/// Buffer byte offset
pub const OFFSET: &'static str = "gst.offset";

/// Buffer byte offset end
pub const OFFSET_END: &'static str = "gst.offset-end";

/// Buffer flags (comma-separated)
pub const FLAGS: &'static str = "gst.flags";

/// Key expression the sample was received on
pub const KEY_EXPR: &'static str = "zenoh.key-expr";

} // verus!
