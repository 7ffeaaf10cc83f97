//! The sink element's logic: its settings and their URI form, the publisher
//! it asks for, when caps travel with a buffer, how a buffer is encoded, and
//! what a publish outcome does to the data flow.

use vstd::prelude::*;
use vstd::utf8::encode_utf8;
use crate::compression::{compress, compress_spec, outcome, CompressionType, CompressionFault};
use crate::element::{ElementProperties, PropView, prop_view, props_view, push_prop, session_source, session_source_of, session_source_view, PropValue, SessionSource, SetOutcome};
use crate::error::{
    error_message, error_message_of, ErrorDomain, ErrorHandling, ErrorMessage, FlowError,
    FlowErrorHandling, ResourceErrorKind, ZenohError,
};
use crate::metadata::{
    attachment_text, lemma_attachment_roundtrip, lemma_flags_text_nonempty, parse_attachment,
    roundtrip_safe, BufferFlags, BufferTiming, MetadataBuilder, MetadataFields,
};
use crate::text::{
    append_chars, chars_of, decimal, decimal_u64, join, join_chars, parse_bool, parse_u8,
    parse_u8_chars, str_eq, string_of, views,
};
use crate::uri::{
    lemma_pairs_push, lemma_pct_encode_plain, lemma_query_of_params, lemma_uri_target_of,
    lemma_url_decoded_encoded, lemma_url_decoded_plain, pairs_of,
    decode_component, encode_component, opt_string_view, parse_query, parse_uri, pct_encode,
    query_params, string_pairs_view, uri_error, uri_target, url_decoded, UriError, UriErrorKind,
};
use crate::zenohsrc::{amp_free, clamp, lemma_amp_free_push, lemma_decimal_plain};
use crate::text::lemma_parse_decimal;

verus! {

/// The sink's settings, as character sequences.
pub struct SinkConfig {
    pub key_expr: Seq<char>,
    pub config_file: Option<Seq<char>>,
    pub priority: u8,
    pub congestion_control: Seq<char>,
    pub reliability: Seq<char>,
    pub express: bool,
    pub send_caps: bool,
    pub caps_interval: u32,
    pub send_buffer_meta: bool,
    pub publish_timeout_ms: u64,
    pub compression: CompressionType,
    pub compression_level: i32,
    pub session_group: Option<Seq<char>>,
}

/// Configuration settings for the sink element.
#[derive(Debug, Clone)]
pub struct SinkSettings {
    /// Zenoh key expression for publishing data (required)
    pub key_expr: String,
    /// Optional path to Zenoh configuration file
    pub config_file: Option<String>,
    /// Publisher priority level (1=RealTime .. 5=Data (default) .. 7=Background)
    pub priority: u8,
    /// Congestion control policy: "block" or "drop"
    pub congestion_control: String,
    /// Reliability mode: "best-effort" or "reliable"
    pub reliability: String,
    /// Enable express mode for lower latency (bypasses some queues)
    pub express: bool,
    /// Send caps as metadata with buffers (default: true)
    pub send_caps: bool,
    /// Interval in seconds to send caps periodically (0 = only on first buffer and changes)
    pub caps_interval: u32,
    /// Send buffer timing metadata with each buffer (default: true)
    pub send_buffer_meta: bool,
    /// Maximum time in milliseconds to wait for a single publish (0 = wait indefinitely)
    pub publish_timeout_ms: u64,
    /// Compression algorithm to use
    pub compression: CompressionType,
    /// Compression level (1-9, higher = better compression but slower)
    pub compression_level: i32,
    /// Session group name for sharing sessions via property
    pub session_group: Option<String>,
}

/// The default settings: no key expression or config file, priority 5 (data),
/// blocking congestion control, best-effort reliability, no express mode,
/// caps sent every second, buffer metadata sent, a 5000 ms publish timeout,
/// no compression at level 5, and no session group.
pub open spec fn sink_defaults() -> SinkConfig {
    SinkConfig {
        key_expr: Seq::empty(),
        config_file: None,
        priority: 5,
        congestion_control: "block"@,
        reliability: "best-effort"@,
        express: false,
        send_caps: true,
        caps_interval: 1,
        send_buffer_meta: true,
        publish_timeout_ms: 5000,
        compression: CompressionType::Uncompressed,
        compression_level: 5,
        session_group: None,
    }
}

/// The name of the `dropped` statistic differs from the other property names.
proof fn lemma_sink_dropped_name()
    ensures
        "dropped"@ != "key-expr"@,
        "dropped"@ != "config"@,
        "dropped"@ != "priority"@,
        "dropped"@ != "congestion-control"@,
        "dropped"@ != "reliability"@,
        "dropped"@ != "express"@,
        "dropped"@ != "send-caps"@,
        "dropped"@ != "caps-interval"@,
        "dropped"@ != "send-buffer-meta"@,
        "dropped"@ != "publish-timeout-ms"@,
        "dropped"@ != "compression"@,
        "dropped"@ != "compression-level"@,
        "dropped"@ != "session-group"@,
        "dropped"@ != "has-subscribers"@,
        "dropped"@ != "connected"@,
        "dropped"@ != "bytes-sent"@,
        "dropped"@ != "messages-sent"@,
        "dropped"@ != "errors"@,
        "dropped"@ != "bytes-before-compression"@,
        "dropped"@ != "bytes-after-compression"@,
{
    reveal_strlit("dropped");
    reveal_strlit("key-expr");
    reveal_strlit("config");
    reveal_strlit("priority");
    reveal_strlit("congestion-control");
    reveal_strlit("reliability");
    reveal_strlit("express");
    reveal_strlit("send-caps");
    reveal_strlit("caps-interval");
    reveal_strlit("send-buffer-meta");
    reveal_strlit("publish-timeout-ms");
    reveal_strlit("compression");
    reveal_strlit("compression-level");
    reveal_strlit("session-group");
    reveal_strlit("has-subscribers");
    reveal_strlit("connected");
    reveal_strlit("bytes-sent");
    reveal_strlit("messages-sent");
    reveal_strlit("errors");
    reveal_strlit("bytes-before-compression");
    reveal_strlit("bytes-after-compression");
    assert("dropped"@[0] != "express"@[0]);
}

/// The property names are distinct texts.
proof fn lemma_sink_names()
    ensures
        "key-expr"@ != "config"@,
        "key-expr"@ != "priority"@,
        "key-expr"@ != "congestion-control"@,
        "key-expr"@ != "reliability"@,
        "key-expr"@ != "express"@,
        "key-expr"@ != "send-caps"@,
        "key-expr"@ != "caps-interval"@,
        "key-expr"@ != "send-buffer-meta"@,
        "key-expr"@ != "publish-timeout-ms"@,
        "key-expr"@ != "compression"@,
        "key-expr"@ != "compression-level"@,
        "key-expr"@ != "session-group"@,
        "key-expr"@ != "has-subscribers"@,
        "key-expr"@ != "connected"@,
        "key-expr"@ != "bytes-sent"@,
        "key-expr"@ != "messages-sent"@,
        "key-expr"@ != "errors"@,
        "key-expr"@ != "bytes-before-compression"@,
        "key-expr"@ != "bytes-after-compression"@,
        "config"@ != "priority"@,
        "config"@ != "congestion-control"@,
        "config"@ != "reliability"@,
        "config"@ != "express"@,
        "config"@ != "send-caps"@,
        "config"@ != "caps-interval"@,
        "config"@ != "send-buffer-meta"@,
        "config"@ != "publish-timeout-ms"@,
        "config"@ != "compression"@,
        "config"@ != "compression-level"@,
        "config"@ != "session-group"@,
        "config"@ != "has-subscribers"@,
        "config"@ != "connected"@,
        "config"@ != "bytes-sent"@,
        "config"@ != "messages-sent"@,
        "config"@ != "errors"@,
        "config"@ != "bytes-before-compression"@,
        "config"@ != "bytes-after-compression"@,
        "priority"@ != "congestion-control"@,
        "priority"@ != "reliability"@,
        "priority"@ != "express"@,
        "priority"@ != "send-caps"@,
        "priority"@ != "caps-interval"@,
        "priority"@ != "send-buffer-meta"@,
        "priority"@ != "publish-timeout-ms"@,
        "priority"@ != "compression"@,
        "priority"@ != "compression-level"@,
        "priority"@ != "session-group"@,
        "priority"@ != "has-subscribers"@,
        "priority"@ != "connected"@,
        "priority"@ != "bytes-sent"@,
        "priority"@ != "messages-sent"@,
        "priority"@ != "errors"@,
        "priority"@ != "bytes-before-compression"@,
        "priority"@ != "bytes-after-compression"@,
        "congestion-control"@ != "reliability"@,
        "congestion-control"@ != "express"@,
        "congestion-control"@ != "send-caps"@,
        "congestion-control"@ != "caps-interval"@,
        "congestion-control"@ != "send-buffer-meta"@,
        "congestion-control"@ != "publish-timeout-ms"@,
        "congestion-control"@ != "compression"@,
        "congestion-control"@ != "compression-level"@,
        "congestion-control"@ != "session-group"@,
        "congestion-control"@ != "has-subscribers"@,
        "congestion-control"@ != "connected"@,
        "congestion-control"@ != "bytes-sent"@,
        "congestion-control"@ != "messages-sent"@,
        "congestion-control"@ != "errors"@,
        "congestion-control"@ != "bytes-before-compression"@,
        "congestion-control"@ != "bytes-after-compression"@,
        "reliability"@ != "express"@,
        "reliability"@ != "send-caps"@,
        "reliability"@ != "caps-interval"@,
        "reliability"@ != "send-buffer-meta"@,
        "reliability"@ != "publish-timeout-ms"@,
        "reliability"@ != "compression"@,
        "reliability"@ != "compression-level"@,
        "reliability"@ != "session-group"@,
        "reliability"@ != "has-subscribers"@,
        "reliability"@ != "connected"@,
        "reliability"@ != "bytes-sent"@,
        "reliability"@ != "messages-sent"@,
        "reliability"@ != "errors"@,
        "reliability"@ != "bytes-before-compression"@,
        "reliability"@ != "bytes-after-compression"@,
        "express"@ != "send-caps"@,
        "express"@ != "caps-interval"@,
        "express"@ != "send-buffer-meta"@,
        "express"@ != "publish-timeout-ms"@,
        "express"@ != "compression"@,
        "express"@ != "compression-level"@,
        "express"@ != "session-group"@,
        "express"@ != "has-subscribers"@,
        "express"@ != "connected"@,
        "express"@ != "bytes-sent"@,
        "express"@ != "messages-sent"@,
        "express"@ != "errors"@,
        "express"@ != "bytes-before-compression"@,
        "express"@ != "bytes-after-compression"@,
        "send-caps"@ != "caps-interval"@,
        "send-caps"@ != "send-buffer-meta"@,
        "send-caps"@ != "publish-timeout-ms"@,
        "send-caps"@ != "compression"@,
        "send-caps"@ != "compression-level"@,
        "send-caps"@ != "session-group"@,
        "send-caps"@ != "has-subscribers"@,
        "send-caps"@ != "connected"@,
        "send-caps"@ != "bytes-sent"@,
        "send-caps"@ != "messages-sent"@,
        "send-caps"@ != "errors"@,
        "send-caps"@ != "bytes-before-compression"@,
        "send-caps"@ != "bytes-after-compression"@,
        "caps-interval"@ != "send-buffer-meta"@,
        "caps-interval"@ != "publish-timeout-ms"@,
        "caps-interval"@ != "compression"@,
        "caps-interval"@ != "compression-level"@,
        "caps-interval"@ != "session-group"@,
        "caps-interval"@ != "has-subscribers"@,
        "caps-interval"@ != "connected"@,
        "caps-interval"@ != "bytes-sent"@,
        "caps-interval"@ != "messages-sent"@,
        "caps-interval"@ != "errors"@,
        "caps-interval"@ != "bytes-before-compression"@,
        "caps-interval"@ != "bytes-after-compression"@,
        "send-buffer-meta"@ != "publish-timeout-ms"@,
        "send-buffer-meta"@ != "compression"@,
        "send-buffer-meta"@ != "compression-level"@,
        "send-buffer-meta"@ != "session-group"@,
        "send-buffer-meta"@ != "has-subscribers"@,
        "send-buffer-meta"@ != "connected"@,
        "send-buffer-meta"@ != "bytes-sent"@,
        "send-buffer-meta"@ != "messages-sent"@,
        "send-buffer-meta"@ != "errors"@,
        "send-buffer-meta"@ != "bytes-before-compression"@,
        "send-buffer-meta"@ != "bytes-after-compression"@,
        "publish-timeout-ms"@ != "compression"@,
        "publish-timeout-ms"@ != "compression-level"@,
        "publish-timeout-ms"@ != "session-group"@,
        "publish-timeout-ms"@ != "has-subscribers"@,
        "publish-timeout-ms"@ != "connected"@,
        "publish-timeout-ms"@ != "bytes-sent"@,
        "publish-timeout-ms"@ != "messages-sent"@,
        "publish-timeout-ms"@ != "errors"@,
        "publish-timeout-ms"@ != "bytes-before-compression"@,
        "publish-timeout-ms"@ != "bytes-after-compression"@,
        "compression"@ != "compression-level"@,
        "compression"@ != "session-group"@,
        "compression"@ != "has-subscribers"@,
        "compression"@ != "connected"@,
        "compression"@ != "bytes-sent"@,
        "compression"@ != "messages-sent"@,
        "compression"@ != "errors"@,
        "compression"@ != "bytes-before-compression"@,
        "compression"@ != "bytes-after-compression"@,
        "compression-level"@ != "session-group"@,
        "compression-level"@ != "has-subscribers"@,
        "compression-level"@ != "connected"@,
        "compression-level"@ != "bytes-sent"@,
        "compression-level"@ != "messages-sent"@,
        "compression-level"@ != "errors"@,
        "compression-level"@ != "bytes-before-compression"@,
        "compression-level"@ != "bytes-after-compression"@,
        "session-group"@ != "has-subscribers"@,
        "session-group"@ != "connected"@,
        "session-group"@ != "bytes-sent"@,
        "session-group"@ != "messages-sent"@,
        "session-group"@ != "errors"@,
        "session-group"@ != "bytes-before-compression"@,
        "session-group"@ != "bytes-after-compression"@,
        "has-subscribers"@ != "connected"@,
        "has-subscribers"@ != "bytes-sent"@,
        "has-subscribers"@ != "messages-sent"@,
        "has-subscribers"@ != "errors"@,
        "has-subscribers"@ != "bytes-before-compression"@,
        "has-subscribers"@ != "bytes-after-compression"@,
        "connected"@ != "bytes-sent"@,
        "connected"@ != "messages-sent"@,
        "connected"@ != "errors"@,
        "connected"@ != "bytes-before-compression"@,
        "connected"@ != "bytes-after-compression"@,
        "bytes-sent"@ != "messages-sent"@,
        "bytes-sent"@ != "errors"@,
        "bytes-sent"@ != "bytes-before-compression"@,
        "bytes-sent"@ != "bytes-after-compression"@,
        "messages-sent"@ != "errors"@,
        "messages-sent"@ != "bytes-before-compression"@,
        "messages-sent"@ != "bytes-after-compression"@,
        "errors"@ != "bytes-before-compression"@,
        "errors"@ != "bytes-after-compression"@,
        "bytes-before-compression"@ != "bytes-after-compression"@,
{
    reveal_strlit("key-expr");
    reveal_strlit("config");
    reveal_strlit("priority");
    reveal_strlit("congestion-control");
    reveal_strlit("reliability");
    reveal_strlit("express");
    reveal_strlit("send-caps");
    reveal_strlit("caps-interval");
    reveal_strlit("send-buffer-meta");
    reveal_strlit("publish-timeout-ms");
    reveal_strlit("compression");
    reveal_strlit("compression-level");
    reveal_strlit("session-group");
    reveal_strlit("has-subscribers");
    reveal_strlit("connected");
    reveal_strlit("bytes-sent");
    reveal_strlit("messages-sent");
    reveal_strlit("errors");
    reveal_strlit("bytes-before-compression");
    reveal_strlit("bytes-after-compression");
    assert("key-expr"@.len() != "config"@.len());
    assert("key-expr"@[0] != "priority"@[0]);
    assert("key-expr"@.len() != "congestion-control"@.len());
    assert("key-expr"@.len() != "reliability"@.len());
    assert("key-expr"@.len() != "express"@.len());
    assert("key-expr"@.len() != "send-caps"@.len());
    assert("key-expr"@.len() != "caps-interval"@.len());
    assert("key-expr"@.len() != "send-buffer-meta"@.len());
    assert("key-expr"@.len() != "publish-timeout-ms"@.len());
    assert("key-expr"@.len() != "compression"@.len());
    assert("key-expr"@.len() != "compression-level"@.len());
    assert("key-expr"@.len() != "session-group"@.len());
    assert("key-expr"@.len() != "has-subscribers"@.len());
    assert("key-expr"@.len() != "connected"@.len());
    assert("key-expr"@.len() != "bytes-sent"@.len());
    assert("key-expr"@.len() != "messages-sent"@.len());
    assert("key-expr"@.len() != "errors"@.len());
    assert("key-expr"@.len() != "bytes-before-compression"@.len());
    assert("key-expr"@.len() != "bytes-after-compression"@.len());
    assert("config"@.len() != "priority"@.len());
    assert("config"@.len() != "congestion-control"@.len());
    assert("config"@.len() != "reliability"@.len());
    assert("config"@.len() != "express"@.len());
    assert("config"@.len() != "send-caps"@.len());
    assert("config"@.len() != "caps-interval"@.len());
    assert("config"@.len() != "send-buffer-meta"@.len());
    assert("config"@.len() != "publish-timeout-ms"@.len());
    assert("config"@.len() != "compression"@.len());
    assert("config"@.len() != "compression-level"@.len());
    assert("config"@.len() != "session-group"@.len());
    assert("config"@.len() != "has-subscribers"@.len());
    assert("config"@.len() != "connected"@.len());
    assert("config"@.len() != "bytes-sent"@.len());
    assert("config"@.len() != "messages-sent"@.len());
    assert("config"@[0] != "errors"@[0]);
    assert("config"@.len() != "bytes-before-compression"@.len());
    assert("config"@.len() != "bytes-after-compression"@.len());
    assert("priority"@.len() != "congestion-control"@.len());
    assert("priority"@.len() != "reliability"@.len());
    assert("priority"@.len() != "express"@.len());
    assert("priority"@.len() != "send-caps"@.len());
    assert("priority"@.len() != "caps-interval"@.len());
    assert("priority"@.len() != "send-buffer-meta"@.len());
    assert("priority"@.len() != "publish-timeout-ms"@.len());
    assert("priority"@.len() != "compression"@.len());
    assert("priority"@.len() != "compression-level"@.len());
    assert("priority"@.len() != "session-group"@.len());
    assert("priority"@.len() != "has-subscribers"@.len());
    assert("priority"@.len() != "connected"@.len());
    assert("priority"@.len() != "bytes-sent"@.len());
    assert("priority"@.len() != "messages-sent"@.len());
    assert("priority"@.len() != "errors"@.len());
    assert("priority"@.len() != "bytes-before-compression"@.len());
    assert("priority"@.len() != "bytes-after-compression"@.len());
    assert("congestion-control"@.len() != "reliability"@.len());
    assert("congestion-control"@.len() != "express"@.len());
    assert("congestion-control"@.len() != "send-caps"@.len());
    assert("congestion-control"@.len() != "caps-interval"@.len());
    assert("congestion-control"@.len() != "send-buffer-meta"@.len());
    assert("congestion-control"@[0] != "publish-timeout-ms"@[0]);
    assert("congestion-control"@.len() != "compression"@.len());
    assert("congestion-control"@.len() != "compression-level"@.len());
    assert("congestion-control"@.len() != "session-group"@.len());
    assert("congestion-control"@.len() != "has-subscribers"@.len());
    assert("congestion-control"@.len() != "connected"@.len());
    assert("congestion-control"@.len() != "bytes-sent"@.len());
    assert("congestion-control"@.len() != "messages-sent"@.len());
    assert("congestion-control"@.len() != "errors"@.len());
    assert("congestion-control"@.len() != "bytes-before-compression"@.len());
    assert("congestion-control"@.len() != "bytes-after-compression"@.len());
    assert("reliability"@.len() != "express"@.len());
    assert("reliability"@.len() != "send-caps"@.len());
    assert("reliability"@.len() != "caps-interval"@.len());
    assert("reliability"@.len() != "send-buffer-meta"@.len());
    assert("reliability"@.len() != "publish-timeout-ms"@.len());
    assert("reliability"@[0] != "compression"@[0]);
    assert("reliability"@.len() != "compression-level"@.len());
    assert("reliability"@.len() != "session-group"@.len());
    assert("reliability"@.len() != "has-subscribers"@.len());
    assert("reliability"@.len() != "connected"@.len());
    assert("reliability"@.len() != "bytes-sent"@.len());
    assert("reliability"@.len() != "messages-sent"@.len());
    assert("reliability"@.len() != "errors"@.len());
    assert("reliability"@.len() != "bytes-before-compression"@.len());
    assert("reliability"@.len() != "bytes-after-compression"@.len());
    assert("express"@.len() != "send-caps"@.len());
    assert("express"@.len() != "caps-interval"@.len());
    assert("express"@.len() != "send-buffer-meta"@.len());
    assert("express"@.len() != "publish-timeout-ms"@.len());
    assert("express"@.len() != "compression"@.len());
    assert("express"@.len() != "compression-level"@.len());
    assert("express"@.len() != "session-group"@.len());
    assert("express"@.len() != "has-subscribers"@.len());
    assert("express"@.len() != "connected"@.len());
    assert("express"@.len() != "bytes-sent"@.len());
    assert("express"@.len() != "messages-sent"@.len());
    assert("express"@.len() != "errors"@.len());
    assert("express"@.len() != "bytes-before-compression"@.len());
    assert("express"@.len() != "bytes-after-compression"@.len());
    assert("send-caps"@.len() != "caps-interval"@.len());
    assert("send-caps"@.len() != "send-buffer-meta"@.len());
    assert("send-caps"@.len() != "publish-timeout-ms"@.len());
    assert("send-caps"@.len() != "compression"@.len());
    assert("send-caps"@.len() != "compression-level"@.len());
    assert("send-caps"@.len() != "session-group"@.len());
    assert("send-caps"@.len() != "has-subscribers"@.len());
    assert("send-caps"@[0] != "connected"@[0]);
    assert("send-caps"@.len() != "bytes-sent"@.len());
    assert("send-caps"@.len() != "messages-sent"@.len());
    assert("send-caps"@.len() != "errors"@.len());
    assert("send-caps"@.len() != "bytes-before-compression"@.len());
    assert("send-caps"@.len() != "bytes-after-compression"@.len());
    assert("caps-interval"@.len() != "send-buffer-meta"@.len());
    assert("caps-interval"@.len() != "publish-timeout-ms"@.len());
    assert("caps-interval"@.len() != "compression"@.len());
    assert("caps-interval"@.len() != "compression-level"@.len());
    assert("caps-interval"@[0] != "session-group"@[0]);
    assert("caps-interval"@.len() != "has-subscribers"@.len());
    assert("caps-interval"@.len() != "connected"@.len());
    assert("caps-interval"@.len() != "bytes-sent"@.len());
    assert("caps-interval"@[0] != "messages-sent"@[0]);
    assert("caps-interval"@.len() != "errors"@.len());
    assert("caps-interval"@.len() != "bytes-before-compression"@.len());
    assert("caps-interval"@.len() != "bytes-after-compression"@.len());
    assert("send-buffer-meta"@.len() != "publish-timeout-ms"@.len());
    assert("send-buffer-meta"@.len() != "compression"@.len());
    assert("send-buffer-meta"@.len() != "compression-level"@.len());
    assert("send-buffer-meta"@.len() != "session-group"@.len());
    assert("send-buffer-meta"@.len() != "has-subscribers"@.len());
    assert("send-buffer-meta"@.len() != "connected"@.len());
    assert("send-buffer-meta"@.len() != "bytes-sent"@.len());
    assert("send-buffer-meta"@.len() != "messages-sent"@.len());
    assert("send-buffer-meta"@.len() != "errors"@.len());
    assert("send-buffer-meta"@.len() != "bytes-before-compression"@.len());
    assert("send-buffer-meta"@.len() != "bytes-after-compression"@.len());
    assert("publish-timeout-ms"@.len() != "compression"@.len());
    assert("publish-timeout-ms"@.len() != "compression-level"@.len());
    assert("publish-timeout-ms"@.len() != "session-group"@.len());
    assert("publish-timeout-ms"@.len() != "has-subscribers"@.len());
    assert("publish-timeout-ms"@.len() != "connected"@.len());
    assert("publish-timeout-ms"@.len() != "bytes-sent"@.len());
    assert("publish-timeout-ms"@.len() != "messages-sent"@.len());
    assert("publish-timeout-ms"@.len() != "errors"@.len());
    assert("publish-timeout-ms"@.len() != "bytes-before-compression"@.len());
    assert("publish-timeout-ms"@.len() != "bytes-after-compression"@.len());
    assert("compression"@.len() != "compression-level"@.len());
    assert("compression"@.len() != "session-group"@.len());
    assert("compression"@.len() != "has-subscribers"@.len());
    assert("compression"@.len() != "connected"@.len());
    assert("compression"@.len() != "bytes-sent"@.len());
    assert("compression"@.len() != "messages-sent"@.len());
    assert("compression"@.len() != "errors"@.len());
    assert("compression"@.len() != "bytes-before-compression"@.len());
    assert("compression"@.len() != "bytes-after-compression"@.len());
    assert("compression-level"@.len() != "session-group"@.len());
    assert("compression-level"@.len() != "has-subscribers"@.len());
    assert("compression-level"@.len() != "connected"@.len());
    assert("compression-level"@.len() != "bytes-sent"@.len());
    assert("compression-level"@.len() != "messages-sent"@.len());
    assert("compression-level"@.len() != "errors"@.len());
    assert("compression-level"@.len() != "bytes-before-compression"@.len());
    assert("compression-level"@.len() != "bytes-after-compression"@.len());
    assert("session-group"@.len() != "has-subscribers"@.len());
    assert("session-group"@.len() != "connected"@.len());
    assert("session-group"@.len() != "bytes-sent"@.len());
    assert("session-group"@[0] != "messages-sent"@[0]);
    assert("session-group"@.len() != "errors"@.len());
    assert("session-group"@.len() != "bytes-before-compression"@.len());
    assert("session-group"@.len() != "bytes-after-compression"@.len());
    assert("has-subscribers"@.len() != "connected"@.len());
    assert("has-subscribers"@.len() != "bytes-sent"@.len());
    assert("has-subscribers"@.len() != "messages-sent"@.len());
    assert("has-subscribers"@.len() != "errors"@.len());
    assert("has-subscribers"@.len() != "bytes-before-compression"@.len());
    assert("has-subscribers"@.len() != "bytes-after-compression"@.len());
    assert("connected"@.len() != "bytes-sent"@.len());
    assert("connected"@.len() != "messages-sent"@.len());
    assert("connected"@.len() != "errors"@.len());
    assert("connected"@.len() != "bytes-before-compression"@.len());
    assert("connected"@.len() != "bytes-after-compression"@.len());
    assert("bytes-sent"@.len() != "messages-sent"@.len());
    assert("bytes-sent"@.len() != "errors"@.len());
    assert("bytes-sent"@.len() != "bytes-before-compression"@.len());
    assert("bytes-sent"@.len() != "bytes-after-compression"@.len());
    assert("messages-sent"@.len() != "errors"@.len());
    assert("messages-sent"@.len() != "bytes-before-compression"@.len());
    assert("messages-sent"@.len() != "bytes-after-compression"@.len());
    assert("errors"@.len() != "bytes-before-compression"@.len());
    assert("errors"@.len() != "bytes-after-compression"@.len());
    assert("bytes-before-compression"@.len() != "bytes-after-compression"@.len());
}

/// The URI parameter names are distinct texts.
proof fn lemma_sink_uri_keys()
    ensures
        "config"@ != "priority"@,
        "config"@ != "congestion-control"@,
        "config"@ != "reliability"@,
        "config"@ != "express"@,
        "priority"@ != "congestion-control"@,
        "priority"@ != "reliability"@,
        "priority"@ != "express"@,
        "congestion-control"@ != "reliability"@,
        "congestion-control"@ != "express"@,
        "reliability"@ != "express"@,
{
    reveal_strlit("config");
    reveal_strlit("priority");
    reveal_strlit("congestion-control");
    reveal_strlit("reliability");
    reveal_strlit("express");
    assert("config"@.len() != "priority"@.len());
    assert("config"@.len() != "congestion-control"@.len());
    assert("config"@.len() != "reliability"@.len());
    assert("config"@.len() != "express"@.len());
    assert("priority"@.len() != "congestion-control"@.len());
    assert("priority"@.len() != "reliability"@.len());
    assert("priority"@.len() != "express"@.len());
    assert("congestion-control"@.len() != "reliability"@.len());
    assert("congestion-control"@.len() != "express"@.len());
    assert("reliability"@.len() != "express"@.len());
}

/// The properties that cannot change once the publisher exists (in the Ready
/// or Started state).
pub open spec fn sink_locked_when_ready(name: Seq<char>) -> bool {
    name == "key-expr"@ || name == "config"@ || name == "express"@ || name == "reliability"@
        || name == "congestion-control"@ || name == "priority"@ || name == "session-group"@
}

/// Whether a value has the type a property is declared with.
pub open spec fn sink_value_fits(name: Seq<char>, v: PropValue) -> bool {
    if name == "key-expr"@ || name == "congestion-control"@ || name == "reliability"@ {
        v is Str
    } else if name == "config"@ || name == "session-group"@ {
        v is OptStr
    } else if name == "priority"@ || name == "caps-interval"@ {
        v is U32
    } else if name == "express"@ || name == "send-caps"@ || name == "send-buffer-meta"@ {
        v is Bool
    } else if name == "publish-timeout-ms"@ {
        v is U64
    } else if name == "compression"@ {
        v is Compression
    } else if name == "compression-level"@ {
        v is I32
    } else {
        true
    }
}

/// What setting a property does to the settings, and its outcome.
pub open spec fn sink_set_property(c: SinkConfig, ready: bool, name: Seq<char>, v: PropValue) -> (
    SinkConfig,
    SetOutcome,
) {
    if ready && sink_locked_when_ready(name) {
        (c, SetOutcome::Locked)
    } else if name == "key-expr"@ {
        (SinkConfig { key_expr: v->Str_0@, ..c }, SetOutcome::Applied)
    } else if name == "config"@ {
        (SinkConfig { config_file: opt_string_view(v->OptStr_0), ..c }, SetOutcome::Applied)
    } else if name == "priority"@ {
        let p = (v->U32_0 % 256) as u8;
        if 1 <= p <= 7 {
            (SinkConfig { priority: p, ..c }, SetOutcome::Applied)
        } else {
            (SinkConfig { priority: 5, ..c }, SetOutcome::Defaulted)
        }
    } else if name == "congestion-control"@ {
        let s = v->Str_0@;
        if s == "block"@ || s == "drop"@ {
            (SinkConfig { congestion_control: s, ..c }, SetOutcome::Applied)
        } else {
            (c, SetOutcome::Kept)
        }
    } else if name == "reliability"@ {
        let s = v->Str_0@;
        if s == "best-effort"@ || s == "reliable"@ {
            (SinkConfig { reliability: s, ..c }, SetOutcome::Applied)
        } else {
            (c, SetOutcome::Kept)
        }
    } else if name == "express"@ {
        (SinkConfig { express: v->Bool_0, ..c }, SetOutcome::Applied)
    } else if name == "send-caps"@ {
        (SinkConfig { send_caps: v->Bool_0, ..c }, SetOutcome::Applied)
    } else if name == "caps-interval"@ {
        (SinkConfig { caps_interval: v->U32_0, ..c }, SetOutcome::Applied)
    } else if name == "send-buffer-meta"@ {
        (SinkConfig { send_buffer_meta: v->Bool_0, ..c }, SetOutcome::Applied)
    } else if name == "publish-timeout-ms"@ {
        (SinkConfig { publish_timeout_ms: v->U64_0, ..c }, SetOutcome::Applied)
    } else if name == "compression"@ {
        (SinkConfig { compression: v->Compression_0, ..c }, SetOutcome::Applied)
    } else if name == "compression-level"@ {
        let l = v->I32_0;
        if 1 <= l <= 9 {
            (SinkConfig { compression_level: l, ..c }, SetOutcome::Applied)
        } else {
            (SinkConfig { compression_level: 5, ..c }, SetOutcome::Defaulted)
        }
    } else if name == "session-group"@ {
        (SinkConfig { session_group: opt_string_view(v->OptStr_0), ..c }, SetOutcome::Applied)
    } else {
        (c, SetOutcome::Unknown)
    }
}

/// What reading a settable property gives, for the settable properties.
pub open spec fn sink_prop_read(c: SinkConfig, name: Seq<char>) -> Option<PropView> {
    if name == "key-expr"@ {
        Some(PropView::Str(c.key_expr))
    } else if name == "config"@ {
        Some(PropView::OptStr(c.config_file))
    } else if name == "priority"@ {
        Some(PropView::U32(c.priority as u32))
    } else if name == "congestion-control"@ {
        Some(PropView::Str(c.congestion_control))
    } else if name == "reliability"@ {
        Some(PropView::Str(c.reliability))
    } else if name == "express"@ {
        Some(PropView::Bool(c.express))
    } else if name == "send-caps"@ {
        Some(PropView::Bool(c.send_caps))
    } else if name == "caps-interval"@ {
        Some(PropView::U32(c.caps_interval))
    } else if name == "send-buffer-meta"@ {
        Some(PropView::Bool(c.send_buffer_meta))
    } else if name == "publish-timeout-ms"@ {
        Some(PropView::U64(c.publish_timeout_ms))
    } else if name == "compression"@ {
        Some(PropView::Compression(c.compression))
    } else if name == "compression-level"@ {
        Some(PropView::I32(c.compression_level))
    } else if name == "session-group"@ {
        Some(PropView::OptStr(c.session_group))
    } else {
        None
    }
}

/// Setting a property and reading it back: when the setting is applied, the
/// property reads the value that was set (a priority as the `u8` it is
/// stored as); when it is locked or kept, nothing changes; unless the sink is
/// ready, no setting is locked; and every other property reads as before.
pub proof fn lemma_sink_set_then_get(c: SinkConfig, ready: bool, name: Seq<char>, v: PropValue)
    requires
        sink_value_fits(name, v),
        sink_prop_read(c, name) is Some,
    ensures
        ({
            let (c2, o) = sink_set_property(c, ready, name, v);
            &&& o == SetOutcome::Applied ==> sink_prop_read(c2, name) == Some(
                if name == "priority"@ {
                    PropView::U32(((v->U32_0 % 256) as u8) as u32)
                } else {
                    prop_view(v)
                },
            )
            &&& (o == SetOutcome::Locked || o == SetOutcome::Kept) ==> c2 == c
            &&& !ready ==> o != SetOutcome::Locked
            &&& forall|other: Seq<char>|
                other != name ==> #[trigger] sink_prop_read(c2, other) == sink_prop_read(c, other)
        }),
{
    lemma_sink_names();
}

/// The statistics a started sink reports.
#[derive(Debug, Clone, Copy, PartialEq, Eq, Structural)]
pub struct SinkStats {
    pub bytes_sent: u64,
    pub messages_sent: u64,
    pub errors: u64,
    pub bytes_before_compression: u64,
    pub bytes_after_compression: u64,
}

/// The `?name=value` parameters `uri` writes, in order: the config file
/// (percent-encoded) and every publisher setting that differs from its
/// default.
pub open spec fn sink_uri_params(c: SinkConfig) -> Seq<Seq<char>> {
    let p0 = Seq::<Seq<char>>::empty();
    let p1 = match c.config_file {
        Some(f) => p0.push("config="@ + pct_encode(encode_utf8(f))),
        None => p0,
    };
    let p2 = if c.priority != 5 {
        p1.push("priority="@ + decimal(c.priority as nat))
    } else {
        p1
    };
    let p3 = if c.congestion_control != "block"@ {
        p2.push("congestion-control="@ + c.congestion_control)
    } else {
        p2
    };
    let p4 = if c.reliability != "best-effort"@ {
        p3.push("reliability="@ + c.reliability)
    } else {
        p3
    };
    if c.express {
        p4.push("express=true"@)
    } else {
        p4
    }
}

/// The URI of a sink: none without a key expression, otherwise
/// `zenoh:<key-expr>` and the parameters after a `?`, joined with `&`.
pub open spec fn sink_uri(c: SinkConfig) -> Option<Seq<char>> {
    if c.key_expr.len() == 0 {
        None
    } else {
        let ps = sink_uri_params(c);
        Some("zenoh:"@ + c.key_expr + if ps.len() > 0 {
            "?"@ + join(ps, "&"@)
        } else {
            Seq::empty()
        })
    }
}

/// What one URI parameter does to the settings, or why it is refused.
pub open spec fn sink_uri_param(c: SinkConfig, k: Seq<char>, raw: Seq<char>) -> Result<
    SinkConfig,
    (UriErrorKind, Seq<char>),
> {
    match url_decoded(raw) {
        Err(e) => Err((UriErrorKind::BadUri, "Failed to decode parameter value: "@ + e)),
        Ok(v) => if k == "config"@ {
            Ok(SinkConfig { config_file: Some(v), ..c })
        } else if k == "priority"@ {
            match parse_u8(v) {
                Some(p) => if 1 <= p <= 7 {
                    Ok(SinkConfig { priority: p, ..c })
                } else {
                    Err((UriErrorKind::BadUri, "Invalid priority value: "@ + v))
                },
                None => Err((UriErrorKind::BadUri, "Invalid priority value: "@ + v)),
            }
        } else if k == "congestion-control"@ {
            if v != "block"@ && v != "drop"@ {
                Err((UriErrorKind::BadUri, "Invalid congestion-control value: "@ + v))
            } else {
                Ok(SinkConfig { congestion_control: v, ..c })
            }
        } else if k == "reliability"@ {
            if v != "best-effort"@ && v != "reliable"@ {
                Err((UriErrorKind::BadUri, "Invalid reliability value: "@ + v))
            } else {
                Ok(SinkConfig { reliability: v, ..c })
            }
        } else if k == "express"@ {
            match parse_bool(v) {
                Some(b) => Ok(SinkConfig { express: b, ..c }),
                None => Err((UriErrorKind::BadUri, "Invalid express value: "@ + v)),
            }
        } else {
            Ok(c)
        },
    }
}

/// The settings after the URI parameters, applied in order up to the first
/// refused one, and the refusal if there was one.
pub open spec fn sink_uri_params_apply(c: SinkConfig, ps: Seq<(Seq<char>, Seq<char>)>) -> (
    SinkConfig,
    Option<(UriErrorKind, Seq<char>)>,
)
    decreases ps.len(),
{
    if ps.len() == 0 {
        (c, None)
    } else {
        let (c2, e) = sink_uri_params_apply(c, ps.drop_last());
        if e is Some {
            (c2, e)
        } else {
            match sink_uri_param(c2, ps.last().0, ps.last().1) {
                Ok(c3) => (c3, None),
                Err(x) => (c2, Some(x)),
            }
        }
    }
}

/// Once a parameter is refused, the ones after it change nothing.
proof fn lemma_sink_params_stop(c: SinkConfig, ps: Seq<(Seq<char>, Seq<char>)>, k: int)
    requires
        0 <= k <= ps.len(),
        sink_uri_params_apply(c, ps.take(k)).1 is Some,
    ensures
        sink_uri_params_apply(c, ps) == sink_uri_params_apply(c, ps.take(k)),
    decreases ps.len() - k,
{
    if k < ps.len() {
        assert(ps.take(k + 1).drop_last() =~= ps.take(k));
        lemma_sink_params_stop(c, ps, k + 1);
    } else {
        assert(ps.take(k) =~= ps);
    }
}

/// What setting a URI does: the settings after it, and whether it was taken.
/// A refused parameter leaves the key expression and the parameters before it
/// applied.
pub open spec fn sink_set_uri(c: SinkConfig, ready: bool, uri: Seq<char>) -> (
    SinkConfig,
    Option<(UriErrorKind, Seq<char>)>,
) {
    match uri_target(uri) {
        Err(e) => (c, Some(e)),
        Ok((k, q)) => if ready {
            (
                c,
                Some(
                    (
                        UriErrorKind::BadState,
                        "Cannot change URI while element is in Ready or Started state"@,
                    ),
                ),
            )
        } else {
            let c1 = SinkConfig { key_expr: k, ..c };
            match q {
                None => (c1, None),
                Some(q) => sink_uri_params_apply(c1, query_params(q)),
            }
        },
    }
}

/// A text made of a prefix and characters.
fn prefixed(p: &str, v: &[char]) -> (r: Vec<char>)
    ensures
        r@ == p@ + v@,
{
    let mut r = chars_of(p);
    append_chars(&mut r, v);
    r
}

/// A text made of a prefix and a string.
fn prefixed_str(p: &str, v: &str) -> (r: String)
    ensures
        r@ == p@ + v@,
{
    let mut r = String::from_str(p);
    r.append(v);
    r
}

impl View for SinkSettings {
    type V = SinkConfig;

    /// The settings as character sequences.
    open spec fn view(&self) -> SinkConfig {
        SinkConfig {
            key_expr: self.key_expr@,
            config_file: opt_string_view(self.config_file),
            priority: self.priority,
            congestion_control: self.congestion_control@,
            reliability: self.reliability@,
            express: self.express,
            send_caps: self.send_caps,
            caps_interval: self.caps_interval,
            send_buffer_meta: self.send_buffer_meta,
            publish_timeout_ms: self.publish_timeout_ms,
            compression: self.compression,
            compression_level: self.compression_level,
            session_group: opt_string_view(self.session_group),
        }
    }
}

impl SinkSettings {
    /// Set a property by name. Once the publisher exists (`ready`), the key
    /// expression, config, express mode, reliability, congestion control,
    /// priority and session group cannot change. A priority outside 1..=7 and
    /// a compression level outside 1..=9 store the default; an unknown
    /// congestion control or reliability keeps the current one.
    pub fn set_property(&mut self, ready: bool, name: &str, value: PropValue) -> (o: SetOutcome)
        requires
            sink_value_fits(name@, value),
        ensures
            (final(self)@, o) == sink_set_property(old(self)@, ready, name@, value),
    {
        proof {
            lemma_sink_names();
        }
        let locked = str_eq(name, "key-expr") || str_eq(name, "config") || str_eq(name, "express")
            || str_eq(name, "reliability") || str_eq(name, "congestion-control") || str_eq(
            name,
            "priority",
        ) || str_eq(name, "session-group");
        if ready && locked {
            return SetOutcome::Locked;
        }
        if str_eq(name, "key-expr") {
            if let PropValue::Str(s) = value {
                self.key_expr = s;
            }
            SetOutcome::Applied
        } else if str_eq(name, "config") {
            if let PropValue::OptStr(s) = value {
                self.config_file = s;
            }
            SetOutcome::Applied
        } else if str_eq(name, "priority") {
            if let PropValue::U32(v) = value {
                let p = (v % 256) as u8;
                if 1 <= p && p <= 7 {
                    self.priority = p;
                    SetOutcome::Applied
                } else {
                    self.priority = 5;
                    SetOutcome::Defaulted
                }
            } else {
                SetOutcome::Applied
            }
        } else if str_eq(name, "congestion-control") {
            if let PropValue::Str(s) = value {
                if str_eq(s.as_str(), "block") || str_eq(s.as_str(), "drop") {
                    self.congestion_control = s;
                    SetOutcome::Applied
                } else {
                    SetOutcome::Kept
                }
            } else {
                SetOutcome::Kept
            }
        } else if str_eq(name, "reliability") {
            if let PropValue::Str(s) = value {
                if str_eq(s.as_str(), "best-effort") || str_eq(s.as_str(), "reliable") {
                    self.reliability = s;
                    SetOutcome::Applied
                } else {
                    SetOutcome::Kept
                }
            } else {
                SetOutcome::Kept
            }
        } else if str_eq(name, "express") {
            if let PropValue::Bool(b) = value {
                self.express = b;
            }
            SetOutcome::Applied
        } else if str_eq(name, "send-caps") {
            if let PropValue::Bool(b) = value {
                self.send_caps = b;
            }
            SetOutcome::Applied
        } else if str_eq(name, "caps-interval") {
            if let PropValue::U32(v) = value {
                self.caps_interval = v;
            }
            SetOutcome::Applied
        } else if str_eq(name, "send-buffer-meta") {
            if let PropValue::Bool(b) = value {
                self.send_buffer_meta = b;
            }
            SetOutcome::Applied
        } else if str_eq(name, "publish-timeout-ms") {
            if let PropValue::U64(v) = value {
                self.publish_timeout_ms = v;
            }
            SetOutcome::Applied
        } else if str_eq(name, "compression") {
            if let PropValue::Compression(t) = value {
                self.compression = t;
            }
            SetOutcome::Applied
        } else if str_eq(name, "compression-level") {
            if let PropValue::I32(l) = value {
                if 1 <= l && l <= 9 {
                    self.compression_level = l;
                    SetOutcome::Applied
                } else {
                    self.compression_level = 5;
                    SetOutcome::Defaulted
                }
            } else {
                SetOutcome::Applied
            }
        } else if str_eq(name, "session-group") {
            if let PropValue::OptStr(s) = value {
                self.session_group = s;
            }
            SetOutcome::Applied
        } else {
            SetOutcome::Unknown
        }
    }

    /// Read a property by name. The matching status and connectivity read as
    /// false unless the publisher exists (`Some`); statistics read as 0 unless
    /// the sink is started (`stats` is `Some`). The `dropped` statistic always
    /// reads 0: the publisher does not report messages that congestion control
    /// dropped. An unknown name reads as an empty string.
    pub fn property(
        &self,
        name: &str,
        has_subscribers: Option<bool>,
        connected: Option<bool>,
        stats: Option<SinkStats>,
    ) -> (v: PropValue)
        ensures
            name@ == "key-expr"@ ==> (v matches PropValue::Str(s) && s@ == self.key_expr@),
            name@ == "config"@ ==> (v matches PropValue::OptStr(o) && opt_string_view(o)
                == opt_string_view(self.config_file)),
            name@ == "priority"@ ==> v == PropValue::U32(self.priority as u32),
            name@ == "congestion-control"@ ==> (v matches PropValue::Str(s) && s@
                == self.congestion_control@),
            name@ == "reliability"@ ==> (v matches PropValue::Str(s) && s@ == self.reliability@),
            name@ == "express"@ ==> v == PropValue::Bool(self.express),
            name@ == "send-caps"@ ==> v == PropValue::Bool(self.send_caps),
            name@ == "caps-interval"@ ==> v == PropValue::U32(self.caps_interval),
            name@ == "send-buffer-meta"@ ==> v == PropValue::Bool(self.send_buffer_meta),
            name@ == "publish-timeout-ms"@ ==> v == PropValue::U64(self.publish_timeout_ms),
            name@ == "compression"@ ==> v == PropValue::Compression(self.compression),
            name@ == "compression-level"@ ==> v == PropValue::I32(self.compression_level),
            name@ == "session-group"@ ==> (v matches PropValue::OptStr(o) && opt_string_view(o)
                == opt_string_view(self.session_group)),
            name@ == "has-subscribers"@ ==> v == PropValue::Bool(
                match has_subscribers {
                    Some(b) => b,
                    None => false,
                },
            ),
            name@ == "connected"@ ==> v == PropValue::Bool(
                match connected {
                    Some(b) => b,
                    None => false,
                },
            ),
            name@ == "bytes-sent"@ ==> v == PropValue::U64(
                match stats {
                    Some(s) => s.bytes_sent,
                    None => 0,
                },
            ),
            name@ == "messages-sent"@ ==> v == PropValue::U64(
                match stats {
                    Some(s) => s.messages_sent,
                    None => 0,
                },
            ),
            name@ == "errors"@ ==> v == PropValue::U64(
                match stats {
                    Some(s) => s.errors,
                    None => 0,
                },
            ),
            name@ == "bytes-before-compression"@ ==> v == PropValue::U64(
                match stats {
                    Some(s) => s.bytes_before_compression,
                    None => 0,
                },
            ),
            name@ == "bytes-after-compression"@ ==> v == PropValue::U64(
                match stats {
                    Some(s) => s.bytes_after_compression,
                    None => 0,
                },
            ),
            name@ == "dropped"@ ==> v == PropValue::U64(0),
            sink_prop_read(self@, name@) is Some ==> sink_prop_read(self@, name@) == Some(
                prop_view(v),
            ),
    {
        proof {
            lemma_sink_names();
            lemma_sink_dropped_name();
        }
        if str_eq(name, "key-expr") {
            PropValue::Str(self.key_expr.clone())
        } else if str_eq(name, "config") {
            PropValue::OptStr(self.config_file.clone())
        } else if str_eq(name, "priority") {
            PropValue::U32(self.priority as u32)
        } else if str_eq(name, "congestion-control") {
            PropValue::Str(self.congestion_control.clone())
        } else if str_eq(name, "reliability") {
            PropValue::Str(self.reliability.clone())
        } else if str_eq(name, "express") {
            PropValue::Bool(self.express)
        } else if str_eq(name, "send-caps") {
            PropValue::Bool(self.send_caps)
        } else if str_eq(name, "caps-interval") {
            PropValue::U32(self.caps_interval)
        } else if str_eq(name, "send-buffer-meta") {
            PropValue::Bool(self.send_buffer_meta)
        } else if str_eq(name, "publish-timeout-ms") {
            PropValue::U64(self.publish_timeout_ms)
        } else if str_eq(name, "compression") {
            PropValue::Compression(self.compression)
        } else if str_eq(name, "compression-level") {
            PropValue::I32(self.compression_level)
        } else if str_eq(name, "session-group") {
            PropValue::OptStr(self.session_group.clone())
        } else if str_eq(name, "has-subscribers") {
            PropValue::Bool(
                match has_subscribers {
                    Some(b) => b,
                    None => false,
                },
            )
        } else if str_eq(name, "connected") {
            PropValue::Bool(
                match connected {
                    Some(b) => b,
                    None => false,
                },
            )
        } else if str_eq(name, "bytes-sent") {
            PropValue::U64(
                match stats {
                    Some(s) => s.bytes_sent,
                    None => 0,
                },
            )
        } else if str_eq(name, "messages-sent") {
            PropValue::U64(
                match stats {
                    Some(s) => s.messages_sent,
                    None => 0,
                },
            )
        } else if str_eq(name, "errors") {
            PropValue::U64(
                match stats {
                    Some(s) => s.errors,
                    None => 0,
                },
            )
        } else if str_eq(name, "bytes-before-compression") {
            PropValue::U64(
                match stats {
                    Some(s) => s.bytes_before_compression,
                    None => 0,
                },
            )
        } else if str_eq(name, "bytes-after-compression") {
            PropValue::U64(
                match stats {
                    Some(s) => s.bytes_after_compression,
                    None => 0,
                },
            )
        } else if str_eq(name, "dropped") {
            PropValue::U64(0)
        } else {
            PropValue::Str(String::new())
        }
    }

    /// Build the URI: `zenoh:<key-expr>?param1=value1&param2=value2`, or none
    /// without a key expression.
    pub fn uri(&self) -> (r: Option<String>)
        ensures
            opt_string_view(r) == sink_uri(self@),
    {
        let key = chars_of(self.key_expr.as_str());
        if key.len() == 0 {
            return None;
        }
        let ghost c = self@;
        let mut params: Vec<Vec<char>> = Vec::new();
        assert(views(params@) =~= Seq::<Seq<char>>::empty());
        if let Some(cfg) = &self.config_file {
            let e = encode_component(cfg.as_str());
            let ec = chars_of(e.as_str());
            let ghost before = views(params@);
            params.push(prefixed("config=", ec.as_slice()));
            assert(views(params@) =~= before.push("config="@ + pct_encode(encode_utf8(cfg@))));
        }
        if self.priority != 5 {
            let d = decimal_u64(self.priority as u64);
            let ghost before = views(params@);
            params.push(prefixed("priority=", d.as_slice()));
            assert(views(params@) =~= before.push("priority="@ + decimal(self.priority as nat)));
        }
        if !str_eq(self.congestion_control.as_str(), "block") {
            let v = chars_of(self.congestion_control.as_str());
            let ghost before = views(params@);
            params.push(prefixed("congestion-control=", v.as_slice()));
            assert(views(params@) =~= before.push(
                "congestion-control="@ + self.congestion_control@,
            ));
        }
        if !str_eq(self.reliability.as_str(), "best-effort") {
            let v = chars_of(self.reliability.as_str());
            let ghost before = views(params@);
            params.push(prefixed("reliability=", v.as_slice()));
            assert(views(params@) =~= before.push("reliability="@ + self.reliability@));
        }
        if self.express {
            let ghost before = views(params@);
            params.push(chars_of("express=true"));
            assert(views(params@) =~= before.push("express=true"@));
        }
        assert(views(params@) == sink_uri_params(c));
        let mut out = prefixed("zenoh:", key.as_slice());
        if params.len() > 0 {
            out.push('?');
            let j = join_chars(&params, '&');
            append_chars(&mut out, j.as_slice());
            proof {
                reveal_strlit("?");
                reveal_strlit("&");
                assert("&"@ =~= seq!['&']);
                assert(out@ =~= "zenoh:"@ + c.key_expr + ("?"@ + join(sink_uri_params(c), "&"@)));
            }
        } else {
            assert(out@ =~= "zenoh:"@ + c.key_expr + Seq::<char>::empty());
        }
        Some(string_of(out.as_slice()))
    }

    /// Apply one URI parameter: its value is percent-decoded, then stored
    /// under the setting it names; unknown names change nothing.
    fn apply_uri_param(&mut self, key: &str, raw: &str) -> (r: Result<(), UriError>)
        ensures
            match sink_uri_param(old(self)@, key@, raw@) {
                Ok(c) => r is Ok && final(self)@ == c,
                Err(x) => r matches Err(e) && e.view() == x && final(self)@ == old(self)@,
            },
    {
        proof {
            lemma_sink_uri_keys();
        }
        let value = match decode_component(raw) {
            Ok(v) => v,
            Err(e) => {
                return Err(
                    uri_error(
                        UriErrorKind::BadUri,
                        prefixed_str("Failed to decode parameter value: ", e.as_str()),
                    ),
                );
            },
        };
        let vc = chars_of(value.as_str());
        if str_eq(key, "config") {
            self.config_file = Some(value);
        } else if str_eq(key, "priority") {
            let parsed = match parse_u8_chars(vc.as_slice()) {
                Some(p) => if 1 <= p && p <= 7 {
                    Some(p)
                } else {
                    None
                },
                None => None,
            };
            match parsed {
                Some(p) => {
                    self.priority = p;
                },
                None => {
                    return Err(
                        uri_error(
                            UriErrorKind::BadUri,
                            prefixed_str("Invalid priority value: ", value.as_str()),
                        ),
                    );
                },
            }
        } else if str_eq(key, "congestion-control") {
            if !str_eq(value.as_str(), "block") && !str_eq(value.as_str(), "drop") {
                return Err(
                    uri_error(
                        UriErrorKind::BadUri,
                        prefixed_str("Invalid congestion-control value: ", value.as_str()),
                    ),
                );
            }
            self.congestion_control = value;
        } else if str_eq(key, "reliability") {
            if !str_eq(value.as_str(), "best-effort") && !str_eq(value.as_str(), "reliable") {
                return Err(
                    uri_error(
                        UriErrorKind::BadUri,
                        prefixed_str("Invalid reliability value: ", value.as_str()),
                    ),
                );
            }
            self.reliability = value;
        } else if str_eq(key, "express") {
            if str_eq(value.as_str(), "true") {
                self.express = true;
            } else if str_eq(value.as_str(), "false") {
                self.express = false;
            } else {
                return Err(
                    uri_error(
                        UriErrorKind::BadUri,
                        prefixed_str("Invalid express value: ", value.as_str()),
                    ),
                );
            }
        }
        Ok(())
    }

    /// Set the settings from a URI (`zenoh:key-expr?param1=value1&...`). The
    /// key expression and parameter values are percent-decoded; unknown
    /// parameters are ignored. A priority outside 1..=7, an unknown congestion
    /// control or reliability and an express value that is no boolean are
    /// refused. A refused parameter stops the parameters that follow it,
    /// keeping those before it.
    pub fn set_uri(&mut self, ready: bool, uri: &str) -> (r: Result<(), UriError>)
        ensures
            ({
                let (c, e) = sink_set_uri(old(self)@, ready, uri@);
                &&& final(self)@ == c
                &&& match r {
                    Ok(()) => e is None,
                    Err(x) => e == Some(x.view()),
                }
            }),
    {
        let (k, q) = match parse_uri(uri) {
            Ok(t) => t,
            Err(e) => return Err(e),
        };
        if ready {
            return Err(
                uri_error(
                    UriErrorKind::BadState,
                    String::from_str("Cannot change URI while element is in Ready or Started state"),
                ),
            );
        }
        self.key_expr = k;
        let query = match q {
            Some(q) => q,
            None => return Ok(()),
        };
        let params = parse_query(query.as_str());
        let ghost ps = string_pairs_view(params@);
        let ghost c1 = self@;
        assert(sink_set_uri(old(self)@, ready, uri@) == sink_uri_params_apply(c1, ps));
        let mut i: usize = 0;
        while i < params.len()
            invariant
                i <= params.len(),
                ps == string_pairs_view(params@),
                sink_set_uri(old(self)@, ready, uri@) == sink_uri_params_apply(c1, ps),
                sink_uri_params_apply(c1, ps.take(i as int)) == (self@, None::<
                    (UriErrorKind, Seq<char>),
                >),
            decreases params.len() - i,
        {
            let (key, raw) = &params[i];
            assert(ps[i as int] == (key@, raw@));
            assert(ps.take(i as int + 1).drop_last() =~= ps.take(i as int));
            assert(ps.take(i as int + 1).last() == (key@, raw@));
            match self.apply_uri_param(key.as_str(), raw.as_str()) {
                Ok(()) => {},
                Err(err) => {
                    proof {
                        lemma_sink_params_stop(c1, ps, i as int + 1);
                    }
                    return Err(err);
                },
            }
            i = i + 1;
        }
        assert(ps.take(params.len() as int) =~= ps);
        Ok(())
    }
}

impl Default for SinkSettings {
    fn default() -> (s: SinkSettings)
        ensures
            s@ == sink_defaults(),
    {
        SinkSettings {
            key_expr: String::new(),
            config_file: None,
            priority: 5,
            congestion_control: String::from_str("block"),
            reliability: String::from_str("best-effort"),
            express: false,
            send_caps: true,
            caps_interval: 1,
            send_buffer_meta: true,
            publish_timeout_ms: 5000,
            compression: CompressionType::Uncompressed,
            compression_level: 5,
            session_group: None,
        }
    }
}

/// The sink's operational state.
#[derive(Debug, Clone, Copy, PartialEq, Eq, Structural)]
pub enum SinkPhase {
    Stopped,
    /// Zenoh session and publisher created, matching listener active; no
    /// data flows.
    Ready,
    /// Intermediate state during startup
    Starting,
    Started,
    /// Intermediate state during shutdown
    Stopping,
}

/// The name of a state, as messages give it.
pub open spec fn sink_phase_name(p: SinkPhase) -> Seq<char> {
    match p {
        SinkPhase::Stopped => "Stopped"@,
        SinkPhase::Ready => "Ready"@,
        SinkPhase::Starting => "Starting"@,
        SinkPhase::Started => "Started"@,
        SinkPhase::Stopping => "Stopping"@,
    }
}

impl SinkPhase {
    fn name(self) -> (s: &'static str)
        ensures
            s@ == sink_phase_name(self),
    {
        match self {
            SinkPhase::Stopped => "Stopped",
            SinkPhase::Ready => "Ready",
            SinkPhase::Starting => "Starting",
            SinkPhase::Started => "Started",
            SinkPhase::Stopping => "Stopping",
        }
    }

    /// Whether the publisher exists: the Ready or Started state. Publisher
    /// settings are locked then, and the matching status and connectivity
    /// can be read.
    pub fn is_ready_or_started(&self) -> (r: bool)
        ensures
            r == (*self == SinkPhase::Ready || *self == SinkPhase::Started),
    {
        *self == SinkPhase::Ready || *self == SinkPhase::Started
    }

    /// Whether the sink is started (data flows).
    pub fn is_started(&self) -> (r: bool)
        ensures
            r == (*self == SinkPhase::Started),
    {
        *self == SinkPhase::Started
    }

    /// The publisher resources were created (NULL to READY).
    pub fn resources_created(&mut self)
        ensures
            *final(self) == SinkPhase::Ready,
    {
        *self = SinkPhase::Ready;
    }

    /// All resources were released (READY to NULL).
    pub fn teardown(&mut self)
        ensures
            *final(self) == SinkPhase::Stopped,
    {
        *self = SinkPhase::Stopped;
    }

    /// A start request: a ready sink starts; a started one reports success;
    /// any other state refuses.
    pub fn start(&mut self) -> (r: Result<(), ErrorMessage>)
        ensures
            *old(self) == SinkPhase::Ready ==> r is Ok && *final(self) == SinkPhase::Started,
            *old(self) == SinkPhase::Started ==> r is Ok && *final(self) == SinkPhase::Started,
            !(*old(self) == SinkPhase::Ready || *old(self) == SinkPhase::Started) ==> (r matches Err(
                m,
            ) && m.domain == ErrorDomain::Resource(ResourceErrorKind::Settings) && m.text@
                == "Cannot start from current state: "@ + sink_phase_name(*old(self))
                && *final(self) == *old(self)),
    {
        match *self {
            SinkPhase::Ready => {
                *self = SinkPhase::Started;
                Ok(())
            },
            SinkPhase::Started => Ok(()),
            p => {
                let mut t = String::from_str("Cannot start from current state: ");
                t.append(p.name());
                Err(ErrorMessage { domain: ErrorDomain::Resource(ResourceErrorKind::Settings), text: t })
            },
        }
    }

    /// A stop request: a started sink goes back to Ready, keeping its
    /// publisher; any other state stays as it is. The result says whether
    /// the render resources are to be released.
    pub fn stop(&mut self) -> (was_started: bool)
        ensures
            was_started == (*old(self) == SinkPhase::Started),
            *final(self) == if was_started {
                SinkPhase::Ready
            } else {
                *old(self)
            },
    {
        if *self == SinkPhase::Started {
            *self = SinkPhase::Ready;
            true
        } else {
            false
        }
    }
}

/// Congestion control of the publisher.
#[derive(Debug, Clone, Copy, PartialEq, Eq, Structural)]
pub enum CongestionMode {
    Block,
    Drop,
}

/// Reliability of the publisher.
#[derive(Debug, Clone, Copy, PartialEq, Eq, Structural)]
pub enum ReliabilityMode {
    BestEffort,
    Reliable,
}

/// The quality of service the publisher is declared with.
#[derive(Debug, Clone, Copy, PartialEq, Eq, Structural)]
pub struct PublisherQos {
    /// The Zenoh priority code.
    pub priority: u8,
    pub congestion: CongestionMode,
    pub reliability: ReliabilityMode,
    pub express: bool,
}

/// Calls `zenoh::qos::Priority::try_from(u8)`; claims it accepts exactly the
/// codes 1..=7 (real-time to background) and keeps the code.
#[verifier::external_body]
fn priority_from_code(p: u8) -> (r: Option<u8>)
    ensures
        r == if 1 <= p <= 7 {
            Some(p)
        } else {
            None::<u8>
        },
{
    match zenoh::qos::Priority::try_from(p) {
        Ok(x) => Some(x as u8),
        Err(_) => None,
    }
}

/// Calls `zenoh::qos::Priority::default()`; claims it is data, code 5.
#[verifier::external_body]
fn default_priority() -> (r: u8)
    ensures
        r == 5,
{
    zenoh::qos::Priority::default() as u8
}

/// The publisher's quality of service from the settings: the priority when
/// Zenoh knows its code, 1..=7 (the default, 5, otherwise), `drop` or else
/// blocking congestion control, `reliable` or else best-effort reliability,
/// and express mode as set.
pub fn publisher_qos(settings: &SinkSettings) -> (q: PublisherQos)
    ensures
        q.priority == if 1 <= settings.priority <= 7 {
            settings.priority
        } else {
            5
        },
        q.congestion == if settings.congestion_control@ == "drop"@ {
            CongestionMode::Drop
        } else {
            CongestionMode::Block
        },
        q.reliability == if settings.reliability@ == "reliable"@ {
            ReliabilityMode::Reliable
        } else {
            ReliabilityMode::BestEffort
        },
        q.express == settings.express,
{
    let priority = match priority_from_code(settings.priority) {
        Some(p) => p,
        None => default_priority(),
    };
    let congestion = if str_eq(settings.congestion_control.as_str(), "drop") {
        CongestionMode::Drop
    } else {
        CongestionMode::Block
    };
    let reliability = if str_eq(settings.reliability.as_str(), "reliable") {
        ReliabilityMode::Reliable
    } else {
        ReliabilityMode::BestEffort
    };
    PublisherQos { priority, congestion, reliability, express: settings.express }
}

/// Whether the settings' congestion control and reliability are ones the
/// publisher knows; unknown ones fall back to the defaults.
pub fn qos_known(settings: &SinkSettings) -> (r: (bool, bool))
    ensures
        r.0 == (settings.congestion_control@ == "block"@ || settings.congestion_control@
            == "drop"@),
        r.1 == (settings.reliability@ == "reliable"@ || settings.reliability@ == "best-effort"@),
{
    (
        str_eq(settings.congestion_control.as_str(), "block") || str_eq(
            settings.congestion_control.as_str(),
            "drop",
        ),
        str_eq(settings.reliability.as_str(), "reliable") || str_eq(
            settings.reliability.as_str(),
            "best-effort",
        ),
    )
}

/// Why Zenoh rejects a text as a key expression, or `None` when it accepts it.
pub uninterp spec fn key_expr_rejection(s: Seq<char>) -> Option<Seq<char>>;

/// Calls `OwnedKeyExpr::try_from(String)`; claims it accepts a text exactly
/// when the named rejection is `None`, reports the rejection's text
/// otherwise, and rejects the empty text.
#[verifier::external_body]
fn zenoh_key_expr_check(s: &str) -> (r: Option<String>)
    ensures
        match r {
            None => key_expr_rejection(s@) is None,
            Some(e) => key_expr_rejection(s@) == Some(e@),
        },
        s@.len() == 0 ==> r is Some,
{
    match zenoh::key_expr::OwnedKeyExpr::try_from(s.to_string()) {
        Ok(_) => None,
        Err(e) => Some(e.to_string()),
    }
}

/// The element error for a key expression Zenoh rejected.
pub open spec fn key_expr_error_text(key_expr: Seq<char>, reason: Seq<char>) -> Seq<char> {
    "Invalid Zenoh key expression '"@ + key_expr + "': "@ + reason
        + ". Key expressions must be valid Zenoh paths (e.g., 'demo/video' or 'sensors/**')."@
}

/// What a key-expression check gives: nothing when accepted, the element
/// error naming the key expression and the reason when rejected.
pub fn key_expr_outcome(key_expr: &str, rejection: Option<String>) -> (r: Result<(), ErrorMessage>)
    ensures
        match rejection {
            None => r is Ok,
            Some(reason) => r matches Err(m) && m.domain == ErrorDomain::Resource(
                ResourceErrorKind::Settings,
            ) && m.text@ == key_expr_error_text(key_expr@, reason@),
        },
{
    match rejection {
        None => Ok(()),
        Some(reason) => {
            let e = ZenohError::KeyExpr { key_expr: String::from_str(key_expr), reason };
            Err(e.to_error_message())
        },
    }
}

/// Check a key expression with Zenoh before declaring the publisher.
pub fn validate_key_expr(key_expr: &str) -> (r: Result<(), ErrorMessage>)
    ensures
        match key_expr_rejection(key_expr@) {
            None => r is Ok,
            Some(reason) => r matches Err(m) && m.domain == ErrorDomain::Resource(
                ResourceErrorKind::Settings,
            ) && m.text@ == key_expr_error_text(key_expr@, reason),
        },
{
    key_expr_outcome(key_expr, zenoh_key_expr_check(key_expr))
}

/// The first step of creating the publisher resources: a key expression is
/// required; then the session comes from the external session, the session
/// group or a new session, in that order.
pub fn plan_resources(settings: &SinkSettings, has_external: bool) -> (r: Result<
    SessionSource,
    ErrorMessage,
>)
    ensures
        settings@.key_expr.len() == 0 ==> (r matches Err(m) && m.domain == ErrorDomain::Resource(
            ResourceErrorKind::Settings,
        ) && m.text@ == "Key expression is required"@),
        settings@.key_expr.len() > 0 ==> (r matches Ok(s) && session_source_view(s)
            == session_source_of(has_external, settings@.session_group, settings@.config_file)),
{
    let k = chars_of(settings.key_expr.as_str());
    if k.len() == 0 {
        return Err(
            error_message(
                ErrorDomain::Resource(ResourceErrorKind::Settings),
                "Key expression is required",
            ),
        );
    }
    Ok(session_source(has_external, &settings.session_group, &settings.config_file))
}

/// What the sink remembers about the caps it sent.
#[derive(Debug, Clone)]
pub struct CapsTracker {
    /// Whether caps were sent with any buffer yet.
    pub caps_sent: bool,
    /// The caps last sent, as text.
    pub last_caps: Option<String>,
    /// When caps were last sent, in milliseconds of a monotonic clock.
    pub last_caps_time_ms: Option<u64>,
}

/// Whether caps go with the next buffer, and the tracker after deciding:
/// always with the first buffer, whenever they changed, and again once
/// `caps_interval` whole seconds passed since they were last sent (never
/// again, when the interval is 0).
pub open spec fn caps_decision(
    caps_sent: bool,
    last_caps: Option<Seq<char>>,
    last_time: Option<u64>,
    current: Option<Seq<char>>,
    send_caps: bool,
    caps_interval: u32,
    now_ms: u64,
) -> (bool, bool, Option<Seq<char>>, Option<u64>) {
    if !send_caps || current is None {
        (false, caps_sent, last_caps, last_time)
    } else if !caps_sent {
        (true, true, current, Some(now_ms))
    } else if last_caps != current {
        (true, caps_sent, current, Some(now_ms))
    } else if caps_interval > 0 && last_time is Some && (clamp(
        now_ms - last_time->Some_0,
        0,
        u64::MAX as int,
    ) / 1000) >= caps_interval {
        (true, caps_sent, last_caps, Some(now_ms))
    } else {
        (false, caps_sent, last_caps, last_time)
    }
}

/// When caps go with a buffer. With caps sending off or no caps, nothing is
/// sent and nothing remembered changes. The first caps are sent; changed caps
/// are sent; unchanged caps are sent again only once at least `caps_interval`
/// whole seconds (`caps_interval * 1000` ms) passed since they were last sent,
/// and never again when the interval is 0. Whenever caps are sent, they and
/// the time become what is remembered; otherwise the time stays.
pub proof fn lemma_caps_schedule(
    caps_sent: bool,
    last_caps: Option<Seq<char>>,
    last_time: Option<u64>,
    current: Option<Seq<char>>,
    send_caps: bool,
    caps_interval: u32,
    now_ms: u64,
)
    ensures
        ({
            let (send, sent, last, time) = caps_decision(
                caps_sent,
                last_caps,
                last_time,
                current,
                send_caps,
                caps_interval,
                now_ms,
            );
            &&& (!send_caps || current is None) ==> !send && sent == caps_sent && last == last_caps
                && time == last_time
            &&& (send_caps && current is Some && !caps_sent) ==> send && sent && last == current
                && time == Some(now_ms)
            &&& (send_caps && current is Some && caps_sent && last_caps != current) ==> send
                && sent && last == current && time == Some(now_ms)
            &&& (send_caps && current is Some && caps_sent && last_caps == current) ==> (send
                <==> (caps_interval > 0 && last_time is Some && now_ms >= last_time->Some_0
                && now_ms - last_time->Some_0 >= caps_interval * 1000)) && sent && last == current && time == (if send {
                Some(now_ms)
            } else {
                last_time
            })
        }),
{
    if let Some(t) = last_time {
        let d = clamp(now_ms - t, 0, u64::MAX as int);
        let n = caps_interval as int;
        assert(d / 1000 >= n <==> d >= n * 1000) by (nonlinear_arith)
            requires
                d >= 0,
                n >= 0,
        ;
        if now_ms < t {
            assert(d == 0);
        }
    }
}

impl CapsTracker {
    /// Nothing sent yet.
    pub fn new() -> (t: CapsTracker)
        ensures
            !t.caps_sent,
            t.last_caps is None,
            t.last_caps_time_ms is None,
    {
        CapsTracker { caps_sent: false, last_caps: None, last_caps_time_ms: None }
    }

    /// Decide whether caps go with the next buffer (first buffer, caps change,
    /// or periodic interval), updating what is remembered. Returns the caps to
    /// attach, or `None`.
    pub fn decide(&mut self, current: Option<&str>, send_caps: bool, caps_interval: u32, now_ms: u64) -> (r:
        Option<String>)
        ensures
            ({
                let (send, sent, last, time) = caps_decision(
                    old(self).caps_sent,
                    opt_string_view(old(self).last_caps),
                    old(self).last_caps_time_ms,
                    match current {
                        Some(c) => Some(c@),
                        None => None,
                    },
                    send_caps,
                    caps_interval,
                    now_ms,
                );
                &&& (r is Some) == send
                &&& (r matches Some(c) ==> current matches Some(x) && c@ == x@)
                &&& final(self).caps_sent == sent
                &&& opt_string_view(final(self).last_caps) == last
                &&& final(self).last_caps_time_ms == time
            }),
    {
        if !send_caps {
            return None;
        }
        let caps = match current {
            Some(c) => c,
            None => return None,
        };
        if !self.caps_sent {
            self.caps_sent = true;
            self.last_caps = Some(String::from_str(caps));
            self.last_caps_time_ms = Some(now_ms);
            return Some(String::from_str(caps));
        }
        let same = match &self.last_caps {
            Some(l) => str_eq(l.as_str(), caps),
            None => false,
        };
        if !same {
            self.last_caps = Some(String::from_str(caps));
            self.last_caps_time_ms = Some(now_ms);
            return Some(String::from_str(caps));
        }
        if caps_interval > 0 {
            if let Some(t) = self.last_caps_time_ms {
                let elapsed = now_ms.saturating_sub(t);
                if elapsed / 1000 >= caps_interval as u64 {
                    self.last_caps_time_ms = Some(now_ms);
                    return Some(String::from_str(caps));
                }
            }
        }
        None
    }
}

/// The metadata a buffer is sent with: its caps when they go with it, its
/// timing when buffer metadata is sent, and the algorithm when the payload was
/// compressed.
pub open spec fn sink_metadata(
    caps: Option<Seq<char>>,
    timing: BufferTiming,
    send_buffer_meta: bool,
    compressed: bool,
    compression: CompressionType,
) -> MetadataFields {
    let m0 = crate::metadata::no_fields();
    let m1 = match caps {
        Some(c) => MetadataFields { caps: Some(c), ..m0 },
        None => m0,
    };
    let m2 = if send_buffer_meta {
        MetadataFields {
            pts: timing.pts,
            dts: timing.dts,
            duration: timing.duration,
            offset: if timing.offset != u64::MAX {
                Some(timing.offset)
            } else {
                m1.offset
            },
            offset_end: if timing.offset_end != u64::MAX {
                Some(timing.offset_end)
            } else {
                m1.offset_end
            },
            flags: Some(timing.flags),
            ..m1
        }
    } else {
        m1
    };
    if compressed {
        MetadataFields {
            compression: Some(crate::compression::metadata_value_of(compression)),
            ..m2
        }
    } else {
        m2
    }
}

/// An attachment a sink writes with buffer metadata reads back with the
/// buffer's presentation and decoding times and duration, its offsets when
/// they are set (not `u64::MAX`), its flags when any is set, the caps that
/// were sent and the algorithm when compressed, for every attachment whose
/// texts survive the round trip.
pub proof fn lemma_encoded_timing_reads_back(
    caps: Option<Seq<char>>,
    timing: BufferTiming,
    compressed: bool,
    compression: CompressionType,
)
    requires
        roundtrip_safe(sink_metadata(caps, timing, true, compressed, compression)),
    ensures
        parse_attachment(
            encode_utf8(attachment_text(sink_metadata(caps, timing, true, compressed, compression))),
        ) matches Ok(p) && {
            &&& p.pts == timing.pts
            &&& p.dts == timing.dts
            &&& p.duration == timing.duration
            &&& p.offset == (if timing.offset != u64::MAX {
                Some(timing.offset)
            } else {
                None
            })
            &&& p.offset_end == (if timing.offset_end != u64::MAX {
                Some(timing.offset_end)
            } else {
                None
            })
            &&& (p.flags matches Some(f) ==> f == timing.flags)
            &&& (timing.flags != BufferFlags::none_set() ==> p.flags == Some(timing.flags))
            &&& p.caps == caps
            &&& p.compression == (if compressed {
                Some(crate::compression::metadata_value_of(compression))
            } else {
                None
            })
        },
{
    lemma_attachment_roundtrip(sink_metadata(caps, timing, true, compressed, compression));
    if timing.flags != BufferFlags::none_set() {
        lemma_flags_text_nonempty(timing.flags);
    }
}

/// What a buffer is published as.
pub struct EncodedBuffer {
    /// The payload: compressed when compression is on and succeeded.
    pub payload: Vec<u8>,
    /// The attachment, when caps, buffer metadata or compression call for one.
    pub attachment: Option<Vec<u8>>,
    /// Whether the payload is compressed.
    pub compressed: bool,
    /// Why compression failed, when it did (the payload is then sent as is).
    pub compression_error: Option<crate::compression::CompressionError>,
}

/// Encode a single buffer (optional compression + metadata). A compression
/// failure sends the data uncompressed and is reported.
pub fn encode_buffer(
    data: &[u8],
    timing: BufferTiming,
    caps: Option<&str>,
    send_buffer_meta: bool,
    compression: CompressionType,
    level: i32,
) -> (e: EncodedBuffer)
    ensures
        ({
            let (payload, compressed, fault) = if compression != CompressionType::Uncompressed {
                match compress_spec(data@, compression, level) {
                    Ok(c) => (c, true, None),
                    Err(f) => (data@, false, Some(f)),
                }
            } else {
                (data@, false, None::<CompressionFault>)
            };
            let caps_v = match caps {
                Some(c) => Some(c@),
                None => None,
            };
            &&& e.payload@ == payload
            &&& e.compressed == compressed
            &&& match e.compression_error {
                Some(x) => fault == Some(x@),
                None => fault is None,
            }
            &&& if caps is Some || send_buffer_meta || compressed {
                e.attachment matches Some(a) && a@ == encode_utf8(
                    attachment_text(
                        sink_metadata(caps_v, timing, send_buffer_meta, compressed, compression),
                    ),
                )
            } else {
                e.attachment is None
            }
            &&& send_buffer_meta && roundtrip_safe(
                sink_metadata(caps_v, timing, true, compressed, compression),
            ) ==> (e.attachment matches Some(a) && parse_attachment(a@) matches Ok(p) && {
                &&& p.pts == timing.pts
                &&& p.dts == timing.dts
                &&& p.duration == timing.duration
                &&& p.offset == (if timing.offset != u64::MAX {
                    Some(timing.offset)
                } else {
                    None
                })
                &&& p.offset_end == (if timing.offset_end != u64::MAX {
                    Some(timing.offset_end)
                } else {
                    None
                })
                &&& (timing.flags != BufferFlags::none_set() ==> p.flags == Some(timing.flags))
                &&& p.caps == caps_v
            })
        }),
{
    proof {
        let caps_v = match caps {
            Some(c) => Some(c@),
            None => None,
        };
        if roundtrip_safe(sink_metadata(caps_v, timing, true, true, compression)) {
            lemma_encoded_timing_reads_back(caps_v, timing, true, compression);
        }
        if roundtrip_safe(sink_metadata(caps_v, timing, true, false, compression)) {
            lemma_encoded_timing_reads_back(caps_v, timing, false, compression);
        }
    }
    let (payload, compressed, error) = if compression != CompressionType::Uncompressed {
        match compress(data, compression, level) {
            Ok(c) => (c, true, None),
            Err(e) => (crate::compression::bytes_copy(data), false, Some(e)),
        }
    } else {
        (crate::compression::bytes_copy(data), false, None)
    };
    let attachment = if caps.is_some() || send_buffer_meta || compressed {
        let mut mb = MetadataBuilder::new();
        if let Some(c) = caps {
            mb = mb.caps(c);
        }
        if send_buffer_meta {
            mb = mb.buffer_timing(timing);
        }
        if compressed {
            mb = mb.compression(compression.to_metadata_value());
        }
        mb.build()
    } else {
        None
    };
    EncodedBuffer { payload, attachment, compressed, compression_error: error }
}

impl SinkStats {
    /// All counters at zero.
    pub fn new() -> (s: SinkStats)
        ensures
            s == (SinkStats {
                bytes_sent: 0,
                messages_sent: 0,
                errors: 0,
                bytes_before_compression: 0,
                bytes_after_compression: 0,
            }),
    {
        SinkStats {
            bytes_sent: 0,
            messages_sent: 0,
            errors: 0,
            bytes_before_compression: 0,
            bytes_after_compression: 0,
        }
    }

    /// Count a published buffer: its payload bytes, and for a compressed one
    /// the sizes before and after compression (counters saturate).
    pub fn record_published(&mut self, payload_len: usize, original_len: usize, compressed: bool)
        ensures
            final(self).bytes_sent == clamp(old(self).bytes_sent + payload_len, 0, u64::MAX as int),
            final(self).messages_sent == clamp(old(self).messages_sent + 1, 0, u64::MAX as int),
            final(self).errors == old(self).errors,
            final(self).bytes_before_compression == if compressed {
                clamp(old(self).bytes_before_compression + original_len, 0, u64::MAX as int)
            } else {
                old(self).bytes_before_compression as int
            },
            final(self).bytes_after_compression == if compressed {
                clamp(old(self).bytes_after_compression + payload_len, 0, u64::MAX as int)
            } else {
                old(self).bytes_after_compression as int
            },
    {
        self.bytes_sent = self.bytes_sent.saturating_add(payload_len as u64);
        self.messages_sent = self.messages_sent.saturating_add(1);
        if compressed {
            self.bytes_before_compression = self.bytes_before_compression.saturating_add(
                original_len as u64,
            );
            self.bytes_after_compression = self.bytes_after_compression.saturating_add(
                payload_len as u64,
            );
        }
    }

    /// Count an error (the counter saturates).
    pub fn record_error(&mut self)
        ensures
            final(self).errors == clamp(old(self).errors + 1, 0, u64::MAX as int),
            final(self).bytes_sent == old(self).bytes_sent,
            final(self).messages_sent == old(self).messages_sent,
            final(self).bytes_before_compression == old(self).bytes_before_compression,
            final(self).bytes_after_compression == old(self).bytes_after_compression,
    {
        self.errors = self.errors.saturating_add(1);
    }
}

/// Outcome of submitting a publish and awaiting its acknowledgement.
#[derive(Debug, Clone)]
pub enum PublishOutcome {
    /// Publish completed successfully.
    Sent,
    /// Zenoh reported a publish error (its text).
    Failed(String),
    /// The element was unlocked/flushing while waiting — abandon the publish.
    Flushing,
    /// The configured `publish-timeout-ms` elapsed before completion.
    TimedOut,
    /// The publish worker thread is gone (channel disconnected).
    WorkerGone,
}

/// What one wait for a publish acknowledgement gave.
#[derive(Debug, Clone)]
pub enum AckWait {
    /// The publish completed.
    Acked,
    /// Zenoh reported a publish error (its text).
    Failed(String),
    /// The poll interval passed with no acknowledgement.
    Pending,
    /// The worker's channel is gone.
    Disconnected,
}

/// The outcome after one wait for an acknowledgement, or `None` to wait
/// again: a pending publish times out once its deadline (if it has one) has
/// passed.
pub fn ack_outcome(wait: AckWait, deadline_passed: bool) -> (r: Option<PublishOutcome>)
    ensures
        match wait {
            AckWait::Acked => r matches Some(PublishOutcome::Sent),
            AckWait::Failed(e) => r matches Some(PublishOutcome::Failed(x)) && x@ == e@,
            AckWait::Pending => if deadline_passed {
                r matches Some(PublishOutcome::TimedOut)
            } else {
                r is None
            },
            AckWait::Disconnected => r matches Some(PublishOutcome::WorkerGone),
        },
{
    match wait {
        AckWait::Acked => Some(PublishOutcome::Sent),
        AckWait::Failed(e) => Some(PublishOutcome::Failed(e)),
        AckWait::Pending => if deadline_passed {
            Some(PublishOutcome::TimedOut)
        } else {
            None
        },
        AckWait::Disconnected => Some(PublishOutcome::WorkerGone),
    }
}

/// What a single-buffer publish outcome does: the flow return, whether an
/// error is counted, and the element error posted.
pub struct FlowDecision {
    pub result: Result<(), FlowError>,
    pub count_error: bool,
    pub error: Option<ErrorMessage>,
}

/// The element error for a failed publish.
pub open spec fn publish_failed_text(key_expr: Seq<char>, reason: Seq<char>) -> Seq<char> {
    "Failed to publish to '"@ + key_expr + "': "@ + reason
}

/// Map a single-buffer publish outcome to a flow return: success passes; a
/// Zenoh failure counts an error and posts a write error naming the key
/// expression; flushing stops quietly; a timeout counts an error and posts a
/// write error; a missing worker posts a core error.
pub fn outcome_to_flow(outcome: &PublishOutcome, key_expr: &str, publish_timeout_ms: u64) -> (d:
    FlowDecision)
    ensures
        match outcome {
            PublishOutcome::Sent => d.result is Ok && !d.count_error && d.error is None,
            PublishOutcome::Failed(e) => d.result == Err::<(), FlowError>(FlowError::Error)
                && d.count_error && (d.error matches Some(m) && m.domain == ErrorDomain::Resource(
                ResourceErrorKind::Write,
            ) && m.text@ == publish_failed_text(key_expr@, e@)),
            PublishOutcome::Flushing => d.result == Err::<(), FlowError>(FlowError::Flushing)
                && !d.count_error && d.error is None,
            PublishOutcome::TimedOut => d.result == Err::<(), FlowError>(FlowError::Error)
                && d.count_error && (d.error matches Some(m) && m.domain == ErrorDomain::Resource(
                ResourceErrorKind::Write,
            ) && m.text@ == "Publish timed out after "@ + decimal(publish_timeout_ms as nat)
                + " ms"@),
            PublishOutcome::WorkerGone => d.result == Err::<(), FlowError>(FlowError::Error)
                && !d.count_error && (d.error matches Some(m) && m.domain == ErrorDomain::CoreFailed
                && m.text@ == "Publish worker thread is not available"@),
        },
{
    match outcome {
        PublishOutcome::Sent => FlowDecision { result: Ok(()), count_error: false, error: None },
        PublishOutcome::Failed(e) => {
            let err = ZenohError::Publish { key_expr: String::from_str(key_expr), reason: e.clone() };
            let text = err.message();
            FlowDecision {
                result: Err(err.to_flow_error()),
                count_error: true,
                error: Some(
                    ErrorMessage { domain: ErrorDomain::Resource(ResourceErrorKind::Write), text },
                ),
            }
        },
        PublishOutcome::Flushing => FlowDecision {
            result: Err(FlowError::Flushing),
            count_error: false,
            error: None,
        },
        PublishOutcome::TimedOut => {
            let d = decimal_u64(publish_timeout_ms);
            let mut t = prefixed("Publish timed out after ", d.as_slice());
            let ms = chars_of(" ms");
            append_chars(&mut t, ms.as_slice());
            FlowDecision {
                result: Err(FlowError::Error),
                count_error: true,
                error: Some(
                    ErrorMessage {
                        domain: ErrorDomain::Resource(ResourceErrorKind::Write),
                        text: string_of(t.as_slice()),
                    },
                ),
            }
        },
        PublishOutcome::WorkerGone => FlowDecision {
            result: Err(FlowError::Error),
            count_error: false,
            error: Some(error_message(ErrorDomain::CoreFailed, "Publish worker thread is not available")),
        },
    }
}

/// What happened to one buffer of a list.
#[derive(Debug, Clone)]
pub enum ListItem {
    /// The buffer could not be mapped for reading.
    MapFailed,
    /// The buffer was published with this outcome.
    Published(PublishOutcome),
}

/// The running tally of a buffer list: buffers sent and errors met.
#[derive(Debug, Clone, Copy, PartialEq, Eq, Structural)]
pub struct ListTally {
    pub total_messages: u64,
    pub errors_count: u64,
}

/// What the list loop does after one buffer.
pub struct ListStep {
    /// Stop the list with this flow error, or go on with the next buffer.
    pub stop: Option<FlowError>,
    /// Whether the sink's error statistic is counted.
    pub count_error: bool,
    /// The element error posted, if any.
    pub error: Option<ErrorMessage>,
}

impl ListTally {
    /// Nothing sent, no error.
    pub fn new() -> (t: ListTally)
        ensures
            t == (ListTally { total_messages: 0, errors_count: 0 }),
    {
        ListTally { total_messages: 0, errors_count: 0 }
    }

    /// Account for one buffer of a list. A buffer that cannot be mapped stops
    /// the list with an error; a sent buffer is counted; a flush stops the
    /// list quietly; a failed or timed-out publish counts an error and the
    /// list goes on; a missing worker stops the list with an error.
    pub fn step(&mut self, item: &ListItem) -> (s: ListStep)
        ensures
            match item {
                ListItem::MapFailed => s.stop == Some(FlowError::Error) && !s.count_error && (
                s.error matches Some(m) && m.domain == ErrorDomain::Resource(
                    ResourceErrorKind::Read,
                ) && m.text@ == "Failed to map buffer for reading in buffer list"@)
                    && final(self).errors_count == clamp(
                    old(self).errors_count + 1,
                    0,
                    u64::MAX as int,
                ) && final(self).total_messages == old(self).total_messages,
                ListItem::Published(PublishOutcome::Sent) => s.stop is None && !s.count_error
                    && s.error is None && final(self).total_messages == clamp(
                    old(self).total_messages + 1,
                    0,
                    u64::MAX as int,
                ) && final(self).errors_count == old(self).errors_count,
                ListItem::Published(PublishOutcome::Flushing) => s.stop == Some(FlowError::Flushing)
                    && !s.count_error && s.error is None && *final(self) == *old(self),
                ListItem::Published(PublishOutcome::Failed(_)) | ListItem::Published(
                    PublishOutcome::TimedOut,
                ) => s.stop is None && s.count_error && s.error is None && final(self).errors_count
                    == clamp(old(self).errors_count + 1, 0, u64::MAX as int) && final(self).total_messages == old(self).total_messages,
                ListItem::Published(PublishOutcome::WorkerGone) => s.stop == Some(FlowError::Error)
                    && !s.count_error && (s.error matches Some(m) && m.domain
                    == ErrorDomain::CoreFailed && m.text@ == "Publish worker thread is not available"@)
                    && *final(self) == *old(self),
            },
    {
        match item {
            ListItem::MapFailed => {
                self.errors_count = self.errors_count.saturating_add(1);
                ListStep {
                    stop: Some(FlowError::Error),
                    count_error: false,
                    error: Some(
                        error_message(
                            ErrorDomain::Resource(ResourceErrorKind::Read),
                            "Failed to map buffer for reading in buffer list",
                        ),
                    ),
                }
            },
            ListItem::Published(PublishOutcome::Sent) => {
                self.total_messages = self.total_messages.saturating_add(1);
                ListStep { stop: None, count_error: false, error: None }
            },
            ListItem::Published(PublishOutcome::Flushing) => ListStep {
                stop: Some(FlowError::Flushing),
                count_error: false,
                error: None,
            },
            ListItem::Published(PublishOutcome::Failed(_))
            | ListItem::Published(PublishOutcome::TimedOut) => {
                self.errors_count = self.errors_count.saturating_add(1);
                ListStep { stop: None, count_error: true, error: None }
            },
            ListItem::Published(PublishOutcome::WorkerGone) => ListStep {
                stop: Some(FlowError::Error),
                count_error: false,
                error: Some(error_message(ErrorDomain::CoreFailed, "Publish worker thread is not available")),
            },
        }
    }

    /// The list's flow return once every buffer went through: success when
    /// any buffer was sent or none failed (an empty list), otherwise a write
    /// error.
    pub fn finish(&self) -> (r: (Result<(), FlowError>, Option<ErrorMessage>))
        ensures
            (self.total_messages > 0 || self.errors_count == 0) ==> r.0 is Ok && r.1 is None,
            (self.total_messages == 0 && self.errors_count > 0) ==> r.0 == Err::<(), FlowError>(
                FlowError::Error,
            ),
            (self.total_messages == 0 && self.errors_count > 0) ==> (r.1 matches Some(m) && m.domain
                == ErrorDomain::Resource(ResourceErrorKind::Write) && m.text@
                == "Failed to send all buffers in list"@),
    {
        if self.total_messages > 0 {
            (Ok(()), None)
        } else if self.errors_count > 0 {
            (
                Err(FlowError::Error),
                Some(
                    error_message(
                        ErrorDomain::Resource(ResourceErrorKind::Write),
                        "Failed to send all buffers in list",
                    ),
                ),
            )
        } else {
            (Ok(()), None)
        }
    }
}

/// One more accepted URI parameter, after accepted ones.
proof fn lemma_sink_apply_push(
    c1: SinkConfig,
    ps: Seq<Seq<char>>,
    k: Seq<char>,
    v: Seq<char>,
    cur: SinkConfig,
    next: SinkConfig,
)
    requires
        sink_uri_params_apply(c1, pairs_of(ps)) == (cur, None::<(UriErrorKind, Seq<char>)>),
        !k.contains('='),
        sink_uri_param(cur, k, v) == Ok::<SinkConfig, (UriErrorKind, Seq<char>)>(next),
    ensures
        sink_uri_params_apply(c1, pairs_of(ps.push(k + seq!['='] + v))) == (next, None::<
            (UriErrorKind, Seq<char>),
        >),
{
    lemma_pairs_push(ps, k, v);
    assert(pairs_of(ps).push((k, v)).drop_last() =~= pairs_of(ps));
}

/// The literal texts the URI of a sink is made of.
proof fn lemma_sink_uri_texts()
    ensures
        "config="@ =~= "config"@ + seq!['='],
        "priority="@ =~= "priority"@ + seq!['='],
        "congestion-control="@ =~= "congestion-control"@ + seq!['='],
        "reliability="@ =~= "reliability"@ + seq!['='],
        "express=true"@ =~= "express"@ + seq!['='] + "true"@,
        !"config"@.contains('=') && !"config"@.contains('&'),
        !"priority"@.contains('=') && !"priority"@.contains('&'),
        !"congestion-control"@.contains('=') && !"congestion-control"@.contains('&'),
        !"reliability"@.contains('=') && !"reliability"@.contains('&'),
        !"express"@.contains('=') && !"express"@.contains('&'),
        !"true"@.contains('%') && !"true"@.contains('&'),
        !"drop"@.contains('%') && !"drop"@.contains('&'),
        !"reliable"@.contains('%') && !"reliable"@.contains('&'),
        "block"@ != "drop"@,
        "best-effort"@ != "reliable"@,
{
    reveal_strlit("config=");
    reveal_strlit("config");
    reveal_strlit("priority=");
    reveal_strlit("priority");
    reveal_strlit("congestion-control=");
    reveal_strlit("congestion-control");
    reveal_strlit("reliability=");
    reveal_strlit("reliability");
    reveal_strlit("express=true");
    reveal_strlit("express");
    reveal_strlit("true");
    reveal_strlit("drop");
    reveal_strlit("block");
    reveal_strlit("reliable");
    reveal_strlit("best-effort");
    assert("block"@.len() != "drop"@.len());
    assert("best-effort"@.len() != "reliable"@.len());
}

/// A sink configured from another's URI gets its publisher settings: key
/// expression, config file, priority, congestion control, reliability and
/// express mode (the other settings are not in the URI and keep their
/// defaults). This holds for every valid configuration (which all settings a
/// sink can be in are, see `lemma_sink_settings_stay_valid`) whose key
/// expression has no `?` or `%` (which would read back differently).
pub proof fn lemma_sink_uri_roundtrip(c: SinkConfig)
    requires
        c.key_expr.len() > 0,
        !c.key_expr.contains('%'),
        !c.key_expr.contains('?'),
        sink_config_valid(c),
    ensures
        sink_uri(c) is Some,
        sink_set_uri(sink_defaults(), false, sink_uri(c)->Some_0) == (
            SinkConfig {
                key_expr: c.key_expr,
                config_file: c.config_file,
                priority: c.priority,
                congestion_control: c.congestion_control,
                reliability: c.reliability,
                express: c.express,
                ..sink_defaults()
            },
            None::<(UriErrorKind, Seq<char>)>,
        ),
{
    lemma_sink_uri_keys();
    lemma_sink_uri_texts();
    let c1 = SinkConfig { key_expr: c.key_expr, ..sink_defaults() };
    let p0 = Seq::<Seq<char>>::empty();
    assert(pairs_of(p0) =~= Seq::<(Seq<char>, Seq<char>)>::empty());
    assert(sink_uri_params_apply(c1, pairs_of(p0)) == (c1, None::<(UriErrorKind, Seq<char>)>));

    let x1 = SinkConfig { config_file: c.config_file, ..c1 };
    let p1 = match c.config_file {
        Some(f) => p0.push("config="@ + pct_encode(encode_utf8(f))),
        None => p0,
    };
    if let Some(f) = c.config_file {
        lemma_url_decoded_encoded(f);
        lemma_pct_encode_plain(encode_utf8(f));
        assert("config="@ + pct_encode(encode_utf8(f)) =~= "config"@ + seq!['='] + pct_encode(
            encode_utf8(f),
        ));
        lemma_sink_apply_push(c1, p0, "config"@, pct_encode(encode_utf8(f)), c1, x1);
        lemma_amp_free_push(p0, "config"@, pct_encode(encode_utf8(f)));
    }
    assert(amp_free(p1));
    assert(sink_uri_params_apply(c1, pairs_of(p1)) == (x1, None::<(UriErrorKind, Seq<char>)>));

    let x2 = SinkConfig { priority: c.priority, ..x1 };
    let pr = c.priority;
    let p2 = if pr != 5 {
        p1.push("priority="@ + decimal(pr as nat))
    } else {
        p1
    };
    lemma_decimal_plain(pr as nat);
    if pr != 5 {
        lemma_url_decoded_plain(decimal(pr as nat));
        lemma_parse_decimal(pr as u64);
        assert("priority="@ + decimal(pr as nat) =~= "priority"@ + seq!['='] + decimal(pr as nat));
        lemma_sink_apply_push(c1, p1, "priority"@, decimal(pr as nat), x1, x2);
        lemma_amp_free_push(p1, "priority"@, decimal(pr as nat));
    }
    assert(amp_free(p2));
    assert(sink_uri_params_apply(c1, pairs_of(p2)) == (x2, None::<(UriErrorKind, Seq<char>)>));

    let x3 = SinkConfig { congestion_control: c.congestion_control, ..x2 };
    let p3 = if c.congestion_control != "block"@ {
        p2.push("congestion-control="@ + c.congestion_control)
    } else {
        p2
    };
    if c.congestion_control != "block"@ {
        lemma_url_decoded_plain("drop"@);
        assert("congestion-control="@ + "drop"@ =~= "congestion-control"@ + seq!['='] + "drop"@);
        lemma_sink_apply_push(c1, p2, "congestion-control"@, "drop"@, x2, x3);
        lemma_amp_free_push(p2, "congestion-control"@, "drop"@);
    }
    assert(amp_free(p3));
    assert(sink_uri_params_apply(c1, pairs_of(p3)) == (x3, None::<(UriErrorKind, Seq<char>)>));

    let x4 = SinkConfig { reliability: c.reliability, ..x3 };
    let p4 = if c.reliability != "best-effort"@ {
        p3.push("reliability="@ + c.reliability)
    } else {
        p3
    };
    if c.reliability != "best-effort"@ {
        lemma_url_decoded_plain("reliable"@);
        assert("reliability="@ + "reliable"@ =~= "reliability"@ + seq!['='] + "reliable"@);
        lemma_sink_apply_push(c1, p3, "reliability"@, "reliable"@, x3, x4);
        lemma_amp_free_push(p3, "reliability"@, "reliable"@);
    }
    assert(amp_free(p4));
    assert(sink_uri_params_apply(c1, pairs_of(p4)) == (x4, None::<(UriErrorKind, Seq<char>)>));

    let x5 = SinkConfig { express: c.express, ..x4 };
    let p5 = if c.express {
        p4.push("express=true"@)
    } else {
        p4
    };
    if c.express {
        lemma_url_decoded_plain("true"@);
        lemma_sink_apply_push(c1, p4, "express"@, "true"@, x4, x5);
        lemma_amp_free_push(p4, "express"@, "true"@);
    }
    assert(amp_free(p5));
    assert(sink_uri_params_apply(c1, pairs_of(p5)) == (x5, None::<(UriErrorKind, Seq<char>)>));
    assert(p5 == sink_uri_params(c));

    reveal_strlit("zenoh:");
    if p5.len() > 0 {
        lemma_query_of_params(p5);
        lemma_uri_target_of(c.key_expr, Some(join(p5, "&"@)));
    } else {
        lemma_uri_target_of(c.key_expr, None);
    }
}

/// The settings a sink can be in: a priority in 1..=7, a congestion control
/// and a reliability the publisher knows, and a compression level in 1..=9.
pub open spec fn sink_config_valid(c: SinkConfig) -> bool {
    &&& 1 <= c.priority <= 7
    &&& (c.congestion_control == "block"@ || c.congestion_control == "drop"@)
    &&& (c.reliability == "best-effort"@ || c.reliability == "reliable"@)
    &&& 1 <= c.compression_level <= 9
}

/// One URI parameter keeps valid settings valid.
proof fn lemma_sink_uri_param_valid(c: SinkConfig, k: Seq<char>, raw: Seq<char>)
    requires
        sink_config_valid(c),
    ensures
        sink_uri_param(c, k, raw) matches Ok(c2) ==> sink_config_valid(c2),
{
}

/// URI parameters keep valid settings valid.
proof fn lemma_sink_uri_params_valid(c: SinkConfig, ps: Seq<(Seq<char>, Seq<char>)>)
    requires
        sink_config_valid(c),
    ensures
        sink_config_valid(sink_uri_params_apply(c, ps).0),
    decreases ps.len(),
{
    if ps.len() > 0 {
        lemma_sink_uri_params_valid(c, ps.drop_last());
        let c2 = sink_uri_params_apply(c, ps.drop_last()).0;
        lemma_sink_uri_param_valid(c2, ps.last().0, ps.last().1);
    }
}

/// The default settings are valid, and neither setting a property nor setting
/// a URI leaves valid settings: out-of-range priorities and compression
/// levels are replaced by the defaults, unknown congestion controls and
/// reliabilities are kept out, and a URI refuses what it cannot set.
pub proof fn lemma_sink_settings_stay_valid(
    c: SinkConfig,
    ready: bool,
    name: Seq<char>,
    v: PropValue,
    uri: Seq<char>,
)
    requires
        sink_config_valid(c),
        sink_value_fits(name, v),
    ensures
        sink_config_valid(sink_defaults()),
        sink_config_valid(sink_set_property(c, ready, name, v).0),
        sink_config_valid(sink_set_uri(c, ready, uri).0),
{
    if let Ok((k, q)) = uri_target(uri) {
        if !ready {
            if let Some(q) = q {
                lemma_sink_uri_params_valid(SinkConfig { key_expr: k, ..c }, query_params(q));
            }
        }
    }
}

/// What a sink builder holds, as character sequences.
pub struct SinkBuilderView {
    pub key_expr: Seq<char>,
    pub config: Option<Seq<char>>,
    pub priority: Option<u32>,
    pub congestion_control: Option<Seq<char>>,
    pub reliability: Option<Seq<char>>,
    pub express: Option<bool>,
    pub send_caps: Option<bool>,
    pub caps_interval: Option<u32>,
    pub send_buffer_meta: Option<bool>,
    pub session_group: Option<Seq<char>>,
    /// The session to share, if one was given.
    pub session: Option<zenoh::Session>,
}

/// Builder for creating a sink with custom configuration.
pub struct ZenohSinkBuilder {
    key_expr: String,
    config: Option<String>,
    priority: Option<u32>,
    congestion_control: Option<String>,
    reliability: Option<String>,
    express: Option<bool>,
    send_caps: Option<bool>,
    caps_interval: Option<u32>,
    send_buffer_meta: Option<bool>,
    session_group: Option<String>,
    session: Option<zenoh::Session>,
}

/// The properties a sink builder sets, in order: the key expression, then
/// each option that was given.
pub open spec fn zenohsinkbuilder_props(b: SinkBuilderView) -> Seq<(Seq<char>, PropView)> {
    let p0 = seq![("key-expr"@, PropView::Str(b.key_expr))];
    let p1 = match b.config {
        Some(v) => p0.push(("config"@, PropView::OptStr(Some(v)))),
        None => p0,
    };
    let p2 = match b.priority {
        Some(v) => p1.push(("priority"@, PropView::U32(v))),
        None => p1,
    };
    let p3 = match b.congestion_control {
        Some(v) => p2.push(("congestion-control"@, PropView::Str(v))),
        None => p2,
    };
    let p4 = match b.reliability {
        Some(v) => p3.push(("reliability"@, PropView::Str(v))),
        None => p3,
    };
    let p5 = match b.express {
        Some(v) => p4.push(("express"@, PropView::Bool(v))),
        None => p4,
    };
    let p6 = match b.send_caps {
        Some(v) => p5.push(("send-caps"@, PropView::Bool(v))),
        None => p5,
    };
    let p7 = match b.caps_interval {
        Some(v) => p6.push(("caps-interval"@, PropView::U32(v))),
        None => p6,
    };
    let p8 = match b.send_buffer_meta {
        Some(v) => p7.push(("send-buffer-meta"@, PropView::Bool(v))),
        None => p7,
    };
    let p9 = match b.session_group {
        Some(v) => p8.push(("session-group"@, PropView::OptStr(Some(v)))),
        None => p8,
    };
    p9
}

impl ZenohSinkBuilder {
    /// What the builder holds.
    pub closed spec fn view(&self) -> SinkBuilderView {
        SinkBuilderView {
            key_expr: self.key_expr@,
            config: opt_string_view(self.config),
            priority: self.priority,
            congestion_control: opt_string_view(self.congestion_control),
            reliability: opt_string_view(self.reliability),
            express: self.express,
            send_caps: self.send_caps,
            caps_interval: self.caps_interval,
            send_buffer_meta: self.send_buffer_meta,
            session_group: opt_string_view(self.session_group),
            session: self.session,
        }
    }

    /// Creates a new builder with the required key expression.
    pub fn new(key_expr: &str) -> (b: Self)
        ensures
            b@ == (SinkBuilderView { key_expr: key_expr@, config: None, priority: None, congestion_control: None, reliability: None, express: None, send_caps: None, caps_interval: None, send_buffer_meta: None, session_group: None, session: None }),
    {
        ZenohSinkBuilder { key_expr: String::from_str(key_expr), config: None, priority: None, congestion_control: None, reliability: None, express: None, send_caps: None, caps_interval: None, send_buffer_meta: None, session_group: None, session: None }
    }

    /// Sets the path to a Zenoh configuration file.
    pub fn config(self, v: &str) -> (b: Self)
        ensures
            b@ == (SinkBuilderView { config: Some(v@), ..self@ }),
    {
        ZenohSinkBuilder { config: Some(String::from_str(v)), ..self }
    }

    /// Sets the publisher priority level (1-7).
    pub fn priority(self, v: u32) -> (b: Self)
        ensures
            b@ == (SinkBuilderView { priority: Some(v), ..self@ }),
    {
        ZenohSinkBuilder { priority: Some(v), ..self }
    }

    /// Sets the congestion control policy ("block" or "drop").
    pub fn congestion_control(self, v: &str) -> (b: Self)
        ensures
            b@ == (SinkBuilderView { congestion_control: Some(v@), ..self@ }),
    {
        ZenohSinkBuilder { congestion_control: Some(String::from_str(v)), ..self }
    }

    /// Sets the reliability mode ("best-effort" or "reliable").
    pub fn reliability(self, v: &str) -> (b: Self)
        ensures
            b@ == (SinkBuilderView { reliability: Some(v@), ..self@ }),
    {
        ZenohSinkBuilder { reliability: Some(String::from_str(v)), ..self }
    }

    /// Enables or disables express mode.
    pub fn express(self, v: bool) -> (b: Self)
        ensures
            b@ == (SinkBuilderView { express: Some(v), ..self@ }),
    {
        ZenohSinkBuilder { express: Some(v), ..self }
    }

    /// Enables or disables sending caps as metadata.
    pub fn send_caps(self, v: bool) -> (b: Self)
        ensures
            b@ == (SinkBuilderView { send_caps: Some(v), ..self@ }),
    {
        ZenohSinkBuilder { send_caps: Some(v), ..self }
    }

    /// Sets the caps transmission interval in seconds.
    pub fn caps_interval(self, v: u32) -> (b: Self)
        ensures
            b@ == (SinkBuilderView { caps_interval: Some(v), ..self@ }),
    {
        ZenohSinkBuilder { caps_interval: Some(v), ..self }
    }

    /// Enables or disables sending buffer timing metadata.
    pub fn send_buffer_meta(self, v: bool) -> (b: Self)
        ensures
            b@ == (SinkBuilderView { send_buffer_meta: Some(v), ..self@ }),
    {
        ZenohSinkBuilder { send_buffer_meta: Some(v), ..self }
    }

    /// Sets the session group name for sharing sessions across elements.
    pub fn session_group(self, v: &str) -> (b: Self)
        ensures
            b@ == (SinkBuilderView { session_group: Some(v@), ..self@ }),
    {
        ZenohSinkBuilder { session_group: Some(String::from_str(v)), ..self }
    }

    /// Sets a shared Zenoh session for the element.
    pub fn session(self, session: zenoh::Session) -> (b: Self)
        ensures
            b@ == (SinkBuilderView { session: Some(session), ..self@ }),
    {
        ZenohSinkBuilder { session: Some(session), ..self }
    }

    /// The properties to make the sink with, and the session to share.
    pub fn build(self) -> (e: ElementProperties)
        ensures
            props_view(e.properties@) == zenohsinkbuilder_props(self@),
            e.session == self@.session,
    {
        let ghost v = self@;
        let mut props: Vec<(String, PropValue)> = Vec::new();
        push_prop(&mut props, "key-expr", PropValue::Str(self.key_expr));
        assert(props_view(props@) =~= seq![("key-expr"@, PropView::Str(v.key_expr))]);
        if let Some(x) = self.config {
            push_prop(&mut props, "config", PropValue::OptStr(Some(x)));
        }
        if let Some(x) = self.priority {
            push_prop(&mut props, "priority", PropValue::U32(x));
        }
        if let Some(x) = self.congestion_control {
            push_prop(&mut props, "congestion-control", PropValue::Str(x));
        }
        if let Some(x) = self.reliability {
            push_prop(&mut props, "reliability", PropValue::Str(x));
        }
        if let Some(x) = self.express {
            push_prop(&mut props, "express", PropValue::Bool(x));
        }
        if let Some(x) = self.send_caps {
            push_prop(&mut props, "send-caps", PropValue::Bool(x));
        }
        if let Some(x) = self.caps_interval {
            push_prop(&mut props, "caps-interval", PropValue::U32(x));
        }
        if let Some(x) = self.send_buffer_meta {
            push_prop(&mut props, "send-buffer-meta", PropValue::Bool(x));
        }
        if let Some(x) = self.session_group {
            push_prop(&mut props, "session-group", PropValue::OptStr(Some(x)));
        }
        ElementProperties { properties: props, session: self.session }
    }
}

} // verus!
