//! The source element's logic: its settings and their URI form, the receive
//! handler choice and its drop-oldest ring, start and stop decisions, and what
//! a received sample becomes.

use vstd::prelude::*;
use std::collections::VecDeque;
use vstd::utf8::encode_utf8;
use crate::element::{ElementProperties, PropView, prop_view, props_view, push_prop, session_source, session_source_of, session_source_view, PropValue, SessionSource, SetOutcome};
use crate::error::{error_message, ErrorDomain, ErrorMessage, ResourceErrorKind};
use crate::compression::fault_message;
use crate::metadata::{parse_attachment, BufferTiming, MetadataFields};
use crate::receive::{
    carries_timing, decode_sample, decode_spec, fresh_buffer_timing, fresh_timing, has_timing,
    metadata_has_timing,
    metadata_view, ntp_to_unix_nanos, ntp_unix_nanos, timing_from,
};
use crate::text::{
    all_digits, is_digit, lemma_decimal_digits, lemma_parse_decimal,
    append_chars, chars_of, decimal, decimal_u64, join, join_chars, parse_u32, parse_u32_chars,
    parse_u64, parse_u64_chars, str_eq, string_of, views,
};
use crate::uri::{
    lemma_pairs_push, lemma_pct_encode_plain, lemma_query_of_params, lemma_uri_target_of,
    lemma_url_decoded_encoded, lemma_url_decoded_plain, pairs_of, URI_SCHEME,
    decode_component, encode_component, parse_query, parse_uri, pct_encode, query_params,
    string_pairs_view, uri_error, uri_target, url_decoded, UriError, UriErrorKind, opt_string_view,
};

verus! {

/// Receive-handler strategy for the Zenoh subscriber.
///
/// `Fifo` (default) is the lossless, unbounded handler — every sample is queued
/// in order. `Ring` keeps only the most recent `queue-depth` samples, dropping
/// the oldest when full; this bounds latency build-up for live sources (e.g. RTP
/// video) where staleness is worse than loss.
#[derive(Debug, Clone, Copy, PartialEq, Eq, Structural)]
pub enum HandlerMode {
    Fifo,
    Ring,
}

/// The handler a property nick names.
pub open spec fn handler_of_nick(s: Seq<char>) -> Option<HandlerMode> {
    if s == "fifo"@ {
        Some(HandlerMode::Fifo)
    } else if s == "ring"@ {
        Some(HandlerMode::Ring)
    } else {
        None
    }
}

/// The property nick of a handler.
pub open spec fn nick_of_handler(h: HandlerMode) -> Seq<char> {
    match h {
        HandlerMode::Fifo => "fifo"@,
        HandlerMode::Ring => "ring"@,
    }
}

impl HandlerMode {
    /// Parse the property nick (`"fifo"` / `"ring"`); `None` if unrecognized.
    pub fn from_nick(s: &str) -> (r: Option<HandlerMode>)
        ensures
            r == handler_of_nick(s@),
    {
        if crate::text::str_eq(s, "fifo") {
            Some(HandlerMode::Fifo)
        } else if crate::text::str_eq(s, "ring") {
            Some(HandlerMode::Ring)
        } else {
            None
        }
    }

    /// The property nick.
    pub fn as_nick(self) -> (s: &'static str)
        ensures
            s@ == nick_of_handler(self),
    {
        match self {
            HandlerMode::Fifo => "fifo",
            HandlerMode::Ring => "ring",
        }
    }
}

impl Default for HandlerMode {
    /// The lossless FIFO handler.
    fn default() -> (h: HandlerMode)
        ensures
            h == HandlerMode::Fifo,
    {
        HandlerMode::Fifo
    }
}

/// The ring after pushing `x` onto `s` with room for `cap`: the oldest is
/// evicted first when full (and there is one).
pub open spec fn ring_push<T>(s: Seq<T>, cap: nat, x: T) -> Seq<T> {
    if s.len() >= cap && s.len() > 0 {
        s.drop_first().push(x)
    } else {
        s.push(x)
    }
}

/// The ring and eviction count after pushing every item, in order, onto an
/// empty ring with room for `cap`.
pub open spec fn ring_after<T>(items: Seq<T>, cap: nat) -> (Seq<T>, nat)
    decreases items.len(),
{
    if items.len() == 0 {
        (Seq::empty(), 0)
    } else {
        let (s, d) = ring_after(items.drop_last(), cap);
        (ring_push(s, cap, items.last()), if s.len() >= cap {
            d + 1
        } else {
            d
        })
    }
}

/// Generic bounded "keep latest N" buffer that drops — and counts — the oldest
/// element when full.
pub struct CountingRing<T> {
    ring: VecDeque<T>,
    capacity: usize,
    dropped: u64,
}

impl<T> CountingRing<T> {
    /// The retained elements, oldest first.
    pub closed spec fn view(&self) -> Seq<T> {
        self.ring@
    }

    /// The room the ring was made with.
    pub closed spec fn cap(&self) -> nat {
        self.capacity as nat
    }

    /// How many elements were evicted, modulo 2^64.
    pub closed spec fn dropped_count(&self) -> u64 {
        self.dropped
    }

    /// An empty ring with room for `capacity` elements.
    pub fn new(capacity: usize) -> (r: Self)
        ensures
            r@ == Seq::<T>::empty(),
            r.cap() == capacity,
            r.dropped_count() == 0,
    {
        CountingRing { ring: VecDeque::new(), capacity, dropped: 0 }
    }

    /// Push the newest element, evicting (and counting) the oldest when full.
    pub fn push(&mut self, item: T)
        ensures
            final(self)@ == ring_push(old(self)@, old(self).cap(), item),
            final(self).cap() == old(self).cap(),
            final(self).dropped_count() == if old(self)@.len() >= old(self).cap() {
                (old(self).dropped_count() as nat + 1) % 0x1_0000_0000_0000_0000
            } else {
                old(self).dropped_count() as nat
            },
    {
        if self.ring.len() >= self.capacity {
            let _ = self.ring.pop_front();
            self.dropped = self.dropped.wrapping_add(1);
        }
        self.ring.push_back(item);
        proof {
            if old(self)@.len() >= old(self).cap() && old(self)@.len() > 0 {
                assert(old(self)@.subrange(1, old(self)@.len() as int) =~= old(self)@.drop_first());
            }
        }
    }

    /// Pop the oldest retained element, if any.
    pub fn pop(&mut self) -> (r: Option<T>)
        ensures
            final(self).cap() == old(self).cap(),
            final(self).dropped_count() == old(self).dropped_count(),
            match r {
                Some(x) => old(self)@.len() > 0 && x == old(self)@[0] && final(self)@ == old(
                    self,
                )@.drop_first(),
                None => old(self)@.len() == 0 && final(self)@ == old(self)@,
            },
    {
        let r = self.ring.pop_front();
        proof {
            if old(self)@.len() > 0 {
                assert(old(self)@.subrange(1, old(self)@.len() as int) =~= old(self)@.drop_first());
            }
        }
        r
    }

    /// How many elements were evicted (wrapping at 2^64, as an atomic counter
    /// does).
    pub fn dropped(&self) -> (n: u64)
        ensures
            n == self.dropped_count(),
    {
        self.dropped
    }

    /// The number of retained elements.
    pub fn len(&self) -> (n: usize)
        ensures
            n == self@.len(),
    {
        self.ring.len()
    }
}

/// A ring with room for at least one element keeps exactly the most recent
/// `cap` of the elements pushed onto it, in arrival order, and counts every
/// other one as dropped.
pub proof fn lemma_ring_keeps_latest<T>(items: Seq<T>, cap: nat)
    requires
        cap >= 1,
    ensures
        ring_after(items, cap).0 == (if items.len() > cap {
            items.skip(items.len() - cap)
        } else {
            items
        }),
        ring_after(items, cap).1 == (if items.len() > cap {
            (items.len() - cap) as nat
        } else {
            0
        }),
    decreases items.len(),
{
    if items.len() > 0 {
        let p = items.drop_last();
        lemma_ring_keeps_latest(p, cap);
        let (s, d) = ring_after(p, cap);
        if p.len() >= cap {
            assert(s.drop_first().push(items.last()) =~= items.skip(items.len() - cap));
        } else {
            assert(s.push(items.last()) =~= items);
        }
    } else {
        assert(ring_after(items, cap).0 =~= items);
    }
}

/// The source's settings, as character sequences.
pub struct SrcConfig {
    pub key_expr: Seq<char>,
    pub config_file: Option<Seq<char>>,
    pub receive_timeout_ms: u64,
    pub apply_buffer_meta: bool,
    pub handler: HandlerMode,
    pub queue_depth: u32,
    pub session_group: Option<Seq<char>>,
}

/// The property names are distinct texts.
proof fn lemma_src_names()
    ensures
        "key-expr"@ != "config"@,
        "key-expr"@ != "session-group"@,
        "key-expr"@ != "handler"@,
        "key-expr"@ != "queue-depth"@,
        "key-expr"@ != "receive-timeout-ms"@,
        "key-expr"@ != "apply-buffer-meta"@,
        "key-expr"@ != "bytes-received"@,
        "key-expr"@ != "messages-received"@,
        "key-expr"@ != "errors"@,
        "key-expr"@ != "dropped"@,
        "config"@ != "session-group"@,
        "config"@ != "handler"@,
        "config"@ != "queue-depth"@,
        "config"@ != "receive-timeout-ms"@,
        "config"@ != "apply-buffer-meta"@,
        "config"@ != "bytes-received"@,
        "config"@ != "messages-received"@,
        "config"@ != "errors"@,
        "config"@ != "dropped"@,
        "session-group"@ != "handler"@,
        "session-group"@ != "queue-depth"@,
        "session-group"@ != "receive-timeout-ms"@,
        "session-group"@ != "apply-buffer-meta"@,
        "session-group"@ != "bytes-received"@,
        "session-group"@ != "messages-received"@,
        "session-group"@ != "errors"@,
        "session-group"@ != "dropped"@,
        "handler"@ != "queue-depth"@,
        "handler"@ != "receive-timeout-ms"@,
        "handler"@ != "apply-buffer-meta"@,
        "handler"@ != "bytes-received"@,
        "handler"@ != "messages-received"@,
        "handler"@ != "errors"@,
        "handler"@ != "dropped"@,
        "queue-depth"@ != "receive-timeout-ms"@,
        "queue-depth"@ != "apply-buffer-meta"@,
        "queue-depth"@ != "bytes-received"@,
        "queue-depth"@ != "messages-received"@,
        "queue-depth"@ != "errors"@,
        "queue-depth"@ != "dropped"@,
        "receive-timeout-ms"@ != "apply-buffer-meta"@,
        "receive-timeout-ms"@ != "bytes-received"@,
        "receive-timeout-ms"@ != "messages-received"@,
        "receive-timeout-ms"@ != "errors"@,
        "receive-timeout-ms"@ != "dropped"@,
        "apply-buffer-meta"@ != "bytes-received"@,
        "apply-buffer-meta"@ != "messages-received"@,
        "apply-buffer-meta"@ != "errors"@,
        "apply-buffer-meta"@ != "dropped"@,
        "bytes-received"@ != "messages-received"@,
        "bytes-received"@ != "errors"@,
        "bytes-received"@ != "dropped"@,
        "messages-received"@ != "errors"@,
        "messages-received"@ != "dropped"@,
        "errors"@ != "dropped"@,
{
    reveal_strlit("key-expr");
    reveal_strlit("config");
    reveal_strlit("session-group");
    reveal_strlit("handler");
    reveal_strlit("queue-depth");
    reveal_strlit("receive-timeout-ms");
    reveal_strlit("apply-buffer-meta");
    reveal_strlit("bytes-received");
    reveal_strlit("messages-received");
    reveal_strlit("errors");
    reveal_strlit("dropped");
    assert("key-expr"@.len() != "config"@.len());
    assert("key-expr"@.len() != "session-group"@.len());
    assert("key-expr"@.len() != "handler"@.len());
    assert("key-expr"@.len() != "queue-depth"@.len());
    assert("key-expr"@.len() != "receive-timeout-ms"@.len());
    assert("key-expr"@.len() != "apply-buffer-meta"@.len());
    assert("key-expr"@.len() != "bytes-received"@.len());
    assert("key-expr"@.len() != "messages-received"@.len());
    assert("key-expr"@.len() != "errors"@.len());
    assert("key-expr"@.len() != "dropped"@.len());
    assert("config"@.len() != "session-group"@.len());
    assert("config"@.len() != "handler"@.len());
    assert("config"@.len() != "queue-depth"@.len());
    assert("config"@.len() != "receive-timeout-ms"@.len());
    assert("config"@.len() != "apply-buffer-meta"@.len());
    assert("config"@.len() != "bytes-received"@.len());
    assert("config"@.len() != "messages-received"@.len());
    assert("config"@[0] != "errors"@[0]);
    assert("config"@.len() != "dropped"@.len());
    assert("session-group"@.len() != "handler"@.len());
    assert("session-group"@.len() != "queue-depth"@.len());
    assert("session-group"@.len() != "receive-timeout-ms"@.len());
    assert("session-group"@.len() != "apply-buffer-meta"@.len());
    assert("session-group"@.len() != "bytes-received"@.len());
    assert("session-group"@.len() != "messages-received"@.len());
    assert("session-group"@.len() != "errors"@.len());
    assert("session-group"@.len() != "dropped"@.len());
    assert("handler"@.len() != "queue-depth"@.len());
    assert("handler"@.len() != "receive-timeout-ms"@.len());
    assert("handler"@.len() != "apply-buffer-meta"@.len());
    assert("handler"@.len() != "bytes-received"@.len());
    assert("handler"@.len() != "messages-received"@.len());
    assert("handler"@.len() != "errors"@.len());
    assert("handler"@[0] != "dropped"@[0]);
    assert("queue-depth"@.len() != "receive-timeout-ms"@.len());
    assert("queue-depth"@.len() != "apply-buffer-meta"@.len());
    assert("queue-depth"@.len() != "bytes-received"@.len());
    assert("queue-depth"@.len() != "messages-received"@.len());
    assert("queue-depth"@.len() != "errors"@.len());
    assert("queue-depth"@.len() != "dropped"@.len());
    assert("receive-timeout-ms"@.len() != "apply-buffer-meta"@.len());
    assert("receive-timeout-ms"@.len() != "bytes-received"@.len());
    assert("receive-timeout-ms"@.len() != "messages-received"@.len());
    assert("receive-timeout-ms"@.len() != "errors"@.len());
    assert("receive-timeout-ms"@.len() != "dropped"@.len());
    assert("apply-buffer-meta"@.len() != "bytes-received"@.len());
    assert("apply-buffer-meta"@[0] != "messages-received"@[0]);
    assert("apply-buffer-meta"@.len() != "errors"@.len());
    assert("apply-buffer-meta"@.len() != "dropped"@.len());
    assert("bytes-received"@.len() != "messages-received"@.len());
    assert("bytes-received"@.len() != "errors"@.len());
    assert("bytes-received"@.len() != "dropped"@.len());
    assert("messages-received"@.len() != "errors"@.len());
    assert("messages-received"@.len() != "dropped"@.len());
    assert("errors"@.len() != "dropped"@.len());
}

/// Configuration settings for the source element.
#[derive(Debug, Clone)]
pub struct SrcSettings {
    /// Zenoh key expression for subscribing to data (required)
    pub key_expr: String,
    /// Optional path to Zenoh configuration file
    pub config_file: Option<String>,
    /// Receive timeout in milliseconds for polling the subscriber
    pub receive_timeout_ms: u64,
    /// Apply buffer timing metadata from received messages (default: true)
    pub apply_buffer_meta: bool,
    /// Subscriber receive-handler strategy (FIFO vs. drop-oldest ring).
    pub handler: HandlerMode,
    /// Ring-handler capacity: max samples retained before the oldest is dropped.
    pub queue_depth: u32,
    /// Session group name for sharing sessions via property
    pub session_group: Option<String>,
}

/// The default receive timeout, in milliseconds.
pub const DEFAULT_RECEIVE_TIMEOUT_MS: u64 = 100;

/// The default ring depth.
pub const DEFAULT_QUEUE_DEPTH: u32 = 30;

/// The default settings: no key expression, no config file, a 100 ms receive
/// timeout, buffer metadata applied, the FIFO handler, a ring depth of 30 and
/// no session group.
pub open spec fn src_defaults() -> SrcConfig {
    SrcConfig {
        key_expr: Seq::empty(),
        config_file: None,
        receive_timeout_ms: 100,
        apply_buffer_meta: true,
        handler: HandlerMode::Fifo,
        queue_depth: 30,
        session_group: None,
    }
}

/// `v` moved into `[lo, hi]`.
pub open spec fn clamp(v: int, lo: int, hi: int) -> int {
    if v < lo {
        lo
    } else if v > hi {
        hi
    } else {
        v
    }
}

/// The properties that cannot change while the source is started.
pub open spec fn src_locked_when_started(name: Seq<char>) -> bool {
    name == "key-expr"@ || name == "config"@ || name == "session-group"@ || name == "handler"@
        || name == "queue-depth"@
}

/// Whether a value has the type a property is declared with.
pub open spec fn src_value_fits(name: Seq<char>, v: PropValue) -> bool {
    if name == "key-expr"@ || name == "handler"@ {
        v is Str
    } else if name == "config"@ || name == "session-group"@ {
        v is OptStr
    } else if name == "receive-timeout-ms"@ {
        v is U64
    } else if name == "apply-buffer-meta"@ {
        v is Bool
    } else if name == "queue-depth"@ {
        v is U32
    } else {
        true
    }
}

/// What setting a property does to the settings, and its outcome.
pub open spec fn src_set_property(c: SrcConfig, started: bool, name: Seq<char>, v: PropValue) -> (
    SrcConfig,
    SetOutcome,
) {
    if started && src_locked_when_started(name) {
        (c, SetOutcome::Locked)
    } else if name == "key-expr"@ {
        (SrcConfig { key_expr: v->Str_0@, ..c }, SetOutcome::Applied)
    } else if name == "config"@ {
        (SrcConfig { config_file: opt_string_view(v->OptStr_0), ..c }, SetOutcome::Applied)
    } else if name == "receive-timeout-ms"@ {
        let t = v->U64_0;
        let k = clamp(t as int, 10, 5000) as u64;
        (SrcConfig { receive_timeout_ms: k, ..c }, if k == t {
            SetOutcome::Applied
        } else {
            SetOutcome::Clamped
        })
    } else if name == "apply-buffer-meta"@ {
        (SrcConfig { apply_buffer_meta: v->Bool_0, ..c }, SetOutcome::Applied)
    } else if name == "handler"@ {
        match handler_of_nick(v->Str_0@) {
            Some(h) => (SrcConfig { handler: h, ..c }, SetOutcome::Applied),
            None => (c, SetOutcome::Kept),
        }
    } else if name == "queue-depth"@ {
        (SrcConfig { queue_depth: v->U32_0, ..c }, SetOutcome::Applied)
    } else if name == "session-group"@ {
        (SrcConfig { session_group: opt_string_view(v->OptStr_0), ..c }, SetOutcome::Applied)
    } else {
        (c, SetOutcome::Unknown)
    }
}

/// What reading a settable property gives, for the settable properties.
pub open spec fn src_prop_read(c: SrcConfig, name: Seq<char>) -> Option<PropView> {
    if name == "key-expr"@ {
        Some(PropView::Str(c.key_expr))
    } else if name == "config"@ {
        Some(PropView::OptStr(c.config_file))
    } else if name == "receive-timeout-ms"@ {
        Some(PropView::U64(c.receive_timeout_ms))
    } else if name == "apply-buffer-meta"@ {
        Some(PropView::Bool(c.apply_buffer_meta))
    } else if name == "handler"@ {
        Some(PropView::Str(nick_of_handler(c.handler)))
    } else if name == "queue-depth"@ {
        Some(PropView::U32(c.queue_depth))
    } else if name == "session-group"@ {
        Some(PropView::OptStr(c.session_group))
    } else {
        None
    }
}

/// Setting a property and reading it back: when the setting is applied, the
/// property reads the value that was set; a receive timeout outside
/// 10..=5000 ms reads as the nearest bound; when it is locked or kept,
/// nothing changes; unless the source is started, no setting is locked; and
/// every other property reads as before.
pub proof fn lemma_src_set_then_get(c: SrcConfig, started: bool, name: Seq<char>, v: PropValue)
    requires
        src_value_fits(name, v),
        src_prop_read(c, name) is Some,
    ensures
        ({
            let (c2, o) = src_set_property(c, started, name, v);
            &&& o == SetOutcome::Applied ==> src_prop_read(c2, name) == Some(prop_view(v))
            &&& o == SetOutcome::Clamped ==> name == "receive-timeout-ms"@ && src_prop_read(
                c2,
                name,
            ) == Some(PropView::U64(clamp(v->U64_0 as int, 10, 5000) as u64))
            &&& (o == SetOutcome::Locked || o == SetOutcome::Kept) ==> c2 == c
            &&& !started ==> o != SetOutcome::Locked
            &&& forall|other: Seq<char>|
                other != name ==> #[trigger] src_prop_read(c2, other) == src_prop_read(c, other)
        }),
{
    lemma_src_names();
    reveal_strlit("fifo");
    reveal_strlit("ring");
}

/// The statistics a started source reports.
#[derive(Debug, Clone, Copy, PartialEq, Eq, Structural)]
pub struct SrcStats {
    pub bytes_received: u64,
    pub messages_received: u64,
    pub errors: u64,
    pub dropped: u64,
}

/// The `?name=value` parameters `uri` writes, in order: the config file
/// (percent-encoded) and every setting that differs from its default.
pub open spec fn src_uri_params(c: SrcConfig) -> Seq<Seq<char>> {
    let p0 = Seq::<Seq<char>>::empty();
    let p1 = match c.config_file {
        Some(f) => p0.push("config="@ + pct_encode(encode_utf8(f))),
        None => p0,
    };
    let p2 = if c.receive_timeout_ms != 100 {
        p1.push("receive-timeout-ms="@ + decimal(c.receive_timeout_ms as nat))
    } else {
        p1
    };
    let p3 = if !c.apply_buffer_meta {
        p2.push("apply-buffer-meta=false"@)
    } else {
        p2
    };
    let p4 = if c.handler != HandlerMode::Fifo {
        p3.push("handler="@ + nick_of_handler(c.handler))
    } else {
        p3
    };
    if c.queue_depth != 30 {
        p4.push("queue-depth="@ + decimal(c.queue_depth as nat))
    } else {
        p4
    }
}

/// The URI of a source: none without a key expression, otherwise
/// `zenoh:<key-expr>` and the parameters after a `?`, joined with `&`.
pub open spec fn src_uri(c: SrcConfig) -> Option<Seq<char>> {
    if c.key_expr.len() == 0 {
        None
    } else {
        let ps = src_uri_params(c);
        Some("zenoh:"@ + c.key_expr + if ps.len() > 0 {
            "?"@ + join(ps, "&"@)
        } else {
            Seq::empty()
        })
    }
}

/// The value `apply-buffer-meta` takes from a URI.
pub open spec fn uri_bool(v: Seq<char>) -> Option<bool> {
    if v == "true"@ || v == "1"@ || v == "yes"@ {
        Some(true)
    } else if v == "false"@ || v == "0"@ || v == "no"@ {
        Some(false)
    } else {
        None
    }
}

/// What one URI parameter does to the settings, or why it is refused.
pub open spec fn src_uri_param(c: SrcConfig, k: Seq<char>, raw: Seq<char>) -> Result<
    SrcConfig,
    (UriErrorKind, Seq<char>),
> {
    match url_decoded(raw) {
        Err(e) => Err((UriErrorKind::BadUri, "Failed to decode parameter value: "@ + e)),
        Ok(v) => if k == "config"@ {
            Ok(SrcConfig { config_file: Some(v), ..c })
        } else if k == "receive-timeout-ms"@ {
            match parse_u64(v) {
                Some(t) => Ok(SrcConfig { receive_timeout_ms: clamp(t as int, 10, 5000) as u64, ..c }),
                None => Err((UriErrorKind::BadUri, "Invalid receive-timeout-ms value: "@ + v)),
            }
        } else if k == "apply-buffer-meta"@ {
            match uri_bool(v) {
                Some(b) => Ok(SrcConfig { apply_buffer_meta: b, ..c }),
                None => Err((UriErrorKind::BadUri, "Invalid apply-buffer-meta value: "@ + v)),
            }
        } else if k == "handler"@ {
            match handler_of_nick(v) {
                Some(h) => Ok(SrcConfig { handler: h, ..c }),
                None => Err(
                    (
                        UriErrorKind::BadUri,
                        "Invalid handler value: "@ + v + " (expected 'fifo' or 'ring')"@,
                    ),
                ),
            }
        } else if k == "queue-depth"@ {
            match parse_u32(v) {
                Some(d) => Ok(SrcConfig { queue_depth: clamp(d as int, 1, 100000) as u32, ..c }),
                None => Err((UriErrorKind::BadUri, "Invalid queue-depth value: "@ + v)),
            }
        } else {
            Ok(c)
        },
    }
}

/// The settings after the URI parameters, applied in order up to the first
/// refused one, and the refusal if there was one.
pub open spec fn src_uri_params_apply(c: SrcConfig, ps: Seq<(Seq<char>, Seq<char>)>) -> (
    SrcConfig,
    Option<(UriErrorKind, Seq<char>)>,
)
    decreases ps.len(),
{
    if ps.len() == 0 {
        (c, None)
    } else {
        let (c2, e) = src_uri_params_apply(c, ps.drop_last());
        if e is Some {
            (c2, e)
        } else {
            match src_uri_param(c2, ps.last().0, ps.last().1) {
                Ok(c3) => (c3, None),
                Err(x) => (c2, Some(x)),
            }
        }
    }
}

/// The URI parameter names are distinct texts.
proof fn lemma_src_uri_keys()
    ensures
        "config"@ != "receive-timeout-ms"@,
        "config"@ != "apply-buffer-meta"@,
        "config"@ != "handler"@,
        "config"@ != "queue-depth"@,
        "receive-timeout-ms"@ != "apply-buffer-meta"@,
        "receive-timeout-ms"@ != "handler"@,
        "receive-timeout-ms"@ != "queue-depth"@,
        "apply-buffer-meta"@ != "handler"@,
        "apply-buffer-meta"@ != "queue-depth"@,
        "handler"@ != "queue-depth"@,
{
    reveal_strlit("config");
    reveal_strlit("receive-timeout-ms");
    reveal_strlit("apply-buffer-meta");
    reveal_strlit("handler");
    reveal_strlit("queue-depth");
    assert("config"@.len() != "receive-timeout-ms"@.len());
    assert("config"@.len() != "apply-buffer-meta"@.len());
    assert("config"@.len() != "handler"@.len());
    assert("config"@.len() != "queue-depth"@.len());
    assert("receive-timeout-ms"@.len() != "apply-buffer-meta"@.len());
    assert("receive-timeout-ms"@.len() != "handler"@.len());
    assert("receive-timeout-ms"@.len() != "queue-depth"@.len());
    assert("apply-buffer-meta"@.len() != "handler"@.len());
    assert("apply-buffer-meta"@.len() != "queue-depth"@.len());
    assert("handler"@.len() != "queue-depth"@.len());
}

/// Once a parameter is refused, the ones after it change nothing.
proof fn lemma_src_params_stop(c: SrcConfig, ps: Seq<(Seq<char>, Seq<char>)>, k: int)
    requires
        0 <= k <= ps.len(),
        src_uri_params_apply(c, ps.take(k)).1 is Some,
    ensures
        src_uri_params_apply(c, ps) == src_uri_params_apply(c, ps.take(k)),
    decreases ps.len() - k,
{
    if k < ps.len() {
        assert(ps.take(k + 1).drop_last() =~= ps.take(k));
        lemma_src_params_stop(c, ps, k + 1);
    } else {
        assert(ps.take(k) =~= ps);
    }
}

/// What setting a URI does: the settings after it, and whether it was taken.
/// A refused parameter leaves the key expression and the parameters before it
/// applied.
pub open spec fn src_set_uri(c: SrcConfig, started: bool, uri: Seq<char>) -> (
    SrcConfig,
    Option<(UriErrorKind, Seq<char>)>,
) {
    match uri_target(uri) {
        Err(e) => (c, Some(e)),
        Ok((k, q)) => if started {
            (c, Some((UriErrorKind::BadState, "Cannot change URI while element is started"@)))
        } else {
            let c1 = SrcConfig { key_expr: k, ..c };
            match q {
                None => (c1, None),
                Some(q) => src_uri_params_apply(c1, query_params(q)),
            }
        },
    }
}

/// A text made of a prefix and characters.
fn prefixed(p: &str, v: &[char]) -> (r: Vec<char>)
    ensures
        r@ == p@ + v@,
{
    let mut r = chars_of(p);
    append_chars(&mut r, v);
    r
}

/// A text made of a prefix and a string.
fn prefixed_str(p: &str, v: &str) -> (r: String)
    ensures
        r@ == p@ + v@,
{
    let mut r = String::from_str(p);
    r.append(v);
    r
}

impl View for SrcSettings {
    type V = SrcConfig;

    /// The settings as character sequences.
    open spec fn view(&self) -> SrcConfig {
        SrcConfig {
            key_expr: self.key_expr@,
            config_file: opt_string_view(self.config_file),
            receive_timeout_ms: self.receive_timeout_ms,
            apply_buffer_meta: self.apply_buffer_meta,
            handler: self.handler,
            queue_depth: self.queue_depth,
            session_group: opt_string_view(self.session_group),
        }
    }
}

impl SrcSettings {
    /// Set a property by name. While `started`, the key expression, config,
    /// session group, handler and queue depth cannot change. The receive
    /// timeout is clamped to 10..=5000 ms; an unknown handler nick keeps the
    /// current handler.
    pub fn set_property(&mut self, started: bool, name: &str, value: PropValue) -> (o: SetOutcome)
        requires
            src_value_fits(name@, value),
        ensures
            (final(self)@, o) == src_set_property(old(self)@, started, name@, value),
    {
        proof {
            lemma_src_names();
        }
        let locked = str_eq(name, "key-expr") || str_eq(name, "config") || str_eq(
            name,
            "session-group",
        ) || str_eq(name, "handler") || str_eq(name, "queue-depth");
        if started && locked {
            return SetOutcome::Locked;
        }
        if str_eq(name, "key-expr") {
            if let PropValue::Str(s) = value {
                self.key_expr = s;
            }
            SetOutcome::Applied
        } else if str_eq(name, "config") {
            if let PropValue::OptStr(s) = value {
                self.config_file = s;
            }
            SetOutcome::Applied
        } else if str_eq(name, "receive-timeout-ms") {
            if let PropValue::U64(t) = value {
                let k = if t < 10 {
                    10
                } else if t > 5000 {
                    5000
                } else {
                    t
                };
                self.receive_timeout_ms = k;
                if k == t {
                    SetOutcome::Applied
                } else {
                    SetOutcome::Clamped
                }
            } else {
                SetOutcome::Applied
            }
        } else if str_eq(name, "apply-buffer-meta") {
            if let PropValue::Bool(b) = value {
                self.apply_buffer_meta = b;
            }
            SetOutcome::Applied
        } else if str_eq(name, "handler") {
            if let PropValue::Str(s) = value {
                match HandlerMode::from_nick(s.as_str()) {
                    Some(h) => {
                        self.handler = h;
                        SetOutcome::Applied
                    },
                    None => SetOutcome::Kept,
                }
            } else {
                SetOutcome::Kept
            }
        } else if str_eq(name, "queue-depth") {
            if let PropValue::U32(d) = value {
                self.queue_depth = d;
            }
            SetOutcome::Applied
        } else if str_eq(name, "session-group") {
            if let PropValue::OptStr(s) = value {
                self.session_group = s;
            }
            SetOutcome::Applied
        } else {
            SetOutcome::Unknown
        }
    }

    /// Read a property by name. Statistics read as 0 unless the source is
    /// started (`stats` is `Some`); an unknown name reads as an empty string.
    pub fn property(&self, name: &str, stats: Option<SrcStats>) -> (v: PropValue)
        ensures
            name@ == "key-expr"@ ==> (v matches PropValue::Str(s) && s@ == self.key_expr@),
            name@ == "config"@ ==> (v matches PropValue::OptStr(o) && opt_string_view(o)
                == opt_string_view(self.config_file)),
            name@ == "receive-timeout-ms"@ ==> v == PropValue::U64(self.receive_timeout_ms),
            name@ == "apply-buffer-meta"@ ==> v == PropValue::Bool(self.apply_buffer_meta),
            name@ == "handler"@ ==> (v matches PropValue::Str(s) && s@ == nick_of_handler(
                self.handler,
            )),
            name@ == "queue-depth"@ ==> v == PropValue::U32(self.queue_depth),
            name@ == "session-group"@ ==> (v matches PropValue::OptStr(o) && opt_string_view(o)
                == opt_string_view(self.session_group)),
            name@ == "bytes-received"@ ==> v == PropValue::U64(
                match stats {
                    Some(s) => s.bytes_received,
                    None => 0,
                },
            ),
            name@ == "messages-received"@ ==> v == PropValue::U64(
                match stats {
                    Some(s) => s.messages_received,
                    None => 0,
                },
            ),
            name@ == "errors"@ ==> v == PropValue::U64(
                match stats {
                    Some(s) => s.errors,
                    None => 0,
                },
            ),
            name@ == "dropped"@ ==> v == PropValue::U64(
                match stats {
                    Some(s) => s.dropped,
                    None => 0,
                },
            ),
            !(name@ == "key-expr"@ || name@ == "config"@ || name@ == "receive-timeout-ms"@
                || name@ == "apply-buffer-meta"@ || name@ == "handler"@ || name@ == "queue-depth"@
                || name@ == "session-group"@ || name@ == "bytes-received"@ || name@
                == "messages-received"@ || name@ == "errors"@ || name@ == "dropped"@) ==> (v matches PropValue::Str(
                s,
            ) && s@.len() == 0),
            src_prop_read(self@, name@) is Some ==> src_prop_read(self@, name@) == Some(
                prop_view(v),
            ),
    {
        proof {
            lemma_src_names();
        }
        if str_eq(name, "key-expr") {
            PropValue::Str(self.key_expr.clone())
        } else if str_eq(name, "config") {
            PropValue::OptStr(self.config_file.clone())
        } else if str_eq(name, "receive-timeout-ms") {
            PropValue::U64(self.receive_timeout_ms)
        } else if str_eq(name, "apply-buffer-meta") {
            PropValue::Bool(self.apply_buffer_meta)
        } else if str_eq(name, "handler") {
            PropValue::Str(String::from_str(self.handler.as_nick()))
        } else if str_eq(name, "queue-depth") {
            PropValue::U32(self.queue_depth)
        } else if str_eq(name, "session-group") {
            PropValue::OptStr(self.session_group.clone())
        } else if str_eq(name, "bytes-received") {
            PropValue::U64(
                match stats {
                    Some(s) => s.bytes_received,
                    None => 0,
                },
            )
        } else if str_eq(name, "messages-received") {
            PropValue::U64(
                match stats {
                    Some(s) => s.messages_received,
                    None => 0,
                },
            )
        } else if str_eq(name, "errors") {
            PropValue::U64(
                match stats {
                    Some(s) => s.errors,
                    None => 0,
                },
            )
        } else if str_eq(name, "dropped") {
            PropValue::U64(
                match stats {
                    Some(s) => s.dropped,
                    None => 0,
                },
            )
        } else {
            PropValue::Str(String::new())
        }
    }

    /// Build the URI: `zenoh:<key-expr>?param1=value1&param2=value2`, or none
    /// without a key expression.
    pub fn uri(&self) -> (r: Option<String>)
        ensures
            opt_string_view(r) == src_uri(self@),
    {
        let key = chars_of(self.key_expr.as_str());
        if key.len() == 0 {
            return None;
        }
        let ghost c = self@;
        let mut params: Vec<Vec<char>> = Vec::new();
        assert(views(params@) =~= Seq::<Seq<char>>::empty());
        if let Some(cfg) = &self.config_file {
            let e = encode_component(cfg.as_str());
            let ec = chars_of(e.as_str());
            let ghost before = views(params@);
            params.push(prefixed("config=", ec.as_slice()));
            assert(views(params@) =~= before.push("config="@ + pct_encode(encode_utf8(cfg@))));
        }
        if self.receive_timeout_ms != 100 {
            let d = decimal_u64(self.receive_timeout_ms);
            let ghost before = views(params@);
            params.push(prefixed("receive-timeout-ms=", d.as_slice()));
            assert(views(params@) =~= before.push(
                "receive-timeout-ms="@ + decimal(self.receive_timeout_ms as nat),
            ));
        }
        if !self.apply_buffer_meta {
            let ghost before = views(params@);
            params.push(chars_of("apply-buffer-meta=false"));
            assert(views(params@) =~= before.push("apply-buffer-meta=false"@));
        }
        if self.handler != HandlerMode::Fifo {
            let n = chars_of(self.handler.as_nick());
            let ghost before = views(params@);
            params.push(prefixed("handler=", n.as_slice()));
            assert(views(params@) =~= before.push("handler="@ + nick_of_handler(self.handler)));
        }
        if self.queue_depth != 30 {
            let d = decimal_u64(self.queue_depth as u64);
            let ghost before = views(params@);
            params.push(prefixed("queue-depth=", d.as_slice()));
            assert(views(params@) =~= before.push(
                "queue-depth="@ + decimal(self.queue_depth as nat),
            ));
        }
        assert(views(params@) == src_uri_params(c));
        let mut out = prefixed("zenoh:", key.as_slice());
        if params.len() > 0 {
            out.push('?');
            let j = join_chars(&params, '&');
            append_chars(&mut out, j.as_slice());
            proof {
                reveal_strlit("?");
                reveal_strlit("&");
                assert("&"@ =~= seq!['&']);
                assert(out@ =~= "zenoh:"@ + c.key_expr + ("?"@ + join(src_uri_params(c), "&"@)));
            }
        } else {
            assert(out@ =~= "zenoh:"@ + c.key_expr + Seq::<char>::empty());
        }
        Some(string_of(out.as_slice()))
    }

    /// Apply one URI parameter: its value is percent-decoded, then stored
    /// under the setting it names; unknown names change nothing.
    fn apply_uri_param(&mut self, key: &str, raw: &str) -> (r: Result<(), UriError>)
        ensures
            match src_uri_param(old(self)@, key@, raw@) {
                Ok(c) => r is Ok && final(self)@ == c,
                Err(x) => r matches Err(e) && e.view() == x && final(self)@ == old(self)@,
            },
    {
        proof {
            lemma_src_uri_keys();
        }
        let value = match decode_component(raw) {
            Ok(v) => v,
            Err(e) => {
                return Err(uri_error(
                        UriErrorKind::BadUri,
                        prefixed_str("Failed to decode parameter value: ", e.as_str()),
                    ));
            },
        };
        let vc = chars_of(value.as_str());
        if str_eq(key, "config") {
            self.config_file = Some(value);
        } else if str_eq(key, "receive-timeout-ms") {
            match parse_u64_chars(vc.as_slice()) {
                Some(t) => {
                    self.receive_timeout_ms = if t < 10 {
                        10
                    } else if t > 5000 {
                        5000
                    } else {
                        t
                    };
                },
                None => {
                    return Err(uri_error(
                            UriErrorKind::BadUri,
                            prefixed_str("Invalid receive-timeout-ms value: ", value.as_str()),
                        ));
                },
            }
        } else if str_eq(key, "apply-buffer-meta") {
            let v = value.as_str();
            if str_eq(v, "true") || str_eq(v, "1") || str_eq(v, "yes") {
                self.apply_buffer_meta = true;
            } else if str_eq(v, "false") || str_eq(v, "0") || str_eq(v, "no") {
                self.apply_buffer_meta = false;
            } else {
                return Err(uri_error(
                        UriErrorKind::BadUri,
                        prefixed_str("Invalid apply-buffer-meta value: ", v),
                    ));
            }
        } else if str_eq(key, "handler") {
            match HandlerMode::from_nick(value.as_str()) {
                Some(h) => {
                    self.handler = h;
                },
                None => {
                    let mut m = prefixed_str("Invalid handler value: ", value.as_str());
                    m.append(" (expected 'fifo' or 'ring')");
                    return Err(uri_error(UriErrorKind::BadUri, m));
                },
            }
        } else if str_eq(key, "queue-depth") {
            match parse_u32_chars(vc.as_slice()) {
                Some(d) => {
                    self.queue_depth = if d < 1 {
                        1
                    } else if d > 100000 {
                        100000
                    } else {
                        d
                    };
                },
                None => {
                    return Err(uri_error(
                            UriErrorKind::BadUri,
                            prefixed_str("Invalid queue-depth value: ", value.as_str()),
                        ));
                },
            }
        }
        Ok(())
    }

    /// Set the settings from a URI (`zenoh:key-expr?param1=value1&...`). The
    /// key expression and parameter values are percent-decoded; unknown
    /// parameters are ignored. A refused parameter stops the parameters that
    /// follow it, keeping those before it.
    pub fn set_uri(&mut self, started: bool, uri: &str) -> (r: Result<(), UriError>)
        ensures
            ({
                let (c, e) = src_set_uri(old(self)@, started, uri@);
                &&& final(self)@ == c
                &&& match r {
                    Ok(()) => e is None,
                    Err(x) => e == Some(x.view()),
                }
            }),
    {
        proof {
            lemma_src_uri_keys();
        }
        let (k, q) = match parse_uri(uri) {
            Ok(t) => t,
            Err(e) => return Err(e),
        };
        if started {
            return Err(
                uri_error(
                    UriErrorKind::BadState,
                    String::from_str("Cannot change URI while element is started"),
                ),
            );
        }
        self.key_expr = k;
        let query = match q {
            Some(q) => q,
            None => return Ok(()),
        };
        let params = parse_query(query.as_str());
        let ghost ps = string_pairs_view(params@);
        let ghost c1 = self@;
        assert(src_set_uri(old(self)@, started, uri@) == src_uri_params_apply(c1, ps));
        let mut i: usize = 0;
        while i < params.len()
            invariant
                i <= params.len(),
                ps == string_pairs_view(params@),
                src_set_uri(old(self)@, started, uri@) == src_uri_params_apply(c1, ps),
                src_uri_params_apply(c1, ps.take(i as int)) == (self@, None::<
                    (UriErrorKind, Seq<char>),
                >),
            decreases params.len() - i,
        {
            let (key, raw) = &params[i];
            assert(ps[i as int] == (key@, raw@));
            assert(ps.take(i as int + 1).drop_last() =~= ps.take(i as int));
            assert(ps.take(i as int + 1).last() == (key@, raw@));
            match self.apply_uri_param(key.as_str(), raw.as_str()) {
                Ok(()) => {},
                Err(err) => {
                    proof {
                        assert(src_uri_params_apply(c1, ps.take(i as int + 1)) == (
                            self@,
                            Some(err.view()),
                        ));
                        lemma_src_params_stop(c1, ps, i as int + 1);
                        assert(src_uri_params_apply(c1, ps) == (self@, Some(err.view())));
                    }
                    return Err(err);
                },
            }
            i = i + 1;
        }
        assert(ps.take(params.len() as int) =~= ps);
        Ok(())
    }
}

impl Default for SrcSettings {
    fn default() -> (s: SrcSettings)
        ensures
            s@ == src_defaults(),
    {
        SrcSettings {
            key_expr: String::new(),
            config_file: None,
            receive_timeout_ms: DEFAULT_RECEIVE_TIMEOUT_MS,
            apply_buffer_meta: true,
            handler: HandlerMode::Fifo,
            queue_depth: DEFAULT_QUEUE_DEPTH,
            session_group: None,
        }
    }
}

/// The source's operational state.
#[derive(Debug, Clone, Copy, PartialEq, Eq, Structural)]
pub enum SrcPhase {
    Stopped,
    /// Intermediate state during startup
    Starting,
    Started,
    /// Intermediate state during shutdown
    Stopping,
}

/// The name of a state, as messages give it.
pub open spec fn phase_name(p: SrcPhase) -> Seq<char> {
    match p {
        SrcPhase::Stopped => "Stopped"@,
        SrcPhase::Starting => "Starting"@,
        SrcPhase::Started => "Started"@,
        SrcPhase::Stopping => "Stopping"@,
    }
}

/// What a start request does.
#[derive(Debug, Clone)]
pub enum StartCheck {
    /// Start: the state is now `Starting`.
    Proceed,
    /// Already started: nothing to do, and no error.
    AlreadyStarted,
    /// Refused in the current state.
    Refused(ErrorMessage),
}

impl SrcPhase {
    fn name(self) -> (s: &'static str)
        ensures
            s@ == phase_name(self),
    {
        match self {
            SrcPhase::Stopped => "Stopped",
            SrcPhase::Starting => "Starting",
            SrcPhase::Started => "Started",
            SrcPhase::Stopping => "Stopping",
        }
    }

    /// Whether the source is started.
    pub fn is_started(&self) -> (r: bool)
        ensures
            r == (*self == SrcPhase::Started),
    {
        *self == SrcPhase::Started
    }

    /// A start request: only a stopped source starts (it becomes `Starting`);
    /// a started one reports success; any other state refuses.
    pub fn begin_start(&mut self) -> (r: StartCheck)
        ensures
            *old(self) == SrcPhase::Stopped ==> r is Proceed && *final(self) == SrcPhase::Starting,
            *old(self) == SrcPhase::Started ==> r is AlreadyStarted && *final(self) == *old(self),
            (*old(self) == SrcPhase::Starting || *old(self) == SrcPhase::Stopping) ==> (r matches StartCheck::Refused(m)
                && m.domain == ErrorDomain::Resource(ResourceErrorKind::Settings) && m.text@
                == "Cannot start from current state: "@ + phase_name(*old(self)) && *final(self)
                == *old(self)),
    {
        match *self {
            SrcPhase::Stopped => {
                *self = SrcPhase::Starting;
                StartCheck::Proceed
            },
            SrcPhase::Started => StartCheck::AlreadyStarted,
            p => {
                let mut t = String::from_str("Cannot start from current state: ");
                t.append(p.name());
                StartCheck::Refused(
                    ErrorMessage { domain: ErrorDomain::Resource(ResourceErrorKind::Settings), text: t },
                )
            },
        }
    }

    /// Complete a start once the subscriber exists: only a source still
    /// `Starting` becomes `Started`; a stop meanwhile makes the start fail.
    pub fn finish_start(&mut self) -> (r: Result<(), ErrorMessage>)
        ensures
            *old(self) == SrcPhase::Starting ==> r is Ok && *final(self) == SrcPhase::Started,
            *old(self) != SrcPhase::Starting ==> (r matches Err(m) && m.domain
                == ErrorDomain::Resource(ResourceErrorKind::Settings) && m.text@
                == "State changed during startup"@ && *final(self) == *old(self)),
    {
        if *self == SrcPhase::Starting {
            *self = SrcPhase::Started;
            Ok(())
        } else {
            Err(
                error_message(
                    ErrorDomain::Resource(ResourceErrorKind::Settings),
                    "State changed during startup",
                ),
            )
        }
    }

    /// A stop request: from any state the source ends `Stopped`; the result
    /// says whether it was started, so its resources are to be released.
    pub fn stop(&mut self) -> (was_started: bool)
        ensures
            was_started == (*old(self) == SrcPhase::Started),
            *final(self) == SrcPhase::Stopped,
    {
        let was = *self == SrcPhase::Started;
        *self = SrcPhase::Stopped;
        was
    }
}

/// What a start needs, read from the settings.
#[derive(Debug, Clone)]
pub struct SrcStartPlan {
    pub key_expr: String,
    pub session: SessionSource,
    pub handler: HandlerMode,
    /// The ring capacity: the queue depth, at least 1.
    pub queue_depth: usize,
}

/// Read what a start needs from the settings: the key expression (which is
/// required), where the session comes from, the handler and the ring depth.
pub fn plan_start(settings: &SrcSettings, has_external: bool) -> (r: Result<SrcStartPlan, ErrorMessage>)
    ensures
        settings@.key_expr.len() == 0 ==> (r matches Err(m) && m.domain == ErrorDomain::Resource(
            ResourceErrorKind::Settings,
        ) && m.text@ == "Key expression is required"@),
        settings@.key_expr.len() > 0 ==> (r matches Ok(p) && p.key_expr@ == settings@.key_expr
            && session_source_view(p.session) == session_source_of(
            has_external,
            settings@.session_group,
            settings@.config_file,
        ) && p.handler == settings@.handler && p.queue_depth == if settings@.queue_depth >= 1 {
            settings@.queue_depth as usize
        } else {
            1
        }),
{
    let k = chars_of(settings.key_expr.as_str());
    if k.len() == 0 {
        return Err(
            error_message(
                ErrorDomain::Resource(ResourceErrorKind::Settings),
                "Key expression is required",
            ),
        );
    }
    let depth = if settings.queue_depth >= 1 {
        settings.queue_depth
    } else {
        1
    };
    Ok(
        SrcStartPlan {
            key_expr: settings.key_expr.clone(),
            session: session_source(has_external, &settings.session_group, &settings.config_file),
            handler: settings.handler,
            queue_depth: depth as usize,
        },
    )
}

/// What one receive attempt gave.
#[derive(Debug, Clone, Copy, PartialEq, Eq, Structural)]
pub enum Received {
    /// A sample arrived.
    Sample,
    /// The timeout passed with no sample.
    Timeout,
    /// The subscriber is gone.
    Disconnected,
}

/// What the receive loop does next.
#[derive(Debug, Clone, Copy, PartialEq, Eq, Structural)]
pub enum ReceiveStep {
    /// Turn the sample into a buffer.
    Deliver,
    /// Check for flushing and receive again.
    Poll,
    /// Stop with a flushing flow return.
    Flushing,
    /// Count an error and stop with a fatal flow return.
    Fail,
}

/// The receive loop's decision after one attempt: a sample is delivered, a
/// timeout polls again, and a disconnect fails unless the source is flushing.
pub fn receive_step(received: Received, flushing: bool) -> (s: ReceiveStep)
    ensures
        s == match received {
            Received::Sample => ReceiveStep::Deliver,
            Received::Timeout => ReceiveStep::Poll,
            Received::Disconnected => if flushing {
                ReceiveStep::Flushing
            } else {
                ReceiveStep::Fail
            },
        },
{
    match received {
        Received::Sample => ReceiveStep::Deliver,
        Received::Timeout => ReceiveStep::Poll,
        Received::Disconnected => if flushing {
            ReceiveStep::Flushing
        } else {
            ReceiveStep::Fail
        },
    }
}

/// The element error for a disconnected subscriber.
pub fn disconnected_error(reason: &str) -> (m: ErrorMessage)
    ensures
        m.domain == ErrorDomain::Resource(ResourceErrorKind::Read),
        m.text@ == "Subscriber disconnected: "@ + reason@,
{
    ErrorMessage {
        domain: ErrorDomain::Resource(ResourceErrorKind::Read),
        text: prefixed_str("Subscriber disconnected: ", reason),
    }
}

impl SrcStats {
    /// All counters at zero.
    pub fn new() -> (s: SrcStats)
        ensures
            s == (SrcStats { bytes_received: 0, messages_received: 0, errors: 0, dropped: 0 }),
    {
        SrcStats { bytes_received: 0, messages_received: 0, errors: 0, dropped: 0 }
    }

    /// Count a delivered buffer of `len` bytes (counters saturate).
    pub fn record_buffer(&mut self, len: usize)
        ensures
            final(self).bytes_received == clamp(
                old(self).bytes_received + len,
                0,
                u64::MAX as int,
            ),
            final(self).messages_received == clamp(
                old(self).messages_received + 1,
                0,
                u64::MAX as int,
            ),
            final(self).errors == old(self).errors,
            final(self).dropped == old(self).dropped,
    {
        self.bytes_received = self.bytes_received.saturating_add(len as u64);
        self.messages_received = self.messages_received.saturating_add(1);
    }

    /// Count an error (the counter saturates).
    pub fn record_error(&mut self)
        ensures
            final(self).errors == clamp(old(self).errors + 1, 0, u64::MAX as int),
            final(self).bytes_received == old(self).bytes_received,
            final(self).messages_received == old(self).messages_received,
            final(self).dropped == old(self).dropped,
    {
        self.errors = self.errors.saturating_add(1);
    }
}

/// A buffer made from a received sample.
pub struct SrcBuffer {
    /// The payload, decompressed.
    pub data: Vec<u8>,
    /// The caps the metadata names, to be set on the source pad.
    pub caps: Option<String>,
    /// The buffer's timing.
    pub timing: BufferTiming,
    /// Why the attachment did not parse, if it did not.
    pub metadata_warning: Option<String>,
}

/// The timing a source gives a buffer: the metadata's timing when it is
/// applied and carries any, then the sample's timestamp as the presentation
/// time when none is set yet and the timestamp lies after the Unix epoch.
pub open spec fn src_timing(
    meta: Option<MetadataFields>,
    apply_buffer_meta: bool,
    timestamp: Option<u64>,
) -> BufferTiming {
    let t0 = fresh_timing();
    let t1 = match meta {
        Some(m) => if apply_buffer_meta && has_timing(m) {
            timing_from(t0, m)
        } else {
            t0
        },
        None => t0,
    };
    match timestamp {
        Some(ts) => if t1.pts is None && ntp_unix_nanos(ts) is Some {
            BufferTiming { pts: ntp_unix_nanos(ts), ..t1 }
        } else {
            t1
        },
        None => t1,
    }
}

/// A source that applies buffer metadata gives its buffer every timing field
/// the metadata carries (timestamps, offsets and flags); the sample's
/// timestamp only fills a presentation time the metadata left unset. Without
/// metadata, or when it is not applied, no flag is set and no decoding time.
pub proof fn lemma_src_timing_carries_metadata(apply_buffer_meta: bool, timestamp: Option<u64>)
    ensures
        forall|m: MetadataFields|
            apply_buffer_meta ==> carries_timing(m, #[trigger] src_timing(
                Some(m),
                apply_buffer_meta,
                timestamp,
            )),
        forall|meta: Option<MetadataFields>|
            meta is None || !apply_buffer_meta ==> (#[trigger] src_timing(
                meta,
                apply_buffer_meta,
                timestamp,
            )).flags == crate::metadata::BufferFlags::none_set() && src_timing(
                meta,
                apply_buffer_meta,
                timestamp,
            ).dts is None,
{
}

/// Turn a received sample into a buffer: the attachment, if any, is read as
/// metadata (one that does not parse is reported and ignored), the payload is
/// decompressed as the metadata says, and the timing is set as `src_timing`
/// says. A payload that does not decompress is a decode error.
pub fn process_sample(
    attachment: Option<&[u8]>,
    payload: &[u8],
    apply_buffer_meta: bool,
    timestamp: Option<u64>,
) -> (r: Result<SrcBuffer, ErrorMessage>)
    ensures
        match decode_spec(
            match attachment {
                Some(a) => Some(a@),
                None => None,
            },
            payload@,
        ) {
            Err(f) => r matches Err(m) && m.domain == ErrorDomain::StreamDecode && m.text@
                == "Decompression failed: "@ + fault_message(f),
            Ok((d, meta)) => r matches Ok(b) && b.data@ == d && b.timing == src_timing(
                meta,
                apply_buffer_meta,
                timestamp,
            ) && opt_string_view(b.caps) == match meta {
                Some(m) => m.caps,
                None => None,
            } && (b.metadata_warning is Some <==> (attachment is Some && meta is None)) && (
            b.metadata_warning matches Some(w) ==> parse_attachment(attachment->Some_0@) == Err::<
                MetadataFields,
                Seq<char>,
            >(w@)) && (apply_buffer_meta && meta is Some ==> carries_timing(
                meta->Some_0,
                b.timing,
            )) && (meta is None || !apply_buffer_meta ==> b.timing.flags
                == crate::metadata::BufferFlags::none_set() && b.timing.dts is None),
        },
{
    proof {
        lemma_src_timing_carries_metadata(apply_buffer_meta, timestamp);
    }
    let decoded = match decode_sample(attachment, payload) {
        Ok(d) => d,
        Err(e) => {
            let mut t = String::from_str("Decompression failed: ");
            let m = e.message();
            t.append(m.as_str());
            return Err(ErrorMessage { domain: ErrorDomain::StreamDecode, text: t });
        },
    };
    let mut timing = fresh_buffer_timing();
    let mut caps: Option<String> = None;
    if let Some(m) = &decoded.metadata {
        if let Some(c) = m.caps() {
            caps = Some(String::from_str(c));
        }
        if apply_buffer_meta && metadata_has_timing(m) {
            m.apply_to_buffer(&mut timing);
        }
    }
    if timing.pts.is_none() {
        if let Some(ts) = timestamp {
            if let Some(n) = ntp_to_unix_nanos(ts) {
                timing.pts = Some(n);
            }
        }
    }
    Ok(SrcBuffer { data: decoded.data, caps, timing, metadata_warning: decoded.metadata_error })
}

/// A decimal numeral holds only digits: no `%`, `&` or `=`.
pub proof fn lemma_decimal_plain(n: nat)
    ensures
        !decimal(n).contains('%'),
        !decimal(n).contains('&'),
        !decimal(n).contains('='),
{
    lemma_decimal_digits(n);
    let d = decimal(n);
    assert forall|i: int| 0 <= i < d.len() implies d[i] != '%' && d[i] != '&' && d[i] != '=' by {
        assert(is_digit(d[i]));
    }
}

/// Whether no piece holds `&`.
pub open spec fn amp_free(ps: Seq<Seq<char>>) -> bool {
    forall|i: int| 0 <= i < ps.len() ==> !(#[trigger] ps[i]).contains('&')
}

/// A `name=value` piece without `&` keeps the pieces `&`-free.
pub proof fn lemma_amp_free_push(ps: Seq<Seq<char>>, k: Seq<char>, v: Seq<char>)
    requires
        amp_free(ps),
        !k.contains('&'),
        !v.contains('&'),
    ensures
        amp_free(ps.push(k + seq!['='] + v)),
{
    let p = k + seq!['='] + v;
    assert(!p.contains('&')) by {
        if p.contains('&') {
            let j = choose|j: int| 0 <= j < p.len() && p[j] == '&';
            if j < k.len() {
                assert(k[j] == '&');
            } else if j > k.len() {
                assert(v[j - k.len() - 1] == '&');
            }
        }
    }
    assert forall|i: int| 0 <= i < ps.push(p).len() implies !(#[trigger] ps.push(p)[i]).contains(
        '&',
    ) by {
        if i < ps.len() {
            assert(ps.push(p)[i] == ps[i]);
        }
    }
}

/// One more accepted URI parameter, after accepted ones.
proof fn lemma_src_apply_push(
    c1: SrcConfig,
    ps: Seq<Seq<char>>,
    k: Seq<char>,
    v: Seq<char>,
    cur: SrcConfig,
    next: SrcConfig,
)
    requires
        src_uri_params_apply(c1, pairs_of(ps)) == (cur, None::<(UriErrorKind, Seq<char>)>),
        !k.contains('='),
        src_uri_param(cur, k, v) == Ok::<SrcConfig, (UriErrorKind, Seq<char>)>(next),
    ensures
        src_uri_params_apply(c1, pairs_of(ps.push(k + seq!['='] + v))) == (next, None::<
            (UriErrorKind, Seq<char>),
        >),
{
    lemma_pairs_push(ps, k, v);
    assert(pairs_of(ps).push((k, v)).drop_last() =~= pairs_of(ps));
}

/// The literal texts the URI of a source is made of.
proof fn lemma_src_uri_texts()
    ensures
        "config="@ =~= "config"@ + seq!['='],
        "receive-timeout-ms="@ =~= "receive-timeout-ms"@ + seq!['='],
        "apply-buffer-meta=false"@ =~= "apply-buffer-meta"@ + seq!['='] + "false"@,
        "handler="@ =~= "handler"@ + seq!['='],
        "queue-depth="@ =~= "queue-depth"@ + seq!['='],
        !"config"@.contains('='),
        !"receive-timeout-ms"@.contains('='),
        !"apply-buffer-meta"@.contains('='),
        !"handler"@.contains('='),
        !"queue-depth"@.contains('='),
        !"false"@.contains('%') && !"false"@.contains('&'),
        !"ring"@.contains('%') && !"ring"@.contains('&'),
        uri_bool("false"@) == Some(false),
        handler_of_nick("ring"@) == Some(HandlerMode::Ring),
        !"config"@.contains('&'),
        !"receive-timeout-ms"@.contains('&'),
        !"apply-buffer-meta"@.contains('&'),
        !"handler"@.contains('&'),
        !"queue-depth"@.contains('&'),
{
    reveal_strlit("config=");
    reveal_strlit("config");
    reveal_strlit("receive-timeout-ms=");
    reveal_strlit("receive-timeout-ms");
    reveal_strlit("apply-buffer-meta=false");
    reveal_strlit("apply-buffer-meta");
    reveal_strlit("false");
    reveal_strlit("handler=");
    reveal_strlit("handler");
    reveal_strlit("queue-depth=");
    reveal_strlit("queue-depth");
    reveal_strlit("ring");
    reveal_strlit("fifo");
    reveal_strlit("true");
    reveal_strlit("1");
    reveal_strlit("yes");
    assert("false"@.len() != "true"@.len());
    assert("false"@.len() != "1"@.len());
    assert("false"@.len() != "yes"@.len());
    assert("ring"@[0] != "fifo"@[0]);
}

/// A source configured from another's URI gets its settings: key expression,
/// config file, receive timeout, buffer-metadata choice, handler and queue
/// depth (the session group is not in the URI). This holds when the key
/// expression has no `?` or `%` (which would read back differently) and the
/// timeout and depth lie in the ranges a URI can set.
pub proof fn lemma_src_uri_roundtrip(c: SrcConfig)
    requires
        c.key_expr.len() > 0,
        !c.key_expr.contains('%'),
        !c.key_expr.contains('?'),
        10 <= c.receive_timeout_ms <= 5000,
        1 <= c.queue_depth <= 100000,
    ensures
        src_uri(c) is Some,
        src_set_uri(src_defaults(), false, src_uri(c)->Some_0) == (
            SrcConfig { session_group: None, ..c },
            None::<(UriErrorKind, Seq<char>)>,
        ),
{
    lemma_src_uri_keys();
    lemma_src_uri_texts();
    let c1 = SrcConfig { key_expr: c.key_expr, ..src_defaults() };
    let p0 = Seq::<Seq<char>>::empty();
    assert(pairs_of(p0) =~= Seq::<(Seq<char>, Seq<char>)>::empty());
    assert(src_uri_params_apply(c1, pairs_of(p0)) == (c1, None::<(UriErrorKind, Seq<char>)>));

    let x1 = SrcConfig { config_file: c.config_file, ..c1 };
    let p1 = match c.config_file {
        Some(f) => p0.push("config="@ + pct_encode(encode_utf8(f))),
        None => p0,
    };
    if let Some(f) = c.config_file {
        lemma_url_decoded_encoded(f);
        lemma_pct_encode_plain(encode_utf8(f));
        assert("config="@ + pct_encode(encode_utf8(f)) =~= "config"@ + seq!['='] + pct_encode(
            encode_utf8(f),
        ));
        lemma_src_apply_push(c1, p0, "config"@, pct_encode(encode_utf8(f)), c1, x1);
        lemma_amp_free_push(p0, "config"@, pct_encode(encode_utf8(f)));
    }
    assert(amp_free(p1));
    assert(src_uri_params_apply(c1, pairs_of(p1)) == (x1, None::<(UriErrorKind, Seq<char>)>));

    let x2 = SrcConfig { receive_timeout_ms: c.receive_timeout_ms, ..x1 };
    let t = c.receive_timeout_ms;
    let p2 = if t != 100 {
        p1.push("receive-timeout-ms="@ + decimal(t as nat))
    } else {
        p1
    };
    lemma_decimal_plain(t as nat);
    if t != 100 {
        lemma_url_decoded_plain(decimal(t as nat));
        lemma_parse_decimal(t);
        assert("receive-timeout-ms="@ + decimal(t as nat) =~= "receive-timeout-ms"@ + seq!['=']
            + decimal(t as nat));
        lemma_src_apply_push(c1, p1, "receive-timeout-ms"@, decimal(t as nat), x1, x2);
        lemma_amp_free_push(p1, "receive-timeout-ms"@, decimal(t as nat));
    }
    assert(amp_free(p2));
    assert(src_uri_params_apply(c1, pairs_of(p2)) == (x2, None::<(UriErrorKind, Seq<char>)>));

    let x3 = SrcConfig { apply_buffer_meta: c.apply_buffer_meta, ..x2 };
    let p3 = if !c.apply_buffer_meta {
        p2.push("apply-buffer-meta=false"@)
    } else {
        p2
    };
    if !c.apply_buffer_meta {
        lemma_url_decoded_plain("false"@);
        lemma_src_apply_push(c1, p2, "apply-buffer-meta"@, "false"@, x2, x3);
        lemma_amp_free_push(p2, "apply-buffer-meta"@, "false"@);
    }
    assert(amp_free(p3));
    assert(src_uri_params_apply(c1, pairs_of(p3)) == (x3, None::<(UriErrorKind, Seq<char>)>));

    let x4 = SrcConfig { handler: c.handler, ..x3 };
    let p4 = if c.handler != HandlerMode::Fifo {
        p3.push("handler="@ + nick_of_handler(c.handler))
    } else {
        p3
    };
    if c.handler != HandlerMode::Fifo {
        lemma_url_decoded_plain("ring"@);
        assert("handler="@ + "ring"@ =~= "handler"@ + seq!['='] + "ring"@);
        lemma_src_apply_push(c1, p3, "handler"@, "ring"@, x3, x4);
        lemma_amp_free_push(p3, "handler"@, "ring"@);
    }
    assert(amp_free(p4));
    assert(src_uri_params_apply(c1, pairs_of(p4)) == (x4, None::<(UriErrorKind, Seq<char>)>));

    let x5 = SrcConfig { queue_depth: c.queue_depth, ..x4 };
    let d = c.queue_depth;
    let p5 = if d != 30 {
        p4.push("queue-depth="@ + decimal(d as nat))
    } else {
        p4
    };
    lemma_decimal_plain(d as nat);
    if d != 30 {
        lemma_url_decoded_plain(decimal(d as nat));
        lemma_parse_decimal(d as u64);
        assert("queue-depth="@ + decimal(d as nat) =~= "queue-depth"@ + seq!['='] + decimal(
            d as nat,
        ));
        lemma_src_apply_push(c1, p4, "queue-depth"@, decimal(d as nat), x4, x5);
        lemma_amp_free_push(p4, "queue-depth"@, decimal(d as nat));
    }
    assert(amp_free(p5));
    assert(src_uri_params_apply(c1, pairs_of(p5)) == (x5, None::<(UriErrorKind, Seq<char>)>));
    assert(p5 == src_uri_params(c));
    assert(x5 == SrcConfig { session_group: None, ..c });

    reveal_strlit("zenoh:");
    if p5.len() > 0 {
        lemma_query_of_params(p5);
        lemma_uri_target_of(c.key_expr, Some(join(p5, "&"@)));
    } else {
        lemma_uri_target_of(c.key_expr, None);
    }
}

/// The handler nicks read back as the handlers they name.
pub proof fn lemma_handler_nick_roundtrip(h: HandlerMode)
    ensures
        handler_of_nick(nick_of_handler(h)) == Some(h),
{
    reveal_strlit("fifo");
    reveal_strlit("ring");
    assert("ring"@[0] != "fifo"@[0]);
}

/// Setting any property keeps a receive timeout that lies in 10..=5000 ms
/// within that range.
pub proof fn lemma_src_timeout_stays_in_range(
    c: SrcConfig,
    started: bool,
    name: Seq<char>,
    v: PropValue,
)
    requires
        10 <= c.receive_timeout_ms <= 5000,
        src_value_fits(name, v),
    ensures
        10 <= src_set_property(c, started, name, v).0.receive_timeout_ms <= 5000,
{
}

/// What a source builder holds, as character sequences.
pub struct SrcBuilderView {
    pub key_expr: Seq<char>,
    pub config: Option<Seq<char>>,
    pub receive_timeout_ms: Option<u64>,
    pub apply_buffer_meta: Option<bool>,
    pub handler: Option<Seq<char>>,
    pub queue_depth: Option<u32>,
    pub session_group: Option<Seq<char>>,
    /// The session to share, if one was given.
    pub session: Option<zenoh::Session>,
}

/// Builder for creating a source with custom configuration.
pub struct ZenohSrcBuilder {
    key_expr: String,
    config: Option<String>,
    receive_timeout_ms: Option<u64>,
    apply_buffer_meta: Option<bool>,
    handler: Option<String>,
    queue_depth: Option<u32>,
    session_group: Option<String>,
    session: Option<zenoh::Session>,
}

/// The properties a source builder sets, in order: the key expression, then
/// each option that was given.
pub open spec fn zenohsrcbuilder_props(b: SrcBuilderView) -> Seq<(Seq<char>, PropView)> {
    let p0 = seq![("key-expr"@, PropView::Str(b.key_expr))];
    let p1 = match b.config {
        Some(v) => p0.push(("config"@, PropView::OptStr(Some(v)))),
        None => p0,
    };
    let p2 = match b.receive_timeout_ms {
        Some(v) => p1.push(("receive-timeout-ms"@, PropView::U64(v))),
        None => p1,
    };
    let p3 = match b.apply_buffer_meta {
        Some(v) => p2.push(("apply-buffer-meta"@, PropView::Bool(v))),
        None => p2,
    };
    let p4 = match b.handler {
        Some(v) => p3.push(("handler"@, PropView::Str(v))),
        None => p3,
    };
    let p5 = match b.queue_depth {
        Some(v) => p4.push(("queue-depth"@, PropView::U32(v))),
        None => p4,
    };
    let p6 = match b.session_group {
        Some(v) => p5.push(("session-group"@, PropView::OptStr(Some(v)))),
        None => p5,
    };
    p6
}

impl ZenohSrcBuilder {
    /// What the builder holds.
    pub closed spec fn view(&self) -> SrcBuilderView {
        SrcBuilderView {
            key_expr: self.key_expr@,
            config: opt_string_view(self.config),
            receive_timeout_ms: self.receive_timeout_ms,
            apply_buffer_meta: self.apply_buffer_meta,
            handler: opt_string_view(self.handler),
            queue_depth: self.queue_depth,
            session_group: opt_string_view(self.session_group),
            session: self.session,
        }
    }

    /// Creates a new builder with the required key expression.
    pub fn new(key_expr: &str) -> (b: Self)
        ensures
            b@ == (SrcBuilderView { key_expr: key_expr@, config: None, receive_timeout_ms: None, apply_buffer_meta: None, handler: None, queue_depth: None, session_group: None, session: None }),
    {
        ZenohSrcBuilder { key_expr: String::from_str(key_expr), config: None, receive_timeout_ms: None, apply_buffer_meta: None, handler: None, queue_depth: None, session_group: None, session: None }
    }

    /// Sets the path to a Zenoh configuration file.
    pub fn config(self, v: &str) -> (b: Self)
        ensures
            b@ == (SrcBuilderView { config: Some(v@), ..self@ }),
    {
        ZenohSrcBuilder { config: Some(String::from_str(v)), ..self }
    }

    /// Sets the receive timeout in milliseconds.
    pub fn receive_timeout_ms(self, v: u64) -> (b: Self)
        ensures
            b@ == (SrcBuilderView { receive_timeout_ms: Some(v), ..self@ }),
    {
        ZenohSrcBuilder { receive_timeout_ms: Some(v), ..self }
    }

    /// Enables or disables applying buffer timing metadata.
    pub fn apply_buffer_meta(self, v: bool) -> (b: Self)
        ensures
            b@ == (SrcBuilderView { apply_buffer_meta: Some(v), ..self@ }),
    {
        ZenohSrcBuilder { apply_buffer_meta: Some(v), ..self }
    }

    /// Sets the receive-handler strategy: "fifo" (lossless) or "ring" (drop-oldest).
    pub fn handler(self, v: &str) -> (b: Self)
        ensures
            b@ == (SrcBuilderView { handler: Some(v@), ..self@ }),
    {
        ZenohSrcBuilder { handler: Some(String::from_str(v)), ..self }
    }

    /// Sets the ring-handler depth (max retained samples before drop-oldest).
    pub fn queue_depth(self, v: u32) -> (b: Self)
        ensures
            b@ == (SrcBuilderView { queue_depth: Some(v), ..self@ }),
    {
        ZenohSrcBuilder { queue_depth: Some(v), ..self }
    }

    /// Sets the session group name for sharing sessions across elements.
    pub fn session_group(self, v: &str) -> (b: Self)
        ensures
            b@ == (SrcBuilderView { session_group: Some(v@), ..self@ }),
    {
        ZenohSrcBuilder { session_group: Some(String::from_str(v)), ..self }
    }

    /// Sets a shared Zenoh session for the element.
    pub fn session(self, session: zenoh::Session) -> (b: Self)
        ensures
            b@ == (SrcBuilderView { session: Some(session), ..self@ }),
    {
        ZenohSrcBuilder { session: Some(session), ..self }
    }

    /// The properties to make the source with, and the session to share.
    pub fn build(self) -> (e: ElementProperties)
        ensures
            props_view(e.properties@) == zenohsrcbuilder_props(self@),
            e.session == self@.session,
    {
        let ghost v = self@;
        let mut props: Vec<(String, PropValue)> = Vec::new();
        push_prop(&mut props, "key-expr", PropValue::Str(self.key_expr));
        assert(props_view(props@) =~= seq![("key-expr"@, PropView::Str(v.key_expr))]);
        if let Some(x) = self.config {
            push_prop(&mut props, "config", PropValue::OptStr(Some(x)));
        }
        if let Some(x) = self.receive_timeout_ms {
            push_prop(&mut props, "receive-timeout-ms", PropValue::U64(x));
        }
        if let Some(x) = self.apply_buffer_meta {
            push_prop(&mut props, "apply-buffer-meta", PropValue::Bool(x));
        }
        if let Some(x) = self.handler {
            push_prop(&mut props, "handler", PropValue::Str(x));
        }
        if let Some(x) = self.queue_depth {
            push_prop(&mut props, "queue-depth", PropValue::U32(x));
        }
        if let Some(x) = self.session_group {
            push_prop(&mut props, "session-group", PropValue::OptStr(Some(x)));
        }
        ElementProperties { properties: props, session: self.session }
    }
}

} // verus!
