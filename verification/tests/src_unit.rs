use gstzenoh::zenohsrc::{
    disconnected_error, plan_start, process_sample, receive_step, CountingRing, HandlerMode,
    Received, ReceiveStep, SrcPhase, SrcSettings, SrcStats, StartCheck,
};
use gstzenoh::element::SessionSource;
use gstzenoh::error::{ErrorDomain, ResourceErrorKind};
use gstzenoh::receive::ntp_to_unix_nanos;

#[test]
fn handler_mode_nick_roundtrip() {
    assert_eq!(HandlerMode::from_nick("fifo"), Some(HandlerMode::Fifo));
    assert_eq!(HandlerMode::from_nick("ring"), Some(HandlerMode::Ring));
    assert_eq!(HandlerMode::from_nick("bogus"), None);
    assert_eq!(HandlerMode::Fifo.as_nick(), "fifo");
    assert_eq!(HandlerMode::Ring.as_nick(), "ring");
    // Default preserves prior (lossless) behavior.
    assert_eq!(HandlerMode::default(), HandlerMode::Fifo);
}

#[test]
fn counting_ring_drops_oldest_and_counts() {
    let mut ring = CountingRing::new(2);

    // Push five into a depth-2 ring: the three oldest are evicted and counted.
    for i in 0..5 {
        ring.push(i);
    }
    assert_eq!(ring.dropped(), 3);

    // Only the two most recent survive, in arrival order (drop-oldest).
    assert_eq!(ring.pop(), Some(3));
    assert_eq!(ring.pop(), Some(4));
    assert_eq!(ring.pop(), None);
}

#[test]
fn counting_ring_under_capacity_never_drops() {
    let mut ring = CountingRing::new(5);

    ring.push("a");
    ring.push("b");
    assert_eq!(ring.dropped(), 0);

    // FIFO order preserved when within capacity.
    assert_eq!(ring.pop(), Some("a"));
    assert_eq!(ring.pop(), Some("b"));
    assert_eq!(ring.pop(), None);
}

#[test]
fn counting_ring_of_no_room_counts_every_push() {
    let mut ring = CountingRing::new(0);
    ring.push(1);
    ring.push(2);
    assert_eq!(ring.dropped(), 2);
    assert_eq!(ring.len(), 1);
    assert_eq!(ring.pop(), Some(2));
}

#[test]
fn src_start_and_stop_phases() {
    let mut phase = SrcPhase::Stopped;
    assert!(matches!(phase.begin_start(), StartCheck::Proceed));
    assert_eq!(phase, SrcPhase::Starting);
    // A second start while starting is refused.
    match phase.begin_start() {
        StartCheck::Refused(m) => {
            assert_eq!(m.domain, ErrorDomain::Resource(ResourceErrorKind::Settings));
            assert_eq!(m.text, "Cannot start from current state: Starting");
        }
        _ => panic!("expected a refusal"),
    }
    assert!(phase.finish_start().is_ok());
    assert!(phase.is_started());
    assert!(matches!(phase.begin_start(), StartCheck::AlreadyStarted));
    assert!(phase.stop());
    assert_eq!(phase, SrcPhase::Stopped);
    // A stop during startup makes the start fail.
    let mut phase = SrcPhase::Stopped;
    let _ = phase.begin_start();
    assert!(!phase.stop());
    let e = phase.finish_start().unwrap_err();
    assert_eq!(e.text, "State changed during startup");
}

#[test]
fn src_start_requires_key_expr() {
    let settings = SrcSettings::default();
    let e = plan_start(&settings, false).unwrap_err();
    assert_eq!(e.text, "Key expression is required");
    let mut settings = SrcSettings::default();
    settings.key_expr = "demo/**".to_string();
    settings.queue_depth = 0;
    settings.handler = HandlerMode::Ring;
    settings.session_group = Some("main".to_string());
    let plan = plan_start(&settings, false).unwrap();
    assert_eq!(plan.queue_depth, 1);
    assert_eq!(plan.handler, HandlerMode::Ring);
    assert!(matches!(plan.session, SessionSource::Group { ref group, .. } if group == "main"));
    let plan = plan_start(&settings, true).unwrap();
    assert!(matches!(plan.session, SessionSource::External));
    settings.session_group = None;
    settings.config_file = Some(String::new());
    let plan = plan_start(&settings, false).unwrap();
    assert!(matches!(plan.session, SessionSource::Open { config_file: None }));
}

#[test]
fn receive_steps() {
    assert_eq!(receive_step(Received::Sample, true), ReceiveStep::Deliver);
    assert_eq!(receive_step(Received::Timeout, false), ReceiveStep::Poll);
    assert_eq!(receive_step(Received::Disconnected, true), ReceiveStep::Flushing);
    assert_eq!(receive_step(Received::Disconnected, false), ReceiveStep::Fail);
    let e = disconnected_error("gone");
    assert_eq!(e.text, "Subscriber disconnected: gone");
    assert_eq!(e.domain, ErrorDomain::Resource(ResourceErrorKind::Read));
}

#[test]
fn ntp_timestamps_to_unix_nanos() {
    // One and a half seconds after the Unix epoch.
    let t = ((2_208_988_800u64 + 1) << 32) | (1u64 << 31);
    assert_eq!(ntp_to_unix_nanos(t), Some(1_500_000_000));
    // Before 1970: no presentation time.
    assert_eq!(ntp_to_unix_nanos(5u64 << 32), None);
    // The fraction is rounded up to whole nanoseconds.
    let t = (2_208_988_800u64 << 32) | 1;
    assert_eq!(ntp_to_unix_nanos(t), Some(1));
}

#[test]
fn sample_timestamp_fills_missing_pts() {
    let t = ((2_208_988_800u64 + 2) << 32) | 0;
    let b = process_sample(None, b"abc", true, Some(t)).ok().unwrap();
    assert_eq!(b.data, b"abc");
    assert_eq!(b.timing.pts, Some(2_000_000_000));
    assert!(b.metadata_warning.is_none());
    // Metadata timing wins over the timestamp.
    let att = gstzenoh::metadata::MetadataBuilder::new().pts(Some(42)).caps("x/y").build().unwrap();
    let b = process_sample(Some(&att), b"abc", true, Some(t)).ok().unwrap();
    assert_eq!(b.timing.pts, Some(42));
    assert_eq!(b.caps.as_deref(), Some("x/y"));
    // Metadata not applied: the timestamp is used.
    let b = process_sample(Some(&att), b"abc", false, Some(t)).ok().unwrap();
    assert_eq!(b.timing.pts, Some(2_000_000_000));
    // An attachment that does not parse is reported and ignored.
    let b = process_sample(Some(b"no equals sign"), b"abc", true, None).ok().unwrap();
    assert!(b.metadata_warning.unwrap().contains("Invalid metadata line"));
    assert_eq!(b.timing.pts, None);
}

#[test]
fn undecodable_payload_is_a_decode_error() {
    let att = gstzenoh::metadata::MetadataBuilder::new().compression("zstd").build().unwrap();
    let e = process_sample(Some(&att), b"not framed", true, None).err().unwrap();
    assert_eq!(e.domain, ErrorDomain::StreamDecode);
    assert_eq!(
        e.text,
        "Decompression failed: Decompression failed: compressed payload is missing the expected frame header"
    );
}

#[test]
fn src_stats_count() {
    let mut s = SrcStats::new();
    s.record_buffer(10);
    s.record_buffer(5);
    s.record_error();
    assert_eq!((s.bytes_received, s.messages_received, s.errors, s.dropped), (15, 2, 1, 0));
}
