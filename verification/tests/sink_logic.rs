use gstzenoh::compression::CompressionType;
use gstzenoh::element::{PropValue, SessionSource};
use gstzenoh::error::{ErrorDomain, FlowError, ResourceErrorKind};
use gstzenoh::metadata::{BufferFlags, BufferTiming, MetadataParser};
use gstzenoh::zenohsink::{
    encode_buffer, key_expr_outcome, outcome_to_flow, plan_resources, publisher_qos,
    validate_key_expr, CapsTracker, CongestionMode, ListItem, ListTally, PublishOutcome,
    ReliabilityMode, SinkPhase, SinkSettings, ZenohSinkBuilder,
};

fn timing() -> BufferTiming {
    BufferTiming {
        pts: Some(1000),
        dts: None,
        duration: Some(40),
        offset: u64::MAX,
        offset_end: u64::MAX,
        flags: BufferFlags::empty(),
    }
}

#[test]
fn test_sink_state_transitions() {
    let mut phase = SinkPhase::Stopped;
    // Not ready: start is refused.
    let e = phase.start().unwrap_err();
    assert_eq!(e.text, "Cannot start from current state: Stopped");
    phase.resources_created();
    assert!(phase.is_ready_or_started());
    assert!(phase.start().is_ok());
    assert!(phase.is_started());
    // Double start is fine.
    assert!(phase.start().is_ok());
    assert!(phase.stop());
    assert_eq!(phase, SinkPhase::Ready);
    assert!(!phase.stop());
    phase.teardown();
    assert_eq!(phase, SinkPhase::Stopped);
}

#[test]
fn test_zenohsink_start_without_key_expr() {
    let settings = SinkSettings::default();
    let e = plan_resources(&settings, false).unwrap_err();
    assert_eq!(e.text, "Key expression is required");
    assert_eq!(e.domain, ErrorDomain::Resource(ResourceErrorKind::Settings));
    let mut settings = SinkSettings::default();
    settings.key_expr = "a".to_string();
    settings.config_file = Some("/etc/z.json5".to_string());
    assert!(matches!(
        plan_resources(&settings, false).unwrap(),
        SessionSource::Open { config_file: Some(ref p) } if p == "/etc/z.json5"
    ));
}

#[test]
fn publisher_qos_from_settings() {
    let mut settings = SinkSettings::default();
    let q = publisher_qos(&settings);
    assert_eq!(q.priority, 5);
    assert_eq!(q.congestion, CongestionMode::Block);
    assert_eq!(q.reliability, ReliabilityMode::BestEffort);
    settings.priority = 1;
    settings.congestion_control = "drop".to_string();
    settings.reliability = "reliable".to_string();
    settings.express = true;
    let q = publisher_qos(&settings);
    assert_eq!(q.priority, 1);
    assert_eq!(q.congestion, CongestionMode::Drop);
    assert_eq!(q.reliability, ReliabilityMode::Reliable);
    assert!(q.express);
    settings.priority = 12;
    assert_eq!(publisher_qos(&settings).priority, 5);
    settings.priority = 0;
    assert_eq!(publisher_qos(&settings).priority, 5);
}

#[test]
fn key_expressions_checked_by_zenoh() {
    assert!(validate_key_expr("demo/video").is_ok());
    assert!(validate_key_expr("sensors/**").is_ok());
    let e = validate_key_expr("demo//video").unwrap_err();
    assert_eq!(e.domain, ErrorDomain::Resource(ResourceErrorKind::Settings));
    assert!(e.text.starts_with("Invalid Zenoh key expression 'demo//video': "));
    assert!(validate_key_expr("").is_err());
    let e = key_expr_outcome("k", Some("bad".to_string())).unwrap_err();
    assert_eq!(
        e.text,
        "Invalid Zenoh key expression 'k': bad. Key expressions must be valid Zenoh paths (e.g., 'demo/video' or 'sensors/**')."
    );
    assert!(key_expr_outcome("k", None).is_ok());
}

#[test]
fn caps_go_with_first_buffer_changes_and_interval() {
    let mut t = CapsTracker::new();
    assert_eq!(t.decide(Some("a/b"), true, 1, 0).as_deref(), Some("a/b"));
    assert_eq!(t.decide(Some("a/b"), true, 1, 999), None);
    assert_eq!(t.decide(Some("a/b"), true, 1, 1000).as_deref(), Some("a/b"));
    assert_eq!(t.decide(Some("c/d"), true, 1, 1001).as_deref(), Some("c/d"));
    assert_eq!(t.decide(None, true, 1, 5000), None);
    assert_eq!(t.decide(Some("c/d"), false, 1, 5000), None);
    // Interval 0: only the first buffer and changes.
    let mut t = CapsTracker::new();
    assert!(t.decide(Some("x"), true, 0, 0).is_some());
    assert!(t.decide(Some("x"), true, 0, 100_000).is_none());
}

#[test]
fn encoded_buffer_reads_back() {
    let data = b"payload payload payload payload".to_vec();
    let e = encode_buffer(&data, timing(), Some("video/x-raw"), true, CompressionType::Zstd, 3);
    assert!(e.compressed);
    assert!(e.compression_error.is_none());
    let att = e.attachment.unwrap();
    let p = MetadataParser::parse(&att).unwrap();
    assert_eq!(p.caps(), Some("video/x-raw"));
    assert_eq!(p.pts(), Some(1000));
    assert_eq!(p.duration(), Some(40));
    assert_eq!(p.compression(), Some("zstd"));
    assert_eq!(
        gstzenoh::compression::decompress(&e.payload, CompressionType::Zstd).unwrap(),
        data
    );
    // No caps, no metadata, no compression: no attachment at all.
    let e = encode_buffer(&data, timing(), None, false, CompressionType::Uncompressed, 5);
    assert!(e.attachment.is_none());
    assert_eq!(e.payload, data);
    // A failing compression sends the data as is and reports why.
    let e = encode_buffer(&data, timing(), None, false, CompressionType::Gzip, 0);
    assert!(!e.compressed);
    assert_eq!(e.payload, data);
    assert!(e.compression_error.is_some());
}

#[test]
fn publish_outcomes_to_flow() {
    let d = outcome_to_flow(&PublishOutcome::Sent, "k", 5000);
    assert!(d.result.is_ok() && !d.count_error && d.error.is_none());
    let d = outcome_to_flow(&PublishOutcome::Failed("boom".to_string()), "k", 5000);
    assert_eq!(d.result, Err(FlowError::Error));
    assert!(d.count_error);
    assert_eq!(d.error.unwrap().text, "Failed to publish to 'k': boom");
    let d = outcome_to_flow(&PublishOutcome::Flushing, "k", 5000);
    assert_eq!(d.result, Err(FlowError::Flushing));
    let d = outcome_to_flow(&PublishOutcome::TimedOut, "k", 250);
    assert_eq!(d.error.unwrap().text, "Publish timed out after 250 ms");
    let d = outcome_to_flow(&PublishOutcome::WorkerGone, "k", 250);
    let m = d.error.unwrap();
    assert_eq!(m.domain, ErrorDomain::CoreFailed);
    assert_eq!(m.text, "Publish worker thread is not available");
}

#[test]
fn test_render_list_resilience() {
    // Failures in a list do not stop it; one success makes it succeed.
    let mut t = ListTally::new();
    assert!(t.step(&ListItem::Published(PublishOutcome::Failed("x".into()))).stop.is_none());
    assert!(t.step(&ListItem::Published(PublishOutcome::TimedOut)).count_error);
    assert!(t.step(&ListItem::Published(PublishOutcome::Sent)).stop.is_none());
    assert_eq!((t.total_messages, t.errors_count), (1, 2));
    assert!(t.finish().0.is_ok());
    // All failed: a write error.
    let mut t = ListTally::new();
    t.step(&ListItem::Published(PublishOutcome::TimedOut));
    let (r, m) = t.finish();
    assert_eq!(r, Err(FlowError::Error));
    assert_eq!(m.unwrap().text, "Failed to send all buffers in list");
    // Flushing and a lost worker stop the list.
    let mut t = ListTally::new();
    assert_eq!(t.step(&ListItem::Published(PublishOutcome::Flushing)).stop, Some(FlowError::Flushing));
    assert_eq!(t.step(&ListItem::MapFailed).stop, Some(FlowError::Error));
}

#[test]
fn test_empty_buffer_list() {
    let t = ListTally::new();
    let (r, m) = t.finish();
    assert!(r.is_ok());
    assert!(m.is_none());
}

#[test]
fn test_session_group_builder_sink() {
    let e = ZenohSinkBuilder::new("demo/video")
        .reliability("reliable")
        .priority(2)
        .express(true)
        .send_caps(true)
        .session_group("main")
        .build();
    let names: Vec<&str> = e.properties.iter().map(|(n, _)| n.as_str()).collect();
    assert_eq!(
        names,
        vec!["key-expr", "priority", "reliability", "express", "send-caps", "session-group"]
    );
    assert!(matches!(e.properties[5].1, PropValue::OptStr(Some(ref g)) if g == "main"));
    assert!(e.session.is_none());
}
