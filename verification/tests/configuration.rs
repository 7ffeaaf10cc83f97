use gstzenoh::element::{PropValue, SetOutcome};
use gstzenoh::zenohsink::SinkSettings;
use gstzenoh::zenohsrc::{SrcSettings, SrcStats};
use gstzenoh::zenohsink::SinkStats;

fn s(v: &str) -> PropValue {
    PropValue::Str(v.to_string())
}

fn sink_str(sink: &SinkSettings, name: &str) -> String {
    match sink.property(name, None, None, None) {
        PropValue::Str(v) => v,
        other => panic!("not a string: {:?}", other),
    }
}

fn sink_u32(sink: &SinkSettings, name: &str) -> u32 {
    match sink.property(name, None, None, None) {
        PropValue::U32(v) => v,
        other => panic!("not a u32: {:?}", other),
    }
}

fn sink_bool(sink: &SinkSettings, name: &str) -> bool {
    match sink.property(name, None, None, None) {
        PropValue::Bool(v) => v,
        other => panic!("not a bool: {:?}", other),
    }
}

fn src_u64(src: &SrcSettings, name: &str) -> u64 {
    match src.property(name, None) {
        PropValue::U64(v) => v,
        other => panic!("not a u64: {:?}", other),
    }
}

#[test]
fn test_zenoh_sink_reliability_configuration() {
    let mut sink = SinkSettings::default();

    sink.set_property(false, "key-expr", s("test/sink/best-effort"));
    sink.set_property(false, "reliability", s("best-effort"));
    assert_eq!(sink_str(&sink, "reliability"), "best-effort");

    sink.set_property(false, "reliability", s("reliable"));
    assert_eq!(sink_str(&sink, "reliability"), "reliable");

    sink.set_property(false, "reliability", s("invalid"));
    assert_eq!(sink_str(&sink, "reliability"), "reliable");
}

#[test]
fn test_zenoh_sink_congestion_control_configuration() {
    let mut sink = SinkSettings::default();

    sink.set_property(false, "key-expr", s("test/sink/congestion"));

    sink.set_property(false, "congestion-control", s("block"));
    assert_eq!(sink_str(&sink, "congestion-control"), "block");

    sink.set_property(false, "congestion-control", s("drop"));
    assert_eq!(sink_str(&sink, "congestion-control"), "drop");

    sink.set_property(false, "congestion-control", s("invalid"));
    assert_eq!(sink_str(&sink, "congestion-control"), "drop");
}

#[test]
fn test_zenoh_sink_express_mode() {
    let mut sink = SinkSettings::default();

    sink.set_property(false, "key-expr", s("test/sink/express"));

    assert!(!sink_bool(&sink, "express"));

    sink.set_property(false, "express", PropValue::Bool(true));
    assert!(sink_bool(&sink, "express"));
}

#[test]
fn test_zenoh_sink_priority_configuration() {
    let mut sink = SinkSettings::default();

    sink.set_property(false, "key-expr", s("test/sink/priority"));

    assert_eq!(sink_u32(&sink, "priority"), 5);

    sink.set_property(false, "priority", PropValue::U32(1));
    assert_eq!(sink_u32(&sink, "priority"), 1);

    sink.set_property(false, "priority", PropValue::U32(7));
    assert_eq!(sink_u32(&sink, "priority"), 7);

    sink.set_property(false, "priority", PropValue::U32(2));
    assert_eq!(sink_u32(&sink, "priority"), 2);

    sink.set_property(false, "priority", PropValue::U32(6));
    assert_eq!(sink_u32(&sink, "priority"), 6);
}

#[test]
fn test_zenoh_src_receive_timeout_configuration() {
    let mut src = SrcSettings::default();

    src.set_property(false, "key-expr", s("test/src/timeout"));

    assert_eq!(src_u64(&src, "receive-timeout-ms"), 100);

    src.set_property(false, "receive-timeout-ms", PropValue::U64(250));
    assert_eq!(src_u64(&src, "receive-timeout-ms"), 250);

    src.set_property(false, "receive-timeout-ms", PropValue::U64(5000));
    assert_eq!(src_u64(&src, "receive-timeout-ms"), 5000);
}

#[test]
fn test_shared_session_functionality() {
    let mut sink = SinkSettings::default();

    sink.set_property(false, "key-expr", s("test/sink/shared"));
    sink.set_property(false, "reliability", s("reliable"));
    sink.set_property(false, "express", PropValue::Bool(true));

    assert_eq!(sink_str(&sink, "reliability"), "reliable");
    assert!(sink_bool(&sink, "express"));
}

#[test]
fn test_property_validation_logging() {
    let mut sink = SinkSettings::default();

    assert_eq!(
        sink.set_property(false, "congestion-control", s("totally-invalid")),
        SetOutcome::Kept
    );
    assert_eq!(sink.set_property(false, "reliability", s("also-invalid")), SetOutcome::Kept);

    assert_eq!(sink_str(&sink, "congestion-control"), "block");
    assert_eq!(sink_str(&sink, "reliability"), "best-effort");
}

#[test]
fn test_zenohsink_statistics_initial_values() {
    let sink = SinkSettings::default();
    for name in ["bytes-sent", "messages-sent", "errors"] {
        assert!(matches!(sink.property(name, None, None, None), PropValue::U64(0)));
    }
    assert!(matches!(sink.property("has-subscribers", None, None, None), PropValue::Bool(false)));
}

#[test]
fn test_zenohsrc_statistics_initial_values() {
    let src = SrcSettings::default();
    for name in ["bytes-received", "messages-received", "errors", "dropped"] {
        assert!(matches!(src.property(name, None), PropValue::U64(0)));
    }
}

#[test]
fn statistics_read_from_started_element() {
    let src = SrcSettings::default();
    let stats = SrcStats { bytes_received: 7, messages_received: 2, errors: 1, dropped: 4 };
    assert!(matches!(src.property("dropped", Some(stats)), PropValue::U64(4)));
    let sink = SinkSettings::default();
    let mut st = SinkStats::new();
    st.record_published(10, 40, true);
    st.record_error();
    assert!(matches!(sink.property("bytes-sent", None, None, Some(st)), PropValue::U64(10)));
    assert!(matches!(
        sink.property("bytes-before-compression", None, None, Some(st)),
        PropValue::U64(40)
    ));
    assert!(matches!(sink.property("errors", None, None, Some(st)), PropValue::U64(1)));
    assert!(matches!(sink.property("connected", None, Some(true), None), PropValue::Bool(true)));
}

#[test]
fn test_property_changes_during_started_state() {
    let mut sink = SinkSettings::default();
    sink.set_property(false, "key-expr", s("a"));
    // The publisher exists: its settings are locked, the others are not.
    assert_eq!(sink.set_property(true, "key-expr", s("b")), SetOutcome::Locked);
    assert_eq!(sink.set_property(true, "priority", PropValue::U32(2)), SetOutcome::Locked);
    assert_eq!(sink.set_property(true, "send-caps", PropValue::Bool(false)), SetOutcome::Applied);
    assert_eq!(sink.key_expr, "a");
    assert_eq!(sink.priority, 5);
    assert!(!sink.send_caps);

    let mut src = SrcSettings::default();
    assert_eq!(src.set_property(true, "handler", s("ring")), SetOutcome::Locked);
    assert_eq!(
        src.set_property(true, "receive-timeout-ms", PropValue::U64(1)),
        SetOutcome::Clamped
    );
    assert_eq!(src.receive_timeout_ms, 10);
}

#[test]
fn out_of_range_levels_take_defaults() {
    let mut sink = SinkSettings::default();
    assert_eq!(sink.set_property(false, "priority", PropValue::U32(9)), SetOutcome::Defaulted);
    assert_eq!(sink.priority, 5);
    // The value is taken modulo 256 first, as a byte.
    assert_eq!(sink.set_property(false, "priority", PropValue::U32(258)), SetOutcome::Applied);
    assert_eq!(sink.priority, 2);
    assert_eq!(
        sink.set_property(false, "compression-level", PropValue::I32(0)),
        SetOutcome::Defaulted
    );
    assert_eq!(sink.compression_level, 5);
    assert_eq!(sink.set_property(false, "nonsense", PropValue::Bool(true)), SetOutcome::Unknown);
    let mut src = SrcSettings::default();
    assert_eq!(src.set_property(false, "handler", s("lifo")), SetOutcome::Kept);
    assert!(matches!(src.property("handler", None), PropValue::Str(ref h) if h == "fifo"));
    assert!(matches!(src.property("nonsense", None), PropValue::Str(ref h) if h.is_empty()));
}
