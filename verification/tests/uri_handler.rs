use gstzenoh::uri::{decode_component, encode_component, UriErrorKind};
use gstzenoh::zenohsink::SinkSettings;
use gstzenoh::zenohsrc::{HandlerMode, SrcSettings};
use gstzenoh::element::PropValue;

#[test]
fn test_zenohsink_simple_uri() {
    let mut sink = SinkSettings::default();

    // Set a simple URI
    sink.set_uri(false, "zenoh:demo/video/stream").unwrap();

    // Verify the key-expr was set
    assert_eq!(sink.key_expr, "demo/video/stream");

    // Get the URI back
    let uri = sink.uri().unwrap();
    assert_eq!(uri, "zenoh:demo/video/stream");
}

#[test]
fn test_zenohsrc_simple_uri() {
    let mut src = SrcSettings::default();

    // Set a simple URI
    src.set_uri(false, "zenoh:demo/video/stream").unwrap();

    // Verify the key-expr was set
    assert_eq!(src.key_expr, "demo/video/stream");

    // Get the URI back
    let uri = src.uri().unwrap();
    assert_eq!(uri, "zenoh:demo/video/stream");
}

#[test]
fn test_uri_with_parameters() {
    let mut sink = SinkSettings::default();

    // Set URI with parameters
    sink.set_uri(
        false,
        "zenoh:demo/video?priority=2&reliability=reliable&congestion-control=drop",
    )
    .unwrap();

    assert_eq!(sink.key_expr, "demo/video");
    assert_eq!(sink.priority, 2);
    assert_eq!(sink.reliability, "reliable");
    assert_eq!(sink.congestion_control, "drop");
}

#[test]
fn test_uri_with_express_mode() {
    let mut sink = SinkSettings::default();

    // Set URI with express mode enabled
    sink.set_uri(false, "zenoh:demo/video?express=true&priority=1").unwrap();

    assert_eq!(sink.key_expr, "demo/video");
    assert!(sink.express);
    assert_eq!(sink.priority, 1);
}

#[test]
fn test_uri_with_config_file() {
    let mut sink = SinkSettings::default();

    // Set URI with config file path
    sink.set_uri(false, "zenoh:demo/video?config=/path/to/config.json5").unwrap();

    assert_eq!(sink.key_expr, "demo/video");
    assert_eq!(sink.config_file, Some("/path/to/config.json5".to_string()));
}

#[test]
fn test_uri_url_encoding() {
    let mut sink = SinkSettings::default();

    // Set URI with URL-encoded characters (spaces, special chars)
    sink.set_uri(false, "zenoh:demo/video/stream%20with%20spaces").unwrap();

    assert_eq!(sink.key_expr, "demo/video/stream with spaces");
}

#[test]
fn test_uri_get_after_set_properties() {
    let mut sink = SinkSettings::default();

    // Set properties individually
    sink.set_property(false, "key-expr", PropValue::Str("demo/video".to_string()));
    sink.set_property(false, "priority", PropValue::U32(3));
    sink.set_property(false, "reliability", PropValue::Str("reliable".to_string()));
    sink.set_property(false, "express", PropValue::Bool(true));

    // Get URI - should reflect all non-default properties
    let uri = sink.uri().unwrap();

    assert!(uri.contains("demo/video"));
    assert!(uri.contains("priority=3"));
    assert!(uri.contains("reliability=reliable"));
    assert!(uri.contains("express=true"));
    assert_eq!(uri, "zenoh:demo/video?priority=3&reliability=reliable&express=true");
}

#[test]
fn test_invalid_uri_scheme() {
    let mut sink = SinkSettings::default();

    // Try to set invalid URI scheme
    let result = sink.set_uri(false, "http://example.com");

    assert!(result.is_err(), "Should reject invalid URI scheme");
    let e = result.err().unwrap();
    assert_eq!(e.kind, UriErrorKind::BadUri);
    assert_eq!(e.message, "Invalid URI scheme, expected 'zenoh:', got: http://example.com");
}

#[test]
fn test_empty_key_expression() {
    let mut sink = SinkSettings::default();

    // Try to set URI with empty key expression
    let result = sink.set_uri(false, "zenoh:");

    assert!(result.is_err(), "Should reject empty key expression");
    assert_eq!(result.err().unwrap().message, "Key expression cannot be empty");
}

#[test]
fn test_uri_cannot_change_while_playing() {
    let mut sink = SinkSettings::default();

    // Set initial URI
    sink.set_uri(false, "zenoh:demo/video").unwrap();

    // Try to change URI while the element is Ready (publisher created)
    let result = sink.set_uri(true, "zenoh:demo/audio");

    // Should fail because element is not in NULL/Stopped state
    assert!(
        result.is_err(),
        "Should not allow URI change while not in NULL state"
    );
    let e = result.err().unwrap();
    assert_eq!(e.kind, UriErrorKind::BadState);
    assert_eq!(sink.key_expr, "demo/video");
}

#[test]
fn test_invalid_priority_in_uri() {
    let mut sink = SinkSettings::default();

    // Try to set URI with invalid priority value
    let result = sink.set_uri(false, "zenoh:demo/video?priority=invalid");

    assert!(result.is_err(), "Should reject invalid priority value");
    assert_eq!(result.err().unwrap().message, "Invalid priority value: invalid");
}

#[test]
fn test_invalid_reliability_in_uri() {
    let mut sink = SinkSettings::default();

    // Try to set URI with invalid reliability value
    let result = sink.set_uri(false, "zenoh:demo/video?reliability=invalid");

    assert!(result.is_err(), "Should reject invalid reliability value");
}

#[test]
fn test_invalid_congestion_control_in_uri() {
    let mut sink = SinkSettings::default();

    // Try to set URI with invalid congestion-control value
    let result = sink.set_uri(false, "zenoh:demo/video?congestion-control=invalid");

    assert!(
        result.is_err(),
        "Should reject invalid congestion-control value"
    );
}

#[test]
fn test_uri_with_wildcards() {
    let mut src = SrcSettings::default();

    // Set URI with Zenoh wildcards
    src.set_uri(false, "zenoh:demo/*/video").unwrap();
    assert_eq!(src.key_expr, "demo/*/video");

    // Try multi-level wildcard
    src.set_uri(false, "zenoh:sensors/**").unwrap();
    assert_eq!(src.key_expr, "sensors/**");
}

#[test]
fn test_uri_unknown_parameters_warning() {
    let mut sink = SinkSettings::default();

    // Set URI with unknown parameter (ignored, not an error)
    let result = sink.set_uri(false, "zenoh:demo/video?unknown-param=value&priority=2");

    assert!(
        result.is_ok(),
        "Should accept URI with unknown parameters (with warning)"
    );

    // Known parameters should still be applied
    assert_eq!(sink.priority, 2);
}

#[test]
fn refused_parameter_keeps_earlier_ones() {
    let mut sink = SinkSettings::default();
    let r = sink.set_uri(false, "zenoh:k?priority=3&express=maybe&reliability=reliable");
    assert_eq!(r.err().unwrap().message, "Invalid express value: maybe");
    assert_eq!(sink.key_expr, "k");
    assert_eq!(sink.priority, 3);
    assert_eq!(sink.reliability, "best-effort");
}

#[test]
fn src_uri_parameters() {
    let mut src = SrcSettings::default();
    src.set_uri(
        false,
        "zenoh:a/b?receive-timeout-ms=1&apply-buffer-meta=no&handler=ring&queue-depth=200000&config=c%20d",
    )
    .unwrap();
    assert_eq!(src.receive_timeout_ms, 10);
    assert!(!src.apply_buffer_meta);
    assert_eq!(src.handler, HandlerMode::Ring);
    assert_eq!(src.queue_depth, 100000);
    assert_eq!(src.config_file.as_deref(), Some("c d"));
    assert_eq!(
        src.uri().unwrap(),
        "zenoh:a/b?config=c%20d&receive-timeout-ms=10&apply-buffer-meta=false&handler=ring&queue-depth=100000"
    );
    let e = src.set_uri(false, "zenoh:a?handler=lifo").err().unwrap();
    assert_eq!(e.message, "Invalid handler value: lifo (expected 'fifo' or 'ring')");
    let e = src.set_uri(true, "zenoh:a").err().unwrap();
    assert_eq!(e.message, "Cannot change URI while element is started");
    let e = src.set_uri(false, "zenoh:a?queue-depth=x").err().unwrap();
    assert_eq!(e.message, "Invalid queue-depth value: x");
    let e = src.set_uri(false, "zenoh:a?apply-buffer-meta=maybe").err().unwrap();
    assert_eq!(e.message, "Invalid apply-buffer-meta value: maybe");
    let e = src.set_uri(false, "zenoh:a?receive-timeout-ms=-1").err().unwrap();
    assert_eq!(e.message, "Invalid receive-timeout-ms value: -1");
}

#[test]
fn uri_round_trip_law_on_values() {
    // A source configured from another source's URI gets its settings.
    let mut a = SrcSettings::default();
    a.key_expr = "cam/front".to_string();
    a.config_file = Some("/etc/z é&=.json5".to_string());
    a.receive_timeout_ms = 250;
    a.apply_buffer_meta = false;
    a.handler = HandlerMode::Ring;
    a.queue_depth = 7;
    let mut b = SrcSettings::default();
    b.set_uri(false, &a.uri().unwrap()).unwrap();
    assert_eq!(b.key_expr, a.key_expr);
    assert_eq!(b.config_file, a.config_file);
    assert_eq!(b.receive_timeout_ms, a.receive_timeout_ms);
    assert_eq!(b.apply_buffer_meta, a.apply_buffer_meta);
    assert_eq!(b.handler, a.handler);
    assert_eq!(b.queue_depth, a.queue_depth);

    let mut s = SinkSettings::default();
    s.key_expr = "x/y".to_string();
    s.priority = 2;
    s.congestion_control = "drop".to_string();
    s.express = true;
    let mut t = SinkSettings::default();
    t.set_uri(false, &s.uri().unwrap()).unwrap();
    assert_eq!((t.priority, t.congestion_control.as_str(), t.express), (2, "drop", true));
}

#[test]
fn percent_encoding_is_exact() {
    assert_eq!(encode_component("a b/c~d"), "a%20b%2Fc~d");
    assert_eq!(encode_component("é"), "%C3%A9");
    assert_eq!(decode_component("a%20b%2fc").unwrap(), "a b/c");
    // A `%` without two hex digits stays as it is.
    assert_eq!(decode_component("100%").unwrap(), "100%");
    assert_eq!(decode_component("%zz%4").unwrap(), "%zz%4");
    assert_eq!(decode_component("%4g").unwrap(), "%4g");
    // Bytes that are not UTF-8 are refused.
    assert!(decode_component("%ff").is_err());
    let mut sink = SinkSettings::default();
    let e = sink.set_uri(false, "zenoh:%ff").err().unwrap();
    assert!(e.message.starts_with("Failed to decode key expression: "));
    let e = sink.set_uri(false, "zenoh:k?config=%c3").err().unwrap();
    assert!(e.message.starts_with("Failed to decode parameter value: "));
}

#[test]
fn uri_priority_outside_documented_range_is_refused() {
    let mut sink = SinkSettings::default();
    for raw in ["0", "8", "9"] {
        let uri = format!("zenoh:demo/video?priority={raw}");
        let e = sink.set_uri(false, &uri).err().unwrap();
        assert_eq!(e.kind, UriErrorKind::BadUri);
        assert_eq!(e.message, format!("Invalid priority value: {raw}"));
        assert_eq!(sink.priority, 5);
    }
    sink.set_uri(false, "zenoh:demo/video?priority=7").unwrap();
    assert_eq!(sink.priority, 7);
}
