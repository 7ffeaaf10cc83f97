use gstzenoh::metadata::{
    flags_to_string, string_to_flags, BufferFlags, BufferTiming, MetadataBuilder, MetadataParser,
    METADATA_VERSION,
};

/// Nanoseconds of `n` seconds.
const SECOND: u64 = 1_000_000_000;

fn no_timing() -> BufferTiming {
    BufferTiming {
        pts: None,
        dts: None,
        duration: None,
        offset: u64::MAX,
        offset_end: u64::MAX,
        flags: BufferFlags::empty(),
    }
}

#[test]
fn test_metadata_round_trip() {
    let caps = "video/x-raw, width=(int)1920, height=(int)1080, framerate=(fraction)30/1";

    let zbytes = MetadataBuilder::new()
        .caps(caps)
        .user_metadata("custom_key", "custom_value")
        .build()
        .expect("Failed to build metadata");

    let parser = MetadataParser::parse(&zbytes).expect("Failed to parse metadata");

    assert_eq!(parser.version(), Some(METADATA_VERSION));
    assert!(parser.caps().is_some());
    assert_eq!(parser.get_user_metadata("custom_key"), Some("custom_value"));

    let parsed_caps = parser.caps().unwrap();
    assert!(parsed_caps.starts_with("video/x-raw"));
    assert!(parsed_caps.contains("width=(int)1920"));
}

#[test]
fn test_metadata_builder_empty() {
    let zbytes = MetadataBuilder::new().build();
    // Empty builder should still create attachment with version
    assert!(zbytes.is_some());
}

#[test]
fn test_metadata_caps_only() {
    let caps = "audio/x-raw, rate=(int)48000, channels=(int)2";

    let zbytes = MetadataBuilder::new()
        .caps(caps)
        .build()
        .expect("Failed to build");

    let parser = MetadataParser::parse(&zbytes).expect("Failed to parse");
    assert!(parser.caps().is_some());
    assert_eq!(parser.user_metadata().len(), 0);
}

#[test]
fn test_metadata_user_only() {
    let zbytes = MetadataBuilder::new()
        .user_metadata("key1", "value1")
        .user_metadata("key2", "value2")
        .build()
        .expect("Failed to build");

    let parser = MetadataParser::parse(&zbytes).expect("Failed to parse");
    assert!(parser.caps().is_none());
    assert_eq!(parser.user_metadata().len(), 2);
    assert_eq!(parser.get_user_metadata("key1"), Some("value1"));
    assert_eq!(parser.get_user_metadata("key2"), Some("value2"));
}

#[test]
fn test_metadata_newline_escaping() {
    let value_with_newline = "line1\nline2\nline3";

    let zbytes = MetadataBuilder::new()
        .user_metadata("multiline", value_with_newline)
        .build()
        .expect("Failed to build");

    let parser = MetadataParser::parse(&zbytes).expect("Failed to parse");
    assert_eq!(
        parser.get_user_metadata("multiline"),
        Some(value_with_newline)
    );
}

#[test]
fn test_buffer_timing_round_trip() {
    let pts = SECOND; // 1 second
    let dts = 900_000_000; // 0.9 seconds
    let duration = 33_333_333; // ~30fps frame

    let mut flags = BufferFlags::empty();
    flags.delta_unit = true;
    flags.discont = true;

    let zbytes = MetadataBuilder::new()
        .pts(Some(pts))
        .dts(Some(dts))
        .duration(Some(duration))
        .flags(flags)
        .build()
        .expect("Failed to build");

    let parser = MetadataParser::parse(&zbytes).expect("Failed to parse");

    assert_eq!(parser.pts(), Some(pts));
    assert_eq!(parser.dts(), Some(dts));
    assert_eq!(parser.duration(), Some(duration));

    let flags = parser.flags().expect("Should have flags");
    assert!(flags.delta_unit);
    assert!(flags.discont);
    assert!(!flags.header);
}

#[test]
fn test_buffer_timing_from_buffer() {
    // A buffer with timing info
    let mut flags = BufferFlags::empty();
    flags.header = true;
    flags.marker = true;
    let buffer = BufferTiming {
        pts: Some(2 * SECOND),
        dts: Some(1_900_000_000),
        duration: Some(40_000_000),
        offset: 1024,
        offset_end: 2048,
        flags,
    };

    // Build metadata from buffer
    let zbytes = MetadataBuilder::new()
        .buffer_timing(buffer)
        .build()
        .expect("Failed to build");

    // Parse it back
    let parser = MetadataParser::parse(&zbytes).expect("Failed to parse");

    assert_eq!(parser.pts(), Some(2_000_000_000));
    assert_eq!(parser.dts(), Some(1_900_000_000));
    assert_eq!(parser.duration(), Some(40_000_000));
    assert_eq!(parser.offset(), Some(1024));
    assert_eq!(parser.offset_end(), Some(2048));

    let flags = parser.flags().expect("Should have flags");
    assert!(flags.header);
    assert!(flags.marker);
}

#[test]
fn test_apply_to_buffer() {
    let pts = 3 * SECOND;
    let dts = 2_900_000_000;
    let duration = 16_666_667; // ~60fps

    let mut flags = BufferFlags::empty();
    flags.live = true;
    flags.discont = true;

    let zbytes = MetadataBuilder::new()
        .pts(Some(pts))
        .dts(Some(dts))
        .duration(Some(duration))
        .flags(flags)
        .build()
        .expect("Failed to build");

    let parser = MetadataParser::parse(&zbytes).expect("Failed to parse");

    // A new buffer with the parsed timing applied
    let mut buffer = no_timing();
    parser.apply_to_buffer(&mut buffer);

    assert_eq!(buffer.pts, Some(pts));
    assert_eq!(buffer.dts, Some(dts));
    assert_eq!(buffer.duration, Some(duration));
    assert!(buffer.flags.live);
    assert!(buffer.flags.discont);
}

#[test]
fn test_flags_serialization() {
    // Test all supported flags
    let all_flags = BufferFlags {
        live: true,
        discont: true,
        delta_unit: true,
        header: true,
        gap: true,
        droppable: true,
        marker: true,
        corrupted: true,
        non_droppable: true,
    };

    let flags_str = flags_to_string(all_flags);
    let parsed_flags = string_to_flags(&flags_str);

    assert!(parsed_flags.live);
    assert!(parsed_flags.discont);
    assert!(parsed_flags.delta_unit);
    assert!(parsed_flags.header);
    assert!(parsed_flags.gap);
    assert!(parsed_flags.droppable);
    assert!(parsed_flags.marker);
    assert!(parsed_flags.corrupted);
    assert!(parsed_flags.non_droppable);
}

#[test]
fn test_empty_flags() {
    let empty_flags = BufferFlags::empty();
    let flags_str = flags_to_string(empty_flags);
    assert!(flags_str.is_empty());

    let parsed = string_to_flags("");
    assert!(parsed.is_empty());
}

#[test]
fn test_combined_caps_and_timing() {
    let caps = "video/x-raw, width=(int)1280, height=(int)720";
    let pts = 5 * SECOND;

    let mut flags = BufferFlags::empty();
    flags.delta_unit = true;

    let zbytes = MetadataBuilder::new()
        .caps(caps)
        .pts(Some(pts))
        .duration(Some(33_333_333))
        .flags(flags)
        .user_metadata("source", "camera1")
        .build()
        .expect("Failed to build");

    let parser = MetadataParser::parse(&zbytes).expect("Failed to parse");

    // Verify all fields
    assert!(parser.caps().is_some());
    assert_eq!(parser.pts(), Some(pts));
    assert_eq!(parser.duration(), Some(33_333_333));
    assert!(parser.flags().unwrap().delta_unit);
    assert_eq!(parser.get_user_metadata("source"), Some("camera1"));

    // Verify caps content
    assert!(parser.caps().unwrap().contains("width=(int)1280"));
}

#[test]
fn test_backward_compatibility() {
    // Simulate a v1.0 message without timing fields
    let old_format = "gst.version=1.0\ngst.caps=video/x-raw";

    let parser = MetadataParser::parse(old_format.as_bytes()).expect("Failed to parse");

    // Should parse successfully with None for timing fields
    assert_eq!(parser.version(), Some("1.0"));
    assert!(parser.caps().is_some());
    assert!(parser.pts().is_none());
    assert!(parser.dts().is_none());
    assert!(parser.duration().is_none());
    assert!(parser.flags().is_none());
}

#[test]
fn test_malformed_metadata_missing_equals() {
    // Line without '=' should fail
    let malformed = "gst.version=1.0\ninvalid_line_without_equals";

    let result = MetadataParser::parse(malformed.as_bytes());
    assert!(result.is_err());
    assert!(result.err().unwrap().contains("Invalid metadata line"));
}

#[test]
fn test_malformed_metadata_invalid_utf8() {
    // Invalid UTF-8 bytes
    let invalid_utf8: Vec<u8> = vec![0xff, 0xfe, 0x00, 0x01];

    let result = MetadataParser::parse(&invalid_utf8);
    assert!(result.is_err());
    assert!(result.err().unwrap().contains("Invalid UTF-8"));
}

#[test]
fn test_malformed_metadata_invalid_timestamp() {
    // Invalid timestamp (not a number) - should be silently ignored
    let invalid_ts = "gst.version=1.0\ngst.pts=not_a_number";

    // Should parse successfully, just skip the invalid field
    let parser =
        MetadataParser::parse(invalid_ts.as_bytes()).expect("Should parse despite invalid timestamp");
    assert!(parser.pts().is_none()); // Invalid value is skipped
}

#[test]
fn test_unknown_keys_forward_compatibility() {
    // Unknown keys should be ignored for forward compatibility
    let future_format = "gst.version=2.0\ngst.future_field=some_value\ngst.pts=1000000000";

    let parser = MetadataParser::parse(future_format.as_bytes()).expect("Should parse with unknown keys");
    assert_eq!(parser.version(), Some("2.0"));
    assert_eq!(parser.pts(), Some(1_000_000_000));
}

#[test]
fn test_empty_metadata() {
    let empty = "";

    let parser = MetadataParser::parse(empty.as_bytes()).expect("Should parse empty metadata");
    assert!(parser.version().is_none());
    assert!(parser.caps().is_none());
    assert!(parser.pts().is_none());
}

#[test]
fn test_unknown_flags_ignored() {
    // Unknown flags should be ignored
    let flags_str = "live,discont,future_flag,another_unknown";
    let parsed = string_to_flags(flags_str);

    // Known flags should be parsed
    assert!(parsed.live);
    assert!(parsed.discont);
}

#[test]
fn attachment_text_is_exact() {
    let mut flags = BufferFlags::empty();
    flags.live = true;
    flags.marker = true;
    let zbytes = MetadataBuilder::new()
        .caps("a/b")
        .pts(Some(7))
        .flags(flags)
        .compression("zstd")
        .key_expr("k/e")
        .user_metadata("who", "me")
        .build()
        .unwrap();
    assert_eq!(
        String::from_utf8(zbytes).unwrap(),
        "gst.version=1.1\ngst.caps=a/b\ngst.pts=7\ngst.flags=live,marker\ngst.compression=zstd\nzenoh.key-expr=k/e\nuser.who=me"
    );
}

#[test]
fn attachment_round_trip_law_on_values() {
    // Every field set; user keys unique and without the prefix.
    let mut flags = BufferFlags::empty();
    flags.gap = true;
    let zbytes = MetadataBuilder::new()
        .caps("video/x-raw\nsecond line")
        .pts(Some(1))
        .dts(Some(2))
        .duration(Some(3))
        .flags(flags)
        .compression("lz4")
        .key_expr("cam/1")
        .user_metadata("a", "x")
        .user_metadata("b", "y\nz")
        .build()
        .unwrap();
    let p = MetadataParser::parse(&zbytes).unwrap();
    assert_eq!(p.version(), Some("1.1"));
    assert_eq!(p.caps(), Some("video/x-raw\nsecond line"));
    assert_eq!((p.pts(), p.dts(), p.duration()), (Some(1), Some(2), Some(3)));
    assert_eq!(p.flags(), Some(flags));
    assert_eq!(p.compression(), Some("lz4"));
    assert_eq!(p.key_expr(), Some("cam/1"));
    assert_eq!(p.get_user_metadata("a"), Some("x"));
    assert_eq!(p.get_user_metadata("b"), Some("y\nz"));
    // Flags that are all unset are not written and read back as absent.
    let p = MetadataParser::parse(&MetadataBuilder::new().flags(BufferFlags::empty()).build().unwrap()).unwrap();
    assert_eq!(p.flags(), None);
}

#[test]
fn user_key_already_prefixed_is_kept() {
    let zbytes = MetadataBuilder::new()
        .user_metadata("user.tag", "v")
        .build()
        .unwrap();
    assert_eq!(
        String::from_utf8(zbytes.clone()).unwrap(),
        "gst.version=1.1\nuser.tag=v"
    );
    let p = MetadataParser::parse(&zbytes).unwrap();
    assert_eq!(p.get_user_metadata("tag"), Some("v"));
}

#[test]
fn apply_keeps_unset_fields() {
    let p = MetadataParser::parse(b"gst.offset=5").unwrap();
    let mut t = no_timing();
    t.pts = Some(9);
    p.apply_to_buffer(&mut t);
    assert_eq!(t.pts, Some(9));
    assert_eq!(t.offset, 5);
    assert_eq!(t.offset_end, u64::MAX);
}

#[test]
fn test_malformed_metadata_invalid_caps() {
    // Invalid caps string
    let invalid_caps = "gst.version=1.0\ngst.caps=not_a_valid_caps!!!";

    // The caps text is handed to GStreamer's caps parser, which refuses it;
    // that verdict makes the attachment fail.
    let caps_parse_ok = false;
    let result = MetadataParser::parse(invalid_caps.as_bytes())
        .and_then(|m| m.check_caps(caps_parse_ok));
    assert!(result.is_err());
    assert!(result.err().unwrap().contains("Failed to parse caps"));
}

#[test]
fn check_caps_keeps_metadata_with_parsable_or_no_caps() {
    let with_caps = MetadataParser::parse("gst.version=1.1\ngst.caps=video/x-raw".as_bytes())
        .unwrap()
        .check_caps(true)
        .unwrap();
    assert_eq!(with_caps.caps(), Some("video/x-raw"));

    let no_caps = MetadataParser::parse("gst.version=1.1\ngst.pts=5".as_bytes())
        .unwrap()
        .check_caps(false)
        .unwrap();
    assert_eq!(no_caps.pts(), Some(5));
    assert_eq!(
        MetadataParser::parse("gst.caps=x".as_bytes()).unwrap().check_caps(false).err(),
        Some("Failed to parse caps 'x'".to_string())
    );
}

#[test]
fn carriage_return_survives_on_the_last_line_only() {
    let bytes = MetadataBuilder::new()
        .caps("video/x-raw\r")
        .user_metadata("first", "a\r")
        .user_metadata("last", "b\r\r")
        .build()
        .unwrap();
    let m = MetadataParser::parse(&bytes).unwrap();
    // Line splitting drops the carriage return before each newline...
    assert_eq!(m.caps(), Some("video/x-raw"));
    assert_eq!(m.get_user_metadata("first"), Some("a"));
    // ...but the last line keeps its own.
    assert_eq!(m.get_user_metadata("last"), Some("b\r\r"));
}
