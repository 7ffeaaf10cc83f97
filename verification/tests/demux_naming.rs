use gstzenoh::demux::{
    demux_sample, fnv1a_32, key_expr_to_pad_name, no_more_pads_due, unique_pad_name,
    DemuxSettings, DemuxStats, PadNaming, PadTable, Route, ZenohDemuxBuilder,
};
use gstzenoh::element::{PropValue, SessionSource};

#[test]
fn test_zenohdemux_pad_naming_property() {
    let mut demux = DemuxSettings::default();
    assert!(matches!(demux.property("pad-naming", None), PropValue::Naming(PadNaming::FullPath)));
    demux.set_property("pad-naming", PropValue::Naming(PadNaming::LastSegment));
    assert!(matches!(
        demux.property("pad-naming", None),
        PropValue::Naming(PadNaming::LastSegment)
    ));
    demux.set_property("pad-naming", PropValue::Naming(PadNaming::Hash));
    assert!(matches!(demux.property("pad-naming", None), PropValue::Naming(PadNaming::Hash)));
}

#[test]
fn test_zenohdemux_properties() {
    let mut demux = DemuxSettings::default();
    demux.set_property("key-expr", PropValue::Str("camera/*".to_string()));
    demux.set_property("receive-timeout-ms", PropValue::U64(200));
    assert!(matches!(demux.property("key-expr", None), PropValue::Str(ref k) if k == "camera/*"));
    assert!(matches!(demux.property("receive-timeout-ms", None), PropValue::U64(200)));
    assert!(matches!(demux.property("no-more-pads-timeout-ms", None), PropValue::U64(500)));
}

#[test]
fn test_zenohdemux_statistics_initial_values() {
    let demux = DemuxSettings::default();
    for name in ["bytes-received", "messages-received", "pads-created", "errors"] {
        assert!(matches!(demux.property(name, None), PropValue::U64(0)));
    }
}

#[test]
fn test_zenohdemux_requires_key_expr() {
    let demux = DemuxSettings::default();
    let e = demux.check_ready().err().unwrap();
    assert_eq!(e.text, "Key expression is required");
    let mut demux = DemuxSettings::default();
    demux.key_expr = "a/*".to_string();
    assert!(demux.check_ready().is_ok());
    assert!(matches!(demux.session_source(), SessionSource::Open { config_file: None }));
}

#[test]
fn pad_names_from_key_expressions() {
    assert_eq!(key_expr_to_pad_name("camera/front", PadNaming::FullPath), "camera_front");
    assert_eq!(key_expr_to_pad_name("camera/front", PadNaming::LastSegment), "front");
    assert_eq!(key_expr_to_pad_name("a b/*/c d", PadNaming::FullPath), "a_b_wildcard_c_d");
    assert_eq!(key_expr_to_pad_name("sensors/**", PadNaming::LastSegment), "wildcardwildcard");
    assert_eq!(key_expr_to_pad_name("plain", PadNaming::LastSegment), "plain");
    assert_eq!(key_expr_to_pad_name("trailing/", PadNaming::LastSegment), "");
    // pad_ and the FNV-1a hash as eight lowercase hex digits.
    assert_eq!(key_expr_to_pad_name("camera/front", PadNaming::Hash), "pad_1d6bb622");
    assert_eq!(key_expr_to_pad_name("", PadNaming::Hash), "pad_811c9dc5");
}

#[test]
fn fnv1a_known_values() {
    assert_eq!(fnv1a_32(b""), 0x811c9dc5);
    assert_eq!(fnv1a_32(b"a"), 0xe40c292c);
    assert_eq!(fnv1a_32(b"foobar"), 0xbf9cf968);
}

#[test]
fn unique_names_get_suffixes() {
    let used = vec!["front".to_string(), "front_1".to_string(), "back".to_string()];
    assert_eq!(unique_pad_name("side", &used), "side");
    assert_eq!(unique_pad_name("front", &used), "front_2");
    assert_eq!(unique_pad_name("back", &used), "back_1");
}

#[test]
fn test_demux_colliding_pad_names_stay_separate() {
    // Two key expressions whose last segments collide get two pads.
    let mut pads: PadTable<u32> = PadTable::new();
    let mut next = 0u32;
    for key in ["camera/front", "robot/front", "camera/front"] {
        match pads.route(key, PadNaming::LastSegment) {
            Route::Existing(_) => {}
            Route::Create(name) => {
                pads.insert(key.to_string(), name, next);
                next += 1;
            }
        }
    }
    assert_eq!(pads.len(), 2);
    assert_eq!(pads.name(0), "front");
    assert_eq!(pads.name(1), "front_1");
    assert_eq!(pads.find("robot/front"), Some(1));
    assert_eq!(*pads.pad(1), 1);
    assert!(matches!(pads.route("camera/front", PadNaming::LastSegment), Route::Existing(0)));
}

#[test]
fn quiescence_decides_no_more_pads() {
    assert!(no_more_pads_due(false, 500, Some(500)));
    assert!(!no_more_pads_due(false, 500, Some(499)));
    assert!(!no_more_pads_due(true, 500, Some(900)));
    assert!(!no_more_pads_due(false, 0, Some(900)));
    assert!(!no_more_pads_due(false, 500, None));
}

#[test]
fn demux_sample_applies_metadata() {
    let att = gstzenoh::metadata::MetadataBuilder::new()
        .pts(Some(11))
        .caps("video/x-raw")
        .build()
        .unwrap();
    let b = demux_sample(Some(&att), b"xyz").ok().unwrap();
    assert_eq!(b.data, b"xyz");
    assert_eq!(b.timing.pts, Some(11));
    assert_eq!(b.caps.as_deref(), Some("video/x-raw"));
    let framed = gstzenoh::compression::compress(b"hello hello hello", gstzenoh::compression::CompressionType::Lz4, 5).unwrap();
    let att = gstzenoh::metadata::MetadataBuilder::new().compression("lz4").build().unwrap();
    let b = demux_sample(Some(&att), &framed).ok().unwrap();
    assert_eq!(b.data, b"hello hello hello");
    assert!(demux_sample(Some(&att), b"garbage").is_err());
}

#[test]
fn demux_stats_count() {
    let mut s = DemuxStats::new();
    s.record_pad();
    s.record_buffer(3);
    s.record_error();
    assert_eq!((s.bytes_received, s.messages_received, s.pads_created, s.errors), (3, 1, 1, 1));
}

#[test]
fn demux_builder_properties() {
    let e = ZenohDemuxBuilder::new("camera/*")
        .pad_naming(PadNaming::LastSegment)
        .receive_timeout_ms(200)
        .build();
    assert_eq!(e.properties.len(), 3);
    assert_eq!(e.properties[0].0, "key-expr");
    assert!(matches!(e.properties[1], (ref n, PropValue::Naming(PadNaming::LastSegment)) if n == "pad-naming"));
    assert!(matches!(e.properties[2], (ref n, PropValue::U64(200)) if n == "receive-timeout-ms"));
    assert!(e.session.is_none());
    assert_eq!(PadNaming::from_nick("last-segment"), Some(PadNaming::LastSegment));
    assert_eq!(PadNaming::Hash.as_nick(), "hash");
}

#[test]
fn pads_created_counts_the_pads_of_the_table() {
    let mut pads: PadTable<u32> = PadTable::new();
    let mut stats = DemuxStats::new();
    for (i, k) in ["camera/front", "camera/rear", "camera/front"].iter().enumerate() {
        match pads.route(k, PadNaming::LastSegment) {
            Route::Existing(_) => {}
            Route::Create(name) => {
                gstzenoh::demux::register_pad(&mut pads, &mut stats, k.to_string(), name, i as u32)
            }
        }
        assert_eq!(stats.pads_created, pads.len() as u64);
    }
    assert_eq!(pads.len(), 2);
    assert_eq!(pads.name(1), "rear");
}
