use gstzenoh::element::PropValue;
use gstzenoh::zenohsink::SinkSettings;
use gstzenoh::zenohsrc::SrcSettings;

fn u64_of(v: PropValue) -> u64 {
    match v {
        PropValue::U64(x) => x,
        other => panic!("expected a u64 property, got {:?}", other),
    }
}

#[test]
fn test_statistics_properties_exist() {
    let sink = SinkSettings::default();
    let src = SrcSettings::default();

    // Verify all statistics properties exist and are readable as u64
    let sink_props = ["bytes-sent", "messages-sent", "errors", "dropped"];
    for prop in &sink_props {
        let value = u64_of(sink.property(prop, None, None, None));
        println!("zenohsink.{} = {}", prop, value);
    }

    let src_props = ["bytes-received", "messages-received", "errors"];
    for prop in &src_props {
        let value = u64_of(src.property(prop, None));
        println!("zenohsrc.{} = {}", prop, value);
    }
}

#[test]
fn test_statistics_types() {
    let sink = SinkSettings::default();

    // Verify all statistics are u64 type
    let bytes_sent = u64_of(sink.property("bytes-sent", None, None, None));
    let messages_sent = u64_of(sink.property("messages-sent", None, None, None));
    let errors = u64_of(sink.property("errors", None, None, None));
    let dropped = u64_of(sink.property("dropped", None, None, None));

    assert_eq!(bytes_sent, 0);
    assert_eq!(messages_sent, 0);
    assert_eq!(errors, 0);
    assert_eq!(dropped, 0);
}
