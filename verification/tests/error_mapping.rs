use gstzenoh::connectivity::{Connectivity, TransportEvent};
use gstzenoh::error::{
    ErrorDomain, ErrorHandling, FlowError, FlowErrorHandling, ResourceErrorKind, ZenohError,
};

#[test]
fn zenoh_errors_to_messages_and_flow() {
    let e = ZenohError::Init { reason: "no router".to_string() };
    let m = e.to_error_message();
    assert_eq!(m.domain, ErrorDomain::Resource(ResourceErrorKind::OpenRead));
    assert_eq!(
        m.text,
        "Zenoh session initialization failed: no router. Check network connectivity and Zenoh configuration."
    );
    assert_eq!(e.to_flow_error(), FlowError::NotNegotiated);
    assert_eq!(e.message(), "Failed to initialize Zenoh session: no router");

    let e = ZenohError::KeyExpr { key_expr: "a//b".to_string(), reason: "empty chunk".to_string() };
    assert_eq!(e.to_error_message().domain, ErrorDomain::Resource(ResourceErrorKind::Settings));
    assert_eq!(e.to_flow_error(), FlowError::NotNegotiated);
    assert_eq!(e.message(), "Invalid key expression 'a//b': empty chunk");

    let e = ZenohError::Publish { key_expr: "k".to_string(), reason: "closed".to_string() };
    let m = e.to_error_message();
    assert_eq!(m.domain, ErrorDomain::Resource(ResourceErrorKind::Write));
    assert_eq!(
        m.text,
        "Failed to publish data to 'k': closed. This may indicate network issues or session problems."
    );
    assert_eq!(e.to_flow_error(), FlowError::Error);
}

#[test]
fn test_src_reports_connected_over_open_transport() {
    let mut c = Connectivity::new();
    assert!(!c.connected);
    assert_eq!(c.on_event(TransportEvent::Opened), Some(true));
    assert_eq!(c.on_event(TransportEvent::Opened), None);
    assert_eq!(c.on_event(TransportEvent::Closed), None);
    assert!(c.connected);
    assert_eq!(c.on_event(TransportEvent::Closed), Some(false));
    // A close with nothing open changes nothing.
    assert_eq!(c.on_event(TransportEvent::Closed), None);
    assert_eq!(c.open_transports, 0);
}
