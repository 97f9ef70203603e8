use arena_core::event::{encode_event, Event, SeverityKind};

#[test]
fn plain_event_record() {
    let e = Event {
        msg: "hello".to_string(),
        source: None,
        severity: SeverityKind::Info,
    };
    assert_eq!(
        encode_event(&e),
        "{\"msg\":\"hello\",\"source\":null,\"severity\":\"INFO\"}"
    );
}

#[test]
fn event_record_with_source() {
    let e = Event {
        msg: "connection error".to_string(),
        source: Some("os error 111".to_string()),
        severity: SeverityKind::Error,
    };
    assert_eq!(
        encode_event(&e),
        "{\"msg\":\"connection error\",\"source\":\"os error 111\",\"severity\":\"ERROR\"}"
    );
}

#[test]
fn event_record_escapes_special_characters() {
    let e = Event {
        msg: "a\"b\\c\nd".to_string(),
        source: None,
        severity: SeverityKind::Warning,
    };
    let record = encode_event(&e);
    assert_eq!(
        record,
        "{\"msg\":\"a\\\"b\\\\c\\u000ad\",\"source\":null,\"severity\":\"WARNING\"}"
    );
    // The record must parse back to the event's exact fields.
    let parsed: serde_json::Value = serde_json::from_str(record.as_str()).unwrap();
    assert_eq!(parsed.get("msg").unwrap().as_str(), Some("a\"b\\c\nd"));
    assert!(parsed.get("source").unwrap().is_null());
    assert_eq!(parsed.get("severity").unwrap().as_str(), Some("WARNING"));
}

#[test]
fn severity_labels() {
    assert_eq!(SeverityKind::Info.label(), "INFO");
    assert_eq!(SeverityKind::Warning.label(), "WARNING");
    assert_eq!(SeverityKind::Error.label(), "ERROR");
    assert_eq!(SeverityKind::Fatal.label(), "FATAL");
}

#[test]
fn severity_from_rank() {
    assert_eq!(SeverityKind::try_from(0), Ok(SeverityKind::Info));
    assert_eq!(SeverityKind::try_from(1), Ok(SeverityKind::Warning));
    assert_eq!(SeverityKind::try_from(2), Ok(SeverityKind::Error));
    assert_eq!(SeverityKind::try_from(3), Ok(SeverityKind::Fatal));
    assert_eq!(SeverityKind::try_from(4), Err(4));
    assert_eq!(SeverityKind::try_from(255), Err(255));
}
