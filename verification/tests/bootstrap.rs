use arena_core::bootstrap::{bootstrap_step, BootstrapAction, ConnectOutcome, RETRY_DELAY_SECONDS};
use arena_core::event::{encode_event, SeverityKind};

#[test]
fn two_failures_then_connect() {
    // A database that rejects the first two attempts and accepts the third:
    // the bootstrap must log two error events, waiting the fixed delay after
    // each, and then proceed — never crash on the failures.
    let outcomes = vec![
        ConnectOutcome::Failed {
            message: "connection refused".to_string(),
            cause: Some("os error 111".to_string()),
        },
        ConnectOutcome::Failed {
            message: "connection refused".to_string(),
            cause: None,
        },
        ConnectOutcome::Connected,
    ];
    let mut records = Vec::new();
    let mut proceeded = false;
    for outcome in outcomes {
        match bootstrap_step(outcome) {
            BootstrapAction::Proceed => {
                proceeded = true;
                break;
            }
            BootstrapAction::LogAndRetry { event, delay_seconds } => {
                assert_eq!(delay_seconds, RETRY_DELAY_SECONDS);
                assert_eq!(event.severity, SeverityKind::Error);
                records.push(encode_event(&event));
            }
        }
    }
    assert!(proceeded);
    assert_eq!(records.len(), 2);
    assert_eq!(
        records[0],
        "{\"msg\":\"connection refused\",\"source\":\"os error 111\",\"severity\":\"ERROR\"}"
    );
    assert_eq!(
        records[1],
        "{\"msg\":\"connection refused\",\"source\":null,\"severity\":\"ERROR\"}"
    );
}

#[test]
fn retry_delay_is_five_seconds() {
    assert_eq!(RETRY_DELAY_SECONDS, 5);
}
