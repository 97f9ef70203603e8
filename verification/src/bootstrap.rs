use vstd::prelude::*;

use crate::event::{Event, SeverityKind};

verus! {

/// How long the bootstrap waits between connection attempts, in seconds.
pub const RETRY_DELAY_SECONDS: u64 = 5;

/// What one attempt to open the database connection produced.
pub enum ConnectOutcome {
    Connected,
    Failed { message: String, cause: Option<String> },
}

/// What the bootstrap does next: proceed to serve, or log the failure and
/// try again after the fixed delay.
pub enum BootstrapAction {
    Proceed,
    LogAndRetry { event: Event, delay_seconds: u64 },
}

/// The decision the bootstrap takes after one connection attempt. A failure
/// never stops the process: it is logged at `Error` severity — the failure
/// message with its underlying cause — and the attempt is repeated after
/// the fixed delay, with no attempt cap and no backoff growth. Success
/// proceeds to request serving.
pub fn bootstrap_step(outcome: ConnectOutcome) -> (r: BootstrapAction)
    ensures
        outcome is Connected ==> r is Proceed,
        outcome matches ConnectOutcome::Failed { message, cause } ==> (r matches BootstrapAction::LogAndRetry { event, delay_seconds }
            && event.msg@ == message@
            && event.source.deep_view() == cause.deep_view()
            && event.severity == SeverityKind::Error
            && delay_seconds == RETRY_DELAY_SECONDS),
{
    match outcome {
        ConnectOutcome::Connected => BootstrapAction::Proceed,
        ConnectOutcome::Failed { message, cause } => BootstrapAction::LogAndRetry {
            event: Event { msg: message, source: cause, severity: SeverityKind::Error },
            delay_seconds: RETRY_DELAY_SECONDS,
        },
    }
}

} // verus!
