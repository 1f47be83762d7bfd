//! Names of the channels on which justifications are announced.
use vstd::prelude::*;

verus! {

/// Provides the tracing key of the Jasmine justifications stream.
#[derive(Clone)]
pub struct JasmineJustificationsTracingKey;

impl JasmineJustificationsTracingKey {
    /// The tracing key.
    pub fn tracing_key() -> (r: &'static str)
        ensures
            r@ == "mpsc_jasmine_justification_notification_stream"@,
    {
        "mpsc_jasmine_justification_notification_stream"
    }
}

/// Provides the tracing key of the PBFT justifications stream.
#[derive(Clone)]
pub struct PbftJustificationsTracingKey;

impl PbftJustificationsTracingKey {
    /// The tracing key.
    pub fn tracing_key() -> (r: &'static str)
        ensures
            r@ == "mpsc_pbft_justification_notification_stream"@,
    {
        "mpsc_pbft_justification_notification_stream"
    }
}

} // verus!
