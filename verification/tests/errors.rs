use finality_pbft::config::Config;
use finality_pbft::error::{ClientError, CommandOrError, Error, VoterCommand};
use finality_pbft::keys::{
    JASMINE_AUTHORITIES_KEY, JASMINE_ENGINE_ID, JASMINE_KEY_TYPE, PBFT_AUTHORITIES_KEY,
    PBFT_ENGINE_ID, PBFT_KEY_TYPE,
};
use finality_pbft::notification::{JasmineJustificationsTracingKey, PbftJustificationsTracingKey};

#[test]
fn errors_convert() {
    let client = || ClientError::Backend("disk".to_string());
    assert_eq!(Error::from(client()), Error::Client(client()));
    assert_eq!(CommandOrError::from(client()), CommandOrError::Error(Error::Client(client())));
    assert_eq!(
        CommandOrError::from(Error::Network("down".to_string())),
        CommandOrError::Error(Error::Network("down".to_string())),
    );
    assert_eq!(
        CommandOrError::from(VoterCommand::Pause("x".to_string())),
        CommandOrError::VoterCommand(VoterCommand::Pause("x".to_string())),
    );
}

#[test]
fn config_has_a_name() {
    let mut config = Config {
        name: None,
        justification_period: 512,
        protocol_name: "/x/pbft/1".to_string(),
    };
    assert_eq!(config.name(), "<unknown>");
    config.name = Some("alice".to_string());
    assert_eq!(config.name(), "alice");
}

#[test]
fn identifiers() {
    assert_eq!(&PBFT_ENGINE_ID, b"PBFT");
    assert_eq!(&PBFT_KEY_TYPE, b"pbft");
    assert_eq!(&JASMINE_ENGINE_ID, b"JSME");
    assert_eq!(&JASMINE_KEY_TYPE, b"JSME");
    assert_eq!(PBFT_AUTHORITIES_KEY, ":pbft_authorities");
    assert_eq!(JASMINE_AUTHORITIES_KEY, ":jasmine_authorities");
    assert_eq!(
        PbftJustificationsTracingKey::tracing_key(),
        "mpsc_pbft_justification_notification_stream",
    );
    assert_eq!(
        JasmineJustificationsTracingKey::tracing_key(),
        "mpsc_jasmine_justification_notification_stream",
    );
}
