use adb_sync::auth::{auth_step, AuthState, AuthStep, AUTH_TIMEOUT_SECS};
use adb_sync::device::{auth_read_error, ADBMessageDevice};
use adb_sync::error::RustADBError;
use adb_sync::message::{
    ADBTransportMessage, MessageCommand, AUTH_RSAPUBLICKEY, AUTH_SIGNATURE, AUTH_TOKEN, A_VERSION,
    MAX_PAYLOAD,
};
use adb_sync::rsa::ADBRsaKey;
use adb_sync::transport::{ADBMessageTransport, ScriptedTransport};

const MODULUS: [u8; 256] = [
    0xbe, 0xe1, 0x50, 0x0f, 0xf7, 0xc7, 0x7e, 0x71, 0x30, 0x44, 0x7f, 0x4e, 0x2a, 0x29, 0xab, 0xca,
    0x4f, 0x7f, 0x91, 0x26, 0xe1, 0x66, 0x73, 0xc0, 0x91, 0x6c, 0xa9, 0xff, 0xa2, 0x75, 0x89, 0xc0,
    0x06, 0x59, 0x01, 0x9b, 0x61, 0x1d, 0xbb, 0x3d, 0xdb, 0xc3, 0x90, 0x58, 0x71, 0xb3, 0x16, 0xfe,
    0xc2, 0x1a, 0x34, 0xb8, 0xd5, 0xd1, 0x74, 0x75, 0x85, 0x01, 0x22, 0x09, 0x97, 0xf3, 0x5d, 0x4a,
    0x7a, 0x7b, 0x92, 0xe6, 0x71, 0xaa, 0xfb, 0x68, 0x14, 0x4d, 0xc0, 0x82, 0x28, 0xae, 0x66, 0x5e,
    0xd5, 0xc2, 0x11, 0x81, 0xdd, 0x29, 0xac, 0x26, 0x04, 0x06, 0x00, 0x08, 0x11, 0x27, 0xb4, 0xb6,
    0x8d, 0x6a, 0xef, 0xe1, 0x0d, 0xb8, 0x7d, 0x1c, 0xc1, 0x74, 0xf5, 0xd8, 0xb2, 0x6e, 0x2e, 0xbb,
    0x97, 0xbe, 0xfa, 0x4a, 0x7f, 0xd1, 0x59, 0xae, 0xa6, 0x78, 0xe0, 0x00, 0x83, 0x6e, 0x8a, 0xa0,
    0xe0, 0xf0, 0x70, 0xb4, 0xa6, 0x22, 0x34, 0xa3, 0x98, 0xad, 0x34, 0x1f, 0x12, 0x9f, 0x71, 0x12,
    0x89, 0x40, 0x46, 0x0e, 0x2c, 0x79, 0x6c, 0xf2, 0xee, 0x4c, 0x64, 0xb7, 0x71, 0x51, 0x18, 0x9b,
    0xb7, 0xbc, 0xd3, 0xaa, 0x7e, 0xe5, 0x37, 0x06, 0x86, 0xf4, 0xa7, 0x19, 0x71, 0x3b, 0x12, 0x44,
    0x78, 0x5b, 0x9b, 0xe1, 0xc2, 0x9e, 0xd0, 0xef, 0xd3, 0xc1, 0x34, 0xe2, 0x56, 0xa6, 0x09, 0x3b,
    0x40, 0xe1, 0x10, 0x05, 0x77, 0x10, 0x61, 0xa6, 0x35, 0x28, 0x52, 0x8e, 0xa8, 0xf8, 0x11, 0xa1,
    0x77, 0xff, 0x51, 0xe2, 0x4d, 0xac, 0xd3, 0xd0, 0x62, 0x26, 0xe1, 0x04, 0x13, 0xd7, 0x04, 0x58,
    0x1d, 0x98, 0xfc, 0xb4, 0x9f, 0xc7, 0xa7, 0x01, 0xdc, 0x64, 0x37, 0x2a, 0x23, 0x7b, 0x53, 0x23,
    0x69, 0xc0, 0x60, 0x04, 0x98, 0xfd, 0x0a, 0x73, 0xd9, 0xc3, 0x54, 0xb6, 0x2e, 0x57, 0x0b, 0x8b,
];
const PRIVATE_EXPONENT: [u8; 256] = [
    0xbb, 0x15, 0xc7, 0x0c, 0xff, 0x84, 0x4e, 0x4f, 0xce, 0x49, 0x34, 0xa5, 0x7d, 0xf9, 0xbd, 0xe0,
    0xda, 0xae, 0x63, 0xac, 0x41, 0xfb, 0xd2, 0xb4, 0x09, 0x55, 0x02, 0x02, 0x06, 0x4f, 0x41, 0xa6,
    0x2e, 0x12, 0x8a, 0xda, 0xaa, 0x03, 0x24, 0x04, 0x6b, 0x23, 0x70, 0x94, 0xdf, 0x4b, 0xf2, 0xdb,
    0xdb, 0x8f, 0x27, 0xe1, 0x89, 0xe0, 0x73, 0x4e, 0xc3, 0xff, 0xea, 0x46, 0x90, 0xe1, 0xfc, 0xac,
    0x05, 0x04, 0x9d, 0x64, 0xb4, 0x40, 0x2b, 0x8d, 0x45, 0x69, 0x37, 0xa7, 0xdb, 0x0b, 0xa4, 0x56,
    0x8b, 0x18, 0x5d, 0x64, 0x75, 0x4a, 0x64, 0xea, 0x15, 0xc3, 0x73, 0xc0, 0x74, 0x60, 0x00, 0x65,
    0x74, 0x92, 0x3d, 0x6e, 0xcd, 0xad, 0xe7, 0x22, 0x8a, 0x12, 0x82, 0xeb, 0xd3, 0x66, 0xde, 0xf3,
    0x0a, 0xb6, 0x2a, 0x47, 0x5e, 0xa3, 0xe8, 0x4c, 0x9f, 0xe9, 0x95, 0x53, 0xab, 0x7e, 0x6a, 0xeb,
    0xb4, 0x65, 0x24, 0x99, 0xde, 0xdd, 0xaa, 0x22, 0xee, 0xa6, 0x56, 0xcc, 0xc4, 0xec, 0x6c, 0x76,
    0x68, 0x1b, 0x80, 0xe0, 0xf4, 0x70, 0xd6, 0x0a, 0x47, 0x49, 0x72, 0x43, 0xc1, 0xdc, 0x7e, 0x28,
    0x14, 0x8b, 0xfb, 0x53, 0x0f, 0x6a, 0xba, 0x5e, 0xff, 0x31, 0x86, 0x0e, 0xcc, 0x52, 0x41, 0x51,
    0xa2, 0xe0, 0x25, 0xaf, 0xbe, 0x6b, 0xea, 0xfa, 0xe6, 0xd9, 0xca, 0x85, 0x7c, 0x5f, 0x3d, 0x02,
    0x55, 0xf2, 0x63, 0x6e, 0xeb, 0xee, 0xee, 0xc9, 0x0e, 0xc3, 0x90, 0xa1, 0x43, 0x3e, 0x45, 0x2e,
    0xe6, 0x64, 0xd5, 0xe1, 0xc8, 0x13, 0x26, 0x53, 0xb1, 0x64, 0xf1, 0x95, 0x6b, 0x0e, 0x37, 0x5c,
    0x92, 0x5b, 0x52, 0x6b, 0x6a, 0xf6, 0xf1, 0x59, 0x0c, 0x7b, 0x3b, 0x50, 0x54, 0xa1, 0x42, 0xd7,
    0x4b, 0xa8, 0xcb, 0xd2, 0xe6, 0xf0, 0xc0, 0x8f, 0xe0, 0x52, 0x93, 0x38, 0x45, 0x6e, 0xe0, 0x91,
];
const PUBLIC_EXPONENT: u32 = 65537;
const TOKEN: [u8; 20] = [
    0x01, 0x02, 0x03, 0x04, 0x05, 0x06, 0x07, 0x08, 0x09, 0x0a, 0x0b, 0x0c, 0x0d, 0x0e, 0x0f, 0x10,
    0x11, 0x12, 0x13, 0x14,
];
const SIGNATURE: [u8; 256] = [
    0x33, 0xfe, 0x1d, 0x67, 0xb5, 0x8e, 0x0f, 0xa5, 0x23, 0x71, 0x82, 0x1d, 0x52, 0xb7, 0xd0, 0xfa,
    0x3b, 0x18, 0x88, 0x29, 0x6d, 0xab, 0x1b, 0x25, 0xbf, 0x52, 0xb4, 0xce, 0x82, 0x7e, 0xfc, 0xfc,
    0x31, 0x52, 0xe6, 0xa9, 0xf5, 0x8d, 0x74, 0xe5, 0x76, 0x47, 0xe5, 0xc9, 0xe1, 0x27, 0xeb, 0xb7,
    0x6d, 0xf3, 0x59, 0x83, 0xf4, 0xa0, 0xe3, 0x70, 0x61, 0xde, 0xcf, 0xdb, 0x4f, 0x2c, 0xf0, 0x50,
    0x0a, 0x27, 0xf1, 0x36, 0xd8, 0xbf, 0x44, 0x8b, 0xf4, 0x6a, 0xcb, 0xd2, 0xc4, 0x9c, 0x0a, 0x32,
    0x79, 0x13, 0x8e, 0xe7, 0xaf, 0x3c, 0xca, 0x64, 0xd3, 0x1f, 0x53, 0xe4, 0x98, 0x85, 0x50, 0xa5,
    0xaa, 0x3d, 0xb2, 0x80, 0xb7, 0xe2, 0x64, 0x9f, 0xde, 0xf8, 0x57, 0x4c, 0x7e, 0x5d, 0xd7, 0x53,
    0xd6, 0xd8, 0xf1, 0x00, 0xd0, 0x17, 0x24, 0xd3, 0x92, 0xae, 0xe4, 0x87, 0x85, 0x35, 0xd5, 0x08,
    0xad, 0xdf, 0x07, 0xd4, 0x21, 0xeb, 0x1c, 0x47, 0xa8, 0xfa, 0xb5, 0x75, 0x3a, 0xf9, 0x17, 0xf7,
    0xfd, 0x0e, 0x0b, 0xaa, 0x6a, 0xcd, 0x8b, 0x81, 0x76, 0xd5, 0x84, 0xcc, 0xa5, 0xeb, 0x98, 0x4c,
    0x63, 0xdf, 0x84, 0x93, 0xd9, 0x7c, 0x2c, 0x83, 0xa5, 0x80, 0x5e, 0x01, 0x70, 0xc3, 0x72, 0xe1,
    0x49, 0x29, 0x97, 0x30, 0x78, 0xc2, 0xfd, 0x76, 0xed, 0x1f, 0xf7, 0x00, 0x6d, 0xd2, 0xf8, 0x8f,
    0x95, 0x63, 0xbc, 0x67, 0xd4, 0xf7, 0xf9, 0xbf, 0x63, 0x5d, 0x53, 0xf3, 0xbf, 0x6b, 0x9f, 0xe4,
    0x53, 0x97, 0x75, 0x87, 0xa8, 0x05, 0xea, 0x5d, 0xe6, 0x2d, 0xd1, 0x75, 0x0c, 0x12, 0x23, 0x75,
    0x24, 0x33, 0x2f, 0x6c, 0xd7, 0xdc, 0x7f, 0x08, 0x42, 0x77, 0x4c, 0x8e, 0xeb, 0xd4, 0x78, 0x5b,
    0x66, 0xdc, 0x37, 0x7d, 0x24, 0xaa, 0x08, 0xa7, 0x91, 0x7a, 0xed, 0x65, 0x76, 0x3b, 0x69, 0xdb,
];
const PUBLIC_KEY_BASE64: &str = "QAAAAN071vuLC1cutlTD2XMK/ZgEYMBpI1N7Iyo3ZNwBp8eftPyYHVgE1xME4SZi0NOsTeJR/3ehEfiojlIoNaZhEHcFEOFAOwmmVuI0wdPv0J7C4ZtbeEQSO3EZp/SGBjflfqrTvLebGFFxt2RM7vJseSwORkCJEnGfEh80rZijNCKmtHDw4KCKboMA4HimrlnRf0r6vpe7Lm6y2PV0wRx9uA3h72qNtrQnEQgABgQmrCndgRHC1V5mriiCwE0UaPuqceaSe3pKXfOXCSIBhXV00dW4NBrC/hazcViQw9s9ux1hmwFZBsCJdaL/qWyRwHNm4SaRf0/KqykqTn9EMHF+x/cPUOG+T1k0XDIcVro1Toz/83h5b/3ump0Kr5KUe+RV34VrvABhtf+eTIapk0n0suC+MI8c8tsGZ8he6omP4uU1wuT6YqibDfnvXL654qfknlN0hxcN4QY4hQ4aBggK7OgHBlP99eShZ9CW5LI/yQTTMyByryTsbrHwv5BxaqxWiOXp5Co6tQNmxibM2BTk2kMY094BSFEmx/n+42Oz9jbyJZQid5LVpYqIGE9viDMiAuKbhCXOgK/5oI6zODhLZyUdNHvLO2z5eb3uY5Mwb+eh4JX3WAqxLZbiRhYpUgBbupAuYZG0FDiDPAtSr3cBhmCz3Rh8ZHE6dVtgNK31EKsOF+HZIAEAAQA=";

fn key() -> ADBRsaKey {
    ADBRsaKey::new(
        MODULUS.to_vec(),
        PRIVATE_EXPONENT.to_vec(),
        PUBLIC_EXPONENT,
        "host@workstation".to_string(),
    )
    .unwrap()
}

fn token() -> ADBTransportMessage {
    ADBTransportMessage::new(MessageCommand::Auth, AUTH_TOKEN, 0, &TOKEN)
}

fn banner() -> ADBTransportMessage {
    ADBTransportMessage::new(MessageCommand::Cnxn, A_VERSION, 4096, b"device::ro.product.name=x;\0")
}

fn signature_reply() -> ADBTransportMessage {
    ADBTransportMessage::new(MessageCommand::Auth, AUTH_SIGNATURE, 0, &SIGNATURE)
}

fn public_key_reply() -> ADBTransportMessage {
    let mut payload = format!("{} host@workstation", PUBLIC_KEY_BASE64).into_bytes();
    payload.push(0);
    ADBTransportMessage::new(MessageCommand::Auth, AUTH_RSAPUBLICKEY, 0, &payload)
}

fn device(script: Vec<ADBTransportMessage>) -> ADBMessageDevice<ScriptedTransport> {
    ADBMessageDevice::new(ScriptedTransport::new(script))
}

fn sent(device: &mut ADBMessageDevice<ScriptedTransport>) -> Vec<ADBTransportMessage> {
    device.get_transport().written().clone()
}

fn left(device: &mut ADBMessageDevice<ScriptedTransport>) -> usize {
    device.get_transport().remaining()
}

#[test]
fn handshake_with_token() {
    let mut device = device(vec![banner()]);
    assert_eq!(device.auth_handshake(token(), &key()), Ok(()));
    let sent = sent(&mut device);
    assert_eq!(sent, vec![signature_reply()]);
    assert_eq!(sent[0].header().command(), MessageCommand::Auth);
    assert_eq!(sent[0].header().arg0(), 2);
    assert_eq!(sent[0].payload().len(), 256);
    assert_eq!(left(&mut device), 0);
    assert_eq!(device.get_transport().waits(), &vec![10]);
}

#[test]
fn handshake_escalating_to_public_key() {
    let mut device = device(vec![token(), banner()]);
    assert_eq!(device.auth_handshake(token(), &key()), Ok(()));
    let sent = sent(&mut device);
    assert_eq!(sent, vec![signature_reply(), public_key_reply()]);
    assert_eq!(sent[1].header().arg0(), 3);
    assert_eq!(sent[1].payload().last(), Some(&0u8));
    assert_eq!(sent[1].payload().len(), 700 + 1 + 16 + 1);
    assert_eq!(device.get_transport().waits(), &vec![10, 10]);
}

#[test]
fn connect_sends_cnxn_first() {
    let mut device = device(vec![token(), banner()]);
    assert_eq!(device.connect(&key()), Ok(()));
    let hello = ADBTransportMessage::new(MessageCommand::Cnxn, 0x01000001, 256 * 1024, b"host::\0");
    assert_eq!(MAX_PAYLOAD, 256 * 1024);
    assert_eq!(sent(&mut device), vec![hello, signature_reply()]);
}

#[test]
fn connect_to_a_device_that_knows_the_host() {
    let mut device = device(vec![banner()]);
    assert_eq!(device.connect(&key()), Ok(()));
    assert_eq!(sent(&mut device).len(), 1);
}

#[test]
fn connect_to_a_silent_device_times_out() {
    let mut device = device(vec![]);
    assert_eq!(device.connect(&key()), Err(RustADBError::AuthTimeout));
    assert_eq!(sent(&mut device).len(), 1);
    assert_eq!(device.get_transport().waits(), &vec![10]);
}

#[test]
fn handshake_times_out_when_the_device_stops() {
    let mut device = device(vec![]);
    assert_eq!(device.auth_handshake(token(), &key()), Err(RustADBError::AuthTimeout));
    assert_eq!(sent(&mut device), vec![signature_reply()]);
    assert_eq!(AUTH_TIMEOUT_SECS, 10);
}

#[test]
fn a_third_token_ends_the_handshake() {
    let mut device = device(vec![token(), token(), banner()]);
    assert_eq!(
        device.auth_handshake(token(), &key()),
        Err(RustADBError::ADBRequestFailed(
            "Device rejected both the signature and the public key".to_string()
        ))
    );
    assert_eq!(sent(&mut device).len(), 2);
    assert_eq!(left(&mut device), 1);
}

#[test]
fn a_request_for_the_public_key_is_answered() {
    let request = ADBTransportMessage::new(MessageCommand::Auth, AUTH_RSAPUBLICKEY, 0, &[]);
    let mut device = device(vec![banner()]);
    assert_eq!(device.auth_handshake(request, &key()), Ok(()));
    assert_eq!(sent(&mut device), vec![public_key_reply()]);
}

#[test]
fn strays_are_passed_over_during_the_handshake() {
    let stray_okay = ADBTransportMessage::new(MessageCommand::Okay, 1, 2, &[]);
    let stray_close = ADBTransportMessage::new(MessageCommand::Clse, 1, 2, &[]);
    let stray_write = ADBTransportMessage::new(MessageCommand::Write, 1, 2, b"old");
    let mut device = device(vec![stray_close, stray_write, token(), banner()]);
    assert_eq!(device.auth_handshake(stray_okay, &key()), Ok(()));
    assert_eq!(sent(&mut device), vec![signature_reply()]);
}

#[test]
fn any_other_command_is_unexpected_during_the_handshake() {
    for command in [MessageCommand::Open, MessageCommand::Sync] {
        let mut device = device(vec![banner()]);
        let first = ADBTransportMessage::new(command, 1, 2, &[]);
        assert_eq!(
            device.auth_handshake(first, &key()),
            Err(RustADBError::UnexpectedCommand { received: command, expected: MessageCommand::Cnxn })
        );
        assert!(sent(&mut device).is_empty());
        assert_eq!(left(&mut device), 1);
    }
}

#[test]
fn an_unknown_kind_of_auth_is_refused() {
    let odd = ADBTransportMessage::new(MessageCommand::Auth, 9, 0, &TOKEN);
    let mut device = device(vec![banner()]);
    assert_eq!(
        device.auth_handshake(odd, &key()),
        Err(RustADBError::ADBRequestFailed(
            "Received AUTH message with unsupported type (9)".to_string()
        ))
    );
    let signature_kind = ADBTransportMessage::new(MessageCommand::Auth, AUTH_SIGNATURE, 0, &TOKEN);
    assert_eq!(
        auth_step(AuthState::AwaitChallenge, &signature_kind, &key()).err(),
        Some(RustADBError::ADBRequestFailed(
            "Received AUTH message with unsupported type (2)".to_string()
        ))
    );
    let large = ADBTransportMessage::new(MessageCommand::Auth, 4_000_000_000, 0, &[]);
    assert_eq!(
        auth_step(AuthState::KeySent, &large, &key()).err(),
        Some(RustADBError::ADBRequestFailed(
            "Received AUTH message with unsupported type (4000000000)".to_string()
        ))
    );
}

#[test]
fn a_token_of_another_length_is_a_conversion_error() {
    let short = ADBTransportMessage::new(MessageCommand::Auth, AUTH_TOKEN, 0, &TOKEN[..19]);
    let mut device = device(vec![banner()]);
    assert_eq!(device.auth_handshake(short, &key()), Err(RustADBError::ConversionError));
    assert!(sent(&mut device).is_empty());
}

#[test]
fn each_step_of_the_authentication() {
    let key = key();
    assert!(matches!(auth_step(AuthState::AwaitChallenge, &banner(), &key), Ok(AuthStep::Ready)));
    assert!(matches!(auth_step(AuthState::KeySent, &banner(), &key), Ok(AuthStep::Ready)));
    match auth_step(AuthState::AwaitChallenge, &token(), &key) {
        Ok(AuthStep::Reply(AuthState::SignatureSent, reply)) => assert_eq!(reply, signature_reply()),
        _ => panic!("a first token is answered with a signature"),
    }
    match auth_step(AuthState::SignatureSent, &token(), &key) {
        Ok(AuthStep::Reply(AuthState::KeySent, reply)) => assert_eq!(reply, public_key_reply()),
        _ => panic!("a second token is answered with the public key"),
    }
    assert!(auth_step(AuthState::KeySent, &token(), &key).is_err());
    let stray = ADBTransportMessage::new(MessageCommand::Write, 1, 2, &[]);
    assert!(matches!(auth_step(AuthState::SignatureSent, &stray, &key), Ok(AuthStep::Ignore)));
}

#[test]
fn a_user_name_that_does_not_fit_a_packet_is_a_conversion_error() {
    let long = ADBRsaKey::new(
        MODULUS.to_vec(),
        PRIVATE_EXPONENT.to_vec(),
        PUBLIC_EXPONENT,
        "u".repeat(MAX_PAYLOAD as usize),
    )
    .unwrap();
    assert_eq!(
        auth_step(AuthState::SignatureSent, &token(), &long).err(),
        Some(RustADBError::ConversionError)
    );
}

#[test]
fn a_timed_out_read_becomes_an_auth_timeout() {
    assert_eq!(auth_read_error(RustADBError::Timeout), RustADBError::AuthTimeout);
    assert_eq!(
        auth_read_error(RustADBError::UsbError("pipe".to_string())),
        RustADBError::UsbError("pipe".to_string())
    );
    assert_eq!(auth_read_error(RustADBError::BadChecksum), RustADBError::BadChecksum);
}

/// A link on which nothing arrives: timed reads run out, other reads fail.
struct Silent;

impl ADBMessageTransport for Silent {
    fn read_message(&mut self) -> Result<ADBTransportMessage, RustADBError> {
        Err(RustADBError::UsbError("pipe".to_string()))
    }

    fn read_message_with_timeout(&mut self, _timeout_secs: u64) -> Result<ADBTransportMessage, RustADBError> {
        Err(RustADBError::Timeout)
    }

    fn write_message(&mut self, _message: ADBTransportMessage) -> Result<(), RustADBError> {
        Ok(())
    }
}

#[test]
fn a_link_that_times_out_ends_the_handshake_with_an_auth_timeout() {
    let mut device = ADBMessageDevice::new(Silent);
    assert_eq!(device.connect(&key()), Err(RustADBError::AuthTimeout));
    assert_eq!(device.auth_handshake(token(), &key()), Err(RustADBError::AuthTimeout));
    assert_eq!(device.auth_handshake(banner(), &key()), Ok(()));
}
