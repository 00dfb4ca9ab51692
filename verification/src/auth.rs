//! The authentication that follows CNXN: what the host answers to each packet
//! of the device until the device accepts the connection.

use crate::error::{ErrorView, RustADBError};
use crate::message::{
    ADBTransportMessage, AUTH_RSAPUBLICKEY, AUTH_SIGNATURE, AUTH_TOKEN, MAX_PAYLOAD,
    MessageCommand, MessageView,
};
use crate::rsa::ADBRsaKey;
use crate::text::{decimal, decimal_text};
use vstd::prelude::*;
use vstd::utf8::encode_utf8;

verus! {

/// Seconds that the host waits for each packet during authentication.
pub const AUTH_TIMEOUT_SECS: u64 = 10;

/// How far the authentication has come.
#[derive(Clone, Copy, Debug, PartialEq, Eq, Structural)]
pub enum AuthState {
    /// CNXN was sent and nothing was answered yet.
    AwaitChallenge,
    /// A token was answered with a signature.
    SignatureSent,
    /// The public key was delivered.
    KeySent,
}

/// What the host does with one packet of the device.
pub enum AuthStep {
    /// The device accepted the connection.
    Ready,
    /// The packet is answered, and the authentication goes on in the state
    /// given.
    Reply(AuthState, ADBTransportMessage),
    /// The packet is a stray of an earlier session and is passed over.
    Ignore,
}

/// [`AuthStep`] as a mathematical value, with the failure as a fourth case.
pub enum AuthStepView {
    Ready,
    Reply(AuthState, MessageView),
    Ignore,
    Fail(ErrorView),
}

impl View for AuthStep {
    type V = AuthStepView;

    open spec fn view(&self) -> AuthStepView {
        match self {
            AuthStep::Ready => AuthStepView::Ready,
            AuthStep::Reply(state, message) => AuthStepView::Reply(*state, message@),
            AuthStep::Ignore => AuthStepView::Ignore,
        }
    }
}

/// The complaint about an AUTH packet of a kind that the host cannot answer.
pub open spec fn unsupported_auth_text(kind: u32) -> Seq<char> {
    "Received AUTH message with unsupported type ("@ + decimal_text(kind as nat) + ")"@
}

/// The complaint about a device that asks for a third proof.
pub open spec fn rejected_text() -> Seq<char> {
    "Device rejected both the signature and the public key"@
}

/// The payload that delivers the public key: its text, closed by a zero byte.
pub open spec fn public_key_payload(key: &ADBRsaKey) -> Seq<u8> {
    encode_utf8(key.public_key_text()).push(0u8)
}

/// The answer that delivers the public key, or `ConversionError` where the
/// key with the user's identifier does not fit a packet.
pub open spec fn public_key_reply(key: &ADBRsaKey) -> AuthStepView {
    if public_key_payload(key).len() <= MAX_PAYLOAD {
        AuthStepView::Reply(
            AuthState::KeySent,
            MessageView::build(MessageCommand::Auth, AUTH_RSAPUBLICKEY, 0, public_key_payload(key)),
        )
    } else {
        AuthStepView::Fail(ErrorView::ConversionError)
    }
}

/// What the host does in `state` with the packet `m`.
///
/// CNXN ends the authentication. A token is answered with its signature the
/// first time and with the public key the second time; a third token means
/// that both were refused. A request for the public key is answered with it.
/// Any other kind of AUTH is refused. Stray OKAY, CLSE and WRTE are passed
/// over, and any other command is unexpected.
pub open spec fn auth_step_of(state: AuthState, m: MessageView, key: &ADBRsaKey) -> AuthStepView {
    match m.header.command {
        MessageCommand::Cnxn => AuthStepView::Ready,
        MessageCommand::Auth => {
            if m.header.arg0 == AUTH_TOKEN {
                match state {
                    AuthState::AwaitChallenge => {
                        if m.payload.len() == 20 {
                            AuthStepView::Reply(
                                AuthState::SignatureSent,
                                MessageView::build(
                                    MessageCommand::Auth,
                                    AUTH_SIGNATURE,
                                    0,
                                    key.signature(m.payload),
                                ),
                            )
                        } else {
                            AuthStepView::Fail(ErrorView::ConversionError)
                        }
                    },
                    AuthState::SignatureSent => public_key_reply(key),
                    AuthState::KeySent => AuthStepView::Fail(
                        ErrorView::ADBRequestFailed(rejected_text()),
                    ),
                }
            } else if m.header.arg0 == AUTH_RSAPUBLICKEY {
                public_key_reply(key)
            } else {
                AuthStepView::Fail(
                    ErrorView::ADBRequestFailed(unsupported_auth_text(m.header.arg0)),
                )
            }
        },
        MessageCommand::Clse | MessageCommand::Okay | MessageCommand::Write => AuthStepView::Ignore,
        other => AuthStepView::Fail(
            ErrorView::UnexpectedCommand { received: other, expected: MessageCommand::Cnxn },
        ),
    }
}

/// Builds the answer that delivers the public key.
fn deliver_public_key(key: &ADBRsaKey) -> (r: Result<AuthStep, RustADBError>)
    ensures
        match r {
            Ok(step) => public_key_reply(key) == step@,
            Err(e) => public_key_reply(key) == AuthStepView::Fail(e@),
        },
{
    let text = key.android_pubkey_encode()?;
    let mut pubkey = text.as_str().as_bytes_vec();
    if pubkey.len() >= MAX_PAYLOAD as usize {
        return Err(RustADBError::ConversionError);
    }
    pubkey.push(0u8);
    Ok(
        AuthStep::Reply(
            AuthState::KeySent,
            ADBTransportMessage::new(MessageCommand::Auth, AUTH_RSAPUBLICKEY, 0, pubkey.as_slice()),
        ),
    )
}

/// Decides what to do in `state` with the packet `message`: see
/// [`auth_step_of`].
pub fn auth_step(state: AuthState, message: &ADBTransportMessage, key: &ADBRsaKey) -> (r: Result<
    AuthStep,
    RustADBError,
>)
    ensures
        match r {
            Ok(step) => auth_step_of(state, message@, key) == step@,
            Err(e) => auth_step_of(state, message@, key) == AuthStepView::Fail(e@),
        },
{
    match message.header().command() {
        MessageCommand::Cnxn => Ok(AuthStep::Ready),
        MessageCommand::Auth => {
            let kind = message.header().arg0();
            if kind == AUTH_TOKEN {
                match state {
                    AuthState::AwaitChallenge => {
                        let sign = key.sign(message.payload().as_slice())?;
                        Ok(
                            AuthStep::Reply(
                                AuthState::SignatureSent,
                                ADBTransportMessage::new(
                                    MessageCommand::Auth,
                                    AUTH_SIGNATURE,
                                    0,
                                    sign.as_slice(),
                                ),
                            ),
                        )
                    },
                    AuthState::SignatureSent => deliver_public_key(key),
                    AuthState::KeySent => Err(
                        RustADBError::ADBRequestFailed(
                            "Device rejected both the signature and the public key".to_owned(),
                        ),
                    ),
                }
            } else if kind == AUTH_RSAPUBLICKEY {
                deliver_public_key(key)
            } else {
                let mut text = "Received AUTH message with unsupported type (".to_owned();
                text.append(decimal(kind).as_str());
                text.append(")");
                Err(RustADBError::ADBRequestFailed(text))
            }
        },
        MessageCommand::Clse => Ok(AuthStep::Ignore),
        MessageCommand::Okay => Ok(AuthStep::Ignore),
        MessageCommand::Write => Ok(AuthStep::Ignore),
        other => Err(
            RustADBError::UnexpectedCommand { received: other, expected: MessageCommand::Cnxn },
        ),
    }
}

} // verus!
