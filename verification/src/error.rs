//! Errors surfaced by the transport, the session layers and the sync driver.

use crate::device::command_text;
use crate::message::MessageCommand;
use crate::session::command_name;
use crate::text::{decimal, decimal_text};
use vstd::prelude::*;

verus! {

/// What can go wrong while talking to a device.
#[derive(Debug, Clone, PartialEq, Eq)]
pub enum RustADBError {
    /// A packet header whose magic is not the complement of its command, whose
    /// command is not known, or whose payload length is above the limit.
    InvalidHeader,
    /// The payload bytes do not add up to the checksum of the header.
    BadChecksum,
    /// The device sent nothing within the time allowed during authentication.
    AuthTimeout,
    /// A timed read of the transport expired.
    Timeout,
    /// A command arrived where another one was due.
    UnexpectedCommand { received: MessageCommand, expected: MessageCommand },
    /// The device answered an OPEN with CLSE.
    StreamRefused,
    /// The device reported a failure, or the session was used out of order.
    ADBRequestFailed(String),
    /// Bytes or numbers that could not be converted into what was expected.
    ConversionError,
    /// A transfer on the USB link failed.
    UsbError(String),
    /// Reading or writing local data failed.
    IOError(String),
}

/// Whether an exchange ended in a failure of the link itself.
pub open spec fn link_failed<T>(r: Result<T, RustADBError>) -> bool {
    r matches Err(e) && e@.link_failure()
}

/// Whether a step of a sync request ended in a failure of the link itself.
pub open spec fn sync_link_failed<T>(r: Result<T, SyncError>) -> bool {
    r matches Err(SyncError::Adb(e)) && e@.link_failure()
}

/// What can go wrong with a whole sync request.
#[derive(Debug, Clone, PartialEq, Eq)]
pub enum SyncError {
    InvalidLocalPath(String),
    InvalidRemotePath(String),
    DeviceNotFound,
    /// Vendor and product identifiers of every candidate that was found.
    MultipleDevices(Vec<(u16, u16)>),
    Usb(String),
    Adb(RustADBError),
    Io(String),
}

/// An error as a mathematical value: texts are sequences of characters.
pub enum ErrorView {
    InvalidHeader,
    BadChecksum,
    AuthTimeout,
    Timeout,
    UnexpectedCommand { received: MessageCommand, expected: MessageCommand },
    StreamRefused,
    ADBRequestFailed(Seq<char>),
    ConversionError,
    UsbError(Seq<char>),
    IOError(Seq<char>),
}

impl View for RustADBError {
    type V = ErrorView;

    open spec fn view(&self) -> ErrorView {
        match self {
            RustADBError::InvalidHeader => ErrorView::InvalidHeader,
            RustADBError::BadChecksum => ErrorView::BadChecksum,
            RustADBError::AuthTimeout => ErrorView::AuthTimeout,
            RustADBError::Timeout => ErrorView::Timeout,
            RustADBError::UnexpectedCommand { received, expected } => ErrorView::UnexpectedCommand {
                received: *received,
                expected: *expected,
            },
            RustADBError::StreamRefused => ErrorView::StreamRefused,
            RustADBError::ADBRequestFailed(text) => ErrorView::ADBRequestFailed(text@),
            RustADBError::ConversionError => ErrorView::ConversionError,
            RustADBError::UsbError(text) => ErrorView::UsbError(text@),
            RustADBError::IOError(text) => ErrorView::IOError(text@),
        }
    }
}

impl From<RustADBError> for SyncError {
    fn from(value: RustADBError) -> (error: Self) {
        SyncError::Adb(value)
    }
}

impl vstd::std_specs::convert::FromSpecImpl<RustADBError> for SyncError {
    open spec fn obeys_from_spec() -> bool {
        true
    }

    open spec fn from_spec(value: RustADBError) -> Self {
        SyncError::Adb(value)
    }
}

/// A [`SyncError`] as a mathematical value.
pub enum SyncErrorView {
    InvalidLocalPath(Seq<char>),
    InvalidRemotePath(Seq<char>),
    DeviceNotFound,
    MultipleDevices(Seq<(u16, u16)>),
    Usb(Seq<char>),
    Adb(ErrorView),
    Io(Seq<char>),
}

impl View for SyncError {
    type V = SyncErrorView;

    open spec fn view(&self) -> SyncErrorView {
        match self {
            SyncError::InvalidLocalPath(text) => SyncErrorView::InvalidLocalPath(text@),
            SyncError::InvalidRemotePath(text) => SyncErrorView::InvalidRemotePath(text@),
            SyncError::DeviceNotFound => SyncErrorView::DeviceNotFound,
            SyncError::MultipleDevices(devices) => SyncErrorView::MultipleDevices(devices@),
            SyncError::Usb(text) => SyncErrorView::Usb(text@),
            SyncError::Adb(e) => SyncErrorView::Adb(e@),
            SyncError::Io(text) => SyncErrorView::Io(text@),
        }
    }
}

impl ErrorView {
    /// Whether the error is a failure of the link itself: a read that timed
    /// out, a transfer that failed, or bytes that make no packet. Every other
    /// error is a verdict on the packets that the device sent or on what the
    /// caller asked for.
    pub open spec fn link_failure(self) -> bool {
        self is Timeout || self is AuthTimeout || self is UsbError || self is InvalidHeader
            || self is BadChecksum
    }

    /// The error in words.
    pub open spec fn text(self) -> Seq<char> {
        match self {
            ErrorView::InvalidHeader => "Invalid packet header"@,
            ErrorView::BadChecksum => "Payload does not match its checksum"@,
            ErrorView::AuthTimeout => "Timed out waiting for the device during authentication"@,
            ErrorView::Timeout => "Timed out waiting for the device"@,
            ErrorView::UnexpectedCommand { received, expected } => "Wrong response received: "@
                + command_name(received) + " (expected "@ + command_name(expected) + ")"@,
            ErrorView::StreamRefused => "The device refused to open the stream"@,
            ErrorView::ADBRequestFailed(text) => "ADB request failed - "@ + text,
            ErrorView::ConversionError => "Cannot convert the data"@,
            ErrorView::UsbError(text) => "USB error: "@ + text,
            ErrorView::IOError(text) => "I/O error: "@ + text,
        }
    }
}

impl RustADBError {
    /// Writes the error in words: see [`ErrorView::text`].
    pub fn message(&self) -> (text: String)
        ensures
            text@ == self@.text(),
    {
        match self {
            RustADBError::InvalidHeader => "Invalid packet header".to_owned(),
            RustADBError::BadChecksum => "Payload does not match its checksum".to_owned(),
            RustADBError::AuthTimeout => "Timed out waiting for the device during authentication".to_owned(),
            RustADBError::Timeout => "Timed out waiting for the device".to_owned(),
            RustADBError::UnexpectedCommand { received, expected } => {
                let mut text = "Wrong response received: ".to_owned();
                text.append(command_text(*received));
                text.append(" (expected ");
                text.append(command_text(*expected));
                text.append(")");
                text
            },
            RustADBError::StreamRefused => "The device refused to open the stream".to_owned(),
            RustADBError::ADBRequestFailed(message) => {
                let mut text = "ADB request failed - ".to_owned();
                text.append(message.as_str());
                text
            },
            RustADBError::ConversionError => "Cannot convert the data".to_owned(),
            RustADBError::UsbError(message) => {
                let mut text = "USB error: ".to_owned();
                text.append(message.as_str());
                text
            },
            RustADBError::IOError(message) => {
                let mut text = "I/O error: ".to_owned();
                text.append(message.as_str());
                text
            },
        }
    }
}

/// A list of pairs of identifiers as text: `(1, 2), (3, 4)`.
pub open spec fn pairs_text(pairs: Seq<(u16, u16)>) -> Seq<char>
    decreases pairs.len(),
{
    if pairs.len() == 0 {
        Seq::empty()
    } else {
        let front = pairs_text(pairs.drop_last());
        let sep = if pairs.len() == 1 {
            Seq::<char>::empty()
        } else {
            ", "@
        };
        front + sep + "("@ + decimal_text(pairs.last().0 as nat) + ", "@ + decimal_text(
            pairs.last().1 as nat,
        ) + ")"@
    }
}

impl SyncErrorView {
    /// The error in words.
    pub open spec fn text(self) -> Seq<char> {
        match self {
            SyncErrorView::InvalidLocalPath(text) => text,
            SyncErrorView::InvalidRemotePath(text) => text,
            SyncErrorView::DeviceNotFound => "No Android device detected over USB. Ensure USB debugging is enabled."@,
            SyncErrorView::MultipleDevices(devices) => "Multiple Android devices detected (["@
                + pairs_text(devices) + "]). Connect only one device."@,
            SyncErrorView::Usb(text) => "USB error: "@ + text,
            SyncErrorView::Adb(e) => "ADB error: "@ + e.text(),
            SyncErrorView::Io(text) => "File system error: "@ + text,
        }
    }
}

impl SyncError {
    /// Writes the error in words: see [`SyncErrorView::text`].
    pub fn message(&self) -> (text: String)
        ensures
            text@ == self@.text(),
    {
        match self {
            SyncError::InvalidLocalPath(message) => message.clone(),
            SyncError::InvalidRemotePath(message) => message.clone(),
            SyncError::DeviceNotFound => "No Android device detected over USB. Ensure USB debugging is enabled.".to_owned(),
            SyncError::MultipleDevices(devices) => {
                let mut text = "Multiple Android devices detected ([".to_owned();
                let mut i: usize = 0;
                let ghost head = text@;
                assert(pairs_text(devices@.take(0)) =~= Seq::<char>::empty());
                while i < devices.len()
                    invariant
                        i <= devices@.len(),
                        text@ == head + pairs_text(devices@.take(i as int)),
                    decreases devices@.len() - i,
                {
                    if i > 0 {
                        text.append(", ");
                    }
                    text.append("(");
                    text.append(decimal(devices[i].0 as u32).as_str());
                    text.append(", ");
                    text.append(decimal(devices[i].1 as u32).as_str());
                    text.append(")");
                    proof {
                        assert(devices@.take(i + 1).drop_last() =~= devices@.take(i as int));
                        assert(devices@.take(i + 1).last() == devices@[i as int]);
                        reveal_strlit("");
                        assert(text@ =~= head + pairs_text(devices@.take(i + 1)));
                    }
                    i = i + 1;
                }
                assert(devices@.take(i as int) =~= devices@);
                text.append("]). Connect only one device.");
                text
            },
            SyncError::Usb(message) => {
                let mut text = "USB error: ".to_owned();
                text.append(message.as_str());
                text
            },
            SyncError::Adb(e) => {
                let mut text = "ADB error: ".to_owned();
                text.append(e.message().as_str());
                text
            },
            SyncError::Io(message) => {
                let mut text = "File system error: ".to_owned();
                text.append(message.as_str());
                text
            },
        }
    }
}

} // verus!
