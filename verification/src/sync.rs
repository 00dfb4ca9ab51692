//! Frames of the `sync:` sub-protocol: an 8-byte header made of a four-letter
//! identifier and a little-endian argument, followed by the bytes that the
//! argument counts.

use crate::error::{ErrorView, RustADBError};
use crate::wire::{le_bytes, le_value};
use vstd::prelude::*;
use vstd::slice::slice_subrange;

verus! {

/// Largest chunk of file data that one DATA frame carries (64 KiB).
pub const BUFFER_SIZE: usize = 65536;

/// The identifiers of sync frames.
#[derive(Clone, Copy, Debug, PartialEq, Eq, Structural)]
pub enum MessageSubcommand {
    Stat,
    Send,
    Recv,
    Quit,
    Fail,
    Done,
    Data,
    List,
    Okay,
}

impl MessageSubcommand {
    /// The identifier on the wire: four ASCII letters read as a
    /// little-endian number.
    pub open spec fn code(self) -> u32 {
        match self {
            MessageSubcommand::Stat => 0x54415453,
            MessageSubcommand::Send => 0x444e4553,
            MessageSubcommand::Recv => 0x56434552,
            MessageSubcommand::Quit => 0x54495551,
            MessageSubcommand::Fail => 0x4c494146,
            MessageSubcommand::Done => 0x454e4f44,
            MessageSubcommand::Data => 0x41544144,
            MessageSubcommand::List => 0x5453494c,
            MessageSubcommand::Okay => 0x59414b4f,
        }
    }

    pub fn to_u32(self) -> (code: u32)
        ensures
            code == self.code(),
    {
        match self {
            MessageSubcommand::Stat => 0x54415453,
            MessageSubcommand::Send => 0x444e4553,
            MessageSubcommand::Recv => 0x56434552,
            MessageSubcommand::Quit => 0x54495551,
            MessageSubcommand::Fail => 0x4c494146,
            MessageSubcommand::Done => 0x454e4f44,
            MessageSubcommand::Data => 0x41544144,
            MessageSubcommand::List => 0x5453494c,
            MessageSubcommand::Okay => 0x59414b4f,
        }
    }

    /// The frame header with this identifier and `arg`.
    pub fn with_arg(self, arg: u32) -> (frame: SubcommandWithArg)
        ensures
            frame == (SubcommandWithArg { subcommand: self, arg }),
    {
        SubcommandWithArg { subcommand: self, arg }
    }
}

/// A sync frame header: identifier and argument.
#[derive(Clone, Copy, Debug, PartialEq, Eq, Structural)]
pub struct SubcommandWithArg {
    pub subcommand: MessageSubcommand,
    pub arg: u32,
}

impl SubcommandWithArg {
    /// The eight bytes of the header on the wire.
    pub open spec fn bytes(self) -> Seq<u8> {
        le_bytes(self.subcommand.code()) + le_bytes(self.arg)
    }

    /// Writes the header as it goes on the wire.
    pub fn encode(&self) -> (r: Result<Vec<u8>, RustADBError>)
        ensures
            r matches Ok(bytes) && bytes@ == self.bytes(),
    {
        bincode_serialize_to_vec(self.subcommand.to_u32(), self.arg)
    }
}

/// Calls `bincode::serde::encode_to_vec` with the legacy configuration on a
/// pair of `u32`. That configuration writes integers with a fixed width, least
/// significant byte first, and a tuple as its fields one after the other; the
/// writer is a `Vec`, which takes every byte, so the call does not fail.
#[verifier::external_body]
pub(crate) fn bincode_serialize_to_vec(id: u32, arg: u32) -> (r: Result<Vec<u8>, RustADBError>)
    ensures
        r is Ok,
        r matches Ok(bytes) ==> bytes@ == le_bytes(id) + le_bytes(arg),
{
    bincode::serde::encode_to_vec((id, arg), bincode::config::legacy()).map_err(
        |_e| RustADBError::ConversionError,
    )
}

/// Calls `bincode::serde::decode_from_slice` with the legacy configuration
/// for a triple of `u32`. It reads three fixed-width integers, least
/// significant byte first, from the start of `data`, leaves what follows
/// unread, and fails where `data` ends before the twelfth byte.
#[verifier::external_body]
pub(crate) fn bincode_deserialize_from_slice(data: &[u8]) -> (r: Result<
    AdbStatResponse,
    RustADBError,
>)
    ensures
        r is Ok <==> data@.len() >= 12,
        r matches Ok(stat) ==> stat.file_perm == le_value(data@.subrange(0, 4)) && stat.file_size
            == le_value(data@.subrange(4, 8)) && stat.mod_time == le_value(data@.subrange(8, 12)),
        r matches Err(e) ==> e == RustADBError::ConversionError,
{
    let ((file_perm, file_size, mod_time), _) = bincode::serde::decode_from_slice(
        data,
        bincode::config::legacy(),
    ).map_err(|_e| RustADBError::ConversionError)?;
    Ok(AdbStatResponse { file_perm, file_size, mod_time })
}

/// The text that `String::from_utf8_lossy` makes of `bytes`.
pub uninterp spec fn lossy_text(bytes: Seq<u8>) -> Seq<char>;

/// Calls `String::from_utf8_lossy`, which decodes UTF-8 and puts the
/// replacement character where the bytes are not valid.
#[verifier::external_body]
pub(crate) fn string_from_utf8_lossy(bytes: &[u8]) -> (text: String)
    ensures
        text@ == lossy_text(bytes@),
{
    String::from_utf8_lossy(bytes).into_owned()
}

/// What the device says of a path: permission bits, size and time of last
/// change. A mode of zero means that the path does not exist.
#[derive(Clone, Copy, Debug, PartialEq, Eq, Structural)]
pub struct AdbStatResponse {
    pub file_perm: u32,
    pub file_size: u32,
    pub mod_time: u32,
}

/// The bytes of the message of a FAIL frame: what follows the 8-byte header,
/// as far as the argument counts and the payload reaches.
pub open spec fn fail_message(payload: Seq<u8>) -> Seq<u8> {
    if payload.len() < 8 {
        Seq::empty()
    } else {
        let counted = le_value(payload.subrange(4, 8));
        let end = if 8 + counted <= payload.len() {
            8 + counted
        } else {
            payload.len() as int
        };
        payload.subrange(8, end)
    }
}

/// What the payload that answers a STAT request means: the three numbers
/// after the letters `STAT`; the device's complaint where the payload is a
/// FAIL frame; `ConversionError` for anything else.
pub open spec fn stat_reply(payload: Seq<u8>) -> Result<AdbStatResponse, ErrorView> {
    if payload.len() < 4 {
        Err(ErrorView::ConversionError)
    } else if le_value(payload.subrange(0, 4)) == MessageSubcommand::Fail.code() {
        Err(ErrorView::ADBRequestFailed(lossy_text(fail_message(payload))))
    } else if le_value(payload.subrange(0, 4)) == MessageSubcommand::Stat.code() && payload.len()
        >= 16 {
        Ok(
            AdbStatResponse {
                file_perm: le_value(payload.subrange(4, 8)) as u32,
                file_size: le_value(payload.subrange(8, 12)) as u32,
                mod_time: le_value(payload.subrange(12, 16)) as u32,
            },
        )
    } else {
        Err(ErrorView::ConversionError)
    }
}

/// What the payload that answers a finished SEND means: success for an OKAY
/// frame, the device's complaint for a FAIL frame, `ConversionError` for
/// anything else.
pub open spec fn send_reply(payload: Seq<u8>) -> Result<(), ErrorView> {
    if payload.len() < 4 {
        Err(ErrorView::ConversionError)
    } else if le_value(payload.subrange(0, 4)) == MessageSubcommand::Okay.code() {
        Ok(())
    } else if le_value(payload.subrange(0, 4)) == MessageSubcommand::Fail.code() {
        Err(ErrorView::ADBRequestFailed(lossy_text(fail_message(payload))))
    } else {
        Err(ErrorView::ConversionError)
    }
}

/// Calls `byteorder::LittleEndian::read_u32`, which reads the first four
/// bytes of `buf` as a number, least significant byte first, and panics on a
/// shorter `buf`.
#[verifier::external_body]
pub(crate) fn read_u32_le(buf: &[u8]) -> (x: u32)
    requires
        buf@.len() >= 4,
    ensures
        x == le_value(buf@.subrange(0, 4)),
{
    <byteorder::LittleEndian as byteorder::ByteOrder>::read_u32(buf)
}

/// The complaint that a FAIL frame carries, as text.
pub fn decode_fail_message(payload: &[u8]) -> (text: String)
    ensures
        text@ == lossy_text(fail_message(payload@)),
{
    if payload.len() < 8 {
        let nothing: Vec<u8> = Vec::new();
        assert(nothing@ =~= fail_message(payload@));
        return string_from_utf8_lossy(nothing.as_slice());
    }
    let field = slice_subrange(payload, 4, 8);
    assert(field@.subrange(0, 4) =~= payload@.subrange(4, 8));
    let counted = read_u32_le(field);
    let rest = payload.len() - 8;
    let end = if counted as usize <= rest {
        8 + counted as usize
    } else {
        payload.len()
    };
    string_from_utf8_lossy(slice_subrange(payload, 8, end))
}

/// Reads the payload that answers a STAT request.
pub fn decode_stat_reply(payload: &[u8]) -> (r: Result<AdbStatResponse, RustADBError>)
    ensures
        r matches Ok(stat) ==> stat_reply(payload@) == Ok::<AdbStatResponse, ErrorView>(stat),
        r matches Err(e) ==> stat_reply(payload@) == Err::<AdbStatResponse, ErrorView>(e@),
{
    if payload.len() < 4 {
        return Err(RustADBError::ConversionError);
    }
    let tag = read_u32_le(payload);
    if tag == MessageSubcommand::Fail.to_u32() {
        return Err(RustADBError::ADBRequestFailed(decode_fail_message(payload)));
    }
    if tag != MessageSubcommand::Stat.to_u32() {
        return Err(RustADBError::ConversionError);
    }
    // The interesting part starts right after the four letters.
    let body = slice_subrange(payload, 4, payload.len());
    assert(payload@.len() >= 16 ==> body@.subrange(0, 4) =~= payload@.subrange(4, 8)
        && body@.subrange(4, 8) =~= payload@.subrange(8, 12) && body@.subrange(8, 12)
        =~= payload@.subrange(12, 16));
    bincode_deserialize_from_slice(body)
}

/// Reads the payload that answers a finished SEND.
pub fn decode_send_reply(payload: &[u8]) -> (r: Result<(), RustADBError>)
    ensures
        r is Ok ==> send_reply(payload@) is Ok,
        r matches Err(e) ==> send_reply(payload@) == Err::<(), ErrorView>(e@),
{
    if payload.len() < 4 {
        return Err(RustADBError::ConversionError);
    }
    let tag = read_u32_le(payload);
    if tag == MessageSubcommand::Okay.to_u32() {
        Ok(())
    } else if tag == MessageSubcommand::Fail.to_u32() {
        Err(RustADBError::ADBRequestFailed(decode_fail_message(payload)))
    } else {
        Err(RustADBError::ConversionError)
    }
}

} // verus!
