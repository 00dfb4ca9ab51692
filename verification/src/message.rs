//! The ADB packet: a 24-byte little-endian header followed by the payload.

use crate::error::RustADBError;
use crate::wire::{get_u32_le, le_bytes, le_value, lemma_le_value_of_bytes, put_u32_le};
use vstd::prelude::*;
use vstd::slice::{slice_subrange, slice_to_vec};

verus! {

/// Largest payload a packet may carry (256 KiB).
pub const MAX_PAYLOAD: u32 = 262144;

/// Length of the packet header in bytes.
pub const HEADER_LENGTH: usize = 24;

/// Protocol version announced in CNXN.
pub const A_VERSION: u32 = 0x01000001;

/// AUTH subtype: the payload is a token to sign.
pub const AUTH_TOKEN: u32 = 1;

/// AUTH subtype: the payload is a signature.
pub const AUTH_SIGNATURE: u32 = 2;

/// AUTH subtype: the payload is a public key.
pub const AUTH_RSAPUBLICKEY: u32 = 3;

/// The commands of the packet layer.
#[derive(Clone, Copy, Debug, PartialEq, Eq, Structural)]
pub enum MessageCommand {
    Cnxn,
    Clse,
    Auth,
    Open,
    Write,
    Okay,
    Sync,
}

impl MessageCommand {
    /// The command as it stands on the wire: four ASCII letters read as a
    /// little-endian number.
    pub open spec fn code(self) -> u32 {
        match self {
            MessageCommand::Cnxn => 0x4e584e43,
            MessageCommand::Clse => 0x45534c43,
            MessageCommand::Auth => 0x48545541,
            MessageCommand::Open => 0x4e45504f,
            MessageCommand::Write => 0x45545257,
            MessageCommand::Okay => 0x59414b4f,
            MessageCommand::Sync => 0x434e5953,
        }
    }

    /// The command that a wire code stands for, if any.
    pub open spec fn of_code(code: u32) -> Option<MessageCommand> {
        if code == 0x4e584e43 {
            Some(MessageCommand::Cnxn)
        } else if code == 0x45534c43 {
            Some(MessageCommand::Clse)
        } else if code == 0x48545541 {
            Some(MessageCommand::Auth)
        } else if code == 0x4e45504f {
            Some(MessageCommand::Open)
        } else if code == 0x45545257 {
            Some(MessageCommand::Write)
        } else if code == 0x59414b4f {
            Some(MessageCommand::Okay)
        } else if code == 0x434e5953 {
            Some(MessageCommand::Sync)
        } else {
            None
        }
    }

    pub fn to_u32(self) -> (code: u32)
        ensures
            code == self.code(),
            MessageCommand::of_code(code) == Some(self),
    {
        match self {
            MessageCommand::Cnxn => 0x4e584e43,
            MessageCommand::Clse => 0x45534c43,
            MessageCommand::Auth => 0x48545541,
            MessageCommand::Open => 0x4e45504f,
            MessageCommand::Write => 0x45545257,
            MessageCommand::Okay => 0x59414b4f,
            MessageCommand::Sync => 0x434e5953,
        }
    }

    pub fn from_u32(code: u32) -> (command: Option<MessageCommand>)
        ensures
            command == MessageCommand::of_code(code),
            command matches Some(c) ==> c.code() == code,
    {
        if code == 0x4e584e43 {
            Some(MessageCommand::Cnxn)
        } else if code == 0x45534c43 {
            Some(MessageCommand::Clse)
        } else if code == 0x48545541 {
            Some(MessageCommand::Auth)
        } else if code == 0x4e45504f {
            Some(MessageCommand::Open)
        } else if code == 0x45545257 {
            Some(MessageCommand::Write)
        } else if code == 0x59414b4f {
            Some(MessageCommand::Okay)
        } else if code == 0x434e5953 {
            Some(MessageCommand::Sync)
        } else {
            None
        }
    }
}

/// The sum of the bytes of `s`.
pub open spec fn byte_sum(s: Seq<u8>) -> nat
    decreases s.len(),
{
    if s.len() == 0 {
        0
    } else {
        byte_sum(s.drop_last()) + s.last() as nat
    }
}

/// A sum of bytes is at most 255 times their number.
pub proof fn lemma_byte_sum_bound(s: Seq<u8>)
    ensures
        byte_sum(s) <= 255 * s.len(),
    decreases s.len(),
{
    if s.len() > 0 {
        lemma_byte_sum_bound(s.drop_last());
    }
}

/// Replacing one byte moves the sum by the difference of the two bytes.
pub proof fn lemma_byte_sum_update(s: Seq<u8>, i: int, b: u8)
    requires
        0 <= i < s.len(),
    ensures
        byte_sum(s.update(i, b)) == byte_sum(s) - s[i] as nat + b as nat,
    decreases s.len(),
{
    let t = s.update(i, b);
    if i == s.len() - 1 {
        assert(t.drop_last() =~= s.drop_last());
    } else {
        lemma_byte_sum_update(s.drop_last(), i, b);
        assert(t.drop_last() =~= s.drop_last().update(i, b));
    }
}

/// The checksum of a payload: the sum of its bytes.
pub fn checksum(data: &[u8]) -> (sum: u32)
    requires
        data@.len() <= MAX_PAYLOAD,
    ensures
        sum == byte_sum(data@),
{
    let mut sum: u32 = 0;
    let mut i: usize = 0;
    while i < data.len()
        invariant
            i <= data@.len() <= MAX_PAYLOAD,
            sum == byte_sum(data@.take(i as int)),
            sum <= 255 * i,
        decreases data@.len() - i,
    {
        assert(data@.take(i + 1).drop_last() =~= data@.take(i as int));
        sum = sum + data[i] as u32;
        i = i + 1;
    }
    assert(data@.take(i as int) =~= data@);
    sum
}

/// The six fields of a packet header.
#[derive(Clone, Copy, Debug, PartialEq, Eq, Structural)]
pub struct ADBTransportMessageHeader {
    pub command: MessageCommand,
    pub arg0: u32,
    pub arg1: u32,
    pub data_length: u32,
    pub data_crc32: u32,
    pub magic: u32,
}

impl ADBTransportMessageHeader {
    /// The magic is the bitwise complement of the command and the payload is
    /// within the limit.
    pub open spec fn wf(self) -> bool {
        &&& self.magic == !self.command.code()
        &&& self.data_length <= MAX_PAYLOAD
    }

    /// The 24 bytes of the header on the wire.
    pub open spec fn bytes(self) -> Seq<u8> {
        le_bytes(self.command.code()) + le_bytes(self.arg0) + le_bytes(self.arg1) + le_bytes(
            self.data_length,
        ) + le_bytes(self.data_crc32) + le_bytes(self.magic)
    }

    /// The header that announces `data` under `command`.
    pub open spec fn announcing(
        command: MessageCommand,
        arg0: u32,
        arg1: u32,
        data: Seq<u8>,
    ) -> Self {
        ADBTransportMessageHeader {
            command,
            arg0,
            arg1,
            data_length: data.len() as u32,
            data_crc32: byte_sum(data) as u32,
            magic: !command.code(),
        }
    }

    /// What reading a header from `bytes` gives: the header, or
    /// `ConversionError` where there are not exactly 24 bytes, or
    /// `InvalidHeader` where the fields do not make a header.
    pub open spec fn parse(bytes: Seq<u8>) -> Result<Self, RustADBError> {
        if bytes.len() != 24 {
            Err(RustADBError::ConversionError)
        } else {
            let code = le_value(bytes.subrange(0, 4)) as u32;
            let length = le_value(bytes.subrange(12, 16)) as u32;
            let magic = le_value(bytes.subrange(20, 24)) as u32;
            match MessageCommand::of_code(code) {
                Some(command) if magic == !code && length <= MAX_PAYLOAD => Ok(
                    ADBTransportMessageHeader {
                        command,
                        arg0: le_value(bytes.subrange(4, 8)) as u32,
                        arg1: le_value(bytes.subrange(8, 12)) as u32,
                        data_length: length,
                        data_crc32: le_value(bytes.subrange(16, 20)) as u32,
                        magic,
                    },
                ),
                _ => Err(RustADBError::InvalidHeader),
            }
        }
    }

    pub fn new(command: MessageCommand, arg0: u32, arg1: u32, data: &[u8]) -> (header: Self)
        requires
            data@.len() <= MAX_PAYLOAD,
        ensures
            header == Self::announcing(command, arg0, arg1, data@),
            header.wf(),
    {
        let code = command.to_u32();
        proof {
            lemma_byte_sum_bound(data@);
        }
        ADBTransportMessageHeader {
            command,
            arg0,
            arg1,
            data_length: data.len() as u32,
            data_crc32: checksum(data),
            magic: !code,
        }
    }

    pub fn command(&self) -> (command: MessageCommand)
        ensures
            command == self.command,
    {
        self.command
    }

    pub fn arg0(&self) -> (arg0: u32)
        ensures
            arg0 == self.arg0,
    {
        self.arg0
    }

    pub fn arg1(&self) -> (arg1: u32)
        ensures
            arg1 == self.arg1,
    {
        self.arg1
    }

    pub fn data_length(&self) -> (length: u32)
        ensures
            length == self.data_length,
    {
        self.data_length
    }

    pub fn data_crc32(&self) -> (sum: u32)
        ensures
            sum == self.data_crc32,
    {
        self.data_crc32
    }

    pub fn magic(&self) -> (magic: u32)
        ensures
            magic == self.magic,
    {
        self.magic
    }

    /// Writes the header as it goes on the wire.
    pub fn encode(&self) -> (bytes: Vec<u8>)
        ensures
            bytes@ == self.bytes(),
            bytes@.len() == 24,
    {
        let mut bytes: Vec<u8> = Vec::new();
        put_u32_le(&mut bytes, self.command.to_u32());
        put_u32_le(&mut bytes, self.arg0);
        put_u32_le(&mut bytes, self.arg1);
        put_u32_le(&mut bytes, self.data_length);
        put_u32_le(&mut bytes, self.data_crc32);
        put_u32_le(&mut bytes, self.magic);
        bytes
    }

    /// Reads a header from the 24 bytes that start a packet.
    pub fn decode(bytes: &[u8]) -> (r: Result<Self, RustADBError>)
        ensures
            r == Self::parse(bytes@),
            r matches Ok(header) ==> header.wf(),
    {
        if bytes.len() != HEADER_LENGTH {
            return Err(RustADBError::ConversionError);
        }
        let code = get_u32_le(bytes, 0);
        let arg0 = get_u32_le(bytes, 4);
        let arg1 = get_u32_le(bytes, 8);
        let data_length = get_u32_le(bytes, 12);
        let data_crc32 = get_u32_le(bytes, 16);
        let magic = get_u32_le(bytes, 20);
        match MessageCommand::from_u32(code) {
            Some(command) => {
                if magic == !code && data_length <= MAX_PAYLOAD {
                    Ok(ADBTransportMessageHeader { command, arg0, arg1, data_length, data_crc32, magic })
                } else {
                    Err(RustADBError::InvalidHeader)
                }
            },
            None => Err(RustADBError::InvalidHeader),
        }
    }
}

/// A packet as a mathematical value: its header and its payload.
pub struct MessageView {
    pub header: ADBTransportMessageHeader,
    pub payload: Seq<u8>,
}

impl MessageView {
    /// The header is well formed and announces the length of the payload;
    /// unless the command is AUTH, it carries the sum of the payload too.
    pub open spec fn wf(self) -> bool {
        &&& self.header.wf()
        &&& self.header.data_length == self.payload.len()
        &&& self.header.command != MessageCommand::Auth ==> self.header.data_crc32 == byte_sum(
            self.payload,
        )
    }

    /// The packet that `ADBTransportMessage::new` builds.
    pub open spec fn build(
        command: MessageCommand,
        arg0: u32,
        arg1: u32,
        payload: Seq<u8>,
    ) -> Self {
        MessageView {
            header: ADBTransportMessageHeader::announcing(command, arg0, arg1, payload),
            payload,
        }
    }

    /// The packet on the wire: header, then payload.
    pub open spec fn bytes(self) -> Seq<u8> {
        self.header.bytes() + self.payload
    }

    /// What decoding `bytes` gives. Fewer than 24 bytes, or a payload that
    /// is not as long as the header says, is a `ConversionError`; a header
    /// that does not parse is an `InvalidHeader`; a payload that does not
    /// add up to the checksum is a `BadChecksum`, unless the command is AUTH.
    pub open spec fn parse(bytes: Seq<u8>) -> Result<Self, RustADBError> {
        if bytes.len() < 24 {
            Err(RustADBError::ConversionError)
        } else {
            match ADBTransportMessageHeader::parse(bytes.take(24)) {
                Err(e) => Err(e),
                Ok(header) => {
                    let payload = bytes.skip(24);
                    if payload.len() != header.data_length {
                        Err(RustADBError::ConversionError)
                    } else if header.command != MessageCommand::Auth && header.data_crc32
                        != byte_sum(payload) {
                        Err(RustADBError::BadChecksum)
                    } else {
                        Ok(MessageView { header, payload })
                    }
                },
            }
        }
    }
}

/// A packet: a header and the payload it announces.
#[derive(Debug, PartialEq, Eq)]
pub struct ADBTransportMessage {
    header: ADBTransportMessageHeader,
    payload: Vec<u8>,
}

impl View for ADBTransportMessage {
    type V = MessageView;

    closed spec fn view(&self) -> MessageView {
        MessageView { header: self.header, payload: self.payload@ }
    }
}

impl ADBTransportMessage {
    /// Every packet is well formed, see [`MessageView::wf`].
    #[verifier::type_invariant]
    pub open spec fn wf(&self) -> bool {
        self@.wf()
    }

    /// Builds the packet that carries `data` under `command`.
    pub fn new(command: MessageCommand, arg0: u32, arg1: u32, data: &[u8]) -> (message: Self)
        requires
            data@.len() <= MAX_PAYLOAD,
        ensures
            message@ == MessageView::build(command, arg0, arg1, data@),
            message.wf(),
    {
        let header = ADBTransportMessageHeader::new(command, arg0, arg1, data);
        let payload = slice_to_vec(data);
        proof {
            lemma_byte_sum_bound(data@);
        }
        ADBTransportMessage { header, payload }
    }

    /// Puts a header read from the wire together with the payload read after
    /// it: `InvalidHeader` where the header is not well formed,
    /// `ConversionError` where the lengths disagree, `BadChecksum` where the
    /// payload does not add up to the checksum and the command is not AUTH.
    pub fn from_header_and_payload(
        header: ADBTransportMessageHeader,
        payload: Vec<u8>,
    ) -> (r: Result<
        Self,
        RustADBError,
    >)
        ensures
            r matches Ok(message) ==> message@ == (MessageView { header, payload: payload@ })
                && message.wf(),
            r is Ok <==> (MessageView { header, payload: payload@ }).wf(),
            r matches Err(e) ==> e == (if !header.wf() {
                RustADBError::InvalidHeader
            } else if payload@.len() != header.data_length {
                RustADBError::ConversionError
            } else {
                RustADBError::BadChecksum
            }),
    {
        if header.magic != !header.command.to_u32() || header.data_length > MAX_PAYLOAD {
            return Err(RustADBError::InvalidHeader);
        }
        if payload.len() != header.data_length as usize {
            return Err(RustADBError::ConversionError);
        }
        match header.command {
            MessageCommand::Auth => {},
            _ => {
                if checksum(payload.as_slice()) != header.data_crc32 {
                    return Err(RustADBError::BadChecksum);
                }
            },
        }
        Ok(ADBTransportMessage { header, payload })
    }

    /// A second packet with the same header and payload.
    pub fn duplicate(&self) -> (copy: Self)
        ensures
            copy@ == self@,
    {
        proof {
            use_type_invariant(self);
        }
        ADBTransportMessage { header: self.header, payload: slice_to_vec(self.payload.as_slice()) }
    }

    pub fn header(&self) -> (header: &ADBTransportMessageHeader)
        ensures
            *header == self@.header,
    {
        &self.header
    }

    pub fn payload(&self) -> (payload: &Vec<u8>)
        ensures
            payload@ == self@.payload,
    {
        &self.payload
    }

    pub fn into_payload(self) -> (payload: Vec<u8>)
        ensures
            payload@ == self@.payload,
    {
        self.payload
    }

    /// Writes the packet as it goes on the wire.
    pub fn encode(&self) -> (bytes: Vec<u8>)
        ensures
            bytes@ == self@.bytes(),
    {
        let mut bytes = self.header.encode();
        bytes.extend_from_slice(self.payload.as_slice());
        bytes
    }

    /// Reads a packet from `bytes`, which hold one header and its payload.
    pub fn decode(bytes: &[u8]) -> (r: Result<Self, RustADBError>)
        ensures
            r matches Ok(message) ==> MessageView::parse(bytes@) == Ok::<MessageView, RustADBError>(message@)
                && message.wf(),
            r matches Err(e) ==> MessageView::parse(bytes@) == Err::<MessageView, RustADBError>(e),
    {
        if bytes.len() < HEADER_LENGTH {
            return Err(RustADBError::ConversionError);
        }
        let head = slice_subrange(bytes, 0, HEADER_LENGTH);
        assert(head@ =~= bytes@.take(24));
        let header = match ADBTransportMessageHeader::decode(head) {
            Ok(header) => header,
            Err(e) => {
                return Err(e);
            },
        };
        let rest = slice_subrange(bytes, HEADER_LENGTH, bytes.len());
        assert(rest@ =~= bytes@.skip(24));
        Self::from_header_and_payload(header, slice_to_vec(rest))
    }
}

impl Clone for ADBTransportMessage {
    fn clone(&self) -> (copy: Self)
        ensures
            copy@ == self@,
    {
        self.duplicate()
    }
}

/// Encoding a well-formed packet and decoding the bytes gives the packet back.
pub proof fn lemma_decode_encode(m: MessageView)
    requires
        m.wf(),
    ensures
        MessageView::parse(m.bytes()) == Ok::<MessageView, RustADBError>(m),
{
    let h = m.header;
    let b = m.bytes();
    lemma_le_value_of_bytes(h.command.code());
    lemma_le_value_of_bytes(h.arg0);
    lemma_le_value_of_bytes(h.arg1);
    lemma_le_value_of_bytes(h.data_length);
    lemma_le_value_of_bytes(h.data_crc32);
    lemma_le_value_of_bytes(h.magic);
    let hb = h.bytes();
    assert(hb.len() == 24);
    assert(b.take(24) =~= hb);
    assert(b.skip(24) =~= m.payload);
    assert(hb.subrange(0, 4) =~= le_bytes(h.command.code()));
    assert(hb.subrange(4, 8) =~= le_bytes(h.arg0));
    assert(hb.subrange(8, 12) =~= le_bytes(h.arg1));
    assert(hb.subrange(12, 16) =~= le_bytes(h.data_length));
    assert(hb.subrange(16, 20) =~= le_bytes(h.data_crc32));
    assert(hb.subrange(20, 24) =~= le_bytes(h.magic));
    assert(MessageCommand::of_code(h.command.code()) == Some(h.command));
    assert(ADBTransportMessageHeader::parse(hb) == Ok::<ADBTransportMessageHeader, RustADBError>(h));
}

/// Framing round trip: for every command, pair of arguments and payload
/// within the limit, decoding the encoded packet gives back the command, the
/// arguments and the payload, with the complement of the command as magic
/// and the sum of the payload as checksum.
pub proof fn lemma_framing_round_trip(
    command: MessageCommand,
    arg0: u32,
    arg1: u32,
    payload: Seq<u8>,
)
    requires
        payload.len() <= MAX_PAYLOAD,
    ensures
        MessageView::parse(MessageView::build(command, arg0, arg1, payload).bytes()) matches Ok(m)
            && m.header.command == command && m.header.arg0 == arg0 && m.header.arg1 == arg1
            && m.payload == payload && m.header.magic == !command.code() && m.header.data_crc32
            == byte_sum(payload) && m.header.data_length == payload.len(),
{
    lemma_byte_sum_bound(payload);
    lemma_decode_encode(MessageView::build(command, arg0, arg1, payload));
}

/// Checksum detection: where one byte of the payload of an encoded packet is
/// replaced by another value, decoding fails with `BadChecksum`, unless the
/// command is AUTH, whose checksum is not looked at.
pub proof fn lemma_checksum_detects_flip(m: MessageView, i: int, b: u8)
    requires
        m.wf(),
        m.header.data_crc32 == byte_sum(m.payload),
        0 <= i < m.payload.len(),
        b != m.payload[i],
    ensures
        MessageView::parse(m.bytes().update(24 + i, b)) == (if m.header.command
            == MessageCommand::Auth {
            Ok::<MessageView, RustADBError>(MessageView { header: m.header, payload: m.payload.update(i, b) })
        } else {
            Err::<MessageView, RustADBError>(RustADBError::BadChecksum)
        }),
{
    let flipped = MessageView { header: m.header, payload: m.payload.update(i, b) };
    let bytes = m.bytes().update(24 + i, b);
    lemma_header_parse_bytes(m.header);
    assert(bytes =~= flipped.bytes());
    assert(bytes.take(24) =~= m.header.bytes());
    assert(bytes.skip(24) =~= flipped.payload);
    lemma_byte_sum_update(m.payload, i, b);
    lemma_byte_sum_bound(m.payload);
    lemma_byte_sum_bound(flipped.payload);
    assert(byte_sum(flipped.payload) != byte_sum(m.payload));
}

/// Parsing the bytes of a well-formed header gives the header back.
pub proof fn lemma_header_parse_bytes(h: ADBTransportMessageHeader)
    requires
        h.wf(),
    ensures
        h.bytes().len() == 24,
        ADBTransportMessageHeader::parse(h.bytes()) == Ok::<ADBTransportMessageHeader, RustADBError>(h),
{
    lemma_le_value_of_bytes(h.command.code());
    lemma_le_value_of_bytes(h.arg0);
    lemma_le_value_of_bytes(h.arg1);
    lemma_le_value_of_bytes(h.data_length);
    lemma_le_value_of_bytes(h.data_crc32);
    lemma_le_value_of_bytes(h.magic);
    let hb = h.bytes();
    assert(hb.subrange(0, 4) =~= le_bytes(h.command.code()));
    assert(hb.subrange(4, 8) =~= le_bytes(h.arg0));
    assert(hb.subrange(8, 12) =~= le_bytes(h.arg1));
    assert(hb.subrange(12, 16) =~= le_bytes(h.data_length));
    assert(hb.subrange(16, 20) =~= le_bytes(h.data_crc32));
    assert(hb.subrange(20, 24) =~= le_bytes(h.magic));
    assert(MessageCommand::of_code(h.command.code()) == Some(h.command));
}

/// The packets of `s` as mathematical values.
pub open spec fn views(s: Seq<ADBTransportMessage>) -> Seq<MessageView> {
    s.map_values(|m: ADBTransportMessage| m@)
}

} // verus!
