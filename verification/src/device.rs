//! A device reached over a link that carries packets: the session that
//! authenticates, opens a stream and exchanges packets on it.

use crate::auth::{auth_step, AUTH_TIMEOUT_SECS, AuthState, AuthStep};
use crate::error::{ErrorView, link_failed, RustADBError};
use crate::message::{A_VERSION, ADBTransportMessage, MAX_PAYLOAD, MessageCommand, MessageView};
use crate::rsa::ADBRsaKey;
use crate::session::{
    arguments, command_name, data_frame, DeviceView, forgetting, host_banner, joined,
    message_result, next_stream_id, no_local_id, no_remote_id, okay_packet, recv_payload,
    send_mode_suffix, shell_destination, stat_result, stream_id, sync_destination, unit_result,
    went, went_with,
};
use crate::sync::{
    AdbStatResponse, BUFFER_SIZE, decode_send_reply, decode_stat_reply, MessageSubcommand,
    read_u32_le,
};
use crate::transport::ADBMessageTransport;
use vstd::prelude::*;
use vstd::slice::{slice_subrange, slice_to_vec};
use vstd::string::StringSliceAdditionalSpecFns;

verus! {

/// Calls `rand::rng()` and `Rng::random` of `rand`: a number drawn by the
/// generator of the thread, of which nothing is known beforehand.
#[verifier::external_body]
fn random_u32() -> u32 {
    rand::Rng::random(&mut rand::rng())
}

/// The local identifier made of `raw`, which is never zero.
pub fn nonzero_id(raw: u32) -> (id: u32)
    ensures
        id != 0,
        id == stream_id(raw),
{
    if raw == 0 {
        1
    } else {
        raw
    }
}

/// Computes the identifier that follows `id`.
pub fn advance_id(id: u32) -> (next: u32)
    ensures
        next == next_stream_id(id),
        id != 0 ==> next != 0,
{
    let a = id ^ (id << 13);
    let b = a ^ (a >> 17);
    let c = b ^ (b << 5);
    assert(id != 0 ==> (id ^ (id << 13)) != 0) by (bit_vector);
    assert(a != 0 ==> (a ^ (a >> 17)) != 0) by (bit_vector);
    assert(b != 0 ==> (b ^ (b << 5)) != 0) by (bit_vector);
    c
}

/// An ADB device reachable over a link of any kind.
#[derive(Debug)]
pub struct ADBMessageDevice<T: ADBMessageTransport> {
    transport: T,
    local_id: Option<u32>,
    remote_id: Option<u32>,
    next_id: u32,
}

impl<T: ADBMessageTransport> View for ADBMessageDevice<T> {
    type V = DeviceView;

    closed spec fn view(&self) -> DeviceView {
        DeviceView {
            link: self.transport.link(),
            local_id: self.local_id,
            remote_id: self.remote_id,
            next_id: self.next_id,
        }
    }
}

impl<T: ADBMessageTransport> ADBMessageDevice<T> {
    /// A device on `transport`, with no stream open. The identifier of its
    /// first stream is drawn at random.
    pub fn new(transport: T) -> (device: Self)
        ensures
            device@ == (DeviceView {
                link: transport.link(),
                local_id: None,
                remote_id: None,
                next_id: device@.next_id,
            }),
    {
        Self { transport, local_id: None, remote_id: None, next_id: random_u32() }
    }

    pub fn get_transport(&mut self) -> (transport: &T)
        ensures
            transport.link() == old(self)@.link,
            final(self)@ == old(self)@,
    {
        &self.transport
    }

    pub fn get_transport_mut(&mut self) -> (transport: &mut T)
        ensures
            transport.link() == old(self)@.link,
            final(self)@ == (DeviceView { link: final(transport).link(), ..old(self)@ }),
    {
        &mut self.transport
    }

    /// The local identifier of the open stream.
    pub fn get_local_id(&self) -> (r: Result<u32, RustADBError>)
        ensures
            match r {
                Ok(id) => self@.local_id == Some(id),
                Err(e) => self@.local_id is None && e@ == no_local_id(),
            },
    {
        match self.local_id {
            Some(id) => Ok(id),
            None => Err(
                RustADBError::ADBRequestFailed("connection not opened, no local_id".to_owned()),
            ),
        }
    }

    /// The remote identifier of the open stream.
    pub fn get_remote_id(&self) -> (r: Result<u32, RustADBError>)
        ensures
            match r {
                Ok(id) => self@.remote_id == Some(id),
                Err(e) => self@.remote_id is None && e@ == no_remote_id(),
            },
    {
        match self.remote_id {
            Some(id) => Ok(id),
            None => Err(
                RustADBError::ADBRequestFailed("connection not opened, no remote_id".to_owned()),
            ),
        }
    }

    /// The empty OKAY addressed to the peer of the open stream.
    fn okay_message(&self) -> (r: Result<ADBTransportMessage, RustADBError>)
        ensures
            match r {
                Ok(m) => self@.ids() matches Ok((local_id, remote_id)) && m@ == okay_packet(
                    local_id,
                    remote_id,
                ),
                Err(e) => self@.ids() == Err::<(u32, u32), ErrorView>(e@),
            },
    {
        let local_id = self.get_local_id()?;
        let remote_id = self.get_remote_id()?;
        let nothing: Vec<u8> = Vec::new();
        Ok(ADBTransportMessage::new(MessageCommand::Okay, local_id, remote_id, nothing.as_slice()))
    }

    /// Receives a packet and acknowledges it with an OKAY if it is a WRTE or a
    /// CLSE. Unless the link fails, and always on a reliable link, it does what
    /// [`DeviceView::recv_and_reply_okay`] says.
    pub fn recv_and_reply_okay(&mut self) -> (r: Result<ADBTransportMessage, RustADBError>)
        ensures
            final(self)@.link.reliable == old(self)@.link.reliable,
            old(self)@.link.reliable || !link_failed(r) ==> went(
                final(self)@,
                message_result(r),
                old(self)@.recv_and_reply_okay(),
            ),
    {
        let message = self.transport.read_message()?;
        match message.header().command() {
            MessageCommand::Write | MessageCommand::Clse => {
                let okay = self.okay_message()?;
                self.transport.write_message(okay)?;
            },
            _ => {},
        }
        Ok(message)
    }

    /// Sends a packet and waits for the OKAY that answers it. Unless the link
    /// fails, and always on a reliable link, it does what
    /// [`DeviceView::send_and_expect_okay`] says.
    pub fn send_and_expect_okay(&mut self, message: ADBTransportMessage) -> (r: Result<
        ADBTransportMessage,
        RustADBError,
    >)
        ensures
            final(self)@.link.reliable == old(self)@.link.reliable,
            old(self)@.link.reliable || !link_failed(r) ==> went(
                final(self)@,
                message_result(r),
                old(self)@.send_and_expect_okay(message@),
            ),
    {
        let ghost goal = old(self)@.send_and_expect_okay(message@);
        self.transport.write_message(message)?;
        assert(self@ =~= old(self)@.wrote(message@));
        loop
            invariant
                self@.link.reliable == old(self)@.link.reliable,
                goal == old(self)@.send_and_expect_okay(message@),
                self@.await_okay() == goal,
            decreases self@.link.pending.len(),
        {
            let ghost before = self@;
            let response = self.transport.read_message()?;
            assert(self@ =~= before.took());
            match response.header().command() {
                MessageCommand::Okay => {
                    return Ok(response);
                },
                MessageCommand::Write => {
                    let okay = self.okay_message()?;
                    self.transport.write_message(okay)?;
                    assert(self@ =~= before.took().wrote(okay@));
                },
                MessageCommand::Clse => {},
                other => {
                    return Err(
                        RustADBError::UnexpectedCommand {
                            received: other,
                            expected: MessageCommand::Okay,
                        },
                    );
                },
            }
        }
    }

    /// Carries the authentication through, from the first packet of the device
    /// on. Unless the link fails, and always on a reliable link, it does what
    /// [`DeviceView::auth_handshake`] says, starting in `AwaitChallenge`.
    pub fn auth_handshake(&mut self, message: ADBTransportMessage, private_key: &ADBRsaKey) -> (r:
        Result<(), RustADBError>)
        ensures
            final(self)@.link.reliable == old(self)@.link.reliable,
            old(self)@.link.reliable || !link_failed(r) ==> went(
                final(self)@,
                unit_result(r),
                old(self)@.auth_handshake(AuthState::AwaitChallenge, message@, private_key),
            ),
    {
        let ghost goal = old(self)@.auth_handshake(
            AuthState::AwaitChallenge,
            message@,
            private_key,
        );
        let mut state = AuthState::AwaitChallenge;
        let mut current = message;
        loop
            invariant
                self@.link.reliable == old(self)@.link.reliable,
                goal == old(self)@.auth_handshake(AuthState::AwaitChallenge, message@, private_key),
                self@.auth_handshake(state, current@, private_key) == goal,
            decreases self@.link.pending.len(),
        {
            let ghost before = self@;
            match auth_step(state, &current, private_key)? {
                AuthStep::Ready => {
                    return Ok(());
                },
                AuthStep::Reply(next, reply) => {
                    self.transport.write_message(reply)?;
                    assert(self@ =~= before.wrote(reply@));
                    state = next;
                },
                AuthStep::Ignore => {},
            }
            let ghost waiting = self@;
            current = match self.transport.read_message_with_timeout(AUTH_TIMEOUT_SECS) {
                Ok(message) => message,
                Err(e) => {
                    return Err(auth_read_error(e));
                },
            };
            assert(self@ =~= waiting.waited(AUTH_TIMEOUT_SECS).took());
        }
    }

    /// Opens the connection: sends CNXN and carries the authentication through.
    /// Unless the link fails, and always on a reliable link, it does what
    /// [`DeviceView::connect`] says.
    pub fn connect(&mut self, private_key: &ADBRsaKey) -> (r: Result<(), RustADBError>)
        ensures
            final(self)@.link.reliable == old(self)@.link.reliable,
            old(self)@.link.reliable || !link_failed(r) ==> went(
                final(self)@,
                unit_result(r),
                old(self)@.connect(private_key),
            ),
    {
        let banner: [u8; 7] = [0x68, 0x6f, 0x73, 0x74, 0x3a, 0x3a, 0x00];
        assert(banner@ =~= host_banner());
        let hello = ADBTransportMessage::new(
            MessageCommand::Cnxn,
            A_VERSION,
            MAX_PAYLOAD,
            banner.as_slice(),
        );
        self.transport.write_message(hello)?;
        assert(self@ =~= old(self)@.wrote(hello@));
        let ghost waiting = self@;
        let first = match self.transport.read_message_with_timeout(AUTH_TIMEOUT_SECS) {
            Ok(message) => message,
            Err(e) => {
                return Err(auth_read_error(e));
            },
        };
        assert(self@ =~= waiting.waited(AUTH_TIMEOUT_SECS).took());
        self.auth_handshake(first, private_key)
    }

    /// Opens a stream to `data`, a destination that ends in a zero byte. Unless
    /// the link fails, and always on a reliable link, it does what
    /// [`DeviceView::open_session`] says.
    pub fn open_session(&mut self, data: &[u8]) -> (r: Result<ADBTransportMessage, RustADBError>)
        requires
            data@.len() <= MAX_PAYLOAD,
            data@.len() > 0 && data@.last() == 0,
        ensures
            final(self)@.link.reliable == old(self)@.link.reliable,
            old(self)@.link.reliable || !link_failed(r) ==> went(
                final(self)@,
                message_result(r),
                old(self)@.open_session(data@),
            ),
    {
        let local_id = nonzero_id(self.next_id);
        self.next_id = advance_id(local_id);
        let message = ADBTransportMessage::new(MessageCommand::Open, local_id, 0, data);
        self.transport.write_message(message)?;
        let ghost waiting = self@;
        assert(waiting =~= (DeviceView {
            next_id: next_stream_id(stream_id(old(self)@.next_id)),
            ..old(self)@
        }).wrote(message@));
        let response = self.transport.read_message()?;
        assert(self@ =~= waiting.took());
        match response.header().command() {
            MessageCommand::Okay => {
                self.local_id = Some(response.header().arg1());
                self.remote_id = Some(response.header().arg0());
                Ok(response)
            },
            MessageCommand::Clse => Err(RustADBError::StreamRefused),
            other => Err(
                RustADBError::UnexpectedCommand { received: other, expected: MessageCommand::Okay },
            ),
        }
    }

    /// Opens the sync service. Unless the link fails, and always on a reliable
    /// link, it does what [`DeviceView::open_session`] says of the destination
    /// `sync:`.
    pub fn begin_synchronization(&mut self) -> (r: Result<(), RustADBError>)
        ensures
            final(self)@.link.reliable == old(self)@.link.reliable,
            old(self)@.link.reliable || !link_failed(r) ==> went(
                final(self)@,
                unit_result(r),
                forgetting(old(self)@.open_session(sync_destination())),
            ),
    {
        let destination: [u8; 6] = [0x73, 0x79, 0x6e, 0x63, 0x3a, 0x00];
        assert(destination@ =~= sync_destination());
        self.open_session(destination.as_slice())?;
        Ok(())
    }

    /// Closes the stream: sends CLSE, drops the packet that answers and forgets
    /// the identifiers. Unless the link fails, and always on a reliable link,
    /// it does what [`DeviceView::close`] says.
    pub fn close(&mut self) -> (r: Result<(), RustADBError>)
        ensures
            final(self)@.link.reliable == old(self)@.link.reliable,
            old(self)@.link.reliable || !link_failed(r) ==> went(
                final(self)@,
                unit_result(r),
                old(self)@.close(),
            ),
    {
        let local_id = self.get_local_id()?;
        let remote_id = self.get_remote_id()?;
        let nothing: Vec<u8> = Vec::new();
        let bye = ADBTransportMessage::new(
            MessageCommand::Clse,
            local_id,
            remote_id,
            nothing.as_slice(),
        );
        self.transport.write_message(bye)?;
        let ghost waiting = self@;
        assert(waiting =~= old(self)@.wrote(bye@));
        self.transport.read_message()?;
        assert(self@ =~= waiting.took());
        self.local_id = None;
        self.remote_id = None;
        Ok(())
    }

    /// Sends one frame of the sync service in a WRTE of its own and waits for
    /// its OKAY. Unless the link fails, and always on a reliable link, it does
    /// what [`DeviceView::send_frame`] says.
    pub fn send_frame(&mut self, payload: &[u8]) -> (r: Result<(), RustADBError>)
        requires
            payload@.len() <= MAX_PAYLOAD,
        ensures
            final(self)@.link.reliable == old(self)@.link.reliable,
            old(self)@.link.reliable || !link_failed(r) ==> went(
                final(self)@,
                unit_result(r),
                old(self)@.send_frame(payload@),
            ),
    {
        let local_id = self.get_local_id()?;
        let remote_id = self.get_remote_id()?;
        let message = ADBTransportMessage::new(MessageCommand::Write, local_id, remote_id, payload);
        self.send_and_expect_okay(message)?;
        Ok(())
    }

    /// Sends a request of the sync service: the frame header with the length
    /// of the body, then the body. Unless the link fails, and always on a
    /// reliable link, it does what [`DeviceView::request`] says.
    pub fn request(&mut self, subcommand: MessageSubcommand, body: &[u8]) -> (r: Result<
        (),
        RustADBError,
    >)
        requires
            body@.len() <= MAX_PAYLOAD,
        ensures
            final(self)@.link.reliable == old(self)@.link.reliable,
            old(self)@.link.reliable || !link_failed(r) ==> went(
                final(self)@,
                unit_result(r),
                old(self)@.request(subcommand, body@),
            ),
    {
        let buffer = subcommand.with_arg(body.len() as u32);
        let header = buffer.encode()?;
        proof {
            crate::wire::lemma_le_value_of_bytes(buffer.subcommand.code());
            crate::wire::lemma_le_value_of_bytes(buffer.arg);
        }
        self.send_frame(header.as_slice())?;
        self.send_frame(body)
    }

    /// Asks the open sync stream about a path. Unless the link fails, and
    /// always on a reliable link, it does what
    /// [`DeviceView::stat_with_explicit_ids`] says of the bytes of the path.
    pub fn stat_with_explicit_ids(&mut self, remote_path: &str) -> (r: Result<
        AdbStatResponse,
        RustADBError,
    >)
        ensures
            final(self)@.link.reliable == old(self)@.link.reliable,
            old(self)@.link.reliable || !link_failed(r) ==> went(
                final(self)@,
                stat_result(r),
                old(self)@.stat_with_explicit_ids(remote_path.spec_bytes()),
            ),
    {
        let path = remote_path.as_bytes();
        if path.len() > MAX_PAYLOAD as usize {
            return Err(RustADBError::ConversionError);
        }
        self.request(MessageSubcommand::Stat, path)?;
        let response = self.recv_and_reply_okay()?;
        match response.header().command() {
            MessageCommand::Write => decode_stat_reply(response.payload().as_slice()),
            other => Err(
                RustADBError::UnexpectedCommand { received: other, expected: MessageCommand::Write },
            ),
        }
    }

    /// Ends a sync transaction: sends QUIT and closes the stream. Unless
    /// the link fails, and always on a reliable link, it does what
    /// [`DeviceView::end_transaction`] says.
    pub fn end_transaction(&mut self) -> (r: Result<(), RustADBError>)
        ensures
            final(self)@.link.reliable == old(self)@.link.reliable,
            old(self)@.link.reliable || !link_failed(r) ==> went(
                final(self)@,
                unit_result(r),
                old(self)@.end_transaction(),
            ),
    {
        let quit_buffer = MessageSubcommand::Quit.with_arg(0u32);
        let frame = quit_buffer.encode()?;
        proof {
            crate::wire::lemma_le_value_of_bytes(quit_buffer.subcommand.code());
            crate::wire::lemma_le_value_of_bytes(quit_buffer.arg);
        }
        self.send_frame(frame.as_slice())?;
        self.close()
    }

    /// Sends one chunk of a file as a DATA frame and waits for its OKAY.
    fn send_chunk(&mut self, local_id: u32, remote_id: u32, chunk: &[u8]) -> (r: Result<
        (),
        RustADBError,
    >)
        requires
            chunk@.len() <= BUFFER_SIZE,
        ensures
            final(self)@.link.reliable == old(self)@.link.reliable,
            old(self)@.link.reliable || !link_failed(r) ==> went(
                final(self)@,
                unit_result(r),
                forgetting(
                    old(self)@.send_and_expect_okay(
                        MessageView::build(
                            MessageCommand::Write,
                            local_id,
                            remote_id,
                            data_frame(chunk@),
                        ),
                    ),
                ),
            ),
    {
        let subcommand_data = MessageSubcommand::Data.with_arg(chunk.len() as u32);
        let mut serialized_message = subcommand_data.encode()?;
        proof {
            crate::wire::lemma_le_value_of_bytes(subcommand_data.subcommand.code());
            crate::wire::lemma_le_value_of_bytes(subcommand_data.arg);
        }
        serialized_message.extend_from_slice(chunk);
        assert(serialized_message@ =~= data_frame(chunk@));
        let message = ADBTransportMessage::new(
            MessageCommand::Write,
            local_id,
            remote_id,
            serialized_message.as_slice(),
        );
        self.send_and_expect_okay(message)?;
        Ok(())
    }

    /// Sends the content of a file over the open sync stream, in DATA frames
    /// of at most 64 KiB, and finishes it with DONE. Unless the link fails, and
    /// always on a reliable link, it does what [`DeviceView::push_file`] says.
    pub fn push_file(&mut self, local_id: u32, remote_id: u32, data: &[u8]) -> (r: Result<
        (),
        RustADBError,
    >)
        ensures
            final(self)@.link.reliable == old(self)@.link.reliable,
            old(self)@.link.reliable || !link_failed(r) ==> went(
                final(self)@,
                unit_result(r),
                old(self)@.push_file(local_id, remote_id, data@),
            ),
    {
        let ghost goal = old(self)@.push_file(local_id, remote_id, data@);
        let total = data.len();
        let first = if total <= BUFFER_SIZE {
            total
        } else {
            BUFFER_SIZE
        };
        let chunk = slice_subrange(data, 0, first);
        assert(chunk@ =~= data@.take(first as int));
        self.send_chunk(local_id, remote_id, chunk)?;
        let mut offset: usize = first;
        while offset < total
            invariant
                offset <= total,
                total == data@.len(),
                self@.link.reliable == old(self)@.link.reliable,
                goal == old(self)@.push_file(local_id, remote_id, data@),
                self@.push_rest(local_id, remote_id, data@.skip(offset as int)) == goal,
            decreases total - offset,
        {
            let left = total - offset;
            let size = if left <= BUFFER_SIZE {
                left
            } else {
                BUFFER_SIZE
            };
            let chunk = slice_subrange(data, offset, offset + size);
            assert(chunk@ =~= data@.skip(offset as int).take(size as int));
            assert(data@.skip(offset as int).skip(size as int) =~= data@.skip(offset + size));
            self.send_chunk(local_id, remote_id, chunk)?;
            offset = offset + size;
        }
        assert(data@.skip(offset as int) =~= Seq::<u8>::empty());
        loop
            invariant
                self@.link.reliable == old(self)@.link.reliable,
                goal == old(self)@.push_file(local_id, remote_id, data@),
                self@.finish_push(local_id, remote_id) == goal,
            decreases self@.link.pending.len(),
        {
            let ghost before = self@;
            // The time of the last change of the file is not forwarded.
            let subcommand_data = MessageSubcommand::Done.with_arg(0);
            let serialized_message = subcommand_data.encode()?;
            proof {
                crate::wire::lemma_le_value_of_bytes(subcommand_data.subcommand.code());
                crate::wire::lemma_le_value_of_bytes(subcommand_data.arg);
            }
            let message = ADBTransportMessage::new(
                MessageCommand::Write,
                local_id,
                remote_id,
                serialized_message.as_slice(),
            );
            proof {
                before.wrote(message@).lemma_await_okay_takes();
            }
            self.send_and_expect_okay(message)?;
            // The exchange should end with a WRTE, but some devices close at once.
            let received = self.recv_and_reply_okay()?;
            match received.header().command() {
                MessageCommand::Write => {
                    return decode_send_reply(received.payload().as_slice());
                },
                MessageCommand::Clse => {
                    return Ok(());
                },
                MessageCommand::Okay => {},
                c => {
                    let mut text = "Wrong command received ".to_owned();
                    text.append(command_text(c));
                    return Err(RustADBError::ADBRequestFailed(text));
                },
            }
        }
    }

    /// Asks the device about a path. Unless the link fails, and always on a
    /// reliable link, it does what [`DeviceView::stat`] says of the bytes of
    /// the path.
    pub fn stat(&mut self, remote_path: &str) -> (r: Result<AdbStatResponse, RustADBError>)
        ensures
            final(self)@.link.reliable == old(self)@.link.reliable,
            old(self)@.link.reliable || !link_failed(r) ==> went(
                final(self)@,
                stat_result(r),
                old(self)@.stat(remote_path.spec_bytes()),
            ),
    {
        self.begin_synchronization()?;
        let adb_stat_response = self.stat_with_explicit_ids(remote_path)?;
        self.end_transaction()?;
        Ok(adb_stat_response)
    }

    /// Sends a file over the open sync stream and ends the transaction. Unless
    /// the link fails, and always on a reliable link, it does what
    /// [`DeviceView::send_file`] says.
    fn send_file(&mut self, data: &[u8], path: &[u8]) -> (r: Result<(), RustADBError>)
        requires
            path@.len() + 5 <= MAX_PAYLOAD,
        ensures
            final(self)@.link.reliable == old(self)@.link.reliable,
            old(self)@.link.reliable || !link_failed(r) ==> went(
                final(self)@,
                unit_result(r),
                old(self)@.send_file(data@, path@),
            ),
    {
        let mut path_header = slice_to_vec(path);
        let mode: [u8; 5] = [0x2c, 0x30, 0x36, 0x34, 0x34];
        assert(mode@ =~= send_mode_suffix());
        path_header.extend_from_slice(mode.as_slice());
        assert(path_header@ =~= path@ + send_mode_suffix());
        self.request(MessageSubcommand::Send, path_header.as_slice())?;
        let local_id = self.get_local_id()?;
        let remote_id = self.get_remote_id()?;
        self.push_file(local_id, remote_id, data)?;
        self.end_transaction()
    }

    /// Writes `data` to a file of the device. Unless the link fails, and
    /// always on a reliable link, it does what [`DeviceView::push`] says of the
    /// bytes of the path.
    pub fn push(&mut self, data: &[u8], remote_path: &str) -> (r: Result<(), RustADBError>)
        ensures
            final(self)@.link.reliable == old(self)@.link.reliable,
            old(self)@.link.reliable || !link_failed(r) ==> went(
                final(self)@,
                unit_result(r),
                old(self)@.push(data@, remote_path.spec_bytes()),
            ),
    {
        let path = remote_path.as_bytes();
        if path.len() > MAX_PAYLOAD as usize - 5 {
            return Err(RustADBError::ConversionError);
        }
        self.begin_synchronization()?;
        self.send_file(data, path)
    }

    /// Runs a command in a shell of the device and gathers what it prints
    /// behind `output`. Unless the link fails, and always on a reliable link,
    /// it does what [`DeviceView::shell_command`] says of the bytes of the
    /// arguments.
    pub fn shell_command(&mut self, command: &[&str], output: &mut Vec<u8>) -> (r: Result<
        (),
        RustADBError,
    >)
        ensures
            final(self)@.link.reliable == old(self)@.link.reliable,
            old(self)@.link.reliable || !link_failed(r) ==> went_with(
                final(self)@,
                final(output)@,
                unit_result(r),
                old(self)@.shell_command(arguments(command@), old(output)@),
            ),
    {
        let ghost goal = old(self)@.shell_command(arguments(command@), old(output)@);
        let destination = shell_target(command);
        if destination.len() > MAX_PAYLOAD as usize {
            return Err(RustADBError::ConversionError);
        }
        self.open_session(destination.as_slice())?;
        loop
            invariant
                self@.link.reliable == old(self)@.link.reliable,
                goal == old(self)@.shell_command(arguments(command@), old(output)@),
                self@.drain(output@) == goal,
            decreases self@.link.pending.len(),
        {
            let ghost gathered = output@;
            let response = self.recv_and_reply_okay()?;
            match response.header().command() {
                MessageCommand::Clse => {
                    self.local_id = None;
                    self.remote_id = None;
                    return Ok(());
                },
                _ => {
                    output.extend_from_slice(response.payload().as_slice());
                    assert(output@ =~= gathered + response@.payload);
                },
            }
        }
    }

    /// Receives a file that the device sends over the open sync stream and
    /// gathers its bytes behind `output`. Unless the link fails, and always on
    /// a reliable link, it does what [`DeviceView::recv_file`] says, starting
    /// with no bytes owed.
    pub fn recv_file(&mut self, output: &mut Vec<u8>) -> (r: Result<(), RustADBError>)
        ensures
            final(self)@.link.reliable == old(self)@.link.reliable,
            old(self)@.link.reliable || !link_failed(r) ==> went_with(
                final(self)@,
                final(output)@,
                unit_result(r),
                old(self)@.recv_file(None, old(output)@),
            ),
    {
        let ghost goal = old(self)@.recv_file(None, old(output)@);
        let mut len: Option<u64> = None;
        loop
            invariant
                self@.link.reliable == old(self)@.link.reliable,
                goal == old(self)@.recv_file(None, old(output)@),
                self@.recv_file(len, output@) == goal,
            decreases self@.link.pending.len(),
        {
            let payload = self.recv_and_reply_okay()?.into_payload();
            len = receive_payload(&payload, len, output)?;
            if payload.len() >= 8 {
                let tail = slice_subrange(payload.as_slice(), payload.len() - 8, payload.len());
                assert(tail@.subrange(0, 4) =~= payload@.subrange(
                    payload@.len() - 8,
                    payload@.len() - 4,
                ));
                if read_u32_le(tail) == MessageSubcommand::Done.to_u32() {
                    return Ok(());
                }
            }
        }
    }
}

/// The failure of a read during authentication: a `Timeout` becomes an
/// `AuthTimeout`, any other failure stays what it is.
pub fn auth_read_error(e: RustADBError) -> (r: RustADBError)
    ensures
        r@ == (if e@ == ErrorView::Timeout {
            ErrorView::AuthTimeout
        } else {
            e@
        }),
{
    match e {
        RustADBError::Timeout => RustADBError::AuthTimeout,
        other => other,
    }
}

/// The name of a command as the device spells it.
pub fn command_text(command: MessageCommand) -> (name: &'static str)
    ensures
        name@ == command_name(command),
{
    match command {
        MessageCommand::Cnxn => "CNXN",
        MessageCommand::Clse => "CLSE",
        MessageCommand::Auth => "AUTH",
        MessageCommand::Open => "OPEN",
        MessageCommand::Write => "WRTE",
        MessageCommand::Okay => "OKAY",
        MessageCommand::Sync => "SYNC",
    }
}

/// Writes the destination that runs `command` in a shell: see
/// [`shell_destination`].
pub fn shell_target(command: &[&str]) -> (destination: Vec<u8>)
    ensures
        destination@ == shell_destination(arguments(command@)),
{
    let prefix: [u8; 6] = [0x73, 0x68, 0x65, 0x6c, 0x6c, 0x3a];
    let mut destination = slice_to_vec(prefix.as_slice());
    let ghost words = arguments(command@);
    let mut i: usize = 0;
    while i < command.len()
        invariant
            i <= command@.len(),
            words == arguments(command@),
            destination@ == prefix@ + joined(words.take(i as int)),
        decreases command@.len() - i,
    {
        if i > 0 {
            destination.push(0x20u8);
        }
        destination.extend_from_slice(command[i].as_bytes());
        proof {
            assert(words.take(i + 1).drop_last() =~= words.take(i as int));
            assert(words.take(i + 1).last() == command@[i as int].spec_bytes());
            assert(destination@ =~= prefix@ + joined(words.take(i + 1)));
        }
        i = i + 1;
    }
    assert(words.take(i as int) =~= words);
    destination.push(0x00u8);
    assert(destination@ =~= shell_destination(words));
    destination
}

/// Reads one payload of a file that the device sends: see [`recv_payload`].
pub fn receive_payload(payload: &Vec<u8>, due: Option<u64>, output: &mut Vec<u8>) -> (r: Result<
    Option<u64>,
    RustADBError,
>)
    ensures
        final(output)@ == recv_payload(payload@, 0, due, old(output)@).1,
        match r {
            Ok(left) => recv_payload(payload@, 0, due, old(output)@).0 == left && recv_payload(
                payload@,
                0,
                due,
                old(output)@,
            ).2 is Ok,
            Err(e) => recv_payload(payload@, 0, due, old(output)@).2 == Err::<(), ErrorView>(e@),
        },
{
    let ghost goal = recv_payload(payload@, 0, due, old(output)@);
    let mut len = due;
    let mut position: usize = 0;
    while position != payload.len()
        invariant
            position <= payload@.len(),
            goal == recv_payload(payload@, 0, due, old(output)@),
            recv_payload(payload@, position as int, len, output@) == goal,
        decreases payload@.len() - position,
    {
        let remaining_bytes = payload.len() - position;
        let owed = match len {
            Some(length) => length,
            None => 0,
        };
        len = None;
        if owed == 0 {
            if remaining_bytes < 8 {
                return Err(RustADBError::IOError("failed to fill whole buffer".to_owned()));
            }
            let field = slice_subrange(payload.as_slice(), position + 4, position + 8);
            assert(field@.subrange(0, 4) =~= payload@.subrange(position + 4, position + 8));
            len = Some(read_u32_le(field) as u64);
            position = position + 8;
        } else if owed < remaining_bytes as u64 {
            let ghost gathered = output@;
            let step = owed as usize;
            output.extend_from_slice(slice_subrange(payload.as_slice(), position, position + step));
            assert(output@ =~= gathered + payload@.subrange(position as int, position + step));
            position = position + step;
        } else {
            let ghost gathered = output@;
            output.extend_from_slice(slice_subrange(payload.as_slice(), position, payload.len()));
            assert(output@ =~= gathered + payload@.subrange(position as int, payload@.len() as int));
            // This payload is now exhausted.
            return Ok(Some(owed - remaining_bytes as u64));
        }
    }
    Ok(len)
}

} // verus!
