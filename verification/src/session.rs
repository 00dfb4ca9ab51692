//! The session as contracts see it: the state of a device and, for each
//! exchange, what it does to that state on a reliable link.

use crate::auth::{auth_step_of, AUTH_TIMEOUT_SECS, AuthState, AuthStepView};
use crate::error::{ErrorView, RustADBError};
use crate::message::{A_VERSION, ADBTransportMessage, MAX_PAYLOAD, MessageCommand, MessageView};
use crate::rsa::ADBRsaKey;
use crate::sync::{
    AdbStatResponse, BUFFER_SIZE, MessageSubcommand, send_reply, stat_reply, SubcommandWithArg,
};
use crate::transport::LinkView;
use vstd::prelude::*;
use vstd::string::StringSliceAdditionalSpecFns;

verus! {

/// A device as contracts see it: its link and the identifiers of the stream
/// that is open, if one is.
#[verifier::ext_equal]
pub struct DeviceView {
    pub link: LinkView,
    pub local_id: Option<u32>,
    pub remote_id: Option<u32>,
    /// The number from which the local identifier of the next stream is
    /// made, see [`stream_id`].
    pub next_id: u32,
}

/// The local identifier made of `raw`: `raw` itself, or one in place of zero.
pub open spec fn stream_id(raw: u32) -> u32 {
    if raw == 0 {
        1
    } else {
        raw
    }
}

/// The identifier that follows `id`: one round of the xorshift generator,
/// which never turns a number that is not zero into zero.
pub open spec fn next_stream_id(id: u32) -> u32 {
    let a = id ^ (id << 13);
    let b = a ^ (a >> 17);
    b ^ (b << 5)
}

/// The payload of the CNXN that opens a connection: `host::` and a zero byte.
pub open spec fn host_banner() -> Seq<u8> {
    seq![0x68u8, 0x6fu8, 0x73u8, 0x74u8, 0x3au8, 0x3au8, 0x00u8]
}

/// The destination of the sync service: `sync:` and a zero byte.
pub open spec fn sync_destination() -> Seq<u8> {
    seq![0x73u8, 0x79u8, 0x6eu8, 0x63u8, 0x3au8, 0x00u8]
}

/// The arguments of a command, each as its bytes, with one space between two.
pub open spec fn joined(command: Seq<Seq<u8>>) -> Seq<u8>
    decreases command.len(),
{
    if command.len() == 0 {
        Seq::empty()
    } else if command.len() == 1 {
        command[0]
    } else {
        joined(command.drop_last()) + seq![0x20u8] + command.last()
    }
}

/// The destination that runs a command in a shell: `shell:`, the arguments
/// joined by spaces, and a zero byte.
pub open spec fn shell_destination(command: Seq<Seq<u8>>) -> Seq<u8> {
    seq![0x73u8, 0x68u8, 0x65u8, 0x6cu8, 0x6cu8, 0x3au8] + joined(command) + seq![0x00u8]
}

/// The arguments of a command as bytes.
pub open spec fn arguments(command: Seq<&str>) -> Seq<Seq<u8>> {
    command.map_values(|argument: &str| argument.spec_bytes())
}

/// The mode that follows the path in a SEND request: `,0644`.
pub open spec fn send_mode_suffix() -> Seq<u8> {
    seq![0x2cu8, 0x30u8, 0x36u8, 0x34u8, 0x34u8]
}

/// The payload of one DATA frame: its header and the chunk.
pub open spec fn data_frame(chunk: Seq<u8>) -> Seq<u8> {
    (SubcommandWithArg { subcommand: MessageSubcommand::Data, arg: chunk.len() as u32 }).bytes()
        + chunk
}

/// The complaint about a frame header that the payload cuts short.
pub open spec fn short_frame() -> ErrorView {
    ErrorView::IOError("failed to fill whole buffer"@)
}

/// What is received from one payload of a file that the device sends, from
/// the position `pos` on. `due` is the number of bytes that the DATA frame
/// at hand still owes; with none owed a frame header is read, of which the
/// second word is the length of the frame. The bytes of the frames are
/// gathered behind `output`. The result is the number of bytes still owed
/// at the end of the payload, and what was gathered.
pub open spec fn recv_payload(payload: Seq<u8>, pos: int, due: Option<u64>, output: Seq<u8>) -> (
    Option<u64>,
    Seq<u8>,
    Result<(), ErrorView>,
)
    decreases payload.len() - pos,
{
    if pos < 0 || pos >= payload.len() {
        (due, output, Ok(()))
    } else if due is Some && due->0 > 0 {
        let length = due->0 as int;
        let remaining = payload.len() - pos;
        if length < remaining {
            recv_payload(payload, pos + length, None, output + payload.subrange(pos, pos + length))
        } else {
            (
                Some((length - remaining) as u64),
                output + payload.subrange(pos, payload.len() as int),
                Ok(()),
            )
        }
    } else if pos + 8 > payload.len() {
        (None, output, Err(short_frame()))
    } else {
        recv_payload(
            payload,
            pos + 8,
            Some(crate::wire::le_value(payload.subrange(pos + 4, pos + 8)) as u64),
            output,
        )
    }
}

/// Whether a payload ends with the header of a DONE frame.
pub open spec fn ends_with_done(payload: Seq<u8>) -> bool {
    payload.len() >= 8 && crate::wire::le_value(
        payload.subrange(payload.len() - 8, payload.len() - 4),
    ) == MessageSubcommand::Done.code()
}

/// The name of a command as the device spells it.
pub open spec fn command_name(command: MessageCommand) -> Seq<char> {
    match command {
        MessageCommand::Cnxn => "CNXN"@,
        MessageCommand::Clse => "CLSE"@,
        MessageCommand::Auth => "AUTH"@,
        MessageCommand::Open => "OPEN"@,
        MessageCommand::Write => "WRTE"@,
        MessageCommand::Okay => "OKAY"@,
        MessageCommand::Sync => "SYNC"@,
    }
}

/// The complaint about a command that cannot answer a finished SEND.
pub open spec fn wrong_command(command: MessageCommand) -> ErrorView {
    ErrorView::ADBRequestFailed("Wrong command received "@ + command_name(command))
}

/// The result of a STAT as contracts see it.
pub open spec fn stat_result(r: Result<AdbStatResponse, RustADBError>) -> Result<
    AdbStatResponse,
    ErrorView,
> {
    match r {
        Ok(stat) => Ok(stat),
        Err(e) => Err(e@),
    }
}

/// The result of an exchange as contracts see it.
pub open spec fn message_result(r: Result<ADBTransportMessage, RustADBError>) -> Result<
    MessageView,
    ErrorView,
> {
    match r {
        Ok(m) => Ok(m@),
        Err(e) => Err(e@),
    }
}

/// The result of an exchange that yields nothing, as contracts see it.
pub open spec fn unit_result(r: Result<(), RustADBError>) -> Result<(), ErrorView> {
    match r {
        Ok(_) => Ok(()),
        Err(e) => Err(e@),
    }
}

/// Whether an exchange went as its model says: the device is in the state,
/// and the result is the one, that the model gives.
pub open spec fn went<R>(
    device: DeviceView,
    result: Result<R, ErrorView>,
    model: (DeviceView, Result<R, ErrorView>),
) -> bool {
    device =~= model.0 && result == model.1
}

/// [`went`], for an exchange that gathers bytes on its way.
pub open spec fn went_with<R>(
    device: DeviceView,
    output: Seq<u8>,
    result: Result<R, ErrorView>,
    model: (DeviceView, Seq<u8>, Result<R, ErrorView>),
) -> bool {
    device =~= model.0 && output == model.1 && result == model.2
}

/// What a model gives where the value that comes with success is dropped.
pub open spec fn forgetting<R>(model: (DeviceView, Result<R, ErrorView>)) -> (
    DeviceView,
    Result<(), ErrorView>,
) {
    match model.1 {
        Ok(_) => (model.0, Ok(())),
        Err(e) => (model.0, Err(e)),
    }
}

/// The complaint about a stream that was not opened: no local identifier.
pub open spec fn no_local_id() -> ErrorView {
    ErrorView::ADBRequestFailed("connection not opened, no local_id"@)
}

/// The complaint about a stream that was not opened: no remote identifier.
pub open spec fn no_remote_id() -> ErrorView {
    ErrorView::ADBRequestFailed("connection not opened, no remote_id"@)
}

/// The empty OKAY that acknowledges a packet of the peer.
pub open spec fn okay_packet(local_id: u32, remote_id: u32) -> MessageView {
    MessageView::build(MessageCommand::Okay, local_id, remote_id, Seq::empty())
}

impl DeviceView {
    /// The device after a write of `m` that succeeded.
    pub open spec fn wrote(self, m: MessageView) -> DeviceView {
        DeviceView { link: LinkView { sent: self.link.sent.push(m), ..self.link }, ..self }
    }

    /// The device after a timed read has noted its time limit.
    pub open spec fn waited(self, seconds: u64) -> DeviceView {
        DeviceView { link: LinkView { waits: self.link.waits.push(seconds), ..self.link }, ..self }
    }

    /// The device after a read that took the first pending packet.
    pub open spec fn took(self) -> DeviceView {
        DeviceView {
            link: LinkView { pending: self.link.pending.drop_first(), ..self.link },
            ..self
        }
    }

    /// The identifiers of the open stream, local one first, or the complaint
    /// about the one that is missing.
    pub open spec fn ids(self) -> Result<(u32, u32), ErrorView> {
        match (self.local_id, self.remote_id) {
            (Some(local_id), Some(remote_id)) => Ok((local_id, remote_id)),
            (None, _) => Err(no_local_id()),
            (Some(_), None) => Err(no_remote_id()),
        }
    }

    /// What receiving one packet and acknowledging it does on a reliable
    /// link. With nothing pending the read ends in `Timeout`. A WRTE or a
    /// CLSE is answered with an OKAY that carries the identifiers of the
    /// stream; where one is missing, the packet is taken and the complaint
    /// returned. Any other packet is handed on as it is.
    pub open spec fn recv_and_reply_okay(self) -> (DeviceView, Result<MessageView, ErrorView>) {
        if self.link.pending.len() == 0 {
            (self, Err(ErrorView::Timeout))
        } else {
            let m = self.link.pending[0];
            if m.header.command == MessageCommand::Write || m.header.command
                == MessageCommand::Clse {
                match self.ids() {
                    Ok((local_id, remote_id)) => (
                        self.took().wrote(okay_packet(local_id, remote_id)),
                        Ok(m),
                    ),
                    Err(e) => (self.took(), Err(e)),
                }
            } else {
                (self.took(), Ok(m))
            }
        }
    }

    /// What waiting for an OKAY does on a reliable link: packets are read
    /// until an OKAY comes, which is the result. On the way a WRTE is
    /// acknowledged with an OKAY, a CLSE is passed over, and any other
    /// command ends the wait with `UnexpectedCommand`. With nothing pending
    /// the wait ends in `Timeout`.
    pub open spec fn await_okay(self) -> (DeviceView, Result<MessageView, ErrorView>)
        decreases self.link.pending.len(),
    {
        if self.link.pending.len() == 0 {
            (self, Err(ErrorView::Timeout))
        } else {
            let m = self.link.pending[0];
            match m.header.command {
                MessageCommand::Okay => (self.took(), Ok(m)),
                MessageCommand::Write => match self.ids() {
                    Ok((local_id, remote_id)) => self.took().wrote(
                        okay_packet(local_id, remote_id),
                    ).await_okay(),
                    Err(e) => (self.took(), Err(e)),
                },
                MessageCommand::Clse => self.took().await_okay(),
                other => (
                    self.took(),
                    Err(
                        ErrorView::UnexpectedCommand {
                            received: other,
                            expected: MessageCommand::Okay,
                        },
                    ),
                ),
            }
        }
    }

    /// What sending a packet and waiting for its OKAY does on a reliable link.
    pub open spec fn send_and_expect_okay(self, m: MessageView) -> (
        DeviceView,
        Result<MessageView, ErrorView>,
    ) {
        self.wrote(m).await_okay()
    }

    /// Waiting for an OKAY never puts a packet back; where it succeeds, it has
    /// taken at least one packet and what it returns is an OKAY. So no WRTE
    /// follows another before the first was acknowledged.
    pub proof fn lemma_await_okay_takes(self)
        ensures
            self.await_okay().0.link.pending.len() <= self.link.pending.len(),
            self.await_okay().1 matches Ok(m) ==> m.header.command == MessageCommand::Okay,
            self.await_okay().1 is Ok ==> self.await_okay().0.link.pending.len()
                < self.link.pending.len(),
            self.await_okay().0.local_id == self.local_id,
            self.await_okay().0.remote_id == self.remote_id,
            self.await_okay().0.next_id == self.next_id,
            self.await_okay().0.link.reliable == self.link.reliable,
        decreases self.link.pending.len(),
    {
        if self.link.pending.len() > 0 {
            let m = self.link.pending[0];
            match m.header.command {
                MessageCommand::Write => match self.ids() {
                    Ok((local_id, remote_id)) => {
                        self.took().wrote(okay_packet(local_id, remote_id)).lemma_await_okay_takes();
                    },
                    Err(e) => {},
                },
                MessageCommand::Clse => {
                    self.took().lemma_await_okay_takes();
                },
                _ => {},
            }
        }
    }

    /// What the authentication does on a reliable link, from the packet `m`
    /// on: each packet is handled as [`auth_step_of`] says, answers are
    /// written, and the next packet is read with a time limit of ten
    /// seconds, until the device accepts the connection or a step fails.
    /// With nothing pending the authentication ends in `AuthTimeout`.
    pub open spec fn auth_handshake(self, state: AuthState, m: MessageView, key: &ADBRsaKey) -> (
        DeviceView,
        Result<(), ErrorView>,
    )
        decreases self.link.pending.len(),
    {
        match auth_step_of(state, m, key) {
            AuthStepView::Ready => (self, Ok(())),
            AuthStepView::Fail(e) => (self, Err(e)),
            step => {
                let next = if let AuthStepView::Reply(next, _) = step {
                    next
                } else {
                    state
                };
                let waiting = if let AuthStepView::Reply(_, reply) = step {
                    self.wrote(reply)
                } else {
                    self
                };
                if waiting.link.pending.len() == 0 {
                    (waiting.waited(AUTH_TIMEOUT_SECS), Err(ErrorView::AuthTimeout))
                } else {
                    waiting.waited(AUTH_TIMEOUT_SECS).took().auth_handshake(
                        next,
                        waiting.link.pending[0],
                        key,
                    )
                }
            },
        }
    }

    /// What connecting does on a reliable link: CNXN goes out with the
    /// protocol version, the largest payload and the banner of the host, and
    /// the authentication starts with the first packet that comes back.
    pub open spec fn connect(self, key: &ADBRsaKey) -> (DeviceView, Result<(), ErrorView>) {
        let waiting = self.wrote(
            MessageView::build(MessageCommand::Cnxn, A_VERSION, MAX_PAYLOAD, host_banner()),
        );
        if waiting.link.pending.len() == 0 {
            (waiting.waited(AUTH_TIMEOUT_SECS), Err(ErrorView::AuthTimeout))
        } else {
            waiting.waited(AUTH_TIMEOUT_SECS).took().auth_handshake(
                AuthState::AwaitChallenge,
                waiting.link.pending[0],
                key,
            )
        }
    }

    /// What opening a stream does on a reliable link: OPEN goes out with the
    /// next local identifier, which is never zero, and the destination, and
    /// one packet is read. An
    /// OKAY names the stream: its second argument becomes the local and its
    /// first the remote identifier. A CLSE means `StreamRefused`, any other
    /// command is unexpected, and with nothing pending the read ends in
    /// `Timeout`.
    pub open spec fn open_session(self, data: Seq<u8>) -> (
        DeviceView,
        Result<MessageView, ErrorView>,
    ) {
        let waiting = DeviceView { next_id: next_stream_id(stream_id(self.next_id)), ..self }.wrote(
            MessageView::build(MessageCommand::Open, stream_id(self.next_id), 0, data),
        );
        if waiting.link.pending.len() == 0 {
            (waiting, Err(ErrorView::Timeout))
        } else {
            let m = waiting.link.pending[0];
            match m.header.command {
                MessageCommand::Okay => (
                    DeviceView {
                        local_id: Some(m.header.arg1),
                        remote_id: Some(m.header.arg0),
                        ..waiting.took()
                    },
                    Ok(m),
                ),
                MessageCommand::Clse => (waiting.took(), Err(ErrorView::StreamRefused)),
                other => (
                    waiting.took(),
                    Err(
                        ErrorView::UnexpectedCommand {
                            received: other,
                            expected: MessageCommand::Okay,
                        },
                    ),
                ),
            }
        }
    }

    /// What closing the stream does on a reliable link: CLSE goes out with
    /// the identifiers of the stream, one packet is read and dropped, and the
    /// identifiers are forgotten.
    pub open spec fn close(self) -> (DeviceView, Result<(), ErrorView>) {
        match self.ids() {
            Err(e) => (self, Err(e)),
            Ok((local_id, remote_id)) => {
                let waiting = self.wrote(
                    MessageView::build(MessageCommand::Clse, local_id, remote_id, Seq::empty()),
                );
                if waiting.link.pending.len() == 0 {
                    (waiting, Err(ErrorView::Timeout))
                } else {
                    (DeviceView { local_id: None, remote_id: None, ..waiting.took() }, Ok(()))
                }
            },
        }
    }

    /// What sending one frame of the sync service does: a WRTE with the
    /// identifiers of the stream goes out and its OKAY is awaited.
    pub open spec fn send_frame(self, payload: Seq<u8>) -> (DeviceView, Result<(), ErrorView>) {
        match self.ids() {
            Err(e) => (self, Err(e)),
            Ok((local_id, remote_id)) => {
                let sent = self.send_and_expect_okay(
                    MessageView::build(MessageCommand::Write, local_id, remote_id, payload),
                );
                match sent.1 {
                    Ok(_) => (sent.0, Ok(())),
                    Err(e) => (sent.0, Err(e)),
                }
            },
        }
    }

    /// What a request of the sync service does: the frame header goes out
    /// with the length of the body, then the body, each in a WRTE of its own.
    pub open spec fn request(self, subcommand: MessageSubcommand, body: Seq<u8>) -> (
        DeviceView,
        Result<(), ErrorView>,
    ) {
        let header = self.send_frame(
            (SubcommandWithArg { subcommand, arg: body.len() as u32 }).bytes(),
        );
        if header.1 is Err {
            header
        } else {
            header.0.send_frame(body)
        }
    }

    /// What a STAT on an open sync stream does on a reliable link: the
    /// request goes out with the path as its body; the answer must be a WRTE
    /// and is read as [`stat_reply`] says. A path that does not fit a packet
    /// is a `ConversionError`.
    pub open spec fn stat_with_explicit_ids(self, path: Seq<u8>) -> (
        DeviceView,
        Result<AdbStatResponse, ErrorView>,
    ) {
        if path.len() > MAX_PAYLOAD {
            (self, Err(ErrorView::ConversionError))
        } else {
            let asked = self.request(MessageSubcommand::Stat, path);
            match asked.1 {
                Err(e) => (asked.0, Err(e)),
                Ok(_) => {
                    let answer = asked.0.recv_and_reply_okay();
                    match answer.1 {
                        Err(e) => (answer.0, Err(e)),
                        Ok(m) => if m.header.command == MessageCommand::Write {
                            (answer.0, stat_reply(m.payload))
                        } else {
                            (
                                answer.0,
                                Err(
                                    ErrorView::UnexpectedCommand {
                                        received: m.header.command,
                                        expected: MessageCommand::Write,
                                    },
                                ),
                            )
                        },
                    }
                },
            }
        }
    }

    /// What ending a sync transaction does on a reliable link: the QUIT frame
    /// goes out, and the stream is closed.
    pub open spec fn end_transaction(self) -> (DeviceView, Result<(), ErrorView>) {
        let quit = self.send_frame(
            (SubcommandWithArg { subcommand: MessageSubcommand::Quit, arg: 0 }).bytes(),
        );
        if quit.1 is Err {
            quit
        } else {
            quit.0.close()
        }
    }

    /// What sending the rest of a file does: one DATA frame for each chunk of
    /// at most 64 KiB, in order, each in a WRTE with the identifiers given.
    pub open spec fn push_chunks(self, local_id: u32, remote_id: u32, data: Seq<u8>) -> (
        DeviceView,
        Result<(), ErrorView>,
    )
        decreases data.len(),
    {
        if data.len() == 0 {
            (self, Ok(()))
        } else {
            let n = if data.len() <= BUFFER_SIZE {
                data.len() as int
            } else {
                BUFFER_SIZE as int
            };
            let sent = self.send_and_expect_okay(
                MessageView::build(MessageCommand::Write, local_id, remote_id, data_frame(data.take(n))),
            );
            match sent.1 {
                Err(e) => (sent.0, Err(e)),
                Ok(_) => sent.0.push_chunks(local_id, remote_id, data.skip(n)),
            }
        }
    }

    /// What finishing a file does on a reliable link: DONE goes out with a
    /// time of zero, and one packet is received and acknowledged. A WRTE is
    /// the verdict and is read as [`send_reply`] says; a CLSE counts as
    /// success; after an OKAY the DONE is sent again; any other command is
    /// refused.
    pub open spec fn finish_push(self, local_id: u32, remote_id: u32) -> (
        DeviceView,
        Result<(), ErrorView>,
    )
        decreases self.link.pending.len(),
    {
        let done = self.send_and_expect_okay(
            MessageView::build(
                MessageCommand::Write,
                local_id,
                remote_id,
                (SubcommandWithArg { subcommand: MessageSubcommand::Done, arg: 0 }).bytes(),
            ),
        );
        match done.1 {
            Err(e) => (done.0, Err(e)),
            Ok(_) => {
                let answer = done.0.recv_and_reply_okay();
                match answer.1 {
                    Err(e) => (answer.0, Err(e)),
                    Ok(m) => match m.header.command {
                        MessageCommand::Write => (answer.0, send_reply(m.payload)),
                        MessageCommand::Clse => (answer.0, Ok(())),
                        MessageCommand::Okay => {
                            proof {
                                self.wrote(
                                    MessageView::build(
                                        MessageCommand::Write,
                                        local_id,
                                        remote_id,
                                        (SubcommandWithArg {
                                            subcommand: MessageSubcommand::Done,
                                            arg: 0,
                                        }).bytes(),
                                    ),
                                ).lemma_await_okay_takes();
                            }
                            answer.0.finish_push(local_id, remote_id)
                        },
                        other => (answer.0, Err(wrong_command(other))),
                    },
                }
            },
        }
    }

    /// What sending the rest of a file and finishing it does.
    pub open spec fn push_rest(self, local_id: u32, remote_id: u32, data: Seq<u8>) -> (
        DeviceView,
        Result<(), ErrorView>,
    ) {
        let rest = self.push_chunks(local_id, remote_id, data);
        match rest.1 {
            Err(e) => (rest.0, Err(e)),
            Ok(_) => rest.0.finish_push(local_id, remote_id),
        }
    }

    /// What sending a file does on a reliable link: the first chunk goes out
    /// even where the file is empty, the other chunks follow, and the file is
    /// finished as [`DeviceView::finish_push`] says.
    pub open spec fn push_file(self, local_id: u32, remote_id: u32, data: Seq<u8>) -> (
        DeviceView,
        Result<(), ErrorView>,
    ) {
        let n = if data.len() <= BUFFER_SIZE {
            data.len() as int
        } else {
            BUFFER_SIZE as int
        };
        let first = self.send_and_expect_okay(
            MessageView::build(MessageCommand::Write, local_id, remote_id, data_frame(data.take(n))),
        );
        match first.1 {
            Err(e) => (first.0, Err(e)),
            Ok(_) => first.0.push_rest(local_id, remote_id, data.skip(n)),
        }
    }

    /// What a STAT of a path does on a reliable link: the sync service is
    /// opened, the path is asked about, and the transaction is ended.
    pub open spec fn stat(self, path: Seq<u8>) -> (DeviceView, Result<AdbStatResponse, ErrorView>) {
        let opened = self.open_session(sync_destination());
        match opened.1 {
            Err(e) => (opened.0, Err(e)),
            Ok(_) => {
                let asked = opened.0.stat_with_explicit_ids(path);
                match asked.1 {
                    Err(e) => (asked.0, Err(e)),
                    Ok(stat) => {
                        let ended = asked.0.end_transaction();
                        match ended.1 {
                            Err(e) => (ended.0, Err(e)),
                            Ok(_) => (ended.0, Ok(stat)),
                        }
                    },
                }
            },
        }
    }

    /// What sending a file over an open sync stream does: the SEND request
    /// goes out with the path followed by `,0644` as its body, the file is
    /// sent, and the transaction is ended.
    pub open spec fn send_file(self, data: Seq<u8>, path: Seq<u8>) -> (
        DeviceView,
        Result<(), ErrorView>,
    ) {
        let named = self.request(MessageSubcommand::Send, path + send_mode_suffix());
        if named.1 is Err {
            named
        } else {
            match named.0.ids() {
                Err(e) => (named.0, Err(e)),
                Ok((local_id, remote_id)) => {
                    let sent = named.0.push_file(local_id, remote_id, data);
                    if sent.1 is Err {
                        sent
                    } else {
                        sent.0.end_transaction()
                    }
                },
            }
        }
    }

    /// What pushing a file to a path does on a reliable link: the sync
    /// service is opened and the file sent as [`DeviceView::send_file`] says.
    /// A path that does not fit a packet together with its mode is a
    /// `ConversionError`.
    pub open spec fn push(self, data: Seq<u8>, path: Seq<u8>) -> (
        DeviceView,
        Result<(), ErrorView>,
    ) {
        if path.len() + 5 > MAX_PAYLOAD {
            (self, Err(ErrorView::ConversionError))
        } else {
            let opened = self.open_session(sync_destination());
            match opened.1 {
                Err(e) => (opened.0, Err(e)),
                Ok(_) => opened.0.send_file(data, path),
            }
        }
    }

    /// What draining a shell stream does on a reliable link: packets are
    /// received and acknowledged, and their payloads gathered behind `output`,
    /// until a CLSE comes, which ends the stream.
    pub open spec fn drain(self, output: Seq<u8>) -> (DeviceView, Seq<u8>, Result<(), ErrorView>)
        decreases self.link.pending.len(),
    {
        let answer = self.recv_and_reply_okay();
        match answer.1 {
            Err(e) => (answer.0, output, Err(e)),
            Ok(m) => if m.header.command == MessageCommand::Clse {
                (DeviceView { local_id: None, remote_id: None, ..answer.0 }, output, Ok(()))
            } else {
                answer.0.drain(output + m.payload)
            },
        }
    }

    /// What receiving a file does on a reliable link: packets are received
    /// and acknowledged, and their payloads read as [`recv_payload`] says,
    /// until one ends with DONE.
    pub open spec fn recv_file(self, due: Option<u64>, output: Seq<u8>) -> (
        DeviceView,
        Seq<u8>,
        Result<(), ErrorView>,
    )
        decreases self.link.pending.len(),
    {
        let answer = self.recv_and_reply_okay();
        match answer.1 {
            Err(e) => (answer.0, output, Err(e)),
            Ok(m) => {
                let got = recv_payload(m.payload, 0, due, output);
                match got.2 {
                    Err(e) => (answer.0, got.1, Err(e)),
                    Ok(_) => if ends_with_done(m.payload) {
                        (answer.0, got.1, Ok(()))
                    } else {
                        answer.0.recv_file(got.0, got.1)
                    },
                }
            },
        }
    }

    /// What running a command in a shell does on a reliable link: the shell
    /// is opened with the command and its output is drained. A command that
    /// does not fit a packet is a `ConversionError`.
    pub open spec fn shell_command(self, command: Seq<Seq<u8>>, output: Seq<u8>) -> (
        DeviceView,
        Seq<u8>,
        Result<(), ErrorView>,
    ) {
        if shell_destination(command).len() > MAX_PAYLOAD {
            (self, output, Err(ErrorView::ConversionError))
        } else {
            let opened = self.open_session(shell_destination(command));
            match opened.1 {
                Err(e) => (opened.0, output, Err(e)),
                Ok(_) => opened.0.drain(output),
            }
        }
    }
}

} // verus!
