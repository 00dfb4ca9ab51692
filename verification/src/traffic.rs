//! Laws about what a session puts on the link: which streams a request
//! opens, that no directory is created twice, that the authentication signs
//! at most once, and that a file goes out whole.

use crate::auth::{auth_step_of, AUTH_TIMEOUT_SECS, AuthState, AuthStepView};
use crate::error::SyncErrorView;
use crate::message::{A_VERSION, AUTH_SIGNATURE, MAX_PAYLOAD, MessageCommand, MessageView};
use crate::paths::{dir_path, is_hidden, remote_path};
use crate::rsa::ADBRsaKey;
use crate::session::{DeviceView, joined, okay_packet, shell_destination, sync_destination};
use crate::sync::{BUFFER_SIZE, MessageSubcommand, SubcommandWithArg};
use crate::tree::{LocalEntry, LocalKind};
use crate::walk::{child_path, mkdir_command, no_stats, perform_sync, ProgressView, WalkView};
use vstd::prelude::*;
use vstd::utf8::{encode_utf8, encode_utf8_decode_utf8};

verus! {

/// The destinations of the OPEN packets of `sent`, in order.
pub open spec fn streams(sent: Seq<MessageView>) -> Seq<Seq<u8>>
    decreases sent.len(),
{
    if sent.len() == 0 {
        Seq::empty()
    } else if sent.last().header.command == MessageCommand::Open {
        streams(sent.drop_last()).push(sent.last().payload)
    } else {
        streams(sent.drop_last())
    }
}

/// The destination of the stream that creates a directory.
pub open spec fn mkdir_destination(dir: Seq<char>) -> Seq<u8> {
    shell_destination(mkdir_command(dir))
}

/// Two directories are created by two different commands.
pub proof fn lemma_mkdir_destination_differs(a: Seq<char>, b: Seq<char>)
    requires
        mkdir_destination(a) == mkdir_destination(b),
    ensures
        a == b,
{
    reveal_with_fuel(joined, 4);
    let head = seq![0x73u8, 0x68u8, 0x65u8, 0x6cu8, 0x6cu8, 0x3au8] + (encode_utf8("mkdir"@)
        + seq![0x20u8] + encode_utf8("-p"@) + seq![0x20u8]);
    let tail = seq![0x00u8];
    let x = encode_utf8(a);
    let y = encode_utf8(b);
    assert(mkdir_command(a).drop_last().drop_last() =~= seq![encode_utf8("mkdir"@)]);
    assert(mkdir_command(b).drop_last().drop_last() =~= seq![encode_utf8("mkdir"@)]);
    assert(mkdir_command(a).drop_last() =~= seq![encode_utf8("mkdir"@), encode_utf8("-p"@)]);
    assert(mkdir_command(b).drop_last() =~= seq![encode_utf8("mkdir"@), encode_utf8("-p"@)]);
    assert(mkdir_destination(a) =~= head + x + tail);
    assert(mkdir_destination(b) =~= head + y + tail);
    assert(x.len() == y.len());
    assert(x =~= (head + x + tail).subrange(head.len() as int, (head.len() + x.len()) as int));
    assert(y =~= (head + y + tail).subrange(head.len() as int, (head.len() + y.len()) as int));
    encode_utf8_decode_utf8(a);
    encode_utf8_decode_utf8(b);
}

impl DeviceView {
    /// The destinations of the streams that the device was asked to open.
    pub open spec fn streams(self) -> Seq<Seq<u8>> {
        streams(self.link.sent)
    }

    /// A packet that is written opens a stream if and only if it is an OPEN.
    pub proof fn lemma_wrote_streams(self, m: MessageView)
        ensures
            self.wrote(m).streams() == if m.header.command == MessageCommand::Open {
                self.streams().push(m.payload)
            } else {
                self.streams()
            },
            self.took().streams() == self.streams(),
    {
        assert(self.link.sent.push(m).drop_last() =~= self.link.sent);
    }

    /// Waiting for an OKAY opens no stream.
    pub proof fn lemma_await_okay_streams(self)
        ensures
            self.await_okay().0.streams() == self.streams(),
        decreases self.link.pending.len(),
    {
        if self.link.pending.len() > 0 {
            let m = self.link.pending[0];
            match m.header.command {
                MessageCommand::Write => match self.ids() {
                    Ok((local_id, remote_id)) => {
                        let okay = okay_packet(local_id, remote_id);
                        self.took().lemma_wrote_streams(okay);
                        self.lemma_wrote_streams(okay);
                        self.took().wrote(okay).lemma_await_okay_streams();
                    },
                    Err(e) => {},
                },
                MessageCommand::Clse => {
                    self.took().lemma_await_okay_streams();
                },
                _ => {},
            }
        }
    }

    /// Receiving a packet opens no stream.
    pub proof fn lemma_recv_streams(self)
        ensures
            self.recv_and_reply_okay().0.streams() == self.streams(),
    {
        if self.link.pending.len() > 0 {
            match self.ids() {
                Ok((local_id, remote_id)) => {
                    self.took().lemma_wrote_streams(okay_packet(local_id, remote_id));
                },
                Err(e) => {},
            }
        }
    }

    /// Sending a packet that is no OPEN opens no stream.
    pub proof fn lemma_send_streams(self, m: MessageView)
        requires
            m.header.command != MessageCommand::Open,
        ensures
            self.send_and_expect_okay(m).0.streams() == self.streams(),
    {
        self.lemma_wrote_streams(m);
        self.wrote(m).lemma_await_okay_streams();
    }

    /// Sending a frame of the sync service opens no stream.
    pub proof fn lemma_send_frame_streams(self, payload: Seq<u8>)
        ensures
            self.send_frame(payload).0.streams() == self.streams(),
    {
        match self.ids() {
            Ok((local_id, remote_id)) => {
                self.lemma_send_streams(
                    MessageView::build(MessageCommand::Write, local_id, remote_id, payload),
                );
            },
            Err(e) => {},
        }
    }

    /// A request of the sync service opens no stream.
    pub proof fn lemma_request_streams(self, subcommand: MessageSubcommand, body: Seq<u8>)
        ensures
            self.request(subcommand, body).0.streams() == self.streams(),
    {
        let header = (SubcommandWithArg { subcommand, arg: body.len() as u32 }).bytes();
        self.lemma_send_frame_streams(header);
        self.send_frame(header).0.lemma_send_frame_streams(body);
    }

    /// Opening a stream asks for its destination, whatever the answer.
    pub proof fn lemma_open_streams(self, data: Seq<u8>)
        ensures
            self.open_session(data).0.streams() == self.streams().push(data),
    {
        let asked = DeviceView {
            next_id: crate::session::next_stream_id(crate::session::stream_id(self.next_id)),
            ..self
        };
        asked.lemma_wrote_streams(
            MessageView::build(MessageCommand::Open, crate::session::stream_id(self.next_id), 0, data),
        );
    }

    /// Closing a stream, and ending a transaction, opens no stream.
    pub proof fn lemma_close_streams(self)
        ensures
            self.close().0.streams() == self.streams(),
            self.end_transaction().0.streams() == self.streams(),
    {
        match self.ids() {
            Ok((local_id, remote_id)) => {
                self.lemma_wrote_streams(
                    MessageView::build(MessageCommand::Clse, local_id, remote_id, Seq::empty()),
                );
            },
            Err(e) => {},
        }
        let quit = (SubcommandWithArg { subcommand: MessageSubcommand::Quit, arg: 0 }).bytes();
        self.lemma_send_frame_streams(quit);
        let after = self.send_frame(quit).0;
        match after.ids() {
            Ok((local_id, remote_id)) => {
                after.lemma_wrote_streams(
                    MessageView::build(MessageCommand::Clse, local_id, remote_id, Seq::empty()),
                );
            },
            Err(e) => {},
        }
    }

    /// Sending the chunks of a file opens no stream.
    pub proof fn lemma_push_chunks_streams(self, local_id: u32, remote_id: u32, data: Seq<u8>)
        ensures
            self.push_chunks(local_id, remote_id, data).0.streams() == self.streams(),
        decreases data.len(),
    {
        if data.len() > 0 {
            let n = if data.len() <= BUFFER_SIZE {
                data.len() as int
            } else {
                BUFFER_SIZE as int
            };
            let m = MessageView::build(
                MessageCommand::Write,
                local_id,
                remote_id,
                crate::session::data_frame(data.take(n)),
            );
            self.lemma_send_streams(m);
            let sent = self.send_and_expect_okay(m);
            if sent.1 is Ok {
                sent.0.lemma_push_chunks_streams(local_id, remote_id, data.skip(n));
            }
        }
    }

    /// Finishing a file opens no stream.
    pub proof fn lemma_finish_push_streams(self, local_id: u32, remote_id: u32)
        ensures
            self.finish_push(local_id, remote_id).0.streams() == self.streams(),
        decreases self.link.pending.len(),
    {
        let m = MessageView::build(
            MessageCommand::Write,
            local_id,
            remote_id,
            (SubcommandWithArg { subcommand: MessageSubcommand::Done, arg: 0 }).bytes(),
        );
        self.lemma_send_streams(m);
        let done = self.send_and_expect_okay(m);
        if done.1 is Ok {
            done.0.lemma_recv_streams();
            let answer = done.0.recv_and_reply_okay();
            if answer.1 is Ok && answer.1->Ok_0.header.command == MessageCommand::Okay {
                self.wrote(m).lemma_await_okay_takes();
                answer.0.lemma_finish_push_streams(local_id, remote_id);
            }
        }
    }

    /// Sending a file opens no stream.
    pub proof fn lemma_push_file_streams(self, local_id: u32, remote_id: u32, data: Seq<u8>)
        ensures
            self.push_file(local_id, remote_id, data).0.streams() == self.streams(),
    {
        let n = if data.len() <= BUFFER_SIZE {
            data.len() as int
        } else {
            BUFFER_SIZE as int
        };
        let m = MessageView::build(
            MessageCommand::Write,
            local_id,
            remote_id,
            crate::session::data_frame(data.take(n)),
        );
        self.lemma_send_streams(m);
        let first = self.send_and_expect_okay(m);
        if first.1 is Ok {
            first.0.lemma_push_chunks_streams(local_id, remote_id, data.skip(n));
            let rest = first.0.push_chunks(local_id, remote_id, data.skip(n));
            if rest.1 is Ok {
                rest.0.lemma_finish_push_streams(local_id, remote_id);
            }
        }
    }

    /// A STAT on an open stream opens no stream.
    pub proof fn lemma_stat_with_ids_streams(self, path: Seq<u8>)
        ensures
            self.stat_with_explicit_ids(path).0.streams() == self.streams(),
    {
        if path.len() <= MAX_PAYLOAD {
            self.lemma_request_streams(MessageSubcommand::Stat, path);
            let asked = self.request(MessageSubcommand::Stat, path);
            if asked.1 is Ok {
                asked.0.lemma_recv_streams();
            }
        }
    }

    /// A STAT of a path opens the sync service once.
    pub proof fn lemma_stat_streams(self, path: Seq<u8>)
        ensures
            self.stat(path).0.streams() == self.streams().push(sync_destination()),
    {
        self.lemma_open_streams(sync_destination());
        let opened = self.open_session(sync_destination());
        if opened.1 is Ok {
            opened.0.lemma_stat_with_ids_streams(path);
            let asked = opened.0.stat_with_explicit_ids(path);
            if asked.1 is Ok {
                asked.0.lemma_close_streams();
            }
        }
    }

    /// A push of a file opens the sync service once, or nothing where the
    /// path does not fit a packet.
    pub proof fn lemma_push_streams(self, data: Seq<u8>, path: Seq<u8>)
        ensures
            self.push(data, path).0.streams() == if path.len() + 5 > MAX_PAYLOAD {
                self.streams()
            } else {
                self.streams().push(sync_destination())
            },
    {
        if path.len() + 5 <= MAX_PAYLOAD {
            self.lemma_open_streams(sync_destination());
            let opened = self.open_session(sync_destination());
            if opened.1 is Ok {
                let body = path + crate::session::send_mode_suffix();
                opened.0.lemma_request_streams(MessageSubcommand::Send, body);
                let named = opened.0.request(MessageSubcommand::Send, body);
                if named.1 is Ok {
                    match named.0.ids() {
                        Ok((local_id, remote_id)) => {
                            named.0.lemma_push_file_streams(local_id, remote_id, data);
                            let sent = named.0.push_file(local_id, remote_id, data);
                            if sent.1 is Ok {
                                sent.0.lemma_close_streams();
                            }
                        },
                        Err(e) => {},
                    }
                }
            }
        }
    }

    /// Draining a shell stream opens no stream.
    pub proof fn lemma_drain_streams(self, output: Seq<u8>)
        ensures
            self.drain(output).0.streams() == self.streams(),
        decreases self.link.pending.len(),
    {
        self.lemma_recv_streams();
        let answer = self.recv_and_reply_okay();
        if answer.1 is Ok {
            let m = answer.1->Ok_0;
            if m.header.command != MessageCommand::Clse {
                answer.0.lemma_drain_streams(output + m.payload);
            }
        }
    }

    /// A command run in a shell opens the shell once, or nothing where the
    /// command does not fit a packet.
    pub proof fn lemma_shell_streams(self, command: Seq<Seq<u8>>, output: Seq<u8>)
        ensures
            self.shell_command(command, output).0.streams() == if shell_destination(command).len()
                > MAX_PAYLOAD {
                self.streams()
            } else {
                self.streams().push(shell_destination(command))
            },
    {
        if shell_destination(command).len() <= MAX_PAYLOAD {
            self.lemma_open_streams(shell_destination(command));
            let opened = self.open_session(shell_destination(command));
            if opened.1 is Ok {
                opened.0.lemma_drain_streams(output);
            }
        }
    }
}

/// Whether a stream creates one of the directories of a list.
pub open spec fn creates_one_of(stream: Seq<u8>, created: Seq<Seq<char>>) -> bool {
    exists|d: Seq<char>| created.contains(d) && stream == #[trigger] mkdir_destination(d)
}

/// Whether the streams opened from the place `base` on are in order: each is
/// the sync service or creates a directory that was noted, and no two of
/// them are the same unless they are the sync service.
pub open spec fn tidy(opened: Seq<Seq<u8>>, created: Seq<Seq<char>>, base: nat) -> bool {
    &&& base <= opened.len()
    &&& forall|i: int|
        base <= i < opened.len() ==> #[trigger] opened[i] == sync_destination() || creates_one_of(
            opened[i],
            created,
        )
    &&& forall|i: int, j: int|
        base <= i < j < opened.len() && #[trigger] opened[i] == #[trigger] opened[j] ==> opened[i]
            == sync_destination()
}

/// Streams stay in order where more directories are noted.
pub proof fn lemma_tidy_noted(
    opened: Seq<Seq<u8>>,
    created: Seq<Seq<char>>,
    more: Seq<Seq<char>>,
    base: nat,
)
    requires
        tidy(opened, created, base),
        forall|d: Seq<char>| created.contains(d) ==> more.contains(d),
    ensures
        tidy(opened, more, base),
{
    assert forall|i: int| base <= i < opened.len() implies #[trigger] opened[i]
        == sync_destination() || creates_one_of(opened[i], more) by {
        if opened[i] != sync_destination() {
            let d = choose|d: Seq<char>|
                created.contains(d) && opened[i] == #[trigger] mkdir_destination(d);
            assert(more.contains(d) && opened[i] == mkdir_destination(d));
        }
    }
}

/// Streams stay in order where the sync service is opened once more.
pub proof fn lemma_tidy_sync(opened: Seq<Seq<u8>>, created: Seq<Seq<char>>, base: nat)
    requires
        tidy(opened, created, base),
    ensures
        tidy(opened.push(sync_destination()), created, base),
{
    let after = opened.push(sync_destination());
    assert forall|i: int| base <= i < after.len() implies #[trigger] after[i] == sync_destination()
        || creates_one_of(after[i], created) by {
        if i < opened.len() {
            assert(after[i] == opened[i]);
        }
    }
    assert forall|i: int, j: int|
        base <= i < j < after.len() && #[trigger] after[i] == #[trigger] after[j] implies after[i]
        == sync_destination() by {
        if j < opened.len() {
            assert(after[i] == opened[i] && after[j] == opened[j]);
        }
    }
}

/// Streams stay in order where a directory that was not noted is noted and
/// created.
pub proof fn lemma_tidy_mkdir(
    opened: Seq<Seq<u8>>,
    created: Seq<Seq<char>>,
    dir: Seq<char>,
    base: nat,
)
    requires
        tidy(opened, created, base),
        !created.contains(dir),
    ensures
        tidy(opened.push(mkdir_destination(dir)), created.push(dir), base),
{
    let after = opened.push(mkdir_destination(dir));
    let noted = created.push(dir);
    assert(noted[noted.len() - 1] == dir);
    assert forall|d: Seq<char>| created.contains(d) implies noted.contains(d) by {
        let k = choose|k: int| 0 <= k < created.len() && created[k] == d;
        assert(noted[k] == d);
    }
    lemma_tidy_noted(opened, created, noted, base);
    assert forall|i: int| base <= i < after.len() implies #[trigger] after[i] == sync_destination()
        || creates_one_of(after[i], noted) by {
        if i < opened.len() {
            assert(after[i] == opened[i]);
        } else {
            assert(noted.contains(dir) && after[i] == mkdir_destination(dir));
        }
    }
    assert forall|i: int, j: int|
        base <= i < j < after.len() && #[trigger] after[i] == #[trigger] after[j] implies after[i]
        == sync_destination() by {
        if j < opened.len() {
            assert(after[i] == opened[i] && after[j] == opened[j]);
        } else {
            assert(after[i] == opened[i]);
            if opened[i] != sync_destination() {
                let d = choose|d: Seq<char>|
                    created.contains(d) && opened[i] == #[trigger] mkdir_destination(d);
                lemma_mkdir_destination_differs(d, dir);
            }
        }
    }
}

impl WalkView {
    /// Whether the streams that the walk has opened from the place `base`
    /// on are in order, see [`tidy`].
    pub open spec fn tidy(self, base: nat) -> bool {
        tidy(self.device.streams(), self.created, base)
    }

    /// Taking care of a directory keeps the streams in order.
    pub proof fn lemma_ensure_tidy(self, remote_dir: Seq<char>, dry_run: bool, base: nat)
        requires
            self.tidy(base),
        ensures
            self.ensure_remote_dir(remote_dir, dry_run).0.tidy(base),
    {
        let normal = dir_path(remote_dir);
        if !self.created.contains(normal) {
            let noted = self.created.push(normal);
            assert forall|d: Seq<char>| self.created.contains(d) implies noted.contains(d) by {
                let k = choose|k: int| 0 <= k < self.created.len() && self.created[k] == d;
                assert(noted[k] == d);
            }
            lemma_tidy_noted(self.device.streams(), self.created, noted, base);
            if normal != seq!['/'] && !dry_run {
                self.device.lemma_shell_streams(mkdir_command(normal), Seq::empty());
                if shell_destination(mkdir_command(normal)).len() <= MAX_PAYLOAD {
                    lemma_tidy_mkdir(self.device.streams(), self.created, normal, base);
                }
            }
        }
    }

    /// Syncing a file keeps the streams in order.
    pub proof fn lemma_push_file_tidy(
        self,
        content: Seq<u8>,
        path: Seq<char>,
        dry_run: bool,
        base: nat,
    )
        requires
            self.tidy(base),
        ensures
            self.push_file(content, path, dry_run).0.tidy(base),
    {
        self.device.lemma_stat_streams(encode_utf8(path));
        lemma_tidy_sync(self.device.streams(), self.created, base);
        let probe = self.device.stat(encode_utf8(path));
        let decided = self.device.file_is_unchanged(path, content.len() as u64);
        assert(decided.0 == probe.0);
        if decided.1 == Ok::<bool, SyncErrorView>(false) && !dry_run {
            decided.0.lemma_push_streams(content, encode_utf8(path));
            lemma_tidy_sync(decided.0.streams(), self.created, base);
        }
    }

    /// Walking a tree keeps the streams in order.
    pub proof fn lemma_sync_directory_tidy(
        self,
        progress: ProgressView,
        entries: Seq<LocalEntry>,
        relative_dir: Seq<char>,
        remote_root: Seq<char>,
        dry_run: bool,
        base: nat,
    )
        requires
            self.tidy(base),
        ensures
            self.sync_directory(progress, entries, relative_dir, remote_root, dry_run).0.tidy(base),
        decreases entries,
    {
        if entries.len() > 0 {
            let entry = entries[0];
            let relative = child_path(relative_dir, entry.name@);
            let done = if is_hidden(entry.name@) {
                (self.skipped(), progress, Ok::<(), SyncErrorView>(()))
            } else {
                match entry.kind {
                    LocalKind::Directory(children) => {
                        let made = self.ensure_remote_dir(
                            remote_path(remote_root, relative),
                            dry_run,
                        );
                        self.lemma_ensure_tidy(remote_path(remote_root, relative), dry_run, base);
                        match made.1 {
                            Err(e) => (made.0, progress, Err(e)),
                            Ok(_) => {
                                made.0.lemma_sync_directory_tidy(
                                    progress,
                                    children@,
                                    relative,
                                    remote_root,
                                    dry_run,
                                    base,
                                );
                                made.0.sync_directory(progress, children@, relative, remote_root, dry_run)
                            },
                        }
                    },
                    LocalKind::File(content) => {
                        let remote_file = remote_path(remote_root, relative);
                        let made = self.ensure_remote_dir(
                            remote_path(remote_root, relative_dir),
                            dry_run,
                        );
                        self.lemma_ensure_tidy(remote_path(remote_root, relative_dir), dry_run, base);
                        match made.1 {
                            Err(e) => (made.0, progress, Err(e)),
                            Ok(_) => {
                                let pushed = made.0.push_file(content@, remote_file, dry_run);
                                made.0.lemma_push_file_tidy(content@, remote_file, dry_run, base);
                                match pushed.1 {
                                    Err(e) => (pushed.0, progress, Err(e)),
                                    Ok(_) => (
                                        pushed.0,
                                        progress.advanced(Some(remote_file)),
                                        Ok(()),
                                    ),
                                }
                            },
                        }
                    },
                    LocalKind::Other => (self.skipped(), progress, Ok(())),
                }
            };
            assert(done.0.tidy(base));
            if done.2 is Ok {
                done.0.lemma_sync_directory_tidy(
                    done.1,
                    entries.drop_first(),
                    relative_dir,
                    remote_root,
                    dry_run,
                    base,
                );
            }
        }
    }

    /// Creating the directories of a list keeps the streams in order.
    pub proof fn lemma_create_tidy(
        self,
        progress: ProgressView,
        directories: Seq<Seq<char>>,
        dry_run: bool,
        base: nat,
    )
        requires
            self.tidy(base),
        ensures
            self.create_remote_directories(progress, directories, dry_run).0.tidy(base),
        decreases directories.len(),
    {
        if directories.len() > 0 {
            let normal = dir_path(directories[0]);
            let made = self.ensure_remote_dir(directories[0], dry_run);
            self.lemma_ensure_tidy(directories[0], dry_run, base);
            if made.1 is Ok {
                made.0.lemma_create_tidy(
                    if self.created.contains(normal) || normal == seq!['/'] {
                        progress
                    } else {
                        progress.advanced(Some(normal))
                    },
                    directories.drop_first(),
                    dry_run,
                    base,
                );
            }
        }
    }
}

/// Dedup: a sync request creates no remote directory twice. Of the streams
/// that the request opens, each is the sync service or runs `mkdir -p` for a
/// directory that the walk has noted, and no two of them run the same
/// command.
pub proof fn lemma_no_directory_created_twice(
    device: DeviceView,
    progress: ProgressView,
    entries: Seq<LocalEntry>,
    directories: Seq<Seq<char>>,
    remote_root: Seq<char>,
    dry_run: bool,
)
    ensures
        ({
            let before = device.streams();
            let after = perform_sync(device, progress, entries, directories, remote_root, dry_run).0;
            let opened = after.device.streams();
            &&& before.len() <= opened.len()
            &&& forall|i: int|
                before.len() <= i < opened.len() ==> #[trigger] opened[i] == sync_destination()
                    || creates_one_of(opened[i], after.created)
            &&& forall|i: int, j: int|
                before.len() <= i < j < opened.len() && #[trigger] opened[i] == #[trigger] opened[j]
                    ==> opened[i] == sync_destination()
        }),
{
    let base = device.streams().len();
    let start = WalkView { device, created: Seq::empty(), stats: no_stats() };
    assert(start.tidy(base));
    start.lemma_create_tidy(progress, directories, dry_run, base);
    let prepared = start.create_remote_directories(progress, directories, dry_run);
    if prepared.2 is Ok {
        prepared.0.lemma_ensure_tidy(remote_root, dry_run, base);
        let rooted = prepared.0.ensure_remote_dir(remote_root, dry_run);
        if rooted.1 is Ok {
            rooted.0.lemma_sync_directory_tidy(
                prepared.1,
                entries,
                Seq::empty(),
                remote_root,
                dry_run,
                base,
            );
        }
    }
}

/// The number of signatures among the packets of `sent`.
pub open spec fn signatures(sent: Seq<MessageView>) -> nat
    decreases sent.len(),
{
    if sent.len() == 0 {
        0
    } else {
        signatures(sent.drop_last()) + if sent.last().header.command == MessageCommand::Auth
            && sent.last().header.arg0 == AUTH_SIGNATURE {
            1nat
        } else {
            0nat
        }
    }
}

impl DeviceView {
    /// The authentication signs at most once: a signature goes out for the
    /// first token only, and none once a token was answered.
    pub proof fn lemma_auth_signs_once(self, state: AuthState, m: MessageView, key: &ADBRsaKey)
        ensures
            signatures(self.auth_handshake(state, m, key).0.link.sent) <= signatures(self.link.sent)
                + if state == AuthState::AwaitChallenge {
                1nat
            } else {
                0nat
            },
        decreases self.link.pending.len(),
    {
        let step = auth_step_of(state, m, key);
        match step {
            AuthStepView::Ready => {},
            AuthStepView::Fail(e) => {},
            _ => {
                let next = if let AuthStepView::Reply(next, _) = step {
                    next
                } else {
                    state
                };
                let waiting = if let AuthStepView::Reply(_, reply) = step {
                    self.wrote(reply)
                } else {
                    self
                };
                if let AuthStepView::Reply(_, reply) = step {
                    assert(self.link.sent.push(reply).drop_last() =~= self.link.sent);
                    assert(state != AuthState::AwaitChallenge ==> !(reply.header.command
                        == MessageCommand::Auth && reply.header.arg0 == AUTH_SIGNATURE));
                    assert(next != AuthState::AwaitChallenge);
                }
                if waiting.link.pending.len() > 0 {
                    waiting.waited(AUTH_TIMEOUT_SECS).took().lemma_auth_signs_once(
                        next,
                        waiting.link.pending[0],
                        key,
                    );
                }
            },
        }
    }

    /// Connecting signs at most once.
    pub proof fn lemma_connect_signs_once(self, key: &ADBRsaKey)
        ensures
            signatures(self.connect(key).0.link.sent) <= signatures(self.link.sent) + 1,
    {
        let hello = MessageView::build(
            MessageCommand::Cnxn,
            A_VERSION,
            MAX_PAYLOAD,
            crate::session::host_banner(),
        );
        let waiting = self.wrote(hello);
        assert(self.link.sent.push(hello).drop_last() =~= self.link.sent);
        if waiting.link.pending.len() > 0 {
            waiting.waited(AUTH_TIMEOUT_SECS).took().lemma_auth_signs_once(
                AuthState::AwaitChallenge,
                waiting.link.pending[0],
                key,
            );
        }
    }
}

/// Whether a packet carries a DATA frame: a WRTE whose payload starts with
/// the letters `DATA` and an argument.
pub open spec fn is_data_frame(m: MessageView) -> bool {
    m.header.command == MessageCommand::Write && m.payload.len() >= 8 && crate::wire::le_value(
        m.payload.subrange(0, 4),
    ) == MessageSubcommand::Data.code()
}

/// The file content that the packets of `sent` carry: what follows the
/// header in each DATA frame, in order.
pub open spec fn file_data(sent: Seq<MessageView>) -> Seq<u8>
    decreases sent.len(),
{
    if sent.len() == 0 {
        Seq::empty()
    } else {
        file_data(sent.drop_last()) + if is_data_frame(sent.last()) {
            sent.last().payload.skip(8)
        } else {
            Seq::<u8>::empty()
        }
    }
}

/// The payload of a frame starts with the identifier of the frame.
pub proof fn lemma_frame_tag(subcommand: MessageSubcommand, arg: u32, tail: Seq<u8>)
    ensures
        ({
            let payload = (SubcommandWithArg { subcommand, arg }).bytes() + tail;
            &&& payload.len() == 8 + tail.len()
            &&& crate::wire::le_value(payload.subrange(0, 4)) == subcommand.code()
            &&& payload.skip(8) == tail
        }),
{
    let payload = (SubcommandWithArg { subcommand, arg }).bytes() + tail;
    crate::wire::lemma_le_value_of_bytes(subcommand.code());
    crate::wire::lemma_le_value_of_bytes(arg);
    assert(payload.subrange(0, 4) =~= crate::wire::le_bytes(subcommand.code()));
    assert(payload.skip(8) =~= tail);
}

impl DeviceView {
    /// The file content that was sent to the device so far.
    pub open spec fn file_data(self) -> Seq<u8> {
        file_data(self.link.sent)
    }

    /// A packet that is written adds its chunk if it is a DATA frame, and
    /// nothing otherwise.
    pub proof fn lemma_wrote_data(self, m: MessageView)
        ensures
            self.wrote(m).file_data() == self.file_data() + if is_data_frame(m) {
                m.payload.skip(8)
            } else {
                Seq::<u8>::empty()
            },
            self.took().file_data() == self.file_data(),
    {
        assert(self.link.sent.push(m).drop_last() =~= self.link.sent);
    }

    /// Waiting for an OKAY sends no file content.
    pub proof fn lemma_await_okay_data(self)
        ensures
            self.await_okay().0.file_data() == self.file_data(),
        decreases self.link.pending.len(),
    {
        if self.link.pending.len() > 0 {
            let m = self.link.pending[0];
            match m.header.command {
                MessageCommand::Write => match self.ids() {
                    Ok((local_id, remote_id)) => {
                        let okay = okay_packet(local_id, remote_id);
                        self.took().lemma_wrote_data(okay);
                        self.lemma_wrote_data(okay);
                        assert(self.took().wrote(okay).file_data() =~= self.file_data());
                        self.took().wrote(okay).lemma_await_okay_data();
                    },
                    Err(e) => {},
                },
                MessageCommand::Clse => {
                    self.took().lemma_await_okay_data();
                },
                _ => {},
            }
        }
    }

    /// Sending a chunk sends just that chunk.
    pub proof fn lemma_send_chunk_data(self, local_id: u32, remote_id: u32, chunk: Seq<u8>)
        requires
            chunk.len() <= BUFFER_SIZE,
        ensures
            self.send_and_expect_okay(
                MessageView::build(
                    MessageCommand::Write,
                    local_id,
                    remote_id,
                    crate::session::data_frame(chunk),
                ),
            ).0.file_data() == self.file_data() + chunk,
    {
        let m = MessageView::build(
            MessageCommand::Write,
            local_id,
            remote_id,
            crate::session::data_frame(chunk),
        );
        lemma_frame_tag(MessageSubcommand::Data, chunk.len() as u32, chunk);
        self.lemma_wrote_data(m);
        self.wrote(m).lemma_await_okay_data();
    }

    /// Sending the chunks of a file sends its content, as far as it gets.
    pub proof fn lemma_push_chunks_data(self, local_id: u32, remote_id: u32, data: Seq<u8>)
        ensures
            self.push_chunks(local_id, remote_id, data).1 is Ok ==> self.push_chunks(
                local_id,
                remote_id,
                data,
            ).0.file_data() == self.file_data() + data,
        decreases data.len(),
    {
        if data.len() == 0 {
            assert(self.file_data() + data =~= self.file_data());
        } else {
            let n = if data.len() <= BUFFER_SIZE {
                data.len() as int
            } else {
                BUFFER_SIZE as int
            };
            self.lemma_send_chunk_data(local_id, remote_id, data.take(n));
            let sent = self.send_and_expect_okay(
                MessageView::build(
                    MessageCommand::Write,
                    local_id,
                    remote_id,
                    crate::session::data_frame(data.take(n)),
                ),
            );
            if sent.1 is Ok {
                sent.0.lemma_push_chunks_data(local_id, remote_id, data.skip(n));
                assert(data.take(n) + data.skip(n) =~= data);
                assert(self.file_data() + data.take(n) + data.skip(n) =~= self.file_data() + data);
            }
        }
    }

    /// Finishing a file sends no file content.
    pub proof fn lemma_finish_push_data(self, local_id: u32, remote_id: u32)
        ensures
            self.finish_push(local_id, remote_id).0.file_data() == self.file_data(),
        decreases self.link.pending.len(),
    {
        let done = (SubcommandWithArg { subcommand: MessageSubcommand::Done, arg: 0 }).bytes();
        let m = MessageView::build(MessageCommand::Write, local_id, remote_id, done);
        lemma_frame_tag(MessageSubcommand::Done, 0, Seq::empty());
        assert(done + Seq::<u8>::empty() =~= done);
        self.lemma_wrote_data(m);
        assert(self.wrote(m).file_data() =~= self.file_data());
        self.wrote(m).lemma_await_okay_data();
        let sent = self.send_and_expect_okay(m);
        if sent.1 is Ok {
            let answer = sent.0.recv_and_reply_okay();
            if sent.0.link.pending.len() > 0 {
                match sent.0.ids() {
                    Ok((local, remote)) => {
                        sent.0.took().lemma_wrote_data(okay_packet(local, remote));
                        sent.0.lemma_wrote_data(okay_packet(local, remote));
                        assert(sent.0.took().wrote(okay_packet(local, remote)).file_data()
                            =~= sent.0.file_data());
                    },
                    Err(e) => {},
                }
            }
            assert(answer.0.file_data() == self.file_data());
            if answer.1 is Ok && answer.1->Ok_0.header.command == MessageCommand::Okay {
                self.wrote(m).lemma_await_okay_takes();
                answer.0.lemma_finish_push_data(local_id, remote_id);
            }
        }
    }

    /// No silent loss: a file that was sent with success went out whole. The
    /// chunks of its DATA frames, one after the other, are its content.
    pub proof fn lemma_push_file_sends_all(self, local_id: u32, remote_id: u32, data: Seq<u8>)
        ensures
            self.push_file(local_id, remote_id, data).1 is Ok ==> self.push_file(
                local_id,
                remote_id,
                data,
            ).0.file_data() == self.file_data() + data,
    {
        let n = if data.len() <= BUFFER_SIZE {
            data.len() as int
        } else {
            BUFFER_SIZE as int
        };
        self.lemma_send_chunk_data(local_id, remote_id, data.take(n));
        let first = self.send_and_expect_okay(
            MessageView::build(
                MessageCommand::Write,
                local_id,
                remote_id,
                crate::session::data_frame(data.take(n)),
            ),
        );
        if first.1 is Ok {
            first.0.lemma_push_chunks_data(local_id, remote_id, data.skip(n));
            let rest = first.0.push_chunks(local_id, remote_id, data.skip(n));
            if rest.1 is Ok {
                rest.0.lemma_finish_push_data(local_id, remote_id);
                assert(self.file_data() + data.take(n) + data.skip(n) =~= self.file_data() + data);
            }
        }
    }
}

} // verus!
