//! The walk as contracts see it: the state that a sync request carries
//! along, and what each step does to it on a reliable link.

use crate::error::{ErrorView, SyncErrorView};
use crate::paths::{dir_path, is_hidden, remote_path, says_missing};
use crate::session::DeviceView;
use crate::sync::AdbStatResponse;
use crate::tree::{LocalEntry, LocalKind};
use vstd::prelude::*;
use vstd::utf8::encode_utf8;

verus! {

/// What a sync request has done so far.
#[derive(Clone, Copy, Debug, PartialEq, Eq, Structural)]
pub struct SyncStats {
    pub files_synced: usize,
    /// The walk never deletes: this stays zero.
    pub files_deleted: usize,
    pub skipped_entries: usize,
    pub directories_created: usize,
    pub bytes_uploaded: u64,
}

/// A progress record as a mathematical value.
pub struct ProgressEvent {
    pub processed_files: usize,
    pub total_files: usize,
    pub current_file: Option<Seq<char>>,
    pub dry_run: bool,
}

/// The progress of a request as contracts see it: the records emitted so
/// far and the counter behind them.
#[verifier::ext_equal]
pub struct ProgressView {
    pub events: Seq<ProgressEvent>,
    pub total_files: usize,
    pub processed_files: usize,
    pub dry_run: bool,
}

impl ProgressView {
    /// The progress after a record about `current` was emitted.
    pub open spec fn emitted(self, current: Option<Seq<char>>) -> ProgressView {
        ProgressView {
            events: self.events.push(
                ProgressEvent {
                    processed_files: self.processed_files,
                    total_files: self.total_files,
                    current_file: current,
                    dry_run: self.dry_run,
                },
            ),
            ..self
        }
    }

    /// The progress after one more item was finished: the counter goes up by
    /// one, as far as a `usize` can count, and a record is emitted.
    pub open spec fn advanced(self, current: Option<Seq<char>>) -> ProgressView {
        ProgressView {
            processed_files: if self.processed_files < usize::MAX {
                (self.processed_files + 1) as usize
            } else {
                self.processed_files
            },
            ..self
        }.emitted(current)
    }

    /// The progress at the start of a request: one record, nothing finished.
    pub open spec fn started(total_files: usize, dry_run: bool) -> ProgressView {
        ProgressView { events: Seq::empty(), total_files, processed_files: 0, dry_run }.emitted(None)
    }
}

/// The state of a walk as contracts see it: the device, the remote
/// directories taken care of so far, and the statistics.
#[verifier::ext_equal]
pub struct WalkView {
    pub device: DeviceView,
    pub created: Seq<Seq<char>>,
    pub stats: SyncStats,
}

/// Whether a step of the walk went as its model says: the walk is in the
/// state, and the result is the one, that the model gives.
pub open spec fn walked(
    walk: WalkView,
    result: Result<(), SyncErrorView>,
    model: (WalkView, Result<(), SyncErrorView>),
) -> bool {
    walk =~= model.0 && result == model.1
}

/// [`walked`], for a step that reports progress.
pub open spec fn walked_with(
    walk: WalkView,
    progress: ProgressView,
    result: Result<(), SyncErrorView>,
    model: (WalkView, ProgressView, Result<(), SyncErrorView>),
) -> bool {
    walk =~= model.0 && progress =~= model.1 && result == model.2
}

/// Whether a question to the device went as its model says.
pub open spec fn answered<R>(
    device: DeviceView,
    result: Result<R, SyncErrorView>,
    model: (DeviceView, Result<R, SyncErrorView>),
) -> bool {
    device =~= model.0 && result == model.1
}

/// The command that creates a directory and those above it.
pub open spec fn mkdir_command(dir: Seq<char>) -> Seq<Seq<u8>> {
    seq![encode_utf8("mkdir"@), encode_utf8("-p"@), encode_utf8(dir)]
}

/// The relative path of the entry `name` of the directory `relative_dir`.
pub open spec fn child_path(relative_dir: Seq<char>, name: Seq<char>) -> Seq<char> {
    if relative_dir.len() == 0 {
        name
    } else {
        relative_dir + seq!['/'] + name
    }
}

/// Whether a file may be skipped: it is there on the device, and as large
/// there as here. The size is all that is compared.
pub open spec fn unchanged(remote: Option<AdbStatResponse>, local_len: u64) -> bool {
    remote matches Some(stat) && stat.file_size as u64 == local_len
}

impl DeviceView {
    /// What the device knows of a path, on a reliable link: the answer to a
    /// STAT, or nothing where the mode is zero or the device complains that
    /// the file is missing. Any other failure stays a failure.
    pub open spec fn remote_metadata(self, path: Seq<char>) -> (
        DeviceView,
        Result<Option<AdbStatResponse>, SyncErrorView>,
    ) {
        let probe = self.stat(encode_utf8(path));
        match probe.1 {
            Ok(stat) => if stat.file_perm == 0 {
                (probe.0, Ok(None))
            } else {
                (probe.0, Ok(Some(stat)))
            },
            Err(ErrorView::ADBRequestFailed(message)) => if says_missing(message) {
                (probe.0, Ok(None))
            } else {
                (probe.0, Err(SyncErrorView::Adb(ErrorView::ADBRequestFailed(message))))
            },
            Err(other) => (probe.0, Err(SyncErrorView::Adb(other))),
        }
    }

    /// What deciding about a file does on a reliable link: see
    /// [`DeviceView::remote_metadata`] and [`unchanged`].
    pub open spec fn file_is_unchanged(self, path: Seq<char>, local_len: u64) -> (
        DeviceView,
        Result<bool, SyncErrorView>,
    ) {
        let probe = self.remote_metadata(path);
        match probe.1 {
            Ok(remote) => (probe.0, Ok(unchanged(remote, local_len))),
            Err(e) => (probe.0, Err(e)),
        }
    }
}

impl WalkView {
    /// What taking care of a remote directory does on a reliable link. A
    /// directory that was taken care of before is left alone. Any other is
    /// noted; unless it is the root, it is created with `mkdir -p`, or in a
    /// dry run not even that, and counted.
    pub open spec fn ensure_remote_dir(self, remote_dir: Seq<char>, dry_run: bool) -> (
        WalkView,
        Result<(), SyncErrorView>,
    ) {
        let normal = dir_path(remote_dir);
        if self.created.contains(normal) {
            (self, Ok(()))
        } else {
            let noted = WalkView { created: self.created.push(normal), ..self };
            if normal == seq!['/'] {
                (noted, Ok(()))
            } else {
                let ran = if dry_run {
                    (noted.device, Seq::<u8>::empty(), Ok::<(), ErrorView>(()))
                } else {
                    noted.device.shell_command(mkdir_command(normal), Seq::empty())
                };
                match ran.2 {
                    Err(e) => (WalkView { device: ran.0, ..noted }, Err(SyncErrorView::Adb(e))),
                    Ok(_) => (
                        WalkView {
                            device: ran.0,
                            stats: SyncStats {
                                directories_created: (noted.stats.directories_created + 1) as usize,
                                ..noted.stats
                            },
                            ..noted
                        },
                        Ok(()),
                    ),
                }
            }
        }
    }

    /// What syncing one file does on a reliable link: the device is asked
    /// about the remote path; a file that is unchanged is skipped; any other
    /// is pushed, or in a dry run not even that, and counted with its bytes.
    pub open spec fn push_file(self, content: Seq<u8>, path: Seq<char>, dry_run: bool) -> (
        WalkView,
        Result<(), SyncErrorView>,
    ) {
        let decided = self.device.file_is_unchanged(path, content.len() as u64);
        match decided.1 {
            Err(e) => (WalkView { device: decided.0, ..self }, Err(e)),
            Ok(true) => (WalkView { device: decided.0, ..self }, Ok(())),
            Ok(false) => {
                let sent = if dry_run {
                    (decided.0, Ok::<(), ErrorView>(()))
                } else {
                    decided.0.push(content, encode_utf8(path))
                };
                match sent.1 {
                    Err(e) => (WalkView { device: sent.0, ..self }, Err(SyncErrorView::Adb(e))),
                    Ok(_) => (
                        WalkView {
                            device: sent.0,
                            stats: SyncStats {
                                files_synced: (self.stats.files_synced + 1) as usize,
                                bytes_uploaded: (self.stats.bytes_uploaded + content.len()) as u64,
                                ..self.stats
                            },
                            ..self
                        },
                        Ok(()),
                    ),
                }
            },
        }
    }

    /// The walk after one more entry was passed over.
    pub open spec fn skipped(self) -> WalkView {
        WalkView {
            stats: SyncStats {
                skipped_entries: (self.stats.skipped_entries + 1) as usize,
                ..self.stats
            },
            ..self
        }
    }

    /// What syncing the entries of a directory does on a reliable link, in
    /// the order in which they stand. A hidden entry is passed over and
    /// counted. A directory is taken care of on the device and then entered.
    /// For a file the directory that holds it is taken care of, the file is
    /// synced and a progress record emitted. Anything else is passed over and
    /// counted. The first failure ends the walk.
    pub open spec fn sync_directory(
        self,
        progress: ProgressView,
        entries: Seq<LocalEntry>,
        relative_dir: Seq<char>,
        remote_root: Seq<char>,
        dry_run: bool,
    ) -> (WalkView, ProgressView, Result<(), SyncErrorView>)
        decreases entries,
    {
        if entries.len() == 0 {
            (self, progress, Ok(()))
        } else {
            let entry = entries[0];
            let relative = child_path(relative_dir, entry.name@);
            let done = if is_hidden(entry.name@) {
                (self.skipped(), progress, Ok::<(), SyncErrorView>(()))
            } else {
                match entry.kind {
                    LocalKind::Directory(children) => {
                        let made = self.ensure_remote_dir(
                            remote_path(remote_root, relative),
                            dry_run,
                        );
                        match made.1 {
                            Err(e) => (made.0, progress, Err(e)),
                            Ok(_) => made.0.sync_directory(
                                progress,
                                children@,
                                relative,
                                remote_root,
                                dry_run,
                            ),
                        }
                    },
                    LocalKind::File(content) => {
                        let remote_file = remote_path(remote_root, relative);
                        let made = self.ensure_remote_dir(
                            remote_path(remote_root, relative_dir),
                            dry_run,
                        );
                        match made.1 {
                            Err(e) => (made.0, progress, Err(e)),
                            Ok(_) => {
                                let pushed = made.0.push_file(content@, remote_file, dry_run);
                                match pushed.1 {
                                    Err(e) => (pushed.0, progress, Err(e)),
                                    Ok(_) => (
                                        pushed.0,
                                        progress.advanced(Some(remote_file)),
                                        Ok(()),
                                    ),
                                }
                            },
                        }
                    },
                    LocalKind::Other => (self.skipped(), progress, Ok(())),
                }
            };
            match done.2 {
                Err(e) => done,
                Ok(_) => done.0.sync_directory(
                    done.1,
                    entries.drop_first(),
                    relative_dir,
                    remote_root,
                    dry_run,
                ),
            }
        }
    }

    /// What creating the directories of a list does on a reliable link, from
    /// the first to the last: each is taken care of as
    /// [`WalkView::ensure_remote_dir`] says, and for each that was created,
    /// or would have been in a dry run, a progress record is emitted. The
    /// first failure ends the work.
    pub open spec fn create_remote_directories(
        self,
        progress: ProgressView,
        directories: Seq<Seq<char>>,
        dry_run: bool,
    ) -> (WalkView, ProgressView, Result<(), SyncErrorView>)
        decreases directories.len(),
    {
        if directories.len() == 0 {
            (self, progress, Ok(()))
        } else {
            let normal = dir_path(directories[0]);
            let made = self.ensure_remote_dir(directories[0], dry_run);
            match made.1 {
                Err(e) => (made.0, progress, Err(e)),
                Ok(_) => made.0.create_remote_directories(
                    if self.created.contains(normal) || normal == seq!['/'] {
                        progress
                    } else {
                        progress.advanced(Some(normal))
                    },
                    directories.drop_first(),
                    dry_run,
                ),
            }
        }
    }
}

/// The number of directories of a list that are not the root.
pub open spec fn count_below_root(directories: Seq<Seq<char>>) -> nat
    decreases directories.len(),
{
    if directories.len() == 0 {
        0
    } else {
        count_below_root(directories.drop_last()) + if dir_path(directories.last()) == seq!['/'] {
            0nat
        } else {
            1nat
        }
    }
}

/// The statistics of a request that has done nothing yet.
pub open spec fn no_stats() -> SyncStats {
    SyncStats {
        files_synced: 0,
        files_deleted: 0,
        skipped_entries: 0,
        directories_created: 0,
        bytes_uploaded: 0,
    }
}

/// What a whole sync request does on a reliable link: the directories of
/// the list are created, the remote root is taken care of, and the tree is
/// walked from its root.
pub open spec fn perform_sync(
    device: DeviceView,
    progress: ProgressView,
    entries: Seq<LocalEntry>,
    directories: Seq<Seq<char>>,
    remote_root: Seq<char>,
    dry_run: bool,
) -> (WalkView, ProgressView, Result<(), SyncErrorView>) {
    let start = WalkView { device, created: Seq::empty(), stats: no_stats() };
    let prepared = start.create_remote_directories(progress, directories, dry_run);
    match prepared.2 {
        Err(e) => prepared,
        Ok(_) => {
            let rooted = prepared.0.ensure_remote_dir(remote_root, dry_run);
            match rooted.1 {
                Err(e) => (rooted.0, prepared.1, Err(e)),
                Ok(_) => rooted.0.sync_directory(
                    prepared.1,
                    entries,
                    Seq::empty(),
                    remote_root,
                    dry_run,
                ),
            }
        },
    }
}

impl WalkView {
    /// Whether every directory that `earlier` has noted is still noted.
    pub open spec fn remembers(self, earlier: WalkView) -> bool {
        forall|d: Seq<char>| earlier.created.contains(d) ==> self.created.contains(d)
    }

    /// Taking care of a directory notes it, forgets none, and notes none
    /// twice.
    pub proof fn lemma_ensure_notes(self, remote_dir: Seq<char>, dry_run: bool)
        ensures
            self.ensure_remote_dir(remote_dir, dry_run).0.remembers(self),
            self.ensure_remote_dir(remote_dir, dry_run).0.created.contains(dir_path(remote_dir)),
            self.created.no_duplicates() ==> self.ensure_remote_dir(
                remote_dir,
                dry_run,
            ).0.created.no_duplicates(),
    {
        let normal = dir_path(remote_dir);
        let after = self.ensure_remote_dir(remote_dir, dry_run).0;
        if !self.created.contains(normal) {
            let noted = self.created.push(normal);
            assert(after.created == noted);
            assert(noted[noted.len() - 1] == normal);
            assert forall|d: Seq<char>| self.created.contains(d) implies noted.contains(d) by {
                let k = choose|k: int| 0 <= k < self.created.len() && self.created[k] == d;
                assert(noted[k] == d);
            }
            if self.created.no_duplicates() {
                assert forall|i: int, j: int|
                    0 <= i < noted.len() && 0 <= j < noted.len() && i != j implies noted[i]
                    != noted[j] by {
                    if i < self.created.len() {
                        assert(self.created.contains(noted[i]));
                    }
                    if j < self.created.len() {
                        assert(self.created.contains(noted[j]));
                    }
                }
            }
        }
    }

    /// A directory that is noted is not created again: taking care of it
    /// sends nothing and changes nothing.
    pub proof fn lemma_ensure_again(self, remote_dir: Seq<char>, dry_run: bool)
        requires
            self.created.contains(dir_path(remote_dir)),
        ensures
            self.ensure_remote_dir(remote_dir, dry_run) == (self, Ok::<(), SyncErrorView>(())),
    {
    }

    /// A command that creates a directory is run only for a directory that
    /// was not noted before: otherwise the device is left as it is.
    pub proof fn lemma_mkdir_only_when_new(self, remote_dir: Seq<char>, dry_run: bool)
        ensures
            self.ensure_remote_dir(remote_dir, dry_run).0.device != self.device ==> !dry_run
                && !self.created.contains(dir_path(remote_dir)) && dir_path(remote_dir) != seq!['/']
                && self.ensure_remote_dir(remote_dir, dry_run).0.device
                == self.device.shell_command(mkdir_command(dir_path(remote_dir)), Seq::empty()).0,
    {
    }

    /// Syncing a file notes no directory, forgets none and creates none.
    pub proof fn lemma_push_file_keeps(self, content: Seq<u8>, path: Seq<char>, dry_run: bool)
        ensures
            self.push_file(content, path, dry_run).0.created == self.created,
            self.push_file(content, path, dry_run).0.stats.directories_created
                == self.stats.directories_created,
            self.push_file(content, path, dry_run).0.stats.skipped_entries
                == self.stats.skipped_entries,
    {
    }

    /// Walking a tree forgets no directory and notes none twice.
    pub proof fn lemma_sync_directory_remembers(
        self,
        progress: ProgressView,
        entries: Seq<LocalEntry>,
        relative_dir: Seq<char>,
        remote_root: Seq<char>,
        dry_run: bool,
    )
        ensures
            self.sync_directory(progress, entries, relative_dir, remote_root, dry_run).0.remembers(
                self,
            ),
            self.created.no_duplicates() ==> self.sync_directory(
                progress,
                entries,
                relative_dir,
                remote_root,
                dry_run,
            ).0.created.no_duplicates(),
        decreases entries,
    {
        if entries.len() > 0 {
            let entry = entries[0];
            let relative = child_path(relative_dir, entry.name@);
            let done = if is_hidden(entry.name@) {
                (self.skipped(), progress, Ok::<(), SyncErrorView>(()))
            } else {
                match entry.kind {
                    LocalKind::Directory(children) => {
                        let made = self.ensure_remote_dir(
                            remote_path(remote_root, relative),
                            dry_run,
                        );
                        self.lemma_ensure_notes(remote_path(remote_root, relative), dry_run);
                        match made.1 {
                            Err(e) => (made.0, progress, Err(e)),
                            Ok(_) => {
                                made.0.lemma_sync_directory_remembers(
                                    progress,
                                    children@,
                                    relative,
                                    remote_root,
                                    dry_run,
                                );
                                made.0.sync_directory(progress, children@, relative, remote_root, dry_run)
                            },
                        }
                    },
                    LocalKind::File(content) => {
                        let remote_file = remote_path(remote_root, relative);
                        let made = self.ensure_remote_dir(
                            remote_path(remote_root, relative_dir),
                            dry_run,
                        );
                        self.lemma_ensure_notes(remote_path(remote_root, relative_dir), dry_run);
                        match made.1 {
                            Err(e) => (made.0, progress, Err(e)),
                            Ok(_) => {
                                let pushed = made.0.push_file(content@, remote_file, dry_run);
                                made.0.lemma_push_file_keeps(content@, remote_file, dry_run);
                                match pushed.1 {
                                    Err(e) => (pushed.0, progress, Err(e)),
                                    Ok(_) => (
                                        pushed.0,
                                        progress.advanced(Some(remote_file)),
                                        Ok(()),
                                    ),
                                }
                            },
                        }
                    },
                    LocalKind::Other => (self.skipped(), progress, Ok(())),
                }
            };
            assert(done.0.remembers(self));
            assert(self.created.no_duplicates() ==> done.0.created.no_duplicates());
            if done.2 is Ok {
                done.0.lemma_sync_directory_remembers(
                    done.1,
                    entries.drop_first(),
                    relative_dir,
                    remote_root,
                    dry_run,
                );
            }
        }
    }

    /// Creating the directories of a list forgets no directory and notes
    /// none twice.
    pub proof fn lemma_create_remembers(
        self,
        progress: ProgressView,
        directories: Seq<Seq<char>>,
        dry_run: bool,
    )
        ensures
            self.create_remote_directories(progress, directories, dry_run).0.remembers(self),
            self.created.no_duplicates() ==> self.create_remote_directories(
                progress,
                directories,
                dry_run,
            ).0.created.no_duplicates(),
        decreases directories.len(),
    {
        if directories.len() > 0 {
            let normal = dir_path(directories[0]);
            let made = self.ensure_remote_dir(directories[0], dry_run);
            self.lemma_ensure_notes(directories[0], dry_run);
            if made.1 is Ok {
                made.0.lemma_create_remembers(
                    if self.created.contains(normal) || normal == seq!['/'] {
                        progress
                    } else {
                        progress.advanced(Some(normal))
                    },
                    directories.drop_first(),
                    dry_run,
                );
            }
        }
    }

    /// Dedup: once a remote directory has been taken care of, no walk makes
    /// the request create it again. After the directory `first` was taken
    /// care of and any tree walked, taking care of a directory `again` with
    /// the same normal form sends nothing and changes nothing.
    pub proof fn lemma_mkdir_at_most_once(
        self,
        first: Seq<char>,
        again: Seq<char>,
        progress: ProgressView,
        entries: Seq<LocalEntry>,
        relative_dir: Seq<char>,
        remote_root: Seq<char>,
        dry_run: bool,
    )
        requires
            dir_path(first) == dir_path(again),
        ensures
            ({
                let noted = self.ensure_remote_dir(first, dry_run).0;
                let walked = noted.sync_directory(
                    progress,
                    entries,
                    relative_dir,
                    remote_root,
                    dry_run,
                ).0;
                walked.ensure_remote_dir(again, dry_run) == (walked, Ok::<(), SyncErrorView>(()))
            }),
    {
        let noted = self.ensure_remote_dir(first, dry_run).0;
        self.lemma_ensure_notes(first, dry_run);
        noted.lemma_sync_directory_remembers(progress, entries, relative_dir, remote_root, dry_run);
    }

    /// Size-based skip: where the device says that a file is there and as
    /// large as the local one, nothing follows the STAT and nothing is
    /// counted; where it says that the file has another size, or that it is
    /// not there, the file is pushed, unless the run is dry, and counted.
    pub proof fn lemma_size_based_skip(self, content: Seq<u8>, path: Seq<char>, dry_run: bool)
        requires
            self.stats.files_synced < usize::MAX,
        ensures
            ({
                let probe = self.device.stat(encode_utf8(path));
                let after = self.push_file(content, path, dry_run);
                probe.1 matches Ok(stat) ==> if stat.file_perm != 0 && stat.file_size as u64
                    == content.len() as u64 {
                    after == (WalkView { device: probe.0, ..self }, Ok::<(), SyncErrorView>(()))
                } else {
                    &&& after.0.device == if dry_run {
                        probe.0
                    } else {
                        probe.0.push(content, encode_utf8(path)).0
                    }
                    &&& after.1 is Ok ==> after.0.stats.files_synced == self.stats.files_synced + 1
                }
            }),
    {
        let probe = self.device.stat(encode_utf8(path));
        let found = self.device.remote_metadata(path);
        let decided = self.device.file_is_unchanged(path, content.len() as u64);
        if probe.1 is Ok {
            let stat = probe.1->Ok_0;
            assert(found.0 == probe.0);
            assert(found.1 == Ok::<Option<AdbStatResponse>, SyncErrorView>(
                if stat.file_perm == 0 {
                    None
                } else {
                    Some(stat)
                },
            ));
            assert(decided.0 == probe.0);
            assert(decided.1 == Ok::<bool, SyncErrorView>(
                stat.file_perm != 0 && stat.file_size as u64 == content.len() as u64,
            ));
        }
    }
}

} // verus!
