//! The sync driver: mirrors a local tree onto a remote path of a device.

use crate::device::ADBMessageDevice;
use crate::dirs::{collect_remote_directories, is_creation_list};
use crate::error::{RustADBError, sync_link_failed, SyncError, SyncErrorView};
use crate::paths::{
    adb_missing_file, build_remote_path, normalize_remote_dir_path, remote_path, should_skip_entry,
};
use crate::sync::AdbStatResponse;
use crate::transport::ADBMessageTransport;
use crate::tree::{
    count_local_files, entry_count, file_bytes, files_in, lemma_entry_count_take,
    lemma_files_in_bound, LocalEntry, LocalKind,
};
use crate::walk::{
    answered, child_path, count_below_root, mkdir_command, no_stats, ProgressEvent, ProgressView,
    SyncStats, unchanged, walked, walked_with, WalkView,
};
use vstd::prelude::*;

verus! {

impl Default for SyncStats {
    /// Statistics of a request that has done nothing yet.
    fn default() -> (stats: Self)
        ensures
            stats == no_stats(),
    {
        SyncStats {
            files_synced: 0,
            files_deleted: 0,
            skipped_entries: 0,
            directories_created: 0,
            bytes_uploaded: 0,
        }
    }
}

/// A progress record: how many items are finished, of how many, and which
/// one was finished last.
#[derive(Debug, Clone, PartialEq, Eq)]
pub struct SyncProgressPayload {
    pub processed_files: usize,
    pub total_files: usize,
    pub current_file: Option<String>,
    pub dry_run: bool,
}

impl View for SyncProgressPayload {
    type V = ProgressEvent;

    open spec fn view(&self) -> ProgressEvent {
        ProgressEvent {
            processed_files: self.processed_files,
            total_files: self.total_files,
            current_file: match self.current_file {
                Some(text) => Some(text@),
                None => None,
            },
            dry_run: self.dry_run,
        }
    }
}

/// The records of `s` as mathematical values.
pub open spec fn events_of(s: Seq<SyncProgressPayload>) -> Seq<ProgressEvent> {
    s.map_values(|record: SyncProgressPayload| record@)
}

/// Gathers the progress records of a request, for the caller to hand on.
#[derive(Debug)]
pub struct ProgressReporter {
    events: Vec<SyncProgressPayload>,
    total_files: usize,
    processed_files: usize,
    dry_run: bool,
}

impl View for ProgressReporter {
    type V = ProgressView;

    closed spec fn view(&self) -> ProgressView {
        ProgressView {
            events: events_of(self.events@),
            total_files: self.total_files,
            processed_files: self.processed_files,
            dry_run: self.dry_run,
        }
    }
}

/// The text behind an optional reference, if there is one.
pub open spec fn text_of(current: Option<&str>) -> Option<Seq<char>> {
    match current {
        Some(text) => Some(text@),
        None => None,
    }
}

impl ProgressReporter {
    /// Starts the progress of a request and emits its first record.
    pub fn new(total_files: usize, dry_run: bool) -> (reporter: Self)
        ensures
            reporter@ == ProgressView::started(total_files, dry_run),
    {
        let mut reporter = Self { events: Vec::new(), total_files, processed_files: 0, dry_run };
        assert(events_of(reporter.events@) =~= Seq::<ProgressEvent>::empty());
        reporter.emit(None);
        reporter
    }

    /// Notes that a file was finished.
    pub fn file_processed(&mut self, current_file: Option<&str>)
        ensures
            final(self)@ == old(self)@.advanced(text_of(current_file)),
    {
        self.advance(current_file);
    }

    /// Notes that a remote directory was prepared.
    pub fn directory_prepared(&mut self, directory: &str)
        ensures
            final(self)@ == old(self)@.advanced(Some(directory@)),
    {
        self.advance(Some(directory));
    }

    /// Emits a record about `current_file`.
    pub fn emit(&mut self, current_file: Option<&str>)
        ensures
            final(self)@ == old(self)@.emitted(text_of(current_file)),
    {
        let payload = SyncProgressPayload {
            processed_files: self.processed_files,
            total_files: self.total_files,
            current_file: match current_file {
                Some(value) => Some(value.to_owned()),
                None => None,
            },
            dry_run: self.dry_run,
        };
        assert(events_of(self.events@.push(payload)) =~= events_of(self.events@).push(payload@));
        self.events.push(payload);
    }

    /// Counts one more item as finished and emits a record about it.
    pub fn advance(&mut self, current_file: Option<&str>)
        ensures
            final(self)@ == old(self)@.advanced(text_of(current_file)),
    {
        self.processed_files = self.processed_files.saturating_add(1);
        self.emit(current_file);
    }

    /// The records emitted so far.
    pub fn events(&self) -> (events: &Vec<SyncProgressPayload>)
        ensures
            events_of(events@) == self@.events,
    {
        &self.events
    }

    /// Hands the records over.
    pub fn into_events(self) -> (events: Vec<SyncProgressPayload>)
        ensures
            events_of(events@) == self@.events,
    {
        self.events
    }
}

/// The texts of `s`.
pub open spec fn names(s: Seq<String>) -> Seq<Seq<char>> {
    s.map_values(|text: String| text@)
}

/// Whether `text` is among `known`.
pub fn is_known(known: &Vec<String>, text: &String) -> (found: bool)
    ensures
        found == names(known@).contains(text@),
{
    let mut i: usize = 0;
    while i < known.len()
        invariant
            i <= known@.len(),
            forall|k: int| 0 <= k < i ==> names(known@)[k] != text@,
        decreases known@.len() - i,
    {
        if known[i] == *text {
            assert(names(known@)[i as int] == text@);
            return true;
        }
        i = i + 1;
    }
    false
}

/// The state of a walk as contracts see it.
pub open spec fn walk_view<T: ADBMessageTransport>(
    device: &ADBMessageDevice<T>,
    created_dirs: &Vec<String>,
    stats: &SyncStats,
) -> WalkView {
    WalkView { device: device@, created: names(created_dirs@), stats: *stats }
}

/// The state of a walk as far as the sync of one file goes.
pub open spec fn file_view<T: ADBMessageTransport>(
    device: &ADBMessageDevice<T>,
    stats: &SyncStats,
) -> WalkView {
    WalkView { device: device@, created: Seq::empty(), stats: *stats }
}

/// The result of a step of the walk as contracts see it.
pub open spec fn sync_result<R>(r: Result<R, SyncError>) -> Result<R, SyncErrorView> {
    match r {
        Ok(value) => Ok(value),
        Err(e) => Err(e@),
    }
}

/// Takes care of a remote directory: creates it with `mkdir -p` unless that was
/// done before. Unless the link fails, and always on a reliable link, it does
/// what [`WalkView::ensure_remote_dir`] says.
pub fn ensure_remote_dir<T: ADBMessageTransport>(
    device: &mut ADBMessageDevice<T>,
    remote_dir: &str,
    created_dirs: &mut Vec<String>,
    stats: &mut SyncStats,
    dry_run: bool,
) -> (r: Result<(), SyncError>)
    requires
        old(stats).directories_created < usize::MAX,
    ensures
        final(device)@.link.reliable == old(device)@.link.reliable,
        final(stats).directories_created <= old(stats).directories_created + 1,
        final(stats).files_synced == old(stats).files_synced,
        final(stats).skipped_entries == old(stats).skipped_entries,
        final(stats).bytes_uploaded == old(stats).bytes_uploaded,
        final(stats).files_deleted == old(stats).files_deleted,
        old(device)@.link.reliable || !sync_link_failed(r) ==> walked(
            walk_view(final(device), final(created_dirs), final(stats)),
            sync_result(r),
            walk_view(old(device), old(created_dirs), old(stats)).ensure_remote_dir(
                remote_dir@,
                dry_run,
            ),
        ),
{
    let normalized = normalize_remote_dir_path(remote_dir);
    if is_known(created_dirs, &normalized) {
        return Ok(());
    }
    let ghost before = names(created_dirs@);
    created_dirs.push(normalized.clone());
    assert(names(created_dirs@) =~= before.push(normalized@));
    let root = "/".to_owned();
    proof {
        reveal_strlit("/");
        assert("/"@ =~= seq!['/']);
    }
    if normalized != root {
        if !dry_run {
            let mut sink: Vec<u8> = Vec::new();
            let command: [&str; 3] = ["mkdir", "-p", normalized.as_str()];
            assert(crate::session::arguments(command@) =~= mkdir_command(normalized@));
            match device.shell_command(command.as_slice(), &mut sink) {
                Ok(_) => {},
                Err(e) => {
                    return Err(SyncError::Adb(e));
                },
            }
        }
        stats.directories_created = stats.directories_created + 1;
    }
    Ok(())
}

/// Asks the device about a path. Unless the link fails, and always on a
/// reliable link, it does what [`DeviceView::remote_metadata`] says.
pub fn remote_metadata<T: ADBMessageTransport>(
    device: &mut ADBMessageDevice<T>,
    remote_path: &str,
) -> (r: Result<Option<AdbStatResponse>, SyncError>)
    ensures
        final(device)@.link.reliable == old(device)@.link.reliable,
        old(device)@.link.reliable || !sync_link_failed(r) ==> answered(
            final(device)@,
            sync_result(r),
            old(device)@.remote_metadata(remote_path@),
        ),
{
    match device.stat(remote_path) {
        Ok(stat) => {
            if stat.file_perm == 0 {
                Ok(None)
            } else {
                Ok(Some(stat))
            }
        },
        Err(error) => match error {
            RustADBError::ADBRequestFailed(message) => {
                if adb_missing_file(message.as_str()) {
                    Ok(None)
                } else {
                    Err(SyncError::Adb(RustADBError::ADBRequestFailed(message)))
                }
            },
            other => Err(SyncError::Adb(other)),
        },
    }
}

/// Decides whether a file may be skipped: it is there on the device and as
/// large there as here. Unless the link fails, and always on a reliable link,
/// it does what [`DeviceView::file_is_unchanged`] says.
pub fn file_is_unchanged<T: ADBMessageTransport>(
    device: &mut ADBMessageDevice<T>,
    remote_path: &str,
    local_len: u64,
) -> (r: Result<bool, SyncError>)
    ensures
        final(device)@.link.reliable == old(device)@.link.reliable,
        old(device)@.link.reliable || !sync_link_failed(r) ==> answered(
            final(device)@,
            sync_result(r),
            old(device)@.file_is_unchanged(remote_path@, local_len),
        ),
{
    let remote = match remote_metadata(device, remote_path)? {
        Some(remote) => remote,
        None => {
            return Ok(false);
        },
    };
    if remote.file_size as u64 != local_len {
        return Ok(false);
    }
    Ok(true)
}

/// Syncs one file: asks the device about it, skips it where it is unchanged,
/// and pushes it otherwise. Unless the link fails, and always on a reliable
/// link, it does what [`WalkView::push_file`] says.
pub fn push_file<T: ADBMessageTransport>(
    device: &mut ADBMessageDevice<T>,
    content: &[u8],
    remote_path: &str,
    stats: &mut SyncStats,
    dry_run: bool,
) -> (r: Result<(), SyncError>)
    requires
        old(stats).files_synced < usize::MAX,
        old(stats).bytes_uploaded + content@.len() <= u64::MAX,
    ensures
        final(device)@.link.reliable == old(device)@.link.reliable,
        final(stats).files_synced <= old(stats).files_synced + 1,
        final(stats).bytes_uploaded <= old(stats).bytes_uploaded + content@.len(),
        final(stats).directories_created == old(stats).directories_created,
        final(stats).skipped_entries == old(stats).skipped_entries,
        final(stats).files_deleted == old(stats).files_deleted,
        old(device)@.link.reliable || !sync_link_failed(r) ==> walked(
            file_view(final(device), final(stats)),
            sync_result(r),
            file_view(old(device), old(stats)).push_file(content@, remote_path@, dry_run),
        ),
{
    if file_is_unchanged(device, remote_path, content.len() as u64)? {
        return Ok(());
    }
    if !dry_run {
        match device.push(content, remote_path) {
            Ok(_) => {},
            Err(e) => {
                return Err(SyncError::Adb(e));
            },
        }
    }
    stats.files_synced = stats.files_synced + 1;
    stats.bytes_uploaded = stats.bytes_uploaded + content.len() as u64;
    Ok(())
}

/// Writes the relative path of an entry of a directory: see [`child_path`].
pub fn child_relative(relative_dir: &str, name: &str) -> (relative: String)
    ensures
        relative@ == child_path(relative_dir@, name@),
{
    if relative_dir.is_empty() {
        name.to_owned()
    } else {
        let mut relative = relative_dir.to_owned();
        relative.append("/");
        relative.append(name);
        proof {
            reveal_strlit("/");
            assert("/"@ =~= seq!['/']);
        }
        relative
    }
}

/// Syncs the entries of a directory, and all that lies below them, in the order
/// in which they stand. `relative_dir` is the path of the directory below the
/// local root, written with slashes and empty for the root itself. Unless the
/// link fails, and always on a reliable link, it does what
/// [`WalkView::sync_directory`] says.
pub fn sync_directory<T: ADBMessageTransport>(
    device: &mut ADBMessageDevice<T>,
    entries: &Vec<LocalEntry>,
    relative_dir: &str,
    remote_root: &str,
    created_dirs: &mut Vec<String>,
    stats: &mut SyncStats,
    progress: &mut ProgressReporter,
    dry_run: bool,
) -> (r: Result<(), SyncError>)
    requires
        old(stats).files_synced + entry_count(entries@) <= usize::MAX,
        old(stats).skipped_entries + entry_count(entries@) <= usize::MAX,
        old(stats).directories_created + entry_count(entries@) <= usize::MAX,
        old(stats).bytes_uploaded + file_bytes(entries@) <= u64::MAX,
    ensures
        final(device)@.link.reliable == old(device)@.link.reliable,
        final(stats).files_synced <= old(stats).files_synced + entry_count(entries@),
        final(stats).skipped_entries <= old(stats).skipped_entries + entry_count(entries@),
        final(stats).directories_created <= old(stats).directories_created + entry_count(entries@),
        final(stats).bytes_uploaded <= old(stats).bytes_uploaded + file_bytes(entries@),
        final(stats).files_deleted == old(stats).files_deleted,
        old(device)@.link.reliable || !sync_link_failed(r) ==> walked_with(
            walk_view(final(device), final(created_dirs), final(stats)),
            final(progress)@,
            sync_result(r),
            walk_view(old(device), old(created_dirs), old(stats)).sync_directory(
                old(progress)@,
                entries@,
                relative_dir@,
                remote_root@,
                dry_run,
            ),
        ),
    decreases entries@,
{
    let ghost goal = walk_view(old(device), old(created_dirs), old(stats)).sync_directory(
        old(progress)@,
        entries@,
        relative_dir@,
        remote_root@,
        dry_run,
    );
    let mut i: usize = 0;
    assert(entries@.skip(0) =~= entries@);
    assert(entry_count(entries@.take(0)) == 0 && file_bytes(entries@.take(0)) == 0);
    while i < entries.len()
        invariant
            i <= entries@.len(),
            device@.link.reliable == old(device)@.link.reliable,
            old(stats).files_synced + entry_count(entries@) <= usize::MAX,
            old(stats).skipped_entries + entry_count(entries@) <= usize::MAX,
            old(stats).directories_created + entry_count(entries@) <= usize::MAX,
            old(stats).bytes_uploaded + file_bytes(entries@) <= u64::MAX,
            stats.files_synced <= old(stats).files_synced + entry_count(entries@.take(i as int)),
            stats.skipped_entries <= old(stats).skipped_entries + entry_count(
                entries@.take(i as int),
            ),
            stats.directories_created <= old(stats).directories_created + entry_count(
                entries@.take(i as int),
            ),
            stats.bytes_uploaded <= old(stats).bytes_uploaded + file_bytes(entries@.take(i as int)),
            stats.files_deleted == old(stats).files_deleted,
            goal == walk_view(old(device), old(created_dirs), old(stats)).sync_directory(
                old(progress)@,
                entries@,
                relative_dir@,
                remote_root@,
                dry_run,
            ),
            walk_view(device, created_dirs, stats).sync_directory(
                progress@,
                entries@.skip(i as int),
                relative_dir@,
                remote_root@,
                dry_run,
            ) == goal,
        decreases entries@.len() - i,
    {
        proof {
            assert(entries@.take(i + 1).drop_last() =~= entries@.take(i as int));
            assert(entries@.skip(i as int).drop_first() =~= entries@.skip(i + 1));
            lemma_entry_count_take(entries@, i + 1);
        }
        let entry = &entries[i];
        if should_skip_entry(entry.name.as_str()) {
            stats.skipped_entries = stats.skipped_entries + 1;
        } else {
            let relative_path = child_relative(relative_dir, entry.name.as_str());
            match &entry.kind {
                LocalKind::Directory(children) => {
                    let remote_dir = build_remote_path(remote_root, relative_path.as_str());
                    ensure_remote_dir(device, remote_dir.as_str(), created_dirs, stats, dry_run)?;
                    sync_directory(
                        device,
                        children,
                        relative_path.as_str(),
                        remote_root,
                        created_dirs,
                        stats,
                        progress,
                        dry_run,
                    )?;
                },
                LocalKind::File(content) => {
                    let remote_file = build_remote_path(remote_root, relative_path.as_str());
                    let parent = build_remote_path(remote_root, relative_dir);
                    ensure_remote_dir(device, parent.as_str(), created_dirs, stats, dry_run)?;
                    push_file(device, content.as_slice(), remote_file.as_str(), stats, dry_run)?;
                    progress.file_processed(Some(remote_file.as_str()));
                },
                LocalKind::Other => {
                    stats.skipped_entries = stats.skipped_entries + 1;
                },
            }
        }
        i = i + 1;
    }
    assert(entries@.take(i as int) =~= entries@);
    Ok(())
}

/// Creates the remote directories of a list, from the first to the last, and
/// emits a progress record for each one created. Unless the link fails, and
/// always on a reliable link, it does what
/// [`WalkView::create_remote_directories`] says.
pub fn create_remote_directories<T: ADBMessageTransport>(
    device: &mut ADBMessageDevice<T>,
    directories: &Vec<String>,
    dry_run: bool,
    created_dirs: &mut Vec<String>,
    stats: &mut SyncStats,
    progress: &mut ProgressReporter,
) -> (r: Result<(), SyncError>)
    requires
        old(stats).directories_created + directories@.len() <= usize::MAX,
    ensures
        final(device)@.link.reliable == old(device)@.link.reliable,
        final(stats).directories_created <= old(stats).directories_created + directories@.len(),
        final(stats).files_synced == old(stats).files_synced,
        final(stats).skipped_entries == old(stats).skipped_entries,
        final(stats).bytes_uploaded == old(stats).bytes_uploaded,
        final(stats).files_deleted == old(stats).files_deleted,
        old(device)@.link.reliable || !sync_link_failed(r) ==> walked_with(
            walk_view(final(device), final(created_dirs), final(stats)),
            final(progress)@,
            sync_result(r),
            walk_view(old(device), old(created_dirs), old(stats)).create_remote_directories(
                old(progress)@,
                names(directories@),
                dry_run,
            ),
        ),
{
    let ghost goal = walk_view(old(device), old(created_dirs), old(stats)).create_remote_directories(
        old(progress)@,
        names(directories@),
        dry_run,
    );
    let root = "/".to_owned();
    proof {
        reveal_strlit("/");
        assert("/"@ =~= seq!['/']);
        assert(names(directories@).skip(0) =~= names(directories@));
    }
    let mut i: usize = 0;
    while i < directories.len()
        invariant
            i <= directories@.len(),
            root@ == seq!['/'],
            device@.link.reliable == old(device)@.link.reliable,
            old(stats).directories_created + directories@.len() <= usize::MAX,
            stats.directories_created <= old(stats).directories_created + i,
            stats.files_synced == old(stats).files_synced,
            stats.skipped_entries == old(stats).skipped_entries,
            stats.bytes_uploaded == old(stats).bytes_uploaded,
            stats.files_deleted == old(stats).files_deleted,
            goal == walk_view(old(device), old(created_dirs), old(stats)).create_remote_directories(
                old(progress)@,
                names(directories@),
                dry_run,
            ),
            walk_view(device, created_dirs, stats).create_remote_directories(
                progress@,
                names(directories@).skip(i as int),
                dry_run,
            ) == goal,
        decreases directories@.len() - i,
    {
        proof {
            assert(names(directories@).skip(i as int).drop_first() =~= names(directories@).skip(
                i + 1,
            ));
            assert(names(directories@).skip(i as int)[0] == directories@[i as int]@);
        }
        let dir = &directories[i];
        let normalized = normalize_remote_dir_path(dir.as_str());
        let fresh = !is_known(created_dirs, &normalized) && normalized != root;
        ensure_remote_dir(device, dir.as_str(), created_dirs, stats, dry_run)?;
        if fresh {
            progress.directory_prepared(normalized.as_str());
        }
        i = i + 1;
    }
    Ok(())
}

/// Counts the directories of a list that are not the root.
pub fn count_directories_to_create(directories: &Vec<String>) -> (count: usize)
    ensures
        count == count_below_root(names(directories@)),
        count <= directories@.len(),
{
    let root = "/".to_owned();
    proof {
        reveal_strlit("/");
        assert("/"@ =~= seq!['/']);
        assert(names(directories@).take(0) =~= Seq::<Seq<char>>::empty());
    }
    let mut count: usize = 0;
    let mut i: usize = 0;
    while i < directories.len()
        invariant
            i <= directories@.len(),
            root@ == seq!['/'],
            count <= i,
            count == count_below_root(names(directories@).take(i as int)),
        decreases directories@.len() - i,
    {
        proof {
            assert(names(directories@).take(i + 1).drop_last() =~= names(directories@).take(i as int));
            assert(names(directories@).take(i + 1).last() == directories@[i as int]@);
        }
        if normalize_remote_dir_path(directories[i].as_str()) != root {
            count = count + 1;
        }
        i = i + 1;
    }
    assert(names(directories@).take(i as int) =~= names(directories@));
    count
}

/// A device found on the bus.
#[derive(Debug, Clone, PartialEq, Eq)]
pub struct AndroidDeviceInfo {
    pub vendor_id: u16,
    pub product_id: u16,
    pub manufacturer: Option<String>,
    pub product: Option<String>,
}

/// What the summary says of the device.
#[derive(Debug, Clone, PartialEq, Eq)]
pub struct DeviceDetails {
    pub vendor_id: u16,
    pub product_id: u16,
    pub manufacturer: Option<String>,
    pub product: Option<String>,
}

impl From<AndroidDeviceInfo> for DeviceDetails {
    /// The details of a device that was found.
    fn from(value: AndroidDeviceInfo) -> (details: Self) {
        Self {
            vendor_id: value.vendor_id,
            product_id: value.product_id,
            manufacturer: value.manufacturer,
            product: value.product,
        }
    }
}

impl vstd::std_specs::convert::FromSpecImpl<AndroidDeviceInfo> for DeviceDetails {
    open spec fn obeys_from_spec() -> bool {
        true
    }

    open spec fn from_spec(value: AndroidDeviceInfo) -> Self {
        DeviceDetails {
            vendor_id: value.vendor_id,
            product_id: value.product_id,
            manufacturer: value.manufacturer,
            product: value.product,
        }
    }
}

/// What a sync request has done.
#[derive(Debug, Clone, PartialEq, Eq)]
pub struct SyncSummary {
    pub device: DeviceDetails,
    pub files_synced: usize,
    pub files_deleted: usize,
    pub skipped_entries: usize,
    pub directories_created: usize,
    pub bytes_uploaded: u64,
    pub remote_path: String,
    pub local_root: String,
    pub dry_run: bool,
}

/// Mirrors a local tree onto the remote root of a device that is connected, and
/// hands the progress records of the request over to `events`, those of a
/// request that fails too. `remote_root` is the normal form of the remote path,
/// `local_root` the canonical local path that the summary names. Unless the
/// link fails, and always on a reliable link, it does what
/// [`crate::walk::perform_sync`] says, the progress starting with as many items
/// as the tree has files to look at and the list has directories that are not
/// the root.
pub fn perform_sync<T: ADBMessageTransport>(
    device: &mut ADBMessageDevice<T>,
    device_info: AndroidDeviceInfo,
    entries: &Vec<LocalEntry>,
    local_root: String,
    remote_root: String,
    dry_run: bool,
    events: &mut Vec<SyncProgressPayload>,
) -> (r: Result<SyncSummary, SyncError>)
    requires
        2 * entry_count(entries@) + 2 <= usize::MAX,
        file_bytes(entries@) <= u64::MAX,
    ensures
        final(device)@.link.reliable == old(device)@.link.reliable,
        old(device)@.link.reliable || !sync_link_failed(r) ==> (exists|directories: Seq<Seq<char>>|
            performed(
                old(device)@,
                entries@,
                directories,
                remote_root@,
                dry_run,
                final(device)@,
                events_of(old(events)@),
                events_of(final(events)@),
                r,
            ) && is_creation_list(directories, entries@, remote_root@)),
        r matches Ok(summary) ==> summary.remote_path == remote_root && summary.local_root
            == local_root && summary.dry_run == dry_run && summary.files_deleted == 0
            && summary.device.vendor_id == device_info.vendor_id && summary.device.product_id
            == device_info.product_id && summary.device.manufacturer == device_info.manufacturer
            && summary.device.product == device_info.product,
{
    proof {
        lemma_files_in_bound(entries@);
    }
    let total_files = count_local_files(entries);
    let remote_directories = collect_remote_directories(entries, remote_root.as_str());
    let directories_to_create = count_directories_to_create(&remote_directories);
    let mut created_dirs: Vec<String> = Vec::new();
    let mut stats = SyncStats::default();
    let mut progress = ProgressReporter::new(
        total_files.saturating_add(directories_to_create),
        dry_run,
    );
    assert(names(created_dirs@) =~= Seq::<Seq<char>>::empty());
    let outcome = run_sync(
        device,
        entries,
        &remote_directories,
        remote_root.as_str(),
        dry_run,
        &mut created_dirs,
        &mut stats,
        &mut progress,
    );
    let ghost emitted = progress@.events;
    let ghost before = events@;
    let mut records = progress.into_events();
    events.append(&mut records);
    assert(events_of(events@) =~= events_of(before) + emitted);
    let result = match outcome {
        Ok(_) => Ok(
            SyncSummary {
                device: DeviceDetails::from(device_info),
                files_synced: stats.files_synced,
                files_deleted: stats.files_deleted,
                skipped_entries: stats.skipped_entries,
                directories_created: stats.directories_created,
                bytes_uploaded: stats.bytes_uploaded,
                remote_path: remote_root,
                local_root,
                dry_run,
            },
        ),
        Err(e) => Err(e),
    };
    assert(old(device)@.link.reliable || !sync_link_failed(result) ==> performed(
        old(device)@,
        entries@,
        names(remote_directories@),
        remote_root@,
        dry_run,
        device@,
        events_of(old(events)@),
        events_of(events@),
        result,
    ));
    result
}

/// What [`perform_sync`] has done unless the link failed, given the list of
/// directories that it created first: the device is as
/// [`crate::walk::perform_sync`] leaves it, the records of the request stand
/// behind those that were there, and the summary holds the statistics.
pub open spec fn performed(
    device: crate::session::DeviceView,
    entries: Seq<LocalEntry>,
    directories: Seq<Seq<char>>,
    remote_root: Seq<char>,
    dry_run: bool,
    device_after: crate::session::DeviceView,
    events_before: Seq<ProgressEvent>,
    events_after: Seq<ProgressEvent>,
    r: Result<SyncSummary, SyncError>,
) -> bool {
    let total = files_in(entries) + count_below_root(directories);
    let start = ProgressView::started(
        if total <= usize::MAX {
            total as usize
        } else {
            usize::MAX
        },
        dry_run,
    );
    let after = crate::walk::perform_sync(
        device,
        start,
        entries,
        directories,
        remote_root,
        dry_run,
    );
    &&& device_after =~= after.0.device
    &&& events_after =~= events_before + after.1.events
    &&& match r {
        Ok(summary) => after.2 is Ok && summary.files_synced == after.0.stats.files_synced
            && summary.files_deleted == after.0.stats.files_deleted && summary.skipped_entries
            == after.0.stats.skipped_entries && summary.directories_created
            == after.0.stats.directories_created && summary.bytes_uploaded
            == after.0.stats.bytes_uploaded,
        Err(e) => after.2 == Err::<(), SyncErrorView>(e@),
    }
}

/// The three parts of a sync request that talk to the device, one after the
/// other. Unless the link fails, and always on a reliable link, it does what
/// [`crate::walk::perform_sync`] says.
fn run_sync<T: ADBMessageTransport>(
    device: &mut ADBMessageDevice<T>,
    entries: &Vec<LocalEntry>,
    remote_directories: &Vec<String>,
    remote_root: &str,
    dry_run: bool,
    created_dirs: &mut Vec<String>,
    stats: &mut SyncStats,
    progress: &mut ProgressReporter,
) -> (r: Result<(), SyncError>)
    requires
        2 * entry_count(entries@) + 2 <= usize::MAX,
        file_bytes(entries@) <= u64::MAX,
        remote_directories@.len() <= entry_count(entries@) + 1,
        *old(stats) == no_stats(),
        names(old(created_dirs)@) == Seq::<Seq<char>>::empty(),
    ensures
        final(device)@.link.reliable == old(device)@.link.reliable,
        final(stats).files_deleted == 0,
        old(device)@.link.reliable || !sync_link_failed(r) ==> walked_with(
            walk_view(final(device), final(created_dirs), final(stats)),
            final(progress)@,
            sync_result(r),
            crate::walk::perform_sync(
                old(device)@,
                old(progress)@,
                entries@,
                names(remote_directories@),
                remote_root@,
                dry_run,
            ),
        ),
{
    create_remote_directories(device, remote_directories, dry_run, created_dirs, stats, progress)?;
    ensure_remote_dir(device, remote_root, created_dirs, stats, dry_run)?;
    proof {
        reveal_strlit("");
        assert(""@ =~= Seq::<char>::empty());
    }
    sync_directory(device, entries, "", remote_root, created_dirs, stats, progress, dry_run)
}

} // verus!
