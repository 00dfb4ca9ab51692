//! What a request adds up to: with the list of directories that the tree
//! needs created first, the walk creates nothing more, and the progress
//! ends where it was told to end.

use crate::dirs::{in_order, is_creation_list, lemma_dir_order, visited_dirs};
use crate::error::SyncErrorView;
use crate::paths::{dir_path, is_hidden, remote_path, strip_end};
use crate::session::DeviceView;
use crate::tree::{files_in, LocalEntry, LocalKind};
use crate::walk::{child_path, count_below_root, no_stats, perform_sync, ProgressView, WalkView};
use vstd::prelude::*;

verus! {

/// The remote directories that one entry of a directory stands for.
pub open spec fn entry_dirs(
    entry: LocalEntry,
    relative_dir: Seq<char>,
    remote_root: Seq<char>,
) -> Seq<
    Seq<char>,
> {
    let relative = child_path(relative_dir, entry.name@);
    if is_hidden(entry.name@) {
        Seq::empty()
    } else {
        match entry.kind {
            LocalKind::Directory(children) => seq![dir_path(remote_path(remote_root, relative))]
                + visited_dirs(children@, relative, remote_root),
            _ => Seq::empty(),
        }
    }
}

/// The number of files that one entry of a directory stands for.
pub open spec fn entry_files(entry: LocalEntry) -> nat {
    if is_hidden(entry.name@) {
        0
    } else {
        match entry.kind {
            LocalKind::File(_) => 1,
            LocalKind::Directory(children) => files_in(children@),
            LocalKind::Other => 0,
        }
    }
}

/// The directories of a tree are those of its first entry and those of the
/// entries behind it; so are its files.
pub proof fn lemma_first_entry(
    entries: Seq<LocalEntry>,
    relative_dir: Seq<char>,
    remote_root: Seq<char>,
)
    requires
        entries.len() > 0,
    ensures
        visited_dirs(entries, relative_dir, remote_root) == entry_dirs(
            entries[0],
            relative_dir,
            remote_root,
        ) + visited_dirs(entries.drop_first(), relative_dir, remote_root),
        files_in(entries) == entry_files(entries[0]) + files_in(entries.drop_first()),
    decreases entries.len(),
{
    if entries.len() == 1 {
        assert(entries.drop_last() =~= Seq::<LocalEntry>::empty());
        assert(entries.drop_first() =~= Seq::<LocalEntry>::empty());
        assert(entries.last() == entries[0]);
        assert(visited_dirs(entries, relative_dir, remote_root) =~= entry_dirs(
            entries[0],
            relative_dir,
            remote_root,
        ) + visited_dirs(entries.drop_first(), relative_dir, remote_root));
    } else {
        lemma_first_entry(entries.drop_last(), relative_dir, remote_root);
        assert(entries.drop_last()[0] == entries[0]);
        assert(entries.drop_last().drop_first() =~= entries.drop_first().drop_last());
        assert(entries.drop_first().last() == entries.last());
        assert(visited_dirs(entries, relative_dir, remote_root) =~= entry_dirs(
            entries[0],
            relative_dir,
            remote_root,
        ) + visited_dirs(entries.drop_first(), relative_dir, remote_root));
    }
}

/// The directories of a list that are not the root are counted from the
/// first as from the last.
pub proof fn lemma_first_directory(directories: Seq<Seq<char>>)
    requires
        directories.len() > 0,
    ensures
        count_below_root(directories) == count_below_root(directories.drop_first()) + if dir_path(
            directories[0],
        ) == seq!['/'] {
            0nat
        } else {
            1nat
        },
    decreases directories.len(),
{
    if directories.len() == 1 {
        assert(directories.drop_last() =~= Seq::<Seq<char>>::empty());
        assert(directories.drop_first() =~= Seq::<Seq<char>>::empty());
        assert(directories.last() == directories[0]);
    } else {
        lemma_first_directory(directories.drop_last());
        assert(directories.drop_last()[0] == directories[0]);
        assert(directories.drop_last().drop_first() =~= directories.drop_first().drop_last());
        assert(directories.drop_first().last() == directories.last());
    }
}

/// A path without slashes at its end is a directory path as it stands.
pub proof fn lemma_dir_path_again(path: Seq<char>)
    ensures
        dir_path(dir_path(path)) == dir_path(path),
{
    if path != seq!['/'] {
        lemma_strip_end_clean(path);
        let stripped = strip_end(path, '/');
        if stripped.len() > 0 {
            assert(stripped.last() != '/');
        }
    }
}

/// What is left of a path without the slashes at its end does not end in a
/// slash.
pub proof fn lemma_strip_end_clean(path: Seq<char>)
    ensures
        strip_end(path, '/').len() > 0 ==> strip_end(path, '/').last() != '/',
        strip_end(strip_end(path, '/'), '/') == strip_end(path, '/'),
    decreases path.len(),
{
    if path.len() > 0 && path.last() == '/' {
        lemma_strip_end_clean(path.drop_last());
    }
}

/// Whether all that a walk of `entries` needs created is noted: the
/// directory that holds them and every directory below it.
pub open spec fn covers(
    created: Seq<Seq<char>>,
    entries: Seq<LocalEntry>,
    relative_dir: Seq<char>,
    remote_root: Seq<char>,
) -> bool {
    &&& created.contains(dir_path(remote_path(remote_root, relative_dir)))
    &&& forall|d: Seq<char>|
        visited_dirs(entries, relative_dir, remote_root).contains(d) ==> created.contains(d)
}

impl WalkView {
    /// Creating the directories of a list of which none is noted yet, none
    /// stands twice and each is a directory path as it stands: where it
    /// succeeds, each is noted, and each but the root is counted and
    /// reported.
    pub proof fn lemma_create_counts(
        self,
        progress: ProgressView,
        directories: Seq<Seq<char>>,
        dry_run: bool,
    )
        requires
            directories.no_duplicates(),
            forall|i: int|
                0 <= i < directories.len() ==> dir_path(#[trigger] directories[i]) == directories[i]
                    && !self.created.contains(directories[i]),
            self.stats.directories_created + count_below_root(directories) <= usize::MAX,
            progress.processed_files + count_below_root(directories) <= usize::MAX,
        ensures
            ({
                let after = self.create_remote_directories(progress, directories, dry_run);
                after.2 is Ok ==> {
                    &&& after.0.created == self.created + directories
                    &&& after.0.stats.directories_created == self.stats.directories_created
                        + count_below_root(directories)
                    &&& after.0.stats.files_synced == self.stats.files_synced
                    &&& after.0.stats.skipped_entries == self.stats.skipped_entries
                    &&& after.1.processed_files == progress.processed_files + count_below_root(
                        directories,
                    )
                    &&& after.1.events.len() == progress.events.len() + count_below_root(directories)
                    &&& after.1.total_files == progress.total_files
                }
            }),
        decreases directories.len(),
    {
        if directories.len() == 0 {
            assert(self.created + directories =~= self.created);
        } else {
            lemma_first_directory(directories);
            let first = directories[0];
            let rest = directories.drop_first();
            let made = self.ensure_remote_dir(first, dry_run);
            if made.1 is Ok {
                let reported = if self.created.contains(first) || first == seq!['/'] {
                    progress
                } else {
                    progress.advanced(Some(first))
                };
                assert(made.0.created == self.created.push(first));
                assert forall|i: int| 0 <= i < rest.len() implies dir_path(#[trigger] rest[i])
                    == rest[i] && !made.0.created.contains(rest[i]) by {
                    assert(rest[i] == directories[i + 1]);
                    if made.0.created.contains(rest[i]) {
                        let k = choose|k: int|
                            0 <= k < made.0.created.len() && made.0.created[k] == rest[i];
                        if k < self.created.len() {
                            assert(self.created[k] == rest[i]);
                        }
                    }
                }
                assert(rest.no_duplicates()) by {
                    assert forall|i: int, j: int|
                        0 <= i < rest.len() && 0 <= j < rest.len() && i != j implies rest[i]
                        != rest[j] by {
                        assert(rest[i] == directories[i + 1] && rest[j] == directories[j + 1]);
                    }
                }
                made.0.lemma_create_counts(reported, rest, dry_run);
                assert(self.created.push(first) + rest =~= self.created + directories);
            }
        }
    }

    /// Walking a tree of which every directory is noted: where it succeeds,
    /// nothing is created, and each file that the walk looks at is reported
    /// once.
    #[verifier::rlimit(60)]
    pub proof fn lemma_walk_counts(
        self,
        progress: ProgressView,
        entries: Seq<LocalEntry>,
        relative_dir: Seq<char>,
        remote_root: Seq<char>,
        dry_run: bool,
    )
        requires
            covers(self.created, entries, relative_dir, remote_root),
            progress.processed_files + files_in(entries) <= usize::MAX,
        ensures
            ({
                let after = self.sync_directory(
                    progress,
                    entries,
                    relative_dir,
                    remote_root,
                    dry_run,
                );
                &&& after.0.created == self.created
                &&& after.0.stats.directories_created == self.stats.directories_created
                &&& after.2 is Ok ==> {
                    &&& after.1.processed_files == progress.processed_files + files_in(entries)
                    &&& after.1.events.len() == progress.events.len() + files_in(entries)
                    &&& after.1.total_files == progress.total_files
                }
            }),
        decreases entries,
    {
        if entries.len() > 0 {
            lemma_first_entry(entries, relative_dir, remote_root);
            let entry = entries[0];
            let relative = child_path(relative_dir, entry.name@);
            let here = entry_dirs(entry, relative_dir, remote_root);
            let behind = visited_dirs(entries.drop_first(), relative_dir, remote_root);
            let all = visited_dirs(entries, relative_dir, remote_root);
            assert forall|d: Seq<char>| behind.contains(d) implies self.created.contains(d) by {
                let k = choose|k: int| 0 <= k < behind.len() && behind[k] == d;
                assert(all[here.len() + k] == d);
            }
            assert forall|d: Seq<char>| here.contains(d) implies self.created.contains(d) by {
                let k = choose|k: int| 0 <= k < here.len() && here[k] == d;
                assert(all[k] == d);
            }
            let done = if is_hidden(entry.name@) {
                (self.skipped(), progress, Ok::<(), SyncErrorView>(()))
            } else {
                match entry.kind {
                    LocalKind::Directory(children) => {
                        let own = dir_path(remote_path(remote_root, relative));
                        assert(here[0] == own);
                        assert(here.contains(own));
                        lemma_dir_path_again(remote_path(remote_root, relative));
                        self.lemma_ensure_again(remote_path(remote_root, relative), dry_run);
                        let below = visited_dirs(children@, relative, remote_root);
                        assert forall|d: Seq<char>| below.contains(d) implies self.created.contains(
                            d,
                        ) by {
                            let k = choose|k: int| 0 <= k < below.len() && below[k] == d;
                            assert(here =~= seq![own] + below);
                            assert(here[k + 1] == d);
                            assert(here.contains(d));
                        }
                        self.lemma_walk_counts(progress, children@, relative, remote_root, dry_run);
                        self.sync_directory(progress, children@, relative, remote_root, dry_run)
                    },
                    LocalKind::File(content) => {
                        let remote_file = remote_path(remote_root, relative);
                        self.lemma_ensure_again(remote_path(remote_root, relative_dir), dry_run);
                        self.lemma_push_file_keeps(content@, remote_file, dry_run);
                        let pushed = self.push_file(content@, remote_file, dry_run);
                        match pushed.1 {
                            Err(e) => (pushed.0, progress, Err(e)),
                            Ok(_) => (pushed.0, progress.advanced(Some(remote_file)), Ok(())),
                        }
                    },
                    LocalKind::Other => (self.skipped(), progress, Ok(())),
                }
            };
            assert(done.0.created == self.created);
            assert(done.0.stats.directories_created == self.stats.directories_created);
            if done.2 is Ok {
                assert(done.1.processed_files == progress.processed_files + entry_files(entry));
                done.0.lemma_walk_counts(
                    done.1,
                    entries.drop_first(),
                    relative_dir,
                    remote_root,
                    dry_run,
                );
            }
        }
    }
}

/// A list in the order of creation holds no directory twice.
pub proof fn lemma_in_order_distinct(list: Seq<Seq<char>>)
    requires
        in_order(list),
    ensures
        list.no_duplicates(),
{
    assert forall|i: int, j: int| 0 <= i < list.len() && 0 <= j < list.len() && i != j implies list[i]
        != list[j] by {
        lemma_dir_order(list[i], list[j], list[i]);
        if i < j {
            assert(crate::dirs::dir_before(list[i], list[j]));
        } else {
            assert(crate::dirs::dir_before(list[j], list[i]));
        }
    }
}

/// Totals of a request that succeeds, given the list of directories that
/// the tree needs: as many directories are created as the list holds below
/// the root, all of them before the first file is looked at; the progress
/// ends with as many items finished as it was started with, one record for
/// the start and one for each item.
pub proof fn lemma_request_totals(
    device: DeviceView,
    entries: Seq<LocalEntry>,
    directories: Seq<Seq<char>>,
    remote_root: Seq<char>,
    dry_run: bool,
)
    requires
        is_creation_list(directories, entries, remote_root),
        files_in(entries) + count_below_root(directories) <= usize::MAX,
    ensures
        ({
            let total = (files_in(entries) + count_below_root(directories)) as usize;
            let after = perform_sync(
                device,
                ProgressView::started(total, dry_run),
                entries,
                directories,
                remote_root,
                dry_run,
            );
            after.2 is Ok ==> {
                &&& after.0.stats.directories_created == count_below_root(directories)
                &&& after.0.created == directories
                &&& after.1.processed_files == total
                &&& after.1.total_files == total
                &&& after.1.events.len() == total + 1
            }
        }),
{
    let total = (files_in(entries) + count_below_root(directories)) as usize;
    let progress = ProgressView::started(total, dry_run);
    let start = WalkView { device, created: Seq::empty(), stats: no_stats() };
    lemma_in_order_distinct(directories);
    let visited = visited_dirs(entries, Seq::empty(), remote_root);
    assert forall|i: int| 0 <= i < directories.len() implies dir_path(#[trigger] directories[i])
        == directories[i] && !start.created.contains(directories[i]) by {
        assert(directories.contains(directories[i]));
        if directories[i] == dir_path(remote_root) {
            lemma_dir_path_again(remote_root);
        } else {
            lemma_visited_are_dir_paths(entries, Seq::empty(), remote_root, directories[i]);
        }
    }
    start.lemma_create_counts(progress, directories, dry_run);
    let prepared = start.create_remote_directories(progress, directories, dry_run);
    if prepared.2 is Ok {
        assert(prepared.0.created =~= directories);
        lemma_dir_path_again(remote_root);
        prepared.0.lemma_ensure_again(remote_root, dry_run);
        assert(remote_path(remote_root, Seq::<char>::empty()) == remote_root) by {
            reveal_with_fuel(crate::paths::split, 2);
            reveal_with_fuel(crate::paths::normal_parts, 3);
            let pieces = crate::paths::split(Seq::<char>::empty(), '/');
            assert(pieces =~= seq![Seq::<char>::empty()]);
            assert(pieces.drop_last() =~= Seq::<Seq<char>>::empty());
        }
        prepared.0.lemma_walk_counts(prepared.1, entries, Seq::empty(), remote_root, dry_run);
    }
}

/// Every remote directory of a tree is a directory path as it stands.
pub proof fn lemma_visited_are_dir_paths(
    entries: Seq<LocalEntry>,
    relative_dir: Seq<char>,
    remote_root: Seq<char>,
    d: Seq<char>,
)
    requires
        visited_dirs(entries, relative_dir, remote_root).contains(d),
    ensures
        dir_path(d) == d,
    decreases entries,
{
    let all = visited_dirs(entries, relative_dir, remote_root);
    let k = choose|k: int| 0 <= k < all.len() && all[k] == d;
    lemma_first_entry(entries, relative_dir, remote_root);
    let entry = entries[0];
    let here = entry_dirs(entry, relative_dir, remote_root);
    if k < here.len() {
        assert(here[k] == d);
        let relative = child_path(relative_dir, entry.name@);
        if k == 0 {
            lemma_dir_path_again(remote_path(remote_root, relative));
        } else {
            match entry.kind {
                LocalKind::Directory(children) => {
                    let below = visited_dirs(children@, relative, remote_root);
                    assert(below[k - 1] == d);
                    lemma_visited_are_dir_paths(children@, relative, remote_root, d);
                },
                _ => {},
            }
        }
    } else {
        let behind = visited_dirs(entries.drop_first(), relative_dir, remote_root);
        assert(behind[k - here.len()] == d);
        lemma_visited_are_dir_paths(entries.drop_first(), relative_dir, remote_root, d);
    }
}

} // verus!
