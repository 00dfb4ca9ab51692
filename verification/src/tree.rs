//! A local directory tree as a value: what the walk reads of the file system.

use crate::paths::{is_hidden, should_skip_entry};
use vstd::prelude::*;

verus! {

/// What an entry of a directory is.
#[derive(Debug, PartialEq, Eq)]
pub enum LocalKind {
    /// A regular file, with its content.
    File(Vec<u8>),
    /// A directory, with its entries in the order in which they were read.
    Directory(Vec<LocalEntry>),
    /// Anything else, such as a symbolic link.
    Other,
}

/// An entry of a directory: its name and what it is.
#[derive(Debug, PartialEq, Eq)]
pub struct LocalEntry {
    pub name: String,
    pub kind: LocalKind,
}

/// The number of entries of a tree, those of its directories included.
pub open spec fn entry_count(entries: Seq<LocalEntry>) -> nat
    decreases entries,
{
    if entries.len() == 0 {
        0
    } else {
        entry_count(entries.drop_last()) + 1 + match entries.last().kind {
            LocalKind::Directory(children) => entry_count(children@),
            _ => 0nat,
        }
    }
}

/// The number of bytes in the files of a tree.
pub open spec fn file_bytes(entries: Seq<LocalEntry>) -> nat
    decreases entries,
{
    if entries.len() == 0 {
        0
    } else {
        file_bytes(entries.drop_last()) + match entries.last().kind {
            LocalKind::File(content) => content@.len(),
            LocalKind::Directory(children) => file_bytes(children@),
            LocalKind::Other => 0nat,
        }
    }
}

/// The number of files of a tree that the sync will look at: hidden entries
/// are left out, with all that lies below them.
pub open spec fn files_in(entries: Seq<LocalEntry>) -> nat
    decreases entries,
{
    if entries.len() == 0 {
        0
    } else {
        files_in(entries.drop_last()) + if is_hidden(entries.last().name@) {
            0nat
        } else {
            match entries.last().kind {
                LocalKind::File(_) => 1nat,
                LocalKind::Directory(children) => files_in(children@),
                LocalKind::Other => 0nat,
            }
        }
    }
}

/// A tree has at least as many entries as files to look at.
pub proof fn lemma_files_in_bound(entries: Seq<LocalEntry>)
    ensures
        files_in(entries) <= entry_count(entries),
    decreases entries,
{
    if entries.len() > 0 {
        lemma_files_in_bound(entries.drop_last());
        match entries.last().kind {
            LocalKind::Directory(children) => {
                lemma_files_in_bound(children@);
            },
            _ => {},
        }
    }
}

/// The first entries of a tree are no more than all of them.
pub proof fn lemma_entry_count_take(entries: Seq<LocalEntry>, k: int)
    requires
        0 <= k <= entries.len(),
    ensures
        entry_count(entries.take(k)) <= entry_count(entries),
        file_bytes(entries.take(k)) <= file_bytes(entries),
        files_in(entries.take(k)) <= files_in(entries),
    decreases entries.len() - k,
{
    if k < entries.len() {
        lemma_entry_count_take(entries, k + 1);
        assert(entries.take(k + 1).drop_last() =~= entries.take(k));
    } else {
        assert(entries.take(k) =~= entries);
    }
}

/// Counts the files that the sync will look at.
pub fn count_local_files(entries: &Vec<LocalEntry>) -> (total: usize)
    requires
        files_in(entries@) <= usize::MAX,
    ensures
        total == files_in(entries@),
    decreases entries@,
{
    let mut total: usize = 0;
    let mut i: usize = 0;
    while i < entries.len()
        invariant
            i <= entries@.len(),
            total == files_in(entries@.take(i as int)),
            files_in(entries@) <= usize::MAX,
        decreases entries@.len() - i,
    {
        proof {
            assert(entries@.take(i + 1).drop_last() =~= entries@.take(i as int));
            lemma_entry_count_take(entries@, i + 1);
        }
        let entry = &entries[i];
        if !should_skip_entry(entry.name.as_str()) {
            match &entry.kind {
                LocalKind::Directory(children) => {
                    total = total + count_local_files(children);
                },
                LocalKind::File(_) => {
                    total = total + 1;
                },
                LocalKind::Other => {},
            }
        }
        i = i + 1;
    }
    assert(entries@.take(i as int) =~= entries@);
    total
}

} // verus!
