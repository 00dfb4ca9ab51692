//! The remote directories that a tree needs, in the order in which they are
//! created: nearer to the root first.

use crate::driver::{child_relative, is_known, names};
use crate::paths::{
    build_remote_path, depth, dir_path, directory_depth, has_no, is_hidden, lemma_split_append,
    lemma_split_len, normalize_remote_dir_path, remote_path, should_skip_entry, split, strip_end,
};
use crate::text::chars_of;
use crate::tree::{entry_count, lemma_entry_count_take, LocalEntry, LocalKind};
use crate::walk::child_path;
use vstd::prelude::*;

verus! {

/// Whether the text `a` comes before the text `b` in the dictionary, the
/// characters in the order of their code points.
pub open spec fn text_before(a: Seq<char>, b: Seq<char>) -> bool
    decreases a.len(),
{
    if b.len() == 0 {
        false
    } else if a.len() == 0 {
        true
    } else if a[0] != b[0] {
        (a[0] as int) < (b[0] as int)
    } else {
        text_before(a.drop_first(), b.drop_first())
    }
}

/// Whether the directory `a` is created before the directory `b`: it lies
/// less deep, or as deep and comes first in the dictionary.
pub open spec fn dir_before(a: Seq<char>, b: Seq<char>) -> bool {
    depth(a) < depth(b) || (depth(a) == depth(b) && text_before(a, b))
}

/// Of two texts one comes before the other, or they are the same.
pub proof fn lemma_text_total(a: Seq<char>, b: Seq<char>)
    ensures
        text_before(a, b) || text_before(b, a) || a == b,
        !(text_before(a, b) && text_before(b, a)),
        !text_before(a, a),
    decreases a.len(),
{
    if a.len() > 0 && b.len() > 0 && a[0] == b[0] {
        lemma_text_total(a.drop_first(), b.drop_first());
        if a.drop_first() == b.drop_first() {
            assert(a =~= seq![a[0]] + a.drop_first());
            assert(b =~= seq![b[0]] + b.drop_first());
        }
    } else if a.len() == 0 && b.len() == 0 {
        assert(a =~= b);
    }
    if a.len() > 0 {
        lemma_text_total(a.drop_first(), a.drop_first());
    }
}

/// What comes before something that comes before a third comes before the
/// third.
pub proof fn lemma_text_transitive(a: Seq<char>, b: Seq<char>, c: Seq<char>)
    requires
        text_before(a, b),
        text_before(b, c),
    ensures
        text_before(a, c),
    decreases a.len(),
{
    if a.len() > 0 && a[0] == b[0] && b[0] == c[0] {
        lemma_text_transitive(a.drop_first(), b.drop_first(), c.drop_first());
    }
}

/// The order of creation is total and transitive.
pub proof fn lemma_dir_order(a: Seq<char>, b: Seq<char>, c: Seq<char>)
    ensures
        dir_before(a, b) || dir_before(b, a) || a == b,
        !(dir_before(a, b) && dir_before(b, a)),
        dir_before(a, b) && dir_before(b, c) ==> dir_before(a, c),
{
    lemma_text_total(a, b);
    if text_before(a, b) && text_before(b, c) {
        lemma_text_transitive(a, b, c);
    }
}

/// Whether a list of directories stands in the order of creation.
pub open spec fn in_order(list: Seq<Seq<char>>) -> bool {
    forall|i: int, j: int|
        0 <= i < j < list.len() ==> dir_before(#[trigger] list[i], #[trigger] list[j])
}

/// Decides [`text_before`].
pub fn comes_before(a: &Vec<char>, b: &Vec<char>) -> (before: bool)
    ensures
        before == text_before(a@, b@),
{
    let mut i: usize = 0;
    assert(a@.skip(0) =~= a@ && b@.skip(0) =~= b@);
    while i < a.len() && i < b.len() && a[i] == b[i]
        invariant
            i <= a@.len(),
            i <= b@.len(),
            text_before(a@, b@) == text_before(a@.skip(i as int), b@.skip(i as int)),
        decreases a@.len() - i,
    {
        assert(a@.skip(i as int).drop_first() =~= a@.skip(i + 1));
        assert(b@.skip(i as int).drop_first() =~= b@.skip(i + 1));
        i = i + 1;
    }
    if i >= b.len() {
        false
    } else if i >= a.len() {
        true
    } else {
        a[i] < b[i]
    }
}

/// Decides [`dir_before`].
pub fn created_before(a: &String, b: &String) -> (before: bool)
    ensures
        before == dir_before(a@, b@),
{
    let depth_a = directory_depth(a.as_str());
    let depth_b = directory_depth(b.as_str());
    if depth_a != depth_b {
        depth_a < depth_b
    } else {
        comes_before(&chars_of(a.as_str()), &chars_of(b.as_str()))
    }
}

/// Puts `dir` into `list` at its place in the order of creation.
pub fn insert_in_order(list: &mut Vec<String>, dir: String)
    requires
        in_order(names(old(list)@)),
        !names(old(list)@).contains(dir@),
    ensures
        in_order(names(final(list)@)),
        forall|d: Seq<char>|
            names(final(list)@).contains(d) <==> (d == dir@ || names(old(list)@).contains(d)),
        final(list)@.len() == old(list)@.len() + 1,
{
    let ghost before = names(list@);
    let mut at: usize = 0;
    while at < list.len() && created_before(&list[at], &dir)
        invariant
            at <= list@.len(),
            names(list@) == before,
            forall|k: int| 0 <= k < at ==> dir_before(#[trigger] before[k], dir@),
        decreases list@.len() - at,
    {
        at = at + 1;
    }
    list.insert(at, dir);
    proof {
        let after = names(list@);
        assert(after =~= before.insert(at as int, dir@));
        assert forall|i: int, j: int| 0 <= i < j < after.len() implies dir_before(
            #[trigger] after[i],
            #[trigger] after[j],
        ) by {
            if i == at {
                let first = before[at as int];
                assert(before.contains(first));
                lemma_dir_order(dir@, first, after[j]);
                if j - 1 > at {
                    assert(dir_before(before[at as int], before[j - 1]));
                }
            } else if j == at {
            } else {
                let x = if i < at { i } else { i - 1 };
                let y = if j < at { j } else { j - 1 };
                assert(dir_before(before[x], before[y]));
            }
        }
        assert forall|d: Seq<char>| after.contains(d) <==> (d == dir@ || before.contains(d)) by {
            if after.contains(d) {
                let k = choose|k: int| 0 <= k < after.len() && after[k] == d;
                if k < at {
                    assert(before[k] == d);
                } else if k > at {
                    assert(before[k - 1] == d);
                }
            }
            if d == dir@ {
                assert(after[at as int] == d);
            }
            if before.contains(d) {
                let k = choose|k: int| 0 <= k < before.len() && before[k] == d;
                if k < at {
                    assert(after[k] == d);
                } else {
                    assert(after[k + 1] == d);
                }
            }
        }
    }
}

/// The remote directories of the directories of a tree, in the order in
/// which the walk comes to them; hidden directories are left out with all
/// that lies below them.
pub open spec fn visited_dirs(
    entries: Seq<LocalEntry>,
    relative_dir: Seq<char>,
    remote_root: Seq<char>,
) -> Seq<
    Seq<char>,
>
    decreases entries,
{
    if entries.len() == 0 {
        Seq::empty()
    } else {
        let entry = entries.last();
        let relative = child_path(relative_dir, entry.name@);
        visited_dirs(entries.drop_last(), relative_dir, remote_root) + if is_hidden(entry.name@) {
            Seq::<Seq<char>>::empty()
        } else {
            match entry.kind {
                LocalKind::Directory(children) => seq![dir_path(remote_path(remote_root, relative))]
                    + visited_dirs(children@, relative, remote_root),
                _ => Seq::<Seq<char>>::empty(),
            }
        }
    }
}

/// Whether `list` holds the remote root and the remote directories of the
/// tree, each once, in the order of creation.
pub open spec fn is_creation_list(
    list: Seq<Seq<char>>,
    entries: Seq<LocalEntry>,
    remote_root: Seq<char>,
) -> bool {
    &&& in_order(list)
    &&& forall|d: Seq<char>|
        list.contains(d) <==> (d == dir_path(remote_root) || visited_dirs(
            entries,
            Seq::empty(),
            remote_root,
        ).contains(d))
}

/// Puts the remote directories of a tree into `directories`, each at its
/// place in the order of creation and none twice.
pub fn collect_remote_directories_recursive(
    entries: &Vec<LocalEntry>,
    relative_dir: &str,
    remote_root: &str,
    directories: &mut Vec<String>,
)
    requires
        in_order(names(old(directories)@)),
    ensures
        in_order(names(final(directories)@)),
        forall|d: Seq<char>|
            names(final(directories)@).contains(d) <==> (names(old(directories)@).contains(d)
                || visited_dirs(entries@, relative_dir@, remote_root@).contains(d)),
        final(directories)@.len() <= old(directories)@.len() + entry_count(entries@),
    decreases entries@,
{
    let mut i: usize = 0;
    assert(visited_dirs(entries@.take(0), relative_dir@, remote_root@) =~= Seq::<Seq<char>>::empty());
    assert(entry_count(entries@.take(0)) == 0);
    while i < entries.len()
        invariant
            i <= entries@.len(),
            directories@.len() <= old(directories)@.len() + entry_count(entries@.take(i as int)),
            in_order(names(directories@)),
            forall|d: Seq<char>|
                names(directories@).contains(d) <==> (names(old(directories)@).contains(d)
                    || visited_dirs(entries@.take(i as int), relative_dir@, remote_root@).contains(d)),
        decreases entries@.len() - i,
    {
        let ghost so_far = visited_dirs(entries@.take(i as int), relative_dir@, remote_root@);
        proof {
            assert(entries@.take(i + 1).drop_last() =~= entries@.take(i as int));
            lemma_entry_count_take(entries@, i + 1);
        }
        let entry = &entries[i];
        if !should_skip_entry(entry.name.as_str()) {
            match &entry.kind {
                LocalKind::Directory(children) => {
                    let relative = child_relative(relative_dir, entry.name.as_str());
                    let remote_dir = build_remote_path(remote_root, relative.as_str());
                    let normal = normalize_remote_dir_path(remote_dir.as_str());
                    if !is_known(directories, &normal) {
                        insert_in_order(directories, normal);
                    }
                    collect_remote_directories_recursive(
                        children,
                        relative.as_str(),
                        remote_root,
                        directories,
                    );
                    proof {
                        let below = visited_dirs(children@, relative@, remote_root@);
                        let here = seq![dir_path(remote_path(remote_root@, relative@))] + below;
                        let next = visited_dirs(entries@.take(i + 1), relative_dir@, remote_root@);
                        assert(next == so_far + here);
                        assert forall|d: Seq<char>|
                            names(directories@).contains(d) <==> (names(old(directories)@).contains(d)
                                || next.contains(d)) by {
                            if next.contains(d) {
                                let k = choose|k: int| 0 <= k < next.len() && next[k] == d;
                                if k < so_far.len() {
                                    assert(so_far[k] == d);
                                } else if k == so_far.len() {
                                    assert(here[0] == d);
                                } else {
                                    assert(below[k - so_far.len() - 1] == d);
                                }
                            }
                            if so_far.contains(d) {
                                let k = choose|k: int| 0 <= k < so_far.len() && so_far[k] == d;
                                assert(next[k] == d);
                            }
                            if below.contains(d) {
                                let k = choose|k: int| 0 <= k < below.len() && below[k] == d;
                                assert(next[so_far.len() + 1 + k] == d);
                            }
                            if d == here[0] {
                                assert(next[so_far.len() as int] == d);
                            }
                        }
                    }
                },
                _ => {
                    assert(visited_dirs(entries@.take(i + 1), relative_dir@, remote_root@)
                        =~= so_far);
                },
            }
        } else {
            assert(visited_dirs(entries@.take(i + 1), relative_dir@, remote_root@) =~= so_far);
        }
        i = i + 1;
    }
    assert(entries@.take(i as int) =~= entries@);
}

/// Lists the remote directories that a tree needs, the remote root among
/// them, each once and in the order of creation: see [`is_creation_list`].
pub fn collect_remote_directories(entries: &Vec<LocalEntry>, remote_root: &str) -> (list: Vec<String>)
    ensures
        is_creation_list(names(list@), entries@, remote_root@),
        list@.len() <= entry_count(entries@) + 1,
{
    let mut directories: Vec<String> = Vec::new();
    assert(names(directories@) =~= Seq::<Seq<char>>::empty());
    insert_in_order(&mut directories, normalize_remote_dir_path(remote_root));
    proof {
        reveal_strlit("");
        assert(""@ =~= Seq::<char>::empty());
    }
    collect_remote_directories_recursive(entries, "", remote_root, &mut directories);
    directories
}

/// Whether `child` lies directly in the directory `parent`: it is the path
/// of the parent, a slash and a name.
pub open spec fn is_child_of(child: Seq<char>, parent: Seq<char>) -> bool {
    exists|name: Seq<char>|
        name.len() > 0 && has_no(name, '/') && child == strip_end(parent, '/') + seq!['/']
            + #[trigger] name.subrange(0, name.len() as int)
}

/// Slashes at the end of a path do not change its depth.
pub proof fn lemma_depth_strip(path: Seq<char>)
    ensures
        depth(strip_end(path, '/')) == depth(path),
    decreases path.len(),
{
    if path.len() > 0 && path.last() == '/' {
        lemma_depth_strip(path.drop_last());
        let before = split(path.drop_last(), '/');
        assert(split(path, '/').drop_last() =~= before);
    }
}

/// A directory lies one deeper than the directory that holds it.
pub proof fn lemma_child_depth(child: Seq<char>, parent: Seq<char>)
    requires
        is_child_of(child, parent),
    ensures
        depth(child) == depth(parent) + 1,
{
    let name = choose|name: Seq<char>|
        name.len() > 0 && has_no(name, '/') && child == strip_end(parent, '/') + seq!['/']
            + #[trigger] name.subrange(0, name.len() as int);
    assert(name.subrange(0, name.len() as int) =~= name);
    let base = strip_end(parent, '/');
    lemma_depth_strip(parent);
    let slashed = base + seq!['/'];
    assert(slashed.drop_last() =~= base);
    lemma_split_len(base, '/');
    lemma_split_append(slashed, name, '/');
    assert(Seq::<char>::empty() + name =~= name);
    assert(split(slashed, '/').drop_last() =~= split(base, '/'));
    assert(split(child, '/') =~= split(base, '/').push(name));
    assert(split(child, '/').drop_last() =~= split(base, '/'));
}

/// Depth ordering: in a list that stands in the order of creation no
/// directory lies deeper than one behind it, and no directory stands before
/// the directory that holds it.
pub proof fn lemma_depth_ordering(list: Seq<Seq<char>>)
    requires
        in_order(list),
    ensures
        forall|i: int, j: int|
            0 <= i < j < list.len() ==> depth(#[trigger] list[i]) <= depth(#[trigger] list[j]),
        forall|i: int, j: int|
            0 <= i < j < list.len() ==> !is_child_of(#[trigger] list[i], #[trigger] list[j]),
{
    assert forall|i: int, j: int| 0 <= i < j < list.len() implies !is_child_of(
        #[trigger] list[i],
        #[trigger] list[j],
    ) by {
        if is_child_of(list[i], list[j]) {
            lemma_child_depth(list[i], list[j]);
        }
    }
}

} // verus!
