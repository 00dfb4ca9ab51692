//! Remote paths: how a path given by the user is normalized, how the path of
//! a local entry is carried over to the device, and how deep a directory lies.

use crate::error::{SyncError, SyncErrorView};
use crate::text::{chars_of, string_of};
use vstd::prelude::*;

verus! {

/// Whether a character is white space: the characters with the Unicode
/// property `White_Space`.
pub open spec fn is_whitespace(c: char) -> bool {
    let n = c as u32;
    (0x09 <= n <= 0x0d) || n == 0x20 || n == 0x85 || n == 0xa0 || n == 0x1680 || (0x2000 <= n
        <= 0x200a) || n == 0x2028 || n == 0x2029 || n == 0x202f || n == 0x205f || n == 0x3000
}

/// Decides [`is_whitespace`].
pub fn whitespace(c: char) -> (b: bool)
    ensures
        b == is_whitespace(c),
{
    let n = c as u32;
    (0x09 <= n && n <= 0x0d) || n == 0x20 || n == 0x85 || n == 0xa0 || n == 0x1680 || (0x2000 <= n
        && n <= 0x200a) || n == 0x2028 || n == 0x2029 || n == 0x202f || n == 0x205f || n == 0x3000
}

/// `s` without the white space at its start.
pub open spec fn trim_start(s: Seq<char>) -> Seq<char>
    decreases s.len(),
{
    if s.len() > 0 && is_whitespace(s[0]) {
        trim_start(s.drop_first())
    } else {
        s
    }
}

/// `s` without the white space at its end.
pub open spec fn trim_end(s: Seq<char>) -> Seq<char>
    decreases s.len(),
{
    if s.len() > 0 && is_whitespace(s.last()) {
        trim_end(s.drop_last())
    } else {
        s
    }
}

/// `s` without the white space at its start and at its end.
pub open spec fn trimmed(s: Seq<char>) -> Seq<char> {
    trim_end(trim_start(s))
}

/// `s` without the characters `c` at its end.
pub open spec fn strip_end(s: Seq<char>, c: char) -> Seq<char>
    decreases s.len(),
{
    if s.len() > 0 && s.last() == c {
        strip_end(s.drop_last(), c)
    } else {
        s
    }
}

/// The pieces of `s` between the characters `sep`: one more than the number
/// of separators, each possibly empty.
pub open spec fn split(s: Seq<char>, sep: char) -> Seq<Seq<char>>
    decreases s.len(),
{
    if s.len() == 0 {
        seq![Seq::<char>::empty()]
    } else {
        let before = split(s.drop_last(), sep);
        if s.last() == sep {
            before.push(Seq::<char>::empty())
        } else {
            before.drop_last().push(before.last().push(s.last()))
        }
    }
}

/// The text `.`.
pub open spec fn dot() -> Seq<char> {
    seq!['.']
}

/// The text `..`.
pub open spec fn dot_dot() -> Seq<char> {
    seq!['.', '.']
}

/// `parts` written as a path: each part behind a slash.
pub open spec fn absolute(parts: Seq<Seq<char>>) -> Seq<char>
    decreases parts.len(),
{
    if parts.len() == 0 {
        Seq::<char>::empty()
    } else {
        absolute(parts.drop_last()) + seq!['/'] + parts.last()
    }
}

/// The characters of `s` from `from` to `to`.
pub fn slice_chars(s: &Vec<char>, from: usize, to: usize) -> (out: Vec<char>)
    requires
        from <= to <= s@.len(),
    ensures
        out@ == s@.subrange(from as int, to as int),
{
    let mut out: Vec<char> = Vec::new();
    let mut i: usize = from;
    while i < to
        invariant
            from <= i <= to <= s@.len(),
            out@ == s@.subrange(from as int, i as int),
        decreases to - i,
    {
        out.push(s[i]);
        i = i + 1;
        assert(out@ =~= s@.subrange(from as int, i as int));
    }
    out
}

/// Appends the characters of `tail` to `out`.
pub fn append_chars(out: &mut Vec<char>, tail: &Vec<char>)
    ensures
        final(out)@ == old(out)@ + tail@,
{
    let mut i: usize = 0;
    while i < tail.len()
        invariant
            i <= tail@.len(),
            out@ == old(out)@ + tail@.take(i as int),
        decreases tail@.len() - i,
    {
        out.push(tail[i]);
        i = i + 1;
        assert(out@ =~= old(out)@ + tail@.take(i as int));
    }
    assert(tail@.take(i as int) =~= tail@);
}

/// Computes [`trimmed`].
pub fn trim(s: &Vec<char>) -> (out: Vec<char>)
    ensures
        out@ == trimmed(s@),
{
    let n = s.len();
    let mut start: usize = 0;
    assert(s@.skip(0) =~= s@);
    while start < n && whitespace(s[start])
        invariant
            start <= n,
            n == s@.len(),
            trim_start(s@) == trim_start(s@.skip(start as int)),
        decreases n - start,
    {
        assert(s@.skip(start as int).drop_first() =~= s@.skip(start + 1));
        start = start + 1;
    }
    let mut end: usize = n;
    assert(s@.subrange(start as int, n as int) =~= s@.skip(start as int));
    while end > start && whitespace(s[end - 1])
        invariant
            start <= end <= n,
            n == s@.len(),
            trim_end(s@.skip(start as int)) == trim_end(s@.subrange(start as int, end as int)),
        decreases end,
    {
        assert(s@.subrange(start as int, end as int).drop_last() =~= s@.subrange(
            start as int,
            end - 1,
        ));
        end = end - 1;
    }
    slice_chars(s, start, end)
}

/// Computes [`strip_end`].
pub fn strip_trailing(s: &Vec<char>, c: char) -> (out: Vec<char>)
    ensures
        out@ == strip_end(s@, c),
{
    let mut end: usize = s.len();
    assert(s@.take(s@.len() as int) =~= s@);
    while end > 0 && s[end - 1] == c
        invariant
            end <= s@.len(),
            strip_end(s@, c) == strip_end(s@.take(end as int), c),
        decreases end,
    {
        assert(s@.take(end as int).drop_last() =~= s@.take(end - 1));
        end = end - 1;
    }
    assert(s@.take(end as int) =~= s@.subrange(0, end as int));
    slice_chars(s, 0, end)
}

/// Computes [`split`].
pub fn split_chars(s: &Vec<char>, sep: char) -> (pieces: Vec<Vec<char>>)
    ensures
        pieces@.len() == split(s@, sep).len(),
        forall|k: int| 0 <= k < pieces@.len() ==> (#[trigger] pieces@[k])@ == split(s@, sep)[k],
{
    let mut pieces: Vec<Vec<char>> = Vec::new();
    let mut current: Vec<char> = Vec::new();
    let mut i: usize = 0;
    while i < s.len()
        invariant
            i <= s@.len(),
            split(s@.take(i as int), sep).len() == pieces@.len() + 1,
            split(s@.take(i as int), sep).last() == current@,
            forall|k: int|
                0 <= k < pieces@.len() ==> (#[trigger] pieces@[k])@ == split(s@.take(i as int), sep)[k],
        decreases s@.len() - i,
    {
        assert(s@.take(i + 1).drop_last() =~= s@.take(i as int));
        if s[i] == sep {
            pieces.push(current);
            current = Vec::new();
        } else {
            current.push(s[i]);
        }
        i = i + 1;
    }
    assert(s@.take(i as int) =~= s@);
    pieces.push(current);
    pieces
}

/// The texts of `v`.
pub open spec fn texts(v: Seq<Vec<char>>) -> Seq<Seq<char>> {
    v.map_values(|part: Vec<char>| part@)
}

/// `s` with every backslash replaced by a slash.
pub open spec fn sanitized(s: Seq<char>) -> Seq<char> {
    s.map_values(
        |c: char|
            if c == '\\' {
                '/'
            } else {
                c
            },
    )
}

/// Whether a segment names something: it is not empty, not `.` and not `..`.
pub open spec fn is_normal(segment: Seq<char>) -> bool {
    segment.len() > 0 && segment != dot() && segment != dot_dot()
}

/// The parts that are left of `segments`: empty segments and `.` are
/// dropped, `..` takes the part before it away, if there is one.
pub open spec fn resolve(segments: Seq<Seq<char>>) -> Seq<Seq<char>>
    decreases segments.len(),
{
    if segments.len() == 0 {
        Seq::empty()
    } else {
        let kept = resolve(segments.drop_last());
        let segment = segments.last();
        if segment.len() == 0 || segment == dot() {
            kept
        } else if segment == dot_dot() {
            if kept.len() > 0 {
                kept.drop_last()
            } else {
                kept
            }
        } else {
            kept.push(segment)
        }
    }
}

/// The path made of `parts`: `/` alone for none, else each behind a slash.
pub open spec fn rooted(parts: Seq<Seq<char>>) -> Seq<char> {
    if parts.len() == 0 {
        seq!['/']
    } else {
        absolute(parts)
    }
}

/// The normal form of a remote path, or `None` where the path is empty.
/// Backslashes count as slashes, and the segments between slashes are
/// resolved as [`resolve`] says.
pub open spec fn normalized(path: Seq<char>) -> Option<Seq<char>> {
    if path.len() == 0 {
        None
    } else {
        Some(rooted(resolve(split(sanitized(path), '/'))))
    }
}

/// The complaint about an empty remote path.
pub open spec fn empty_remote_path() -> SyncErrorView {
    SyncErrorView::InvalidRemotePath("Remote path cannot be empty"@)
}

/// Computes [`sanitized`].
pub fn sanitize(s: &Vec<char>) -> (out: Vec<char>)
    ensures
        out@ == sanitized(s@),
{
    let mut out: Vec<char> = Vec::new();
    let mut i: usize = 0;
    while i < s.len()
        invariant
            i <= s@.len(),
            out@ == sanitized(s@).take(i as int),
        decreases s@.len() - i,
    {
        let c = s[i];
        if c == '\\' {
            out.push('/');
        } else {
            out.push(c);
        }
        i = i + 1;
        assert(out@ =~= sanitized(s@).take(i as int));
    }
    assert(sanitized(s@).take(i as int) =~= sanitized(s@));
    out
}

/// Whether `segment` is the text `.`.
fn is_dot(segment: &Vec<char>) -> (b: bool)
    ensures
        b == (segment@ == dot()),
{
    let b = segment.len() == 1 && segment[0] == '.';
    assert(b ==> segment@ =~= dot());
    b
}

/// Whether `segment` is the text `..`.
fn is_dot_dot(segment: &Vec<char>) -> (b: bool)
    ensures
        b == (segment@ == dot_dot()),
{
    let b = segment.len() == 2 && segment[0] == '.' && segment[1] == '.';
    assert(b ==> segment@ =~= dot_dot());
    b
}

/// Writes `parts` as a path: see [`absolute`].
pub fn write_absolute(out: &mut Vec<char>, parts: &Vec<Vec<char>>)
    ensures
        final(out)@ == old(out)@ + absolute(texts(parts@)),
{
    let mut i: usize = 0;
    while i < parts.len()
        invariant
            i <= parts@.len(),
            out@ == old(out)@ + absolute(texts(parts@).take(i as int)),
        decreases parts@.len() - i,
    {
        out.push('/');
        append_chars(out, &parts[i]);
        proof {
            let all = texts(parts@);
            assert(all.take(i + 1).drop_last() =~= all.take(i as int));
            assert(all.take(i + 1).last() == parts@[i as int]@);
            assert(out@ =~= old(out)@ + absolute(all.take(i + 1)));
        }
        i = i + 1;
    }
    assert(texts(parts@).take(i as int) =~= texts(parts@));
}

/// Normalizes a remote path given by the user: see [`normalized`]. An empty
/// path is an `InvalidRemotePath`.
pub fn normalize_remote_path(path: &str) -> (r: Result<String, SyncError>)
    ensures
        match r {
            Ok(normal) => normalized(path@) == Some(normal@),
            Err(e) => normalized(path@) is None && e@ == empty_remote_path(),
        },
{
    let chars = chars_of(path);
    if chars.len() == 0 {
        return Err(SyncError::InvalidRemotePath("Remote path cannot be empty".to_owned()));
    }
    let sanitized = sanitize(&chars);
    let segments = split_chars(&sanitized, '/');
    let ghost all = split(sanitized@, '/');
    assert(texts(segments@) =~= all);
    let mut parts: Vec<Vec<char>> = Vec::new();
    let mut i: usize = 0;
    while i < segments.len()
        invariant
            i <= segments@.len(),
            texts(segments@) == all,
            texts(parts@) == resolve(all.take(i as int)),
        decreases segments@.len() - i,
    {
        let segment = &segments[i];
        proof {
            assert(all.take(i + 1).drop_last() =~= all.take(i as int));
            assert(all.take(i + 1).last() == segment@);
        }
        if segment.len() == 0 || is_dot(segment) {
        } else if is_dot_dot(segment) {
            let ghost before = parts@;
            let dropped = parts.pop();
            assert(dropped is Some ==> texts(parts@) =~= texts(before).drop_last());
        } else {
            let ghost before = parts@;
            parts.push(slice_chars(segment, 0, segment.len()));
            assert(segment@.subrange(0, segment@.len() as int) =~= segment@);
            assert(texts(parts@) =~= texts(before).push(segment@));
        }
        i = i + 1;
    }
    assert(all.take(i as int) =~= all);
    let mut out: Vec<char> = Vec::new();
    if parts.len() == 0 {
        out.push('/');
        assert(out@ =~= seq!['/']);
    } else {
        write_absolute(&mut out, &parts);
        assert(out@ =~= absolute(texts(parts@)));
    }
    Ok(string_of(&out))
}

/// Whether the character `c` does not occur in `s`.
pub open spec fn has_no(s: Seq<char>, c: char) -> bool {
    forall|i: int| 0 <= i < s.len() ==> s[i] != c
}

/// Splitting gives at least one piece.
pub proof fn lemma_split_len(s: Seq<char>, sep: char)
    ensures
        split(s, sep).len() >= 1,
    decreases s.len(),
{
    if s.len() > 0 {
        lemma_split_len(s.drop_last(), sep);
    }
}

/// Text without a separator, put behind `a`, goes to the last piece of `a`.
pub proof fn lemma_split_append(a: Seq<char>, p: Seq<char>, sep: char)
    requires
        has_no(p, sep),
    ensures
        split(a + p, sep) == split(a, sep).drop_last().push(split(a, sep).last() + p),
    decreases p.len(),
{
    lemma_split_len(a, sep);
    let pieces = split(a, sep);
    if p.len() == 0 {
        assert(a + p =~= a);
        assert(pieces.last() + p =~= pieces.last());
        assert(pieces.drop_last().push(pieces.last()) =~= pieces);
    } else {
        lemma_split_append(a, p.drop_last(), sep);
        assert((a + p).drop_last() =~= a + p.drop_last());
        assert((a + p).last() == p.last());
        let before = split(a + p.drop_last(), sep);
        assert(before.drop_last() =~= pieces.drop_last());
        assert(before.last().push(p.last()) =~= pieces.last() + p);
    }
}

/// No piece holds the separator, and no piece holds a character that the
/// text does not hold.
pub proof fn lemma_split_pieces(s: Seq<char>, sep: char, c: char)
    ensures
        forall|k: int| 0 <= k < split(s, sep).len() ==> has_no(#[trigger] split(s, sep)[k], sep),
        has_no(s, c) ==> forall|k: int|
            0 <= k < split(s, sep).len() ==> has_no(#[trigger] split(s, sep)[k], c),
    decreases s.len(),
{
    if s.len() > 0 {
        lemma_split_pieces(s.drop_last(), sep, c);
        lemma_split_len(s.drop_last(), sep);
        let before = split(s.drop_last(), sep);
        let after = split(s, sep);
        assert forall|k: int| 0 <= k < after.len() implies has_no(#[trigger] after[k], sep) by {
            if k < after.len() - 1 {
                assert(after[k] == before[k]);
            }
        }
        if has_no(s, c) {
            assert(has_no(s.drop_last(), c));
            assert forall|k: int| 0 <= k < after.len() implies has_no(#[trigger] after[k], c) by {
                if k < after.len() - 1 {
                    assert(after[k] == before[k]);
                }
            }
        }
    }
}

/// A path written from parts without slashes splits into an empty piece
/// and the parts.
pub proof fn lemma_split_absolute(parts: Seq<Seq<char>>)
    requires
        forall|k: int| 0 <= k < parts.len() ==> has_no(#[trigger] parts[k], '/'),
    ensures
        split(absolute(parts), '/') == seq![Seq::<char>::empty()] + parts,
    decreases parts.len(),
{
    if parts.len() == 0 {
        assert(split(absolute(parts), '/') =~= seq![Seq::<char>::empty()] + parts);
    } else {
        let front = absolute(parts.drop_last());
        lemma_split_absolute(parts.drop_last());
        let slashed = front + seq!['/'];
        assert(slashed.drop_last() =~= front);
        assert(split(slashed, '/') == split(front, '/').push(Seq::<char>::empty()));
        lemma_split_append(slashed, parts.last(), '/');
        assert(Seq::<char>::empty() + parts.last() =~= parts.last());
        assert(split(slashed, '/').drop_last() =~= split(front, '/'));
        assert(split(absolute(parts), '/') =~= seq![Seq::<char>::empty()] + parts);
    }
}

/// Parts that name something are left as they are.
pub proof fn lemma_resolve_plain(parts: Seq<Seq<char>>)
    requires
        forall|k: int| 0 <= k < parts.len() ==> is_normal(#[trigger] parts[k]),
    ensures
        resolve(seq![Seq::<char>::empty()] + parts) == parts,
    decreases parts.len(),
{
    let all = seq![Seq::<char>::empty()] + parts;
    if parts.len() == 0 {
        reveal_with_fuel(resolve, 2);
        assert(all.drop_last() =~= Seq::<Seq<char>>::empty());
        assert(all.last().len() == 0);
        assert(resolve(all) =~= parts);
    } else {
        lemma_resolve_plain(parts.drop_last());
        assert(all.drop_last() =~= seq![Seq::<char>::empty()] + parts.drop_last());
        assert(all.last() == parts.last());
        assert(resolve(all) =~= parts);
    }
}

/// Every part that is left names something, and holds no character that the
/// segments do not hold.
pub proof fn lemma_resolve_parts(segments: Seq<Seq<char>>, c: char)
    ensures
        forall|k: int| 0 <= k < resolve(segments).len() ==> is_normal(#[trigger] resolve(segments)[k]),
        (forall|j: int| 0 <= j < segments.len() ==> has_no(#[trigger] segments[j], c)) ==> forall|
            k: int,
        | 0 <= k < resolve(segments).len() ==> has_no(#[trigger] resolve(segments)[k], c),
    decreases segments.len(),
{
    if segments.len() > 0 {
        lemma_resolve_parts(segments.drop_last(), c);
        let kept = resolve(segments.drop_last());
        let all = resolve(segments);
        assert forall|k: int| 0 <= k < all.len() implies is_normal(#[trigger] all[k]) by {
            if k < kept.len() {
                assert(all[k] == kept[k]);
            }
        }
        if forall|j: int| 0 <= j < segments.len() ==> has_no(#[trigger] segments[j], c) {
            assert forall|j: int| 0 <= j < segments.drop_last().len() implies has_no(
                #[trigger] segments.drop_last()[j],
                c,
            ) by {
                assert(segments.drop_last()[j] == segments[j]);
            }
            assert forall|k: int| 0 <= k < all.len() implies has_no(#[trigger] all[k], c) by {
                if k < kept.len() {
                    assert(all[k] == kept[k]);
                } else {
                    assert(all[k] == segments[segments.len() - 1]);
                }
            }
        }
    }
}

/// A path written from parts that are not empty starts with a slash, ends
/// as its last part ends, and holds no character that the parts do not hold,
/// the slash apart.
pub proof fn lemma_absolute_shape(parts: Seq<Seq<char>>, c: char)
    requires
        parts.len() > 0,
        forall|k: int| 0 <= k < parts.len() ==> (#[trigger] parts[k]).len() > 0,
    ensures
        absolute(parts).len() > 0,
        absolute(parts)[0] == '/',
        absolute(parts).last() == parts.last().last(),
        c != '/' && (forall|k: int| 0 <= k < parts.len() ==> has_no(#[trigger] parts[k], c))
            ==> has_no(absolute(parts), c),
    decreases parts.len(),
{
    assert(absolute(parts) == absolute(parts.drop_last()) + seq!['/'] + parts.last());
    if parts.len() > 1 {
        lemma_absolute_shape(parts.drop_last(), c);
        if c != '/' && (forall|k: int| 0 <= k < parts.len() ==> has_no(#[trigger] parts[k], c)) {
            assert forall|k: int| 0 <= k < parts.drop_last().len() implies has_no(
                #[trigger] parts.drop_last()[k],
                c,
            ) by {
                assert(parts.drop_last()[k] == parts[k]);
            }
        }
    } else {
        assert(parts.drop_last() =~= Seq::<Seq<char>>::empty());
    }
    assert(parts.last() == parts[parts.len() - 1]);
}

/// Text without a backslash is left as it is.
pub proof fn lemma_sanitized_clean(s: Seq<char>)
    requires
        has_no(s, '\\'),
    ensures
        sanitized(s) == s,
{
    assert(sanitized(s) =~= s);
}

/// Sanitized text holds no backslash.
pub proof fn lemma_sanitized_free(s: Seq<char>)
    ensures
        has_no(sanitized(s), '\\'),
{
}

/// Normalization is idempotent: the normal form of a normal form is the
/// normal form itself.
pub proof fn lemma_normalize_idempotent(path: Seq<char>)
    requires
        normalized(path) is Some,
    ensures
        normalized(normalized(path)->0) == normalized(path),
{
    let clean = sanitized(path);
    let segments = split(clean, '/');
    let parts = resolve(segments);
    let r = rooted(parts);
    lemma_sanitized_free(path);
    lemma_split_pieces(clean, '/', '\\');
    lemma_resolve_parts(segments, '\\');
    lemma_resolve_parts(segments, '/');
    if parts.len() == 0 {
        lemma_normalize_root();
    } else {
        lemma_absolute_shape(parts, '\\');
        lemma_sanitized_clean(r);
        lemma_split_absolute(parts);
        lemma_resolve_plain(parts);
    }
}

/// The root is its own normal form, and the empty path has none.
pub proof fn lemma_normalize_root()
    ensures
        normalized(seq!['/']) == Some(seq!['/']),
        normalized(Seq::<char>::empty()) is None,
{
    let root = seq!['/'];
    assert(sanitized(root) =~= root);
    assert(root.drop_last() =~= Seq::<char>::empty());
    reveal_with_fuel(split, 2);
    let segments = split(root, '/');
    assert(segments =~= seq![Seq::<char>::empty(), Seq::<char>::empty()]);
    reveal_with_fuel(resolve, 3);
    assert(segments.drop_last() =~= seq![Seq::<char>::empty()]);
    assert(segments.drop_last().drop_last() =~= Seq::<Seq<char>>::empty());
    assert(resolve(segments) =~= Seq::<Seq<char>>::empty());
}

/// A directory path as the walk keeps it: the root as it is, any other path
/// without the slashes at its end.
pub open spec fn dir_path(path: Seq<char>) -> Seq<char> {
    if path == seq!['/'] {
        path
    } else {
        strip_end(path, '/')
    }
}

/// Whether `s` is the text `/`.
fn is_root(s: &Vec<char>) -> (b: bool)
    ensures
        b == (s@ == seq!['/']),
{
    let b = s.len() == 1 && s[0] == '/';
    assert(b ==> s@ =~= seq!['/']);
    b
}

/// Computes [`dir_path`].
pub fn normalize_remote_dir_path(path: &str) -> (normal: String)
    ensures
        normal@ == dir_path(path@),
{
    let chars = chars_of(path);
    if is_root(&chars) {
        string_of(&chars)
    } else {
        string_of(&strip_trailing(&chars, '/'))
    }
}

/// The number of pieces that are not empty.
pub open spec fn count_filled(pieces: Seq<Seq<char>>) -> nat
    decreases pieces.len(),
{
    if pieces.len() == 0 {
        0
    } else {
        count_filled(pieces.drop_last()) + if pieces.last().len() > 0 {
            1nat
        } else {
            0nat
        }
    }
}

/// The depth of a directory: the number of names on its path.
pub open spec fn depth(path: Seq<char>) -> nat {
    count_filled(split(path, '/'))
}

/// Computes the [`depth`] of a path.
pub fn directory_depth(path: &str) -> (d: usize)
    ensures
        d == depth(path@),
{
    let chars = chars_of(path);
    let mut count: usize = 0;
    let mut in_name = false;
    let mut i: usize = 0;
    proof {
        reveal_with_fuel(count_filled, 2);
        assert(chars@.take(0) =~= Seq::<char>::empty());
        assert(split(chars@.take(0), '/').drop_last() =~= Seq::<Seq<char>>::empty());
    }
    while i < chars.len()
        invariant
            i <= chars@.len(),
            count <= i,
            count == count_filled(split(chars@.take(i as int), '/')),
            in_name == (split(chars@.take(i as int), '/').last().len() > 0),
        decreases chars@.len() - i,
    {
        proof {
            assert(chars@.take(i + 1).drop_last() =~= chars@.take(i as int));
            lemma_split_len(chars@.take(i as int), '/');
            let before = split(chars@.take(i as int), '/');
            let after = split(chars@.take(i + 1), '/');
            if chars@[i as int] == '/' {
                assert(after.drop_last() =~= before);
            } else {
                assert(after.drop_last() =~= before.drop_last());
            }
        }
        if chars[i] == '/' {
            in_name = false;
        } else {
            if !in_name {
                count = count + 1;
            }
            in_name = true;
        }
        i = i + 1;
    }
    assert(chars@.take(i as int) =~= chars@);
    count
}

/// The pieces that name something: not empty, not `.` and not `..`.
pub open spec fn normal_parts(pieces: Seq<Seq<char>>) -> Seq<Seq<char>>
    decreases pieces.len(),
{
    if pieces.len() == 0 {
        Seq::empty()
    } else if is_normal(pieces.last()) {
        normal_parts(pieces.drop_last()).push(pieces.last())
    } else {
        normal_parts(pieces.drop_last())
    }
}

/// The remote path of a local entry: the names on its relative path, each
/// behind a slash, put behind the remote root without the slashes at its end.
/// An entry without a name gets the remote root as it is.
pub open spec fn remote_path(remote_root: Seq<char>, relative: Seq<char>) -> Seq<char> {
    let pieces = normal_parts(split(relative, '/'));
    if pieces.len() == 0 {
        remote_root
    } else {
        strip_end(remote_root, '/') + absolute(pieces)
    }
}

/// Computes [`normal_parts`] of the pieces of `relative`.
fn names_of(relative: &Vec<char>) -> (pieces: Vec<Vec<char>>)
    ensures
        texts(pieces@) == normal_parts(split(relative@, '/')),
{
    let segments = split_chars(relative, '/');
    let ghost all = split(relative@, '/');
    assert(texts(segments@) =~= all);
    let mut pieces: Vec<Vec<char>> = Vec::new();
    let mut i: usize = 0;
    while i < segments.len()
        invariant
            i <= segments@.len(),
            texts(segments@) == all,
            texts(pieces@) == normal_parts(all.take(i as int)),
        decreases segments@.len() - i,
    {
        let segment = &segments[i];
        proof {
            assert(all.take(i + 1).drop_last() =~= all.take(i as int));
            assert(all.take(i + 1).last() == segment@);
        }
        if segment.len() > 0 && !is_dot(segment) && !is_dot_dot(segment) {
            let ghost before = pieces@;
            pieces.push(slice_chars(segment, 0, segment.len()));
            assert(segment@.subrange(0, segment@.len() as int) =~= segment@);
            assert(texts(pieces@) =~= texts(before).push(segment@));
        }
        i = i + 1;
    }
    assert(all.take(i as int) =~= all);
    pieces
}

/// Carries the relative path of a local entry over to the device: see
/// [`remote_path`]. The relative path is written with slashes.
pub fn build_remote_path(remote_root: &str, relative: &str) -> (path: String)
    ensures
        path@ == remote_path(remote_root@, relative@),
{
    let pieces = names_of(&chars_of(relative));
    if pieces.len() == 0 {
        return remote_root.to_owned();
    }
    let mut out = strip_trailing(&chars_of(remote_root), '/');
    write_absolute(&mut out, &pieces);
    string_of(&out)
}

/// The pieces of a path that count as components: not empty and not `.`.
pub open spec fn components(pieces: Seq<Seq<char>>) -> Seq<Seq<char>>
    decreases pieces.len(),
{
    if pieces.len() == 0 {
        Seq::empty()
    } else if pieces.last().len() > 0 && pieces.last() != dot() {
        components(pieces.drop_last()).push(pieces.last())
    } else {
        components(pieces.drop_last())
    }
}

/// The name of the entry that a path leads to: its last component, unless
/// there is none or it is `..`.
pub open spec fn file_name(path: Seq<char>) -> Option<Seq<char>> {
    let all = components(split(path, '/'));
    if all.len() > 0 && all.last() != dot_dot() {
        Some(all.last())
    } else {
        None
    }
}

/// Whether an entry is hidden and left out of the sync: its name starts with
/// a dot.
pub open spec fn is_hidden(path: Seq<char>) -> bool {
    file_name(path) matches Some(name) && name.len() > 0 && name[0] == '.'
}

/// Decides whether the entry that `path` leads to is left out: see
/// [`is_hidden`]. The path is written with slashes.
pub fn should_skip_entry(path: &str) -> (skip: bool)
    ensures
        skip == is_hidden(path@),
{
    let chars = chars_of(path);
    let segments = split_chars(&chars, '/');
    let ghost all = split(chars@, '/');
    assert(texts(segments@) =~= all);
    // The last component seen so far, as an index into the segments.
    let mut last: Option<usize> = None;
    let mut i: usize = 0;
    while i < segments.len()
        invariant
            i <= segments@.len(),
            texts(segments@) == all,
            match last {
                Some(k) => k < i && components(all.take(i as int)).len() > 0 && components(
                    all.take(i as int),
                ).last() == all[k as int],
                None => components(all.take(i as int)).len() == 0,
            },
        decreases segments@.len() - i,
    {
        let segment = &segments[i];
        proof {
            assert(all.take(i + 1).drop_last() =~= all.take(i as int));
            assert(all.take(i + 1).last() == segment@);
        }
        if segment.len() > 0 && !is_dot(segment) {
            last = Some(i);
        }
        i = i + 1;
    }
    assert(all.take(i as int) =~= all);
    match last {
        Some(k) => {
            let name = &segments[k];
            !is_dot_dot(name) && name.len() > 0 && name[0] == '.'
        },
        None => false,
    }
}

/// The lower-case form of an ASCII letter, any other character as it is.
pub open spec fn ascii_lower(c: char) -> char {
    if 'A' <= c <= 'Z' {
        ((c as u8) + 32) as char
    } else {
        c
    }
}

/// Whether `phrase` stands in `text` at `at`, upper-case ASCII letters of
/// `text` counting as lower case.
pub open spec fn stands_at(text: Seq<char>, phrase: Seq<char>, at: int) -> bool {
    &&& 0 <= at
    &&& at + phrase.len() <= text.len()
    &&& forall|j: int| 0 <= j < phrase.len() ==> ascii_lower(#[trigger] text[at + j]) == phrase[j]
}

/// Whether `phrase` stands somewhere in `text`, see [`stands_at`].
pub open spec fn mentions(text: Seq<char>, phrase: Seq<char>) -> bool {
    exists|at: int| stands_at(text, phrase, at)
}

/// Whether a complaint of the device says that a file is not there: it
/// mentions one of five phrases, in upper or lower case.
pub open spec fn says_missing(message: Seq<char>) -> bool {
    ||| mentions(message, "no such file"@)
    ||| mentions(message, "not found"@)
    ||| mentions(message, "does not exist"@)
    ||| mentions(message, "failed to lstat"@)
    ||| mentions(message, "failed to stat"@)
}

/// Computes [`ascii_lower`].
fn lower(c: char) -> (l: char)
    ensures
        l == ascii_lower(c),
{
    if 'A' <= c && c <= 'Z' {
        ((c as u8) + 32) as char
    } else {
        c
    }
}

/// Decides [`mentions`].
pub fn contains_ignoring_case(text: &Vec<char>, phrase: &str) -> (found: bool)
    ensures
        found == mentions(text@, phrase@),
{
    let wanted = chars_of(phrase);
    if wanted.len() > text.len() {
        assert(!mentions(text@, phrase@)) by {
            assert forall|at: int| !stands_at(text@, phrase@, at) by {}
        }
        return false;
    }
    let length = text.len();
    let last = length - wanted.len();
    let mut at: usize = 0;
    let mut searched = false;
    while !searched
        invariant
            length == text@.len(),
            at <= last,
            last + wanted@.len() == text@.len(),
            wanted@ == phrase@,
            forall|k: int| 0 <= k < at ==> !stands_at(text@, phrase@, k),
            searched ==> at == last && !stands_at(text@, phrase@, last as int),
        decreases last - at + if searched { 0int } else { 1int },
    {
        let mut j: usize = 0;
        while j < wanted.len() && lower(text[at + j]) == wanted[j]
            invariant
                length == text@.len(),
                j <= wanted@.len(),
                at <= last,
                last + wanted@.len() == text@.len(),
                wanted@ == phrase@,
                forall|k: int| 0 <= k < j ==> ascii_lower(#[trigger] text@[at + k]) == phrase@[k],
            decreases wanted@.len() - j,
        {
            j = j + 1;
        }
        if j == wanted.len() {
            assert(stands_at(text@, phrase@, at as int));
            return true;
        }
        assert(!stands_at(text@, phrase@, at as int)) by {
            assert(ascii_lower(text@[at + j]) != phrase@[j as int]);
        }
        if at == last {
            searched = true;
        } else {
            at = at + 1;
        }
    }
    assert(!mentions(text@, phrase@)) by {
        assert forall|k: int| !stands_at(text@, phrase@, k) by {}
    }
    false
}

/// Decides whether a complaint of the device says that a file is not there:
/// see [`says_missing`].
pub fn adb_missing_file(message: &str) -> (missing: bool)
    ensures
        missing == says_missing(message@),
{
    let text = chars_of(message);
    contains_ignoring_case(&text, "no such file") || contains_ignoring_case(&text, "not found")
        || contains_ignoring_case(&text, "does not exist") || contains_ignoring_case(
        &text,
        "failed to lstat",
    ) || contains_ignoring_case(&text, "failed to stat")
}

/// The local path that a request names: the text without the white space
/// around it.
pub fn local_candidate(path: &str) -> (candidate: String)
    ensures
        candidate@ == trimmed(path@),
{
    string_of(&trim(&chars_of(path)))
}

/// What is found at a local path: whether anything is there, whether it is a
/// directory, and its canonical form or the reason why there is none.
#[derive(Debug, PartialEq, Eq)]
pub struct LocalProbe {
    pub exists: bool,
    pub is_dir: bool,
    pub canonical: Result<String, String>,
}

/// What validating the local root gives: the canonical path of a directory
/// that is there; `InvalidLocalPath` for an empty path, for one that leads
/// nowhere and for one that leads to something else than a directory, in
/// this order; `Io` where there is no canonical form.
pub open spec fn local_root(
    path: Seq<char>,
    probe: LocalProbe,
) -> Result<Seq<char>, SyncErrorView> {
    let candidate = trimmed(path);
    if candidate.len() == 0 {
        Err(SyncErrorView::InvalidLocalPath("Local path cannot be empty"@))
    } else if !probe.exists {
        Err(SyncErrorView::InvalidLocalPath("Local path '"@ + candidate + "' does not exist"@))
    } else if !probe.is_dir {
        Err(SyncErrorView::InvalidLocalPath("Local path '"@ + candidate + "' must be a directory"@))
    } else {
        match probe.canonical {
            Ok(canonical) => Ok(canonical@),
            Err(reason) => Err(SyncErrorView::Io(reason@)),
        }
    }
}

/// Validates the local root of a request, given what was found at
/// [`local_candidate`] of the path: see [`local_root`].
pub fn canonicalize_local_root(path: &str, probe: LocalProbe) -> (r: Result<String, SyncError>)
    ensures
        match r {
            Ok(canonical) => local_root(path@, probe) == Ok::<Seq<char>, SyncErrorView>(canonical@),
            Err(e) => local_root(path@, probe) == Err::<Seq<char>, SyncErrorView>(e@),
        },
{
    let candidate = local_candidate(path);
    if candidate.as_str().is_empty() {
        return Err(SyncError::InvalidLocalPath("Local path cannot be empty".to_owned()));
    }
    if !probe.exists {
        let mut text = "Local path '".to_owned();
        text.append(candidate.as_str());
        text.append("' does not exist");
        return Err(SyncError::InvalidLocalPath(text));
    }
    if !probe.is_dir {
        let mut text = "Local path '".to_owned();
        text.append(candidate.as_str());
        text.append("' must be a directory");
        return Err(SyncError::InvalidLocalPath(text));
    }
    match probe.canonical {
        Ok(canonical) => Ok(canonical),
        Err(reason) => Err(SyncError::Io(reason)),
    }
}

} // verus!
