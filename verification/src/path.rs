//! Paths as texts: their components, joining, containment and parents.
//!
//! A path is a list of names with `/` in between. Empty names and `.` carry no
//! meaning, but for a `.` at the very beginning of a relative path.

use vstd::prelude::*;

use crate::error::{Error, ErrorModel, Result};
use crate::text::{
    begins, byte_lists, cat2, join, lemma_split_nonempty, opt_text, split, split_bytes, split_text,
    text_eq, texts,
};

verus! {

/// Whether a path starts at the root.
pub open spec fn absolute(path: Seq<char>) -> bool {
    path.len() > 0 && path[0] == '/'
}

/// Whether the piece at a place between two slashes names something.
pub open spec fn is_name<T>(pieces: Seq<Seq<T>>, i: int, dot: T) -> bool {
    pieces[i].len() > 0 && (i == 0 || pieces[i] != seq![dot])
}

/// The pieces that name something.
pub open spec fn names<T>(pieces: Seq<Seq<T>>, dot: T) -> Seq<Seq<T>>
    decreases pieces.len(),
{
    if pieces.len() == 0 {
        Seq::empty()
    } else {
        let earlier = names(pieces.drop_last(), dot);
        if is_name(pieces, pieces.len() - 1, dot) {
            earlier.push(pieces.last())
        } else {
            earlier
        }
    }
}

/// The components of a path. The root of an absolute path is a component of
/// its own, written as a slash.
pub open spec fn components_of<T>(path: Seq<T>, slash: T, dot: T) -> Seq<Seq<T>> {
    let root: Seq<Seq<T>> = if path.len() > 0 && path[0] == slash {
        seq![seq![slash]]
    } else {
        Seq::empty()
    };
    root + names(split(path, slash), dot)
}

/// The components of a path.
pub open spec fn components(path: Seq<char>) -> Seq<Seq<char>> {
    components_of(path, '/', '.')
}

/// The components of a path that is given by its bytes.
pub open spec fn byte_components(path: Seq<u8>) -> Seq<Seq<u8>> {
    components_of(path, 47u8, 46u8)
}

/// Whether `path` is `base` or lies below it.
pub open spec fn within(path: Seq<char>, base: Seq<char>) -> bool {
    begins(components(path), components(base))
}

/// A path taken from a base: an absolute path replaces the base.
pub open spec fn joined(base: Seq<char>, path: Seq<char>) -> Seq<char> {
    if absolute(path) {
        path
    } else if base.len() == 0 || base.last() == '/' {
        base + path
    } else {
        base.push('/') + path
    }
}

/// The place of the last name among the first pieces, or `-1`.
pub open spec fn last_name<T>(pieces: Seq<Seq<T>>, count: int, dot: T) -> int
    decreases count,
{
    if count <= 0 {
        -1
    } else if is_name(pieces, count - 1, dot) {
        count - 1
    } else {
        last_name(pieces, count - 1, dot)
    }
}

/// The place of the first name at or behind a piece, or the number of pieces.
pub open spec fn next_name<T>(pieces: Seq<Seq<T>>, from: int, dot: T) -> int
    decreases pieces.len() - from,
{
    if from >= pieces.len() || is_name(pieces, from, dot) {
        from
    } else {
        next_name(pieces, from + 1, dot)
    }
}

/// The path without its last name; there is none for the root and for the
/// empty path.
pub open spec fn parent_of(path: Seq<char>) -> Option<Seq<char>> {
    let pieces = split(path, '/');
    let last = last_name(pieces, pieces.len() as int, '.');
    let end = last_name(pieces, last, '.');
    if last < 0 {
        None
    } else if end >= 0 {
        Some(join(pieces.subrange(0, end + 1), '/'))
    } else if absolute(path) {
        Some(seq!['/'])
    } else {
        Some(Seq::empty())
    }
}

/// What is left of a path behind its first name.
pub open spec fn behind_first(path: Seq<char>) -> Seq<char> {
    let pieces = split(path, '/');
    let from = next_name(pieces, 1, '.');
    let last = last_name(pieces, pieces.len() as int, '.');
    if from <= last {
        join(pieces.subrange(from, last + 1), '/')
    } else {
        Seq::empty()
    }
}

/// Whether a path starts at the root.
pub fn is_absolute(path: &str) -> (rooted: bool)
    ensures
        rooted == absolute(path@),
{
    let chars = crate::text::chars_of(path);
    chars.len() > 0 && chars[0] == '/'
}

/// A path taken from a base: an absolute path replaces the base.
pub fn path_join(base: &str, path: &str) -> (full: String)
    ensures
        full@ == joined(base@, path@),
{
    if is_absolute(path) {
        return path.to_owned();
    }
    let chars = crate::text::chars_of(base);
    if chars.len() == 0 || chars[chars.len() - 1] == '/' {
        cat2(base, path)
    } else {
        let mut full = base.to_owned();
        full.push('/');
        cat2(full.as_str(), path)
    }
}

/// The components of a path.
pub fn path_components(path: &str) -> (list: Vec<String>)
    ensures
        texts(list@) == components(path@),
{
    let pieces = split_text(path, '/');
    let mut list: Vec<String> = Vec::new();
    let ghost all = texts(pieces@);
    let ghost root: Seq<Seq<char>> = if absolute(path@) {
        seq![seq!['/']]
    } else {
        Seq::empty()
    };
    if is_absolute(path) {
        let mut slash = String::new();
        slash.push('/');
        list.push(slash);
        proof {
            assert(slash@ =~= seq!['/']);
        }
    }
    let mut i: usize = 0;
    proof {
        assert(all.take(0) =~= Seq::empty());
        assert(texts(list@) =~= root + names(all.take(0), '.'));
    }
    while i < pieces.len()
        invariant
            i <= pieces@.len(),
            all == texts(pieces@),
            texts(list@) == root + names(all.take(i as int), '.'),
        decreases pieces@.len() - i,
    {
        let name = crate::text::chars_of(pieces[i].as_str());
        let keep = name.len() > 0 && (i == 0 || !(name.len() == 1 && name[0] == '.'));
        proof {
            let next = all.take(i + 1);
            assert(next.drop_last() =~= all.take(i as int));
            assert(next.last() == name@);
            if name@.len() == 1 && name@[0] == '.' {
                assert(name@ =~= seq!['.']);
            }
            assert(keep == is_name(next, i as int, '.'));
        }
        let ghost earlier = texts(list@);
        if keep {
            list.push(pieces[i].clone());
            proof {
                assert(texts(list@) =~= earlier.push(all[i as int]));
                assert(texts(list@) =~= root + names(all.take(i + 1), '.'));
            }
        }
        i += 1;
    }
    proof {
        assert(all.take(pieces@.len() as int) =~= all);
    }
    list
}

/// The components of a path that is given by its bytes.
pub fn path_byte_components(path: &[u8]) -> (list: Vec<Vec<u8>>)
    ensures
        byte_lists(list@) == byte_components(path@),
{
    let pieces = split_bytes(path, 47);
    let mut list: Vec<Vec<u8>> = Vec::new();
    let ghost all = byte_lists(pieces@);
    let ghost root: Seq<Seq<u8>> = if path@.len() > 0 && path@[0] == 47u8 {
        seq![seq![47u8]]
    } else {
        Seq::empty()
    };
    if path.len() > 0 && path[0] == 47 {
        let slash: Vec<u8> = vec![47u8];
        proof {
            assert(slash@ =~= seq![47u8]);
        }
        list.push(slash);
    }
    let mut i: usize = 0;
    proof {
        assert(all.take(0) =~= Seq::empty());
        assert(byte_lists(list@) =~= root + names(all.take(0), 46u8));
    }
    while i < pieces.len()
        invariant
            i <= pieces@.len(),
            all == byte_lists(pieces@),
            byte_lists(list@) == root + names(all.take(i as int), 46u8),
        decreases pieces@.len() - i,
    {
        let name = clone_bytes(&pieces[i]);
        let keep = name.len() > 0 && (i == 0 || !(name.len() == 1 && name[0] == 46));
        proof {
            let next = all.take(i + 1);
            assert(next.drop_last() =~= all.take(i as int));
            assert(next.last() == name@);
            if name@.len() == 1 && name@[0] == 46u8 {
                assert(name@ =~= seq![46u8]);
            }
            assert(keep == is_name(next, i as int, 46u8));
        }
        let ghost earlier = byte_lists(list@);
        if keep {
            list.push(name);
            proof {
                assert(byte_lists(list@) =~= earlier.push(all[i as int]));
                assert(byte_lists(list@) =~= root + names(all.take(i + 1), 46u8));
            }
        }
        i += 1;
    }
    proof {
        assert(all.take(pieces@.len() as int) =~= all);
    }
    list
}

/// A copy of a byte sequence.
pub fn clone_bytes(bytes: &Vec<u8>) -> (copy: Vec<u8>)
    ensures
        copy@ == bytes@,
{
    let mut copy: Vec<u8> = Vec::new();
    let mut i: usize = 0;
    while i < bytes.len()
        invariant
            i <= bytes@.len(),
            copy@ =~= bytes@.take(i as int),
        decreases bytes@.len() - i,
    {
        copy.push(bytes[i]);
        i += 1;
    }
    proof {
        assert(bytes@.take(bytes@.len() as int) =~= bytes@);
    }
    copy
}

/// Whether two byte sequences are equal.
pub fn bytes_eq(left: &Vec<u8>, right: &Vec<u8>) -> (same: bool)
    ensures
        same == (left@ == right@),
{
    if left.len() != right.len() {
        return false;
    }
    let mut i: usize = 0;
    while i < left.len()
        invariant
            i <= left@.len(),
            left@.len() == right@.len(),
            forall|j: int| 0 <= j < i ==> left@[j] == right@[j],
        decreases left@.len() - i,
    {
        if left[i] != right[i] {
            return false;
        }
        i += 1;
    }
    proof {
        assert(left@ =~= right@);
    }
    true
}

/// Whether a list of byte sequences begins with another.
pub fn bytes_begin(list: &Vec<Vec<u8>>, prefix: &Vec<Vec<u8>>) -> (found: bool)
    ensures
        found == begins(byte_lists(list@), byte_lists(prefix@)),
{
    if prefix.len() > list.len() {
        return false;
    }
    let ghost head = byte_lists(list@).subrange(0, prefix@.len() as int);
    let mut i: usize = 0;
    while i < prefix.len()
        invariant
            i <= prefix@.len() <= list@.len(),
            head == byte_lists(list@).subrange(0, prefix@.len() as int),
            forall|j: int| 0 <= j < i ==> head[j] == byte_lists(prefix@)[j],
        decreases prefix@.len() - i,
    {
        if !bytes_eq(&list[i], &prefix[i]) {
            proof {
                assert(head[i as int] != byte_lists(prefix@)[i as int]);
            }
            return false;
        }
        i += 1;
    }
    proof {
        assert(head =~= byte_lists(prefix@));
    }
    true
}

/// Whether `path` is `base` or lies below it.
pub fn path_within(path: &str, base: &str) -> (inside: bool)
    ensures
        inside == within(path@, base@),
{
    let list = path_components(path);
    let prefix = path_components(base);
    if prefix.len() > list.len() {
        return false;
    }
    let ghost head = texts(list@).subrange(0, prefix@.len() as int);
    let mut i: usize = 0;
    while i < prefix.len()
        invariant
            i <= prefix@.len() <= list@.len(),
            texts(list@) == components(path@),
            texts(prefix@) == components(base@),
            head == texts(list@).subrange(0, prefix@.len() as int),
            forall|j: int| 0 <= j < i ==> head[j] == texts(prefix@)[j],
        decreases prefix@.len() - i,
    {
        if !text_eq(list[i].as_str(), prefix[i].as_str()) {
            proof {
                assert(head[i as int] != texts(prefix@)[i as int]);
            }
            return false;
        }
        i += 1;
    }
    proof {
        assert(head =~= texts(prefix@));
    }
    true
}

/// Whether two texts name the same path.
pub fn same_path(left: &str, right: &str) -> (same: bool)
    ensures
        same == (components(left@) == components(right@)),
{
    let a = path_within(left, right);
    let b = path_within(right, left);
    proof {
        let l = components(left@);
        let r = components(right@);
        if a && b {
            assert(l.subrange(0, l.len() as int) =~= l);
        }
        assert(l.subrange(0, l.len() as int) =~= l);
        assert(r.subrange(0, r.len() as int) =~= r);
    }
    a && b
}

/// The pieces from one place up to another, with slashes in between.
fn join_pieces(pieces: &Vec<String>, from: usize, to: usize) -> (text: String)
    requires
        from < to <= pieces@.len(),
    ensures
        text@ == join(texts(pieces@).subrange(from as int, to as int), '/'),
{
    let ghost all = texts(pieces@);
    let mut text = pieces[from].clone();
    let mut i: usize = from + 1;
    proof {
        assert(all.subrange(from as int, from + 1) =~= seq![all[from as int]]);
    }
    while i < to
        invariant
            from < i <= to <= pieces@.len(),
            all == texts(pieces@),
            text@ == join(all.subrange(from as int, i as int), '/'),
        decreases to - i,
    {
        proof {
            let next = all.subrange(from as int, i + 1);
            assert(next.drop_last() =~= all.subrange(from as int, i as int));
            assert(next.last() == all[i as int]);
        }
        text.push('/');
        text = cat2(text.as_str(), pieces[i].as_str());
        i += 1;
    }
    text
}

/// Whether the piece at a place between two slashes names something.
fn piece_is_name(pieces: &Vec<String>, i: usize) -> (named: bool)
    requires
        i < pieces@.len(),
    ensures
        named == is_name(texts(pieces@), i as int, '.'),
{
    let name = crate::text::chars_of(pieces[i].as_str());
    proof {
        if name@.len() == 1 && name@[0] == '.' {
            assert(name@ =~= seq!['.']);
        }
    }
    name.len() > 0 && (i == 0 || !(name.len() == 1 && name[0] == '.'))
}

/// One more than the place of the last name among the first pieces, or zero.
fn end_of_names(pieces: &Vec<String>, count: usize) -> (end: usize)
    requires
        count <= pieces@.len(),
    ensures
        end == last_name(texts(pieces@), count as int, '.') + 1,
        end <= count,
{
    let mut end: usize = count;
    while end > 0 && !piece_is_name(pieces, end - 1)
        invariant
            end <= count <= pieces@.len(),
            last_name(texts(pieces@), count as int, '.') == last_name(
                texts(pieces@),
                end as int,
                '.',
            ),
        decreases end,
    {
        end -= 1;
    }
    end
}

/// The path without its last name.
pub fn path_parent(path: &str) -> (parent: Option<String>)
    ensures
        opt_text(parent) == parent_of(path@),
{
    let pieces = split_text(path, '/');
    let end = end_of_names(&pieces, pieces.len());
    if end == 0 {
        return None;
    }
    let keep = end_of_names(&pieces, end - 1);
    if keep > 0 {
        Some(join_pieces(&pieces, 0, keep))
    } else if is_absolute(path) {
        let mut root = String::new();
        root.push('/');
        proof {
            assert(root@ =~= seq!['/']);
        }
        Some(root)
    } else {
        Some(String::new())
    }
}

/// What is left of a path behind its first name.
pub fn path_behind_first(path: &str) -> (rest: String)
    ensures
        rest@ == behind_first(path@),
{
    let pieces = split_text(path, '/');
    proof {
        lemma_split_nonempty(path@, '/');
    }
    let mut from: usize = 1;
    while from < pieces.len() && !piece_is_name(&pieces, from)
        invariant
            1 <= from <= pieces@.len(),
            next_name(texts(pieces@), 1, '.') == next_name(texts(pieces@), from as int, '.'),
        decreases pieces@.len() - from,
    {
        from += 1;
    }
    let end = end_of_names(&pieces, pieces.len());
    if from < end {
        join_pieces(&pieces, from, end)
    } else {
        String::new()
    }
}

/// A path that lies within a base shares all of its components, so whatever
/// lies within that path lies within the base too.
pub proof fn law_within_is_transitive(inner: Seq<char>, middle: Seq<char>, outer: Seq<char>)
    requires
        within(inner, middle),
        within(middle, outer),
    ensures
        within(inner, outer),
{
    let i = components(inner);
    let m = components(middle);
    let o = components(outer);
    assert(i.subrange(0, o.len() as int) =~= m.subrange(0, o.len() as int)) by {
        assert forall|k: int| 0 <= k < o.len() implies i[k] == m[k] by {
            assert(i.subrange(0, m.len() as int)[k] == m[k]);
        }
    }
}

/// Pieces that all name something are added behind the names of the pieces
/// before them.
proof fn lemma_names_append(pieces: Seq<Seq<char>>, more: Seq<Seq<char>>)
    requires
        forall|i: int|
            0 <= i < more.len() ==> (#[trigger] more[i]).len() > 0 && more[i] != seq!['.'],
    ensures
        names(pieces + more, '.') == names(pieces, '.') + more,
    decreases more.len(),
{
    let whole = pieces + more;
    if more.len() == 0 {
        assert(whole =~= pieces);
        assert(names(pieces, '.') + more =~= names(pieces, '.'));
    } else {
        let fewer = more.drop_last();
        assert forall|i: int| 0 <= i < fewer.len() implies (#[trigger] fewer[i]).len() > 0
            && fewer[i] != seq!['.'] by {
            assert(fewer[i] == more[i]);
        }
        lemma_names_append(pieces, fewer);
        assert(whole.drop_last() =~= pieces + fewer);
        assert(whole.last() == more[more.len() - 1]);
        assert(is_name(whole, whole.len() - 1, '.'));
        assert(names(whole, '.') =~= names(pieces, '.') + more);
    }
}

/// A relative path whose pieces all name something adds exactly those pieces
/// to the components of the directory that it is joined to.
pub proof fn lemma_joined_components(base: Seq<char>, path: Seq<char>)
    requires
        forall|i: int|
            0 <= i < split(path, '/').len() ==> (#[trigger] split(path, '/')[i]).len() > 0 && split(
                path,
                '/',
            )[i] != seq!['.'],
    ensures
        components(joined(base, path)) == components(base) + split(path, '/'),
{
    let pieces = split(path, '/');
    lemma_split_nonempty(path, '/');
    assert(pieces[0].len() > 0);
    assert(path.len() > 0) by {
        if path.len() == 0 {
            assert(pieces[0] =~= Seq::empty());
        }
    }
    if absolute(path) {
        let rest = path.subrange(1, path.len() as int);
        crate::text::lemma_split_concat(Seq::<char>::empty(), rest, '/');
        assert(Seq::<char>::empty().push('/') + rest =~= path);
        assert(split(Seq::<char>::empty(), '/')[0] =~= Seq::empty());
        assert(pieces[0].len() == 0);
    }
    let full = joined(base, path);
    if base.len() == 0 {
        assert(full =~= path);
        lemma_names_append(Seq::<Seq<char>>::empty(), pieces);
        assert(Seq::<Seq<char>>::empty() + pieces =~= pieces);
        let nothing = seq![Seq::<char>::empty()];
        assert(split(base, '/') =~= nothing);
        assert(nothing.drop_last() =~= Seq::<Seq<char>>::empty());
        assert(names(nothing, '.') =~= Seq::empty());
        assert(components(full) =~= pieces);
        assert(components(base) + pieces =~= pieces);
    } else {
        let front = if base.last() == '/' {
            base.drop_last()
        } else {
            base
        };
        crate::text::lemma_split_concat(front, path, '/');
        assert(full =~= front.push('/') + path);
        lemma_names_append(split(front, '/'), pieces);
        if base.last() == '/' {
            assert(base =~= front.push('/'));
            assert(split(base, '/') == split(front, '/').push(Seq::empty()));
            assert(split(base, '/').drop_last() =~= split(front, '/'));
            assert(names(split(base, '/'), '.') =~= names(split(front, '/'), '.'));
        }
        assert(full[0] == base[0]);
        assert(components(full) =~= components(base) + pieces);
    }
}

/// The place of the name behind the first names of a path, or the number of
/// pieces.
pub open spec fn name_place<T>(pieces: Seq<Seq<T>>, count: int, dot: T) -> int
    decreases count,
{
    if count <= 0 {
        next_name(pieces, 0, dot)
    } else {
        next_name(pieces, name_place(pieces, count - 1, dot) + 1, dot)
    }
}

/// What is left of a path, given by its bytes, behind its first names.
pub open spec fn behind_names(path: Seq<u8>, count: int) -> Seq<u8> {
    let pieces = split(path, 47u8);
    let from = name_place(pieces, count, 46u8);
    let last = last_name(pieces, pieces.len() as int, 46u8);
    if from <= last {
        join(pieces.subrange(from, last + 1), 47u8)
    } else {
        Seq::empty()
    }
}

/// Whether the piece at a place between two slashes names something.
fn bytes_are_name(pieces: &Vec<Vec<u8>>, i: usize) -> (named: bool)
    requires
        i < pieces@.len(),
    ensures
        named == is_name(byte_lists(pieces@), i as int, 46u8),
{
    let name = &pieces[i];
    proof {
        assert(byte_lists(pieces@)[i as int] == name@);
        if name@.len() == 1 && name@[0] == 46u8 {
            assert(name@ =~= seq![46u8]);
        }
    }
    name.len() > 0 && (i == 0 || !(name.len() == 1 && name[0] == 46))
}

/// The place of the first name at or behind a piece, or the number of pieces.
fn find_name(pieces: &Vec<Vec<u8>>, from: usize) -> (place: usize)
    requires
        from <= pieces@.len(),
    ensures
        place == next_name(byte_lists(pieces@), from as int, 46u8),
        from <= place <= pieces@.len(),
{
    let mut place: usize = from;
    while place < pieces.len() && !bytes_are_name(pieces, place)
        invariant
            from <= place <= pieces@.len(),
            next_name(byte_lists(pieces@), from as int, 46u8) == next_name(
                byte_lists(pieces@),
                place as int,
                46u8,
            ),
        decreases pieces@.len() - place,
    {
        place += 1;
    }
    place
}

/// Behind the last piece there are no names.
proof fn lemma_no_more_names(pieces: Seq<Seq<u8>>, count: int, more: int)
    requires
        0 <= count <= more,
        name_place(pieces, count, 46u8) >= pieces.len(),
    ensures
        name_place(pieces, more, 46u8) >= pieces.len(),
    decreases more - count,
{
    if count < more {
        lemma_no_more_names(pieces, count, more - 1);
    }
}

/// What is left of a path, given by its bytes, behind its first names.
pub fn path_behind_names(path: &[u8], count: usize) -> (rest: Vec<u8>)
    ensures
        rest@ == behind_names(path@, count as int),
{
    let pieces = split_bytes(path, 47);
    let ghost all = byte_lists(pieces@);
    let mut from: usize = find_name(&pieces, 0);
    let mut i: usize = 0;
    while i < count && from < pieces.len()
        invariant
            i <= count,
            from <= pieces@.len(),
            all == byte_lists(pieces@),
            from == name_place(all, i as int, 46u8),
        decreases count - i,
    {
        from = find_name(&pieces, from + 1);
        i += 1;
    }
    let mut end: usize = pieces.len();
    while end > 0 && !bytes_are_name(&pieces, end - 1)
        invariant
            end <= pieces@.len(),
            all == byte_lists(pieces@),
            last_name(all, all.len() as int, 46u8) == last_name(all, end as int, 46u8),
        decreases end,
    {
        end -= 1;
    }
    proof {
        assert(end == last_name(all, all.len() as int, 46u8) + 1);
        if i < count {
            lemma_no_more_names(all, i as int, count as int);
        }
    }
    if from >= end {
        return Vec::new();
    }
    let mut rest = clone_bytes(&pieces[from]);
    let mut k: usize = from + 1;
    proof {
        assert(all.subrange(from as int, from + 1) =~= seq![all[from as int]]);
    }
    while k < end
        invariant
            from < k <= end <= pieces@.len(),
            all == byte_lists(pieces@),
            rest@ == join(all.subrange(from as int, k as int), 47u8),
        decreases end - k,
    {
        proof {
            let next = all.subrange(from as int, k + 1);
            assert(next.drop_last() =~= all.subrange(from as int, k as int));
            assert(next.last() == all[k as int]);
        }
        rest.push(47);
        let mut piece = clone_bytes(&pieces[k]);
        rest.append(&mut piece);
        k += 1;
    }
    rest
}

/// The text of a path, if it has one. `shown` is how the path is shown if it
/// has none.
pub fn path_as_text(text: Option<&str>, shown: &str) -> (path: Result<String>)
    ensures
        match text {
            Some(text) => path matches Ok(path) && path@ == text@,
            None => path matches Err(error) && error@ == ErrorModel::Config(
                "managed repository path is not valid UTF-8: "@ + shown@,
            ),
        },
{
    match text {
        Some(text) => Ok(text.to_owned()),
        None => Err(
            Error::Config(cat2("managed repository path is not valid UTF-8: ", shown)),
        ),
    }
}

}
