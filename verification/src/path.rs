//! Unix paths as byte strings.

use vstd::prelude::*;

use crate::text::copy_bytes;

verus! {

/// The path separator.
pub const SLASH: u8 = 47;

/// The dot of `.` and `..`.
pub const DOT: u8 = 46;

/// What follows the last slash of a path.
pub open spec fn last_piece(path: Seq<u8>) -> Seq<u8>
    decreases path.len(),
{
    if path.len() == 0 || path.last() == SLASH {
        Seq::empty()
    } else {
        last_piece(path.drop_last()).push(path.last())
    }
}

/// The components of a path: the pieces between slashes, but for the empty ones
/// and the ones that are `.`.
pub open spec fn components(path: Seq<u8>) -> Seq<Seq<u8>>
    decreases path.len(),
{
    let piece = last_piece(path);
    let start = path.len() - piece.len();
    let before = if 0 < start <= path.len() {
        components(path.take(start - 1))
    } else {
        Seq::empty()
    };
    if piece.len() == 0 || piece == seq![DOT] {
        before
    } else {
        before.push(piece)
    }
}

/// The last component of a path, if it has one and that is not `..`.
pub open spec fn file_name(path: Seq<u8>) -> Option<Seq<u8>> {
    let parts = components(path);
    if parts.len() == 0 || parts.last() == seq![DOT, DOT] {
        None
    } else {
        Some(parts.last())
    }
}

proof fn last_piece_is(path: Seq<u8>, start: int)
    requires
        0 <= start <= path.len(),
        start == 0 || path[start - 1] == SLASH,
        forall|i: int| start <= i < path.len() ==> path[i] != SLASH,
    ensures
        last_piece(path) == path.subrange(start, path.len() as int),
    decreases path.len(),
{
    if path.len() > start {
        last_piece_is(path.drop_last(), start);
        assert(path.subrange(start, path.len() as int) =~= path.drop_last().subrange(
            start,
            path.len() - 1,
        ).push(path.last()));
    } else {
        assert(path.subrange(start, path.len() as int) =~= Seq::empty());
    }
}

/// The final component of a path.
pub(crate) fn base_name(path: &[u8]) -> (res: Option<Vec<u8>>)
    ensures
        match res {
            Some(name) => file_name(path@) == Some(name@),
            None => file_name(path@) is None,
        },
{
    let mut end: usize = path.len();
    assert(path@.take(path@.len() as int) =~= path@);
    loop
        invariant
            end <= path.len(),
            components(path@) == components(path@.take(end as int)),
        decreases end,
    {
        let mut start: usize = end;
        while start > 0 && path[start - 1] != SLASH
            invariant
                start <= end <= path.len(),
                forall|i: int| start <= i < end ==> path[i] != SLASH,
            decreases start,
        {
            start -= 1;
        }
        let ghost head = path@.take(end as int);
        let piece = vstd::slice::slice_subrange(path, start, end);
        proof {
            last_piece_is(head, start as int);
            assert(head.subrange(start as int, end as int) =~= piece@);
        }
        let skipped = piece.len() == 0 || (piece.len() == 1 && piece[0] == DOT);
        assert(skipped == (piece@.len() == 0 || piece@ == seq![DOT])) by {
            if piece@.len() == 1 && piece@[0] == DOT {
                assert(piece@ =~= seq![DOT]);
            }
        }
        if !skipped {
            let parent = piece.len() == 2 && piece[0] == DOT && piece[1] == DOT;
            assert(parent == (piece@ == seq![DOT, DOT])) by {
                if parent {
                    assert(piece@ =~= seq![DOT, DOT]);
                }
            }
            if parent {
                return None;
            }
            return Some(copy_bytes(piece));
        }
        if start == 0 {
            return None;
        }
        assert(head.take(start - 1) =~= path@.take(start - 1));
        end = start - 1;
    }
}

/// A relative name put under a directory.
pub open spec fn joined(base: Seq<u8>, name: Seq<u8>) -> Seq<u8> {
    if base.len() == 0 || base.last() == SLASH {
        base + name
    } else {
        base.push(SLASH) + name
    }
}

/// Puts a relative name under a directory.
pub(crate) fn join(base: &[u8], name: &[u8]) -> (res: Vec<u8>)
    requires
        name.len() > 0 && name[0] != SLASH,
    ensures
        res@ == joined(base@, name@),
{
    let mut res = copy_bytes(base);
    if base.len() > 0 && base[base.len() - 1] != SLASH {
        res.push(SLASH);
    }
    let mut tail = copy_bytes(name);
    res.append(&mut tail);
    res
}

// ---------------------------------------------------------------------------
// Laws
// ---------------------------------------------------------------------------

/// Whether a byte string names an entry of a directory: it is not empty, has no
/// slash, and is neither `.` nor `..`.
pub open spec fn entry_name(name: Seq<u8>) -> bool {
    &&& name.len() > 0
    &&& forall|i: int| 0 <= i < name.len() ==> #[trigger] name[i] != SLASH
    &&& name != seq![DOT]
    &&& name != seq![DOT, DOT]
}

proof fn last_piece_has_no_slash(path: Seq<u8>)
    ensures
        forall|i: int| 0 <= i < last_piece(path).len() ==> #[trigger] last_piece(path)[i] != SLASH,
        last_piece(path).len() <= path.len(),
    decreases path.len(),
{
    if path.len() > 0 && path.last() != SLASH {
        last_piece_has_no_slash(path.drop_last());
    }
}

/// Whether a piece between slashes is a component.
spec fn component(piece: Seq<u8>) -> bool {
    &&& piece.len() > 0
    &&& piece != seq![DOT]
    &&& forall|i: int| 0 <= i < piece.len() ==> #[trigger] piece[i] != SLASH
}

proof fn components_are_plain(path: Seq<u8>)
    ensures
        forall|i: int| 0 <= i < components(path).len() ==> component(#[trigger] components(path)[i]),
    decreases path.len(),
{
    last_piece_has_no_slash(path);
    let piece = last_piece(path);
    let start = path.len() - piece.len();
    if 0 < start {
        components_are_plain(path.take(start - 1));
    }
    let before = if 0 < start {
        components(path.take(start - 1))
    } else {
        Seq::empty()
    };
    assert forall|i: int| 0 <= i < components(path).len() implies component(
        #[trigger] components(path)[i],
    ) by {
        if i < before.len() {
            assert(components(path)[i] == before[i]);
        } else {
            assert(components(path)[i] == piece);
        }
    }
}

/// A base name names an entry of a directory.
pub proof fn file_name_is_entry_name(path: Seq<u8>)
    ensures
        file_name(path) matches Some(name) ==> entry_name(name),
{
    components_are_plain(path);
}

/// The base name of an entry put under a directory is the entry's name.
pub proof fn file_name_of_joined(dir: Seq<u8>, name: Seq<u8>)
    requires
        entry_name(name),
    ensures
        file_name(joined(dir, name)) == Some(name),
{
    let path = joined(dir, name);
    let start = path.len() - name.len();
    last_piece_is(path, start);
    assert(path.subrange(start, path.len() as int) =~= name);
}

/// Whether bytes can follow the last name of a path without adding one: they are empty,
/// or slashes with nothing but single dots between them.
pub open spec fn adds_no_name(tail: Seq<u8>) -> bool {
    &&& tail.len() > 0 ==> tail[0] == 47
    &&& forall|i: int|
        0 <= i < tail.len() ==> (#[trigger] tail[i] == 47 || (tail[i] == 46 && tail[i - 1] == 47 && (
        i + 1 < tail.len() ==> tail[i + 1] == 47)))
}

proof fn lemma_tail_is_skipped(path: Seq<u8>, tail: Seq<u8>)
    requires
        adds_no_name(tail),
    ensures
        components(path + tail) == components(path),
    decreases tail.len(),
{
    let whole = path + tail;
    if tail.len() == 0 {
        assert(whole =~= path);
    } else {
        let last = tail.len() - 1;
        let cut = if tail[last] == 47 {
            last
        } else {
            last - 1
        };
        assert(tail[last] == 47 || (tail[last] == 46 && tail[last - 1] == 47));
        assert(tail[cut] == 47);
        let start = path.len() + cut + 1;
        last_piece_is(whole, start);
        let piece = whole.subrange(start, whole.len() as int);
        assert(piece.len() == 0 || piece =~= seq![DOT]);
        let less = tail.take(cut);
        assert(adds_no_name(less)) by {
            assert forall|i: int| 0 <= i < less.len() implies (#[trigger] less[i] == 47 || (less[i]
                == 46 && less[i - 1] == 47 && (i + 1 < less.len() ==> less[i + 1] == 47))) by {
                assert(less[i] == tail[i]);
                if tail[i] != 47 {
                    assert(tail[i - 1] == 47 && less[i - 1] == tail[i - 1]);
                    if i + 1 < less.len() {
                        assert(less[i + 1] == tail[i + 1]);
                    }
                }
            }
        }
        assert(whole.take(start - 1) =~= path + less);
        lemma_tail_is_skipped(path, less);
    }
}

/// The base name of a path is the last name in it: what stands behind the last slash,
/// or behind the start, once slashes and single dots at the end are left out. Where that
/// is `..`, there is no base name.
pub proof fn base_name_is_the_last_name(head: Seq<u8>, name: Seq<u8>, tail: Seq<u8>)
    requires
        head.len() > 0 ==> head.last() == 47,
        name.len() > 0,
        forall|i: int| 0 <= i < name.len() ==> #[trigger] name[i] != 47,
        name != seq![46u8],
        adds_no_name(tail),
    ensures
        file_name(head + name + tail) == (if name == seq![46u8, 46u8] {
            None
        } else {
            Some(name)
        }),
{
    let path = head + name;
    lemma_tail_is_skipped(path, tail);
    last_piece_is(path, head.len() as int);
    assert(path.subrange(head.len() as int, path.len() as int) =~= name);
}

/// A path without any name in it, such as `/`, `.` or nothing at all, has no base name.
pub proof fn no_name_no_base_name(tail: Seq<u8>)
    requires
        adds_no_name(tail),
    ensures
        file_name(tail) is None,
        file_name(seq![46u8] + tail) is None,
{
    let none = Seq::<u8>::empty();
    lemma_tail_is_skipped(none, tail);
    assert(none + tail =~= tail);
    assert(components(none).len() == 0);
    let dot = seq![46u8];
    lemma_tail_is_skipped(dot, tail);
    last_piece_is(dot, 0);
    assert(dot.subrange(0, 1) =~= seq![DOT]);
}

/// A name is put under a directory with one slash between, unless the directory ends in
/// a slash or is empty.
pub proof fn joining_puts_one_slash_between(base: Seq<u8>, name: Seq<u8>)
    ensures
        base.len() > 0 && base.last() != 47 ==> joined(base, name) == base + seq![47u8] + name,
        base.len() == 0 || base.last() == 47 ==> joined(base, name) == base + name,
{
    assert(base.push(SLASH) =~= base + seq![47u8]);
}

} // verus!
