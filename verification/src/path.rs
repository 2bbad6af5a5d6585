//! Paths as Unix has them: byte strings whose components are separated by `/`.

use vstd::prelude::*;

use crate::text;

verus! {

/// A path in the form in which the operating system takes it.
pub type RawPath = Vec<u8>;

/// The byte `/`.
pub const SLASH: u8 = 0x2f;

/// The byte `.`.
pub const DOT: u8 = 0x2e;

/// `rel` taken from `base`: an absolute `rel` stands for itself, any other is put behind
/// `base`, with one `/` between them where `base` is not empty and does not end with one.
pub open spec fn below(base: Seq<u8>, rel: Seq<u8>) -> Seq<u8> {
    if rel.len() > 0 && rel[0] == SLASH {
        rel
    } else if base.len() == 0 || base.last() == SLASH {
        base + rel
    } else {
        base.push(SLASH) + rel
    }
}

/// [`below`] for a relative path that is given as text.
pub open spec fn below_text(base: Seq<u8>, rel: Seq<char>) -> Seq<u8> {
    below(base, vstd::utf8::encode_utf8(rel))
}

/// A piece between slashes that names nothing: the empty one, and `.`.
pub open spec fn is_filler(piece: Seq<u8>) -> bool {
    piece.len() == 0 || piece == seq![DOT]
}

/// The last of the pieces that names something.
pub open spec fn last_name(parts: Seq<Seq<u8>>) -> Option<Seq<u8>>
    decreases parts.len(),
{
    if parts.len() == 0 {
        None
    } else if is_filler(parts.last()) {
        last_name(parts.drop_last())
    } else {
        Some(parts.last())
    }
}

/// The name of the file or directory that a path leads to; a path that ends in `..` has none.
pub open spec fn file_name_of(path: Seq<u8>) -> Option<Seq<u8>> {
    match last_name(text::pieces(path, SLASH)) {
        Some(name) => if name == seq![DOT, DOT] {
            None
        } else {
            Some(name)
        },
        None => None,
    }
}

/// A name that stands for an item of a directory, and not for the directory itself or the one
/// above it.
pub open spec fn is_plain_name(name: Seq<u8>) -> bool {
    &&& name.len() > 0
    &&& !name.contains(SLASH)
    &&& name != seq![DOT]
    &&& name != seq![DOT, DOT]
}

/// The path leads to something in the directory `base`, or in a directory below it.
pub open spec fn is_inside(base: Seq<u8>, path: Seq<u8>) -> bool {
    exists|rel: Seq<u8>| #[trigger] leads_down(rel) && path == below(base, rel)
}

/// The relative path goes from a directory down, name by name.
pub open spec fn leads_down(rel: Seq<u8>) -> bool {
    forall|i: int|
        0 <= i < text::pieces(rel, SLASH).len() ==> is_plain_name(
            #[trigger] text::pieces(rel, SLASH)[i],
        )
}

/// A path to a name in a directory ends in that name.
pub proof fn law_file_name_below(dir: Seq<u8>, name: Seq<u8>)
    requires
        is_plain_name(name),
    ensures
        file_name_of(below(dir, name)) == Some(name),
{
    assert(name.contains(name[0]));
    let front = if dir.len() == 0 || dir.last() == SLASH {
        dir
    } else {
        dir.push(SLASH)
    };
    assert(below(dir, name) == front + name);
    text::lemma_pieces_append(front, name, SLASH);
    if front.len() == 0 {
        assert(text::pieces(front, SLASH).last() =~= Seq::<u8>::empty());
    }
    assert(text::pieces(front, SLASH).last().len() == 0);
    assert(text::pieces(front, SLASH).last() + name =~= name);
}

/// A name leads down.
proof fn lemma_name_leads_down(name: Seq<u8>)
    requires
        is_plain_name(name),
    ensures
        leads_down(name),
{
    text::lemma_pieces_append(Seq::empty(), name, SLASH);
    assert(Seq::empty() + name =~= name);
}

/// What a name in a directory leads to is inside the directory.
pub proof fn law_name_is_inside(base: Seq<u8>, name: Seq<u8>)
    requires
        is_plain_name(name),
    ensures
        is_inside(base, below(base, name)),
{
    lemma_name_leads_down(name);
}

/// What a name in a directory of a directory leads to is inside the outer directory.
pub proof fn law_names_are_inside(base: Seq<u8>, dir: Seq<u8>, name: Seq<u8>)
    requires
        is_plain_name(dir),
        is_plain_name(name),
    ensures
        is_inside(base, below(below(base, dir), name)),
{
    let parts = seq![dir, name];
    let rel = text::joined(parts, seq![SLASH]);
    assert(parts.drop_last() =~= seq![dir]);
    assert(text::joined(seq![dir], seq![SLASH]) == dir);
    assert(rel =~= dir + seq![SLASH] + name);
    text::law_joined_pieces(parts, SLASH);
    assert(leads_down(rel));
    assert(dir.contains(dir[0]));
    assert(dir.contains(dir.last()));
    assert(name.contains(name[0]));
    assert(below(base, dir).last() == dir.last());
    assert(below(below(base, dir), name) =~= below(base, rel));
}

/// An ASCII text without slashes that is longer than the names of dots is a name.
pub proof fn lemma_plain_text(name: Seq<char>)
    requires
        vstd::utf8::is_ascii_chars(name),
        name.len() > 2,
        !name.contains('/'),
    ensures
        is_plain_name(vstd::utf8::encode_utf8(name)),
{
    vstd::utf8::is_ascii_chars_encode_utf8(name);
    text::lemma_encoding_lacks(name, '/');
}

/// The pieces that lead to a directory.
pub open spec fn steps(dir: Seq<u8>) -> Seq<Seq<u8>> {
    if dir.len() == 0 {
        Seq::empty()
    } else if dir.last() == SLASH {
        text::pieces(dir, SLASH).drop_last()
    } else {
        text::pieces(dir, SLASH)
    }
}

/// A relative path is taken from a directory step by step: the pieces of the whole are those
/// that lead to the directory, and then its own. An absolute path stands for itself.
pub proof fn law_steps_below(base: Seq<u8>, rel: Seq<u8>)
    ensures
        rel.len() > 0 && rel[0] == SLASH ==> below(base, rel) == rel,
        rel.len() == 0 && base.len() > 0 && base.last() != SLASH ==> below(base, rel) == base.push(
            SLASH,
        ),
        rel.len() == 0 && (base.len() == 0 || base.last() == SLASH) ==> below(base, rel) == base,
        rel.len() > 0 && rel[0] != SLASH ==> text::pieces(below(base, rel), SLASH) == steps(base)
            + text::pieces(rel, SLASH),
        rel.len() > 0 && rel[0] != SLASH && rel.last() != SLASH ==> steps(below(base, rel))
            == steps(base) + text::pieces(rel, SLASH),
{
    if rel.len() == 0 {
        assert(base + rel =~= base);
        assert(base.push(SLASH) + rel =~= base.push(SLASH));
    }
    if rel.len() > 0 && rel[0] != SLASH {
        if base.len() == 0 {
            assert(base + rel =~= rel);
            assert(steps(base) + text::pieces(rel, SLASH) =~= text::pieces(rel, SLASH));
        } else if base.last() == SLASH {
            text::law_pieces_concat(base, rel, SLASH);
        } else {
            let front = base.push(SLASH);
            assert(front.drop_last() =~= base);
            text::law_pieces_concat(front, rel, SLASH);
            assert(text::pieces(front, SLASH).drop_last() =~= text::pieces(base, SLASH));
        }
        assert(below(base, rel).last() == rel.last());
    }
}

/// A name is a path of one piece.
pub proof fn lemma_name_is_one_piece(name: Seq<u8>)
    requires
        !name.contains(SLASH),
    ensures
        text::pieces(name, SLASH) == seq![name],
{
    text::lemma_pieces_append(Seq::empty(), name, SLASH);
    assert(Seq::empty() + name =~= name);
    assert(text::pieces(name, SLASH) =~= seq![name]);
}

/// A name that is put behind a directory is one more step.
pub proof fn law_one_more_step(dir: Seq<u8>, name: Seq<u8>)
    requires
        is_plain_name(name),
    ensures
        text::pieces(below(dir, name), SLASH) == steps(dir).push(name),
        steps(below(dir, name)) == steps(dir).push(name),
{
    assert(name.contains(name[0]));
    assert(name.contains(name.last()));
    lemma_name_is_one_piece(name);
    law_steps_below(dir, name);
    assert(steps(dir) + seq![name] =~= steps(dir).push(name));
}

/// The file name of a path is its last piece that is neither empty nor a single dot; two dots
/// name no file, and neither does a path without such a piece.
pub proof fn law_file_name(front: Seq<Seq<u8>>, name: Seq<u8>, fillers: Seq<Seq<u8>>)
    requires
        forall|i: int| 0 <= i < front.len() ==> !#[trigger] front[i].contains(SLASH),
        !name.contains(SLASH),
        name.len() > 0,
        name != seq![DOT],
        forall|i: int|
            0 <= i < fillers.len() ==> (#[trigger] fillers[i]).len() == 0 || fillers[i] == seq![DOT],
    ensures
        name != seq![DOT, DOT] ==> file_name_of(
            text::joined(front.push(name) + fillers, seq![SLASH]),
        ) == Some(name),
        name == seq![DOT, DOT] ==> file_name_of(
            text::joined(front.push(name) + fillers, seq![SLASH]),
        ) is None,
        fillers.len() > 0 ==> file_name_of(text::joined(fillers, seq![SLASH])) is None,
{
    let parts = front.push(name) + fillers;
    assert forall|i: int| 0 <= i < fillers.len() implies !#[trigger] fillers[i].contains(SLASH) by {}
    assert forall|i: int| 0 <= i < parts.len() implies !#[trigger] parts[i].contains(SLASH) by {
        if i < front.len() {
            assert(parts[i] == front[i]);
        } else if i > front.len() {
            assert(parts[i] == fillers[i - front.len() - 1]);
        }
    }
    text::law_joined_pieces(parts, SLASH);
    lemma_last_name(front.push(name), fillers);
    assert(last_name(front.push(name)) == Some(name));
    if fillers.len() > 0 {
        text::law_joined_pieces(fillers, SLASH);
        lemma_last_name(Seq::empty(), fillers);
        assert(Seq::empty() + fillers =~= fillers);
    }
}

/// Fillers do not change which name is the last.
proof fn lemma_last_name(parts: Seq<Seq<u8>>, fillers: Seq<Seq<u8>>)
    requires
        forall|i: int|
            0 <= i < fillers.len() ==> (#[trigger] fillers[i]).len() == 0 || fillers[i] == seq![DOT],
    ensures
        last_name(parts + fillers) == last_name(parts),
    decreases fillers.len(),
{
    if fillers.len() == 0 {
        assert(parts + fillers =~= parts);
    } else {
        let less = fillers.drop_last();
        assert forall|i: int| 0 <= i < less.len() implies (#[trigger] less[i]).len() == 0 || less[i]
            == seq![DOT] by {
            assert(less[i] == fillers[i]);
        }
        lemma_last_name(parts, less);
        assert((parts + fillers).drop_last() =~= parts + less);
        assert((parts + fillers).last() == fillers[fillers.len() - 1]);
    }
}

/// A copy of a byte string.
pub fn copy(bytes: &[u8]) -> (res: Vec<u8>)
    ensures
        res@ == bytes@,
{
    vstd::slice::slice_to_vec(bytes)
}

/// The concatenation of two byte strings.
pub fn concat(a: &[u8], b: &[u8]) -> (res: Vec<u8>)
    ensures
        res@ == a@ + b@,
{
    let mut res: Vec<u8> = copy(a);
    let mut i: usize = 0;
    while i < b.len()
        invariant
            i <= b@.len(),
            res@ == a@ + b@.take(i as int),
        decreases b@.len() - i,
    {
        res.push(b[i]);
        assert(res@ =~= a@ + b@.take(i + 1));
        i = i + 1;
    }
    assert(b@.take(i as int) =~= b@);
    res
}

/// Joins `rel` to `base`.
pub fn join(base: &[u8], rel: &[u8]) -> (res: RawPath)
    ensures
        res@ == below(base@, rel@),
{
    if rel.len() > 0 && rel[0] == SLASH {
        copy(rel)
    } else if base.len() == 0 || base[base.len() - 1] == SLASH {
        concat(base, rel)
    } else {
        let mut front: Vec<u8> = copy(base);
        front.push(SLASH);
        concat(front.as_slice(), rel)
    }
}

/// Joins a relative path given as text to `base`.
pub fn join_text(base: &[u8], rel: &str) -> (res: RawPath)
    ensures
        res@ == below_text(base@, rel@),
{
    join(base, rel.as_bytes())
}

/// The name of the file or directory that a path leads to.
pub fn file_name(path: &[u8]) -> (name: Option<Vec<u8>>)
    ensures
        match name {
            Some(bytes) => file_name_of(path@) == Some(bytes@),
            None => file_name_of(path@) is None,
        },
{
    let parts = text::split_bytes(path, SLASH);
    let mut n: usize = parts.len();
    let ghost all = text::byte_views(parts@);
    assert(all.take(n as int) =~= all);
    while n > 0
        invariant
            all == text::byte_views(parts@),
            all == text::pieces(path@, SLASH),
            n <= parts@.len(),
            last_name(all.take(n as int)) == last_name(all),
        decreases n,
    {
        let part = &parts[n - 1];
        assert(all.take(n as int).last() == part@);
        assert(all.take(n as int).drop_last() =~= all.take(n - 1));
        if part.len() == 0 || (part.len() == 1 && part[0] == DOT) {
            assert(part@.len() == 1 ==> part@ =~= seq![DOT]);
        } else {
            assert(part@ != seq![DOT]);
            if part.len() == 2 && part[0] == DOT && part[1] == DOT {
                assert(part@ =~= seq![DOT, DOT]);
                return None;
            }
            assert(part@ != seq![DOT, DOT]);
            return Some(copy(part.as_slice()));
        }
        n = n - 1;
    }
    None
}

} // verus!
