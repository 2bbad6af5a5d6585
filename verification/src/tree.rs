//! Directory trees as a walk finds them, and the search for a file in one.

use vstd::prelude::*;

use crate::layout;
use crate::layout::Packing;
use crate::path;
use crate::path::RawPath;
use crate::text;

verus! {

/// One item that the listing of a directory produced.
pub enum Node {
    /// The item could not be read.
    Failed,
    /// Anything that does not lead to a directory.
    File {
        /// The name in its directory.
        name: Vec<u8>,
    },
    /// A directory, or a link to one.
    Dir {
        /// The name in its directory.
        name: Vec<u8>,
        /// What the directory holds.
        listing: Listing,
    },
}

/// What the listing of a directory produced.
pub enum Listing {
    /// There is no such directory, or it could not be opened.
    Unreadable,
    /// The items in the order in which the system gave them.
    Entries(Vec<Node>),
}

/// The path of the first file named `wanted` in the directory `dir`, in depth-first order.
pub open spec fn found_in(dir: Seq<u8>, listing: Listing, wanted: Seq<u8>) -> Option<Seq<u8>>
    decreases listing,
{
    match listing {
        Listing::Unreadable => None,
        Listing::Entries(nodes) => found_among(dir, nodes@, wanted),
    }
}

/// The path of the first file named `wanted` among items of the directory `dir`. An item that
/// could not be read ends the search of this directory.
pub open spec fn found_among(dir: Seq<u8>, nodes: Seq<Node>, wanted: Seq<u8>) -> Option<Seq<u8>>
    decreases nodes,
{
    if nodes.len() == 0 {
        None
    } else {
        match nodes[0] {
            Node::Failed => None,
            Node::File { name } => if name@ == wanted {
                Some(path::below(dir, name@))
            } else {
                found_among(dir, nodes.subrange(1, nodes.len() as int), wanted)
            },
            Node::Dir { name, listing } => match found_in(path::below(dir, name@), listing, wanted) {
                Some(found) => Some(found),
                None => found_among(dir, nodes.subrange(1, nodes.len() as int), wanted),
            },
        }
    }
}

/// `found` is the path of a file named `wanted` somewhere in the directory `dir`.
pub open spec fn holds(dir: Seq<u8>, listing: Listing, wanted: Seq<u8>, found: Seq<u8>) -> bool
    decreases listing,
{
    match listing {
        Listing::Unreadable => false,
        Listing::Entries(nodes) => held_among(dir, nodes@, wanted, found),
    }
}

/// `found` is the path of a file named `wanted` in or below one of the items of `dir`.
pub open spec fn held_among(dir: Seq<u8>, nodes: Seq<Node>, wanted: Seq<u8>, found: Seq<u8>) -> bool
    decreases nodes,
{
    nodes.len() > 0 && ({
        ||| match nodes[0] {
            Node::Failed => false,
            Node::File { name } => name@ == wanted && found == path::below(dir, name@),
            Node::Dir { name, listing } => holds(path::below(dir, name@), listing, wanted, found),
        }
        ||| held_among(dir, nodes.subrange(1, nodes.len() as int), wanted, found)
    })
}

/// Every item of the tree could be read.
pub open spec fn readable(listing: Listing) -> bool
    decreases listing,
{
    match listing {
        Listing::Unreadable => false,
        Listing::Entries(nodes) => readable_nodes(nodes@),
    }
}

/// Every one of the items, and all that is below them, could be read.
pub open spec fn readable_nodes(nodes: Seq<Node>) -> bool
    decreases nodes,
{
    nodes.len() > 0 ==> {
        &&& match nodes[0] {
            Node::Failed => false,
            Node::File { .. } => true,
            Node::Dir { listing, .. } => readable(listing),
        }
        &&& readable_nodes(nodes.subrange(1, nodes.len() as int))
    }
}

/// What the search finds is a file of the wanted name in the tree.
pub proof fn law_found_is_held(dir: Seq<u8>, listing: Listing, wanted: Seq<u8>)
    ensures
        found_in(dir, listing, wanted) matches Some(found) ==> holds(dir, listing, wanted, found),
    decreases listing,
{
    if let Listing::Entries(nodes) = listing {
        lemma_found_is_held_among(dir, nodes@, wanted);
    }
}

proof fn lemma_found_is_held_among(dir: Seq<u8>, nodes: Seq<Node>, wanted: Seq<u8>)
    ensures
        found_among(dir, nodes, wanted) matches Some(found) ==> held_among(dir, nodes, wanted, found),
    decreases nodes,
{
    if nodes.len() > 0 {
        match nodes[0] {
            Node::Failed => {},
            Node::File { name } => {
                lemma_found_is_held_among(dir, nodes.subrange(1, nodes.len() as int), wanted);
            },
            Node::Dir { name, listing } => {
                law_found_is_held(path::below(dir, name@), listing, wanted);
                lemma_found_is_held_among(dir, nodes.subrange(1, nodes.len() as int), wanted);
            },
        }
    }
}

/// In a tree that could be read throughout, the search misses no file: where it finds nothing,
/// no file in the tree has the wanted name.
pub proof fn law_search_is_complete(dir: Seq<u8>, listing: Listing, wanted: Seq<u8>, found: Seq<u8>)
    requires
        readable(listing),
        holds(dir, listing, wanted, found),
    ensures
        found_in(dir, listing, wanted) is Some,
    decreases listing,
{
    if let Listing::Entries(nodes) = listing {
        lemma_search_is_complete_among(dir, nodes@, wanted, found);
    }
}

proof fn lemma_search_is_complete_among(
    dir: Seq<u8>,
    nodes: Seq<Node>,
    wanted: Seq<u8>,
    found: Seq<u8>,
)
    requires
        readable_nodes(nodes),
        held_among(dir, nodes, wanted, found),
    ensures
        found_among(dir, nodes, wanted) is Some,
    decreases nodes,
{
    let tail = nodes.subrange(1, nodes.len() as int);
    if held_among(dir, tail, wanted, found) {
        lemma_search_is_complete_among(dir, tail, wanted, found);
    } else if let Node::Dir { name, listing } = nodes[0] {
        law_search_is_complete(path::below(dir, name@), listing, wanted, found);
    }
}

/// One of the items could not be read.
pub open spec fn has_failed(nodes: Seq<Node>) -> bool {
    exists|i: int| 0 <= i < nodes.len() && (#[trigger] nodes[i] is Failed)
}

/// Items are searched in their order: what the first ones hold is found first, and an item that
/// could not be read keeps the search from those behind it.
pub proof fn law_search_order(dir: Seq<u8>, front: Seq<Node>, back: Seq<Node>, wanted: Seq<u8>)
    ensures
        found_among(dir, front, wanted) is Some ==> found_among(dir, front + back, wanted)
            == found_among(dir, front, wanted),
        found_among(dir, front, wanted) is None && has_failed(front) ==> found_among(
            dir,
            front + back,
            wanted,
        ) is None,
        found_among(dir, front, wanted) is None && !has_failed(front) ==> found_among(
            dir,
            front + back,
            wanted,
        ) == found_among(dir, back, wanted),
    decreases front.len(),
{
    let whole = front + back;
    if front.len() == 0 {
        assert(whole =~= back);
    } else {
        let rest = front.subrange(1, front.len() as int);
        law_search_order(dir, rest, back, wanted);
        assert(whole.subrange(1, whole.len() as int) =~= rest + back);
        assert(whole[0] == front[0]);
        if has_failed(rest) {
            let i = choose|i: int| 0 <= i < rest.len() && (#[trigger] rest[i] is Failed);
            assert(front[i + 1] is Failed);
        }
        if has_failed(front) {
            let i = choose|i: int| 0 <= i < front.len() && (#[trigger] front[i] is Failed);
            if i > 0 {
                assert(rest[i - 1] is Failed);
            }
        }
    }
}

/// A file is found where it has the wanted name and only there, at the path of its name in its
/// directory; a directory is searched below its own name, and is no file itself.
pub proof fn law_search_of_one(dir: Seq<u8>, node: Node, wanted: Seq<u8>)
    ensures
        found_among(dir, Seq::empty(), wanted) is None,
        found_in(dir, Listing::Unreadable, wanted) is None,
        node matches Node::File { name } ==> {
            &&& name@ == wanted ==> found_among(dir, seq![node], wanted) == Some(
                path::below(dir, wanted),
            )
            &&& name@ != wanted ==> found_among(dir, seq![node], wanted) is None
        },
        node matches Node::Dir { name, listing } ==> {
            &&& found_among(dir, seq![node], wanted) == found_in(
                path::below(dir, name@),
                listing,
                wanted,
            )
            &&& listing matches Listing::Entries(nodes) ==> found_among(dir, seq![node], wanted)
                == found_among(path::below(dir, name@), nodes@, wanted)
        },
        node is Failed ==> found_among(dir, seq![node], wanted) is None,
{
    assert(seq![node].subrange(1, 1) =~= Seq::<Node>::empty());
    assert(found_among(dir, seq![node].subrange(1, 1), wanted) is None);
}

/// Every name in the tree is one that a directory can hold.
pub open spec fn is_plain(listing: Listing) -> bool
    decreases listing,
{
    match listing {
        Listing::Unreadable => true,
        Listing::Entries(nodes) => are_plain(nodes@),
    }
}

/// Every name among the items, and below them, is one that a directory can hold.
pub open spec fn are_plain(nodes: Seq<Node>) -> bool
    decreases nodes,
{
    nodes.len() > 0 ==> {
        &&& match nodes[0] {
            Node::Failed => true,
            Node::File { name } => path::is_plain_name(name@),
            Node::Dir { name, listing } => path::is_plain_name(name@) && is_plain(listing),
        }
        &&& are_plain(nodes.subrange(1, nodes.len() as int))
    }
}

/// The path that the search finds ends in the wanted name.
pub proof fn law_found_is_named(dir: Seq<u8>, listing: Listing, wanted: Seq<u8>)
    requires
        is_plain(listing),
    ensures
        found_in(dir, listing, wanted) matches Some(found) ==> path::is_plain_name(wanted)
            && path::file_name_of(found) == Some(wanted),
    decreases listing,
{
    if let Listing::Entries(nodes) = listing {
        lemma_found_is_named_among(dir, nodes@, wanted);
    }
}

proof fn lemma_found_is_named_among(dir: Seq<u8>, nodes: Seq<Node>, wanted: Seq<u8>)
    requires
        are_plain(nodes),
    ensures
        found_among(dir, nodes, wanted) matches Some(found) ==> path::is_plain_name(wanted)
            && path::file_name_of(found) == Some(wanted),
    decreases nodes,
{
    if nodes.len() > 0 {
        lemma_found_is_named_among(dir, nodes.subrange(1, nodes.len() as int), wanted);
        match nodes[0] {
            Node::Failed => {},
            Node::File { name } => {
                path::law_file_name_below(dir, name@);
            },
            Node::Dir { name, listing } => {
                law_found_is_named(path::below(dir, name@), listing, wanted);
            },
        }
    }
}

/// Finds the first file named `filename` in the directory `dir`, in depth-first order.
pub fn find_file_recursive(dir: &[u8], listing: &Listing, filename: &str) -> (found: Option<RawPath>)
    ensures
        match found {
            Some(path) => found_in(dir@, *listing, vstd::utf8::encode_utf8(filename@)) == Some(path@),
            None => found_in(dir@, *listing, vstd::utf8::encode_utf8(filename@)) is None,
        },
    decreases listing,
{
    let ghost wanted = vstd::utf8::encode_utf8(filename@);
    match listing {
        Listing::Unreadable => None,
        Listing::Entries(nodes) => {
            let mut i: usize = 0;
            assert(nodes@.subrange(0, nodes@.len() as int) =~= nodes@);
            while i < nodes.len()
                invariant
                    i <= nodes@.len(),
                    wanted == vstd::utf8::encode_utf8(filename@),
                    *listing == Listing::Entries(*nodes),
                    found_among(dir@, nodes@.subrange(i as int, nodes@.len() as int), wanted)
                        == found_among(dir@, nodes@, wanted),
                decreases nodes@.len() - i,
            {
                let ghost rest = nodes@.subrange(i as int, nodes@.len() as int);
                assert(rest.subrange(1, rest.len() as int) =~= nodes@.subrange(
                    i + 1,
                    nodes@.len() as int,
                ));
                match &nodes[i] {
                    Node::Failed => {
                        return None;
                    },
                    Node::File { name } => {
                        if text::same_bytes(name.as_slice(), filename.as_bytes()) {
                            return Some(path::join(dir, name.as_slice()));
                        }
                    },
                    Node::Dir { name, listing: inner } => {
                        let sub = path::join(dir, name.as_slice());
                        if let Some(found) = find_file_recursive(sub.as_slice(), inner, filename) {
                            return Some(found);
                        }
                    },
                }
                i = i + 1;
            }
            None
        },
    }
}

/// The path at which the module `name` is found: uncompressed if there is such a file, else
/// compressed with xz, else compressed with zstd.
pub open spec fn module_file(dir: Seq<u8>, listing: Listing, name: Seq<char>) -> Option<Seq<u8>> {
    let plain = found_in(dir, listing, vstd::utf8::encode_utf8(name + ".ko"@));
    let xz = found_in(dir, listing, vstd::utf8::encode_utf8(name + ".ko.xz"@));
    let zstd = found_in(dir, listing, vstd::utf8::encode_utf8(name + ".ko.zst"@));
    if plain is Some {
        plain
    } else if xz is Some {
        xz
    } else {
        zstd
    }
}

/// A module is found exactly where a file of one of its three names is found, and is the first
/// of these: uncompressed, compressed with xz, compressed with zstd.
pub proof fn law_module_file(dir: Seq<u8>, listing: Listing, name: Seq<char>)
    ensures
        ({
            let plain = found_in(dir, listing, vstd::utf8::encode_utf8(name + ".ko"@));
            let xz = found_in(dir, listing, vstd::utf8::encode_utf8(name + ".ko.xz"@));
            let zstd = found_in(dir, listing, vstd::utf8::encode_utf8(name + ".ko.zst"@));
            &&& module_file(dir, listing, name) is None <==> plain is None && xz is None
                && zstd is None
            &&& plain is Some ==> module_file(dir, listing, name) == plain
            &&& plain is None && xz is Some ==> module_file(dir, listing, name) == xz
            &&& plain is None && xz is None ==> module_file(dir, listing, name) == zstd
        }),
{
}

/// In a tree that could be read throughout, a module of which there is a file is never missing;
/// and a module that is found is found as one of its files.
pub proof fn law_module_is_found(dir: Seq<u8>, listing: Listing, name: Seq<char>, file: Seq<u8>)
    ensures
        readable(listing) && (holds(dir, listing, vstd::utf8::encode_utf8(name + ".ko"@), file)
            || holds(dir, listing, vstd::utf8::encode_utf8(name + ".ko.xz"@), file) || holds(
            dir,
            listing,
            vstd::utf8::encode_utf8(name + ".ko.zst"@),
            file,
        )) ==> module_file(dir, listing, name) is Some,
        module_file(dir, listing, name) == Some(file) ==> holds(
            dir,
            listing,
            vstd::utf8::encode_utf8(name + ".ko"@),
            file,
        ) || holds(dir, listing, vstd::utf8::encode_utf8(name + ".ko.xz"@), file) || holds(
            dir,
            listing,
            vstd::utf8::encode_utf8(name + ".ko.zst"@),
            file,
        ),
{
    let plain = vstd::utf8::encode_utf8(name + ".ko"@);
    let xz = vstd::utf8::encode_utf8(name + ".ko.xz"@);
    let zstd = vstd::utf8::encode_utf8(name + ".ko.zst"@);
    law_found_is_held(dir, listing, plain);
    law_found_is_held(dir, listing, xz);
    law_found_is_held(dir, listing, zstd);
    if readable(listing) {
        if holds(dir, listing, plain, file) {
            law_search_is_complete(dir, listing, plain, file);
        }
        if holds(dir, listing, xz, file) {
            law_search_is_complete(dir, listing, xz, file);
        }
        if holds(dir, listing, zstd, file) {
            law_search_is_complete(dir, listing, zstd, file);
        }
    }
}

/// A tree holds a file that stands anywhere among its items.
pub proof fn law_held_anywhere(
    dir: Seq<u8>,
    front: Seq<Node>,
    node: Node,
    back: Seq<Node>,
    wanted: Seq<u8>,
    file: Seq<u8>,
)
    ensures
        node matches Node::File { name } ==> name@ == wanted && file == path::below(dir, wanted)
            ==> held_among(dir, front.push(node) + back, wanted, file),
        node matches Node::Dir { name, listing } ==> holds(
            path::below(dir, name@),
            listing,
            wanted,
            file,
        ) ==> held_among(dir, front.push(node) + back, wanted, file),
    decreases front.len(),
{
    let whole = front.push(node) + back;
    if front.len() > 0 {
        let rest = front.subrange(1, front.len() as int);
        law_held_anywhere(dir, rest, node, back, wanted, file);
        assert(whole.subrange(1, whole.len() as int) =~= rest.push(node) + back);
    } else {
        assert(whole[0] == node);
    }
}

/// A module is unpacked as the name asks for under which it was found: first choice is the
/// uncompressed file, then the one compressed with xz, then the one compressed with zstd.
pub proof fn law_packing_of_module(dir: Seq<u8>, listing: Listing, name: Seq<char>)
    requires
        is_plain(listing),
    ensures
        module_file(dir, listing, name) matches Some(source) ==> layout::packing_of(source)
            == if found_in(dir, listing, vstd::utf8::encode_utf8(name + ".ko"@)) is Some {
            Packing::Plain
        } else if found_in(dir, listing, vstd::utf8::encode_utf8(name + ".ko.xz"@)) is Some {
            Packing::Xz
        } else {
            Packing::Zstd
        },
{
    lemma_packing_of_file(dir, listing, name + ".ko"@);
    lemma_packing_of_file(dir, listing, name + ".ko.xz"@);
    lemma_packing_of_file(dir, listing, name + ".ko.zst"@);
    reveal_strlit(".ko");
    reveal_strlit(".ko.xz");
    reveal_strlit(".ko.zst");
    let plain = name + ".ko"@;
    let xz = name + ".ko.xz"@;
    let zstd = name + ".ko.zst"@;
    assert(!".ko.xz"@.is_suffix_of(plain)) by {
        if plain.len() >= 6 {
            assert(plain.skip(plain.len() - 6).last() == 'o');
        }
    }
    assert(!".ko.zst"@.is_suffix_of(plain)) by {
        if plain.len() >= 7 {
            assert(plain.skip(plain.len() - 7).last() == 'o');
        }
    }
    assert(!".ko.xz"@.is_suffix_of(zstd)) by {
        assert(zstd.skip(zstd.len() - 6).last() == 't');
    }
    assert(xz.skip(name.len() as int) =~= ".ko.xz"@);
    assert(zstd.skip(name.len() as int) =~= ".ko.zst"@);
}

proof fn lemma_packing_of_file(dir: Seq<u8>, listing: Listing, file: Seq<char>)
    requires
        is_plain(listing),
    ensures
        found_in(dir, listing, vstd::utf8::encode_utf8(file)) matches Some(found)
            ==> layout::packing_of(found) == if ".ko.xz"@.is_suffix_of(file) {
            Packing::Xz
        } else if ".ko.zst"@.is_suffix_of(file) {
            Packing::Zstd
        } else {
            Packing::Plain
        },
{
    law_found_is_named(dir, listing, vstd::utf8::encode_utf8(file));
    vstd::utf8::encode_utf8_valid_utf8(file);
    vstd::utf8::encode_utf8_decode_utf8(file);
}

/// A module that was found has a name that fits into a file name.
pub proof fn lemma_module_name(dir: Seq<u8>, listing: Listing, name: Seq<char>)
    requires
        is_plain(listing),
        module_file(dir, listing, name) is Some,
    ensures
        path::is_plain_name(vstd::utf8::encode_utf8(name + ".ko"@)),
{
    let bytes = vstd::utf8::encode_utf8(name);
    let ko = vstd::utf8::encode_utf8(".ko"@);
    let xz = vstd::utf8::encode_utf8(".ko.xz"@);
    let zst = vstd::utf8::encode_utf8(".ko.zst"@);
    law_found_is_named(dir, listing, vstd::utf8::encode_utf8(name + ".ko"@));
    law_found_is_named(dir, listing, vstd::utf8::encode_utf8(name + ".ko.xz"@));
    law_found_is_named(dir, listing, vstd::utf8::encode_utf8(name + ".ko.zst"@));
    text::lemma_encoding_concat(name, ".ko"@);
    text::lemma_encoding_concat(name, ".ko.xz"@);
    text::lemma_encoding_concat(name, ".ko.zst"@);
    assert(!bytes.contains(path::SLASH)) by {
        assert forall|i: int| 0 <= i < bytes.len() implies bytes[i] != path::SLASH by {
            assert((bytes + ko)[i] == bytes[i]);
            assert((bytes + xz)[i] == bytes[i]);
            assert((bytes + zst)[i] == bytes[i]);
        }
    }
    reveal_strlit(".ko");
    vstd::utf8::is_ascii_chars_encode_utf8(".ko"@);
    assert forall|i: int| 0 <= i < (bytes + ko).len() implies (bytes + ko)[i] != path::SLASH by {
        if i < bytes.len() {
            assert(bytes.contains(bytes[i]));
        } else {
            assert((bytes + ko)[i] == ko[i - bytes.len()]);
            assert(ko[i - bytes.len()] == ".ko"@[i - bytes.len()] as u8);
        }
    }
    assert((bytes + ko).len() >= 3);
    assert(!(bytes + ko).contains(path::SLASH));
}

/// Finds the file of a module in the modules directory.
pub fn find_module_path(modules_dir: &[u8], listing: &Listing, module_name: &str) -> (found: Option<
    RawPath,
>)
    ensures
        match found {
            Some(path) => module_file(modules_dir@, *listing, module_name@) == Some(path@),
            None => module_file(modules_dir@, *listing, module_name@) is None,
        },
{
    let ko_name: String = text::concat(module_name, ".ko");
    let ko_xz_name: String = text::concat(module_name, ".ko.xz");
    let ko_zst_name: String = text::concat(module_name, ".ko.zst");
    if let Some(found) = find_file_recursive(modules_dir, listing, ko_name.as_str()) {
        return Some(found);
    }
    if let Some(found) = find_file_recursive(modules_dir, listing, ko_xz_name.as_str()) {
        return Some(found);
    }
    find_file_recursive(modules_dir, listing, ko_zst_name.as_str())
}

} // verus!
