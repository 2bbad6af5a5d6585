use kernel_extract::layout::{module_packing, Packing};
use kernel_extract::tree::{find_file_recursive, find_module_path, Listing, Node};

fn file(name: &str) -> Node {
    Node::File { name: name.as_bytes().to_vec() }
}

fn dir(name: &str, nodes: Vec<Node>) -> Node {
    Node::Dir { name: name.as_bytes().to_vec(), listing: Listing::Entries(nodes) }
}

fn found(listing: &Listing, name: &str) -> Option<String> {
    find_file_recursive(b"m", listing, name).map(|path| String::from_utf8(path).unwrap())
}

fn module(listing: &Listing, name: &str) -> Option<String> {
    find_module_path(b"m", listing, name).map(|path| String::from_utf8(path).unwrap())
}

#[test]
fn the_first_file_in_depth_first_order_is_found() {
    let tree = Listing::Entries(vec![
        file("a"),
        dir("sub", vec![dir("deep", vec![file("x")]), file("x")]),
        file("x"),
    ]);
    assert_eq!(found(&tree, "x"), Some("m/sub/deep/x".to_string()));
    assert_eq!(found(&tree, "a"), Some("m/a".to_string()));
    assert_eq!(found(&tree, "b"), None);
}

#[test]
fn directories_are_not_files() {
    let tree = Listing::Entries(vec![dir("x", vec![]), dir("y", vec![file("x")])]);
    assert_eq!(found(&tree, "x"), Some("m/y/x".to_string()));
    assert_eq!(found(&tree, "y"), None);
}

#[test]
fn an_unreadable_item_ends_the_search_of_its_directory() {
    let tree = Listing::Entries(vec![
        dir("sub", vec![Node::Failed, file("x")]),
        file("y"),
        Node::Failed,
        file("z"),
    ]);
    assert_eq!(found(&tree, "x"), None);
    assert_eq!(found(&tree, "y"), Some("m/y".to_string()));
    assert_eq!(found(&tree, "z"), None);
}

#[test]
fn an_unreadable_directory_is_passed_over() {
    let tree = Listing::Entries(vec![
        Node::Dir { name: b"sub".to_vec(), listing: Listing::Unreadable },
        file("x"),
    ]);
    assert_eq!(found(&tree, "x"), Some("m/x".to_string()));
    assert_eq!(found(&Listing::Unreadable, "x"), None);
}

#[test]
fn names_are_compared_as_bytes() {
    let tree = Listing::Entries(vec![Node::File { name: vec![0xff] }, file("é")]);
    assert_eq!(found(&tree, "é"), Some("m/é".to_string()));
    assert_eq!(found(&tree, "\u{fffd}"), None);
}

#[test]
fn every_file_of_a_readable_tree_is_found() {
    let tree = Listing::Entries(vec![
        file("a"),
        dir("d", vec![file("b"), dir("e", vec![file("c")])]),
    ]);
    for name in ["a", "b", "c"] {
        let path = found(&tree, name).unwrap();
        assert!(path.ends_with(&format!("/{}", name)));
    }
}

#[test]
fn an_uncompressed_module_comes_first() {
    let tree = Listing::Entries(vec![file("n.ko.zst"), file("n.ko.xz"), dir("d", vec![file("n.ko")])]);
    assert_eq!(module(&tree, "n"), Some("m/d/n.ko".to_string()));
    let tree = Listing::Entries(vec![file("n.ko.zst"), dir("d", vec![file("n.ko.xz")])]);
    assert_eq!(module(&tree, "n"), Some("m/d/n.ko.xz".to_string()));
    let tree = Listing::Entries(vec![file("n.ko.zst")]);
    assert_eq!(module(&tree, "n"), Some("m/n.ko.zst".to_string()));
    let tree = Listing::Entries(vec![file("n"), file("nn.ko"), file("n.ko.gz")]);
    assert_eq!(module(&tree, "n"), None);
}

#[test]
fn a_module_is_unpacked_as_it_was_found() {
    for (name, packing) in
        [("n.ko", Packing::Plain), ("n.ko.xz", Packing::Xz), ("n.ko.zst", Packing::Zstd)]
    {
        let tree = Listing::Entries(vec![dir("d", vec![file(name)])]);
        let path = find_module_path(b"m", &tree, "n").unwrap();
        assert_eq!(module_packing(&path), packing);
    }
}
