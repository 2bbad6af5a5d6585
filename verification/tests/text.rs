use kernel_extract::path;
use kernel_extract::text;

fn parts(bytes: &[u8], sep: u8) -> Vec<String> {
    text::split_bytes(bytes, sep)
        .into_iter()
        .map(|part| String::from_utf8(part).unwrap())
        .collect()
}

#[test]
fn trim_takes_white_space_off_both_ends() {
    assert_eq!(text::trim("  a b \t\r\n"), "a b");
    assert_eq!(text::trim("\u{3000}x\u{85}\u{2028}"), "x");
    assert_eq!(text::trim(" \u{200b} "), "\u{200b}");
    assert_eq!(text::trim(" \n "), "");
    assert_eq!(text::trim(""), "");
}

#[test]
fn white_space_agrees_with_unicode() {
    let mut code: u32 = 0;
    while code < 0x3100 {
        if let Some(c) = char::from_u32(code) {
            assert_eq!(text::white_space(c), c.is_whitespace(), "{:?}", c);
        }
        code += 1;
    }
}

#[test]
fn prefixes_and_suffixes() {
    assert!(text::starts_with("# x", "# "));
    assert!(!text::starts_with("#x", "# "));
    assert!(!text::starts_with("", "a"));
    assert!(text::starts_with("", ""));
    assert!(text::ends_with("nsm.ko.xz", ".ko.xz"));
    assert!(!text::ends_with("xz", ".ko.xz"));
    assert_eq!(text::trim_start_matches("# # # x", "# "), "x");
    assert_eq!(text::trim_start_matches("x", "# "), "x");
    assert_eq!(text::trim_start_matches("é# x", "# "), "é# x");
    assert_eq!(text::trim_end_matches("x is not set is not set", " is not set"), "x");
    assert_eq!(text::trim_end_matches("aaaa", "aa"), "");
    assert_eq!(text::trim_end_matches("aaaaa", "aa"), "a");
}

#[test]
fn split_once_cuts_at_the_first_separator() {
    assert_eq!(text::split_once("a=b=c", '='), Some(("a", "b=c")));
    assert_eq!(text::split_once("ü=ö", '='), Some(("ü", "ö")));
    assert_eq!(text::split_once("=", '='), Some(("", "")));
    assert_eq!(text::split_once("abc", '='), None);
}

#[test]
fn pieces_and_join_are_inverse() {
    for whole in ["", ",", "a,b", ",a,,b,", "no separator"] {
        let pieces = text::split(whole, ',');
        assert_eq!(text::join(&pieces, ","), whole);
        assert_eq!(pieces.len(), whole.matches(',').count() + 1);
    }
    let names: Vec<String> = vec!["x".to_string(), "".to_string(), "yz".to_string()];
    assert_eq!(text::split(&text::join(&names, ","), ','), names);
}

#[test]
fn join_of_few() {
    assert_eq!(text::join(&vec![], ", "), "");
    assert_eq!(text::join(&vec!["a".to_string()], ", "), "a");
    assert_eq!(text::join(&vec!["a".to_string(), "b".to_string()], ", "), "a, b");
}

#[test]
fn split_bytes_keeps_empty_parts() {
    assert_eq!(parts(b"", b'\n'), vec![""]);
    assert_eq!(parts(b"a\n\nb\n", b'\n'), vec!["a", "", "b", ""]);
}

#[test]
fn comparisons() {
    assert!(text::same_bytes(b"ab", b"ab"));
    assert!(!text::same_bytes(b"ab", b"abc"));
    assert!(!text::same_bytes(b"ab", b"ac"));
    assert!(text::same_text("é", "é"));
    assert!(!text::same_text("e", "é"));
    assert_eq!(text::chars_of("aé"), vec!['a', 'é']);
    assert_eq!(text::concat("nsm", ".ko"), "nsm.ko");
    let names: Vec<String> = vec!["a".to_string(), "b".to_string()];
    assert!(text::contains(&names, "b"));
    assert!(!text::contains(&names, "c"));
    assert_eq!(text::copy_all(&names), names);
}

#[test]
fn byte_order_is_that_of_the_standard_library() {
    let samples: [&[u8]; 6] = [b"", b"a", b"ab", b"b", b"\xc3\xa9", b"B"];
    for a in samples {
        for b in samples {
            assert_eq!(text::not_after(a, b), a <= b);
        }
    }
}

#[test]
fn joining_paths() {
    assert_eq!(path::join(b"out", b"config"), b"out/config".to_vec());
    assert_eq!(path::join(b"out/", b"config"), b"out/config".to_vec());
    assert_eq!(path::join(b"", b"config"), b"config".to_vec());
    assert_eq!(path::join(b"out", b"/etc"), b"/etc".to_vec());
    assert_eq!(path::join(b"out", b""), b"out/".to_vec());
    assert_eq!(path::join(b"/", b"x"), b"/x".to_vec());
    assert_eq!(path::join_text(b"\xff", "lib/modules"), b"\xff/lib/modules".to_vec());
    assert_eq!(path::concat(b"ab", b"c"), b"abc".to_vec());
    assert_eq!(path::copy(b"\x00\xff"), vec![0u8, 0xff]);
}

#[test]
fn file_names() {
    assert_eq!(path::file_name(b"/a/nsm.ko"), Some(b"nsm.ko".to_vec()));
    assert_eq!(path::file_name(b"/a/b/"), Some(b"b".to_vec()));
    assert_eq!(path::file_name(b"/a/b/./."), Some(b"b".to_vec()));
    assert_eq!(path::file_name(b"a/.."), None);
    assert_eq!(path::file_name(b"/"), None);
    assert_eq!(path::file_name(b""), None);
    assert_eq!(path::file_name(b"..."), Some(b"...".to_vec()));
}

#[test]
fn a_path_to_a_name_ends_in_the_name() {
    for dir in [&b""[..], b"/", b"a", b"a/", b"a/../b"] {
        let whole = path::join(dir, b"x.ko");
        assert_eq!(path::file_name(&whole), Some(b"x.ko".to_vec()));
    }
}
