use kernel_extract::failure::{ErrorKind, ExtractError};
use kernel_extract::layout::{
    find_version, first_candidate, kernel_image_name, missing_file, module_packing, modules_base,
    second_candidate, temp_dir, version_dir, DirEntry, KernelFile, Packing,
};
use kernel_extract::process::{get_module_deps_from_modinfo, parse_names, CommandOutput};

fn entry(name: &[u8], is_dir: bool) -> Option<DirEntry> {
    Some(DirEntry { name: name.to_vec(), is_dir })
}

fn modinfo(success: bool, stdout: &[u8]) -> CommandOutput {
    CommandOutput { success, stdout: stdout.to_vec(), stderr: vec![] }
}

#[test]
fn directories_of_a_package() {
    assert_eq!(temp_dir(b"out"), b"out/_extract_temp".to_vec());
    assert_eq!(modules_base(b"t"), b"t/lib/modules".to_vec());
    assert_eq!(version_dir(b"t", b"6.1\xff"), b"t/lib/modules/6.1\xff".to_vec());
}

#[test]
fn the_first_directory_is_the_version() {
    let entries = vec![entry(b"file", false), None, entry(b"6.1", true), entry(b"6.2", true)];
    assert_eq!(find_version(&entries).unwrap(), b"6.1".to_vec());
}

#[test]
fn a_package_without_a_version() {
    let error = find_version(&vec![None, entry(b"file", false)]).unwrap_err();
    assert_eq!(error.kind, ErrorKind::FileOperationFailure);
    assert_eq!(error.message, "No kernel version directory found");
    assert!(find_version(&vec![]).is_err());
}

#[test]
fn places_of_kernel_files() {
    assert_eq!(
        first_candidate(KernelFile::Image, b"t", b"6.1"),
        b"t/lib/modules/6.1/vmlinuz".to_vec()
    );
    assert_eq!(
        first_candidate(KernelFile::Config, b"t", b"6.1"),
        b"t/lib/modules/6.1/config".to_vec()
    );
    assert_eq!(
        second_candidate(KernelFile::Image, b"t", b"6.1"),
        Some(b"t/boot/vmlinuz-6.1".to_vec())
    );
    assert_eq!(
        second_candidate(KernelFile::Config, b"t", b"6.1"),
        Some(b"t/boot/config-6.1".to_vec())
    );
}

#[test]
fn a_version_that_is_not_text_has_one_place() {
    assert_eq!(
        first_candidate(KernelFile::Image, b"t", b"\xff"),
        b"t/lib/modules/\xff/vmlinuz".to_vec()
    );
    assert_eq!(second_candidate(KernelFile::Image, b"t", b"\xff"), None);
    assert_eq!(second_candidate(KernelFile::Config, b"t", b"\xc3"), None);
}

#[test]
fn missing_files_are_told() {
    let error = missing_file(KernelFile::Image, b"out/\xff_t");
    assert_eq!(error.kind, ErrorKind::FileOperationFailure);
    assert_eq!(error.message, "Kernel image not found in out/\u{fffd}_t");
    let error = missing_file(KernelFile::Config, b"out/t");
    assert_eq!(error.kind, ErrorKind::FileOperationFailure);
    assert_eq!(error.message, "Kernel config not found");
}

#[test]
fn image_names() {
    assert_eq!(kernel_image_name("x86_64"), "bzImage");
    assert_eq!(kernel_image_name("aarch64"), "Image");
    assert_eq!(kernel_image_name("riscv64"), "vmlinuz");
    assert_eq!(kernel_image_name(""), "vmlinuz");
}

#[test]
fn packings() {
    assert_eq!(module_packing(b"a/nsm.ko"), Packing::Plain);
    assert_eq!(module_packing(b"a/nsm.ko.xz"), Packing::Xz);
    assert_eq!(module_packing(b"a/nsm.ko.zst"), Packing::Zstd);
    assert_eq!(module_packing(b"a.ko.xz/nsm"), Packing::Plain);
    assert_eq!(module_packing(b"a/\xff.ko.xz"), Packing::Plain);
    assert_eq!(module_packing(b"a.ko.xz/.."), Packing::Plain);
    assert_eq!(module_packing(b""), Packing::Plain);
}

#[test]
fn errors_with_details() {
    let error = ExtractError::with_detail(ErrorKind::ProcessSpawnFailure, "Failed to run xz", "no");
    assert_eq!(error.kind, ErrorKind::ProcessSpawnFailure);
    assert_eq!(error.message, "Failed to run xz: no");
}

#[test]
fn lists_of_names() {
    assert_eq!(parse_names("vsock,virtio\n"), vec!["vsock", "virtio"]);
    assert_eq!(parse_names(" a , b ,,c"), vec!["a", "b", "c"]);
    assert_eq!(parse_names("a, ,b"), vec!["a", "", "b"]);
    assert!(parse_names("\n").is_empty());
    assert!(parse_names("").is_empty());
    assert!(parse_names(",,").is_empty());
}

#[test]
fn reported_dependencies() {
    assert_eq!(get_module_deps_from_modinfo(Some(&modinfo(true, b"a,b\n"))), vec!["a", "b"]);
    assert!(get_module_deps_from_modinfo(Some(&modinfo(true, b"\n"))).is_empty());
    assert!(get_module_deps_from_modinfo(Some(&modinfo(false, b"a,b\n"))).is_empty());
    assert!(get_module_deps_from_modinfo(None).is_empty());
}

#[test]
fn malformed_reports_are_replaced() {
    assert_eq!(
        get_module_deps_from_modinfo(Some(&modinfo(true, b"a\xff,\xc3\xa9"))),
        vec!["a\u{fffd}", "é"]
    );
}
