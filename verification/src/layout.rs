//! Where the files of a kernel package lie.

use vstd::prelude::*;

use crate::decode;
use crate::failure;
use crate::failure::{ErrorKind, ExtractError};
use crate::path;
use crate::path::RawPath;
use crate::text;

verus! {

broadcast use vstd::string::group_string_axioms;

/// One item of a directory.
#[derive(Debug)]
pub struct DirEntry {
    /// The name in its directory.
    pub name: Vec<u8>,
    /// It is a directory, or a link to one.
    pub is_dir: bool,
}

/// One item of a directory, as contracts speak of it.
pub struct Item {
    /// The name in its directory.
    pub name: Seq<u8>,
    /// It is a directory, or a link to one.
    pub is_dir: bool,
}

/// The item that could be read, if it could.
pub open spec fn item_of(entry: Option<DirEntry>) -> Option<Item> {
    match entry {
        Some(e) => Some(Item { name: e.name@, is_dir: e.is_dir }),
        None => None,
    }
}

/// The items of a directory.
pub open spec fn items_of(entries: Seq<Option<DirEntry>>) -> Seq<Option<Item>> {
    entries.map_values(|entry: Option<DirEntry>| item_of(entry))
}

/// The name of the first directory among the items that could be read.
pub open spec fn first_dir(items: Seq<Option<Item>>) -> Option<Seq<u8>>
    decreases items.len(),
{
    if items.len() == 0 {
        None
    } else {
        match items[0] {
            Some(item) => if item.is_dir {
                Some(item.name)
            } else {
                first_dir(items.skip(1))
            },
            None => first_dir(items.skip(1)),
        }
    }
}

/// The directory into which a package is unpacked.
pub open spec fn temp_dir_of(output_dir: Seq<u8>) -> Seq<u8> {
    path::below_text(output_dir, "_extract_temp"@)
}

/// The directory that holds one directory for each kernel version.
pub open spec fn modules_base_of(extract_dir: Seq<u8>) -> Seq<u8> {
    path::below_text(extract_dir, "lib/modules"@)
}

/// The directory of one kernel version.
pub open spec fn version_dir_of(extract_dir: Seq<u8>, version: Seq<u8>) -> Seq<u8> {
    path::below(modules_base_of(extract_dir), version)
}

/// One of the files that a package holds for a kernel version.
#[derive(Debug, Clone, Copy, PartialEq, Eq, Structural)]
pub enum KernelFile {
    /// The kernel image.
    Image,
    /// The configuration that the kernel was built with.
    Config,
}

/// The name of the file in the directory of its kernel version.
pub open spec fn name_in_version_dir(file: KernelFile) -> Seq<char> {
    match file {
        KernelFile::Image => "vmlinuz"@,
        KernelFile::Config => "config"@,
    }
}

/// The name of the file in the boot directory, up to the kernel version.
pub open spec fn name_in_boot_dir(file: KernelFile) -> Seq<char> {
    match file {
        KernelFile::Image => "vmlinuz-"@,
        KernelFile::Config => "config-"@,
    }
}

/// Where the file is looked for first.
pub open spec fn first_place(file: KernelFile, extract_dir: Seq<u8>, version: Seq<u8>) -> Seq<u8> {
    path::below_text(version_dir_of(extract_dir, version), name_in_version_dir(file))
}

/// Where the file is looked for next.
pub open spec fn second_place(file: KernelFile, extract_dir: Seq<u8>, version: Seq<u8>) -> Seq<u8> {
    path::below_text(
        path::below_text(extract_dir, "boot"@),
        name_in_boot_dir(file) + vstd::utf8::decode_utf8(version),
    )
}

/// The failure of a search that found the file in neither place.
pub open spec fn not_found(file: KernelFile, extract_dir: Seq<u8>) -> failure::Failure {
    failure::Failure {
        kind: ErrorKind::FileOperationFailure,
        message: match file {
            KernelFile::Image => "Kernel image not found in "@ + decode::lossy_text(extract_dir),
            KernelFile::Config => "Kernel config not found"@,
        },
    }
}

/// The failure of a package without a directory for a kernel version.
pub open spec fn no_version_dir() -> failure::Failure {
    failure::Failure {
        kind: ErrorKind::FileOperationFailure,
        message: "No kernel version directory found"@,
    }
}

/// The name under which the kernel image is stored.
pub open spec fn image_name_for(arch: Seq<char>) -> Seq<char> {
    if arch == "x86_64"@ {
        "bzImage"@
    } else if arch == "aarch64"@ {
        "Image"@
    } else {
        "vmlinuz"@
    }
}

/// How a module file is packed.
#[derive(Debug, Clone, Copy, PartialEq, Eq, Structural)]
pub enum Packing {
    /// Compressed with xz.
    Xz,
    /// Compressed with zstd.
    Zstd,
    /// Not compressed.
    Plain,
}

/// How the module file at a path is packed, which the end of its name tells.
pub open spec fn packing_of(source: Seq<u8>) -> Packing {
    match path::file_name_of(source) {
        Some(name) => if !vstd::utf8::valid_utf8(name) {
            Packing::Plain
        } else if ".ko.xz"@.is_suffix_of(vstd::utf8::decode_utf8(name)) {
            Packing::Xz
        } else if ".ko.zst"@.is_suffix_of(vstd::utf8::decode_utf8(name)) {
            Packing::Zstd
        } else {
            Packing::Plain
        },
        None => Packing::Plain,
    }
}

/// The version is the exact name of the first item that is a directory; there is none exactly
/// where no item is one.
pub proof fn law_first_dir(items: Seq<Option<Item>>, version: Seq<u8>)
    ensures
        first_dir(items) == Some(version) <==> exists|i: int|
            0 <= i < items.len() && (#[trigger] items[i] matches Some(item) && item.is_dir
                && item.name == version) && (forall|j: int|
                0 <= j < i ==> (#[trigger] items[j] matches Some(item) ==> !item.is_dir)),
        first_dir(items) is None <==> forall|j: int|
            0 <= j < items.len() ==> (#[trigger] items[j] matches Some(item) ==> !item.is_dir),
    decreases items.len(),
{
    if items.len() > 0 {
        let rest = items.skip(1);
        law_first_dir(rest, version);
        let first = items[0] matches Some(item) && item.is_dir;
        assert forall|j: int| 0 <= j < rest.len() implies #[trigger] rest[j] == items[j + 1] by {}
        if first {
            if first_dir(items) == Some(version) {
                assert(items[0] matches Some(item) && item.is_dir && item.name == version);
            }
            if exists|i: int|
                0 <= i < items.len() && (#[trigger] items[i] matches Some(item) && item.is_dir
                    && item.name == version) && (forall|j: int|
                    0 <= j < i ==> (#[trigger] items[j] matches Some(item) ==> !item.is_dir)) {
                let i = choose|i: int|
                    0 <= i < items.len() && (#[trigger] items[i] matches Some(item) && item.is_dir
                        && item.name == version) && (forall|j: int|
                        0 <= j < i ==> (#[trigger] items[j] matches Some(item) ==> !item.is_dir));
                assert(i == 0);
            }
        } else {
            if first_dir(rest) == Some(version) {
                let i = choose|i: int|
                    0 <= i < rest.len() && (#[trigger] rest[i] matches Some(item) && item.is_dir
                        && item.name == version) && (forall|j: int|
                        0 <= j < i ==> (#[trigger] rest[j] matches Some(item) ==> !item.is_dir));
                assert(items[i + 1] == rest[i]);
                assert forall|j: int| 0 <= j < i + 1 implies (#[trigger] items[j] matches Some(item)
                    ==> !item.is_dir) by {
                    if j > 0 {
                        assert(rest[j - 1] == items[j]);
                    }
                }
            }
            if exists|i: int|
                0 <= i < items.len() && (#[trigger] items[i] matches Some(item) && item.is_dir
                    && item.name == version) && (forall|j: int|
                    0 <= j < i ==> (#[trigger] items[j] matches Some(item) ==> !item.is_dir)) {
                let i = choose|i: int|
                    0 <= i < items.len() && (#[trigger] items[i] matches Some(item) && item.is_dir
                        && item.name == version) && (forall|j: int|
                        0 <= j < i ==> (#[trigger] items[j] matches Some(item) ==> !item.is_dir));
                assert(rest[i - 1] == items[i]);
            }
            if first_dir(items) is None {
                assert forall|j: int| 0 <= j < items.len() implies (#[trigger] items[j] matches Some(
                    item,
                ) ==> !item.is_dir) by {
                    if j > 0 {
                        assert(rest[j - 1] == items[j]);
                    }
                }
            }
        }
    }
}

/// The items are what was read of the directory, one for one.
pub proof fn law_items(entries: Seq<Option<DirEntry>>, i: int)
    requires
        0 <= i < entries.len(),
    ensures
        items_of(entries).len() == entries.len(),
        entries[i] is None <==> items_of(entries)[i] is None,
        entries[i] matches Some(entry) ==> items_of(entries)[i] == Some(
            Item { name: entry.name@, is_dir: entry.is_dir },
        ),
{
}

/// The fixed names of a package's layout are names.
proof fn lemma_layout_names()
    ensures
        path::is_plain_name(vstd::utf8::encode_utf8("lib"@)),
        path::is_plain_name(vstd::utf8::encode_utf8("modules"@)),
        path::is_plain_name(vstd::utf8::encode_utf8("boot"@)),
        path::is_plain_name(vstd::utf8::encode_utf8("vmlinuz"@)),
        path::is_plain_name(vstd::utf8::encode_utf8("config"@)),
        path::is_plain_name(vstd::utf8::encode_utf8("_extract_temp"@)),
        vstd::utf8::encode_utf8("lib/modules"@) == vstd::utf8::encode_utf8("lib"@) + seq![
            path::SLASH,
        ] + vstd::utf8::encode_utf8("modules"@),
{
    reveal_strlit("lib");
    reveal_strlit("modules");
    reveal_strlit("boot");
    reveal_strlit("vmlinuz");
    reveal_strlit("config");
    reveal_strlit("_extract_temp");
    reveal_strlit("lib/modules");
    path::lemma_plain_text("lib"@);
    path::lemma_plain_text("modules"@);
    path::lemma_plain_text("boot"@);
    path::lemma_plain_text("vmlinuz"@);
    path::lemma_plain_text("config"@);
    path::lemma_plain_text("_extract_temp"@);
    let slash = seq!['/'];
    assert(vstd::utf8::is_ascii_chars(slash));
    vstd::utf8::is_ascii_chars_encode_utf8(slash);
    assert(slash[0] as u8 == path::SLASH);
    assert(vstd::utf8::encode_utf8(slash) =~= seq![path::SLASH]);
    assert("lib/modules"@ =~= "lib"@ + slash + "modules"@);
    text::lemma_encoding_concat("lib"@ + slash, "modules"@);
    text::lemma_encoding_concat("lib"@, slash);
}

/// The directory of a kernel version is reached from the unpacked package by `lib`, `modules`
/// and the exact name of the version.
pub proof fn law_version_dir(extract_dir: Seq<u8>, version: Seq<u8>)
    requires
        path::is_plain_name(version),
    ensures
        path::steps(modules_base_of(extract_dir)) == path::steps(extract_dir) + seq![
            vstd::utf8::encode_utf8("lib"@),
            vstd::utf8::encode_utf8("modules"@),
        ],
        path::steps(version_dir_of(extract_dir, version)) == path::steps(extract_dir) + seq![
            vstd::utf8::encode_utf8("lib"@),
            vstd::utf8::encode_utf8("modules"@),
            version,
        ],
{
    let lib = vstd::utf8::encode_utf8("lib"@);
    let inner = vstd::utf8::encode_utf8("modules"@);
    let rel = vstd::utf8::encode_utf8("lib/modules"@);
    lemma_layout_names();
    let parts = seq![lib, inner];
    assert(parts.drop_last() =~= seq![lib]);
    assert(text::joined(seq![lib], seq![path::SLASH]) == lib);
    assert(text::joined(parts, seq![path::SLASH]) =~= rel);
    text::law_joined_pieces(parts, path::SLASH);
    assert(lib.contains(lib[0]));
    assert(inner.contains(inner.last()));
    path::law_steps_below(extract_dir, rel);
    path::law_one_more_step(modules_base_of(extract_dir), version);
    assert(path::steps(version_dir_of(extract_dir, version)) =~= path::steps(extract_dir) + seq![
        lib,
        inner,
        version,
    ]);
}

/// A kernel file is looked for first in the directory of its version, as `vmlinuz` or `config`,
/// and next in `boot`, under the same name with a hyphen and the exact version behind it.
#[verifier::spinoff_prover]
#[verifier::rlimit(40)]
pub proof fn law_places(file: KernelFile, extract_dir: Seq<u8>, version: Seq<u8>)
    requires
        path::is_plain_name(version),
    ensures
        ({
            let name = vstd::utf8::encode_utf8(
                match file {
                    KernelFile::Image => "vmlinuz"@,
                    KernelFile::Config => "config"@,
                },
            );
            &&& path::steps(first_place(file, extract_dir, version)) == path::steps(extract_dir)
                + seq![
                vstd::utf8::encode_utf8("lib"@),
                vstd::utf8::encode_utf8("modules"@),
                version,
                name,
            ]
            &&& vstd::utf8::valid_utf8(version) ==> path::steps(
                second_place(file, extract_dir, version),
            ) == path::steps(extract_dir) + seq![
                vstd::utf8::encode_utf8("boot"@),
                name + vstd::utf8::encode_utf8("-"@) + version,
            ]
        }),
{
    let plain = match file {
        KernelFile::Image => "vmlinuz"@,
        KernelFile::Config => "config"@,
    };
    let name = vstd::utf8::encode_utf8(plain);
    lemma_layout_names();
    law_version_dir(extract_dir, version);
    path::law_one_more_step(version_dir_of(extract_dir, version), name);
    assert(path::steps(first_place(file, extract_dir, version)) =~= path::steps(extract_dir) + seq![
        vstd::utf8::encode_utf8("lib"@),
        vstd::utf8::encode_utf8("modules"@),
        version,
        name,
    ]);
    if vstd::utf8::valid_utf8(version) {
        let boot = vstd::utf8::encode_utf8("boot"@);
        let hyphen = vstd::utf8::encode_utf8("-"@);
        let known = vstd::utf8::decode_utf8(version);
        let full = name + hyphen + version;
        reveal_strlit("vmlinuz");
        reveal_strlit("vmlinuz-");
        reveal_strlit("config");
        reveal_strlit("config-");
        reveal_strlit("-");
        assert(name_in_boot_dir(file) =~= plain + "-"@);
        vstd::utf8::decode_utf8_encode_utf8(version);
        text::lemma_encoding_concat(plain + "-"@, known);
        text::lemma_encoding_concat(plain, "-"@);
        vstd::utf8::is_ascii_chars_encode_utf8("-"@);
        text::lemma_encoding_lacks("-"@, '/');
        assert(!full.contains(path::SLASH)) by {
            assert forall|i: int| 0 <= i < full.len() implies full[i] != path::SLASH by {
                if i < name.len() {
                    assert(name.contains(name[i]));
                } else if i < name.len() + hyphen.len() {
                    assert(hyphen.contains(hyphen[i - name.len()]));
                } else {
                    assert(version.contains(version[i - name.len() - hyphen.len()]));
                }
            }
        }
        assert(full.len() > 2) by {
            vstd::utf8::is_ascii_chars_encode_utf8(plain);
        }
        path::law_one_more_step(extract_dir, boot);
        path::law_one_more_step(path::below(extract_dir, boot), full);
        assert(path::steps(second_place(file, extract_dir, version)) =~= path::steps(extract_dir)
            + seq![boot, full]);
    }
}

/// The package is unpacked in a directory of its own in the output directory.
pub proof fn law_temp_dir(output_dir: Seq<u8>)
    ensures
        path::steps(temp_dir_of(output_dir)) == path::steps(output_dir).push(
            vstd::utf8::encode_utf8("_extract_temp"@),
        ),
{
    lemma_layout_names();
    path::law_one_more_step(output_dir, vstd::utf8::encode_utf8("_extract_temp"@));
}

/// Two architectures have names of their own for the kernel image, and only they have them.
pub proof fn law_image_names(arch: Seq<char>)
    ensures
        image_name_for(arch) == "bzImage"@ <==> arch == "x86_64"@,
        image_name_for(arch) == "Image"@ <==> arch == "aarch64"@,
        arch != "x86_64"@ && arch != "aarch64"@ ==> image_name_for(arch) == "vmlinuz"@,
{
    reveal_strlit("x86_64");
    reveal_strlit("aarch64");
    reveal_strlit("bzImage");
    reveal_strlit("Image");
    reveal_strlit("vmlinuz");
    assert("x86_64"@.len() != "aarch64"@.len());
    assert("bzImage"@.len() != "Image"@.len());
    assert("vmlinuz"@.len() != "Image"@.len());
    assert("vmlinuz"@[0] != "bzImage"@[0]);
}

/// The end of a module file's name tells how it is packed; a name that is not text tells
/// nothing.
pub proof fn law_packing(dir: Seq<u8>, name: Seq<u8>)
    requires
        path::is_plain_name(name),
    ensures
        packing_of(path::below(dir, name)) == Packing::Xz <==> vstd::utf8::valid_utf8(name)
            && ".ko.xz"@.is_suffix_of(vstd::utf8::decode_utf8(name)),
        packing_of(path::below(dir, name)) == Packing::Zstd <==> vstd::utf8::valid_utf8(name)
            && ".ko.zst"@.is_suffix_of(vstd::utf8::decode_utf8(name)),
{
    path::law_file_name_below(dir, name);
    reveal_strlit(".ko.xz");
    reveal_strlit(".ko.zst");
    let t = vstd::utf8::decode_utf8(name);
    if ".ko.xz"@.is_suffix_of(t) && ".ko.zst"@.is_suffix_of(t) {
        assert(t.skip(t.len() - 6).last() == t.skip(t.len() - 7).last());
    }
}

/// A kernel image that is not found is told with the directory, a kernel config without.
pub proof fn law_not_found(extract_dir: Seq<u8>)
    ensures
        vstd::utf8::valid_utf8(extract_dir) ==> not_found(KernelFile::Image, extract_dir).message
            == "Kernel image not found in "@ + vstd::utf8::decode_utf8(extract_dir),
        not_found(KernelFile::Image, extract_dir).message == "Kernel image not found in "@
            + decode::lossy_text(extract_dir),
        not_found(KernelFile::Config, extract_dir).message == "Kernel config not found"@,
        not_found(KernelFile::Image, extract_dir).kind == ErrorKind::FileOperationFailure,
        not_found(KernelFile::Config, extract_dir).kind == ErrorKind::FileOperationFailure,
{
}

/// The directory into which a package is unpacked.
pub fn temp_dir(output_dir: &[u8]) -> (dir: RawPath)
    ensures
        dir@ == temp_dir_of(output_dir@),
{
    path::join_text(output_dir, "_extract_temp")
}

/// The directory that holds one directory for each kernel version.
pub fn modules_base(extract_dir: &[u8]) -> (dir: RawPath)
    ensures
        dir@ == modules_base_of(extract_dir@),
{
    path::join_text(extract_dir, "lib/modules")
}

/// The directory of one kernel version.
pub fn version_dir(extract_dir: &[u8], version: &[u8]) -> (dir: RawPath)
    ensures
        dir@ == version_dir_of(extract_dir@, version@),
{
    path::join(modules_base(extract_dir).as_slice(), version)
}

/// The kernel version that a package holds, from the listing of its modules directory.
pub fn find_version(entries: &Vec<Option<DirEntry>>) -> (res: Result<RawPath, ExtractError>)
    ensures
        match res {
            Ok(version) => first_dir(items_of(entries@)) == Some(version@),
            Err(error) => first_dir(items_of(entries@)) is None && error@ == no_version_dir(),
        },
        res matches Ok(version) ==> exists|i: int|
            0 <= i < entries@.len() && (#[trigger] entries@[i] matches Some(entry) && entry.is_dir
                && entry.name@ == version@) && (forall|j: int|
                0 <= j < i ==> (#[trigger] entries@[j] matches Some(entry) ==> !entry.is_dir)),
        res is Err ==> forall|j: int|
            0 <= j < entries@.len() ==> (#[trigger] entries@[j] matches Some(entry)
                ==> !entry.is_dir),
{
    let ghost items = items_of(entries@);
    let mut i: usize = 0;
    assert(items.skip(0) =~= items);
    while i < entries.len()
        invariant
            i <= entries@.len(),
            items == items_of(entries@),
            first_dir(items.skip(i as int)) == first_dir(items),
            forall|j: int|
                0 <= j < i ==> (#[trigger] entries@[j] matches Some(entry) ==> !entry.is_dir),
        decreases entries@.len() - i,
    {
        assert(items.skip(i as int).skip(1) =~= items.skip(i + 1));
        assert(items.skip(i as int)[0] == item_of(entries@[i as int]));
        if let Some(entry) = &entries[i] {
            if entry.is_dir {
                assert(entries@[i as int] matches Some(found) && found.is_dir);
                return Ok(path::copy(entry.name.as_slice()));
            }
        }
        i = i + 1;
    }
    Err(
        ExtractError {
            kind: ErrorKind::FileOperationFailure,
            message: "No kernel version directory found".to_owned(),
        },
    )
}

/// The path at which a kernel file is looked for first.
pub fn first_candidate(file: KernelFile, extract_dir: &[u8], version: &[u8]) -> (candidate: RawPath)
    ensures
        candidate@ == first_place(file, extract_dir@, version@),
{
    let dir = version_dir(extract_dir, version);
    match file {
        KernelFile::Image => path::join_text(dir.as_slice(), "vmlinuz"),
        KernelFile::Config => path::join_text(dir.as_slice(), "config"),
    }
}

/// The path at which a kernel file is looked for next.
pub fn second_candidate(file: KernelFile, extract_dir: &[u8], version: &[u8]) -> (candidate: Option<
    RawPath,
>)
    ensures
        match candidate {
            Some(p) => vstd::utf8::valid_utf8(version@) && p@ == second_place(
                file,
                extract_dir@,
                version@,
            ),
            None => !vstd::utf8::valid_utf8(version@),
        },
{
    match decode::decode(version) {
        Some(version_name) => {
            let dir = path::join_text(extract_dir, "boot");
            let name: String = match file {
                KernelFile::Image => text::concat("vmlinuz-", version_name.as_str()),
                KernelFile::Config => text::concat("config-", version_name.as_str()),
            };
            Some(path::join_text(dir.as_slice(), name.as_str()))
        },
        None => None,
    }
}

/// The error of a search that found the file in neither place.
pub fn missing_file(file: KernelFile, extract_dir: &[u8]) -> (error: ExtractError)
    ensures
        error@ == not_found(file, extract_dir@),
{
    let message: String = match file {
        KernelFile::Image => text::concat(
            "Kernel image not found in ",
            decode::decode_lossy(extract_dir).as_str(),
        ),
        KernelFile::Config => "Kernel config not found".to_owned(),
    };
    ExtractError { kind: ErrorKind::FileOperationFailure, message }
}

/// The name under which the kernel image is stored.
pub fn kernel_image_name(arch: &str) -> (name: &'static str)
    ensures
        name@ == image_name_for(arch@),
{
    if text::same_text(arch, "x86_64") {
        "bzImage"
    } else if text::same_text(arch, "aarch64") {
        "Image"
    } else {
        "vmlinuz"
    }
}

/// How the module file at a path is packed.
pub fn module_packing(source: &[u8]) -> (packing: Packing)
    ensures
        packing == packing_of(source@),
{
    let name: String = match path::file_name(source) {
        Some(bytes) => match decode::decode(bytes.as_slice()) {
            Some(name) => name,
            None => {
                return Packing::Plain;
            },
        },
        None => {
            return Packing::Plain;
        },
    };
    if text::ends_with(name.as_str(), ".ko.xz") {
        Packing::Xz
    } else if text::ends_with(name.as_str(), ".ko.zst") {
        Packing::Zstd
    } else {
        Packing::Plain
    }
}

} // verus!
