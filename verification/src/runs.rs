//! Whole extractions: what has happened by the time one ends.

use vstd::prelude::*;

use crate::config;
use crate::config::{ConfigOption, ConfigValue};
use crate::failure;
use crate::layout;
use crate::layout::{KernelFile, Packing};
use crate::manifest;
use crate::modules;
use crate::path;
use crate::process;
use crate::protocol;
use crate::state;
use crate::state::Stage;
use crate::tree;
use crate::worklist;

verus! {

/// Where an extraction stands after some replies.
#[verifier::opaque]
pub open spec fn run(start: state::State, replies: Seq<protocol::Reply>) -> state::State
    decreases replies.len(),
{
    if replies.len() == 0 {
        start
    } else {
        state::advance(run(start, replies.drop_last()), replies.last())
    }
}

/// Each reply could come of the operation that was waited for.
pub open spec fn legal(start: state::State, replies: Seq<protocol::Reply>) -> bool
    decreases replies.len(),
{
    replies.len() > 0 ==> {
        &&& legal(start, replies.drop_last())
        &&& state::acceptable(run(start, replies.drop_last()), replies.last())
    }
}

/// The operation was asked for, and the reply came of it.
pub open spec fn happened(
    start: state::State,
    replies: Seq<protocol::Reply>,
    ask: protocol::Ask,
    reply: protocol::Reply,
) -> bool {
    exists|i: int|
        0 <= i < replies.len() && state::pending_request(run(start, #[trigger] replies.take(i)))
            == ask && replies[i] == reply
}

/// The operation was asked for and carried out.
pub open spec fn carried_out(
    start: state::State,
    replies: Seq<protocol::Reply>,
    ask: protocol::Ask,
) -> bool {
    happened(start, replies, ask, protocol::Reply::Done)
}

/// The package was turned into the archive.
pub open spec fn archived(
    start: state::State,
    replies: Seq<protocol::Reply>,
    rpm_path: Seq<u8>,
    archive: Seq<u8>,
) -> bool {
    exists|output: process::Output| #[trigger]
        happened(
            start,
            replies,
            protocol::Ask::Run { program: "rpm2cpio"@, args: seq![rpm_path] },
            protocol::Reply::Ended { output },
        ) && output.success && output.stdout == archive
}

/// The request to start the program that unpacks the archive into the directory.
pub open spec fn unpacker_request(extract_dir: Seq<u8>) -> protocol::Ask {
    protocol::Ask::Spawn {
        program: "cpio"@,
        args: seq![
            vstd::utf8::encode_utf8("-idm"@),
            vstd::utf8::encode_utf8("--no-absolute-filenames"@),
        ],
        dir: extract_dir,
    }
}

/// The archive made of the package was handed over to be unpacked.
pub open spec fn handed_over(
    start: state::State,
    replies: Seq<protocol::Reply>,
    rpm_path: Seq<u8>,
) -> bool {
    exists|archive: Seq<u8>| #[trigger]
        carried_out(start, replies, protocol::Ask::Feed { input: archive }) && archived(
            start,
            replies,
            rpm_path,
            archive,
        )
}

/// The program that unpacks the archive reported success.
pub open spec fn unpacking_succeeded(start: state::State, replies: Seq<protocol::Reply>) -> bool {
    exists|output: process::Output| #[trigger]
        happened(start, replies, protocol::Ask::Wait, protocol::Reply::Ended { output })
            && output.success
}

/// The kernel version was found in the unpacked package.
pub open spec fn version_listed(
    start: state::State,
    replies: Seq<protocol::Reply>,
    extract_dir: Seq<u8>,
    version: Seq<u8>,
) -> bool {
    exists|items: Seq<Option<layout::Item>>| #[trigger]
        happened(
            start,
            replies,
            protocol::Ask::List { path: layout::modules_base_of(extract_dir) },
            protocol::Reply::Listed { items },
        ) && layout::first_dir(items) == Some(version)
}

/// The path was asked for, with the given answer.
pub open spec fn probed(
    start: state::State,
    replies: Seq<protocol::Reply>,
    path: Seq<u8>,
    yes: bool,
) -> bool {
    happened(start, replies, protocol::Ask::Exists { path }, protocol::Reply::Answer { yes })
}

/// The directory was not there, or was removed with all that it held.
pub open spec fn cleared(
    start: state::State,
    replies: Seq<protocol::Reply>,
    dir: Seq<u8>,
) -> bool {
    ||| probed(start, replies, dir, false)
    ||| probed(start, replies, dir, true) && carried_out(
        start,
        replies,
        protocol::Ask::RemoveDir { path: dir },
    )
}

/// The kernel file was found at the path: in the directory of the version, or, as it was not
/// there, in the boot directory.
pub open spec fn located_for(
    start: state::State,
    replies: Seq<protocol::Reply>,
    file: KernelFile,
    extract_dir: Seq<u8>,
    version: Seq<u8>,
    path: Seq<u8>,
) -> bool {
    &&& version_listed(start, replies, extract_dir, version)
    &&& probed(start, replies, path, true)
    &&& {
        ||| path == layout::first_place(file, extract_dir, version)
        ||| path == layout::second_place(file, extract_dir, version) && probed(
            start,
            replies,
            layout::first_place(file, extract_dir, version),
            false,
        )
    }
}

/// The kernel file was found at the path, for some version.
pub open spec fn located(
    start: state::State,
    replies: Seq<protocol::Reply>,
    file: KernelFile,
    extract_dir: Seq<u8>,
    path: Seq<u8>,
) -> bool {
    exists|version: Seq<u8>| #[trigger]
        located_for(start, replies, file, extract_dir, version, path)
}

/// The kernel file was copied to the path from where it was found.
pub open spec fn file_stored(
    start: state::State,
    replies: Seq<protocol::Reply>,
    file: KernelFile,
    extract_dir: Seq<u8>,
    to: Seq<u8>,
) -> bool {
    exists|from: Seq<u8>| #[trigger]
        carried_out(start, replies, protocol::Ask::Copy { from, to }) && located(
            start,
            replies,
            file,
            extract_dir,
            from,
        )
}

/// The kernel file was copied to the path from where it was found for the version.
pub open spec fn file_stored_for(
    start: state::State,
    replies: Seq<protocol::Reply>,
    file: KernelFile,
    extract_dir: Seq<u8>,
    version: Seq<u8>,
    to: Seq<u8>,
) -> bool {
    exists|from: Seq<u8>| #[trigger]
        carried_out(start, replies, protocol::Ask::Copy { from, to }) && located_for(
            start,
            replies,
            file,
            extract_dir,
            version,
            from,
        )
}

/// The configuration is what was read at the path.
pub open spec fn config_read(
    start: state::State,
    replies: Seq<protocol::Reply>,
    path: Seq<u8>,
    known: Map<ConfigOption, ConfigValue>,
) -> bool {
    exists|bytes: Seq<u8>, error: Option<Seq<char>>| #[trigger]
        happened(
            start,
            replies,
            protocol::Ask::Read { path },
            protocol::Reply::Contents { bytes, error },
        ) && config::parsed_config(bytes, error) == Ok::<
            Map<ConfigOption, ConfigValue>,
            failure::Failure,
        >(known)
}

/// The directory of a kernel version that the unpacked package holds was walked.
pub open spec fn walked(
    start: state::State,
    replies: Seq<protocol::Reply>,
    extract_dir: Seq<u8>,
    version: Seq<u8>,
    listing: tree::Listing,
) -> bool {
    &&& version_listed(start, replies, extract_dir, version)
    &&& happened(
        start,
        replies,
        protocol::Ask::Walk { path: layout::version_dir_of(extract_dir, version) },
        protocol::Reply::Walked { listing },
    )
}

/// The module was looked for in the unpacked package, with the given result.
pub open spec fn looked_for(
    start: state::State,
    replies: Seq<protocol::Reply>,
    extract_dir: Seq<u8>,
    name: Seq<char>,
    result: Option<Seq<u8>>,
) -> bool {
    exists|version: Seq<u8>, listing: tree::Listing| #[trigger]
        walked(start, replies, extract_dir, version, listing) && tree::module_file(
            layout::version_dir_of(extract_dir, version),
            listing,
            name,
        ) == result
}

/// The file was found when the module was looked for in the directory of the version.
pub open spec fn found_for(
    start: state::State,
    replies: Seq<protocol::Reply>,
    extract_dir: Seq<u8>,
    version: Seq<u8>,
    name: Seq<char>,
    source: Seq<u8>,
) -> bool {
    exists|listing: tree::Listing| #[trigger]
        walked(start, replies, extract_dir, version, listing) && tree::module_file(
            layout::version_dir_of(extract_dir, version),
            listing,
            name,
        ) == Some(source)
}

/// The request to unpack a file.
pub open spec fn unpack_request(source: Seq<u8>, packing: Packing) -> protocol::Ask {
    protocol::Ask::Run {
        program: match packing {
            Packing::Xz => "xz"@,
            _ => "zstd"@,
        },
        args: seq![
            vstd::utf8::encode_utf8(
                match packing {
                    Packing::Xz => "-dk"@,
                    _ => "-d"@,
                },
            ),
            vstd::utf8::encode_utf8("-c"@),
            source,
        ],
    }
}

/// The file was unpacked, as its name asks for, and gave the contents.
pub open spec fn unpacked(
    start: state::State,
    replies: Seq<protocol::Reply>,
    source: Seq<u8>,
    contents: Seq<u8>,
) -> bool {
    exists|output: process::Output| #[trigger]
        happened(
            start,
            replies,
            unpack_request(source, layout::packing_of(source)),
            protocol::Reply::Ended { output },
        ) && output.success && output.stdout == contents
}

/// The file was copied to the path, or unpacked and what it gave was stored there.
pub open spec fn stored_at(
    start: state::State,
    replies: Seq<protocol::Reply>,
    source: Seq<u8>,
    path: Seq<u8>,
) -> bool {
    if layout::packing_of(source) is Plain {
        carried_out(start, replies, protocol::Ask::Copy { from: source, to: path })
    } else {
        exists|contents: Seq<u8>| #[trigger]
            carried_out(start, replies, protocol::Ask::Write { path, contents }) && unpacked(
                start,
                replies,
                source,
                contents,
            )
    }
}

/// The request for the dependencies of a module.
pub open spec fn deps_request(path: Seq<u8>) -> protocol::Ask {
    protocol::Ask::Run {
        program: "modinfo"@,
        args: seq![vstd::utf8::encode_utf8("-F"@), vstd::utf8::encode_utf8("depends"@), path],
    }
}

/// What a program left behind, if it ran to its end.
pub open spec fn output_in(reply: protocol::Reply) -> Option<process::Output> {
    match reply {
        protocol::Reply::Ended { output } => Some(output),
        _ => None,
    }
}

/// The dependencies were reported for the module at the path.
pub open spec fn reported(
    start: state::State,
    replies: Seq<protocol::Reply>,
    path: Seq<u8>,
    dependencies: Seq<Seq<char>>,
) -> bool {
    exists|reply: protocol::Reply| #[trigger]
        happened(start, replies, deps_request(path), reply) && dependencies
            == process::reported_deps(output_in(reply))
}

/// The module was found as the file, the file was stored at the module's path, which its name
/// gives, and the module's dependencies are those that were reported for it.
pub open spec fn made_from(
    start: state::State,
    replies: Seq<protocol::Reply>,
    output_dir: Seq<u8>,
    module: modules::Module,
    source: Seq<u8>,
) -> bool {
    &&& looked_for(start, replies, layout::temp_dir_of(output_dir), module.name, Some(source))
    &&& module.path == path::below_text(
        path::below_text(output_dir, "modules"@),
        module.name + ".ko"@,
    )
    &&& stored_at(start, replies, source, module.path)
    &&& reported(start, replies, module.path, module.dependencies)
}

/// The module was made from some file.
pub open spec fn made(
    start: state::State,
    replies: Seq<protocol::Reply>,
    output_dir: Seq<u8>,
    module: modules::Module,
) -> bool {
    exists|source: Seq<u8>| #[trigger] made_from(start, replies, output_dir, module, source)
}

/// The module was made from a file that was found for the version.
pub open spec fn made_for(
    start: state::State,
    replies: Seq<protocol::Reply>,
    output_dir: Seq<u8>,
    version: Seq<u8>,
    module: modules::Module,
) -> bool {
    exists|source: Seq<u8>| #[trigger]
        made_from(start, replies, output_dir, module, source) && found_for(
            start,
            replies,
            layout::temp_dir_of(output_dir),
            version,
            module.name,
            source,
        )
}

/// The modules have been reached and are not done with.
pub open spec fn among_modules(stage: Stage) -> bool {
    stage is CreateModulesDir || state::at_module(stage)
}

/// How far an extraction has come.
pub open spec fn progress(stage: Stage) -> int {
    match stage {
        Stage::CreateOutputDir => 0,
        Stage::CheckTempDir => 1,
        Stage::CleanTempDir => 2,
        Stage::CreateExtractDir => 3,
        Stage::RunRpm2cpio => 4,
        Stage::SpawnCpio => 5,
        Stage::FeedCpio => 6,
        Stage::WaitCpio => 7,
        Stage::ListVersions(KernelFile::Image) => 8,
        Stage::ProbeFirst(KernelFile::Image) => 9,
        Stage::ProbeSecond(KernelFile::Image) => 10,
        Stage::StoreFile(KernelFile::Image) => 11,
        Stage::ListVersions(KernelFile::Config) => 12,
        Stage::ProbeFirst(KernelFile::Config) => 13,
        Stage::ProbeSecond(KernelFile::Config) => 14,
        Stage::StoreFile(KernelFile::Config) => 15,
        Stage::ReadConfig => 16,
        Stage::ListModules => 17,
        Stage::CreateModulesDir => 18,
        Stage::LocateModule | Stage::Unpack(_) | Stage::WriteModule | Stage::QueryDeps => 19,
        Stage::CreateManifest => 20,
        Stage::WriteManifest => 21,
        Stage::RemoveTempDir => 22,
        Stage::Finished => 23,
    }
}

/// What has happened to files that are not modules by the time an extraction has come to its
/// stage.
pub open spec fn files_history(start: state::State, replies: Seq<protocol::Reply>) -> bool {
    let s = run(start, replies);
    let n = progress(s.stage);
    &&& n > 0 ==> carried_out(start, replies, protocol::Ask::CreateDir { path: s.output_dir })
    &&& s.stage is CleanTempDir ==> probed(start, replies, s.temp_dir(), true)
    &&& n > 2 ==> cleared(start, replies, s.temp_dir())
    &&& n > 3 ==> carried_out(start, replies, protocol::Ask::CreateDir { path: s.temp_dir() })
    &&& (s.stage is SpawnCpio || s.stage is FeedCpio) ==> archived(
        start,
        replies,
        s.rpm_path,
        s.payload,
    )
    &&& n > 5 ==> carried_out(start, replies, unpacker_request(s.temp_dir()))
    &&& n > 6 ==> handed_over(start, replies, s.rpm_path)
    &&& n > 7 ==> unpacking_succeeded(start, replies)
    &&& (s.stage is ProbeFirst || s.stage is ProbeSecond) ==> version_listed(
        start,
        replies,
        s.temp_dir(),
        s.version,
    )
    &&& s.stage matches Stage::ProbeSecond(file) ==> probed(
        start,
        replies,
        layout::first_place(file, s.temp_dir(), s.version),
        false,
    )
    &&& s.stage matches Stage::StoreFile(file) ==> located(
        start,
        replies,
        file,
        s.temp_dir(),
        s.source,
    )
    &&& n > 11 ==> file_stored(
        start,
        replies,
        KernelFile::Image,
        s.temp_dir(),
        s.stored(KernelFile::Image),
    )
    &&& n > 15 ==> file_stored(
        start,
        replies,
        KernelFile::Config,
        s.temp_dir(),
        s.stored(KernelFile::Config),
    )
    &&& n > 16 ==> config_read(start, replies, s.stored(KernelFile::Config), s.config)
    &&& n > 20 ==> carried_out(start, replies, protocol::Ask::Create { path: s.manifest() })
    &&& n > 21 ==> carried_out(
        start,
        replies,
        protocol::Ask::Append { text: manifest::manifest_text(s.config, s.work.extracted) },
    )
    &&& n > 22 ==> {
        &&& replies.len() > 0
        &&& state::pending_request(run(start, replies.drop_last())) == protocol::Ask::RemoveDir {
            path: s.temp_dir(),
        }
    }
}

/// What has happened to the modules by the time an extraction has come to its stage.
pub open spec fn modules_history(start: state::State, replies: Seq<protocol::Reply>) -> bool {
    let s = run(start, replies);
    &&& among_modules(s.stage) ==> version_listed(start, replies, s.temp_dir(), s.version)
    &&& (state::at_module(s.stage) || s.work.extracted.len() > 0) ==> carried_out(
        start,
        replies,
        protocol::Ask::CreateDir { path: s.modules_dir() },
    )
    &&& (s.stage is Unpack || s.stage is WriteModule || s.stage is QueryDeps) ==> looked_for(
        start,
        replies,
        s.temp_dir(),
        s.current(),
        Some(s.source),
    )
    &&& s.stage matches Stage::Unpack(packing) ==> packing == layout::packing_of(s.source)
    &&& s.stage is WriteModule ==> !(layout::packing_of(s.source) is Plain) && unpacked(
        start,
        replies,
        s.source,
        s.payload,
    )
    &&& s.stage is QueryDeps ==> stored_at(start, replies, s.source, s.stored_module())
    &&& forall|module: modules::Module| #[trigger]
        s.work.extracted.contains(module) ==> made(start, replies, s.output_dir, module)
    &&& forall|name: Seq<char>| #[trigger]
        state::told_missing(s, name) ==> looked_for(start, replies, s.temp_dir(), name, None)
}

/// What has happened by the time an extraction that has not failed has come to its stage.
pub open spec fn history(start: state::State, replies: Seq<protocol::Reply>) -> bool {
    run(start, replies).failure is None ==> {
        &&& files_history(start, replies)
        &&& modules_history(start, replies)
    }
}

/// What has happened stays so.
proof fn lemma_happened_stays(
    start: state::State,
    replies: Seq<protocol::Reply>,
    more: protocol::Reply,
    ask: protocol::Ask,
    reply: protocol::Reply,
)
    requires
        happened(start, replies, ask, reply),
    ensures
        happened(start, replies.push(more), ask, reply),
{
    let i = choose|i: int|
        0 <= i < replies.len() && state::pending_request(run(start, #[trigger] replies.take(i)))
            == ask && replies[i] == reply;
    assert(replies.push(more).take(i) =~= replies.take(i));
    assert(replies.push(more)[i] == reply);
}

/// What came last has happened.
proof fn lemma_happens_now(
    start: state::State,
    replies: Seq<protocol::Reply>,
    reply: protocol::Reply,
)
    ensures
        happened(
            start,
            replies.push(reply),
            state::pending_request(run(start, replies)),
            reply,
        ),
{
    let all = replies.push(reply);
    assert(all.take(replies.len() as int) =~= replies);
    assert(all[replies.len() as int] == reply);
}

proof fn lemma_archived_stays(
    start: state::State,
    replies: Seq<protocol::Reply>,
    more: protocol::Reply,
    rpm_path: Seq<u8>,
    archive: Seq<u8>,
)
    requires
        archived(start, replies, rpm_path, archive),
    ensures
        archived(start, replies.push(more), rpm_path, archive),
{
    let ask = protocol::Ask::Run { program: "rpm2cpio"@, args: seq![rpm_path] };
    let output = choose|output: process::Output| #[trigger]
        happened(start, replies, ask, protocol::Reply::Ended { output }) && output.success
            && output.stdout == archive;
    lemma_happened_stays(start, replies, more, ask, protocol::Reply::Ended { output });
}

proof fn lemma_handed_over_stays(
    start: state::State,
    replies: Seq<protocol::Reply>,
    more: protocol::Reply,
    rpm_path: Seq<u8>,
)
    requires
        handed_over(start, replies, rpm_path),
    ensures
        handed_over(start, replies.push(more), rpm_path),
{
    let archive = choose|archive: Seq<u8>| #[trigger]
        carried_out(start, replies, protocol::Ask::Feed { input: archive }) && archived(
            start,
            replies,
            rpm_path,
            archive,
        );
    let ask = protocol::Ask::Feed { input: archive };
    lemma_happened_stays(start, replies, more, ask, protocol::Reply::Done);
    lemma_archived_stays(start, replies, more, rpm_path, archive);
    assert(carried_out(start, replies.push(more), ask));
}

proof fn lemma_unpacking_stays(
    start: state::State,
    replies: Seq<protocol::Reply>,
    more: protocol::Reply,
)
    requires
        unpacking_succeeded(start, replies),
    ensures
        unpacking_succeeded(start, replies.push(more)),
{
    let output = choose|output: process::Output| #[trigger]
        happened(start, replies, protocol::Ask::Wait, protocol::Reply::Ended { output })
            && output.success;
    lemma_happened_stays(
        start,
        replies,
        more,
        protocol::Ask::Wait,
        protocol::Reply::Ended { output },
    );
}

proof fn lemma_version_stays(
    start: state::State,
    replies: Seq<protocol::Reply>,
    more: protocol::Reply,
    extract_dir: Seq<u8>,
    version: Seq<u8>,
)
    requires
        version_listed(start, replies, extract_dir, version),
    ensures
        version_listed(start, replies.push(more), extract_dir, version),
{
    let ask = protocol::Ask::List { path: layout::modules_base_of(extract_dir) };
    let items = choose|items: Seq<Option<layout::Item>>| #[trigger]
        happened(start, replies, ask, protocol::Reply::Listed { items }) && layout::first_dir(items)
            == Some(version);
    lemma_happened_stays(start, replies, more, ask, protocol::Reply::Listed { items });
}

proof fn lemma_probed_stays(
    start: state::State,
    replies: Seq<protocol::Reply>,
    more: protocol::Reply,
    path: Seq<u8>,
    yes: bool,
)
    requires
        probed(start, replies, path, yes),
    ensures
        probed(start, replies.push(more), path, yes),
{
    lemma_happened_stays(
        start,
        replies,
        more,
        protocol::Ask::Exists { path },
        protocol::Reply::Answer { yes },
    );
}

proof fn lemma_located_stays(
    start: state::State,
    replies: Seq<protocol::Reply>,
    more: protocol::Reply,
    file: KernelFile,
    extract_dir: Seq<u8>,
    path: Seq<u8>,
)
    requires
        located(start, replies, file, extract_dir, path),
    ensures
        located(start, replies.push(more), file, extract_dir, path),
{
    let version = choose|version: Seq<u8>| #[trigger]
        located_for(start, replies, file, extract_dir, version, path);
    let first = layout::first_place(file, extract_dir, version);
    lemma_version_stays(start, replies, more, extract_dir, version);
    lemma_probed_stays(start, replies, more, path, true);
    if path != first {
        lemma_probed_stays(start, replies, more, first, false);
    }
    assert(located_for(start, replies.push(more), file, extract_dir, version, path));
}

proof fn lemma_file_stored_stays(
    start: state::State,
    replies: Seq<protocol::Reply>,
    more: protocol::Reply,
    file: KernelFile,
    extract_dir: Seq<u8>,
    to: Seq<u8>,
)
    requires
        file_stored(start, replies, file, extract_dir, to),
    ensures
        file_stored(start, replies.push(more), file, extract_dir, to),
{
    let from = choose|from: Seq<u8>| #[trigger]
        carried_out(start, replies, protocol::Ask::Copy { from, to }) && located(
            start,
            replies,
            file,
            extract_dir,
            from,
        );
    let ask = protocol::Ask::Copy { from, to };
    lemma_happened_stays(start, replies, more, ask, protocol::Reply::Done);
    lemma_located_stays(start, replies, more, file, extract_dir, from);
    assert(carried_out(start, replies.push(more), ask));
}

proof fn lemma_config_read_stays(
    start: state::State,
    replies: Seq<protocol::Reply>,
    more: protocol::Reply,
    path: Seq<u8>,
    known: Map<ConfigOption, ConfigValue>,
)
    requires
        config_read(start, replies, path, known),
    ensures
        config_read(start, replies.push(more), path, known),
{
    let ask = protocol::Ask::Read { path };
    let (bytes, error) = choose|bytes: Seq<u8>, error: Option<Seq<char>>| #[trigger]
        happened(start, replies, ask, protocol::Reply::Contents { bytes, error })
            && config::parsed_config(bytes, error) == Ok::<
            Map<ConfigOption, ConfigValue>,
            failure::Failure,
        >(known);
    lemma_happened_stays(start, replies, more, ask, protocol::Reply::Contents { bytes, error });
}

proof fn lemma_looked_for_stays(
    start: state::State,
    replies: Seq<protocol::Reply>,
    more: protocol::Reply,
    extract_dir: Seq<u8>,
    name: Seq<char>,
    result: Option<Seq<u8>>,
)
    requires
        looked_for(start, replies, extract_dir, name, result),
    ensures
        looked_for(start, replies.push(more), extract_dir, name, result),
{
    let (version, listing) = choose|version: Seq<u8>, listing: tree::Listing| #[trigger]
        walked(start, replies, extract_dir, version, listing) && tree::module_file(
            layout::version_dir_of(extract_dir, version),
            listing,
            name,
        ) == result;
    lemma_version_stays(start, replies, more, extract_dir, version);
    lemma_happened_stays(
        start,
        replies,
        more,
        protocol::Ask::Walk { path: layout::version_dir_of(extract_dir, version) },
        protocol::Reply::Walked { listing },
    );
    assert(walked(start, replies.push(more), extract_dir, version, listing));
}

proof fn lemma_unpacked_stays(
    start: state::State,
    replies: Seq<protocol::Reply>,
    more: protocol::Reply,
    source: Seq<u8>,
    contents: Seq<u8>,
)
    requires
        unpacked(start, replies, source, contents),
    ensures
        unpacked(start, replies.push(more), source, contents),
{
    let ask = unpack_request(source, layout::packing_of(source));
    let output = choose|output: process::Output| #[trigger]
        happened(start, replies, ask, protocol::Reply::Ended { output }) && output.success
            && output.stdout == contents;
    lemma_happened_stays(start, replies, more, ask, protocol::Reply::Ended { output });
}

proof fn lemma_stored_stays(
    start: state::State,
    replies: Seq<protocol::Reply>,
    more: protocol::Reply,
    source: Seq<u8>,
    path: Seq<u8>,
)
    requires
        stored_at(start, replies, source, path),
    ensures
        stored_at(start, replies.push(more), source, path),
{
    if layout::packing_of(source) is Plain {
        lemma_happened_stays(
            start,
            replies,
            more,
            protocol::Ask::Copy { from: source, to: path },
            protocol::Reply::Done,
        );
    } else {
        let contents = choose|contents: Seq<u8>| #[trigger]
            carried_out(start, replies, protocol::Ask::Write { path, contents }) && unpacked(
                start,
                replies,
                source,
                contents,
            );
        let ask = protocol::Ask::Write { path, contents };
        lemma_happened_stays(start, replies, more, ask, protocol::Reply::Done);
        lemma_unpacked_stays(start, replies, more, source, contents);
        assert(carried_out(start, replies.push(more), ask));
    }
}

proof fn lemma_made_stays(
    start: state::State,
    replies: Seq<protocol::Reply>,
    more: protocol::Reply,
    output_dir: Seq<u8>,
    module: modules::Module,
)
    requires
        made(start, replies, output_dir, module),
    ensures
        made(start, replies.push(more), output_dir, module),
{
    let source = choose|source: Seq<u8>| #[trigger]
        made_from(start, replies, output_dir, module, source);
    let temp_dir = layout::temp_dir_of(output_dir);
    lemma_looked_for_stays(start, replies, more, temp_dir, module.name, Some(source));
    lemma_stored_stays(start, replies, more, source, module.path);
    let reply = choose|reply: protocol::Reply| #[trigger]
        happened(start, replies, deps_request(module.path), reply) && module.dependencies
            == process::reported_deps(output_in(reply));
    lemma_happened_stays(start, replies, more, deps_request(module.path), reply);
    assert(made_from(start, replies.push(more), output_dir, module, source));
}

/// One more reply is one more step.
pub proof fn lemma_run_push(
    start: state::State,
    replies: Seq<protocol::Reply>,
    reply: protocol::Reply,
)
    ensures
        run(start, replies.push(reply)) == state::advance(run(start, replies), reply),
{
    reveal(run);
    assert(replies.push(reply).drop_last() =~= replies);
}

/// A step leaves the task as it was given, and only adds to what the user was told.
#[verifier::spinoff_prover]
#[verifier::rlimit(60)]
pub proof fn law_step_keeps_task_and_log(s: state::State, reply: protocol::Reply)
    ensures
        state::advance(s, reply).rpm_path == s.rpm_path,
        state::advance(s, reply).output_dir == s.output_dir,
        state::advance(s, reply).arch == s.arch,
        s.log.is_prefix_of(state::advance(s, reply).log),
{
}

/// Going on to the next module extracts none.
proof fn lemma_next_module_members(s: state::State, module: modules::Module)
    requires
        worklist::consistent(s.work, config::needed_modules(s.config)),
    ensures
        s.next_module().work.extracted.contains(module) ==> s.work.extracted.contains(module),
{
    worklist::lemma_next(s.work, config::needed_modules(s.config));
    modules::law_by_name_sorts(s.work.extracted);
    modules::lemma_same_members(
        modules::by_name(s.work.extracted),
        s.work.extracted,
        module,
    );
}

/// A module that was extracted by a step had been extracted before, or is the one that was
/// worked on.
proof fn lemma_extracted_members(
    s: state::State,
    reply: protocol::Reply,
    module: modules::Module,
)
    requires
        state::well_formed(s),
        state::acceptable(s, reply),
        state::advance(s, reply).work.extracted.contains(module),
    ensures
        s.work.extracted.contains(module) || (s.stage is QueryDeps && module == modules::Module {
            name: s.current(),
            path: s.stored_module(),
            dependencies: process::reported_deps(output_in(reply)),
        }),
{
    match s.stage {
        Stage::QueryDeps => {
            let dependencies = process::reported_deps(output_in(reply));
            let new = modules::Module {
                name: s.current(),
                path: s.stored_module(),
                dependencies,
            };
            let told = s.telling(
                protocol::Told::ModuleStored { name: s.current(), dependencies },
            );
            let mid = state::State { work: worklist::after_extracting(s.work, new), ..told };
            worklist::lemma_extracting(s.work, config::needed_modules(s.config), new);
            lemma_next_module_members(mid, module);
            let i = choose|i: int|
                0 <= i < mid.work.extracted.len() && mid.work.extracted[i] == module;
            if i < s.work.extracted.len() {
                assert(s.work.extracted[i] == module);
            }
        },
        Stage::CreateModulesDir => {
            lemma_next_module_members(s.telling(protocol::Told::ExtractingModules), module);
        },
        Stage::ListModules => {
            if let protocol::Reply::Listed { items } = reply {
                if let Some(version) = layout::first_dir(items) {
                    lemma_next_module_members(
                        state::State { version, ..s }.telling(protocol::Told::ExtractingModules),
                        module,
                    );
                }
            }
        },
        Stage::LocateModule => {
            lemma_next_module_members(
                s.telling(protocol::Told::ModuleMissing { name: s.current() }),
                module,
            );
        },
        _ => {},
    }
}

/// A step past the point `n` is a reply to the given request.
spec fn passes(
    s: state::State,
    reply: protocol::Reply,
    next: state::State,
    n: int,
    ask: protocol::Ask,
) -> bool {
    progress(s.stage) <= n < progress(next.stage) ==> reply is Done && state::pending_request(s)
        == ask
}

/// What a step from `s` to `next` does to files that are not modules.
spec fn file_facts(s: state::State, reply: protocol::Reply, next: state::State) -> bool {
    &&& s.failure is None
    &&& next.rpm_path == s.rpm_path
    &&& next.output_dir == s.output_dir
    &&& next.arch == s.arch
    &&& progress(s.stage) <= progress(next.stage)
    &&& passes(s, reply, next, 0, protocol::Ask::CreateDir { path: s.output_dir })
    &&& next.stage is CleanTempDir ==> {
        &&& state::pending_request(s) == (protocol::Ask::Exists { path: s.temp_dir() })
        &&& reply == (protocol::Reply::Answer { yes: true })
    }
    &&& progress(s.stage) <= 2 < progress(next.stage) ==> {
        ||| state::pending_request(s) == (protocol::Ask::Exists { path: s.temp_dir() }) && reply == (
        protocol::Reply::Answer { yes: false })
        ||| s.stage is CleanTempDir && state::pending_request(s) == (protocol::Ask::RemoveDir {
            path: s.temp_dir(),
        }) && reply is Done
    }
    &&& passes(s, reply, next, 3, protocol::Ask::CreateDir { path: s.temp_dir() })
    &&& next.stage is SpawnCpio ==> {
        &&& state::pending_request(s) == (protocol::Ask::Run {
            program: "rpm2cpio"@,
            args: seq![s.rpm_path],
        })
        &&& reply matches protocol::Reply::Ended { output } && output.success && output.stdout
            == next.payload
    }
    &&& next.stage is FeedCpio ==> s.stage is SpawnCpio && next.payload == s.payload
    &&& passes(s, reply, next, 5, unpacker_request(s.temp_dir()))
    &&& progress(s.stage) <= 6 < progress(next.stage) ==> s.stage is FeedCpio
    &&& passes(s, reply, next, 6, protocol::Ask::Feed { input: s.payload })
    &&& progress(s.stage) <= 7 < progress(next.stage) ==> {
        &&& state::pending_request(s) is Wait
        &&& reply matches protocol::Reply::Ended { output } && output.success
    }
    &&& next.stage matches Stage::ProbeFirst(file) ==> {
        &&& state::pending_request(s) == (protocol::Ask::List {
            path: layout::modules_base_of(s.temp_dir()),
        })
        &&& reply matches protocol::Reply::Listed { items } && layout::first_dir(items) == Some(
            next.version,
        )
    }
    &&& next.stage matches Stage::ProbeSecond(file) ==> {
        &&& s.stage == Stage::ProbeFirst(file)
        &&& next.version == s.version
        &&& state::pending_request(s) == (protocol::Ask::Exists {
            path: layout::first_place(file, s.temp_dir(), s.version),
        })
        &&& reply == (protocol::Reply::Answer { yes: false })
    }
    &&& next.stage matches Stage::StoreFile(file) ==> {
        &&& state::pending_request(s) == (protocol::Ask::Exists { path: next.source })
        &&& reply == (protocol::Reply::Answer { yes: true })
        &&& {
            ||| s.stage == Stage::ProbeFirst(file) && next.source == layout::first_place(
                file,
                s.temp_dir(),
                s.version,
            )
            ||| s.stage == Stage::ProbeSecond(file) && next.source == layout::second_place(
                file,
                s.temp_dir(),
                s.version,
            )
        }
    }
    &&& progress(s.stage) <= 11 < progress(next.stage) ==> s.stage == Stage::StoreFile(
        KernelFile::Image,
    )
    &&& passes(
        s,
        reply,
        next,
        11,
        protocol::Ask::Copy { from: s.source, to: s.stored(KernelFile::Image) },
    )
    &&& progress(s.stage) <= 15 < progress(next.stage) ==> s.stage == Stage::StoreFile(
        KernelFile::Config,
    )
    &&& passes(
        s,
        reply,
        next,
        15,
        protocol::Ask::Copy { from: s.source, to: s.stored(KernelFile::Config) },
    )
    &&& progress(s.stage) <= 16 < progress(next.stage) ==> {
        &&& state::pending_request(s) == (protocol::Ask::Read {
            path: s.stored(KernelFile::Config),
        })
        &&& reply matches protocol::Reply::Contents { bytes, error } && config::parsed_config(
            bytes,
            error,
        ) == Ok::<Map<ConfigOption, ConfigValue>, failure::Failure>(next.config)
    }
    &&& progress(s.stage) > 16 ==> next.config == s.config
    &&& passes(s, reply, next, 20, protocol::Ask::Create { path: s.manifest() })
    &&& passes(
        s,
        reply,
        next,
        21,
        protocol::Ask::Append { text: manifest::manifest_text(s.config, s.work.extracted) },
    )
    &&& progress(next.stage) > 22 ==> state::pending_request(s) == (protocol::Ask::RemoveDir {
        path: s.temp_dir(),
    })
    &&& progress(s.stage) >= 20 ==> next.work == s.work
}

#[verifier::spinoff_prover]
#[verifier::rlimit(60)]
proof fn lemma_file_facts(s: state::State, reply: protocol::Reply)
    requires
        state::well_formed(s),
        state::acceptable(s, reply),
        state::advance(s, reply).failure is None,
    ensures
        file_facts(s, reply, state::advance(s, reply)),
{
}

proof fn lemma_history_of_package(
    start: state::State,
    replies: Seq<protocol::Reply>,
    reply: protocol::Reply,
)
    requires
        history(start, replies),
        file_facts(run(start, replies), reply, run(start, replies.push(reply))),
    ensures
        ({
            let all = replies.push(reply);
            let next = run(start, all);
            &&& (next.stage is SpawnCpio || next.stage is FeedCpio) ==> archived(
                start,
                all,
                next.rpm_path,
                next.payload,
            )
            &&& progress(next.stage) > 5 ==> carried_out(
                start,
                all,
                unpacker_request(next.temp_dir()),
            )
            &&& progress(next.stage) > 6 ==> handed_over(start, all, next.rpm_path)
            &&& progress(next.stage) > 7 ==> unpacking_succeeded(start, all)
        }),
{
    let all = replies.push(reply);
    let s = run(start, replies);
    let next = run(start, all);
    lemma_happens_now(start, replies, reply);
    if s.stage is SpawnCpio || s.stage is FeedCpio {
        lemma_archived_stays(start, replies, reply, s.rpm_path, s.payload);
    }
    if next.stage is SpawnCpio {
        if let protocol::Reply::Ended { output } = reply {
            assert(happened(
                start,
                all,
                protocol::Ask::Run { program: "rpm2cpio"@, args: seq![s.rpm_path] },
                protocol::Reply::Ended { output },
            ));
        }
    }
    if progress(s.stage) > 5 {
        lemma_happened_stays(
            start,
            replies,
            reply,
            unpacker_request(s.temp_dir()),
            protocol::Reply::Done,
        );
    }
    if progress(s.stage) > 6 {
        lemma_handed_over_stays(start, replies, reply, s.rpm_path);
    } else if progress(next.stage) > 6 {
        assert(carried_out(start, all, protocol::Ask::Feed { input: s.payload }));
    }
    if progress(s.stage) > 7 {
        lemma_unpacking_stays(start, replies, reply);
    } else if progress(next.stage) > 7 {
        if let protocol::Reply::Ended { output } = reply {
            assert(happened(
                start,
                all,
                protocol::Ask::Wait,
                protocol::Reply::Ended { output },
            ));
        }
    }
}

#[verifier::spinoff_prover]
#[verifier::rlimit(60)]
proof fn lemma_history_of_kernel_files(
    start: state::State,
    replies: Seq<protocol::Reply>,
    reply: protocol::Reply,
)
    requires
        history(start, replies),
        file_facts(run(start, replies), reply, run(start, replies.push(reply))),
    ensures
        ({
            let all = replies.push(reply);
            let next = run(start, all);
            let dir = next.temp_dir();
            &&& (next.stage is ProbeFirst || next.stage is ProbeSecond) ==> version_listed(
                start,
                all,
                dir,
                next.version,
            )
            &&& next.stage matches Stage::ProbeSecond(file) ==> probed(
                start,
                all,
                layout::first_place(file, dir, next.version),
                false,
            )
            &&& next.stage matches Stage::StoreFile(file) ==> located(
                start,
                all,
                file,
                dir,
                next.source,
            )
            &&& progress(next.stage) > 11 ==> file_stored(
                start,
                all,
                KernelFile::Image,
                dir,
                next.stored(KernelFile::Image),
            )
            &&& progress(next.stage) > 15 ==> file_stored(
                start,
                all,
                KernelFile::Config,
                dir,
                next.stored(KernelFile::Config),
            )
        }),
{
    let all = replies.push(reply);
    let s = run(start, replies);
    let next = run(start, all);
    let dir = s.temp_dir();
    lemma_happens_now(start, replies, reply);
    if s.stage is ProbeFirst || s.stage is ProbeSecond {
        lemma_version_stays(start, replies, reply, dir, s.version);
    }
    if let Stage::ProbeSecond(file) = s.stage {
        lemma_probed_stays(
            start,
            replies,
            reply,
            layout::first_place(file, dir, s.version),
            false,
        );
    }
    if let Stage::StoreFile(file) = s.stage {
        lemma_located_stays(start, replies, reply, file, dir, s.source);
    }
    if next.stage is ProbeFirst {
        if let protocol::Reply::Listed { items } = reply {
            assert(happened(
                start,
                all,
                protocol::Ask::List { path: layout::modules_base_of(dir) },
                protocol::Reply::Listed { items },
            ));
        }
    }
    if let Stage::StoreFile(file) = next.stage {
        assert(probed(start, all, next.source, true));
        assert(located_for(start, all, file, dir, s.version, next.source));
    }
    let image = s.stored(KernelFile::Image);
    let config = s.stored(KernelFile::Config);
    if progress(s.stage) > 11 {
        lemma_file_stored_stays(start, replies, reply, KernelFile::Image, dir, image);
    } else if progress(next.stage) > 11 {
        assert(carried_out(start, all, protocol::Ask::Copy { from: s.source, to: image }));
    }
    if progress(s.stage) > 15 {
        lemma_file_stored_stays(start, replies, reply, KernelFile::Config, dir, config);
    } else if progress(next.stage) > 15 {
        assert(carried_out(start, all, protocol::Ask::Copy { from: s.source, to: config }));
    }
}

#[verifier::spinoff_prover]
#[verifier::rlimit(60)]
proof fn lemma_history_of_files(
    start: state::State,
    replies: Seq<protocol::Reply>,
    reply: protocol::Reply,
)
    requires
        history(start, replies),
        file_facts(run(start, replies), reply, run(start, replies.push(reply))),
    ensures
        files_history(start, replies.push(reply)),
{
    let all = replies.push(reply);
    assert(all.drop_last() =~= replies);
    let s = run(start, replies);
    let next = run(start, all);
    lemma_happens_now(start, replies, reply);
    let done = protocol::Reply::Done;
    let n = progress(s.stage);
    if n > 0 {
        lemma_happened_stays(
            start,
            replies,
            reply,
            protocol::Ask::CreateDir { path: s.output_dir },
            done,
        );
    }
    if s.stage is CleanTempDir {
        lemma_probed_stays(start, replies, reply, s.temp_dir(), true);
    }
    if n > 2 {
        if probed(start, replies, s.temp_dir(), false) {
            lemma_probed_stays(start, replies, reply, s.temp_dir(), false);
        } else {
            lemma_probed_stays(start, replies, reply, s.temp_dir(), true);
            lemma_happened_stays(
                start,
                replies,
                reply,
                protocol::Ask::RemoveDir { path: s.temp_dir() },
                done,
            );
        }
    }
    if n > 3 {
        lemma_happened_stays(
            start,
            replies,
            reply,
            protocol::Ask::CreateDir { path: s.temp_dir() },
            done,
        );
    }
    lemma_history_of_package(start, replies, reply);
    lemma_history_of_kernel_files(start, replies, reply);
    if n > 16 {
        lemma_config_read_stays(
            start,
            replies,
            reply,
            s.stored(KernelFile::Config),
            s.config,
        );
    } else if progress(next.stage) > 16 {
        if let protocol::Reply::Contents { bytes, error } = reply {
            assert(happened(
                start,
                all,
                protocol::Ask::Read { path: s.stored(KernelFile::Config) },
                protocol::Reply::Contents { bytes, error },
            ));
        }
    }
    if n > 20 {
        lemma_happened_stays(
            start,
            replies,
            reply,
            protocol::Ask::Create { path: s.manifest() },
            done,
        );
    }
    if n > 21 {
        lemma_happened_stays(
            start,
            replies,
            reply,
            protocol::Ask::Append { text: manifest::manifest_text(s.config, s.work.extracted) },
            done,
        );
    }
}

/// The reply is a walk of the directory that is searched, and holds the result for the module.
spec fn searched(
    s: state::State,
    reply: protocol::Reply,
    name: Seq<char>,
    result: Option<Seq<u8>>,
) -> bool {
    let dir = layout::version_dir_of(s.temp_dir(), s.version);
    &&& s.stage is LocateModule
    &&& state::pending_request(s) == (protocol::Ask::Walk { path: dir })
    &&& reply matches protocol::Reply::Walked { listing } && tree::module_file(dir, listing, name)
        == result
}

/// What a step from `s` to `next` does to the module that is worked on.
spec fn module_facts(s: state::State, reply: protocol::Reply, next: state::State) -> bool {
    &&& s.failure is None
    &&& next.output_dir == s.output_dir
    &&& among_modules(next.stage) ==> {
        ||| among_modules(s.stage) && next.version == s.version
        ||| state::pending_request(s) == (protocol::Ask::List {
            path: layout::modules_base_of(s.temp_dir()),
        }) && (reply matches protocol::Reply::Listed { items } && layout::first_dir(items) == Some(
            next.version,
        ))
    }
    &&& (state::at_module(next.stage) || next.work.extracted.len() > 0) ==> {
        ||| state::at_module(s.stage) || s.work.extracted.len() > 0
        ||| reply is Done && state::pending_request(s) == (protocol::Ask::CreateDir {
            path: s.modules_dir(),
        })
    }
    &&& next.stage matches Stage::Unpack(packing) ==> {
        &&& packing == layout::packing_of(next.source)
        &&& searched(s, reply, next.current(), Some(next.source))
    }
    &&& next.stage is WriteModule ==> {
        &&& s.stage is Unpack
        &&& next.source == s.source
        &&& next.work == s.work
        &&& s.stage == Stage::Unpack(layout::packing_of(s.source)) ==> {
            &&& !(layout::packing_of(s.source) is Plain)
            &&& state::pending_request(s) == unpack_request(
                s.source,
                layout::packing_of(s.source),
            )
            &&& reply matches protocol::Reply::Ended { output } && output.success && output.stdout
                == next.payload
        }
    }
    &&& next.stage is QueryDeps ==> {
        &&& next.source == s.source
        &&& next.work == s.work
        &&& next.stored_module() == s.stored_module()
        &&& reply is Done
        &&& s.stage is WriteModule || s.stage == Stage::Unpack(Packing::Plain)
        &&& s.stage is WriteModule ==> state::pending_request(s) == (protocol::Ask::Write {
            path: s.stored_module(),
            contents: s.payload,
        })
        &&& s.stage is Unpack ==> state::pending_request(s) == (protocol::Ask::Copy {
            from: s.source,
            to: s.stored_module(),
        })
    }
    &&& s.stage is QueryDeps ==> state::pending_request(s) == deps_request(s.stored_module())
    &&& forall|module: modules::Module| #[trigger]
        next.work.extracted.contains(module) ==> s.work.extracted.contains(module) || (
        s.stage is QueryDeps && module == modules::Module {
            name: s.current(),
            path: s.stored_module(),
            dependencies: process::reported_deps(output_in(reply)),
        })
    &&& forall|name: Seq<char>| #[trigger]
        state::told_missing(next, name) ==> state::told_missing(s, name) || searched(
            s,
            reply,
            name,
            None,
        )
}

proof fn lemma_missing_is_new(s: state::State, reply: protocol::Reply, name: Seq<char>)
    requires
        state::acceptable(s, reply),
        state::told_missing(state::advance(s, reply), name),
        !state::told_missing(s, name),
    ensures
        searched(s, reply, name, None),
{
    let next = state::advance(s, reply);
    let notice = protocol::Told::ModuleMissing { name };
    let i = choose|i: int| 0 <= i < next.log.len() && next.log[i] == notice;
    if i < s.log.len() {
        assert(s.log[i] == notice);
    }
}

#[verifier::spinoff_prover]
#[verifier::rlimit(60)]
proof fn lemma_module_facts(s: state::State, reply: protocol::Reply)
    requires
        state::well_formed(s),
        state::acceptable(s, reply),
        state::advance(s, reply).failure is None,
    ensures
        module_facts(s, reply, state::advance(s, reply)),
{
    let next = state::advance(s, reply);
    assert forall|module: modules::Module| #[trigger]
        next.work.extracted.contains(module) implies s.work.extracted.contains(module) || (
    s.stage is QueryDeps && module == modules::Module {
        name: s.current(),
        path: s.stored_module(),
        dependencies: process::reported_deps(output_in(reply)),
    }) by {
        lemma_extracted_members(s, reply, module);
    }
    assert forall|name: Seq<char>| #[trigger]
        state::told_missing(next, name) && !state::told_missing(s, name) implies searched(
        s,
        reply,
        name,
        None,
    ) by {
        lemma_missing_is_new(s, reply, name);
    }
    if next.work.extracted.len() > 0 {
        assert(next.work.extracted.contains(next.work.extracted[0]));
    }
}

proof fn lemma_looked_for_now(
    start: state::State,
    replies: Seq<protocol::Reply>,
    reply: protocol::Reply,
    name: Seq<char>,
    result: Option<Seq<u8>>,
)
    requires
        version_listed(
            start,
            replies,
            run(start, replies).temp_dir(),
            run(start, replies).version,
        ),
        searched(run(start, replies), reply, name, result),
    ensures
        looked_for(start, replies.push(reply), run(start, replies).temp_dir(), name, result),
{
    let s = run(start, replies);
    lemma_happens_now(start, replies, reply);
    lemma_version_stays(start, replies, reply, s.temp_dir(), s.version);
    if let protocol::Reply::Walked { listing } = reply {
        assert(walked(start, replies.push(reply), s.temp_dir(), s.version, listing));
    }
}

#[verifier::spinoff_prover]
#[verifier::rlimit(60)]
proof fn lemma_history_of_modules(
    start: state::State,
    replies: Seq<protocol::Reply>,
    reply: protocol::Reply,
)
    requires
        history(start, replies),
        module_facts(run(start, replies), reply, run(start, replies.push(reply))),
    ensures
        modules_history(start, replies.push(reply)),
{
    let all = replies.push(reply);
    let s = run(start, replies);
    let next = run(start, all);
    lemma_happens_now(start, replies, reply);
    if among_modules(s.stage) {
        lemma_version_stays(start, replies, reply, s.temp_dir(), s.version);
    }
    if state::at_module(s.stage) || s.work.extracted.len() > 0 {
        lemma_happened_stays(
            start,
            replies,
            reply,
            protocol::Ask::CreateDir { path: s.modules_dir() },
            protocol::Reply::Done,
        );
    }
    if s.stage is Unpack || s.stage is WriteModule || s.stage is QueryDeps {
        lemma_looked_for_stays(
            start,
            replies,
            reply,
            s.temp_dir(),
            s.current(),
            Some(s.source),
        );
    }
    if next.stage is Unpack {
        lemma_looked_for_now(start, replies, reply, next.current(), Some(next.source));
    }
    if next.stage is WriteModule {
        if let protocol::Reply::Ended { output } = reply {
            assert(happened(
                start,
                all,
                unpack_request(s.source, layout::packing_of(s.source)),
                protocol::Reply::Ended { output },
            ));
        }
        assert(unpacked(start, all, next.source, next.payload));
    }
    if next.stage is QueryDeps {
        if s.stage is WriteModule {
            lemma_unpacked_stays(start, replies, reply, s.source, s.payload);
            assert(carried_out(
                start,
                all,
                protocol::Ask::Write { path: s.stored_module(), contents: s.payload },
            ));
        }
        assert(stored_at(start, all, next.source, next.stored_module()));
    }
    assert forall|module: modules::Module| #[trigger]
        next.work.extracted.contains(module) implies made(
        start,
        all,
        next.output_dir,
        module,
    ) by {
        if s.work.extracted.contains(module) {
            lemma_made_stays(start, replies, reply, s.output_dir, module);
        } else {
            lemma_stored_stays(start, replies, reply, s.source, s.stored_module());
            assert(happened(start, all, deps_request(module.path), reply));
            assert(made_from(start, all, s.output_dir, module, s.source));
        }
    }
    assert forall|name: Seq<char>| #[trigger] state::told_missing(next, name) implies looked_for(
        start,
        all,
        next.temp_dir(),
        name,
        None,
    ) by {
        if state::told_missing(s, name) {
            lemma_looked_for_stays(start, replies, reply, s.temp_dir(), name, None);
        } else {
            lemma_looked_for_now(start, replies, reply, name, None);
        }
    }
}

/// Every extraction is well-formed and has the history that its stage asks for.
#[verifier::spinoff_prover]
#[verifier::rlimit(60)]
pub proof fn law_runs(
    rpm_path: Seq<u8>,
    output_dir: Seq<u8>,
    arch: Seq<char>,
    replies: Seq<protocol::Reply>,
)
    requires
        legal(state::initial(rpm_path, output_dir, arch), replies),
    ensures
        state::well_formed(run(state::initial(rpm_path, output_dir, arch), replies)),
        history(state::initial(rpm_path, output_dir, arch), replies),
    decreases replies.len(),
{
    let start = state::initial(rpm_path, output_dir, arch);
    if replies.len() == 0 {
        reveal(run);
        state::lemma_initial_well_formed(rpm_path, output_dir, arch);
    } else {
        let before = replies.drop_last();
        let reply = replies.last();
        assert(replies =~= before.push(reply));
        law_runs(rpm_path, output_dir, arch, before);
        lemma_run_push(start, before, reply);
        let s = run(start, before);
        state::law_step_keeps_well_formed(s, reply);
        if run(start, replies).failure is None {
            lemma_file_facts(s, reply);
            lemma_module_facts(s, reply);
            lemma_history_of_files(start, before, reply);
            lemma_history_of_modules(start, before, reply);
        }
    }
}

} // verus!
