//! What the end of an extraction tells of its course.

use vstd::prelude::*;

use crate::config;
use crate::layout;
use crate::layout::KernelFile;
use crate::manifest;
use crate::modules;
use crate::path;
use crate::process;
use crate::protocol;
use crate::runs;
use crate::state;
use crate::state::Stage;
use crate::tree;
use crate::worklist;

verus! {

/// The task stays what it was.
pub proof fn law_runs_keep_task(
    rpm_path: Seq<u8>,
    output_dir: Seq<u8>,
    arch: Seq<char>,
    replies: Seq<protocol::Reply>,
)
    ensures
        runs::run(state::initial(rpm_path, output_dir, arch), replies).rpm_path == rpm_path,
        runs::run(state::initial(rpm_path, output_dir, arch), replies).output_dir == output_dir,
        runs::run(state::initial(rpm_path, output_dir, arch), replies).arch == arch,
    decreases replies.len(),
{
    let start = state::initial(rpm_path, output_dir, arch);
    if replies.len() == 0 {
        reveal(runs::run);
    } else {
        let before = replies.drop_last();
        assert(replies =~= before.push(replies.last()));
        law_runs_keep_task(rpm_path, output_dir, arch, before);
        runs::lemma_run_push(start, before, replies.last());
        runs::law_step_keeps_task_and_log(runs::run(start, before), replies.last());
    }
}

/// What a success means. The package was unpacked into the temporary directory, of which nothing
/// was left from before. The kernel
/// image and the kernel config were found in it and copied to the paths that are returned. Each
/// returned module was found in it, stored at the path that is returned, and asked for its
/// dependencies. The manifest was written, for the config that was stored and the modules that
/// are returned; last of all the temporary directory was given up and the user told of the results.
#[verifier::spinoff_prover]
#[verifier::rlimit(60)]
pub proof fn law_success(
    rpm_path: Seq<u8>,
    output_dir: Seq<u8>,
    arch: Seq<char>,
    replies: Seq<protocol::Reply>,
)
    requires
        runs::legal(state::initial(rpm_path, output_dir, arch), replies),
        runs::run(state::initial(rpm_path, output_dir, arch), replies).stage is Finished,
        runs::run(state::initial(rpm_path, output_dir, arch), replies).failure is None,
    ensures
        ({
            let start = state::initial(rpm_path, output_dir, arch);
            let end = runs::run(start, replies);
            let info = end.info();
            let temp_dir = layout::temp_dir_of(output_dir);
            &&& runs::carried_out(start, replies, protocol::Ask::CreateDir { path: output_dir })
            &&& runs::cleared(start, replies, temp_dir)
            &&& runs::carried_out(start, replies, protocol::Ask::CreateDir { path: temp_dir })
            &&& runs::carried_out(start, replies, runs::unpacker_request(temp_dir))
            &&& runs::handed_over(start, replies, rpm_path)
            &&& runs::unpacking_succeeded(start, replies)
            &&& info.kernel_image == path::below_text(output_dir, layout::image_name_for(arch))
            &&& runs::file_stored(start, replies, KernelFile::Image, temp_dir, info.kernel_image)
            &&& info.kernel_config == path::below_text(output_dir, "config"@)
            &&& runs::file_stored(start, replies, KernelFile::Config, temp_dir, info.kernel_config)
            &&& runs::config_read(start, replies, info.kernel_config, end.config)
            &&& forall|module: modules::Module| #[trigger]
                info.modules.contains(module) ==> runs::made(start, replies, output_dir, module)
            &&& info.modules.len() > 0 ==> runs::carried_out(
                start,
                replies,
                protocol::Ask::CreateDir { path: path::below_text(output_dir, "modules"@) },
            )
            &&& info.modules_manifest == path::below_text(output_dir, "modules.txt"@)
            &&& runs::carried_out(start, replies, protocol::Ask::Create { path: info.modules_manifest })
            &&& runs::carried_out(
                start,
                replies,
                protocol::Ask::Append {
                    text: manifest::manifest_text(end.config, info.modules),
                },
            )
            &&& replies.len() > 0
            &&& state::pending_request(runs::run(start, replies.drop_last()))
                == protocol::Ask::RemoveDir { path: temp_dir }
            &&& end.log.last() == protocol::Told::Complete {
                image: info.kernel_image,
                config: info.kernel_config,
                manifest: info.modules_manifest,
                modules_dir: path::below_text(output_dir, "modules"@),
                total: info.modules.len(),
            }
        }),
{
    runs::law_runs(rpm_path, output_dir, arch, replies);
    law_runs_keep_task(rpm_path, output_dir, arch, replies);
    let before = replies.drop_last();
    assert(replies =~= before.push(replies.last()));
    runs::lemma_run_push(state::initial(rpm_path, output_dir, arch), before, replies.last());
}

/// Every listing of the kernel versions gives the same one.
pub open spec fn listings_agree(replies: Seq<protocol::Reply>) -> bool {
    forall|i: int, j: int|
        0 <= i < replies.len() && 0 <= j < replies.len() ==> (#[trigger] replies[i] matches
            protocol::Reply::Listed { items: a } ==> (#[trigger] replies[j] matches
            protocol::Reply::Listed { items: b } ==> layout::first_dir(a) == layout::first_dir(b)))
}

/// Where the listings agree, there is one version.
proof fn lemma_one_version(
    start: state::State,
    replies: Seq<protocol::Reply>,
    extract_dir: Seq<u8>,
    a: Seq<u8>,
    b: Seq<u8>,
)
    requires
        listings_agree(replies),
        runs::version_listed(start, replies, extract_dir, a),
        runs::version_listed(start, replies, extract_dir, b),
    ensures
        a == b,
{
    let ask = protocol::Ask::List { path: layout::modules_base_of(extract_dir) };
    let first = choose|items: Seq<Option<layout::Item>>| #[trigger]
        runs::happened(start, replies, ask, protocol::Reply::Listed { items })
            && layout::first_dir(items) == Some(a);
    let second = choose|items: Seq<Option<layout::Item>>| #[trigger]
        runs::happened(start, replies, ask, protocol::Reply::Listed { items })
            && layout::first_dir(items) == Some(b);
    let i = choose|i: int|
        0 <= i < replies.len() && state::pending_request(
            runs::run(start, #[trigger] replies.take(i)),
        ) == ask && replies[i] == (protocol::Reply::Listed { items: first });
    let j = choose|j: int|
        0 <= j < replies.len() && state::pending_request(
            runs::run(start, #[trigger] replies.take(j)),
        ) == ask && replies[j] == (protocol::Reply::Listed { items: second });
    assert(replies[i] == (protocol::Reply::Listed { items: first }));
    assert(replies[j] == (protocol::Reply::Listed { items: second }));
}

/// Where every listing of the kernel versions gives the same one, a success is of one version:
/// the kernel image, the kernel config and all modules were found for it.
#[verifier::spinoff_prover]
#[verifier::rlimit(60)]
pub proof fn law_success_is_of_one_version(
    rpm_path: Seq<u8>,
    output_dir: Seq<u8>,
    arch: Seq<char>,
    replies: Seq<protocol::Reply>,
)
    requires
        runs::legal(state::initial(rpm_path, output_dir, arch), replies),
        runs::run(state::initial(rpm_path, output_dir, arch), replies).stage is Finished,
        runs::run(state::initial(rpm_path, output_dir, arch), replies).failure is None,
        listings_agree(replies),
    ensures
        ({
            let start = state::initial(rpm_path, output_dir, arch);
            let info = runs::run(start, replies).info();
            let temp_dir = layout::temp_dir_of(output_dir);
            exists|version: Seq<u8>| #[trigger]
                runs::version_listed(start, replies, temp_dir, version) && runs::file_stored_for(
                    start,
                    replies,
                    KernelFile::Image,
                    temp_dir,
                    version,
                    info.kernel_image,
                ) && runs::file_stored_for(
                    start,
                    replies,
                    KernelFile::Config,
                    temp_dir,
                    version,
                    info.kernel_config,
                ) && (forall|module: modules::Module| #[trigger]
                    info.modules.contains(module) ==> runs::made_for(
                        start,
                        replies,
                        output_dir,
                        version,
                        module,
                    ))
        }),
{
    let start = state::initial(rpm_path, output_dir, arch);
    let info = runs::run(start, replies).info();
    let temp_dir = layout::temp_dir_of(output_dir);
    law_success(rpm_path, output_dir, arch, replies);
    let version = lemma_stored_for_some(
        start,
        replies,
        KernelFile::Image,
        temp_dir,
        info.kernel_image,
    );
    let other = lemma_stored_for_some(
        start,
        replies,
        KernelFile::Config,
        temp_dir,
        info.kernel_config,
    );
    lemma_one_version(start, replies, temp_dir, version, other);
    assert forall|module: modules::Module| #[trigger]
        info.modules.contains(module) implies runs::made_for(
        start,
        replies,
        output_dir,
        version,
        module,
    ) by {
        assert(runs::made(start, replies, output_dir, module));
        let source = choose|source: Seq<u8>| #[trigger]
            runs::made_from(start, replies, output_dir, module, source);
        let (v, listing) = choose|v: Seq<u8>, listing: tree::Listing| #[trigger]
            runs::walked(start, replies, temp_dir, v, listing) && tree::module_file(
                layout::version_dir_of(temp_dir, v),
                listing,
                module.name,
            ) == Some(source);
        lemma_one_version(start, replies, temp_dir, version, v);
        assert(runs::walked(start, replies, temp_dir, version, listing));
        assert(runs::found_for(start, replies, temp_dir, version, module.name, source));
        assert(runs::made_from(start, replies, output_dir, module, source));
    }
}

/// A kernel file that was stored was found for some version.
proof fn lemma_stored_for_some(
    start: state::State,
    replies: Seq<protocol::Reply>,
    file: KernelFile,
    extract_dir: Seq<u8>,
    to: Seq<u8>,
) -> (version: Seq<u8>)
    requires
        runs::file_stored(start, replies, file, extract_dir, to),
    ensures
        runs::version_listed(start, replies, extract_dir, version),
        runs::file_stored_for(start, replies, file, extract_dir, version, to),
{
    let from = choose|from: Seq<u8>| #[trigger]
        runs::carried_out(start, replies, protocol::Ask::Copy { from, to }) && runs::located(
            start,
            replies,
            file,
            extract_dir,
            from,
        );
    let version = choose|version: Seq<u8>| #[trigger]
        runs::located_for(start, replies, file, extract_dir, version, from);
    assert(runs::carried_out(start, replies, protocol::Ask::Copy { from, to }));
    version
}

/// Which modules a success returns: no two of one name, in the order of their names, and only
/// such as the needed modules lead to through dependencies. Of all that they lead to, each is
/// returned, or was looked for and reported missing.
#[verifier::spinoff_prover]
#[verifier::rlimit(60)]
pub proof fn law_modules_of_success(
    rpm_path: Seq<u8>,
    output_dir: Seq<u8>,
    arch: Seq<char>,
    replies: Seq<protocol::Reply>,
    name: Seq<char>,
)
    requires
        runs::legal(state::initial(rpm_path, output_dir, arch), replies),
        runs::run(state::initial(rpm_path, output_dir, arch), replies).stage is Finished,
        runs::run(state::initial(rpm_path, output_dir, arch), replies).failure is None,
    ensures
        ({
            let start = state::initial(rpm_path, output_dir, arch);
            let end = runs::run(start, replies);
            let list = end.info().modules;
            let needed = config::needed_modules(end.config);
            &&& modules::distinct_names(list)
            &&& modules::sorted_by_name(list)
            &&& modules::has_named(list, name) ==> worklist::reached(needed, list, name)
            &&& worklist::reached(needed, list, name) ==> modules::has_named(list, name) || (
            state::told_missing(end, name) && runs::looked_for(
                start,
                replies,
                layout::temp_dir_of(output_dir),
                name,
                None,
            ))
        }),
{
    runs::law_runs(rpm_path, output_dir, arch, replies);
    law_runs_keep_task(rpm_path, output_dir, arch, replies);
    let start = state::initial(rpm_path, output_dir, arch);
    let end = runs::run(start, replies);
    let list = end.work.extracted;
    worklist::law_all_reached_are_processed(end.work, config::needed_modules(end.config), name);
    if modules::has_named(list, name) {
        let i = choose|i: int| 0 <= i < list.len() && (#[trigger] list[i]).name == name;
        assert(end.work.processed.contains(list[i].name));
    }
}

/// A measure that every step raises.
spec fn effort(s: state::State) -> int {
    runs::progress(s.stage) + 4 * s.work.processed.len() + match s.stage {
        Stage::LocateModule => -4,
        Stage::Unpack(_) => -3,
        Stage::WriteModule => -2,
        Stage::QueryDeps => -1int,
        _ => 0,
    }
}

proof fn lemma_effort_of_next_module(s: state::State)
    requires
        worklist::consistent(s.work, config::needed_modules(s.config)),
    ensures
        effort(s.next_module()) >= 19 + 4 * s.work.processed.len(),
{
    worklist::lemma_next(s.work, config::needed_modules(s.config));
}

proof fn lemma_effort_rises(s: state::State, reply: protocol::Reply)
    requires
        state::well_formed(s),
        state::acceptable(s, reply),
    ensures
        effort(state::advance(s, reply)) > effort(s),
{
    match s.stage {
        Stage::QueryDeps => {
            let dependencies = process::reported_deps(runs::output_in(reply));
            let new = modules::Module {
                name: s.current(),
                path: s.stored_module(),
                dependencies,
            };
            let told = s.telling(
                protocol::Told::ModuleStored { name: s.current(), dependencies },
            );
            worklist::lemma_extracting(s.work, config::needed_modules(s.config), new);
            lemma_effort_of_next_module(
                state::State { work: worklist::after_extracting(s.work, new), ..told },
            );
        },
        Stage::CreateModulesDir => {
            lemma_effort_of_next_module(s.telling(protocol::Told::ExtractingModules));
        },
        Stage::ListModules => {
            if let protocol::Reply::Listed { items } = reply {
                if let Some(version) = layout::first_dir(items) {
                    lemma_effort_of_next_module(
                        state::State { version, ..s }.telling(protocol::Told::ExtractingModules),
                    );
                }
            }
        },
        Stage::LocateModule => {
            lemma_effort_of_next_module(
                s.telling(protocol::Told::ModuleMissing { name: s.current() }),
            );
        },
        _ => {},
    }
}

/// The modules that an extraction looks at bound its length: apart from the operations before
/// and after the modules, it asks for at most four for each of them, and it looks at none twice.
pub proof fn law_runs_are_bounded(
    rpm_path: Seq<u8>,
    output_dir: Seq<u8>,
    arch: Seq<char>,
    replies: Seq<protocol::Reply>,
)
    requires
        runs::legal(state::initial(rpm_path, output_dir, arch), replies),
    ensures
        ({
            let processed = runs::run(
                state::initial(rpm_path, output_dir, arch),
                replies,
            ).work.processed;
            &&& processed.no_duplicates()
            &&& replies.len() <= 23 + 4 * processed.len()
        }),
{
    runs::law_runs(rpm_path, output_dir, arch, replies);
    lemma_run_length(rpm_path, output_dir, arch, replies);
}

proof fn lemma_run_length(
    rpm_path: Seq<u8>,
    output_dir: Seq<u8>,
    arch: Seq<char>,
    replies: Seq<protocol::Reply>,
)
    requires
        runs::legal(state::initial(rpm_path, output_dir, arch), replies),
    ensures
        replies.len() <= effort(runs::run(state::initial(rpm_path, output_dir, arch), replies)),
    decreases replies.len(),
{
    let start = state::initial(rpm_path, output_dir, arch);
    if replies.len() == 0 {
        reveal(runs::run);
    } else {
        let before = replies.drop_last();
        assert(replies =~= before.push(replies.last()));
        lemma_run_length(rpm_path, output_dir, arch, before);
        runs::law_runs(rpm_path, output_dir, arch, before);
        runs::lemma_run_push(start, before, replies.last());
        lemma_effort_rises(runs::run(start, before), replies.last());
    }
}

/// The path at which carrying out a request changes something.
pub open spec fn changed_path(ask: protocol::Ask) -> Option<Seq<u8>> {
    match ask {
        protocol::Ask::CreateDir { path } => Some(path),
        protocol::Ask::RemoveDir { path } => Some(path),
        protocol::Ask::Spawn { dir, .. } => Some(dir),
        protocol::Ask::Copy { to, .. } => Some(to),
        protocol::Ask::Write { path, .. } => Some(path),
        protocol::Ask::Create { path } => Some(path),
        _ => None,
    }
}

/// The directories that were walked hold only names that a directory can hold.
pub open spec fn walks_are_plain(replies: Seq<protocol::Reply>) -> bool {
    forall|i: int|
        0 <= i < replies.len() ==> (#[trigger] replies[i] matches protocol::Reply::Walked {
            listing,
        } ==> tree::is_plain(listing))
}

/// The fixed names under which results are stored are names.
proof fn lemma_fixed_names(arch: Seq<char>)
    ensures
        path::is_plain_name(vstd::utf8::encode_utf8("_extract_temp"@)),
        path::is_plain_name(vstd::utf8::encode_utf8("config"@)),
        path::is_plain_name(vstd::utf8::encode_utf8("modules"@)),
        path::is_plain_name(vstd::utf8::encode_utf8("modules.txt"@)),
        path::is_plain_name(vstd::utf8::encode_utf8(layout::image_name_for(arch))),
{
    reveal_strlit("_extract_temp");
    reveal_strlit("config");
    reveal_strlit("modules");
    reveal_strlit("modules.txt");
    reveal_strlit("bzImage");
    reveal_strlit("Image");
    reveal_strlit("vmlinuz");
    path::lemma_plain_text("_extract_temp"@);
    path::lemma_plain_text("config"@);
    path::lemma_plain_text("modules"@);
    path::lemma_plain_text("modules.txt"@);
    path::lemma_plain_text(layout::image_name_for(arch));
}

/// Where the walks found only names that a directory can hold, every path at which an
/// extraction asks for a change is the output directory or lies in it.
#[verifier::spinoff_prover]
#[verifier::rlimit(60)]
pub proof fn law_changes_stay_inside(
    rpm_path: Seq<u8>,
    output_dir: Seq<u8>,
    arch: Seq<char>,
    replies: Seq<protocol::Reply>,
    path: Seq<u8>,
)
    requires
        runs::legal(state::initial(rpm_path, output_dir, arch), replies),
        walks_are_plain(replies),
        changed_path(
            state::pending_request(
                runs::run(state::initial(rpm_path, output_dir, arch), replies),
            ),
        ) == Some(path),
    ensures
        path == output_dir || path::is_inside(output_dir, path),
{
    let start = state::initial(rpm_path, output_dir, arch);
    let s = runs::run(start, replies);
    runs::law_runs(rpm_path, output_dir, arch, replies);
    law_runs_keep_task(rpm_path, output_dir, arch, replies);
    lemma_fixed_names(arch);
    path::law_name_is_inside(output_dir, vstd::utf8::encode_utf8("_extract_temp"@));
    path::law_name_is_inside(output_dir, vstd::utf8::encode_utf8("config"@));
    path::law_name_is_inside(output_dir, vstd::utf8::encode_utf8("modules"@));
    path::law_name_is_inside(output_dir, vstd::utf8::encode_utf8("modules.txt"@));
    path::law_name_is_inside(output_dir, vstd::utf8::encode_utf8(layout::image_name_for(arch)));
    if s.stage is Unpack || s.stage is WriteModule {
        let dir = s.temp_dir();
        let name = s.current();
        let (version, listing) = choose|version: Seq<u8>, listing: tree::Listing| #[trigger]
            runs::walked(start, replies, dir, version, listing) && tree::module_file(
                layout::version_dir_of(dir, version),
                listing,
                name,
            ) == Some(s.source);
        let ask = protocol::Ask::Walk { path: layout::version_dir_of(dir, version) };
        let reply = protocol::Reply::Walked { listing };
        assert(runs::happened(start, replies, ask, reply));
        let i = choose|i: int|
            0 <= i < replies.len() && state::pending_request(
                runs::run(start, #[trigger] replies.take(i)),
            ) == ask && replies[i] == reply;
        assert(replies[i] == reply);
        tree::lemma_module_name(layout::version_dir_of(dir, version), listing, name);
        path::law_names_are_inside(
            output_dir,
            vstd::utf8::encode_utf8("modules"@),
            vstd::utf8::encode_utf8(name + ".ko"@),
        );
    }
}

} // verus!
