//! The course of an extraction: which operation on the system comes next, and what follows
//! from its outcome.

use vstd::prelude::*;

use crate::config;
use crate::config::{ConfigOption, ConfigValue};
use crate::decode;
use crate::failure;
use crate::failure::ErrorKind;
use crate::layout;
use crate::layout::{KernelFile, Packing};
use crate::manifest;
use crate::modules;
use crate::path;
use crate::process;
use crate::protocol;
use crate::tree;
use crate::tree::Listing;
use crate::worklist;

verus! {

/// The operation that an extraction waits for.
#[derive(Debug, Clone, Copy, PartialEq, Eq, Structural)]
pub enum Stage {
    /// Creating the output directory.
    CreateOutputDir,
    /// Asking whether an earlier extraction left its temporary directory behind.
    CheckTempDir,
    /// Removing what an earlier extraction left behind.
    CleanTempDir,
    /// Creating the directory into which the package is unpacked.
    CreateExtractDir,
    /// Turning the package into an archive.
    RunRpm2cpio,
    /// Starting the program that unpacks the archive.
    SpawnCpio,
    /// Handing over the archive.
    FeedCpio,
    /// Waiting for the archive to be unpacked.
    WaitCpio,
    /// Listing the kernel versions, to find a kernel file.
    ListVersions(KernelFile),
    /// Asking for a kernel file in the directory of its version.
    ProbeFirst(KernelFile),
    /// Asking for a kernel file in the boot directory.
    ProbeSecond(KernelFile),
    /// Copying a kernel file to the output directory.
    StoreFile(KernelFile),
    /// Reading the kernel config.
    ReadConfig,
    /// Listing the kernel versions, to find the modules.
    ListModules,
    /// Creating the directory for the modules.
    CreateModulesDir,
    /// Walking the modules directory, to find a module.
    LocateModule,
    /// Unpacking or copying a module.
    Unpack(Packing),
    /// Storing an unpacked module.
    WriteModule,
    /// Asking for the dependencies of a module.
    QueryDeps,
    /// Creating the manifest.
    CreateManifest,
    /// Writing the manifest.
    WriteManifest,
    /// Removing the temporary directory.
    RemoveTempDir,
    /// Nothing more: the extraction has ended.
    Finished,
}

/// What an extraction has produced, as contracts speak of it.
pub struct Info {
    /// Path to kernel image (bzImage or Image; vmlinuz for other architectures)
    pub kernel_image: Seq<u8>,
    /// Path to kernel config
    pub kernel_config: Seq<u8>,
    /// List of extracted modules with their dependencies
    pub modules: Seq<modules::Module>,
    /// Path to modules manifest file
    pub modules_manifest: Seq<u8>,
}

/// Where an extraction stands.
#[verifier::ext_equal]
pub struct State {
    /// The package.
    pub rpm_path: Seq<u8>,
    /// The directory that the results go to.
    pub output_dir: Seq<u8>,
    /// The architecture that the kernel is for.
    pub arch: Seq<char>,
    /// The operation that is waited for.
    pub stage: Stage,
    /// The kernel version that was found last.
    pub version: Seq<u8>,
    /// The file that is to be copied or unpacked.
    pub source: Seq<u8>,
    /// The bytes that are to be handed on.
    pub payload: Seq<u8>,
    /// What the kernel config says.
    pub config: Map<ConfigOption, ConfigValue>,
    /// The modules.
    pub work: worklist::Work,
    /// What made the extraction fail.
    pub failure: Option<failure::Failure>,
    /// What the user was told.
    pub log: Seq<protocol::Told>,
}

impl State {
    /// The directory into which the package is unpacked.
    pub open spec fn temp_dir(self) -> Seq<u8> {
        layout::temp_dir_of(self.output_dir)
    }

    /// Where a kernel file is stored.
    pub open spec fn stored(self, file: KernelFile) -> Seq<u8> {
        path::below_text(
            self.output_dir,
            match file {
                KernelFile::Image => layout::image_name_for(self.arch),
                KernelFile::Config => "config"@,
            },
        )
    }

    /// Where the modules are stored.
    pub open spec fn modules_dir(self) -> Seq<u8> {
        path::below_text(self.output_dir, "modules"@)
    }

    /// Where the manifest is stored.
    pub open spec fn manifest(self) -> Seq<u8> {
        path::below_text(self.output_dir, "modules.txt"@)
    }

    /// The module that is being worked on.
    pub open spec fn current(self) -> Seq<char> {
        self.work.processed.last()
    }

    /// Where the module that is being worked on is stored.
    pub open spec fn stored_module(self) -> Seq<u8> {
        path::below_text(self.modules_dir(), self.current() + ".ko"@)
    }

    /// The same with another stage.
    pub open spec fn at(self, stage: Stage) -> State {
        State { stage, ..self }
    }

    /// The same with one more notice.
    pub open spec fn telling(self, notice: protocol::Told) -> State {
        State { log: self.log.push(notice), ..self }
    }

    /// The end of an extraction that failed.
    pub open spec fn failed(self, failure: failure::Failure) -> State {
        State { stage: Stage::Finished, failure: Some(failure), ..self }
    }

    /// The failure of an operation or a program.
    pub open spec fn broken(self, trouble: (ErrorKind, Seq<char>), detail: Seq<char>) -> State {
        self.failed(failure::Failure { kind: trouble.0, message: trouble.1 + ": "@ + detail })
    }

    /// The next module is taken up; once none is left, the manifest is next, with the modules
    /// in the order of their names.
    pub open spec fn next_module(self) -> State {
        let work = worklist::after_next(self.work);
        if worklist::has_next(self.work) {
            State { work, stage: Stage::LocateModule, ..self }
        } else {
            State {
                work: worklist::Work { extracted: modules::by_name(work.extracted), ..work },
                stage: Stage::CreateManifest,
                ..self
            }
        }
    }

    /// The module that is being worked on has been stored, and its dependencies are known.
    pub open spec fn extracted(self, dependencies: Seq<Seq<char>>) -> State {
        let module = modules::Module {
            name: self.current(),
            path: self.stored_module(),
            dependencies,
        };
        State {
            work: worklist::after_extracting(self.work, module),
            ..self.telling(protocol::Told::ModuleStored { name: self.current(), dependencies })
        }.next_module()
    }

    /// The end of an extraction that succeeded.
    pub open spec fn complete(self) -> State {
        self.telling(
            protocol::Told::Complete {
                image: self.stored(KernelFile::Image),
                config: self.stored(KernelFile::Config),
                manifest: self.manifest(),
                modules_dir: self.modules_dir(),
                total: self.work.extracted.len(),
            },
        ).at(Stage::Finished)
    }

    /// What a successful extraction has produced.
    pub open spec fn info(self) -> Info {
        Info {
            kernel_image: self.stored(KernelFile::Image),
            kernel_config: self.stored(KernelFile::Config),
            modules: self.work.extracted,
            modules_manifest: self.manifest(),
        }
    }
}

/// An extraction at its start.
pub open spec fn initial(rpm_path: Seq<u8>, output_dir: Seq<u8>, arch: Seq<char>) -> State {
    State {
        rpm_path,
        output_dir,
        arch,
        stage: Stage::CreateOutputDir,
        version: Seq::empty(),
        source: Seq::empty(),
        payload: Seq::empty(),
        config: Map::empty(),
        work: worklist::fresh_work(Seq::empty()),
        failure: None,
        log: Seq::empty(),
    }
}

/// A module has been taken up and is not done with.
pub open spec fn at_module(stage: Stage) -> bool {
    stage is LocateModule || stage is Unpack || stage is WriteModule || stage is QueryDeps
}

/// The modules have been worked off.
pub open spec fn past_modules(s: State) -> bool {
    s.failure is None && (s.stage is CreateManifest || s.stage is WriteManifest
        || s.stage is RemoveTempDir || s.stage is Finished)
}

/// No module has been taken up yet.
pub open spec fn before_modules(stage: Stage) -> bool {
    !at_module(stage) && !(stage is CreateManifest || stage is WriteManifest
        || stage is RemoveTempDir || stage is Finished)
}

/// The user was told that the module was not found.
pub open spec fn told_missing(s: State, name: Seq<char>) -> bool {
    s.log.contains(protocol::Told::ModuleMissing { name })
}

/// Every module that was looked at has been extracted, or the user was told that it is missing,
/// or it is the one that is being worked on.
pub open spec fn accounted_for(s: State) -> bool {
    forall|name: Seq<char>| #[trigger]
        s.work.processed.contains(name) ==> {
            ||| modules::has_named(s.work.extracted, name)
            ||| told_missing(s, name)
            ||| at_module(s.stage) && name == s.current()
        }
}

/// What holds of every extraction.
pub open spec fn well_formed(s: State) -> bool {
    &&& worklist::consistent(s.work, config::needed_modules(s.config))
    &&& at_module(s.stage) ==> {
        &&& s.work.processed.len() > 0
        &&& !modules::has_named(s.work.extracted, s.current())
    }
    &&& before_modules(s.stage) ==> s.work.processed.len() == 0 && s.work.extracted.len() == 0
    &&& past_modules(s) ==> s.work.pending.len() == 0 && modules::sorted_by_name(s.work.extracted)
    &&& s.failure is None ==> accounted_for(s)
    &&& s.failure is Some ==> s.stage is Finished
    &&& s.stage is ProbeSecond ==> vstd::utf8::valid_utf8(s.version)
}

/// How the failure of the operation at a stage is told; where there is nothing to tell, such a
/// failure does not end the extraction.
pub open spec fn trouble(stage: Stage) -> Option<(ErrorKind, Seq<char>)> {
    match stage {
        Stage::CreateOutputDir | Stage::CreateExtractDir => Some(
            (ErrorKind::FileOperationFailure, "Failed to create output directory"@),
        ),
        Stage::CleanTempDir => Some(
            (ErrorKind::FileOperationFailure, "Failed to clean temp directory"@),
        ),
        Stage::RunRpm2cpio => Some((ErrorKind::ProcessSpawnFailure, "Failed to run rpm2cpio"@)),
        Stage::SpawnCpio => Some((ErrorKind::ProcessSpawnFailure, "Failed to spawn cpio"@)),
        Stage::FeedCpio => Some(
            (ErrorKind::FileOperationFailure, "Failed to write to cpio stdin"@),
        ),
        Stage::WaitCpio => Some((ErrorKind::ProcessSpawnFailure, "Failed to wait for cpio"@)),
        Stage::ListVersions(_) | Stage::ListModules => Some(
            (ErrorKind::FileOperationFailure, "Failed to read modules directory"@),
        ),
        Stage::StoreFile(KernelFile::Image) => Some(
            (ErrorKind::FileOperationFailure, "Failed to copy kernel image"@),
        ),
        Stage::StoreFile(KernelFile::Config) => Some(
            (ErrorKind::FileOperationFailure, "Failed to copy kernel config"@),
        ),
        Stage::ReadConfig => Some(
            (ErrorKind::FileOperationFailure, "Failed to open kernel config"@),
        ),
        Stage::CreateModulesDir => Some(
            (ErrorKind::FileOperationFailure, "Failed to create modules directory"@),
        ),
        Stage::Unpack(Packing::Xz) => Some((ErrorKind::ProcessSpawnFailure, "Failed to run xz"@)),
        Stage::Unpack(Packing::Zstd) => Some(
            (ErrorKind::ProcessSpawnFailure, "Failed to run zstd"@),
        ),
        Stage::Unpack(Packing::Plain) => Some(
            (ErrorKind::FileOperationFailure, "Failed to copy module"@),
        ),
        Stage::WriteModule => Some(
            (ErrorKind::FileOperationFailure, "Failed to write decompressed module"@),
        ),
        Stage::CreateManifest => Some(
            (ErrorKind::FileOperationFailure, "Failed to create modules manifest"@),
        ),
        Stage::WriteManifest => Some(
            (ErrorKind::FileOperationFailure, "Failed to write manifest"@),
        ),
        _ => None,
    }
}

/// How it is told that the program that ran at a stage reported a failure.
pub open spec fn program_trouble(stage: Stage) -> Option<(ErrorKind, Seq<char>)> {
    match stage {
        Stage::RunRpm2cpio => Some((ErrorKind::ProcessSpawnFailure, "rpm2cpio failed"@)),
        Stage::WaitCpio => Some((ErrorKind::ProcessSpawnFailure, "cpio failed"@)),
        Stage::Unpack(Packing::Xz) => Some(
            (ErrorKind::ProcessSpawnFailure, "xz decompression failed"@),
        ),
        Stage::Unpack(Packing::Zstd) => Some(
            (ErrorKind::ProcessSpawnFailure, "zstd decompression failed"@),
        ),
        _ => None,
    }
}

/// The operation that is waited for.
pub open spec fn pending_request(s: State) -> protocol::Ask {
    match s.stage {
        Stage::CreateOutputDir => protocol::Ask::CreateDir { path: s.output_dir },
        Stage::CheckTempDir => protocol::Ask::Exists { path: s.temp_dir() },
        Stage::CleanTempDir => protocol::Ask::RemoveDir { path: s.temp_dir() },
        Stage::CreateExtractDir => protocol::Ask::CreateDir { path: s.temp_dir() },
        Stage::RunRpm2cpio => protocol::Ask::Run {
            program: "rpm2cpio"@,
            args: seq![s.rpm_path],
        },
        Stage::SpawnCpio => protocol::Ask::Spawn {
            program: "cpio"@,
            args: seq![
                vstd::utf8::encode_utf8("-idm"@),
                vstd::utf8::encode_utf8("--no-absolute-filenames"@),
            ],
            dir: s.temp_dir(),
        },
        Stage::FeedCpio => protocol::Ask::Feed { input: s.payload },
        Stage::WaitCpio => protocol::Ask::Wait,
        Stage::ListVersions(_) | Stage::ListModules => protocol::Ask::List {
            path: layout::modules_base_of(s.temp_dir()),
        },
        Stage::ProbeFirst(file) => protocol::Ask::Exists {
            path: layout::first_place(file, s.temp_dir(), s.version),
        },
        Stage::ProbeSecond(file) => protocol::Ask::Exists {
            path: layout::second_place(file, s.temp_dir(), s.version),
        },
        Stage::StoreFile(file) => protocol::Ask::Copy { from: s.source, to: s.stored(file) },
        Stage::ReadConfig => protocol::Ask::Read { path: s.stored(KernelFile::Config) },
        Stage::CreateModulesDir => protocol::Ask::CreateDir { path: s.modules_dir() },
        Stage::LocateModule => protocol::Ask::Walk {
            path: layout::version_dir_of(s.temp_dir(), s.version),
        },
        Stage::Unpack(Packing::Xz) => protocol::Ask::Run {
            program: "xz"@,
            args: seq![
                vstd::utf8::encode_utf8("-dk"@),
                vstd::utf8::encode_utf8("-c"@),
                s.source,
            ],
        },
        Stage::Unpack(Packing::Zstd) => protocol::Ask::Run {
            program: "zstd"@,
            args: seq![
                vstd::utf8::encode_utf8("-d"@),
                vstd::utf8::encode_utf8("-c"@),
                s.source,
            ],
        },
        Stage::Unpack(Packing::Plain) => protocol::Ask::Copy { from: s.source, to: s.stored_module() },
        Stage::WriteModule => protocol::Ask::Write { path: s.stored_module(), contents: s.payload },
        Stage::QueryDeps => protocol::Ask::Run {
            program: "modinfo"@,
            args: seq![
                vstd::utf8::encode_utf8("-F"@),
                vstd::utf8::encode_utf8("depends"@),
                s.stored_module(),
            ],
        },
        Stage::CreateManifest => protocol::Ask::Create { path: s.manifest() },
        Stage::WriteManifest => protocol::Ask::Append {
            text: manifest::manifest_text(s.config, s.work.extracted),
        },
        Stage::RemoveTempDir => protocol::Ask::RemoveDir { path: s.temp_dir() },
        Stage::Finished => protocol::Ask::Nothing,
    }
}

/// The reply can come of the operation that is waited for, and the extraction can go on with
/// it: where a kernel file is not in the directory of its version, the version has to be text
/// for the file to be looked for elsewhere.
pub open spec fn acceptable(s: State, reply: protocol::Reply) -> bool {
    match s.stage {
        Stage::CreateOutputDir
        | Stage::CleanTempDir
        | Stage::CreateExtractDir
        | Stage::SpawnCpio
        | Stage::FeedCpio
        | Stage::StoreFile(_)
        | Stage::CreateModulesDir
        | Stage::Unpack(Packing::Plain)
        | Stage::WriteModule
        | Stage::CreateManifest
        | Stage::WriteManifest
        | Stage::RemoveTempDir => reply is Done || reply is Failed,
        Stage::CheckTempDir | Stage::ProbeSecond(_) => reply is Answer,
        Stage::ProbeFirst(_) => reply matches protocol::Reply::Answer { yes } && (yes
            || vstd::utf8::valid_utf8(s.version)),
        Stage::RunRpm2cpio
        | Stage::WaitCpio
        | Stage::Unpack(Packing::Xz)
        | Stage::Unpack(Packing::Zstd)
        | Stage::QueryDeps => reply is Ended || reply is Failed,
        Stage::ListVersions(_) | Stage::ListModules => reply is Listed || reply is Failed,
        Stage::ReadConfig => reply is Contents || reply is Failed,
        Stage::LocateModule => reply is Walked,
        Stage::Finished => false,
    }
}

/// The operation failed.
pub open spec fn after_failure(s: State, detail: Seq<char>) -> State {
    match s.stage {
        Stage::QueryDeps => s.extracted(process::reported_deps(None)),
        Stage::RemoveTempDir => s.complete(),
        _ => match trouble(s.stage) {
            Some(t) => s.broken(t, detail),
            None => s,
        },
    }
}

/// The operation was carried out.
pub open spec fn after_success(s: State) -> State {
    match s.stage {
        Stage::CreateOutputDir => s.at(Stage::CheckTempDir),
        Stage::CleanTempDir => s.telling(protocol::Told::ExtractingRpm).at(Stage::CreateExtractDir),
        Stage::CreateExtractDir => s.at(Stage::RunRpm2cpio),
        Stage::SpawnCpio => s.at(Stage::FeedCpio),
        Stage::FeedCpio => s.at(Stage::WaitCpio),
        Stage::StoreFile(KernelFile::Image) => s.telling(
            protocol::Told::ImageStored { path: s.stored(KernelFile::Image) },
        ).telling(protocol::Told::LocatingConfig).at(Stage::ListVersions(KernelFile::Config)),
        Stage::StoreFile(KernelFile::Config) => s.telling(
            protocol::Told::ConfigStored { path: s.stored(KernelFile::Config) },
        ).telling(protocol::Told::ParsingConfig).at(Stage::ReadConfig),
        Stage::CreateModulesDir => s.telling(protocol::Told::ExtractingModules).next_module(),
        Stage::Unpack(_) | Stage::WriteModule => s.at(Stage::QueryDeps),
        Stage::CreateManifest => s.at(Stage::WriteManifest),
        Stage::WriteManifest => s.at(Stage::RemoveTempDir),
        Stage::RemoveTempDir => s.complete(),
        _ => s,
    }
}

/// A question was answered.
pub open spec fn after_answer(s: State, yes: bool) -> State {
    match s.stage {
        Stage::CheckTempDir => if yes {
            s.at(Stage::CleanTempDir)
        } else {
            s.telling(protocol::Told::ExtractingRpm).at(Stage::CreateExtractDir)
        },
        Stage::ProbeFirst(file) => if yes {
            State {
                source: layout::first_place(file, s.temp_dir(), s.version),
                ..s.at(Stage::StoreFile(file))
            }
        } else {
            s.at(Stage::ProbeSecond(file))
        },
        Stage::ProbeSecond(file) => if yes {
            State {
                source: layout::second_place(file, s.temp_dir(), s.version),
                ..s.at(Stage::StoreFile(file))
            }
        } else {
            s.failed(layout::not_found(file, s.temp_dir()))
        },
        _ => s,
    }
}

/// A program ran to its end.
pub open spec fn after_program(s: State, output: process::Output) -> State {
    if s.stage == Stage::QueryDeps {
        s.extracted(process::reported_deps(Some(output)))
    } else if !output.success {
        match program_trouble(s.stage) {
            Some(t) => s.broken(t, decode::lossy_text(output.stderr)),
            None => s,
        }
    } else {
        match s.stage {
            Stage::RunRpm2cpio => State { payload: output.stdout, ..s.at(Stage::SpawnCpio) },
            Stage::WaitCpio => s.telling(protocol::Told::LocatingImage).at(
                Stage::ListVersions(KernelFile::Image),
            ),
            Stage::Unpack(_) => State { payload: output.stdout, ..s.at(Stage::WriteModule) },
            _ => s,
        }
    }
}

/// The kernel versions were listed.
pub open spec fn after_listing(s: State, items: Seq<Option<layout::Item>>) -> State {
    match layout::first_dir(items) {
        None => s.failed(layout::no_version_dir()),
        Some(version) => {
            let s = State { version, ..s };
            match s.stage {
                Stage::ListVersions(file) => s.at(Stage::ProbeFirst(file)),
                _ => if s.work.pending.len() > 0 {
                    s.at(Stage::CreateModulesDir)
                } else {
                    s.telling(protocol::Told::ExtractingModules).next_module()
                },
            }
        },
    }
}

/// What the user is told of the required options.
pub open spec fn option_notices(known: Map<ConfigOption, ConfigValue>) -> Seq<protocol::Told> {
    config::required_options().map_values(
        |option: ConfigOption|
            protocol::Told::OptionValue { option, value: config::value_in(known, option) },
    )
}

/// The kernel config was read.
pub open spec fn after_reading(s: State, bytes: Seq<u8>, error: Option<Seq<char>>) -> State {
    match config::parsed_config(bytes, error) {
        Err(failure) => s.failed(failure),
        Ok(known) => State {
            config: known,
            work: worklist::fresh_work(config::needed_modules(known)),
            log: s.log + option_notices(known),
            ..s.at(Stage::ListModules)
        },
    }
}

/// The modules directory was walked.
pub open spec fn after_walk(s: State, listing: Listing) -> State {
    match tree::module_file(layout::version_dir_of(s.temp_dir(), s.version), listing, s.current()) {
        Some(source) => State { source, ..s.at(Stage::Unpack(layout::packing_of(source))) },
        None => s.telling(protocol::Told::ModuleMissing { name: s.current() }).next_module(),
    }
}

/// Where the extraction stands after a reply.
pub open spec fn advance(s: State, reply: protocol::Reply) -> State {
    match reply {
        protocol::Reply::Done => after_success(s),
        protocol::Reply::Failed { detail } => after_failure(s, detail),
        protocol::Reply::Answer { yes } => after_answer(s, yes),
        protocol::Reply::Ended { output } => after_program(s, output),
        protocol::Reply::Listed { items } => after_listing(s, items),
        protocol::Reply::Contents { bytes, error } => after_reading(s, bytes, error),
        protocol::Reply::Walked { listing } => after_walk(s, listing),
    }
}

/// An extraction is well-formed from the start.
pub proof fn lemma_initial_well_formed(rpm_path: Seq<u8>, output_dir: Seq<u8>, arch: Seq<char>)
    ensures
        well_formed(initial(rpm_path, output_dir, arch)),
{
    let known = Map::<ConfigOption, ConfigValue>::empty();
    assert(config::needed_modules(known) =~= Seq::<Seq<char>>::empty()) by {
        reveal_with_fuel(Seq::filter_map, 5);
    }
    worklist::lemma_fresh_work(Seq::empty());
}

/// The user stays told that a module is missing.
proof fn lemma_still_told(s: State, next: State, name: Seq<char>)
    requires
        told_missing(s, name),
        s.log.is_prefix_of(next.log),
    ensures
        told_missing(next, name),
{
    let notice = protocol::Told::ModuleMissing { name };
    let i = choose|i: int| 0 <= i < s.log.len() && s.log[i] == notice;
    assert(next.log[i] == notice);
}

/// Going on to the next module is sound once the one before is accounted for.
proof fn lemma_next_module(s: State)
    requires
        worklist::consistent(s.work, config::needed_modules(s.config)),
        s.failure is None,
        forall|name: Seq<char>| #[trigger]
            s.work.processed.contains(name) ==> modules::has_named(s.work.extracted, name)
                || told_missing(s, name),
    ensures
        well_formed(s.next_module()),
{
    let roots = config::needed_modules(s.config);
    let work = worklist::after_next(s.work);
    let next = s.next_module();
    worklist::lemma_next(s.work, roots);
    worklist::lemma_sorting(work, roots);
    modules::law_by_name_sorts(work.extracted);
    if worklist::has_next(s.work) {
        if modules::has_named(s.work.extracted, next.current()) {
            let i = choose|i: int|
                0 <= i < s.work.extracted.len() && (#[trigger] s.work.extracted[i]).name
                    == next.current();
            assert(s.work.processed.contains(s.work.extracted[i].name));
        }
        assert forall|name: Seq<char>| #[trigger] next.work.processed.contains(name) implies {
            ||| modules::has_named(next.work.extracted, name)
            ||| told_missing(next, name)
            ||| name == next.current()
        } by {
            let i = choose|i: int|
                0 <= i < next.work.processed.len() && next.work.processed[i] == name;
            if i < next.work.processed.len() - 1 {
                assert(s.work.processed[i] == name);
                assert(s.work.processed.contains(name));
            }
        }
    } else {
        assert forall|name: Seq<char>| #[trigger] next.work.processed.contains(name) implies {
            ||| modules::has_named(next.work.extracted, name)
            ||| told_missing(next, name)
        } by {
            assert(s.work.processed.contains(name));
        }
    }
}

/// Recording the module that is being worked on is sound.
proof fn lemma_extracted(s: State, dependencies: Seq<Seq<char>>)
    requires
        well_formed(s),
        at_module(s.stage),
    ensures
        well_formed(s.extracted(dependencies)),
{
    let module = modules::Module { name: s.current(), path: s.stored_module(), dependencies };
    let told = s.telling(
        protocol::Told::ModuleStored { name: s.current(), dependencies },
    );
    let next = State { work: worklist::after_extracting(s.work, module), ..told };
    assert(s.work.processed.contains(s.current()));
    worklist::lemma_extracting(s.work, config::needed_modules(s.config), module);
    assert forall|name: Seq<char>| #[trigger] next.work.processed.contains(name) implies {
        ||| modules::has_named(next.work.extracted, name)
        ||| told_missing(next, name)
    } by {
        if name == s.current() {
            assert(next.work.extracted[s.work.extracted.len() as int].name == name);
        } else if modules::has_named(s.work.extracted, name) {
            let i = choose|i: int|
                0 <= i < s.work.extracted.len() && (#[trigger] s.work.extracted[i]).name == name;
            assert(next.work.extracted[i].name == name);
        } else {
            lemma_still_told(s, next, name);
        }
    }
    lemma_next_module(next);
}

/// Telling something, and going on to a stage of the same kind, is sound.
proof fn lemma_told(s: State, next: State)
    requires
        well_formed(s),
        next.work == s.work,
        next.config == s.config,
        next.failure is None,
        s.failure is None,
        s.log.is_prefix_of(next.log),
        at_module(next.stage) == at_module(s.stage),
        past_modules(next) ==> past_modules(s),
        before_modules(next.stage) ==> before_modules(s.stage),
        next.stage is ProbeSecond ==> vstd::utf8::valid_utf8(next.version),
    ensures
        well_formed(next),
{
    assert forall|name: Seq<char>| #[trigger] next.work.processed.contains(name) implies {
        ||| modules::has_named(next.work.extracted, name)
        ||| told_missing(next, name)
        ||| at_module(next.stage) && name == next.current()
    } by {
        if told_missing(s, name) {
            lemma_still_told(s, next, name);
        }
    }
}

/// Where an operation fails, the extraction ends, and its error names the operation and gives
/// the system's description. Two failures are passed over: a module whose dependencies cannot
/// be asked for is taken to have none, and a temporary directory may stay behind.
pub proof fn law_failed_operation(s: State, detail: Seq<char>)
    requires
        acceptable(s, protocol::Reply::Failed { detail }),
    ensures
        s.stage is QueryDeps ==> advance(s, protocol::Reply::Failed { detail }) == s.extracted(
            Seq::empty(),
        ),
        s.stage is RemoveTempDir ==> advance(s, protocol::Reply::Failed { detail })
            == s.complete(),
        !(s.stage is QueryDeps || s.stage is RemoveTempDir) ==> {
            &&& trouble(s.stage) matches Some((kind, what))
            &&& advance(s, protocol::Reply::Failed { detail }) == s.failed(
                failure::Failure { kind, message: what + ": "@ + detail },
            )
        },
{
}

/// Where a program reports a failure, the extraction ends, and its error names the program and
/// gives what it wrote to its standard error; only modinfo may fail.
pub proof fn law_failed_program(s: State, output: process::Output)
    requires
        acceptable(s, protocol::Reply::Ended { output }),
        !output.success,
    ensures
        s.stage is QueryDeps ==> advance(s, protocol::Reply::Ended { output }) == s.extracted(
            Seq::empty(),
        ),
        !(s.stage is QueryDeps) ==> {
            &&& program_trouble(s.stage) matches Some((kind, what))
            &&& kind == ErrorKind::ProcessSpawnFailure
            &&& advance(s, protocol::Reply::Ended { output }) == s.failed(
                failure::Failure { kind, message: what + ": "@ + decode::lossy_text(output.stderr) },
            )
        },
{
}

/// An extraction fails for one of these causes and for no other: an operation failed, a program
/// reported a failure, a kernel file was in neither of its places, no kernel version was
/// listed, or the kernel config could not be parsed.
pub proof fn law_failure_has_a_cause(s: State, reply: protocol::Reply)
    requires
        s.failure is None,
        acceptable(s, reply),
    ensures
        advance(s, reply).failure is Some <==> {
            ||| reply is Failed && !(s.stage is QueryDeps || s.stage is RemoveTempDir)
            ||| (reply matches protocol::Reply::Ended { output } && !output.success)
                && !(s.stage is QueryDeps)
            ||| s.stage is ProbeSecond && reply == (protocol::Reply::Answer { yes: false })
            ||| (reply matches protocol::Reply::Listed { items } && layout::first_dir(items) is None)
            ||| (reply matches protocol::Reply::Contents { bytes, error }
                && config::parsed_config(bytes, error) is Err)
        },
{
}

/// The outcome is one that the operation can have.
pub open spec fn fits(ask: protocol::Ask, reply: protocol::Reply) -> bool {
    match ask {
        protocol::Ask::CreateDir { .. }
        | protocol::Ask::RemoveDir { .. }
        | protocol::Ask::Spawn { .. }
        | protocol::Ask::Feed { .. }
        | protocol::Ask::Copy { .. }
        | protocol::Ask::Write { .. }
        | protocol::Ask::Create { .. }
        | protocol::Ask::Append { .. } => reply is Done || reply is Failed,
        protocol::Ask::Exists { .. } => reply is Answer,
        protocol::Ask::Run { .. } | protocol::Ask::Wait => reply is Ended || reply is Failed,
        protocol::Ask::List { .. } => reply is Listed || reply is Failed,
        protocol::Ask::Read { .. } => reply is Contents || reply is Failed,
        protocol::Ask::Walk { .. } => reply is Walked,
        protocol::Ask::Nothing => false,
    }
}

/// An extraction can go on with every outcome that the pending operation can have, and with no
/// other; the one exception is a kernel file that is not in the directory of its version where
/// the version is not text.
pub proof fn law_acceptable(s: State, reply: protocol::Reply)
    ensures
        acceptable(s, reply) <==> fits(pending_request(s), reply) && !(s.stage is ProbeFirst && reply
            == (protocol::Reply::Answer { yes: false }) && !vstd::utf8::valid_utf8(s.version)),
{
}

/// What is told where a search of the package fails, or its kernel config cannot be parsed.
pub proof fn law_failure_texts(s: State, reply: protocol::Reply)
    requires
        s.failure is None,
        acceptable(s, reply),
    ensures
        s.stage == Stage::ProbeSecond(KernelFile::Image) && reply == (protocol::Reply::Answer {
            yes: false,
        }) && vstd::utf8::valid_utf8(s.temp_dir()) ==> advance(s, reply).failure == Some(
            failure::Failure {
                kind: ErrorKind::FileOperationFailure,
                message: "Kernel image not found in "@ + vstd::utf8::decode_utf8(s.temp_dir()),
            },
        ),
        s.stage == Stage::ProbeSecond(KernelFile::Config) && reply == (protocol::Reply::Answer {
            yes: false,
        }) ==> advance(s, reply).failure == Some(
            failure::Failure {
                kind: ErrorKind::FileOperationFailure,
                message: "Kernel config not found"@,
            },
        ),
        reply matches protocol::Reply::Listed { items } ==> layout::first_dir(items) is None
            ==> advance(s, reply).failure == Some(
            failure::Failure {
                kind: ErrorKind::FileOperationFailure,
                message: "No kernel version directory found"@,
            },
        ),
        reply matches protocol::Reply::Contents { bytes, error } ==> match config::parsed_config(
            bytes,
            error,
        ) {
            Err(failure) => advance(s, reply).failure == Some(failure),
            Ok(known) => advance(s, reply).config == known,
        },
{
}

/// The kernel version is the one that was listed last, and that is where an extraction goes on:
/// a kernel file is asked for in its directory first; for the modules a directory is made
/// exactly where modules are pending.
pub proof fn law_listed_version(s: State, items: Seq<Option<layout::Item>>, version: Seq<u8>)
    requires
        acceptable(s, protocol::Reply::Listed { items }),
        layout::first_dir(items) == Some(version),
    ensures
        ({
            let next = advance(s, protocol::Reply::Listed { items });
            &&& next.version == version
            &&& next.failure == s.failure
            &&& s.stage matches Stage::ListVersions(file) ==> pending_request(next) == (
            protocol::Ask::Exists { path: layout::first_place(file, s.temp_dir(), version) })
            &&& s.stage is ListModules ==> pending_request(next) == if s.work.pending.len() > 0 {
                protocol::Ask::CreateDir { path: s.modules_dir() }
            } else {
                protocol::Ask::Create { path: s.manifest() }
            }
        }),
{
}

/// A step that fails the extraction tells the user nothing but the error.
pub proof fn law_failure_tells_nothing(s: State, reply: protocol::Reply)
    requires
        s.failure is None,
        acceptable(s, reply),
        advance(s, reply).failure is Some,
    ensures
        advance(s, reply).log == s.log,
        advance(s, reply).stage is Finished,
{
}

/// An extraction that has not ended waits for an operation, and can go on with some outcome of
/// it; one that has ended asks for nothing and goes on with nothing.
pub proof fn law_never_stuck(s: State)
    ensures
        s.stage is Finished <==> pending_request(s) is Nothing,
        s.stage is Finished <==> (forall|reply: protocol::Reply| !#[trigger] acceptable(s, reply)),
{
    let failed = protocol::Reply::Failed { detail: Seq::empty() };
    let yes = protocol::Reply::Answer { yes: true };
    let walked = protocol::Reply::Walked { listing: Listing::Unreadable };
    if !(s.stage is Finished) {
        assert(acceptable(s, failed) || acceptable(s, yes) || acceptable(s, walked));
    }
}

/// Every step keeps what holds of every extraction.
pub proof fn law_step_keeps_well_formed(s: State, reply: protocol::Reply)
    requires
        well_formed(s),
        acceptable(s, reply),
    ensures
        well_formed(advance(s, reply)),
{
    let next = advance(s, reply);
    match reply {
        protocol::Reply::Done => {
            if s.stage is CreateModulesDir {
                let told = s.telling(protocol::Told::ExtractingModules);
                lemma_told(s, told);
                lemma_next_module(told);
            } else {
                lemma_told(s, next);
            }
        },
        protocol::Reply::Failed { detail } => {
            if s.stage is QueryDeps {
                lemma_extracted(s, process::reported_deps(None));
            } else if s.stage is RemoveTempDir {
                lemma_told(s, next);
            }
        },
        protocol::Reply::Answer { yes } => {
            if next.failure is None {
                lemma_told(s, next);
            }
        },
        protocol::Reply::Ended { output } => {
            if s.stage is QueryDeps {
                lemma_extracted(s, process::reported_deps(Some(output)));
            } else if output.success {
                lemma_told(s, next);
            }
        },
        protocol::Reply::Listed { items } => {
            if let Some(version) = layout::first_dir(items) {
                if s.stage is ListVersions || s.work.pending.len() > 0 {
                    lemma_told(s, next);
                } else {
                    let told = State { version, ..s }.telling(protocol::Told::ExtractingModules);
                    lemma_told(s, told);
                    lemma_next_module(told);
                }
            }
        },
        protocol::Reply::Contents { bytes, error } => {
            if let Ok(known) = config::parsed_config(bytes, error) {
                worklist::lemma_fresh_work(config::needed_modules(known));
            }
        },
        protocol::Reply::Walked { listing } => {
            let place = layout::version_dir_of(s.temp_dir(), s.version);
            match tree::module_file(place, listing, s.current()) {
                Some(source) => {
                    lemma_told(s, next);
                },
                None => {
                    let told = s.telling(protocol::Told::ModuleMissing { name: s.current() });
                    assert(told.log[s.log.len() as int] == protocol::Told::ModuleMissing {
                        name: s.current(),
                    });
                    assert forall|name: Seq<char>| #[trigger]
                        told.work.processed.contains(name) implies {
                        ||| modules::has_named(told.work.extracted, name)
                        ||| told_missing(told, name)
                    } by {
                        if told_missing(s, name) {
                            lemma_still_told(s, told, name);
                        }
                    }
                    lemma_next_module(told);
                },
            }
        },
    }
}

} // verus!
