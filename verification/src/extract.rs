//! The extraction itself: it asks for one operation on the system after the other, and is told
//! what came of each.

use vstd::prelude::*;

use crate::config;
use crate::config::{ConfigOption, FileRead, KernelConfig};
use crate::decode;
use crate::failure::{ErrorKind, ExtractError};
use crate::layout;
use crate::layout::{DirEntry, KernelFile, Packing};
use crate::manifest;
use crate::modules;
use crate::modules::ModuleInfo;
use crate::path;
use crate::path::RawPath;
use crate::process;
use crate::process::CommandOutput;
use crate::protocol;
use crate::protocol::{Event, Notice, Request};
use crate::state;
use crate::state::Stage;
use crate::text;
use crate::tree;
use crate::tree::Listing;
use crate::worklist;
use crate::worklist::Worklist;

verus! {

broadcast use vstd::string::group_string_axioms;

/// Information about extracted kernel
#[derive(Debug)]
pub struct KernelExtractInfo {
    /// Path to kernel image (bzImage or Image; vmlinuz for other architectures)
    pub kernel_image: RawPath,
    /// Path to kernel config
    pub kernel_config: RawPath,
    /// List of extracted modules with their dependencies
    pub modules: Vec<ModuleInfo>,
    /// Path to modules manifest file
    pub modules_manifest: RawPath,
}

impl View for KernelExtractInfo {
    type V = state::Info;

    open spec fn view(&self) -> state::Info {
        state::Info {
            kernel_image: self.kernel_image@,
            kernel_config: self.kernel_config@,
            modules: modules::module_views(self.modules@),
            modules_manifest: self.modules_manifest@,
        }
    }
}

/// A result is its four parts.
pub proof fn law_info_view(info: KernelExtractInfo)
    ensures
        info@.kernel_image == info.kernel_image@,
        info@.kernel_config == info.kernel_config@,
        info@.modules == modules::module_views(info.modules@),
        info@.modules_manifest == info.modules_manifest@,
{
}

/// An extraction under way.
#[derive(Debug)]
pub struct Extraction {
    rpm_path: RawPath,
    output_dir: RawPath,
    arch: String,
    stage: Stage,
    version: RawPath,
    source: RawPath,
    payload: Vec<u8>,
    config: KernelConfig,
    work: Worklist,
    failure: Option<ExtractError>,
    log: Vec<Notice>,
}

impl View for Extraction {
    type V = state::State;

    closed spec fn view(&self) -> state::State {
        state::State {
            rpm_path: self.rpm_path@,
            output_dir: self.output_dir@,
            arch: self.arch@,
            stage: self.stage,
            version: self.version@,
            source: self.source@,
            payload: self.payload@,
            config: self.config@,
            work: self.work@,
            failure: match self.failure {
                Some(error) => Some(error@),
                None => None,
            },
            log: protocol::told(self.log@),
        }
    }
}

/// How the failure of the operation at a stage is told, if it ends the extraction.
fn trouble_at(stage: Stage) -> (told: Option<(ErrorKind, &'static str)>)
    ensures
        match told {
            Some((kind, what)) => state::trouble(stage) == Some((kind, what@)),
            None => state::trouble(stage) is None,
        },
{
    match stage {
        Stage::CreateOutputDir | Stage::CreateExtractDir => Some(
            (ErrorKind::FileOperationFailure, "Failed to create output directory"),
        ),
        Stage::CleanTempDir => Some(
            (ErrorKind::FileOperationFailure, "Failed to clean temp directory"),
        ),
        Stage::RunRpm2cpio => Some((ErrorKind::ProcessSpawnFailure, "Failed to run rpm2cpio")),
        Stage::SpawnCpio => Some((ErrorKind::ProcessSpawnFailure, "Failed to spawn cpio")),
        Stage::FeedCpio => Some((ErrorKind::FileOperationFailure, "Failed to write to cpio stdin")),
        Stage::WaitCpio => Some((ErrorKind::ProcessSpawnFailure, "Failed to wait for cpio")),
        Stage::ListVersions(_) | Stage::ListModules => Some(
            (ErrorKind::FileOperationFailure, "Failed to read modules directory"),
        ),
        Stage::StoreFile(KernelFile::Image) => Some(
            (ErrorKind::FileOperationFailure, "Failed to copy kernel image"),
        ),
        Stage::StoreFile(KernelFile::Config) => Some(
            (ErrorKind::FileOperationFailure, "Failed to copy kernel config"),
        ),
        Stage::ReadConfig => Some((ErrorKind::FileOperationFailure, "Failed to open kernel config")),
        Stage::CreateModulesDir => Some(
            (ErrorKind::FileOperationFailure, "Failed to create modules directory"),
        ),
        Stage::Unpack(Packing::Xz) => Some((ErrorKind::ProcessSpawnFailure, "Failed to run xz")),
        Stage::Unpack(Packing::Zstd) => Some((ErrorKind::ProcessSpawnFailure, "Failed to run zstd")),
        Stage::Unpack(Packing::Plain) => Some(
            (ErrorKind::FileOperationFailure, "Failed to copy module"),
        ),
        Stage::WriteModule => Some(
            (ErrorKind::FileOperationFailure, "Failed to write decompressed module"),
        ),
        Stage::CreateManifest => Some(
            (ErrorKind::FileOperationFailure, "Failed to create modules manifest"),
        ),
        Stage::WriteManifest => Some((ErrorKind::FileOperationFailure, "Failed to write manifest")),
        _ => None,
    }
}

/// How it is told that the program that ran at a stage reported a failure.
fn program_trouble_at(stage: Stage) -> (told: Option<(ErrorKind, &'static str)>)
    ensures
        match told {
            Some((kind, what)) => state::program_trouble(stage) == Some((kind, what@)),
            None => state::program_trouble(stage) is None,
        },
{
    match stage {
        Stage::RunRpm2cpio => Some((ErrorKind::ProcessSpawnFailure, "rpm2cpio failed")),
        Stage::WaitCpio => Some((ErrorKind::ProcessSpawnFailure, "cpio failed")),
        Stage::Unpack(Packing::Xz) => Some(
            (ErrorKind::ProcessSpawnFailure, "xz decompression failed"),
        ),
        Stage::Unpack(Packing::Zstd) => Some(
            (ErrorKind::ProcessSpawnFailure, "zstd decompression failed"),
        ),
        _ => None,
    }
}

/// Two arguments and a path, as a program takes them.
fn program_args(first: &str, second: &str, path: RawPath) -> (args: Vec<RawPath>)
    ensures
        text::byte_views(args@) == seq![
            vstd::utf8::encode_utf8(first@),
            vstd::utf8::encode_utf8(second@),
            path@,
        ],
{
    let args: Vec<RawPath> = vec![
        path::copy(first.as_bytes()),
        path::copy(second.as_bytes()),
        path,
    ];
    assert(text::byte_views(args@) =~= seq![
        vstd::utf8::encode_utf8(first@),
        vstd::utf8::encode_utf8(second@),
        path@,
    ]);
    args
}

/// Starts the extraction of kernel binaries and required modules from an RPM.
pub fn extract_kernel_binaries(rpm_path: RawPath, output_dir: RawPath, arch: String) -> (res:
    Extraction)
    ensures
        res@ == state::initial(rpm_path@, output_dir@, arch@),
        state::well_formed(res@),
{
    let needed: Vec<String> = Vec::new();
    assert(text::views(needed@) =~= Seq::<Seq<char>>::empty());
    let res = Extraction {
        rpm_path,
        output_dir,
        arch,
        stage: Stage::CreateOutputDir,
        version: Vec::new(),
        source: Vec::new(),
        payload: Vec::new(),
        config: KernelConfig::new(),
        work: Worklist::new(needed),
        failure: None,
        log: Vec::new(),
    };
    assert(res@ =~= state::initial(rpm_path@, output_dir@, arch@));
    proof {
        state::lemma_initial_well_formed(rpm_path@, output_dir@, arch@);
    }
    res
}

impl Extraction {
    /// The directory into which the package is unpacked.
    fn temp_dir(&self) -> (dir: RawPath)
        ensures
            dir@ == self@.temp_dir(),
    {
        layout::temp_dir(self.output_dir.as_slice())
    }

    /// Where a kernel file is stored.
    fn stored(&self, file: KernelFile) -> (path: RawPath)
        ensures
            path@ == self@.stored(file),
    {
        match file {
            KernelFile::Image => path::join_text(
                self.output_dir.as_slice(),
                layout::kernel_image_name(self.arch.as_str()),
            ),
            KernelFile::Config => path::join_text(self.output_dir.as_slice(), "config"),
        }
    }

    /// Where the modules are stored.
    fn modules_dir(&self) -> (dir: RawPath)
        ensures
            dir@ == self@.modules_dir(),
    {
        path::join_text(self.output_dir.as_slice(), "modules")
    }

    /// Where the manifest is stored.
    fn manifest(&self) -> (path: RawPath)
        ensures
            path@ == self@.manifest(),
    {
        path::join_text(self.output_dir.as_slice(), "modules.txt")
    }

    /// Where the module that is being worked on is stored.
    fn stored_module(&self) -> (path: RawPath)
        requires
            self@.work.processed.len() > 0,
        ensures
            path@ == self@.stored_module(),
    {
        let name: String = text::concat(self.work.current(), ".ko");
        path::join_text(self.modules_dir().as_slice(), name.as_str())
    }

    /// The directory in which modules are looked for.
    fn search_dir(&self) -> (dir: RawPath)
        ensures
            dir@ == layout::version_dir_of(self@.temp_dir(), self@.version),
    {
        layout::version_dir(self.temp_dir().as_slice(), self.version.as_slice())
    }

    /// The operation that is waited for.
    pub fn stage(&self) -> (stage: Stage)
        ensures
            stage == self@.stage,
    {
        self.stage
    }

    /// What the user is to be told, from the start.
    pub fn log(&self) -> (log: &Vec<Notice>)
        ensures
            protocol::told(log@) == self@.log,
    {
        &self.log
    }

    /// The operation that the system has to perform next.
    pub fn request(&self) -> (request: Request)
        requires
            state::well_formed(self@),
        ensures
            request@ == state::pending_request(self@),
    {
        let request: Request = match self.stage {
            Stage::CreateOutputDir => Request::CreateDir {
                path: path::copy(self.output_dir.as_slice()),
            },
            Stage::CheckTempDir => Request::Exists { path: self.temp_dir() },
            Stage::CleanTempDir | Stage::RemoveTempDir => Request::RemoveDir { path: self.temp_dir() },
            Stage::CreateExtractDir => Request::CreateDir { path: self.temp_dir() },
            Stage::RunRpm2cpio => {
                let args: Vec<RawPath> = vec![path::copy(self.rpm_path.as_slice())];
                assert(text::byte_views(args@) =~= seq![self@.rpm_path]);
                Request::Run { program: "rpm2cpio", args }
            },
            Stage::SpawnCpio => {
                let args: Vec<RawPath> = vec![
                    path::copy("-idm".as_bytes()),
                    path::copy("--no-absolute-filenames".as_bytes()),
                ];
                assert(text::byte_views(args@) =~= seq![
                    vstd::utf8::encode_utf8("-idm"@),
                    vstd::utf8::encode_utf8("--no-absolute-filenames"@),
                ]);
                Request::Spawn { program: "cpio", args, dir: self.temp_dir() }
            },
            Stage::FeedCpio => Request::Feed { input: path::copy(self.payload.as_slice()) },
            Stage::WaitCpio => Request::Wait,
            Stage::ListVersions(_) | Stage::ListModules => Request::List {
                path: layout::modules_base(self.temp_dir().as_slice()),
            },
            Stage::ProbeFirst(file) => Request::Exists {
                path: layout::first_candidate(
                    file,
                    self.temp_dir().as_slice(),
                    self.version.as_slice(),
                ),
            },
            Stage::ProbeSecond(file) => {
                match layout::second_candidate(
                    file,
                    self.temp_dir().as_slice(),
                    self.version.as_slice(),
                ) {
                    Some(path) => Request::Exists { path },
                    None => Request::Nothing,
                }
            },
            Stage::StoreFile(file) => Request::Copy {
                from: path::copy(self.source.as_slice()),
                to: self.stored(file),
            },
            Stage::ReadConfig => Request::Read { path: self.stored(KernelFile::Config) },
            Stage::CreateModulesDir => Request::CreateDir { path: self.modules_dir() },
            Stage::LocateModule => Request::Walk { path: self.search_dir() },
            Stage::Unpack(Packing::Xz) => Request::Run {
                program: "xz",
                args: program_args("-dk", "-c", path::copy(self.source.as_slice())),
            },
            Stage::Unpack(Packing::Zstd) => Request::Run {
                program: "zstd",
                args: program_args("-d", "-c", path::copy(self.source.as_slice())),
            },
            Stage::Unpack(Packing::Plain) => Request::Copy {
                from: path::copy(self.source.as_slice()),
                to: self.stored_module(),
            },
            Stage::WriteModule => Request::Write {
                path: self.stored_module(),
                contents: path::copy(self.payload.as_slice()),
            },
            Stage::QueryDeps => Request::Run {
                program: "modinfo",
                args: program_args("-F", "depends", self.stored_module()),
            },
            Stage::CreateManifest => Request::Create { path: self.manifest() },
            Stage::WriteManifest => Request::Append {
                text: manifest::write_manifest(&self.config, self.work.extracted()),
            },
            Stage::Finished => Request::Nothing,
        };
        assert(request@ =~= state::pending_request(self@));
        request
    }

    /// Decides whether the extraction can go on with an event.
    pub fn accepts(&self, event: &Event) -> (yes: bool)
        ensures
            yes == state::acceptable(self@, event@),
    {
        match self.stage {
            Stage::CreateOutputDir
            | Stage::CleanTempDir
            | Stage::CreateExtractDir
            | Stage::SpawnCpio
            | Stage::FeedCpio
            | Stage::StoreFile(_)
            | Stage::CreateModulesDir
            | Stage::Unpack(Packing::Plain)
            | Stage::WriteModule
            | Stage::CreateManifest
            | Stage::WriteManifest
            | Stage::RemoveTempDir => match event {
                Event::Done => true,
                Event::Failed { .. } => true,
                _ => false,
            },
            Stage::CheckTempDir | Stage::ProbeSecond(_) => match event {
                Event::Answer { .. } => true,
                _ => false,
            },
            Stage::ProbeFirst(_) => match event {
                Event::Answer { yes } => *yes || decode::decode(self.version.as_slice()).is_some(),
                _ => false,
            },
            Stage::RunRpm2cpio
            | Stage::WaitCpio
            | Stage::Unpack(Packing::Xz)
            | Stage::Unpack(Packing::Zstd)
            | Stage::QueryDeps => match event {
                Event::Ended { .. } => true,
                Event::Failed { .. } => true,
                _ => false,
            },
            Stage::ListVersions(_) | Stage::ListModules => match event {
                Event::Listed { .. } => true,
                Event::Failed { .. } => true,
                _ => false,
            },
            Stage::ReadConfig => match event {
                Event::Contents { .. } => true,
                Event::Failed { .. } => true,
                _ => false,
            },
            Stage::LocateModule => match event {
                Event::Walked { .. } => true,
                _ => false,
            },
            Stage::Finished => false,
        }
    }

    /// Goes on to another stage.
    fn go(&mut self, stage: Stage)
        ensures
            final(self)@ == old(self)@.at(stage),
    {
        self.stage = stage;
        assert(self@ =~= old(self)@.at(stage));
    }

    /// Tells the user something.
    fn tell(&mut self, notice: Notice)
        ensures
            final(self)@ == old(self)@.telling(notice@),
    {
        let ghost before = self@;
        self.log.push(notice);
        assert(self@.log =~= before.log.push(notice@));
        assert(self@ =~= before.telling(notice@));
    }

    /// Ends the extraction with an error.
    fn fail(&mut self, error: ExtractError)
        ensures
            final(self)@ == old(self)@.failed(error@),
    {
        self.failure = Some(error);
        self.stage = Stage::Finished;
        assert(self@ =~= old(self)@.failed(error@));
    }

    /// Takes up the next module, or goes on to the manifest.
    fn next_module(&mut self)
        ensures
            final(self)@ == old(self)@.next_module(),
    {
        if self.work.next() {
            self.stage = Stage::LocateModule;
        } else {
            self.work.sort();
            self.stage = Stage::CreateManifest;
        }
        assert(self@ =~= old(self)@.next_module());
    }

    /// Records the module that is being worked on, and goes on.
    fn module_done(&mut self, dependencies: Vec<String>)
        requires
            old(self)@.work.processed.len() > 0,
        ensures
            final(self)@ == old(self)@.extracted(text::views(dependencies@)),
    {
        let ghost start = self@;
        let name: String = self.work.current().to_owned();
        let path: RawPath = self.stored_module();
        let shown: Vec<String> = text::copy_all(&dependencies);
        self.tell(Notice::ModuleStored { name: name.clone(), dependencies: shown });
        let ghost told = self@;
        let module = ModuleInfo { name, path, dependencies };
        let ghost recorded = module@;
        self.work.record(module);
        assert(self@ =~= state::State {
            work: worklist::after_extracting(start.work, recorded),
            ..told
        });
        self.next_module();
    }

    /// Ends the extraction with success.
    fn complete(&mut self)
        ensures
            final(self)@ == old(self)@.complete(),
    {
        let notice = Notice::Complete {
            image: self.stored(KernelFile::Image),
            config: self.stored(KernelFile::Config),
            manifest: self.manifest(),
            modules_dir: self.modules_dir(),
            total: self.work.extracted().len(),
        };
        self.tell(notice);
        self.go(Stage::Finished);
    }

    /// The operation failed.
    fn on_failure(&mut self, detail: String)
        requires
            state::well_formed(old(self)@),
        ensures
            final(self)@ == state::after_failure(old(self)@, detail@),
    {
        match self.stage {
            Stage::QueryDeps => {
                let dependencies = process::get_module_deps_from_modinfo(None);
                self.module_done(dependencies);
            },
            Stage::RemoveTempDir => self.complete(),
            _ => {
                if let Some((kind, what)) = trouble_at(self.stage) {
                    self.fail(ExtractError::with_detail(kind, what, detail.as_str()));
                }
            },
        }
    }

    /// The operation was carried out.
    fn on_success(&mut self)
        ensures
            final(self)@ == state::after_success(old(self)@),
    {
        match self.stage {
            Stage::CreateOutputDir => self.go(Stage::CheckTempDir),
            Stage::CleanTempDir => {
                self.tell(Notice::ExtractingRpm);
                self.go(Stage::CreateExtractDir);
            },
            Stage::CreateExtractDir => self.go(Stage::RunRpm2cpio),
            Stage::SpawnCpio => self.go(Stage::FeedCpio),
            Stage::FeedCpio => self.go(Stage::WaitCpio),
            Stage::StoreFile(KernelFile::Image) => {
                let path = self.stored(KernelFile::Image);
                self.tell(Notice::ImageStored { path });
                self.tell(Notice::LocatingConfig);
                self.go(Stage::ListVersions(KernelFile::Config));
            },
            Stage::StoreFile(KernelFile::Config) => {
                let path = self.stored(KernelFile::Config);
                self.tell(Notice::ConfigStored { path });
                self.tell(Notice::ParsingConfig);
                self.go(Stage::ReadConfig);
            },
            Stage::CreateModulesDir => {
                self.tell(Notice::ExtractingModules);
                self.next_module();
            },
            Stage::Unpack(_) | Stage::WriteModule => self.go(Stage::QueryDeps),
            Stage::CreateManifest => self.go(Stage::WriteManifest),
            Stage::WriteManifest => self.go(Stage::RemoveTempDir),
            Stage::RemoveTempDir => self.complete(),
            _ => {},
        }
    }

    /// A question was answered.
    fn on_answer(&mut self, yes: bool)
        requires
            state::well_formed(old(self)@),
        ensures
            final(self)@ == state::after_answer(old(self)@, yes),
    {
        match self.stage {
            Stage::CheckTempDir => {
                if yes {
                    self.go(Stage::CleanTempDir);
                } else {
                    self.tell(Notice::ExtractingRpm);
                    self.go(Stage::CreateExtractDir);
                }
            },
            Stage::ProbeFirst(file) => {
                if yes {
                    self.source = layout::first_candidate(
                        file,
                        self.temp_dir().as_slice(),
                        self.version.as_slice(),
                    );
                    self.stage = Stage::StoreFile(file);
                } else {
                    self.stage = Stage::ProbeSecond(file);
                }
            },
            Stage::ProbeSecond(file) => {
                if yes {
                    if let Some(found) = layout::second_candidate(
                        file,
                        self.temp_dir().as_slice(),
                        self.version.as_slice(),
                    ) {
                        self.source = found;
                        self.stage = Stage::StoreFile(file);
                    }
                } else {
                    let error = layout::missing_file(file, self.temp_dir().as_slice());
                    self.fail(error);
                }
            },
            _ => {},
        }
        assert(self@ =~= state::after_answer(old(self)@, yes));
    }

    /// A program ran to its end.
    fn on_program(&mut self, output: CommandOutput)
        requires
            state::well_formed(old(self)@),
        ensures
            final(self)@ == state::after_program(old(self)@, output@),
    {
        if self.stage == Stage::QueryDeps {
            let dependencies = process::get_module_deps_from_modinfo(Some(&output));
            self.module_done(dependencies);
            return;
        }
        if !output.success {
            if let Some((kind, what)) = program_trouble_at(self.stage) {
                let detail: String = decode::decode_lossy(output.stderr.as_slice());
                self.fail(ExtractError::with_detail(kind, what, detail.as_str()));
            }
            return;
        }
        match self.stage {
            Stage::RunRpm2cpio => {
                self.payload = output.stdout;
                self.stage = Stage::SpawnCpio;
            },
            Stage::WaitCpio => {
                self.tell(Notice::LocatingImage);
                self.go(Stage::ListVersions(KernelFile::Image));
            },
            Stage::Unpack(_) => {
                self.payload = output.stdout;
                self.stage = Stage::WriteModule;
            },
            _ => {},
        }
        assert(self@ =~= state::after_program(old(self)@, output@));
    }

    /// The kernel versions were listed.
    fn on_listing(&mut self, entries: Vec<Option<DirEntry>>)
        ensures
            final(self)@ == state::after_listing(old(self)@, layout::items_of(entries@)),
    {
        match layout::find_version(&entries) {
            Err(error) => self.fail(error),
            Ok(version) => {
                self.version = version;
                assert(self@ =~= state::State { version: version@, ..old(self)@ });
                match self.stage {
                    Stage::ListVersions(file) => self.go(Stage::ProbeFirst(file)),
                    _ => {
                        if !self.work.is_idle() {
                            self.go(Stage::CreateModulesDir);
                        } else {
                            self.tell(Notice::ExtractingModules);
                            self.next_module();
                        }
                    },
                }
            },
        }
    }

    /// Tells the values of the required options.
    fn tell_options(&mut self)
        ensures
            final(self)@ == (state::State {
                log: old(self)@.log + state::option_notices(old(self)@.config),
                ..old(self)@
            }),
    {
        let options = ConfigOption::required();
        let ghost start = self@;
        let ghost notices = state::option_notices(start.config);
        let mut i: usize = 0;
        assert(start.log + notices.take(0) =~= start.log);
        while i < options.len()
            invariant
                i <= options@.len(),
                options@ == config::required_options(),
                notices == state::option_notices(start.config),
                self@ == (state::State { log: start.log + notices.take(i as int), ..start }),
            decreases options@.len() - i,
        {
            let option: ConfigOption = options[i];
            let value = self.config.value(option);
            let ghost before = self@;
            self.tell(Notice::OptionValue { option, value });
            assert(start.log + notices.take(i + 1) =~= before.log.push(notices[i as int]));
            i = i + 1;
        }
        assert(notices.take(i as int) =~= notices);
    }

    /// The kernel config was read.
    fn on_reading(&mut self, read: FileRead)
        ensures
            final(self)@ == state::after_reading(
                old(self)@,
                read.bytes@,
                text::option_view(read.error),
            ),
    {
        match config::parse_kernel_config(&read) {
            Err(error) => self.fail(error),
            Ok(known) => {
                self.config = known;
                self.tell_options();
                self.work = Worklist::new(config::modules_needed(&self.config));
                self.stage = Stage::ListModules;
                assert(self@ =~= state::after_reading(
                    old(self)@,
                    read.bytes@,
                    text::option_view(read.error),
                ));
            },
        }
    }

    /// The modules directory was walked.
    fn on_walk(&mut self, listing: Listing)
        requires
            old(self)@.work.processed.len() > 0,
        ensures
            final(self)@ == state::after_walk(old(self)@, listing),
    {
        match tree::find_module_path(self.search_dir().as_slice(), &listing, self.work.current()) {
            Some(source) => {
                self.stage = Stage::Unpack(layout::module_packing(source.as_slice()));
                self.source = source;
                assert(self@ =~= state::after_walk(old(self)@, listing));
            },
            None => {
                let name: String = self.work.current().to_owned();
                self.tell(Notice::ModuleMissing { name });
                self.next_module();
            },
        }
    }

    /// Goes on with what came of the operation that was waited for.
    pub fn step(self, event: Event) -> (next: Extraction)
        requires
            state::well_formed(self@),
            state::acceptable(self@, event@),
        ensures
            next@ == state::advance(self@, event@),
            state::well_formed(next@),
    {
        let mut next: Extraction = self;
        match event {
            Event::Done => next.on_success(),
            Event::Failed { detail } => next.on_failure(detail),
            Event::Answer { yes } => next.on_answer(yes),
            Event::Ended { output } => next.on_program(output),
            Event::Listed { entries } => next.on_listing(entries),
            Event::Contents { read } => next.on_reading(read),
            Event::Walked { listing } => next.on_walk(listing),
        }
        proof {
            state::law_step_keeps_well_formed(self@, event@);
        }
        next
    }

    /// The outcome, once the extraction has ended.
    pub fn outcome(self) -> (res: Option<Result<KernelExtractInfo, ExtractError>>)
        ensures
            match res {
                Some(Ok(info)) => {
                    &&& self@.stage is Finished
                    &&& self@.failure is None
                    &&& info@ == self@.info()
                },
                Some(Err(error)) => self@.stage is Finished && self@.failure == Some(error@),
                None => !(self@.stage is Finished),
            },
    {
        if self.stage != Stage::Finished {
            return None;
        }
        let kernel_image = self.stored(KernelFile::Image);
        let kernel_config = self.stored(KernelFile::Config);
        let modules_manifest = self.manifest();
        match self.failure {
            Some(error) => Some(Err(error)),
            None => Some(
                Ok(
                    KernelExtractInfo {
                        kernel_image,
                        kernel_config,
                        modules: self.work.into_extracted(),
                        modules_manifest,
                    },
                ),
            ),
        }
    }
}

} // verus!
