//! What an extraction asks of the system, what the system answers, and what the user is told.

use vstd::prelude::*;

use crate::config::{ConfigOption, ConfigValue, FileRead};
use crate::layout;
use crate::layout::DirEntry;
use crate::path::RawPath;
use crate::process;
use crate::process::CommandOutput;
use crate::text;
use crate::tree::Listing;

verus! {

/// An operation that the system is asked to perform.
#[derive(Debug)]
pub enum Request {
    /// Create a directory, with its parents, unless it is there.
    CreateDir { path: RawPath },
    /// Tell whether anything is at a path.
    Exists { path: RawPath },
    /// Remove a directory with all it holds.
    RemoveDir { path: RawPath },
    /// Run a program to its end and collect what it writes.
    Run { program: &'static str, args: Vec<RawPath> },
    /// Start a program in a directory, with its standard input open.
    Spawn { program: &'static str, args: Vec<RawPath>, dir: RawPath },
    /// Write to the standard input of the program that was started.
    Feed { input: Vec<u8> },
    /// Wait for the end of the program that was started and collect what it writes.
    Wait,
    /// List a directory.
    List { path: RawPath },
    /// Copy a file.
    Copy { from: RawPath, to: RawPath },
    /// Open a file and read it.
    Read { path: RawPath },
    /// List a directory and all directories below it.
    Walk { path: RawPath },
    /// Store bytes as a file.
    Write { path: RawPath, contents: Vec<u8> },
    /// Create an empty file and keep it open.
    Create { path: RawPath },
    /// Write to the file that was created.
    Append { text: String },
    /// Nothing: the extraction has ended.
    Nothing,
}

/// A request, as contracts speak of it.
#[verifier::ext_equal]
pub enum Ask {
    CreateDir { path: Seq<u8> },
    Exists { path: Seq<u8> },
    RemoveDir { path: Seq<u8> },
    Run { program: Seq<char>, args: Seq<Seq<u8>> },
    Spawn { program: Seq<char>, args: Seq<Seq<u8>>, dir: Seq<u8> },
    Feed { input: Seq<u8> },
    Wait,
    List { path: Seq<u8> },
    Copy { from: Seq<u8>, to: Seq<u8> },
    Read { path: Seq<u8> },
    Walk { path: Seq<u8> },
    Write { path: Seq<u8>, contents: Seq<u8> },
    Create { path: Seq<u8> },
    Append { text: Seq<char> },
    Nothing,
}

impl View for Request {
    type V = Ask;

    open spec fn view(&self) -> Ask {
        match *self {
            Request::CreateDir { path } => Ask::CreateDir { path: path@ },
            Request::Exists { path } => Ask::Exists { path: path@ },
            Request::RemoveDir { path } => Ask::RemoveDir { path: path@ },
            Request::Run { program, args } => Ask::Run {
                program: program@,
                args: text::byte_views(args@),
            },
            Request::Spawn { program, args, dir } => Ask::Spawn {
                program: program@,
                args: text::byte_views(args@),
                dir: dir@,
            },
            Request::Feed { input } => Ask::Feed { input: input@ },
            Request::Wait => Ask::Wait,
            Request::List { path } => Ask::List { path: path@ },
            Request::Copy { from, to } => Ask::Copy { from: from@, to: to@ },
            Request::Read { path } => Ask::Read { path: path@ },
            Request::Walk { path } => Ask::Walk { path: path@ },
            Request::Write { path, contents } => Ask::Write { path: path@, contents: contents@ },
            Request::Create { path } => Ask::Create { path: path@ },
            Request::Append { text } => Ask::Append { text: text@ },
            Request::Nothing => Ask::Nothing,
        }
    }
}

/// What came of a request.
pub enum Event {
    /// It was carried out.
    Done,
    /// It failed, with the system's description of the error.
    Failed { detail: String },
    /// The answer to a question.
    Answer { yes: bool },
    /// A program ran to its end.
    Ended { output: CommandOutput },
    /// A directory was listed; an item that could not be read is `None`.
    Listed { entries: Vec<Option<DirEntry>> },
    /// A file was opened, and read as far as it could be.
    Contents { read: FileRead },
    /// A directory was walked.
    Walked { listing: Listing },
}

/// An event, as contracts speak of it.
pub enum Reply {
    Done,
    Failed { detail: Seq<char> },
    Answer { yes: bool },
    Ended { output: process::Output },
    Listed { items: Seq<Option<layout::Item>> },
    Contents { bytes: Seq<u8>, error: Option<Seq<char>> },
    Walked { listing: Listing },
}

impl View for Event {
    type V = Reply;

    open spec fn view(&self) -> Reply {
        match *self {
            Event::Done => Reply::Done,
            Event::Failed { detail } => Reply::Failed { detail: detail@ },
            Event::Answer { yes } => Reply::Answer { yes },
            Event::Ended { output } => Reply::Ended { output: output@ },
            Event::Listed { entries } => Reply::Listed { items: layout::items_of(entries@) },
            Event::Contents { read } => Reply::Contents {
                bytes: read.bytes@,
                error: text::option_view(read.error),
            },
            Event::Walked { listing } => Reply::Walked { listing },
        }
    }
}

/// Something that the user is told.
#[derive(Debug)]
pub enum Notice {
    /// The package is about to be unpacked.
    ExtractingRpm,
    /// The kernel image is being looked for.
    LocatingImage,
    /// The kernel image was stored.
    ImageStored { path: RawPath },
    /// The kernel config is being looked for.
    LocatingConfig,
    /// The kernel config was stored.
    ConfigStored { path: RawPath },
    /// The kernel config is about to be parsed.
    ParsingConfig,
    /// The value of a required option.
    OptionValue { option: ConfigOption, value: ConfigValue },
    /// The modules are about to be extracted.
    ExtractingModules,
    /// A module was extracted.
    ModuleStored { name: String, dependencies: Vec<String> },
    /// A module was not found.
    ModuleMissing { name: String },
    /// The extraction succeeded.
    Complete {
        /// Where the kernel image is.
        image: RawPath,
        /// Where the kernel config is.
        config: RawPath,
        /// Where the manifest is.
        manifest: RawPath,
        /// Where the modules are.
        modules_dir: RawPath,
        /// How many modules there are.
        total: usize,
    },
}

/// A notice, as contracts speak of it.
#[verifier::ext_equal]
pub enum Told {
    ExtractingRpm,
    LocatingImage,
    ImageStored { path: Seq<u8> },
    LocatingConfig,
    ConfigStored { path: Seq<u8> },
    ParsingConfig,
    OptionValue { option: ConfigOption, value: ConfigValue },
    ExtractingModules,
    ModuleStored { name: Seq<char>, dependencies: Seq<Seq<char>> },
    ModuleMissing { name: Seq<char> },
    Complete {
        image: Seq<u8>,
        config: Seq<u8>,
        manifest: Seq<u8>,
        modules_dir: Seq<u8>,
        total: nat,
    },
}

impl View for Notice {
    type V = Told;

    open spec fn view(&self) -> Told {
        match *self {
            Notice::ExtractingRpm => Told::ExtractingRpm,
            Notice::LocatingImage => Told::LocatingImage,
            Notice::ImageStored { path } => Told::ImageStored { path: path@ },
            Notice::LocatingConfig => Told::LocatingConfig,
            Notice::ConfigStored { path } => Told::ConfigStored { path: path@ },
            Notice::ParsingConfig => Told::ParsingConfig,
            Notice::OptionValue { option, value } => Told::OptionValue { option, value },
            Notice::ExtractingModules => Told::ExtractingModules,
            Notice::ModuleStored { name, dependencies } => Told::ModuleStored {
                name: name@,
                dependencies: text::views(dependencies@),
            },
            Notice::ModuleMissing { name } => Told::ModuleMissing { name: name@ },
            Notice::Complete { image, config, manifest, modules_dir, total } => Told::Complete {
                image: image@,
                config: config@,
                manifest: manifest@,
                modules_dir: modules_dir@,
                total: total as nat,
            },
        }
    }
}

/// The notices, as contracts speak of them.
pub open spec fn told(notices: Seq<Notice>) -> Seq<Told> {
    notices.map_values(|notice: Notice| notice@)
}

/// A request is known by what it asks for and by all that it names.
pub proof fn law_request_view(request: Request)
    ensures
        request@ is Wait <==> request is Wait,
        request@ is Nothing <==> request is Nothing,
        request matches Request::CreateDir { path } ==> request@ == (Ask::CreateDir { path: path@ }),
        request matches Request::Exists { path } ==> request@ == (Ask::Exists { path: path@ }),
        request matches Request::RemoveDir { path } ==> request@ == (Ask::RemoveDir { path: path@ }),
        request matches Request::Run { program, args } ==> {
            &&& request@ matches Ask::Run { program: p, args: a }
            &&& p == program@
            &&& a.len() == args@.len()
            &&& forall|i: int| 0 <= i < a.len() ==> #[trigger] a[i] == args@[i]@
        },
        request matches Request::Spawn { program, args, dir } ==> {
            &&& request@ matches Ask::Spawn { program: p, args: a, dir: d }
            &&& p == program@
            &&& d == dir@
            &&& a.len() == args@.len()
            &&& forall|i: int| 0 <= i < a.len() ==> #[trigger] a[i] == args@[i]@
        },
        request matches Request::Feed { input } ==> request@ == (Ask::Feed { input: input@ }),
        request matches Request::List { path } ==> request@ == (Ask::List { path: path@ }),
        request matches Request::Copy { from, to } ==> request@ == (Ask::Copy {
            from: from@,
            to: to@,
        }),
        request matches Request::Read { path } ==> request@ == (Ask::Read { path: path@ }),
        request matches Request::Walk { path } ==> request@ == (Ask::Walk { path: path@ }),
        request matches Request::Write { path, contents } ==> request@ == (Ask::Write {
            path: path@,
            contents: contents@,
        }),
        request matches Request::Create { path } ==> request@ == (Ask::Create { path: path@ }),
        request matches Request::Append { text } ==> request@ == (Ask::Append { text: text@ }),
{
}

/// An event is known by what came of the request and by all that it brings.
pub proof fn law_event_view(event: Event)
    ensures
        event is Done <==> event@ is Done,
        event matches Event::Failed { detail } ==> event@ == (Reply::Failed { detail: detail@ }),
        event matches Event::Answer { yes } ==> event@ == (Reply::Answer { yes }),
        event matches Event::Ended { output } ==> event@ == (Reply::Ended {
            output: process::Output {
                success: output.success,
                stdout: output.stdout@,
                stderr: output.stderr@,
            },
        }),
        event matches Event::Listed { entries } ==> {
            &&& event@ matches Reply::Listed { items }
            &&& items.len() == entries@.len()
            &&& forall|i: int|
                0 <= i < items.len() ==> match entries@[i] {
                    Some(entry) => #[trigger] items[i] == Some(
                        layout::Item { name: entry.name@, is_dir: entry.is_dir },
                    ),
                    None => items[i] is None,
                }
        },
        event matches Event::Contents { read } ==> {
            &&& event@ matches Reply::Contents { bytes, error }
            &&& bytes == read.bytes@
            &&& error is None <==> read.error is None
            &&& read.error matches Some(detail) ==> error == Some(detail@)
        },
        event matches Event::Walked { listing } ==> event@ == (Reply::Walked { listing }),
{
}

/// A notice is known by what it tells and by all that it names.
pub proof fn law_notice_view(notice: Notice)
    ensures
        notice is ExtractingRpm <==> notice@ is ExtractingRpm,
        notice is LocatingImage <==> notice@ is LocatingImage,
        notice is LocatingConfig <==> notice@ is LocatingConfig,
        notice is ParsingConfig <==> notice@ is ParsingConfig,
        notice is ExtractingModules <==> notice@ is ExtractingModules,
        notice matches Notice::ImageStored { path } ==> notice@ == (Told::ImageStored {
            path: path@,
        }),
        notice matches Notice::ConfigStored { path } ==> notice@ == (Told::ConfigStored {
            path: path@,
        }),
        notice matches Notice::OptionValue { option, value } ==> notice@ == (Told::OptionValue {
            option,
            value,
        }),
        notice matches Notice::ModuleStored { name, dependencies } ==> {
            &&& notice@ matches Told::ModuleStored { name: n, dependencies: d }
            &&& n == name@
            &&& d.len() == dependencies@.len()
            &&& forall|i: int| 0 <= i < d.len() ==> #[trigger] d[i] == dependencies@[i]@
        },
        notice matches Notice::ModuleMissing { name } ==> notice@ == (Told::ModuleMissing {
            name: name@,
        }),
        notice matches Notice::Complete { image, config, manifest, modules_dir, total } ==> notice@
            == (Told::Complete {
            image: image@,
            config: config@,
            manifest: manifest@,
            modules_dir: modules_dir@,
            total: total as nat,
        }),
{
}

/// Notices are taken one for one.
pub proof fn law_told(notices: Seq<Notice>, i: int)
    requires
        0 <= i < notices.len(),
    ensures
        told(notices).len() == notices.len(),
        told(notices)[i] == notices[i]@,
{
}

} // verus!
