//! What the user has been told by the time an extraction has come to its stage.

use vstd::prelude::*;

use crate::config;
use crate::config::ConfigOption;
use crate::layout;
use crate::layout::KernelFile;
use crate::modules;
use crate::process;
use crate::protocol;
use crate::runs;
use crate::state;
use crate::state::Stage;
use crate::tree;
use crate::worklist;

verus! {

/// What is told before the modules, up to the point that an extraction has come to.
pub open spec fn opening(s: state::State) -> Seq<protocol::Told> {
    let n = runs::progress(s.stage);
    let value = |option: ConfigOption|
        protocol::Told::OptionValue { option, value: config::value_in(s.config, option) };
    let unpacking = seq![protocol::Told::ExtractingRpm];
    let image = unpacking.push(protocol::Told::LocatingImage);
    let config = image + seq![
        protocol::Told::ImageStored { path: s.stored(KernelFile::Image) },
        protocol::Told::LocatingConfig,
    ];
    let parsing = config + seq![
        protocol::Told::ConfigStored { path: s.stored(KernelFile::Config) },
        protocol::Told::ParsingConfig,
    ];
    let options = parsing + seq![
        value(ConfigOption::Nsm),
        value(ConfigOption::VirtioVsockets),
        value(ConfigOption::VirtioMmio),
        value(ConfigOption::VirtioMmioCmdlineDevices),
    ];
    if n < 3 {
        Seq::empty()
    } else if n < 8 {
        unpacking
    } else if n < 12 {
        image
    } else if n < 16 {
        config
    } else if n < 17 {
        parsing
    } else if n < 19 {
        options
    } else {
        options.push(protocol::Told::ExtractingModules)
    }
}

/// How many modules are done with.
pub open spec fn done(s: state::State) -> int {
    if state::at_module(s.stage) {
        s.work.processed.len() - 1
    } else {
        s.work.processed.len() as int
    }
}

/// What the user was told of a module: that it was stored, with its dependencies, or that it is
/// missing.
pub open spec fn module_told(
    list: Seq<modules::Module>,
    name: Seq<char>,
    told: protocol::Told,
) -> bool {
    ||| told == (protocol::Told::ModuleMissing { name }) && !modules::has_named(list, name)
    ||| exists|module: modules::Module| #[trigger]
        list.contains(module) && module.name == name && told == (protocol::Told::ModuleStored {
            name,
            dependencies: module.dependencies,
        })
}

/// The user was told what an extraction at this stage has to tell: what comes before the
/// modules, then one notice for each module that is done with, in the order in which they were
/// looked at, and at the end of a success the summary.
pub open spec fn told_all(s: state::State) -> bool {
    s.failure is None ==> {
        &&& runs::progress(s.stage) < 19 ==> s.log == opening(s)
        &&& runs::progress(s.stage) >= 19 ==> {
            &&& s.log.len() == 11 + done(s) + if s.stage is Finished {
                1int
            } else {
                0
            }
            &&& s.log.take(11) == opening(s)
            &&& forall|k: int|
                0 <= k < done(s) ==> module_told(
                    s.work.extracted,
                    #[trigger] s.work.processed[k],
                    s.log[11 + k],
                )
        }
        &&& s.stage is Finished ==> s.log.last() == protocol::Told::Complete {
            image: s.stored(KernelFile::Image),
            config: s.stored(KernelFile::Config),
            manifest: s.manifest(),
            modules_dir: s.modules_dir(),
            total: s.work.extracted.len(),
        }
    }
}

/// What holds of the log where all modules that were looked at are done with.
spec fn told_modules(s: state::State) -> bool {
    &&& s.log.len() == 11 + s.work.processed.len()
    &&& s.log.take(11) == opening(s.at(Stage::CreateManifest))
    &&& forall|k: int|
        0 <= k < s.work.processed.len() ==> module_told(
            s.work.extracted,
            #[trigger] s.work.processed[k],
            s.log[11 + k],
        )
}

proof fn lemma_next_module_told(s: state::State)
    requires
        modules_ready(s),
        told_modules(s),
    ensures
        told_all(s.next_module()),
{
    let next = s.next_module();
    worklist::lemma_next(s.work, config::needed_modules(s.config));
    modules::law_by_name_sorts(s.work.extracted);
    assert(next.log.take(11) == opening(next));
    assert forall|k: int| 0 <= k < done(next) implies module_told(
        next.work.extracted,
        #[trigger] next.work.processed[k],
        next.log[11 + k],
    ) by {
        let name = s.work.processed[k];
        assert(next.work.processed.drop_last() =~= s.work.processed || next.work.processed
            == s.work.processed);
        assert(next.work.processed[k] == name) by {
            if worklist::has_next(s.work) {
                assert(next.work.processed.drop_last()[k] == name);
            }
        }
        assert(module_told(s.work.extracted, name, s.log[11 + k]));
        if !worklist::has_next(s.work) {
            lemma_told_of_same(s.work.extracted, next.work.extracted, name, s.log[11 + k]);
        }
    }
}

/// The modules can be gone on with.
spec fn modules_ready(s: state::State) -> bool {
    &&& s.failure is None
    &&& worklist::consistent(s.work, config::needed_modules(s.config))
}

proof fn lemma_told_of_same(
    a: Seq<modules::Module>,
    b: Seq<modules::Module>,
    name: Seq<char>,
    told: protocol::Told,
)
    requires
        a.to_multiset() == b.to_multiset(),
        module_told(a, name, told),
    ensures
        module_told(b, name, told),
{
    if modules::has_named(b, name) {
        let i = choose|i: int| 0 <= i < b.len() && (#[trigger] b[i]).name == name;
        assert(b.contains(b[i]));
        modules::lemma_same_members(a, b, b[i]);
        let k = choose|k: int| 0 <= k < a.len() && a[k] == b[i];
        assert(a[k].name == name);
    }
    if exists|module: modules::Module| #[trigger]
        a.contains(module) && module.name == name && told == (protocol::Told::ModuleStored {
            name,
            dependencies: module.dependencies,
        }) {
        let module = choose|module: modules::Module| #[trigger]
            a.contains(module) && module.name == name && told == (protocol::Told::ModuleStored {
                name,
                dependencies: module.dependencies,
            });
        modules::lemma_same_members(a, b, module);
    }
}

/// One more module leaves what was told of others right.
proof fn lemma_told_of_more(
    list: Seq<modules::Module>,
    new: modules::Module,
    name: Seq<char>,
    told: protocol::Told,
)
    requires
        module_told(list, name, told),
        name != new.name,
    ensures
        module_told(list.push(new), name, told),
{
    let more = list.push(new);
    if modules::has_named(more, name) {
        let i = choose|i: int| 0 <= i < more.len() && (#[trigger] more[i]).name == name;
        assert(list[i].name == name);
    }
    if exists|module: modules::Module| #[trigger]
        list.contains(module) && module.name == name && told == (protocol::Told::ModuleStored {
            name,
            dependencies: module.dependencies,
        }) {
        let module = choose|module: modules::Module| #[trigger]
            list.contains(module) && module.name == name && told == (protocol::Told::ModuleStored {
                name,
                dependencies: module.dependencies,
            });
        let i = choose|i: int| 0 <= i < list.len() && list[i] == module;
        assert(more[i] == module);
        assert(more.contains(module));
    }
}

proof fn lemma_module_done(s: state::State, dependencies: Seq<Seq<char>>)
    requires
        state::well_formed(s),
        told_all(s),
        s.failure is None,
        s.stage is QueryDeps,
    ensures
        told_all(s.extracted(dependencies)),
{
    let new = modules::Module { name: s.current(), path: s.stored_module(), dependencies };
    let told = s.telling(protocol::Told::ModuleStored { name: s.current(), dependencies });
    let mid = state::State { work: worklist::after_extracting(s.work, new), ..told };
    worklist::lemma_extracting(s.work, config::needed_modules(s.config), new);
    let n = s.work.processed.len() - 1;
    assert(mid.log.take(11) =~= s.log.take(11));
    assert(opening(mid.at(Stage::CreateManifest)) == opening(s));
    assert forall|k: int| 0 <= k < mid.work.processed.len() implies module_told(
        mid.work.extracted,
        #[trigger] mid.work.processed[k],
        mid.log[11 + k],
    ) by {
        if k < n {
            assert(module_told(s.work.extracted, s.work.processed[k], s.log[11 + k]));
            assert(s.work.processed[k] != s.work.processed[n]);
            lemma_told_of_more(s.work.extracted, new, s.work.processed[k], s.log[11 + k]);
        } else {
            assert(mid.work.extracted[s.work.extracted.len() as int] == new);
            assert(mid.work.extracted.contains(new));
        }
    }
    lemma_next_module_told(mid);
}

proof fn lemma_module_missed(s: state::State)
    requires
        state::well_formed(s),
        told_all(s),
        s.failure is None,
        s.stage is LocateModule,
    ensures
        told_all(s.telling(protocol::Told::ModuleMissing { name: s.current() }).next_module()),
{
    let mid = s.telling(protocol::Told::ModuleMissing { name: s.current() });
    let n = s.work.processed.len() - 1;
    assert(mid.log.take(11) =~= s.log.take(11));
    assert(opening(mid.at(Stage::CreateManifest)) == opening(s));
    assert forall|k: int| 0 <= k < mid.work.processed.len() implies module_told(
        mid.work.extracted,
        #[trigger] mid.work.processed[k],
        mid.log[11 + k],
    ) by {
        if k < n {
            assert(module_told(s.work.extracted, s.work.processed[k], s.log[11 + k]));
        }
    }
    lemma_next_module_told(mid);
}

/// The modules are begun.
proof fn lemma_modules_begun(s: state::State, version: Seq<u8>)
    requires
        state::well_formed(s),
        told_all(s),
        s.failure is None,
        s.stage is ListModules || s.stage is CreateModulesDir,
    ensures
        told_all(
            state::State { version, ..s }.telling(protocol::Told::ExtractingModules).next_module(),
        ),
{
    let mid = state::State { version, ..s }.telling(protocol::Told::ExtractingModules);
    assert(mid.log.take(11) =~= opening(mid.at(Stage::CreateManifest)));
    lemma_next_module_told(mid);
}

/// Every step tells what its stage has to tell.
pub proof fn lemma_step_tells(s: state::State, reply: protocol::Reply)
    requires
        state::well_formed(s),
        state::acceptable(s, reply),
        told_all(s),
    ensures
        told_all(state::advance(s, reply)),
{
    let next = state::advance(s, reply);
    if next.failure is None {
        match s.stage {
            Stage::QueryDeps => {
                lemma_module_done(s, process::reported_deps(runs::output_in(reply)));
            },
            Stage::LocateModule => {
                if let protocol::Reply::Walked { listing } = reply {
                    let dir = layout::version_dir_of(s.temp_dir(), s.version);
                    if tree::module_file(dir, listing, s.current()) is None {
                        lemma_module_missed(s);
                    }
                }
            },
            Stage::CreateModulesDir => {
                lemma_modules_begun(s, s.version);
            },
            Stage::ListModules => {
                if let protocol::Reply::Listed { items } = reply {
                    if let Some(version) = layout::first_dir(items) {
                        lemma_modules_begun(s, version);
                    }
                }
            },
            Stage::ReadConfig => {
                assert(next.log =~= opening(next));
            },
            Stage::RemoveTempDir => {
                assert(next.log.take(11) =~= s.log.take(11));
            },
            _ => {
                if runs::progress(next.stage) < 19 {
                    assert(next.log =~= opening(next));
                }
            },
        }
    }
}

/// At every point the user was told what there is to tell: what comes before the modules; of
/// each module that was looked at, in that order, that it was stored, and on what it depends,
/// or that it is missing; and at the end of a success where the results are.
pub proof fn law_user_is_told(
    rpm_path: Seq<u8>,
    output_dir: Seq<u8>,
    arch: Seq<char>,
    replies: Seq<protocol::Reply>,
)
    requires
        runs::legal(state::initial(rpm_path, output_dir, arch), replies),
    ensures
        told_all(runs::run(state::initial(rpm_path, output_dir, arch), replies)),
    decreases replies.len(),
{
    let start = state::initial(rpm_path, output_dir, arch);
    if replies.len() == 0 {
        reveal(runs::run);
    } else {
        let before = replies.drop_last();
        assert(replies =~= before.push(replies.last()));
        law_user_is_told(rpm_path, output_dir, arch, before);
        runs::law_runs(rpm_path, output_dir, arch, before);
        runs::lemma_run_push(start, before, replies.last());
        lemma_step_tells(runs::run(start, before), replies.last());
    }
}

} // verus!
