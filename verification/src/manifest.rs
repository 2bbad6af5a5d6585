//! The manifest of the extracted modules.

use vstd::prelude::*;

use crate::config;
use crate::config::{ConfigOption, ConfigValue, KernelConfig};
use crate::modules;
use crate::modules::ModuleInfo;
use crate::text;

verus! {

broadcast use vstd::string::group_string_axioms;

/// How the manifest writes the value of an option.
pub open spec fn value_text(value: ConfigValue) -> Seq<char> {
    match value {
        ConfigValue::BuiltIn => "y (built-in)"@,
        ConfigValue::Module => "m (module)"@,
        ConfigValue::NotSet => "not set"@,
    }
}

/// How a report to the user writes the value of an option.
pub open spec fn report_text(value: ConfigValue) -> Seq<char> {
    match value {
        ConfigValue::BuiltIn => "built-in (y)"@,
        ConfigValue::Module => "module (m)"@,
        ConfigValue::NotSet => "not set"@,
    }
}

/// The line of an option.
pub open spec fn option_line(
    known: Map<ConfigOption, ConfigValue>,
    option: ConfigOption,
) -> Seq<char> {
    "#   "@ + config::option_name(option) + "="@ + value_text(config::value_in(known, option))
}

/// The line of a module: its name, and behind a colon what it depends on, if anything.
pub open spec fn module_line(module: modules::Module) -> Seq<char> {
    if module.dependencies.len() == 0 {
        module.name
    } else {
        module.name + ": "@ + text::joined(module.dependencies, ", "@)
    }
}

/// The lines in front of the options.
pub open spec fn header_lines() -> Seq<Seq<char>> {
    seq![
        "# Kernel modules extracted for Nitro Enclaves"@,
        "# Format: module_name: dependency1, dependency2, ..."@,
        ""@,
        "# Config options:"@,
    ]
}

/// The lines of the options.
pub open spec fn option_lines(known: Map<ConfigOption, ConfigValue>) -> Seq<Seq<char>> {
    config::required_options().map_values(|option: ConfigOption| option_line(known, option))
}

/// The lines of the modules.
pub open spec fn module_lines(list: Seq<modules::Module>) -> Seq<Seq<char>> {
    if list.len() == 0 {
        seq!["# No modules needed - all required features are built-in"@]
    } else {
        seq!["# Extracted modules:"@] + list.map_values(|module: modules::Module| module_line(module))
    }
}

/// All lines of the manifest.
pub open spec fn manifest_lines(
    known: Map<ConfigOption, ConfigValue>,
    list: Seq<modules::Module>,
) -> Seq<Seq<char>> {
    header_lines() + option_lines(known) + seq![""@] + module_lines(list)
}

/// The lines, each with a line feed behind it.
pub open spec fn ended_lines(lines: Seq<Seq<char>>) -> Seq<char>
    decreases lines.len(),
{
    if lines.len() == 0 {
        Seq::empty()
    } else {
        ended_lines(lines.drop_last()) + lines.last() + "\n"@
    }
}

/// The manifest as a file holds it.
pub open spec fn manifest_text(
    known: Map<ConfigOption, ConfigValue>,
    list: Seq<modules::Module>,
) -> Seq<char> {
    ended_lines(manifest_lines(known, list))
}

/// A module without dependencies has its name for its line; any other has its name, a colon,
/// and all that it depends on.
pub proof fn law_module_line(module: modules::Module)
    ensures
        module.dependencies.len() == 0 ==> module_line(module) == module.name,
        module.dependencies.len() > 0 ==> module_line(module) == module.name + seq![':', ' ']
            + text::joined(module.dependencies, seq![',', ' ']),
{
    reveal_strlit(": ");
    reveal_strlit(", ");
    assert(": "@ =~= seq![':', ' ']);
    assert(", "@ =~= seq![',', ' ']);
}

/// Parts joined by a comma and a blank are parts joined by a comma, each but the first with a
/// blank before it.
proof fn lemma_blanks(parts: Seq<Seq<char>>)
    requires
        parts.len() > 0,
    ensures
        text::joined(parts, seq![',', ' ']) == text::joined(
            Seq::new(
                parts.len(),
                |i: int|
                    if i == 0 {
                        parts[i]
                    } else {
                        seq![' '] + parts[i]
                    },
            ),
            seq![','],
        ),
    decreases parts.len(),
{
    let spaced = Seq::new(
        parts.len(),
        |i: int|
            if i == 0 {
                parts[i]
            } else {
                seq![' '] + parts[i]
            },
    );
    if parts.len() > 1 {
        let front = parts.drop_last();
        lemma_blanks(front);
        assert(spaced.drop_last() =~= Seq::new(
            front.len(),
            |i: int|
                if i == 0 {
                    front[i]
                } else {
                    seq![' '] + front[i]
                },
        ));
        assert(text::joined(parts, seq![',', ' ']) =~= text::joined(spaced, seq![',']));
    }
}

/// A module's line can be read back: up to the first colon stands its name, and behind the
/// colon and a blank, between commas, what it depends on, each but the first with a blank
/// before it. A line without a colon is a module without dependencies.
pub proof fn law_module_line_reads_back(module: modules::Module)
    requires
        !module.name.contains(':'),
        forall|i: int|
            0 <= i < module.dependencies.len() ==> !#[trigger] module.dependencies[i].contains(','),
    ensures
        ({
            let line = module_line(module);
            let deps = module.dependencies;
            let at = text::first_position(line, ':');
            &&& at == module.name.len()
            &&& line.take(at) == module.name
            &&& deps.len() == 0 <==> at == line.len()
            &&& deps.len() > 0 ==> line[at + 1] == ' ' && text::pieces(line.skip(at + 2), ',')
                == Seq::new(
                deps.len(),
                |i: int|
                    if i == 0 {
                        deps[i]
                    } else {
                        seq![' '] + deps[i]
                    },
            )
        }),
{
    let line = module_line(module);
    let deps = module.dependencies;
    let name = module.name;
    law_module_line(module);
    if deps.len() == 0 {
        text::law_first_position(line, ':');
        let at = text::first_position(line, ':');
        if at < line.len() {
            assert(name.contains(line[at]));
        }
        assert(line.take(at) =~= name);
    } else {
        let list = text::joined(deps, seq![',', ' ']);
        let spaced = Seq::new(
            deps.len(),
            |i: int|
                if i == 0 {
                    deps[i]
                } else {
                    seq![' '] + deps[i]
                },
        );
        assert(line =~= name + seq![':'] + (seq![' '] + list));
        text::lemma_first_position(name, ':', seq![' '] + list);
        assert(line.take(name.len() as int) =~= name);
        assert(line.skip(name.len() as int + 2) =~= list);
        lemma_blanks(deps);
        assert forall|i: int| 0 <= i < spaced.len() implies !#[trigger] spaced[i].contains(',') by {
            assert(!deps[i].contains(','));
            if i > 0 {
                assert forall|j: int| 0 <= j < spaced[i].len() implies spaced[i][j] != ',' by {
                    if j > 0 {
                        assert(deps[i].contains(deps[i][j - 1]));
                    }
                }
            }
        }
        text::law_joined_pieces(spaced, ',');
    }
}

/// How an option stands in the manifest: built-in as `y`, a module as `m`.
pub proof fn law_option_line(known: Map<ConfigOption, ConfigValue>, option: ConfigOption)
    ensures
        ({
            let set = known.dom().contains(option);
            let status = if set && known[option] == ConfigValue::BuiltIn {
                "y (built-in)"@
            } else if set && known[option] == ConfigValue::Module {
                "m (module)"@
            } else {
                "not set"@
            };
            option_line(known, option) == "#   "@ + config::option_name(option) + "="@ + status
        }),
{
}

/// Lines with a line feed behind each are the lines joined by line feeds, and one more.
proof fn lemma_ended_lines(lines: Seq<Seq<char>>)
    requires
        lines.len() > 0,
    ensures
        ended_lines(lines) == text::joined(lines, "\n"@) + "\n"@,
    decreases lines.len(),
{
    if lines.len() > 1 {
        lemma_ended_lines(lines.drop_last());
    } else {
        assert(lines.drop_last() =~= Seq::<Seq<char>>::empty());
        assert(ended_lines(lines.drop_last()) =~= Seq::<char>::empty());
        assert(ended_lines(lines) =~= lines[0] + "\n"@);
    }
}

/// The manifest is made of these lines: two of introduction, the required options in their
/// order, and the modules in theirs, or a remark that none is needed.
pub proof fn law_manifest(known: Map<ConfigOption, ConfigValue>, list: Seq<modules::Module>)
    ensures
        manifest_text(known, list) == text::joined(
            seq![
                "# Kernel modules extracted for Nitro Enclaves"@,
                "# Format: module_name: dependency1, dependency2, ..."@,
                ""@,
                "# Config options:"@,
                option_line(known, ConfigOption::Nsm),
                option_line(known, ConfigOption::VirtioVsockets),
                option_line(known, ConfigOption::VirtioMmio),
                option_line(known, ConfigOption::VirtioMmioCmdlineDevices),
                ""@,
                if list.len() == 0 {
                    "# No modules needed - all required features are built-in"@
                } else {
                    "# Extracted modules:"@
                },
            ] + Seq::new(list.len(), |i: int| module_line(list[i])),
            "\n"@,
        ) + "\n"@,
{
    let lines = seq![
        "# Kernel modules extracted for Nitro Enclaves"@,
        "# Format: module_name: dependency1, dependency2, ..."@,
        ""@,
        "# Config options:"@,
        option_line(known, ConfigOption::Nsm),
        option_line(known, ConfigOption::VirtioVsockets),
        option_line(known, ConfigOption::VirtioMmio),
        option_line(known, ConfigOption::VirtioMmioCmdlineDevices),
        ""@,
        if list.len() == 0 {
            "# No modules needed - all required features are built-in"@
        } else {
            "# Extracted modules:"@
        },
    ] + Seq::new(list.len(), |i: int| module_line(list[i]));
    assert(manifest_lines(known, list) =~= lines);
    lemma_ended_lines(lines);
}

/// Every module has a line of its own in the manifest, and no other line stands behind the
/// heading: cut at its line feeds, the manifest ends in the modules' lines.
pub proof fn law_manifest_lists_modules(
    known: Map<ConfigOption, ConfigValue>,
    list: Seq<modules::Module>,
    i: int,
)
    requires
        forall|k: int| 0 <= k < list.len() ==> !#[trigger] module_line(list[k]).contains('\n'),
        0 <= i < list.len(),
    ensures
        text::pieces(manifest_text(known, list), '\n').len() == list.len() + 11,
        text::pieces(manifest_text(known, list), '\n')[10 + i] == module_line(list[i]),
{
    let lines = manifest_lines(known, list);
    reveal_strlit("\n");
    assert("\n"@ =~= seq!['\n']);
    assert forall|k: int| 0 <= k < lines.len() implies !#[trigger] lines[k].contains('\n') by {
        if k >= 10 {
            assert(lines[k] == module_line(list[k - 10]));
        } else {
            lemma_fixed_lines(known, list, k);
        }
    }
    let ended = lines.push(Seq::empty());
    lemma_ended_lines(lines);
    assert(ended.drop_last() =~= lines);
    assert(text::joined(ended, seq!['\n']) =~= manifest_text(known, list));
    assert forall|k: int| 0 <= k < ended.len() implies !#[trigger] ended[k].contains('\n') by {
        if k < lines.len() {
            assert(ended[k] == lines[k]);
        }
    }
    text::law_joined_pieces(ended, '\n');
}

/// No line in front of the modules holds a line feed.
proof fn lemma_fixed_lines(
    known: Map<ConfigOption, ConfigValue>,
    list: Seq<modules::Module>,
    k: int,
)
    requires
        0 <= k < 10,
        list.len() > 0,
    ensures
        !manifest_lines(known, list)[k].contains('\n'),
{
    let lines = manifest_lines(known, list);
    reveal_strlit("# Kernel modules extracted for Nitro Enclaves");
    reveal_strlit("# Format: module_name: dependency1, dependency2, ...");
    reveal_strlit("");
    reveal_strlit("# Config options:");
    reveal_strlit("# Extracted modules:");
    if 4 <= k < 8 {
        let option = config::required_options()[k - 4];
        assert(lines[k] == option_line(known, option));
        reveal_strlit("#   ");
        reveal_strlit("=");
        reveal_strlit("y (built-in)");
        reveal_strlit("m (module)");
        reveal_strlit("not set");
        reveal_strlit("CONFIG_NSM");
        reveal_strlit("CONFIG_VIRTIO_VSOCKETS");
        reveal_strlit("CONFIG_VIRTIO_MMIO");
        reveal_strlit("CONFIG_VIRTIO_MMIO_CMDLINE_DEVICES");
        let a = "#   "@;
        let b = config::option_name(option);
        let c = "="@;
        let d = value_text(config::value_in(known, option));
        assert forall|j: int| 0 <= j < lines[k].len() implies lines[k][j] != '\n' by {
            if j < 4 {
                assert(lines[k][j] == a[j]);
            } else if j < 4 + b.len() {
                assert(lines[k][j] == b[j - 4]);
            } else if j == 4 + b.len() {
                assert(lines[k][j] == c[0]);
            } else {
                assert(lines[k][j] == d[j - 5 - b.len()]);
            }
        }
    }
}

impl ConfigValue {
    /// How the manifest writes the value.
    pub fn manifest_status(self) -> (status: &'static str)
        ensures
            status@ == value_text(self),
    {
        match self {
            ConfigValue::BuiltIn => "y (built-in)",
            ConfigValue::Module => "m (module)",
            ConfigValue::NotSet => "not set",
        }
    }

    /// How a report to the user writes the value.
    pub fn report_status(self) -> (status: &'static str)
        ensures
            status@ == report_text(self),
    {
        match self {
            ConfigValue::BuiltIn => "built-in (y)",
            ConfigValue::Module => "module (m)",
            ConfigValue::NotSet => "not set",
        }
    }
}

/// Adds a line, with a line feed behind it.
fn write_line(out: &mut String, line: &str, Ghost(lines): Ghost<Seq<Seq<char>>>)
    requires
        old(out)@ == ended_lines(lines),
    ensures
        final(out)@ == ended_lines(lines.push(line@)),
{
    out.append(line);
    out.append("\n");
    assert(lines.push(line@).drop_last() =~= lines);
}

/// Writes the manifest.
pub fn write_manifest(known: &KernelConfig, list: &Vec<ModuleInfo>) -> (out: String)
    ensures
        out@ == manifest_text(known@, modules::module_views(list@)),
{
    let mut out: String = String::new();
    let ghost mut lines: Seq<Seq<char>> = Seq::empty();
    write_line(&mut out, "# Kernel modules extracted for Nitro Enclaves", Ghost(lines));
    proof {
        lines = lines.push("# Kernel modules extracted for Nitro Enclaves"@);
    }
    write_line(&mut out, "# Format: module_name: dependency1, dependency2, ...", Ghost(lines));
    proof {
        lines = lines.push("# Format: module_name: dependency1, dependency2, ..."@);
    }
    write_line(&mut out, "", Ghost(lines));
    proof {
        lines = lines.push(""@);
    }
    write_line(&mut out, "# Config options:", Ghost(lines));
    proof {
        lines = lines.push("# Config options:"@);
        assert(lines =~= header_lines());
    }
    let options = ConfigOption::required();
    let mut i: usize = 0;
    assert(lines =~= header_lines() + option_lines(known@).take(0));
    while i < options.len()
        invariant
            i <= options@.len(),
            options@ == config::required_options(),
            out@ == ended_lines(lines),
            lines == header_lines() + option_lines(known@).take(i as int),
        decreases options@.len() - i,
    {
        let option: ConfigOption = options[i];
        let mut line: String = text::concat("#   ", option.name());
        line.append("=");
        line.append(known.value(option).manifest_status());
        write_line(&mut out, line.as_str(), Ghost(lines));
        proof {
            lines = lines.push(line@);
            assert(lines =~= header_lines() + option_lines(known@).take(i + 1));
        }
        i = i + 1;
    }
    write_line(&mut out, "", Ghost(lines));
    let ghost front = header_lines() + option_lines(known@) + seq![""@];
    let ghost all = modules::module_views(list@);
    proof {
        lines = lines.push(""@);
        assert(lines =~= front);
    }
    if list.len() == 0 {
        write_line(&mut out, "# No modules needed - all required features are built-in", Ghost(lines));
        proof {
            lines = lines.push("# No modules needed - all required features are built-in"@);
            assert(lines =~= manifest_lines(known@, all));
        }
        return out;
    }
    write_line(&mut out, "# Extracted modules:", Ghost(lines));
    let mut k: usize = 0;
    let ghost shown = all.map_values(|module: modules::Module| module_line(module));
    proof {
        lines = lines.push("# Extracted modules:"@);
        assert(lines =~= front + seq!["# Extracted modules:"@] + shown.take(0));
    }
    while k < list.len()
        invariant
            k <= list@.len(),
            all == modules::module_views(list@),
            shown == all.map_values(|module: modules::Module| module_line(module)),
            out@ == ended_lines(lines),
            lines == front + seq!["# Extracted modules:"@] + shown.take(k as int),
        decreases list@.len() - k,
    {
        let module: &ModuleInfo = &list[k];
        let mut line: String = module.name.clone();
        if module.dependencies.len() > 0 {
            line.append(": ");
            line.append(text::join(&module.dependencies, ", ").as_str());
        }
        assert(line@ == module_line(module@));
        write_line(&mut out, line.as_str(), Ghost(lines));
        proof {
            lines = lines.push(line@);
            assert(lines =~= front + seq!["# Extracted modules:"@] + shown.take(k + 1));
        }
        k = k + 1;
    }
    assert(lines =~= manifest_lines(known@, all));
    out
}

} // verus!
