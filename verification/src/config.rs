//! The kernel's build configuration, as far as enclaves depend on it.

use vstd::prelude::*;

use crate::decode;
use crate::failure;
use crate::failure::{ErrorKind, ExtractError};
use crate::text;

verus! {

broadcast use vstd::string::group_string_axioms;

/// Config option value
#[derive(Debug, Clone, Copy, PartialEq, Eq, Structural)]
pub enum ConfigValue {
    /// Built-in (=y)
    BuiltIn,
    /// Module (=m)
    Module,
    /// Not set
    NotSet,
}

/// A kernel config option that enclaves require.
#[derive(Debug, Clone, Copy, PartialEq, Eq, Structural)]
pub enum ConfigOption {
    /// The Nitro security module driver.
    Nsm,
    /// Sockets between host and guest over virtio.
    VirtioVsockets,
    /// Memory-mapped virtio devices.
    VirtioMmio,
    /// Memory-mapped virtio devices named on the kernel's command line.
    VirtioMmioCmdlineDevices,
}

/// The name of an option in the configuration file.
pub open spec fn option_name(option: ConfigOption) -> Seq<char> {
    match option {
        ConfigOption::Nsm => "CONFIG_NSM"@,
        ConfigOption::VirtioVsockets => "CONFIG_VIRTIO_VSOCKETS"@,
        ConfigOption::VirtioMmio => "CONFIG_VIRTIO_MMIO"@,
        ConfigOption::VirtioMmioCmdlineDevices => "CONFIG_VIRTIO_MMIO_CMDLINE_DEVICES"@,
    }
}

/// The module that provides an option where the kernel has it as a module.
pub open spec fn option_module(option: ConfigOption) -> Option<Seq<char>> {
    match option {
        ConfigOption::Nsm => Some("nsm"@),
        ConfigOption::VirtioVsockets => Some("vmw_vsock_virtio_transport"@),
        ConfigOption::VirtioMmio => Some("virtio_mmio"@),
        ConfigOption::VirtioMmioCmdlineDevices => None,
    }
}

/// The required options, in the order in which they are reported.
pub open spec fn required_options() -> Seq<ConfigOption> {
    seq![
        ConfigOption::Nsm,
        ConfigOption::VirtioVsockets,
        ConfigOption::VirtioMmio,
        ConfigOption::VirtioMmioCmdlineDevices,
    ]
}

/// The required option of the given name.
pub open spec fn option_named(name: Seq<char>) -> Option<ConfigOption> {
    if name == option_name(ConfigOption::Nsm) {
        Some(ConfigOption::Nsm)
    } else if name == option_name(ConfigOption::VirtioVsockets) {
        Some(ConfigOption::VirtioVsockets)
    } else if name == option_name(ConfigOption::VirtioMmio) {
        Some(ConfigOption::VirtioMmio)
    } else if name == option_name(ConfigOption::VirtioMmioCmdlineDevices) {
        Some(ConfigOption::VirtioMmioCmdlineDevices)
    } else {
        None
    }
}

/// The value that the text behind the equals sign stands for.
pub open spec fn assigned_value(value: Seq<char>) -> ConfigValue {
    if value == "y"@ {
        ConfigValue::BuiltIn
    } else if value == "m"@ {
        ConfigValue::Module
    } else {
        ConfigValue::NotSet
    }
}

/// What a line of the configuration file says of a required option. White space round the line
/// is ignored. A line `# NAME is not set` says that the option is not set; any other line with
/// an equals sign assigns what stands behind the first one to what stands before it.
pub open spec fn line_entry(line: Seq<char>) -> Option<(ConfigOption, ConfigValue)> {
    let line = text::trimmed(line);
    if "# "@.is_prefix_of(line) && " is not set"@.is_suffix_of(line) {
        let name = text::without_suffixes(text::without_prefixes(line, "# "@), " is not set"@);
        match option_named(name) {
            Some(option) => Some((option, ConfigValue::NotSet)),
            None => None,
        }
    } else {
        let at = text::first_position(line, '=');
        if at < line.len() {
            match option_named(line.take(at)) {
                Some(option) => Some((option, assigned_value(line.skip(at + 1)))),
                None => None,
            }
        } else {
            None
        }
    }
}

/// What the lines say together: of several that name one option, the last counts.
pub open spec fn lines_config(lines: Seq<Seq<char>>) -> Map<ConfigOption, ConfigValue>
    decreases lines.len(),
{
    if lines.len() == 0 {
        Map::empty()
    } else {
        let before = lines_config(lines.drop_last());
        match line_entry(lines.last()) {
            Some((option, value)) => before.insert(option, value),
            None => before,
        }
    }
}

/// The value of an option: one that the configuration does not mention is not set.
pub open spec fn value_in(config: Map<ConfigOption, ConfigValue>, option: ConfigOption) -> ConfigValue {
    if config.dom().contains(option) {
        config[option]
    } else {
        ConfigValue::NotSet
    }
}

/// The module that a configuration needs for the sake of one option.
pub open spec fn needed_module(
    config: Map<ConfigOption, ConfigValue>,
    option: ConfigOption,
) -> Option<Seq<char>> {
    if value_in(config, option) == ConfigValue::Module {
        option_module(option)
    } else {
        None
    }
}

/// The modules of the required options that the kernel has as modules.
pub open spec fn needed_modules(config: Map<ConfigOption, ConfigValue>) -> Seq<Seq<char>> {
    required_options().filter_map(|option: ConfigOption| needed_module(config, option))
}

/// The line feed that ends a line.
pub const NEWLINE: u8 = 0x0a;

/// What could be read of a file.
#[derive(Debug)]
pub struct FileRead {
    /// The bytes that were read.
    pub bytes: Vec<u8>,
    /// The error that stopped the reading before the end of the file, if one did.
    pub error: Option<String>,
}

/// The lines that were read. Where an error stopped the reading, the line that it stopped in
/// is not one of them.
pub open spec fn lines_read(bytes: Seq<u8>, stopped: bool) -> Seq<Seq<u8>> {
    let all = text::pieces(bytes, NEWLINE);
    if stopped {
        all.drop_last()
    } else {
        all
    }
}

/// All lines are valid UTF-8.
pub open spec fn all_text(lines: Seq<Seq<u8>>) -> bool {
    forall|i: int| 0 <= i < lines.len() ==> vstd::utf8::valid_utf8(#[trigger] lines[i])
}

/// The texts that the lines encode.
pub open spec fn line_texts(lines: Seq<Seq<u8>>) -> Seq<Seq<char>> {
    lines.map_values(|line: Seq<u8>| vstd::utf8::decode_utf8(line))
}

/// The outcome of parsing what was read of a configuration file: a line that is not UTF-8
/// makes it fail, and so does a read error.
pub open spec fn parsed_config(bytes: Seq<u8>, error: Option<Seq<char>>) -> Result<
    Map<ConfigOption, ConfigValue>,
    failure::Failure,
> {
    let lines = lines_read(bytes, error is Some);
    if !all_text(lines) {
        Err(
            failure::file_failure(
                "Failed to read config line"@,
                "stream did not contain valid UTF-8"@,
            ),
        )
    } else {
        match error {
            Some(detail) => Err(failure::file_failure("Failed to read config line"@, detail)),
            None => Ok(lines_config(line_texts(lines))),
        }
    }
}

/// What the name of an option looks like.
proof fn lemma_option_name(option: ConfigOption)
    ensures
        option_name(option).len() == match option {
            ConfigOption::Nsm => 10,
            ConfigOption::VirtioVsockets => 22,
            ConfigOption::VirtioMmio => 18,
            ConfigOption::VirtioMmioCmdlineDevices => 34int,
        },
        option_name(option)[0] == 'C',
        !text::is_white_space(option_name(option).last()),
        option_name(option).last() != 't',
        !option_name(option).contains('='),
{
    reveal_strlit("CONFIG_NSM");
    reveal_strlit("CONFIG_VIRTIO_VSOCKETS");
    reveal_strlit("CONFIG_VIRTIO_MMIO");
    reveal_strlit("CONFIG_VIRTIO_MMIO_CMDLINE_DEVICES");
}

/// An option has one name, and no two options have the same.
pub proof fn law_option_names(name: Seq<char>, option: ConfigOption)
    ensures
        option_named(name) == Some(option) <==> name == option_name(option),
{
    lemma_option_name(ConfigOption::Nsm);
    lemma_option_name(ConfigOption::VirtioVsockets);
    lemma_option_name(ConfigOption::VirtioMmio);
    lemma_option_name(ConfigOption::VirtioMmioCmdlineDevices);
}

/// A line `NAME=value`, with any white space round it, sets the option: built-in for `y`,
/// module for `m`, not set for anything else.
pub proof fn law_assignment_line(
    front: Seq<char>,
    option: ConfigOption,
    value: Seq<char>,
    back: Seq<char>,
)
    requires
        text::is_blank(front),
        text::is_blank(back),
        value.len() > 0 ==> !text::is_white_space(value.last()),
    ensures
        line_entry(front + (option_name(option) + "="@ + value) + back) == Some(
            (option, assigned_value(value)),
        ),
{
    let name = option_name(option);
    let core = name + "="@ + value;
    reveal_strlit("=");
    reveal_strlit("# ");
    lemma_option_name(option);
    law_option_names(name, option);
    assert(core.last() == if value.len() > 0 {
        value.last()
    } else {
        '='
    });
    text::law_trimmed(front, core, back);
    assert(!"# "@.is_prefix_of(core)) by {
        assert(core.take(2)[0] == 'C');
    }
    assert(core =~= name + seq!['='] + value);
    text::lemma_first_position(name, '=', value);
    assert(core.take(name.len() as int) =~= name);
    assert(core.skip(name.len() as int + 1) =~= value);
}

/// A line `# NAME is not set`, with any white space round it, says that the option is not set.
pub proof fn law_unset_line(front: Seq<char>, option: ConfigOption, back: Seq<char>)
    requires
        text::is_blank(front),
        text::is_blank(back),
    ensures
        line_entry(front + ("# "@ + option_name(option) + " is not set"@) + back) == Some(
            (option, ConfigValue::NotSet),
        ),
{
    let name = option_name(option);
    let core = "# "@ + name + " is not set"@;
    reveal_strlit("# ");
    reveal_strlit(" is not set");
    lemma_option_name(option);
    law_option_names(name, option);
    text::law_trimmed(front, core, back);
    let rest = name + " is not set"@;
    assert("# "@.is_prefix_of(core));
    assert(" is not set"@.is_suffix_of(core));
    assert(core.skip(2) =~= rest);
    assert(rest[0] == 'C');
    assert(text::without_prefixes(rest, "# "@) == rest);
    assert(text::without_prefixes(core, "# "@) == rest);
    assert(" is not set"@.is_suffix_of(rest));
    assert(rest.take(rest.len() - 11) =~= name);
    assert(!" is not set"@.is_suffix_of(name)) by {
        if name.len() >= 11 {
            assert(name.skip(name.len() - 11).last() == name.last());
        }
    }
    assert(text::without_suffixes(name, " is not set"@) == name);
}

/// Behind the equals sign, `y` alone says built-in and `m` alone says module.
pub proof fn law_assigned_value(value: Seq<char>)
    ensures
        assigned_value(value) == ConfigValue::BuiltIn <==> value == seq!['y'],
        assigned_value(value) == ConfigValue::Module <==> value == seq!['m'],
{
    reveal_strlit("y");
    reveal_strlit("m");
    assert("y"@ =~= seq!['y']);
    assert("m"@ =~= seq!['m']);
    assert(seq!['y'][0] != seq!['m'][0]);
}

/// The line, without white space at its ends, assigns the text to the option.
pub open spec fn assigns(line: Seq<char>, option: ConfigOption, value: Seq<char>) -> bool {
    line == option_name(option) + seq!['='] + value
}

/// The line, without white space at its ends, is the name of the option, at least once with a
/// hash sign and a blank before it, and at least once with the words that unset it behind it.
pub open spec fn unsets(line: Seq<char>, option: ConfigOption, before: nat, behind: nat) -> bool {
    &&& before > 0
    &&& behind > 0
    &&& line == text::repeated("# "@, before) + option_name(option) + text::repeated(
        " is not set"@,
        behind,
    )
}

/// A line says something of an option exactly where it assigns to the option of that very name,
/// or unsets it; what it says is what is assigned, or that the option is not set.
pub proof fn law_line_entry(line: Seq<char>, option: ConfigOption, value: ConfigValue)
    ensures
        line_entry(line) == Some((option, value)) <==> {
            ||| exists|t: Seq<char>| #[trigger]
                assigns(text::trimmed(line), option, t) && value == assigned_value(t)
            ||| value == ConfigValue::NotSet && exists|before: nat, behind: nat| #[trigger]
                unsets(text::trimmed(line), option, before, behind)
        },
{
    let t = text::trimmed(line);
    let name = option_name(option);
    reveal_strlit("# ");
    reveal_strlit(" is not set");
    lemma_option_name(option);
    law_option_names(name, option);
    let marked = "# "@.is_prefix_of(t) && " is not set"@.is_suffix_of(t);
    if exists|v: Seq<char>| #[trigger] assigns(t, option, v) && value == assigned_value(v) {
        let v = choose|v: Seq<char>| #[trigger]
            assigns(t, option, v) && value == assigned_value(v);
        assert(!"# "@.is_prefix_of(t)) by {
            assert(t.take(2)[0] == 'C');
        }
        text::lemma_first_position(name, '=', v);
        assert(t.take(name.len() as int) =~= name);
        assert(t.skip(name.len() as int + 1) =~= v);
    }
    if exists|before: nat, behind: nat| #[trigger] unsets(t, option, before, behind) {
        let (before, behind) = choose|before: nat, behind: nat| #[trigger]
            unsets(t, option, before, behind);
        lemma_unset_form(t, option, before, behind);
    }
    if line_entry(line) == Some((option, value)) {
        if marked {
            let rest = text::without_prefixes(t, "# "@);
            let n = text::lemma_prefixes_taken_off(t, "# "@);
            let m = text::lemma_suffixes_taken_off(rest, " is not set"@);
            let named = text::without_suffixes(rest, " is not set"@);
            law_option_names(named, option);
            assert(named == name);
            assert(m > 0) by {
                if m == 0 {
                    assert(rest =~= name);
                    assert(t.last() == name.last());
                    assert(t.skip(t.len() - 11).last() == 't');
                }
            }
            assert(t =~= text::repeated("# "@, n) + name + text::repeated(" is not set"@, m));
            assert(unsets(t, option, n, m));
        } else {
            let at = text::first_position(t, '=');
            text::law_first_position(t, '=');
            law_option_names(t.take(at), option);
            let v = t.skip(at + 1);
            assert(t =~= name + seq!['='] + v);
            assert(assigns(t, option, v));
        }
    }
}

/// A line that unsets an option is read so.
proof fn lemma_unset_form(t: Seq<char>, option: ConfigOption, before: nat, behind: nat)
    requires
        unsets(t, option, before, behind),
    ensures
        "# "@.is_prefix_of(t),
        " is not set"@.is_suffix_of(t),
        text::without_suffixes(text::without_prefixes(t, "# "@), " is not set"@) == option_name(
            option,
        ),
{
    let name = option_name(option);
    let hash = "# "@;
    let unset = " is not set"@;
    reveal_strlit("# ");
    reveal_strlit(" is not set");
    lemma_option_name(option);
    let rest = name + text::repeated(unset, behind);
    text::lemma_repeated(hash, (before - 1) as nat);
    text::lemma_repeated(unset, (behind - 1) as nat);
    assert(t.take(2) =~= hash);
    assert(t.skip(t.len() - 11) =~= unset);
    assert(!hash.is_prefix_of(rest)) by {
        assert(rest.take(2)[0] == 'C');
    }
    assert(t =~= text::repeated(hash, before) + rest);
    text::law_without_prefixes(hash, before, rest);
    assert(!unset.is_suffix_of(name)) by {
        if name.len() >= 11 {
            assert(name.skip(name.len() - 11).last() == name.last());
        }
    }
    text::law_without_suffixes(name, unset, behind);
}

/// An assignment to anything that is not the name of a required option says nothing.
pub proof fn law_foreign_assignment(line: Seq<char>, key: Seq<char>, value: Seq<char>)
    requires
        text::trimmed(line) == key + seq!['='] + value,
        !key.contains('='),
        !"# "@.is_prefix_of(key),
        forall|option: ConfigOption| key != #[trigger] option_name(option),
    ensures
        line_entry(line) is None,
{
    let t = text::trimmed(line);
    reveal_strlit("# ");
    text::lemma_first_position(key, '=', value);
    assert(t.take(key.len() as int) =~= key);
    assert(!"# "@.is_prefix_of(t)) by {
        if "# "@.is_prefix_of(t) {
            assert(t.take(2)[0] == '#' && t.take(2)[1] == ' ');
            assert(key.len() >= 2);
            assert(key.take(2) =~= "# "@);
        }
    }
    if let Some(option) = option_named(key) {
        law_option_names(key, option);
        assert(key == option_name(option));
    }
}

/// A line without an equals sign that does not unset an option says nothing.
pub proof fn law_other_line(line: Seq<char>)
    requires
        !text::trimmed(line).contains('='),
        !" is not set"@.is_suffix_of(text::trimmed(line)),
    ensures
        line_entry(line) is None,
{
    text::law_first_position(text::trimmed(line), '=');
    let at = text::first_position(text::trimmed(line), '=');
    if at < text::trimmed(line).len() {
        assert(text::trimmed(line).contains(text::trimmed(line)[at]));
    }
}

/// The line says something of the option.
pub open spec fn mentions(line: Seq<char>, option: ConfigOption) -> bool {
    line_entry(line) matches Some((named, _)) && named == option
}

/// The value of an option is what the last line that mentions it says.
pub proof fn law_last_mention_counts(
    lines: Seq<Seq<char>>,
    option: ConfigOption,
    value: ConfigValue,
    i: int,
)
    requires
        0 <= i < lines.len(),
        line_entry(lines[i]) == Some((option, value)),
        forall|j: int| i < j < lines.len() ==> !mentions(#[trigger] lines[j], option),
    ensures
        value_in(lines_config(lines), option) == value,
    decreases lines.len(),
{
    let before = lines.drop_last();
    if i < lines.len() - 1 {
        assert(!mentions(lines[lines.len() - 1], option));
        assert forall|j: int| i < j < before.len() implies !mentions(#[trigger] before[j], option) by {
            assert(before[j] == lines[j]);
        }
        law_last_mention_counts(before, option, value, i);
    }
}

/// An option that no line mentions is not set.
pub proof fn law_unmentioned_is_not_set(lines: Seq<Seq<char>>, option: ConfigOption)
    requires
        forall|j: int| 0 <= j < lines.len() ==> !mentions(#[trigger] lines[j], option),
    ensures
        value_in(lines_config(lines), option) == ConfigValue::NotSet,
{
    lemma_unmentioned(lines, option);
}

proof fn lemma_unmentioned(lines: Seq<Seq<char>>, option: ConfigOption)
    requires
        forall|j: int| 0 <= j < lines.len() ==> !mentions(#[trigger] lines[j], option),
    ensures
        !lines_config(lines).dom().contains(option),
    decreases lines.len(),
{
    if lines.len() > 0 {
        let before = lines.drop_last();
        assert(!mentions(lines[lines.len() - 1], option));
        assert forall|j: int| 0 <= j < before.len() implies !mentions(#[trigger] before[j], option) by {
            assert(before[j] == lines[j]);
        }
        lemma_unmentioned(before, option);
    }
}

/// A file of whole lines says what its lines say.
pub proof fn law_config_file(lines: Seq<Seq<char>>)
    requires
        lines.len() >= 1,
        forall|i: int| 0 <= i < lines.len() ==> !#[trigger] lines[i].contains('\n'),
    ensures
        parsed_config(
            text::joined(
                lines.map_values(|line: Seq<char>| vstd::utf8::encode_utf8(line)),
                seq![NEWLINE],
            ),
            None,
        ) == Ok::<Map<ConfigOption, ConfigValue>, failure::Failure>(lines_config(lines)),
{
    let encoded = lines.map_values(|line: Seq<char>| vstd::utf8::encode_utf8(line));
    assert forall|i: int| 0 <= i < encoded.len() implies !#[trigger] encoded[i].contains(NEWLINE) by {
        text::lemma_encoding_lacks(lines[i], '\n');
    }
    text::law_joined_pieces(encoded, NEWLINE);
    assert forall|i: int| 0 <= i < encoded.len() implies vstd::utf8::valid_utf8(
        #[trigger] encoded[i],
    ) by {
        vstd::utf8::encode_utf8_valid_utf8(lines[i]);
    }
    assert forall|i: int| 0 <= i < lines.len() implies #[trigger] line_texts(encoded)[i]
        == lines[i] by {
        vstd::utf8::encode_utf8_decode_utf8(lines[i]);
    }
    assert(line_texts(encoded) =~= lines);
}

/// An empty line mentions no option.
proof fn lemma_empty_line()
    ensures
        line_entry(Seq::empty()) is None,
{
    reveal_strlit("# ");
}

/// Lines behind other lines override what those say.
pub proof fn law_later_lines_override(front: Seq<Seq<char>>, back: Seq<Seq<char>>)
    ensures
        lines_config(front + back) == lines_config(front).union_prefer_right(lines_config(back)),
    decreases back.len(),
{
    let whole = front + back;
    if back.len() == 0 {
        assert(whole =~= front);
    } else {
        law_later_lines_override(front, back.drop_last());
        assert(whole.drop_last() =~= front + back.drop_last());
        assert(whole.last() == back.last());
    }
    assert(lines_config(whole) =~= lines_config(front).union_prefer_right(lines_config(back)));
}

/// A file that ends with a line feed, with another behind it, says what both say, and where they
/// disagree, what the second says. It fails where one of them does, with the error of the first
/// that does.
pub proof fn law_config_concat(front: Seq<u8>, back: Seq<u8>, error: Option<Seq<char>>)
    requires
        front.len() == 0 || front.last() == NEWLINE,
    ensures
        parsed_config(front + back, error) == match (
            parsed_config(front, None),
            parsed_config(back, error),
        ) {
            (Ok(first), Ok(second)) => Ok(first.union_prefer_right(second)),
            (Ok(_), Err(failure)) => Err(failure),
            (Err(failure), _) => Err::<Map<ConfigOption, ConfigValue>, failure::Failure>(failure),
        },
{
    let stopped = error is Some;
    let head = text::pieces(front, NEWLINE).drop_last();
    let tail = lines_read(back, stopped);
    let whole = lines_read(front + back, stopped);
    let end = text::pieces(front, NEWLINE).last();
    text::law_pieces_concat(front, back, NEWLINE);
    text::law_pieces_join(back, NEWLINE);
    assert(whole =~= head + tail);
    let first = lines_read(front, false);
    assert(first =~= head.push(end));
    assert(end =~= Seq::<u8>::empty());
    assert(vstd::utf8::valid_utf8(end));
    assert(all_text(first) == all_text(head)) by {
        if all_text(first) {
            assert forall|i: int| 0 <= i < head.len() implies vstd::utf8::valid_utf8(
                #[trigger] head[i],
            ) by {
                assert(first[i] == head[i]);
            }
        }
    }
    assert(all_text(whole) == (all_text(head) && all_text(tail))) by {
        if all_text(whole) {
            assert forall|i: int| 0 <= i < head.len() implies vstd::utf8::valid_utf8(
                #[trigger] head[i],
            ) by {
                assert(whole[i] == head[i]);
            }
            assert forall|i: int| 0 <= i < tail.len() implies vstd::utf8::valid_utf8(
                #[trigger] tail[i],
            ) by {
                assert(whole[head.len() + i] == tail[i]);
            }
        }
    }
    assert(line_texts(whole) =~= line_texts(head) + line_texts(tail));
    law_later_lines_override(line_texts(head), line_texts(tail));
    assert(vstd::utf8::decode_utf8(end) =~= Seq::<char>::empty());
    assert(line_texts(first) =~= line_texts(head).push(Seq::empty()));
    assert(line_texts(first).drop_last() =~= line_texts(head));
    lemma_empty_line();
}

/// A configuration knows an option exactly where a line mentions it.
pub proof fn law_known_options(lines: Seq<Seq<char>>, option: ConfigOption)
    ensures
        lines_config(lines).dom().contains(option) <==> exists|i: int|
            0 <= i < lines.len() && mentions(#[trigger] lines[i], option),
    decreases lines.len(),
{
    if lines.len() > 0 {
        let before = lines.drop_last();
        law_known_options(before, option);
        if exists|i: int| 0 <= i < before.len() && mentions(#[trigger] before[i], option) {
            let i = choose|i: int| 0 <= i < before.len() && mentions(#[trigger] before[i], option);
            assert(lines[i] == before[i]);
        }
        if exists|i: int| 0 <= i < lines.len() && mentions(#[trigger] lines[i], option) {
            let i = choose|i: int| 0 <= i < lines.len() && mentions(#[trigger] lines[i], option);
            if i < before.len() {
                assert(before[i] == lines[i]);
            }
        }
        assert(lines[lines.len() - 1] == lines.last());
    }
}

/// A file that could be read to its end is parsed exactly where it is valid UTF-8, and says
/// what its lines say.
pub proof fn law_parsed_file(bytes: Seq<u8>)
    ensures
        vstd::utf8::valid_utf8(bytes) ==> parsed_config(bytes, None) == Ok::<
            Map<ConfigOption, ConfigValue>,
            failure::Failure,
        >(lines_config(text::pieces(vstd::utf8::decode_utf8(bytes), '\n'))),
        !vstd::utf8::valid_utf8(bytes) ==> parsed_config(bytes, None) == Err::<
            Map<ConfigOption, ConfigValue>,
            failure::Failure,
        >(
            failure::Failure {
                kind: ErrorKind::FileOperationFailure,
                message: "Failed to read config line"@ + ": "@
                    + "stream did not contain valid UTF-8"@,
            },
        ),
{
    let raw = text::pieces(bytes, NEWLINE);
    text::law_pieces_join(bytes, NEWLINE);
    text::lemma_valid_joined(raw, NEWLINE);
    if vstd::utf8::valid_utf8(bytes) {
        let whole = vstd::utf8::decode_utf8(bytes);
        let lines = text::pieces(whole, '\n');
        let encoded = lines.map_values(|line: Seq<char>| vstd::utf8::encode_utf8(line));
        vstd::utf8::decode_utf8_encode_utf8(bytes);
        text::law_pieces_join(whole, '\n');
        text::lemma_encoding_joined(lines, seq!['\n']);
        assert(vstd::utf8::encode_utf8(seq!['\n']) =~= seq![NEWLINE]) by {
            assert(vstd::utf8::is_ascii_chars(seq!['\n']));
            vstd::utf8::is_ascii_chars_encode_utf8(seq!['\n']);
            assert(seq!['\n'][0] as u8 == NEWLINE);
        }
        law_config_file(lines);
        assert(bytes == text::joined(encoded, seq![NEWLINE]));
    }
}

/// An error that stops the reading is the one that is told, where all lines before it are
/// valid UTF-8; what was read of the line that it stopped in counts for nothing.
pub proof fn law_stopped_reading(front: Seq<u8>, partial: Seq<u8>, detail: Seq<char>)
    requires
        front.len() == 0 || front.last() == NEWLINE,
        vstd::utf8::valid_utf8(front),
        !partial.contains(NEWLINE),
    ensures
        parsed_config(front + partial, Some(detail)) == Err::<
            Map<ConfigOption, ConfigValue>,
            failure::Failure,
        >(
            failure::Failure {
                kind: ErrorKind::FileOperationFailure,
                message: "Failed to read config line"@ + ": "@ + detail,
            },
        ),
{
    law_parsed_file(front);
    law_config_concat(front, partial, Some(detail));
    text::lemma_pieces_append(Seq::empty(), partial, NEWLINE);
    assert(Seq::empty() + partial =~= partial);
    assert(lines_read(partial, true) =~= Seq::<Seq<u8>>::empty());
}

/// The modules that a configuration needs come in a fixed order, each at most once: that of the
/// security module, that of the sockets, that of the devices.
pub proof fn law_needed_in_order(config: Map<ConfigOption, ConfigValue>)
    ensures
        ({
            let chosen = |option: ConfigOption, module: Seq<char>|
                if config.dom().contains(option) && config[option] == ConfigValue::Module {
                    seq![module]
                } else {
                    Seq::<Seq<char>>::empty()
                };
            needed_modules(config) == chosen(ConfigOption::Nsm, "nsm"@) + chosen(
                ConfigOption::VirtioVsockets,
                "vmw_vsock_virtio_transport"@,
            ) + chosen(ConfigOption::VirtioMmio, "virtio_mmio"@)
        }),
{
    let pick = |option: ConfigOption| needed_module(config, option);
    let all = required_options();
    assert(all.take(0) =~= Seq::<ConfigOption>::empty());
    assert(all.take(0).filter_map(pick) =~= Seq::<Seq<char>>::empty()) by {
        reveal(Seq::filter_map);
    }
    all.lemma_filter_map_take_succ(pick, 0);
    all.lemma_filter_map_take_succ(pick, 1);
    all.lemma_filter_map_take_succ(pick, 2);
    all.lemma_filter_map_take_succ(pick, 3);
    assert(all.take(4) =~= all);
    let chosen = |option: ConfigOption, module: Seq<char>|
        if config.dom().contains(option) && config[option] == ConfigValue::Module {
            seq![module]
        } else {
            Seq::<Seq<char>>::empty()
        };
    assert(needed_modules(config) =~= chosen(ConfigOption::Nsm, "nsm"@) + chosen(
        ConfigOption::VirtioVsockets,
        "vmw_vsock_virtio_transport"@,
    ) + chosen(ConfigOption::VirtioMmio, "virtio_mmio"@));
}

/// A configuration needs a module exactly where a required option that the module provides is
/// a module.
pub proof fn law_needed_modules(config: Map<ConfigOption, ConfigValue>, name: Seq<char>)
    ensures
        needed_modules(config).contains(name) <==> exists|option: ConfigOption| #[trigger]
            value_in(config, option) == ConfigValue::Module && option_module(option) == Some(name),
{
    let pick = |option: ConfigOption| needed_module(config, option);
    let all = required_options();
    lemma_picked(all, pick, name);
    if exists|option: ConfigOption| #[trigger]
        value_in(config, option) == ConfigValue::Module && option_module(option) == Some(name) {
        let option = choose|option: ConfigOption| #[trigger]
            value_in(config, option) == ConfigValue::Module && option_module(option) == Some(name);
        let i: int = match option {
            ConfigOption::Nsm => 0,
            ConfigOption::VirtioVsockets => 1,
            ConfigOption::VirtioMmio => 2,
            ConfigOption::VirtioMmioCmdlineDevices => 3,
        };
        assert(pick(all[i]) == Some(name));
    }
    if exists|i: int| 0 <= i < all.len() && #[trigger] pick(all[i]) == Some(name) {
        let i = choose|i: int| 0 <= i < all.len() && #[trigger] pick(all[i]) == Some(name);
        assert(value_in(config, all[i]) == ConfigValue::Module);
    }
}

proof fn lemma_picked<A, B>(s: Seq<A>, pick: spec_fn(A) -> Option<B>, x: B)
    ensures
        s.filter_map(pick).contains(x) <==> exists|i: int|
            0 <= i < s.len() && #[trigger] pick(s[i]) == Some(x),
    decreases s.len(),
{
    reveal(Seq::filter_map);
    if s.len() > 0 {
        let front = s.drop_last();
        let before = front.filter_map(pick);
        lemma_picked(front, pick, x);
        let after = s.filter_map(pick);
        assert(s =~= front.push(s.last()));
        if let Some(last) = pick(s.last()) {
            assert(after =~= before.push(last));
            assert(after[before.len() as int] == last);
        } else {
            assert(after =~= before);
        }
        if before.contains(x) {
            let i = choose|i: int| 0 <= i < front.len() && #[trigger] pick(front[i]) == Some(x);
            assert(pick(s[i]) == Some(x));
            let k = choose|k: int| 0 <= k < before.len() && before[k] == x;
            assert(after[k] == x);
        }
        if exists|i: int| 0 <= i < s.len() && #[trigger] pick(s[i]) == Some(x) {
            let i = choose|i: int| 0 <= i < s.len() && #[trigger] pick(s[i]) == Some(x);
            if i < front.len() {
                assert(pick(front[i]) == Some(x));
            }
        }
        if after.contains(x) && !before.contains(x) {
            assert(pick(s[s.len() - 1]) == Some(x));
        }
    }
}

impl ConfigOption {
    /// The name of the option in the configuration file.
    pub fn name(self) -> (name: &'static str)
        ensures
            name@ == option_name(self),
    {
        match self {
            ConfigOption::Nsm => "CONFIG_NSM",
            ConfigOption::VirtioVsockets => "CONFIG_VIRTIO_VSOCKETS",
            ConfigOption::VirtioMmio => "CONFIG_VIRTIO_MMIO",
            ConfigOption::VirtioMmioCmdlineDevices => "CONFIG_VIRTIO_MMIO_CMDLINE_DEVICES",
        }
    }

    /// The module that provides the option, if one does.
    pub fn module_name(self) -> (name: Option<&'static str>)
        ensures
            match name {
                Some(module) => option_module(self) == Some(module@),
                None => option_module(self) is None,
            },
    {
        match self {
            ConfigOption::Nsm => Some("nsm"),
            ConfigOption::VirtioVsockets => Some("vmw_vsock_virtio_transport"),
            ConfigOption::VirtioMmio => Some("virtio_mmio"),
            ConfigOption::VirtioMmioCmdlineDevices => None,
        }
    }

    /// The required options, in the order in which they are reported.
    pub fn required() -> (options: Vec<ConfigOption>)
        ensures
            options@ == required_options(),
    {
        let options: Vec<ConfigOption> = vec![
            ConfigOption::Nsm,
            ConfigOption::VirtioVsockets,
            ConfigOption::VirtioMmio,
            ConfigOption::VirtioMmioCmdlineDevices,
        ];
        assert(options@ =~= required_options());
        options
    }

    /// The required option of the given name.
    pub fn from_name(name: &str) -> (option: Option<ConfigOption>)
        ensures
            option == option_named(name@),
    {
        if text::same_text(name, ConfigOption::Nsm.name()) {
            Some(ConfigOption::Nsm)
        } else if text::same_text(name, ConfigOption::VirtioVsockets.name()) {
            Some(ConfigOption::VirtioVsockets)
        } else if text::same_text(name, ConfigOption::VirtioMmio.name()) {
            Some(ConfigOption::VirtioMmio)
        } else if text::same_text(name, ConfigOption::VirtioMmioCmdlineDevices.name()) {
            Some(ConfigOption::VirtioMmioCmdlineDevices)
        } else {
            None
        }
    }
}

/// What is known of the required options.
#[derive(Debug, Clone, Copy)]
pub struct KernelConfig {
    nsm: Option<ConfigValue>,
    virtio_vsockets: Option<ConfigValue>,
    virtio_mmio: Option<ConfigValue>,
    virtio_mmio_cmdline_devices: Option<ConfigValue>,
}

impl View for KernelConfig {
    type V = Map<ConfigOption, ConfigValue>;

    closed spec fn view(&self) -> Map<ConfigOption, ConfigValue> {
        Map::new(
            |option: ConfigOption| self.slot(option) is Some,
            |option: ConfigOption| self.slot(option)->0,
        )
    }
}

impl KernelConfig {
    closed spec fn slot(self, option: ConfigOption) -> Option<ConfigValue> {
        match option {
            ConfigOption::Nsm => self.nsm,
            ConfigOption::VirtioVsockets => self.virtio_vsockets,
            ConfigOption::VirtioMmio => self.virtio_mmio,
            ConfigOption::VirtioMmioCmdlineDevices => self.virtio_mmio_cmdline_devices,
        }
    }

    /// A configuration that mentions no option.
    pub fn new() -> (config: KernelConfig)
        ensures
            config@ == Map::<ConfigOption, ConfigValue>::empty(),
    {
        let config = KernelConfig {
            nsm: None,
            virtio_vsockets: None,
            virtio_mmio: None,
            virtio_mmio_cmdline_devices: None,
        };
        assert(config@ =~= Map::<ConfigOption, ConfigValue>::empty());
        config
    }

    /// Records the value of an option, in place of any that was recorded before.
    pub fn insert(&mut self, option: ConfigOption, value: ConfigValue)
        ensures
            final(self)@ == old(self)@.insert(option, value),
    {
        match option {
            ConfigOption::Nsm => self.nsm = Some(value),
            ConfigOption::VirtioVsockets => self.virtio_vsockets = Some(value),
            ConfigOption::VirtioMmio => self.virtio_mmio = Some(value),
            ConfigOption::VirtioMmioCmdlineDevices => self.virtio_mmio_cmdline_devices = Some(value),
        }
        assert(self@ =~= old(self)@.insert(option, value));
    }

    /// The value of an option: one that is not mentioned is not set.
    pub fn value(&self, option: ConfigOption) -> (value: ConfigValue)
        ensures
            value == value_in(self@, option),
    {
        let slot: Option<ConfigValue> = match option {
            ConfigOption::Nsm => self.nsm,
            ConfigOption::VirtioVsockets => self.virtio_vsockets,
            ConfigOption::VirtioMmio => self.virtio_mmio,
            ConfigOption::VirtioMmioCmdlineDevices => self.virtio_mmio_cmdline_devices,
        };
        match slot {
            Some(value) => value,
            None => ConfigValue::NotSet,
        }
    }
}

/// Reads one line of a configuration file.
pub fn parse_config_line(line: &str) -> (entry: Option<(ConfigOption, ConfigValue)>)
    ensures
        entry == line_entry(line@),
{
    let line: &str = text::trim(line);
    if text::starts_with(line, "# ") && text::ends_with(line, " is not set") {
        let name: &str = text::trim_end_matches(text::trim_start_matches(line, "# "), " is not set");
        return match ConfigOption::from_name(name) {
            Some(option) => Some((option, ConfigValue::NotSet)),
            None => None,
        };
    }
    match text::split_once(line, '=') {
        Some((key, value)) => match ConfigOption::from_name(key) {
            Some(option) => {
                let config_value: ConfigValue = if text::same_text(value, "y") {
                    ConfigValue::BuiltIn
                } else if text::same_text(value, "m") {
                    ConfigValue::Module
                } else {
                    ConfigValue::NotSet
                };
                Some((option, config_value))
            },
            None => None,
        },
        None => None,
    }
}

/// Parses what was read of a kernel config file.
pub fn parse_kernel_config(read: &FileRead) -> (res: Result<KernelConfig, ExtractError>)
    ensures
        match res {
            Ok(config) => parsed_config(read.bytes@, text::option_view(read.error)) == Ok::<
                Map<ConfigOption, ConfigValue>,
                failure::Failure,
            >(config@),
            Err(error) => parsed_config(read.bytes@, text::option_view(read.error)) == Err::<
                Map<ConfigOption, ConfigValue>,
                failure::Failure,
            >(error@),
        },
{
    let mut lines = text::split_bytes(read.bytes.as_slice(), NEWLINE);
    let ghost all = text::byte_views(lines@);
    if read.error.is_some() {
        proof {
            text::law_pieces_join(read.bytes@, NEWLINE);
        }
        let partial = lines.pop();
        assert(text::byte_views(lines@) =~= all.drop_last());
    }
    let ghost kept = text::byte_views(lines@);
    assert(kept == lines_read(read.bytes@, read.error is Some));
    let mut config: KernelConfig = KernelConfig::new();
    let mut i: usize = 0;
    assert(line_texts(kept.take(0)) =~= Seq::<Seq<char>>::empty());
    while i < lines.len()
        invariant
            i <= lines@.len(),
            kept == text::byte_views(lines@),
            kept == lines_read(read.bytes@, read.error is Some),
            forall|j: int| 0 <= j < i ==> vstd::utf8::valid_utf8(#[trigger] kept[j]),
            config@ == lines_config(line_texts(kept.take(i as int))),
        decreases lines@.len() - i,
    {
        assert(kept[i as int] == lines@[i as int]@);
        match decode::decode(lines[i].as_slice()) {
            Some(line) => {
                assert(line_texts(kept.take(i + 1)).drop_last() =~= line_texts(kept.take(i as int)));
                assert(line_texts(kept.take(i + 1)).last() == line@);
                if let Some((option, value)) = parse_config_line(line.as_str()) {
                    config.insert(option, value);
                }
            },
            None => {
                return Err(
                    ExtractError::with_detail(
                        ErrorKind::FileOperationFailure,
                        "Failed to read config line",
                        "stream did not contain valid UTF-8",
                    ),
                );
            },
        }
        i = i + 1;
    }
    assert(kept.take(i as int) =~= kept);
    match &read.error {
        Some(detail) => Err(
            ExtractError::with_detail(
                ErrorKind::FileOperationFailure,
                "Failed to read config line",
                detail.as_str(),
            ),
        ),
        None => Ok(config),
    }
}

/// The modules that a configuration needs.
pub fn modules_needed(config: &KernelConfig) -> (modules: Vec<String>)
    ensures
        text::views(modules@) == needed_modules(config@),
{
    let options = ConfigOption::required();
    let mut modules: Vec<String> = Vec::new();
    let ghost pick = |option: ConfigOption| needed_module(config@, option);
    let mut i: usize = 0;
    assert(text::views(modules@) =~= options@.take(0).filter_map(pick)) by {
        reveal_with_fuel(Seq::filter_map, 2);
    }
    while i < options.len()
        invariant
            i <= options@.len(),
            options@ == required_options(),
            pick == (|option: ConfigOption| needed_module(config@, option)),
            text::views(modules@) == options@.take(i as int).filter_map(pick),
        decreases options@.len() - i,
    {
        let ghost done = text::views(modules@);
        proof {
            options@.lemma_filter_map_take_succ(pick, i as int);
        }
        let option: ConfigOption = options[i];
        if config.value(option) == ConfigValue::Module {
            if let Some(module) = option.module_name() {
                modules.push(module.to_owned());
                assert(text::views(modules@) =~= done.push(module@));
            }
        }
        assert(text::views(modules@) =~= options@.take(i + 1).filter_map(pick));
        i = i + 1;
    }
    assert(options@.take(i as int) =~= options@);
    modules
}

} // verus!
