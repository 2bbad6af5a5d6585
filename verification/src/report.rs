//! How notices are told to the user.

use vstd::prelude::*;

use crate::config;
use crate::decode;
use crate::manifest;
use crate::protocol;
use crate::protocol::Notice;
use crate::text;

verus! {

broadcast use vstd::string::group_string_axioms;

/// The text that formatting a string with `{:?}` gives.
pub uninterp spec fn quoted_text(s: Seq<char>) -> Seq<char>;

/// Calls [`std::fmt::Debug`] for `str` through `format!`: its result depends on the string
/// alone. How it quotes and escapes is left open.
#[verifier::external_body]
fn quote(s: &str) -> (res: String)
    ensures
        res@ == quoted_text(s@),
{
    format!("{:?}", s)
}

/// A list of names in brackets, each quoted, with commas between them.
pub open spec fn list_text(names: Seq<Seq<char>>) -> Seq<char> {
    "["@ + text::joined(names.map_values(|name: Seq<char>| quoted_text(name)), ", "@) + "]"@
}

/// The digit of a number below ten.
pub open spec fn digit(n: nat) -> Seq<char> {
    seq!["0123456789"@[n as int]]
}

/// A number in decimal notation.
pub open spec fn decimal(n: nat) -> Seq<char>
    decreases n,
{
    if n < 10 {
        digit(n)
    } else {
        decimal(n / 10) + digit(n % 10)
    }
}

/// The lines about a successful extraction; those about modules stand there only if there are
/// modules.
pub open spec fn summary_lines(
    image: Seq<u8>,
    config: Seq<u8>,
    manifest: Seq<u8>,
    modules_dir: Seq<u8>,
    total: nat,
) -> Seq<Seq<char>> {
    let files = seq![
        ""@,
        "Extraction complete:"@,
        "  Kernel image: "@ + decode::lossy_text(image),
        "  Kernel config: "@ + decode::lossy_text(config),
        "  Modules manifest: "@ + decode::lossy_text(manifest),
    ];
    if total > 0 {
        files + seq![
            "  Modules directory: "@ + decode::lossy_text(modules_dir),
            "  Total modules: "@ + decimal(total),
        ]
    } else {
        files
    }
}

/// The text of a notice, without the line feed at its end.
pub open spec fn notice_text(notice: protocol::Told) -> Seq<char> {
    match notice {
        protocol::Told::ExtractingRpm => "Extracting RPM..."@,
        protocol::Told::LocatingImage => "Locating kernel image..."@,
        protocol::Told::ImageStored { path } => "  Kernel image: "@ + decode::lossy_text(path),
        protocol::Told::LocatingConfig => "Locating kernel config..."@,
        protocol::Told::ConfigStored { path } => "  Kernel config: "@ + decode::lossy_text(path),
        protocol::Told::ParsingConfig => "Parsing kernel config..."@,
        protocol::Told::OptionValue { option, value } => "  "@ + config::option_name(option) + ": "@
            + manifest::report_text(value),
        protocol::Told::ExtractingModules => "Extracting required modules..."@,
        protocol::Told::ModuleStored { name, dependencies } => "  "@ + name + " (deps: "@
            + list_text(dependencies) + ")"@,
        protocol::Told::ModuleMissing { name } => "  Warning: Module "@ + name + " not found"@,
        protocol::Told::Complete { image, config, manifest, modules_dir, total } => text::joined(
            summary_lines(image, config, manifest, modules_dir, total),
            "\n"@,
        ),
    }
}

/// The number that digits stand for.
pub open spec fn number_of(digits: Seq<char>) -> int
    decreases digits.len(),
{
    if digits.len() == 0 {
        0
    } else {
        10 * number_of(digits.drop_last()) + (digits.last() as int - '0' as int)
    }
}

/// Decimal notation reads back as the number, is made of digits, and starts with a zero only
/// where the number is zero.
pub proof fn law_decimal(n: nat)
    ensures
        number_of(decimal(n)) == n,
        decimal(n).len() > 0,
        forall|i: int| 0 <= i < decimal(n).len() ==> '0' <= #[trigger] decimal(n)[i] <= '9',
        decimal(n)[0] == '0' <==> n == 0,
    decreases n,
{
    reveal_strlit("0123456789");
    let last = digit(n % 10);
    assert(last[0] as int == '0' as int + n % 10);
    if n < 10 {
        assert(decimal(n) =~= last);
        assert(decimal(n).drop_last() =~= Seq::<char>::empty());
        assert(number_of(decimal(n).drop_last()) == 0);
    } else {
        law_decimal(n / 10);
        let front = decimal(n / 10);
        assert(decimal(n) =~= front + last);
        assert(decimal(n).drop_last() =~= front);
        assert forall|i: int| 0 <= i < decimal(n).len() implies '0' <= #[trigger] decimal(n)[i]
            <= '9' by {
            if i < front.len() {
                assert(decimal(n)[i] == front[i]);
            }
        }
    }
}

/// A list of names is put together from the lists of its parts: the quoted names stand between
/// brackets, in order, with a comma and a blank between each two.
pub proof fn law_list_text(front: Seq<Seq<char>>, back: Seq<Seq<char>>, name: Seq<char>)
    ensures
        list_text(Seq::empty()) == "["@ + "]"@,
        list_text(seq![name]) == "["@ + quoted_text(name) + "]"@,
        front.len() > 0 && back.len() > 0 ==> list_text(front + back) == list_text(
            front,
        ).drop_last() + ", "@ + list_text(back).skip(1),
{
    let quote = |n: Seq<char>| quoted_text(n);
    reveal_strlit("[");
    reveal_strlit("]");
    assert(Seq::<Seq<char>>::empty().map_values(quote) =~= Seq::<Seq<char>>::empty());
    assert(list_text(Seq::empty()) =~= "["@ + "]"@);
    assert(seq![name].map_values(quote) =~= seq![quoted_text(name)]);
    if front.len() > 0 && back.len() > 0 {
        let (a, b) = (front.map_values(quote), back.map_values(quote));
        assert((front + back).map_values(quote) =~= a + b);
        text::law_joined_concat(a, b, ", "@);
        assert(list_text(front).drop_last() =~= "["@ + text::joined(a, ", "@));
        assert(list_text(back).skip(1) =~= text::joined(b, ", "@) + "]"@);
        assert(list_text(front + back) =~= list_text(front).drop_last() + ", "@ + list_text(
            back,
        ).skip(1));
    }
}

/// What is told of a module names it in full, whatever its name is; what is told of a path
/// shows the path in full.
pub proof fn law_notices(
    name: Seq<char>,
    dependencies: Seq<Seq<char>>,
    path: Seq<u8>,
    option: config::ConfigOption,
)
    ensures
        notice_text(protocol::Told::ModuleMissing { name }) == "  Warning: Module "@ + name
            + " not found"@,
        notice_text(protocol::Told::ModuleStored { name, dependencies }) == "  "@ + name
            + " (deps: "@ + list_text(dependencies) + ")"@,
        notice_text(protocol::Told::ImageStored { path }) == "  Kernel image: "@
            + decode::lossy_text(path),
        notice_text(protocol::Told::ConfigStored { path }) == "  Kernel config: "@
            + decode::lossy_text(path),
        notice_text(
            protocol::Told::OptionValue { option, value: config::ConfigValue::BuiltIn },
        ) == "  "@ + config::option_name(option) + ": "@ + "built-in (y)"@,
        notice_text(
            protocol::Told::OptionValue { option, value: config::ConfigValue::Module },
        ) == "  "@ + config::option_name(option) + ": "@ + "module (m)"@,
        notice_text(
            protocol::Told::OptionValue { option, value: config::ConfigValue::NotSet },
        ) == "  "@ + config::option_name(option) + ": "@ + "not set"@,
{
}

/// The summary of a success names every result, and the modules where there are any, with their
/// number.
pub proof fn law_summary(
    image: Seq<u8>,
    config: Seq<u8>,
    manifest: Seq<u8>,
    modules_dir: Seq<u8>,
    total: nat,
)
    ensures
        ({
            let files = seq![
                ""@,
                "Extraction complete:"@,
                "  Kernel image: "@ + decode::lossy_text(image),
                "  Kernel config: "@ + decode::lossy_text(config),
                "  Modules manifest: "@ + decode::lossy_text(manifest),
            ];
            let modules = seq![
                "  Modules directory: "@ + decode::lossy_text(modules_dir),
                "  Total modules: "@ + decimal(total),
            ];
            notice_text(
                protocol::Told::Complete { image, config, manifest, modules_dir, total },
            ) == text::joined(
                if total == 0 {
                    files
                } else {
                    files + modules
                },
                "\n"@,
            )
        }),
{
}

/// The digit of a number below ten.
fn digit_of(n: usize) -> (res: &'static str)
    requires
        n < 10,
    ensures
        res@ == digit(n as nat),
{
    let digits: &'static str = "0123456789";
    proof {
        reveal_strlit("0123456789");
    }
    let res: &'static str = digits.substring_char(n, n + 1);
    assert(res@ =~= digit(n as nat));
    res
}

/// A number in decimal notation.
pub fn to_decimal(n: usize) -> (res: String)
    ensures
        res@ == decimal(n as nat),
    decreases n,
{
    if n < 10 {
        digit_of(n).to_owned()
    } else {
        let front: String = to_decimal(n / 10);
        text::concat(front.as_str(), digit_of(n % 10))
    }
}

/// A list of names in brackets.
fn bracketed(names: &Vec<String>) -> (res: String)
    ensures
        res@ == list_text(text::views(names@)),
{
    let mut quoted: Vec<String> = Vec::new();
    let ghost all = text::views(names@).map_values(|name: Seq<char>| quoted_text(name));
    let mut i: usize = 0;
    assert(text::views(quoted@) =~= all.take(0));
    while i < names.len()
        invariant
            i <= names@.len(),
            all == text::views(names@).map_values(|name: Seq<char>| quoted_text(name)),
            text::views(quoted@) == all.take(i as int),
        decreases names@.len() - i,
    {
        let ghost done = text::views(quoted@);
        quoted.push(quote(names[i].as_str()));
        assert(text::views(quoted@) =~= done.push(all[i as int]));
        assert(text::views(quoted@) =~= all.take(i + 1));
        i = i + 1;
    }
    assert(all.take(i as int) =~= all);
    let mut res: String = text::concat("[", text::join(&quoted, ", ").as_str());
    res.append("]");
    res
}

/// A label with a path behind it.
fn labelled(label: &str, path: &[u8]) -> (res: String)
    ensures
        res@ == label@ + decode::lossy_text(path@),
{
    text::concat(label, decode::decode_lossy(path).as_str())
}

impl Notice {
    /// The text of the notice, without the line feed at its end.
    pub fn text(&self) -> (res: String)
        ensures
            res@ == notice_text(self@),
    {
        match self {
            Notice::ExtractingRpm => "Extracting RPM...".to_owned(),
            Notice::LocatingImage => "Locating kernel image...".to_owned(),
            Notice::ImageStored { path } => labelled("  Kernel image: ", path.as_slice()),
            Notice::LocatingConfig => "Locating kernel config...".to_owned(),
            Notice::ConfigStored { path } => labelled("  Kernel config: ", path.as_slice()),
            Notice::ParsingConfig => "Parsing kernel config...".to_owned(),
            Notice::OptionValue { option, value } => {
                let mut res: String = text::concat("  ", option.name());
                res.append(": ");
                res.append(value.report_status());
                res
            },
            Notice::ExtractingModules => "Extracting required modules...".to_owned(),
            Notice::ModuleStored { name, dependencies } => {
                let mut res: String = text::concat("  ", name.as_str());
                res.append(" (deps: ");
                res.append(bracketed(dependencies).as_str());
                res.append(")");
                res
            },
            Notice::ModuleMissing { name } => {
                let mut res: String = text::concat("  Warning: Module ", name.as_str());
                res.append(" not found");
                res
            },
            Notice::Complete { image, config, manifest, modules_dir, total } => {
                let mut lines: Vec<String> = vec![
                    "".to_owned(),
                    "Extraction complete:".to_owned(),
                    labelled("  Kernel image: ", image.as_slice()),
                    labelled("  Kernel config: ", config.as_slice()),
                    labelled("  Modules manifest: ", manifest.as_slice()),
                ];
                if *total > 0 {
                    lines.push(labelled("  Modules directory: ", modules_dir.as_slice()));
                    lines.push(text::concat("  Total modules: ", to_decimal(*total).as_str()));
                }
                assert(text::views(lines@) =~= summary_lines(
                    image@,
                    config@,
                    manifest@,
                    modules_dir@,
                    *total as nat,
                ));
                text::join(&lines, "\n")
            },
        }
    }
}

} // verus!
