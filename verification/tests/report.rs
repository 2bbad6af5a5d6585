use kernel_extract::config::{ConfigOption, ConfigValue};
use kernel_extract::protocol::Notice;
use kernel_extract::report::to_decimal;

fn complete(total: usize) -> Notice {
    Notice::Complete {
        image: b"o/Image".to_vec(),
        config: b"o/config".to_vec(),
        manifest: b"o/modules.txt".to_vec(),
        modules_dir: b"o/modules".to_vec(),
        total,
    }
}

#[test]
fn decimal_notation() {
    for n in [0usize, 7, 9, 10, 42, 100, 65536, usize::MAX] {
        assert_eq!(to_decimal(n), format!("{}", n));
    }
}

#[test]
fn fixed_notices() {
    assert_eq!(Notice::ExtractingRpm.text(), "Extracting RPM...");
    assert_eq!(Notice::LocatingImage.text(), "Locating kernel image...");
    assert_eq!(Notice::LocatingConfig.text(), "Locating kernel config...");
    assert_eq!(Notice::ParsingConfig.text(), "Parsing kernel config...");
    assert_eq!(Notice::ExtractingModules.text(), "Extracting required modules...");
}

#[test]
fn notices_of_paths_and_names() {
    assert_eq!(
        Notice::ImageStored { path: b"o\xff/Image".to_vec() }.text(),
        "  Kernel image: o\u{fffd}/Image"
    );
    assert_eq!(
        Notice::ConfigStored { path: b"o/config".to_vec() }.text(),
        "  Kernel config: o/config"
    );
    assert_eq!(
        Notice::ModuleMissing { name: "nsm".to_string() }.text(),
        "  Warning: Module nsm not found"
    );
    assert_eq!(
        Notice::OptionValue { option: ConfigOption::Nsm, value: ConfigValue::BuiltIn }.text(),
        "  CONFIG_NSM: built-in (y)"
    );
}

#[test]
fn dependencies_are_quoted() {
    let notice = Notice::ModuleStored {
        name: "a".to_string(),
        dependencies: vec!["b".to_string(), "c\"\n".to_string()],
    };
    assert_eq!(notice.text(), "  a (deps: [\"b\", \"c\\\"\\n\"])");
    let notice = Notice::ModuleStored { name: "a".to_string(), dependencies: vec![] };
    assert_eq!(notice.text(), "  a (deps: [])");
}

#[test]
fn summary_with_and_without_modules() {
    assert_eq!(
        complete(0).text(),
        "\nExtraction complete:\n  Kernel image: o/Image\n  Kernel config: o/config\n  Modules manifest: o/modules.txt"
    );
    assert_eq!(
        complete(12).text(),
        "\nExtraction complete:\n  Kernel image: o/Image\n  Kernel config: o/config\n  Modules manifest: o/modules.txt\n  Modules directory: o/modules\n  Total modules: 12"
    );
}
