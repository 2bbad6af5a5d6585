use kernel_extract::config::{ConfigOption, ConfigValue, KernelConfig};
use kernel_extract::manifest::write_manifest;
use kernel_extract::modules::{sort_modules, ModuleInfo};
use kernel_extract::worklist::Worklist;

fn module(name: &str, dependencies: &[&str]) -> ModuleInfo {
    ModuleInfo {
        name: name.to_string(),
        path: format!("out/modules/{}.ko", name).into_bytes(),
        dependencies: dependencies.iter().map(|dep| dep.to_string()).collect(),
    }
}

fn names(modules: &Vec<ModuleInfo>) -> Vec<&str> {
    modules.iter().map(|module| module.name.as_str()).collect()
}

fn needed(list: &[&str]) -> Worklist {
    Worklist::new(list.iter().map(|name| name.to_string()).collect())
}

#[test]
fn sorting_is_by_name() {
    let sorted = sort_modules(vec![module("vsock", &[]), module("nsm", &["x"]), module("a", &[])]);
    assert_eq!(names(&sorted), vec!["a", "nsm", "vsock"]);
    assert_eq!(sorted[1].dependencies, vec!["x"]);
    assert_eq!(sorted[1].path, b"out/modules/nsm.ko".to_vec());
    assert!(sort_modules(vec![]).is_empty());
}

#[test]
fn sorting_goes_by_bytes() {
    let sorted = sort_modules(vec![
        module("é", &[]),
        module("b", &[]),
        module("ab", &[]),
        module("a", &[]),
        module("B", &[]),
    ]);
    assert_eq!(names(&sorted), vec!["B", "a", "ab", "b", "é"]);
}

#[test]
fn modules_of_one_name_keep_their_order() {
    let sorted = sort_modules(vec![
        module("b", &["first"]),
        module("a", &[]),
        module("b", &["second"]),
    ]);
    assert_eq!(names(&sorted), vec!["a", "b", "b"]);
    assert_eq!(sorted[1].dependencies, vec!["first"]);
    assert_eq!(sorted[2].dependencies, vec!["second"]);
}

#[test]
fn the_order_of_extraction_is_immaterial() {
    for order in [["a", "b", "c"], ["b", "c", "a"], ["c", "b", "a"], ["a", "c", "b"]] {
        let list = order.iter().map(|name| module(name, &[])).collect();
        assert_eq!(names(&sort_modules(list)), vec!["a", "b", "c"]);
    }
}

#[test]
fn clones_are_equal() {
    let first = module("nsm", &["a", "b"]);
    let second = first.clone();
    assert_eq!(second.name, first.name);
    assert_eq!(second.path, first.path);
    assert_eq!(second.dependencies, first.dependencies);
}

#[test]
fn the_last_pending_module_comes_next() {
    let mut work = needed(&["a", "b"]);
    assert!(!work.is_idle());
    assert!(work.next());
    assert_eq!(work.current(), "b");
    assert!(work.next());
    assert_eq!(work.current(), "a");
    assert!(work.is_idle());
    assert!(!work.next());
}

#[test]
fn no_module_is_looked_at_twice() {
    let mut work = needed(&["a", "b", "a"]);
    assert!(work.next());
    assert_eq!(work.current(), "a");
    work.record(module("a", &["a", "b", "c"]));
    assert!(work.next());
    assert_eq!(work.current(), "c");
    work.record(module("c", &["a"]));
    assert!(work.next());
    assert_eq!(work.current(), "b");
    assert!(!work.next());
    assert_eq!(names(work.extracted()), vec!["a", "c"]);
}

#[test]
fn all_that_the_needed_modules_lead_to_is_looked_at() {
    let graph: [(&str, &[&str]); 5] = [
        ("a", &["b", "c"]),
        ("b", &["d"]),
        ("c", &["d", "a"]),
        ("d", &["d"]),
        ("lone", &["a"]),
    ];
    let mut work = needed(&["a"]);
    let mut steps = 0;
    while work.next() {
        let name = work.current().to_string();
        let deps = graph.iter().find(|(from, _)| *from == name).unwrap().1;
        work.record(module(&name, deps));
        steps += 1;
    }
    assert_eq!(steps, 4);
    work.sort();
    assert_eq!(names(&work.into_extracted()), vec!["a", "b", "c", "d"]);
}

#[test]
fn statuses() {
    assert_eq!(ConfigValue::BuiltIn.manifest_status(), "y (built-in)");
    assert_eq!(ConfigValue::Module.manifest_status(), "m (module)");
    assert_eq!(ConfigValue::NotSet.manifest_status(), "not set");
    assert_eq!(ConfigValue::BuiltIn.report_status(), "built-in (y)");
    assert_eq!(ConfigValue::Module.report_status(), "module (m)");
    assert_eq!(ConfigValue::NotSet.report_status(), "not set");
}

#[test]
fn a_manifest_without_modules() {
    let mut config = KernelConfig::new();
    config.insert(ConfigOption::Nsm, ConfigValue::BuiltIn);
    assert_eq!(
        write_manifest(&config, &vec![]),
        "# Kernel modules extracted for Nitro Enclaves\n\
         # Format: module_name: dependency1, dependency2, ...\n\
         \n\
         # Config options:\n\
         #   CONFIG_NSM=y (built-in)\n\
         #   CONFIG_VIRTIO_VSOCKETS=not set\n\
         #   CONFIG_VIRTIO_MMIO=not set\n\
         #   CONFIG_VIRTIO_MMIO_CMDLINE_DEVICES=not set\n\
         \n\
         # No modules needed - all required features are built-in\n"
    );
}

#[test]
fn a_manifest_with_modules() {
    let mut config = KernelConfig::new();
    config.insert(ConfigOption::VirtioMmio, ConfigValue::Module);
    assert_eq!(
        write_manifest(&config, &vec![module("nsm", &[]), module("vsock", &["a", "b"])]),
        "# Kernel modules extracted for Nitro Enclaves\n\
         # Format: module_name: dependency1, dependency2, ...\n\
         \n\
         # Config options:\n\
         #   CONFIG_NSM=not set\n\
         #   CONFIG_VIRTIO_VSOCKETS=not set\n\
         #   CONFIG_VIRTIO_MMIO=m (module)\n\
         #   CONFIG_VIRTIO_MMIO_CMDLINE_DEVICES=not set\n\
         \n\
         # Extracted modules:\n\
         nsm\n\
         vsock: a, b\n"
    );
}
