use kernel_extract::config::{
    modules_needed, parse_config_line, parse_kernel_config, ConfigOption, ConfigValue, FileRead,
    KernelConfig,
};
use kernel_extract::failure::ErrorKind;

fn read(bytes: &[u8]) -> FileRead {
    FileRead { bytes: bytes.to_vec(), error: None }
}

fn parsed(text: &str) -> KernelConfig {
    parse_kernel_config(&read(text.as_bytes())).unwrap()
}

fn values(config: &KernelConfig) -> Vec<ConfigValue> {
    ConfigOption::required().iter().map(|option| config.value(*option)).collect()
}

#[test]
fn required_options_and_their_modules() {
    let names: Vec<&str> = ConfigOption::required().iter().map(|option| option.name()).collect();
    assert_eq!(
        names,
        vec![
            "CONFIG_NSM",
            "CONFIG_VIRTIO_VSOCKETS",
            "CONFIG_VIRTIO_MMIO",
            "CONFIG_VIRTIO_MMIO_CMDLINE_DEVICES",
        ]
    );
    let modules: Vec<Option<&str>> =
        ConfigOption::required().iter().map(|option| option.module_name()).collect();
    assert_eq!(
        modules,
        vec![Some("nsm"), Some("vmw_vsock_virtio_transport"), Some("virtio_mmio"), None]
    );
}

#[test]
fn names_and_options_correspond() {
    for option in ConfigOption::required() {
        assert_eq!(ConfigOption::from_name(option.name()), Some(option));
    }
    assert_eq!(ConfigOption::from_name("CONFIG_VIRTIO"), None);
    assert_eq!(ConfigOption::from_name("config_nsm"), None);
    assert_eq!(ConfigOption::from_name(""), None);
}

#[test]
fn assignment_lines() {
    let nsm = ConfigOption::Nsm;
    assert_eq!(parse_config_line("CONFIG_NSM=y"), Some((nsm, ConfigValue::BuiltIn)));
    assert_eq!(parse_config_line("\t CONFIG_NSM=m \r"), Some((nsm, ConfigValue::Module)));
    assert_eq!(parse_config_line("CONFIG_NSM=n"), Some((nsm, ConfigValue::NotSet)));
    assert_eq!(parse_config_line("CONFIG_NSM="), Some((nsm, ConfigValue::NotSet)));
    assert_eq!(parse_config_line("CONFIG_NSM=y=y"), Some((nsm, ConfigValue::NotSet)));
    assert_eq!(parse_config_line("CONFIG_NSM= y"), Some((nsm, ConfigValue::NotSet)));
    assert_eq!(parse_config_line("CONFIG_NSM =y"), None);
    assert_eq!(parse_config_line("CONFIG_OTHER=y"), None);
    assert_eq!(parse_config_line("CONFIG_NSM"), None);
    assert_eq!(parse_config_line(""), None);
}

#[test]
fn every_option_can_be_assigned_and_unset() {
    for option in ConfigOption::required() {
        let line = format!(" {}=m\n", option.name());
        assert_eq!(parse_config_line(&line), Some((option, ConfigValue::Module)));
        let line = format!("  # {} is not set ", option.name());
        assert_eq!(parse_config_line(&line), Some((option, ConfigValue::NotSet)));
    }
}

#[test]
fn unset_lines() {
    let nsm = ConfigOption::Nsm;
    assert_eq!(parse_config_line("# CONFIG_NSM is not set"), Some((nsm, ConfigValue::NotSet)));
    assert_eq!(
        parse_config_line("# # CONFIG_NSM is not set is not set"),
        Some((nsm, ConfigValue::NotSet))
    );
    assert_eq!(parse_config_line("#CONFIG_NSM is not set"), None);
    assert_eq!(parse_config_line("# CONFIG_OTHER is not set"), None);
    assert_eq!(parse_config_line("# CONFIG_NSM=y is not set"), None);
    assert_eq!(parse_config_line("# CONFIG_NSM=y"), None);
}

#[test]
fn a_whole_file() {
    let config = parsed(
        "# comment\nCONFIG_NSM=m\nCONFIG_VIRTIO_MMIO=y\r\n\n# CONFIG_VIRTIO_VSOCKETS is not set\nCONFIG_X=y\n",
    );
    assert_eq!(
        values(&config),
        vec![ConfigValue::Module, ConfigValue::NotSet, ConfigValue::BuiltIn, ConfigValue::NotSet]
    );
    assert_eq!(values(&parsed("")), vec![ConfigValue::NotSet; 4]);
}

#[test]
fn the_last_mention_counts() {
    let config = parsed("CONFIG_NSM=m\nCONFIG_NSM=y");
    assert_eq!(config.value(ConfigOption::Nsm), ConfigValue::BuiltIn);
    let config = parsed("CONFIG_NSM=m\n# CONFIG_NSM is not set\nCONFIG_VIRTIO_MMIO=m");
    assert_eq!(config.value(ConfigOption::Nsm), ConfigValue::NotSet);
}

#[test]
fn what_is_not_mentioned_is_not_set() {
    let config = parsed("CONFIG_NSM=m\nCONFIG_VIRTIO_MMIO_CMDLINE=y");
    assert_eq!(
        config.value(ConfigOption::VirtioMmioCmdlineDevices),
        ConfigValue::NotSet
    );
    assert_eq!(KernelConfig::new().value(ConfigOption::Nsm), ConfigValue::NotSet);
}

#[test]
fn inserting_replaces_one_value() {
    let mut config = KernelConfig::new();
    config.insert(ConfigOption::Nsm, ConfigValue::Module);
    config.insert(ConfigOption::VirtioMmio, ConfigValue::BuiltIn);
    config.insert(ConfigOption::Nsm, ConfigValue::BuiltIn);
    assert_eq!(
        values(&config),
        vec![ConfigValue::BuiltIn, ConfigValue::NotSet, ConfigValue::BuiltIn, ConfigValue::NotSet]
    );
}

#[test]
fn a_line_that_is_not_text_fails() {
    let error = parse_kernel_config(&read(b"CONFIG_NSM=m\n\xff\n")).unwrap_err();
    assert_eq!(error.kind, ErrorKind::FileOperationFailure);
    assert_eq!(
        error.message,
        "Failed to read config line: stream did not contain valid UTF-8"
    );
}

#[test]
fn a_read_error_fails() {
    let partial = FileRead {
        bytes: b"CONFIG_NSM=m\n\xff".to_vec(),
        error: Some("device gone".to_string()),
    };
    let error = parse_kernel_config(&partial).unwrap_err();
    assert_eq!(error.kind, ErrorKind::FileOperationFailure);
    assert_eq!(error.message, "Failed to read config line: device gone");
}

#[test]
fn text_that_is_not_ascii_is_read() {
    let config = parsed("# Größe\n\u{a0}CONFIG_NSM=m\u{a0}\n");
    assert_eq!(config.value(ConfigOption::Nsm), ConfigValue::Module);
}

#[test]
fn modules_that_a_configuration_needs() {
    assert_eq!(
        modules_needed(&parsed(
            "CONFIG_VIRTIO_MMIO=m\nCONFIG_NSM=m\nCONFIG_VIRTIO_VSOCKETS=m\nCONFIG_VIRTIO_MMIO_CMDLINE_DEVICES=m"
        )),
        vec!["nsm", "vmw_vsock_virtio_transport", "virtio_mmio"]
    );
    assert_eq!(
        modules_needed(&parsed("CONFIG_NSM=y\nCONFIG_VIRTIO_MMIO=m")),
        vec!["virtio_mmio"]
    );
    assert!(modules_needed(&parsed("CONFIG_VIRTIO_MMIO_CMDLINE_DEVICES=m")).is_empty());
    assert!(modules_needed(&KernelConfig::new()).is_empty());
}

#[test]
fn a_file_behind_another_overrides_it() {
    let front = "CONFIG_NSM=m\nCONFIG_VIRTIO_MMIO=y\n";
    let back = "# CONFIG_NSM is not set\nCONFIG_VIRTIO_VSOCKETS=m";
    assert_eq!(
        values(&parsed(&format!("{}{}", front, back))),
        vec![ConfigValue::NotSet, ConfigValue::Module, ConfigValue::BuiltIn, ConfigValue::NotSet]
    );
    assert_eq!(
        values(&parsed(&format!("{}{}", back, "\nCONFIG_NSM=y\n"))),
        vec![ConfigValue::BuiltIn, ConfigValue::Module, ConfigValue::NotSet, ConfigValue::NotSet]
    );
    let error = parse_kernel_config(&FileRead {
        bytes: b"\xff\nCONFIG_NSM=m\n".to_vec(),
        error: Some("device gone".to_string()),
    })
    .unwrap_err();
    assert_eq!(
        error.message,
        "Failed to read config line: stream did not contain valid UTF-8"
    );
}
