use kernel_extract::config::FileRead;
use kernel_extract::extract::{extract_kernel_binaries, Extraction, KernelExtractInfo};
use kernel_extract::failure::{ErrorKind, ExtractError};
use kernel_extract::layout::{DirEntry, KernelFile};
use kernel_extract::process::CommandOutput;
use kernel_extract::protocol::{Event, Request};
use kernel_extract::state::Stage;
use kernel_extract::tree::{Listing, Node};

const CONFIG: &str = "CONFIG_NSM=m\nCONFIG_VIRTIO_VSOCKETS=m\nCONFIG_VIRTIO_MMIO=y\n";

fn shown(path: &Vec<u8>) -> String {
    String::from_utf8_lossy(path).into_owned()
}

fn all_shown(paths: &Vec<Vec<u8>>) -> String {
    let parts: Vec<String> = paths.iter().map(shown).collect();
    parts.join(" ")
}

/// A request on one line.
fn line(request: &Request) -> String {
    match request {
        Request::CreateDir { path } => format!("mkdir {}", shown(path)),
        Request::Exists { path } => format!("exists {}", shown(path)),
        Request::RemoveDir { path } => format!("rmdir {}", shown(path)),
        Request::Run { program, args } => format!("run {} {}", program, all_shown(args)),
        Request::Spawn { program, args, dir } => {
            format!("spawn {} {} in {}", program, all_shown(args), shown(dir))
        }
        Request::Feed { input } => format!("feed {}", shown(input)),
        Request::Wait => "wait".to_string(),
        Request::List { path } => format!("list {}", shown(path)),
        Request::Copy { from, to } => format!("copy {} {}", shown(from), shown(to)),
        Request::Read { path } => format!("read {}", shown(path)),
        Request::Walk { path } => format!("walk {}", shown(path)),
        Request::Write { path, contents } => format!("write {} {}", shown(path), shown(contents)),
        Request::Create { path } => format!("create {}", shown(path)),
        Request::Append { text } => format!("append {}", text),
        Request::Nothing => "nothing".to_string(),
    }
}

fn ended(success: bool, stdout: &[u8], stderr: &[u8]) -> Event {
    Event::Ended {
        output: CommandOutput { success, stdout: stdout.to_vec(), stderr: stderr.to_vec() },
    }
}

fn failed() -> Event {
    Event::Failed { detail: "boom".to_string() }
}

fn listed(entries: &[(&[u8], bool)]) -> Event {
    Event::Listed {
        entries: entries
            .iter()
            .map(|(name, is_dir)| Some(DirEntry { name: name.to_vec(), is_dir: *is_dir }))
            .collect(),
    }
}

fn contents(text: &str) -> Event {
    Event::Contents { read: FileRead { bytes: text.as_bytes().to_vec(), error: None } }
}

fn tree() -> Listing {
    let file = |name: &str| Node::File { name: name.as_bytes().to_vec() };
    let dir = |name: &str, nodes: Vec<Node>| Node::Dir {
        name: name.as_bytes().to_vec(),
        listing: Listing::Entries(nodes),
    };
    Listing::Entries(vec![
        file("vmlinuz"),
        dir(
            "kernel",
            vec![
                dir("net", vec![file("vmw_vsock_virtio_transport.ko.zst"), file("vsock.ko")]),
                dir("misc", vec![file("nsm.ko.xz")]),
            ],
        ),
    ])
}

/// How the system answers where nothing goes wrong, with the given kernel config.
fn answer(request: &str, config: &str) -> Event {
    if request.starts_with("exists out/_extract_temp/lib/modules/6.1/vmlinuz")
        || request.starts_with("exists out/_extract_temp/boot/config-6.1")
    {
        Event::Answer { yes: true }
    } else if request.starts_with("exists ") {
        Event::Answer { yes: false }
    } else if request.starts_with("run rpm2cpio") {
        ended(true, b"ARCHIVE", b"")
    } else if request.starts_with("wait") {
        ended(true, b"", b"12 blocks")
    } else if request.starts_with("run zstd") {
        ended(true, b"VSOCK-TRANSPORT", b"")
    } else if request.starts_with("run xz") {
        ended(true, b"NSM", b"")
    } else if request.ends_with("vmw_vsock_virtio_transport.ko") && request.starts_with("run modinfo") {
        ended(true, b"vmw_vsock_virtio_transport_common,vsock\n", b"")
    } else if request.ends_with("vsock.ko") && request.starts_with("run modinfo") {
        ended(true, b"\n", b"")
    } else if request.starts_with("run modinfo") {
        failed()
    } else if request.starts_with("list ") {
        listed(&[(b"README", false), (b"6.1", true), (b"6.2", true)])
    } else if request.starts_with("read ") {
        contents(config)
    } else if request.starts_with("walk ") {
        Event::Walked { listing: tree() }
    } else {
        Event::Done
    }
}

struct Course {
    requests: Vec<String>,
    told: Vec<String>,
    outcome: Result<KernelExtractInfo, ExtractError>,
}

fn start() -> Extraction {
    extract_kernel_binaries(b"k.rpm".to_vec(), b"out".to_vec(), "x86_64".to_string())
}

/// Runs an extraction to its end; `odd` may answer in place of [`answer`], by the number and the
/// line of a request.
fn drive(
    mut extraction: Extraction,
    config: &str,
    odd: &dyn Fn(usize, &str) -> Option<Event>,
) -> Course {
    let mut requests: Vec<String> = vec![];
    while !matches!(extraction.request(), Request::Nothing) {
        let request = line(&extraction.request());
        let event = match odd(requests.len(), &request) {
            Some(event) => event,
            None => answer(&request, config),
        };
        assert!(extraction.accepts(&event), "{}", request);
        extraction = extraction.step(event);
        requests.push(request);
        assert!(requests.len() < 100);
    }
    let told = extraction.log().iter().map(|notice| notice.text()).collect();
    Course { requests, told, outcome: extraction.outcome().unwrap() }
}

fn usual(config: &str) -> Course {
    drive(start(), config, &|_, _| None)
}

/// The error of an extraction that goes wrong at one request.
fn error_at(at: usize, event: &dyn Fn() -> Event) -> ExtractError {
    let course = drive(start(), CONFIG, &|n, _| if n == at { Some(event()) } else { None });
    assert_eq!(course.requests.len(), at + 1);
    course.outcome.unwrap_err()
}

const REQUESTS: [&str; 32] = [
    "mkdir out",
    "exists out/_extract_temp",
    "mkdir out/_extract_temp",
    "run rpm2cpio k.rpm",
    "spawn cpio -idm --no-absolute-filenames in out/_extract_temp",
    "feed ARCHIVE",
    "wait",
    "list out/_extract_temp/lib/modules",
    "exists out/_extract_temp/lib/modules/6.1/vmlinuz",
    "copy out/_extract_temp/lib/modules/6.1/vmlinuz out/bzImage",
    "list out/_extract_temp/lib/modules",
    "exists out/_extract_temp/lib/modules/6.1/config",
    "exists out/_extract_temp/boot/config-6.1",
    "copy out/_extract_temp/boot/config-6.1 out/config",
    "read out/config",
    "list out/_extract_temp/lib/modules",
    "mkdir out/modules",
    "walk out/_extract_temp/lib/modules/6.1",
    "run zstd -d -c out/_extract_temp/lib/modules/6.1/kernel/net/vmw_vsock_virtio_transport.ko.zst",
    "write out/modules/vmw_vsock_virtio_transport.ko VSOCK-TRANSPORT",
    "run modinfo -F depends out/modules/vmw_vsock_virtio_transport.ko",
    "walk out/_extract_temp/lib/modules/6.1",
    "copy out/_extract_temp/lib/modules/6.1/kernel/net/vsock.ko out/modules/vsock.ko",
    "run modinfo -F depends out/modules/vsock.ko",
    "walk out/_extract_temp/lib/modules/6.1",
    "walk out/_extract_temp/lib/modules/6.1",
    "run xz -dk -c out/_extract_temp/lib/modules/6.1/kernel/misc/nsm.ko.xz",
    "write out/modules/nsm.ko NSM",
    "run modinfo -F depends out/modules/nsm.ko",
    "create out/modules.txt",
    "append # Kernel modules extracted for Nitro Enclaves\n\
     # Format: module_name: dependency1, dependency2, ...\n\
     \n\
     # Config options:\n\
     #   CONFIG_NSM=m (module)\n\
     #   CONFIG_VIRTIO_VSOCKETS=m (module)\n\
     #   CONFIG_VIRTIO_MMIO=y (built-in)\n\
     #   CONFIG_VIRTIO_MMIO_CMDLINE_DEVICES=not set\n\
     \n\
     # Extracted modules:\n\
     nsm\n\
     vmw_vsock_virtio_transport: vmw_vsock_virtio_transport_common, vsock\n\
     vsock\n",
    "rmdir out/_extract_temp",
];

#[test]
fn a_whole_extraction() {
    let course = usual(CONFIG);
    assert_eq!(course.requests, REQUESTS);
    let info = course.outcome.unwrap();
    assert_eq!(shown(&info.kernel_image), "out/bzImage");
    assert_eq!(shown(&info.kernel_config), "out/config");
    assert_eq!(shown(&info.modules_manifest), "out/modules.txt");
    let names: Vec<&str> = info.modules.iter().map(|module| module.name.as_str()).collect();
    assert_eq!(names, vec!["nsm", "vmw_vsock_virtio_transport", "vsock"]);
    assert_eq!(shown(&info.modules[0].path), "out/modules/nsm.ko");
    assert!(info.modules[0].dependencies.is_empty());
    assert_eq!(
        info.modules[1].dependencies,
        vec!["vmw_vsock_virtio_transport_common", "vsock"]
    );
}

#[test]
fn what_the_user_is_told() {
    assert_eq!(
        usual(CONFIG).told,
        vec![
            "Extracting RPM...",
            "Locating kernel image...",
            "  Kernel image: out/bzImage",
            "Locating kernel config...",
            "  Kernel config: out/config",
            "Parsing kernel config...",
            "  CONFIG_NSM: module (m)",
            "  CONFIG_VIRTIO_VSOCKETS: module (m)",
            "  CONFIG_VIRTIO_MMIO: built-in (y)",
            "  CONFIG_VIRTIO_MMIO_CMDLINE_DEVICES: not set",
            "Extracting required modules...",
            "  vmw_vsock_virtio_transport (deps: [\"vmw_vsock_virtio_transport_common\", \"vsock\"])",
            "  vsock (deps: [])",
            "  Warning: Module vmw_vsock_virtio_transport_common not found",
            "  nsm (deps: [])",
            "\nExtraction complete:\n  Kernel image: out/bzImage\n  Kernel config: out/config\n  Modules manifest: out/modules.txt\n  Modules directory: out/modules\n  Total modules: 3",
        ]
    );
}

#[test]
fn without_needed_modules_no_directory_is_made_for_them() {
    let course = usual("CONFIG_NSM=y\nCONFIG_VIRTIO_MMIO_CMDLINE_DEVICES=m\n");
    assert_eq!(course.requests[15], "list out/_extract_temp/lib/modules");
    assert_eq!(course.requests[16], "create out/modules.txt");
    assert!(course.requests[17].ends_with("# No modules needed - all required features are built-in\n"));
    assert_eq!(course.requests.len(), 19);
    assert!(course.outcome.unwrap().modules.is_empty());
    assert_eq!(
        course.told[course.told.len() - 1],
        "\nExtraction complete:\n  Kernel image: out/bzImage\n  Kernel config: out/config\n  Modules manifest: out/modules.txt"
    );
}

#[test]
fn image_is_named_for_the_architecture() {
    for (arch, name) in [("x86_64", "bzImage"), ("aarch64", "Image"), ("mips", "vmlinuz")] {
        let extraction =
            extract_kernel_binaries(b"k.rpm".to_vec(), b"out".to_vec(), arch.to_string());
        let course = drive(extraction, "", &|_, _| None);
        assert_eq!(shown(&course.outcome.unwrap().kernel_image), format!("out/{}", name));
    }
}

#[test]
fn a_left_over_directory_is_removed_first() {
    let course = drive(start(), CONFIG, &|n, _| {
        if n == 1 { Some(Event::Answer { yes: true }) } else { None }
    });
    assert_eq!(course.requests[2], "rmdir out/_extract_temp");
    assert_eq!(course.requests[3..], REQUESTS[2..]);
    assert!(course.outcome.is_ok());

    let course = drive(start(), CONFIG, &|n, _| match n {
        1 => Some(Event::Answer { yes: true }),
        2 => Some(failed()),
        _ => None,
    });
    let error = course.outcome.unwrap_err();
    assert_eq!(error.kind, ErrorKind::FileOperationFailure);
    assert_eq!(error.message, "Failed to clean temp directory: boom");
    assert!(course.told.is_empty());
}

#[test]
fn failed_operations_end_the_extraction() {
    let file = ErrorKind::FileOperationFailure;
    let spawn = ErrorKind::ProcessSpawnFailure;
    let cases: [(usize, ErrorKind, &str); 20] = [
        (0, file, "Failed to create output directory: boom"),
        (2, file, "Failed to create output directory: boom"),
        (3, spawn, "Failed to run rpm2cpio: boom"),
        (4, spawn, "Failed to spawn cpio: boom"),
        (5, file, "Failed to write to cpio stdin: boom"),
        (6, spawn, "Failed to wait for cpio: boom"),
        (7, file, "Failed to read modules directory: boom"),
        (9, file, "Failed to copy kernel image: boom"),
        (10, file, "Failed to read modules directory: boom"),
        (13, file, "Failed to copy kernel config: boom"),
        (14, file, "Failed to open kernel config: boom"),
        (15, file, "Failed to read modules directory: boom"),
        (16, file, "Failed to create modules directory: boom"),
        (18, spawn, "Failed to run zstd: boom"),
        (19, file, "Failed to write decompressed module: boom"),
        (22, file, "Failed to copy module: boom"),
        (26, spawn, "Failed to run xz: boom"),
        (27, file, "Failed to write decompressed module: boom"),
        (29, file, "Failed to create modules manifest: boom"),
        (30, file, "Failed to write manifest: boom"),
    ];
    for (at, kind, message) in cases {
        let error = error_at(at, &failed);
        assert_eq!(error.kind, kind, "{}", at);
        assert_eq!(error.message, message, "{}", at);
    }
}

#[test]
fn failed_programs_end_the_extraction() {
    let cases: [(usize, &str); 4] = [
        (3, "rpm2cpio failed: b\u{fffd}d"),
        (6, "cpio failed: b\u{fffd}d"),
        (18, "zstd decompression failed: b\u{fffd}d"),
        (26, "xz decompression failed: b\u{fffd}d"),
    ];
    for (at, message) in cases {
        let error = error_at(at, &|| ended(false, b"ignored", b"b\xffd"));
        assert_eq!(error.kind, ErrorKind::ProcessSpawnFailure);
        assert_eq!(error.message, message);
    }
}

#[test]
fn a_failing_modinfo_means_no_dependencies() {
    for event in [&failed as &dyn Fn() -> Event, &|| ended(false, b"a,b", b"")] {
        let course =
            drive(start(), CONFIG, &|n, _| if n == 20 { Some(event()) } else { None });
        let info = course.outcome.unwrap();
        let names: Vec<&str> = info.modules.iter().map(|module| module.name.as_str()).collect();
        assert_eq!(names, vec!["nsm", "vmw_vsock_virtio_transport"]);
        assert!(info.modules[1].dependencies.is_empty());
    }
}

#[test]
fn a_temporary_directory_may_stay_behind() {
    let course = drive(start(), CONFIG, &|n, _| if n == 31 { Some(failed()) } else { None });
    assert_eq!(course.requests, REQUESTS);
    assert_eq!(course.outcome.unwrap().modules.len(), 3);
}

#[test]
fn a_kernel_file_in_neither_place() {
    let course = drive(start(), CONFIG, &|_, request| {
        if request.contains("vmlinuz") { Some(Event::Answer { yes: false }) } else { None }
    });
    assert_eq!(course.requests[9], "exists out/_extract_temp/boot/vmlinuz-6.1");
    let error = course.outcome.unwrap_err();
    assert_eq!(error.kind, ErrorKind::FileOperationFailure);
    assert_eq!(error.message, "Kernel image not found in out/_extract_temp");

    let error = error_at(12, &|| Event::Answer { yes: false });
    assert_eq!(error.kind, ErrorKind::FileOperationFailure);
    assert_eq!(error.message, "Kernel config not found");
}

#[test]
fn a_package_without_a_kernel_version() {
    for at in [7, 10, 15] {
        let error = error_at(at, &|| listed(&[(b"README", false)]));
        assert_eq!(error.kind, ErrorKind::FileOperationFailure);
        assert_eq!(error.message, "No kernel version directory found");
    }
}

#[test]
fn a_config_that_cannot_be_parsed() {
    let error = error_at(14, &|| Event::Contents {
        read: FileRead { bytes: b"\xff".to_vec(), error: None },
    });
    assert_eq!(
        error.message,
        "Failed to read config line: stream did not contain valid UTF-8"
    );
    let error = error_at(14, &|| Event::Contents {
        read: FileRead { bytes: vec![], error: Some("gone".to_string()) },
    });
    assert_eq!(error.message, "Failed to read config line: gone");
}

#[test]
fn a_version_that_is_not_text() {
    let mut extraction = start();
    for request in &REQUESTS[..7] {
        extraction = extraction.step(answer(request, CONFIG));
    }
    extraction = extraction.step(listed(&[(b"6\xff", true)]));
    assert_eq!(extraction.stage(), Stage::ProbeFirst(KernelFile::Image));
    assert!(!extraction.accepts(&Event::Answer { yes: false }));
    assert!(extraction.accepts(&Event::Answer { yes: true }));
    let extraction = extraction.step(Event::Answer { yes: true });
    assert!(matches!(
        extraction.request(),
        Request::Copy { from, .. } if from == b"out/_extract_temp/lib/modules/6\xff/vmlinuz".to_vec()
    ));
}

#[test]
fn only_fitting_events_are_accepted() {
    let extraction = start();
    assert!(extraction.accepts(&Event::Done));
    assert!(extraction.accepts(&failed()));
    assert!(!extraction.accepts(&Event::Answer { yes: true }));
    assert!(!extraction.accepts(&ended(true, b"", b"")));
    assert!(!extraction.accepts(&listed(&[])));
    assert!(!extraction.accepts(&contents("")));
    assert!(!extraction.accepts(&Event::Walked { listing: Listing::Unreadable }));
    let extraction = extraction.step(Event::Done);
    assert_eq!(extraction.stage(), Stage::CheckTempDir);
    assert!(!extraction.accepts(&Event::Done));
    assert!(!extraction.accepts(&failed()));
    assert!(extraction.outcome().is_none());
}

#[test]
fn an_extraction_that_has_ended_accepts_nothing() {
    let extraction = start().step(failed());
    assert_eq!(extraction.stage(), Stage::Finished);
    assert!(matches!(extraction.request(), Request::Nothing));
    for event in [
        Event::Done,
        failed(),
        Event::Answer { yes: true },
        ended(true, b"", b""),
        listed(&[]),
        contents(""),
        Event::Walked { listing: Listing::Unreadable },
    ] {
        assert!(!extraction.accepts(&event));
    }
    assert!(extraction.outcome().unwrap().is_err());
}

#[test]
fn an_extraction_is_bounded_by_its_modules() {
    let course = usual(CONFIG);
    let looked_at = course.requests.iter().filter(|request| request.starts_with("walk ")).count();
    assert_eq!(looked_at, 4);
    assert!(course.requests.len() <= 23 + 4 * looked_at);
}

#[test]
fn changes_stay_in_the_output_directory() {
    for request in usual(CONFIG).requests {
        let words: Vec<&str> = request.split(' ').collect();
        let changed = match words[0] {
            "mkdir" | "rmdir" | "write" | "create" => words[1],
            "copy" => words[2],
            "spawn" => words[words.len() - 1],
            _ => "out",
        };
        assert!(changed == "out" || changed.starts_with("out/"), "{}", request);
    }
}

#[test]
fn modules_that_depend_on_each_other_are_extracted_once() {
    let course = drive(start(), "CONFIG_NSM=m\n", &|_, request| {
        if request.starts_with("run modinfo") {
            Some(ended(true, b"nsm, vsock", b""))
        } else {
            None
        }
    });
    let info = course.outcome.unwrap();
    let names: Vec<&str> = info.modules.iter().map(|module| module.name.as_str()).collect();
    assert_eq!(names, vec!["nsm", "vsock"]);
    assert_eq!(info.modules[1].dependencies, vec!["nsm", "vsock"]);
}

#[test]
fn where_the_listings_agree_all_is_of_one_version() {
    let requests = usual(CONFIG).requests;
    for request in &requests {
        for place in ["lib/modules/", "boot/config-", "boot/vmlinuz-"] {
            if let Some((_, rest)) = request.split_once(place) {
                assert!(rest.starts_with("6.1"), "{}", request);
            }
        }
    }
    let course = drive(start(), CONFIG, &|n, _| {
        if n == 15 { Some(listed(&[(b"6.2", true)])) } else { None }
    });
    assert_eq!(course.requests[..17], requests[..17]);
    assert_eq!(course.requests[17], "walk out/_extract_temp/lib/modules/6.2");
}
