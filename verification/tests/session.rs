use iomark::abort::AbortHandle;
use iomark::cli::{Args, Cli};
use iomark::disk::DiskInfo;
use iomark::platform::Platform;
use iomark::session::{aio_limit, interactive, platform_warnings, preflight, version, SLACK};

fn cli(tasks: &str, size: &str) -> Cli {
    let mut args = Args::none();
    args.tasks = vec![tasks.to_string()];
    args.size = Some(size.to_string());
    Cli::from_args(&args).unwrap()
}

fn disk(available: u64) -> DiskInfo {
    DiskInfo {
        source: "/dev/sda1".into(),
        volume: None,
        mount: "/mnt".into(),
        file_system: "ext4".into(),
        total: 1 << 40,
        available,
    }
}

#[test]
fn refuses_to_fill_the_volume() {
    let cli = cli("SEQ1MQ8T1", "1GiB");
    let needed = (1 << 30) + SLACK;
    assert_eq!(preflight(&cli, Some(&disk(needed))), Ok(()));
    assert_eq!(
        preflight(&cli, Some(&disk(needed - 1))),
        Err("not enough free space on /mnt: 1.1 GiB available, 1.1 GiB needed".to_string())
    );
    assert_eq!(preflight(&cli, None), Ok(()));
}

#[test]
fn refuses_sizes_that_no_volume_can_take() {
    let full = "not enough free space on /mnt: 16384.0 PiB available, 16384.0 PiB needed";
    for size in ["18446744073709551615", "18446744073642442752"] {
        let cli = cli("SEQ1MQ8T1", size);
        assert_eq!(preflight(&cli, Some(&disk(u64::MAX))), Err(full.to_string()));
        assert_eq!(preflight(&cli, None), Ok(()));
    }
    let cli = cli("SEQ1MQ8T1", "18446744073642442751");
    assert_eq!(preflight(&cli, Some(&disk(u64::MAX))), Ok(()));
}

#[test]
fn refuses_blocks_larger_than_the_file() {
    assert_eq!(
        preflight(&cli("RND4KQ1T1,SEQ1MQ8T1,SEQ2MQ1T1", "512K"), None),
        Err(
            "--size 512.0 KiB is smaller than SEQ1M Q8T1's block size — increase --size or drop the task"
                .to_string()
        )
    );
    assert_eq!(preflight(&cli("SEQ1MQ8T1", "1M"), None), Ok(()));
}

#[test]
fn warns_of_deep_queues_on_macos() {
    let tasks = cli("SEQ1MQ8T1,RND4KQ32T16", "1G").tasks;
    assert_eq!(
        platform_warnings(&tasks, Some(16)),
        ["macOS caps in-flight POSIX AIO at 16 per process (kern.aioprocmax); deeper queues run effectively shallower"]
    );
    assert!(platform_warnings(&tasks, Some(512)).is_empty());
    assert!(platform_warnings(&tasks, None).is_empty());
    assert_eq!(aio_limit(Platform::MacOs, b" 16\n"), Some(16));
    assert_eq!(aio_limit(Platform::MacOs, b"unknown oid"), None);
    assert_eq!(aio_limit(Platform::MacOs, b"\xff16"), None);
    assert_eq!(aio_limit(Platform::Linux, b"16"), None);
}

#[test]
fn is_interactive_only_with_keys_and_a_terminal() {
    assert!(interactive(false, true, true, true));
    assert!(!interactive(true, true, true, true));
    assert!(!interactive(false, false, true, true));
    assert!(!interactive(false, true, false, true));
    assert!(!interactive(false, true, true, false));
}

#[test]
fn shows_both_versions() {
    assert_eq!(version("0.1.0", "fio-3.42"), "0.1.0 (fio-3.42)");
}

#[test]
fn aborting_kills_whatever_runs() {
    let mut handle = AbortHandle::new();
    assert!(!handle.is_aborted());
    assert!(!handle.adopt());
    let abort = handle.abort();
    assert!(abort.first && abort.kill);
    let again = handle.abort();
    assert!(!again.first && again.kill);
    assert!(handle.reap());
    assert!(!handle.reap());
    assert!(!handle.abort().kill);
    assert!(handle.is_aborted());
    assert!(handle.adopt());
}
