use iomark::disk::DiskInfo;
use iomark::duration::Duration;
use iomark::fio::{Op, RunSample};
use iomark::measure::Reading;
use iomark::platform::Platform;
use iomark::report::workload_report;
use iomark::runner::{Config, OpResult};

fn reading(x: f64) -> Reading {
    Reading::from_bits(x.to_bits())
}

fn float(r: Reading) -> f64 {
    f64::from_bits(r.to_bits())
}

#[test]
fn ndjson_line_is_valid_json_with_expected_fields() {
    let cfg = Config {
        tasks: vec!["SEQ1MQ8T1".parse().unwrap()],
        target: "/tmp".to_string(),
        size: 1 << 30,
        runs: 2,
        duration: Duration::from_secs(5),
        warmup: Duration::from_secs(5),
        interval: Duration::from_secs(5),
    };
    let sample = RunSample {
        bytes_per_sec: reading(14_721_860_000.0),
        iops: reading(14_040.0),
        lat_mean_us: reading(568.4),
        lat_min_us: reading(120.0),
    };
    let result = OpResult {
        spec: cfg.tasks[0],
        op: Op::Read,
        bytes_per_sec: sample.bytes_per_sec,
        iops: sample.iops,
        lat_us: sample.lat_mean_us,
        runs: vec![sample],
    };
    let disk = DiskInfo {
        source: "/dev/disk3s5".into(),
        volume: Some("Macintosh HD - Data".into()),
        mount: "/System/Volumes/Data".into(),
        file_system: "apfs".into(),
        total: 500,
        available: 100,
    };
    let report = workload_report(&result, &cfg, Some(&disk), Platform::MacOs, "fio-3.42", 77);
    assert_eq!(report.task, "SEQ1MQ8T1");
    assert_eq!(report.op, "read");
    assert_eq!(report.block_size, 1 << 20);
    assert!((float(report.best.bytes_per_sec) / 1e6 - 14721.86).abs() < 1e-6);
    assert_eq!(report.all_runs.len(), 1);
    let named = report.disk.as_ref().unwrap();
    assert_eq!(named.source, "/dev/disk3s5");
    assert_eq!(named.volume.as_deref(), Some("Macintosh HD - Data"));
    assert_eq!(named.file_system, "apfs");
    assert_eq!(named.total_bytes, 500);

    assert_eq!(report.schema, 1);
    assert_eq!(report.timestamp_unix, 77);
    assert_eq!(report.label, "SEQ1M Q8T1");
    assert_eq!(report.pattern, "sequential");
    assert_eq!((report.queue_depth, report.threads, report.runs), (8, 1, 1));
    assert_eq!(report.duration, Duration::from_secs(5));
    assert_eq!(float(report.all_runs[0].lat_min_us), 120.0);
    assert_eq!(report.target, "/tmp");
    assert_eq!(named.mount, "/System/Volumes/Data");
    assert_eq!(named.available_bytes, 100);
    assert_eq!(report.size_bytes, 1 << 30);
    assert_eq!(report.engine, "posixaio");
    assert_eq!(report.fio_version, "fio-3.42");

    let report = workload_report(&result, &cfg, None, Platform::MacOs, "fio-3.42", 77);
    assert!(report.disk.is_none());
}
