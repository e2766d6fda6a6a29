use iomark::duration::Duration;
use iomark::eta::{parse_eta_line, Amount, EtaRate, LineBuffer};
use iomark::fio::{
    judge_worker, output_name, pick_sample, prepare_args, sanitize, JobStats, Op, RunSample,
    Workload,
};
use iomark::measure::Reading;
use iomark::platform::Platform;
use iomark::task::Pattern;

fn number(a: &Amount) -> f64 {
    a.number.parse::<f64>().unwrap() * a.factor as f64
}

fn percent(rate: &EtaRate) -> Option<f64> {
    rate.percent.as_ref().map(|p| p.parse().unwrap())
}

fn reading(x: f64) -> Reading {
    Reading::from_bits(x.to_bits())
}

fn float(r: Reading) -> f64 {
    f64::from_bits(r.to_bits())
}

#[test]
fn parses_eta_line_with_rates() {
    let line = "Jobs: 1 (f=1): [R(1)][75.0%][r=5956MiB/s][r=5956 IOPS][eta 00m:01s]";
    let rate = parse_eta_line(line).unwrap();
    assert!((number(&rate.bandwidth) - 5956.0 * 1024.0 * 1024.0).abs() < 1.0);
    assert!((number(&rate.iops) - 5956.0).abs() < f64::EPSILON);
    assert_eq!(percent(&rate), Some(75.0));
}

#[test]
fn parses_kilo_iops_and_write_direction() {
    let line = "Jobs: 1 (f=1): [W(1)][12.5%][w=812KiB/s][w=31.5k IOPS][eta 01m:10s]";
    let rate = parse_eta_line(line).unwrap();
    assert!((number(&rate.bandwidth) - 812.0 * 1024.0).abs() < 1.0);
    assert!((number(&rate.iops) - 31_500.0).abs() < 1e-6);
}

#[test]
fn ignores_lines_without_rates() {
    assert!(parse_eta_line("Jobs: 1 (f=1)").is_none());
    assert!(parse_eta_line("").is_none());
}

#[test]
fn takes_the_leftmost_rates_in_every_unit() {
    let rate = parse_eta_line("[r=1B/s][w=2 IOPS][r=3B/s][w=4 IOPS]").unwrap();
    assert_eq!((rate.bandwidth.number.as_str(), rate.bandwidth.factor), ("1", 1));
    assert_eq!((rate.iops.number.as_str(), rate.iops.factor), ("2", 1));
    assert!(rate.percent.is_none());
    for (unit, factor) in [
        ("B", 1u64),
        ("KiB", 1 << 10),
        ("MiB", 1 << 20),
        ("GiB", 1 << 30),
        ("TiB", 1 << 40),
        ("PiB", 1 << 50),
    ] {
        let rate = parse_eta_line(&format!("x[w=1.25{unit}/s][w=7 IOPS]")).unwrap();
        assert_eq!((rate.bandwidth.number.as_str(), rate.bandwidth.factor), ("1.25", factor));
    }
    for (unit, factor) in [("", 1u64), ("k", 1000), ("K", 1000), ("M", 1000000), ("G", 1000000000)] {
        let rate = parse_eta_line(&format!("[3%][4.5%][r=1B/s][r=7{unit} IOPS]")).unwrap();
        assert_eq!((rate.iops.number.as_str(), rate.iops.factor), ("7", factor));
        assert_eq!(rate.percent.as_deref(), Some("3"));
    }
    for bad in [
        "[r=1.B/s][r=7 IOPS]",
        "[r=B/s][r=7 IOPS]",
        "[x=1B/s][r=7 IOPS]",
        "[r=1EiB/s][r=7 IOPS]",
        "[r=1B/s] [r=7 IOPS]",
        "[r=1B/s][r=7T IOPS]",
    ] {
        assert!(parse_eta_line(bad).is_none(), "{bad}");
    }
}

#[test]
fn chunks_of_output_do_not_matter() {
    let output = "[r=1B/s][r=1 IOPS]\rnothing\n[r=2B/s][r=2 IOPS]\r\n[\u{e9}%][9%][w=3KiB/s][w=3k IOPS]\n[r=4B/s][r=4 IOPS]"
        .as_bytes();
    let expected = ["1", "2", "3"];
    for size in 1..=output.len() {
        let mut buffer = LineBuffer::new();
        let mut rates: Vec<String> = Vec::new();
        for chunk in output.chunks(size) {
            rates.extend(buffer.feed(chunk).into_iter().map(|r| r.iops.number));
        }
        assert_eq!(rates, expected);
        assert_eq!(buffer.feed(b"\r").len(), 1);
    }
    let mut buffer = LineBuffer::new();
    let rates = buffer.feed(b"\xff[r=1B/s][r=1 IOPS]\n");
    assert_eq!(rates.len(), 1);
}

fn stats(value: &serde_json::Value) -> RunSample {
    let at = |v: &serde_json::Value| v.as_f64().unwrap();
    RunSample {
        bytes_per_sec: reading(at(&value["bw_bytes"])),
        iops: reading(at(&value["iops"])),
        lat_mean_us: reading(at(&value["lat_ns"]["mean"]) / 1e3),
        lat_min_us: reading(at(&value["lat_ns"]["min"]) / 1e3),
    }
}

#[test]
fn parses_fio_json_subset() {
    let json = r#"{"jobs":[{"read":{"bw_bytes":5038611948,"iops":4805.1,
            "lat_ns":{"min":250000.0,"mean":1663700.0}},
            "write":{"bw_bytes":0,"iops":0.0,"lat_ns":{"min":0.0,"mean":0.0}}}]}"#;
    let parsed: serde_json::Value = serde_json::from_str(json).unwrap();
    let jobs: Vec<JobStats> = parsed["jobs"]
        .as_array()
        .unwrap()
        .iter()
        .map(|job| JobStats { read: stats(&job["read"]), write: stats(&job["write"]) })
        .collect();
    let read = pick_sample(&jobs, Op::Read).unwrap();
    assert_eq!(float(read.bytes_per_sec), 5038611948.0);
    assert!((float(read.lat_mean_us) - 1663.7).abs() < 1e-9);
    let write = pick_sample(&jobs, Op::Write).unwrap();
    assert_eq!(float(write.bytes_per_sec), 0.0);
    assert_eq!(
        pick_sample(&Vec::new(), Op::Read),
        Err("fio JSON contains no jobs".to_string())
    );
}

fn workload<'a>(task: &str, op: Op, file: &'a str) -> Workload<'a> {
    Workload {
        spec: task.parse().unwrap(),
        op,
        file,
        size: 1 << 30,
        runtime: Duration::from_millis(2500),
    }
}

#[test]
fn asks_fio_for_a_workload() {
    let args = workload("RND4KQ32T16", Op::Write, "/mnt/iomark-7.tmp").args(Platform::Linux, "/tmp/o");
    assert_eq!(
        args,
        [
            "--name=RND4KQ32T16-write",
            "--filename=/mnt/iomark-7.tmp",
            "--size=1073741824",
            "--ioengine=libaio",
            "--direct=1",
            "--randrepeat=0",
            "--thread",
            "--bs=4096",
            "--iodepth=32",
            "--numjobs=16",
            "--group_reporting",
            "--rw=randwrite",
            "--time_based",
            "--runtime=2500ms",
            "--output-format=json",
            "--output=/tmp/o",
            "--eta=always",
            "--eta-newline=250ms",
            "--eta-interval=250ms",
            "--end_fsync=1",
        ]
    );
    let args = workload("SEQ1MQ8T1", Op::Read, r"\\?\D:\f").args(Platform::Windows, "o");
    assert_eq!(args.len(), 19);
    assert_eq!(args[0], "--name=SEQ1MQ8T1-read");
    assert_eq!(args[1], r"--filename=D:\f");
    assert_eq!(args[3], "--ioengine=windowsaio");
    assert_eq!(args[11], "--rw=read");
    let args = workload("SEQ1MQ8T1", Op::Read, r"\\?\D:\f").args(Platform::MacOs, "o");
    assert_eq!(args[1], r"--filename=\\?\D:\f");
    assert_eq!(args[3], "--ioengine=posixaio");
    assert_eq!(Platform::Other.engine(), "psync");
}

#[test]
fn asks_fio_for_the_test_file() {
    assert_eq!(
        prepare_args("/d/f", 4096, Platform::Linux, "/tmp/o"),
        [
            "--name=prepare",
            "--filename=/d/f",
            "--size=4096",
            "--rw=write",
            "--overwrite=1",
            "--thread",
            "--bs=4096",
            "--create_only=1",
            "--output-format=json",
            "--output=/tmp/o",
        ]
    );
    assert_eq!(prepare_args("f", 3 << 20, Platform::Linux, "o")[6], "--bs=1048576");
}

#[test]
fn judges_workers() {
    assert_eq!(judge_worker(true, false, "exit status: 1", "x"), Ok(false));
    assert_eq!(judge_worker(true, true, "exit status: 0", ""), Ok(false));
    assert_eq!(judge_worker(false, true, "exit status: 0", "noise"), Ok(true));
    assert_eq!(
        judge_worker(false, false, "exit status: 1", " fio: no space\n"),
        Err("fio worker failed (exit status: 1): fio: no space".to_string())
    );
}

#[test]
fn names_output_files_apart() {
    assert_eq!(output_name(12, 3), "iomark-fio-12-3.json");
    assert_ne!(output_name(1, 23), output_name(12, 3));
}

#[test]
fn drops_zeros_from_arguments() {
    assert_eq!(sanitize(b"--name=x"), b"--name=x");
    assert_eq!(sanitize(b"a\0b\0"), b"ab");
}

#[test]
fn names_directions() {
    assert_eq!(Op::Read.name(), "read");
    assert_eq!(Op::Write.name(), "write");
    assert_eq!(Op::Read.rw(Pattern::Random), "randread");
    assert_eq!(Op::Write.rw(Pattern::Sequential), "write");
}
