use iomark::cli::Unit;
use iomark::disk::DiskInfo;
use iomark::duration::Duration;
use iomark::fio::{Op, RunSample};
use iomark::measure::Reading;
use iomark::runner::{aggregate, Cell, Config, Event, Phase};
use iomark::ui::plain::{opening, plan_line, Numbers, Progress};
use iomark::ui::Outcome;

fn config() -> Config {
    Config {
        tasks: vec!["SEQ1MQ8T1".parse().unwrap(), "RND4KQ1T1".parse().unwrap()],
        target: "/data".to_string(),
        size: 1 << 30,
        runs: 3,
        duration: Duration::from_secs(5),
        warmup: Duration::from_millis(1500),
        interval: Duration::zero(),
    }
}

fn numbers() -> Numbers {
    Numbers {
        value: "6531.10".to_string(),
        mb: "6531.10".to_string(),
        iops: "6228".to_string(),
        lat: "160.5".to_string(),
    }
}

fn sample() -> RunSample {
    let one = Reading::from_bits(1.0f64.to_bits());
    RunSample { bytes_per_sec: one, iops: one, lat_mean_us: one, lat_min_us: one }
}

fn phase(task: usize, op: Op) -> Event {
    Event::Phase { cell: Cell { task, op }, phase: Phase::Warmup }
}

fn done(cfg: &Config) -> Event {
    let cell = Cell { task: 0, op: Op::Read };
    Event::OpDone { cell, result: aggregate(cfg.tasks[0], cell.op, vec![sample()]) }
}

#[test]
fn opens_with_disk_target_plan_and_warnings() {
    let disk = DiskInfo {
        source: "/dev/sda1".into(),
        volume: None,
        mount: "/".into(),
        file_system: "ext4".into(),
        total: 4 << 40,
        available: 3 << 40,
    };
    let warnings = vec!["shallow".to_string()];
    assert_eq!(
        opening("0.1.0 (fio-3.42)", Some(&disk), &config(), &warnings),
        [
            "iomark 0.1.0 (fio-3.42)",
            "Disk: /dev/sda1 (ext4), 3.0 TiB free of 4.0 TiB",
            "Target: /data",
            "Plan: SEQ1MQ8T1, RND4KQ1T1 | file 1.0 GiB | 3 run(s) x 5s (warmup 1.5s, interval 0ns)",
            "Warning: shallow",
        ]
    );
    let lines = opening("v", None, &config(), &Vec::new());
    assert_eq!(lines.len(), 3);
    assert_eq!(lines[1], "Target: /data");
    assert_eq!(
        plan_line(&config(), "a", "b", "c"),
        "Plan: SEQ1MQ8T1, RND4KQ1T1 | file 1.0 GiB | 3 run(s) x a (warmup b, interval c)"
    );
}

#[test]
fn announces_each_operation_once() {
    let cfg = config();
    let mut progress = Progress::new();
    let mut line = |event: Event| {
        progress.handle(&cfg, Unit::MegabytesPerSec, false, &event, &numbers()).line
    };
    assert_eq!(line(Event::Preparing).unwrap(), "Preparing test file (1.0 GiB)...");
    assert_eq!(line(phase(0, Op::Read)).unwrap(), "[1/4] SEQ1M Q8T1 read");
    assert_eq!(line(phase(0, Op::Read)), None);
    assert_eq!(line(phase(0, Op::Write)).unwrap(), "[2/4] SEQ1M Q8T1 write");
    assert_eq!(line(phase(1, Op::Read)).unwrap(), "[3/4] RND4K Q1T1 read");
    assert_eq!(line(phase(0, Op::Read)), None);
    assert_eq!(
        line(Event::RunDone { cell: Cell { task: 0, op: Op::Read }, sample: sample() }).unwrap(),
        "    run: 6531.10 MB/s | 6228 IOPS | 160.5 us"
    );
    assert_eq!(
        line(Event::Cooldown { next: Cell { task: 0, op: Op::Write }, remaining: Duration::zero() }),
        None
    );
}

#[test]
fn records_results_while_somebody_reads() {
    let cfg = config();
    let mut progress = Progress::new();
    let r = progress.handle(&cfg, Unit::Iops, true, &done(&cfg), &numbers());
    assert!(r.record);
    assert_eq!(r.line.unwrap(), "    best: 6531.10 IOPS (6228 IOPS, 160.5 us)");
    assert_eq!(r.outcome, None);
    assert!(!progress.handle(&cfg, Unit::Iops, false, &done(&cfg), &numbers()).record);
    progress.stream_closed();
    assert!(!progress.handle(&cfg, Unit::Iops, true, &done(&cfg), &numbers()).record);
    let r = progress.handle(&cfg, Unit::Iops, true, &Event::Finished, &numbers());
    assert_eq!(r.outcome, Some(Outcome::Aborted));
    assert_eq!(r.line.unwrap(), "Done.");
}

#[test]
fn ends_as_the_session_did() {
    let cfg = config();
    let mut progress = Progress::new();
    let r = progress.handle(&cfg, Unit::Iops, true, &Event::Finished, &numbers());
    assert_eq!(r.outcome, Some(Outcome::Finished));
    let r = progress.handle(&cfg, Unit::Iops, true, &Event::Aborted, &numbers());
    assert_eq!((r.line.as_deref(), r.outcome), (Some("Aborted."), Some(Outcome::Aborted)));
    let failed = Event::Failed("no disk".to_string());
    let r = progress.handle(&cfg, Unit::Iops, true, &failed, &numbers());
    assert_eq!(r.error.unwrap(), "iomark: no disk");
    assert_eq!((r.line, r.outcome), (None, Some(Outcome::Failed)));
    assert_eq!(progress.hang_up(), Outcome::Failed);
    assert_eq!(Outcome::Finished.exit_code(), 0);
    assert_eq!(Outcome::Aborted.exit_code(), 130);
    assert_eq!(Outcome::Failed.exit_code(), 1);
}
