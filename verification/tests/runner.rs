use iomark::cli::{Args, Cli};
use iomark::duration::Duration;
use iomark::fio::{LiveRate, Op, RunSample};
use iomark::measure::Reading;
use iomark::runner::{aggregate, test_file_name, Cell, Config, Event, Phase};
use iomark::steps::{Action, Reply, Runner};
use iomark::task::TaskSpec;

fn reading(x: f64) -> Reading {
    Reading::from_bits(x.to_bits())
}

fn float(r: Reading) -> f64 {
    f64::from_bits(r.to_bits())
}

fn sample(bw: f64, lat: f64) -> RunSample {
    RunSample {
        bytes_per_sec: reading(bw),
        iops: reading(bw / 4096.0),
        lat_mean_us: reading(lat),
        lat_min_us: reading(lat / 2.0),
    }
}

fn config(tasks: &[&str], runs: u32, warmup: Duration, interval: Duration) -> Config {
    Config {
        tasks: tasks.iter().map(|t| t.parse().unwrap()).collect(),
        target: ".".to_string(),
        size: 1,
        runs,
        duration: Duration::from_secs(1),
        warmup,
        interval,
    }
}

#[test]
fn aggregation_takes_best_bandwidth_and_lowest_latency() {
    let spec: TaskSpec = "RND4KQ1T1".parse().unwrap();
    let result = aggregate(
        spec,
        Op::Read,
        vec![sample(100.0, 9.0), sample(300.0, 12.0), sample(200.0, 7.0)],
    );
    assert_eq!(float(result.bytes_per_sec), 300.0);
    assert_eq!(float(result.lat_us), 7.0);
    assert_eq!(result.runs.len(), 3);
}

#[test]
fn aggregation_agrees_with_floating_point() {
    let spec: TaskSpec = "RND4KQ1T1".parse().unwrap();
    for runs in [
        vec![],
        vec![f64::NAN],
        vec![f64::NAN, 1.5, f64::NAN],
        vec![-3.0, -1.0],
        vec![f64::INFINITY, 2.0],
        vec![f64::NEG_INFINITY, 2.0],
        vec![1e-310, 5e-324, 0.0],
    ] {
        let samples: Vec<RunSample> = runs.iter().map(|x| sample(*x, *x)).collect();
        let result = aggregate(spec, Op::Write, samples);
        assert_eq!(float(result.bytes_per_sec), runs.iter().copied().fold(0.0, f64::max));
        assert_eq!(float(result.lat_us), runs.iter().copied().fold(f64::INFINITY, f64::min));
    }
}

#[test]
fn readings_keep_order_and_bits() {
    let numbers = [f64::NEG_INFINITY, -2.5, -1e-300, -0.0, 0.0, 5e-324, 1.0, 1e300, f64::INFINITY];
    for (i, a) in numbers.iter().enumerate() {
        assert_eq!(reading(*a).to_bits(), a.to_bits());
        for (j, b) in numbers.iter().enumerate() {
            assert_eq!(reading(*a).place < reading(*b).place, i < j);
            assert_eq!(reading(*a).at_least(reading(*b)), i >= j);
        }
    }
    assert!(!reading(f64::NAN).at_least(reading(0.0)));
    assert_eq!(reading(1.0).max(reading(f64::NAN)), reading(1.0));
    assert_eq!(reading(1.0).min(reading(-f64::NAN)), reading(1.0));
}

#[test]
fn cells_run_read_then_write_per_task() {
    let cfg = config(&["SEQ1MQ8T1", "RND4KQ1T1"], 1, Duration::zero(), Duration::zero());
    let cells = cfg.cells();
    let ops: Vec<(usize, Op)> = cells.iter().map(|c| (c.task, c.op)).collect();
    assert_eq!(
        ops,
        [(0, Op::Read), (0, Op::Write), (1, Op::Read), (1, Op::Write)]
    );
}

#[test]
fn takes_settings_from_the_command_line() {
    let mut args = Args::none();
    args.runs = Some("2".to_string());
    args.size = Some("4M".to_string());
    let cli = Cli::from_args(&args).unwrap();
    let cfg = Config::from_cli(&cli, "/data".to_string());
    assert_eq!(cfg.tasks, cli.tasks);
    assert_eq!(cfg.target, "/data");
    assert_eq!((cfg.runs, cfg.size), (2, 4 << 20));
    assert_eq!(cfg.interval, Duration::from_secs(5));
    let w = cfg.workload(Cell { task: 2, op: Op::Write }, "/data/f", cfg.warmup);
    assert_eq!(w.spec.id(), "RND4KQ32T16");
    assert_eq!((w.op, w.file, w.size, w.runtime), (Op::Write, "/data/f", 4 << 20, cfg.warmup));
}

#[test]
fn names_the_test_file_after_the_process() {
    assert_eq!(test_file_name(4711), "iomark-4711.tmp");
    assert_ne!(test_file_name(4711), test_file_name(471));
}

fn describe(event: &Event) -> String {
    match event {
        Event::Preparing => "preparing".to_string(),
        Event::Cooldown { next, remaining } => {
            format!("cooldown {}{} {}", next.task, next.op.name(), remaining.as_millis())
        }
        Event::Phase { cell, phase: Phase::Warmup } => {
            format!("warmup {}{}", cell.task, cell.op.name())
        }
        Event::Phase { cell, phase: Phase::Measuring { run, total } } => {
            format!("run {}{} {run}/{total}", cell.task, cell.op.name())
        }
        Event::Live { .. } => "live".to_string(),
        Event::RunDone { cell, sample } => {
            format!("done {}{} {}", cell.task, cell.op.name(), float(sample.bytes_per_sec))
        }
        Event::OpDone { cell, result } => {
            let runs = result.runs.len();
            format!("best {}{} {} of {runs}", cell.task, cell.op.name(), float(result.bytes_per_sec))
        }
        Event::Finished => "finished".to_string(),
        Event::Aborted => "aborted".to_string(),
        Event::Failed(message) => format!("failed {message}"),
    }
}

/// Drives a benchmark whose `n`th workload measures `n`, and that is answered
/// by `cut` instead at the `at`th action.
fn drive(cfg: Config, at: usize, cut: fn() -> Reply) -> (Vec<String>, u128) {
    let mut runner = Runner::new(cfg);
    let mut action = Action::Probe;
    let mut log = Vec::new();
    let mut slept: u128 = 0;
    let mut measured = 0.0;
    for step in 0.. {
        let reply = match action {
            Action::Stop => break,
            Action::Sleep(time) => {
                assert!(time.as_millis() <= 100);
                slept += time.as_millis();
                Reply::Done
            }
            _ if step == at => cut(),
            Action::Run { .. } => {
                measured += 1.0;
                Reply::Ran(sample(measured, 1.0))
            }
            _ => Reply::Done,
        };
        let turn = runner.next(reply);
        log.extend(turn.events.iter().map(describe));
        action = turn.action;
    }
    (log, slept)
}

#[test]
fn runs_everything_in_order() {
    let cfg = config(&["SEQ1MQ8T1"], 2, Duration::from_secs(1), Duration::from_millis(250));
    let (log, slept) = drive(cfg, usize::MAX, || Reply::Done);
    assert_eq!(
        log,
        [
            "preparing",
            "warmup 0read",
            "run 0read 1/2",
            "done 0read 2",
            "run 0read 2/2",
            "done 0read 3",
            "best 0read 3 of 2",
            "cooldown 0write 250",
            "cooldown 0write 50",
            "cooldown 0write 0",
            "warmup 0write",
            "run 0write 1/2",
            "done 0write 5",
            "run 0write 2/2",
            "done 0write 6",
            "best 0write 6 of 2",
            "finished",
        ]
    );
    assert_eq!(slept, 250);
}

#[test]
fn skips_a_disabled_warmup_and_pause() {
    let cfg = config(&["SEQ1MQ8T1", "RND4KQ1T1"], 1, Duration::zero(), Duration::zero());
    let (log, slept) = drive(cfg, usize::MAX, || Reply::Done);
    assert_eq!(log[1], "run 0read 1/1");
    assert_eq!(log[4], "cooldown 0write 0");
    assert_eq!(log.iter().filter(|l| l.starts_with("cooldown")).count(), 3);
    assert_eq!(log.iter().filter(|l| l.starts_with("best")).count(), 4);
    assert_eq!(slept, 0);
}

#[test]
fn counts_down_about_twice_a_second() {
    let cfg = config(&["SEQ1MQ8T1"], 1, Duration::zero(), Duration::from_millis(1200));
    let (log, slept) = drive(cfg, usize::MAX, || Reply::Done);
    let shown: Vec<&String> = log.iter().filter(|l| l.starts_with("cooldown")).collect();
    assert_eq!(
        shown,
        [
            "cooldown 0write 1200",
            "cooldown 0write 1000",
            "cooldown 0write 500",
            "cooldown 0write 0",
        ]
    );
    assert_eq!(slept, 1200);
}

#[test]
fn always_ends_with_one_terminal_event() {
    let short = || config(&["SEQ1MQ8T1"], 1, Duration::from_secs(1), Duration::from_millis(150));
    for at in 1..9 {
        let (log, _) = drive(short(), at, || Reply::Aborted);
        let ends = log.iter().filter(|l| *l == "aborted" || *l == "finished").count();
        assert_eq!(ends, 1, "{at}");
        assert!(log.last().unwrap() == "aborted" || log.last().unwrap() == "finished");
    }
    let (log, _) = drive(short(), 0, || Reply::Failed("no disk".to_string()));
    assert_eq!(log, ["failed no disk"]);
    let (log, _) = drive(short(), 1, || Reply::Failed("no space".to_string()));
    assert_eq!(log, ["preparing", "failed no space"]);
    let (log, _) = drive(short(), 3, || Reply::Failed("gone".to_string()));
    assert_eq!(log, ["preparing", "warmup 0read", "run 0read 1/1", "failed gone"]);
}

#[test]
fn nothing_to_do_finishes_at_once() {
    let cfg = config(&[], 3, Duration::zero(), Duration::zero());
    let (log, _) = drive(cfg, usize::MAX, || Reply::Done);
    assert_eq!(log, ["preparing", "finished"]);
}

#[test]
fn live_rates_belong_to_the_running_cell() {
    let cfg = config(&["SEQ1MQ8T1"], 1, Duration::zero(), Duration::zero());
    let rate = LiveRate { bytes_per_sec: reading(1.0), iops: reading(2.0), percent: None };
    let mut runner = Runner::new(cfg);
    assert!(runner.live(rate).is_none());
    runner.next(Reply::Done);
    assert!(runner.live(rate).is_none());
    let turn = runner.next(Reply::Done);
    assert!(matches!(turn.action, Action::Run { runtime, .. } if runtime == Duration::from_secs(1)));
    match runner.live(rate) {
        Some(Event::Live { cell, rate: r }) => {
            assert_eq!(cell, Cell { task: 0, op: Op::Read });
            assert_eq!(r, rate);
        }
        _ => panic!("no live event"),
    }
}
