use iomark::cli::Unit;
use iomark::disk::DiskInfo;
use iomark::duration::Duration;
use iomark::fio::{LiveRate, Op, RunSample};
use iomark::measure::Reading;
use iomark::runner::{aggregate, Cell, Config, Event, Phase};
use iomark::steps::{Action, Reply, Runner};
use iomark::ui::app::{App, Completion, Current, Key, KeyAction};
use iomark::ui::layout::{heights, inner, panels, Area, Draw, Heights, Span};
use iomark::ui::lines::{draw_status, header_lines, key_hints, status_line, title, Times};
use iomark::ui::palette::{Color, Palette, Tone};
use iomark::ui::shape::{
    bar_cells, fmt_dur, fmt_latency, latency_form, pad_left, shorten_path, truncate,
    value_decimals,
};
use iomark::ui::table::{draw_results, CellText};
use iomark::ui::Outcome;

fn reading(x: f64) -> Reading {
    Reading::from_bits(x.to_bits())
}

fn config() -> Config {
    Config {
        tasks: vec!["SEQ1MQ8T1".parse().unwrap(), "RND4KQ32T16".parse().unwrap()],
        target: "/data/long/way/down".to_string(),
        size: 1 << 30,
        runs: 3,
        duration: Duration::from_secs(5),
        warmup: Duration::from_secs(2),
        interval: Duration::from_secs(1),
    }
}

const READ: Cell = Cell { task: 0, op: Op::Read };
const WRITE: Cell = Cell { task: 1, op: Op::Write };

fn rate(bw: f64, iops: f64, percent: Option<f64>) -> LiveRate {
    LiveRate { bytes_per_sec: reading(bw), iops: reading(iops), percent: percent.map(reading) }
}

fn done(cfg: &Config, cell: Cell, bw: f64, iops: f64) -> Event {
    let sample = RunSample {
        bytes_per_sec: reading(bw),
        iops: reading(iops),
        lat_mean_us: reading(42.0),
        lat_min_us: reading(1.0),
    };
    Event::OpDone { cell, result: aggregate(cfg.tasks[cell.task], cell.op, vec![sample]) }
}

fn line(spans: &[Span]) -> String {
    spans.iter().map(|s| s.text.as_str()).collect()
}

#[test]
fn completed_beats_live() {
    let cfg = config();
    let mut app = App::new(&cfg, Unit::MegabytesPerSec);
    assert_eq!(app.value(READ), None);
    app.apply(Event::Live { cell: READ, rate: rate(10.0, 1.0, None) });
    assert_eq!(app.value(READ), Some(reading(10.0)));
    app.apply(Event::Phase { cell: READ, phase: Phase::Warmup });
    assert_eq!(app.value(READ), None);
    app.apply(done(&cfg, READ, 7.0, 3.0));
    assert_eq!(app.value(READ), Some(reading(7.0)));
    app.apply(Event::Live { cell: READ, rate: rate(99.0, 1.0, None) });
    assert_eq!(app.value(READ), Some(reading(7.0)));
    app.press(Key::Char { c: 'K', ctrl: false });
    assert_eq!(app.value(READ), Some(reading(3.0)));
    app.apply(done(&cfg, Cell { task: 1, op: Op::Read }, 1.0, 8.0));
    assert_eq!(app.col_max(&cfg, Op::Read), reading(8.0));
    assert_eq!(app.col_max(&cfg, Op::Write), reading(0.0));
}

#[test]
fn a_finished_session_shows_every_result() {
    let cfg = config();
    let mut app = App::new(&cfg, Unit::Iops);
    let mut runner = Runner::new(config());
    let mut action = Action::Probe;
    let mut measured = 0.0;
    while !matches!(action, Action::Stop) {
        let reply = match action {
            Action::Run { .. } => {
                measured += 1.0;
                Reply::Ran(RunSample {
                    bytes_per_sec: reading(measured),
                    iops: reading(measured),
                    lat_mean_us: reading(1.0),
                    lat_min_us: reading(1.0),
                })
            }
            _ => Reply::Done,
        };
        let turn = runner.next(reply);
        for event in turn.events {
            app.apply(event);
        }
        action = turn.action;
    }
    assert_eq!(app.outcome, Some(Outcome::Finished));
    let values: Vec<Option<Reading>> = cfg.cells().into_iter().map(|c| app.value(c)).collect();
    assert_eq!(
        values,
        [Some(reading(4.0)), Some(reading(8.0)), Some(reading(12.0)), Some(reading(16.0))]
    );
    assert_eq!(app.completion(&cfg), Completion::Whole);
}

#[test]
fn plans_the_whole_session() {
    let mut cfg = config();
    let app = App::new(&cfg, Unit::Iops);
    assert_eq!(app.planned, Duration::from_secs(4 * (2 + 15) + 3));
    assert_eq!(app.eta(Duration::zero()), None);
    cfg.duration = Duration::new(u64::MAX, 0);
    assert_eq!(App::new(&cfg, Unit::Iops).planned, Duration::new(u64::MAX, 999_999_999));
}

#[test]
fn tells_the_time_left_once_started() {
    let mut app = App::new(&config(), Unit::Iops);
    app.apply(Event::Preparing);
    assert_eq!(app.eta(Duration::zero()), None);
    app.apply(Event::Phase { cell: READ, phase: Phase::Warmup });
    assert_eq!(app.eta(Duration::from_secs(70)), Some(Duration::from_secs(1)));
    assert_eq!(app.eta(Duration::from_secs(99)), Some(Duration::zero()));
}

#[test]
fn keys_toggle_abort_or_leave() {
    let mut app = App::new(&config(), Unit::MegabytesPerSec);
    let char = |c| Key::Char { c, ctrl: false };
    assert_eq!(app.press(char('k')), KeyAction::Nothing);
    assert_eq!(app.unit, Unit::Iops);
    assert_eq!(app.press(char('K')), KeyAction::Nothing);
    assert_eq!(app.unit, Unit::MegabytesPerSec);
    assert_eq!(app.press(char('q')), KeyAction::Abort);
    assert_eq!(app.press(char('c')), KeyAction::Nothing);
    assert_eq!(app.press(Key::Char { c: 'c', ctrl: true }), KeyAction::Abort);
    assert_eq!(app.press(Key::Esc), KeyAction::Abort);
    assert_eq!(app.press(Key::Other), KeyAction::Nothing);
    assert_eq!(app.leaving(), None);
    app.apply(Event::Finished);
    assert_eq!(app.leaving(), None);
    assert_eq!(app.press(char('Q')), KeyAction::Leave(Outcome::Finished));
    app.hang_up();
    assert_eq!(app.outcome, Some(Outcome::Finished));
}

#[test]
fn a_dead_runner_is_a_failure() {
    let mut app = App::new(&config(), Unit::Iops);
    app.hang_up();
    assert_eq!(app.leaving(), Some(Outcome::Failed));
    assert_eq!(app.failure.as_deref(), Some("the benchmark runner stopped unexpectedly"));
    assert_eq!(
        line(&status_line(&app, &config())),
        "error: the benchmark runner stopped unexpectedly"
    );
}

#[test]
fn measures_completion() {
    let cfg = config();
    let mut app = App::new(&cfg, Unit::Iops);
    assert_eq!(
        app.completion(&cfg),
        Completion::Partial { done: 0, total: 4, current: None }
    );
    app.apply(done(&cfg, READ, 1.0, 1.0));
    app.apply(done(&cfg, READ, 2.0, 2.0));
    app.apply(Event::Phase { cell: WRITE, phase: Phase::Measuring { run: 2, total: 3 } });
    app.apply(Event::Live { cell: WRITE, rate: rate(1.0, 1.0, Some(50.0)) });
    let current = Current { runs_done: 1, runs: 3, percent: Some(reading(50.0)) };
    assert_eq!(
        app.completion(&cfg),
        Completion::Partial { done: 1, total: 4, current: Some(current) }
    );
    app.apply(Event::Finished);
    assert_eq!(app.completion(&cfg), Completion::Whole);
    let mut empty = config();
    empty.tasks.clear();
    assert_eq!(App::new(&empty, Unit::Iops).completion(&empty), Completion::Empty);
}

#[test]
fn says_what_goes_on() {
    let cfg = config();
    let mut app = App::new(&cfg, Unit::Iops);
    assert_eq!(line(&status_line(&app, &cfg)), "starting…");
    app.apply(Event::Preparing);
    assert_eq!(line(&status_line(&app, &cfg)), "preparing test file (1.0 GiB)");
    app.apply(Event::Cooldown { next: WRITE, remaining: Duration::from_millis(4100) });
    assert_eq!(line(&status_line(&app, &cfg)), "next RND4K Q32T16 write in 5s");
    app.apply(Event::Phase { cell: READ, phase: Phase::Warmup });
    assert_eq!(line(&status_line(&app, &cfg)), "▶ SEQ1M Q8T1 read · warmup");
    app.apply(Event::Phase { cell: WRITE, phase: Phase::Measuring { run: 2, total: 3 } });
    assert_eq!(line(&status_line(&app, &cfg)), "▶ RND4K Q32T16 write · run 2/3");
    app.apply(Event::Finished);
    assert_eq!(line(&status_line(&app, &cfg)), "complete — press Q to exit");
    app.apply(Event::Aborted);
    assert_eq!(line(&status_line(&app, &cfg)), "aborted");
    assert_eq!(app.leaving(), Some(Outcome::Aborted));
}

#[test]
fn heads_the_view() {
    let cfg = config();
    let times = Times {
        duration: "x".to_string(),
        warmup: "x".to_string(),
        interval: "x".to_string(),
    };
    let disk = DiskInfo {
        source: "/dev/disk4s1".into(),
        volume: Some("Data".into()),
        mount: "/".into(),
        file_system: "apfs".into(),
        total: 4 << 40,
        available: 3958241859994,
    };
    let warnings = vec!["something to know".to_string()];
    let lines = header_lines(98, Some(&disk), &cfg, &warnings, &times);
    assert_eq!(line(&lines[0]), "disk Data (/dev/disk4s1, apfs)  ·  3.6 TiB free of 4.0 TiB");
    assert_eq!(
        line(&lines[1]),
        "file 1.0 GiB  ·  3 runs × 5s  ·  warmup 2s  ·  interval 1s"
    );
    assert_eq!(line(&lines[2]), "⚠ something to know");
    let lines = header_lines(40, Some(&disk), &cfg, &warnings, &times);
    assert_eq!(line(&lines[0]), "disk Data (…  ·  3.6 TiB free of 4.0 TiB");
    let lines = header_lines(18, None, &cfg, &Vec::new(), &times);
    assert_eq!(line(&lines[0]), "target …/way/down");
    assert_eq!(title("0.1.0 (fio-3.42)"), " iomark 0.1.0 (fio-3.42) ");
    assert_eq!(line(&key_hints()), " K unit  Q quit ");
}

#[test]
fn fits_texts_and_numbers() {
    assert_eq!(truncate("abcdef", 6), "abcdef");
    assert_eq!(truncate("abcdef", 4), "abc…");
    assert_eq!(truncate("abcdef", 1), "…");
    assert_eq!(truncate("abcdef", 0), "…");
    assert_eq!(shorten_path("/a/b/c", 6), "/a/b/c");
    assert_eq!(shorten_path("/a/b/c", 3), "…/c");
    assert_eq!(shorten_path("/a/b/c", 1), "…");
    assert_eq!(shorten_path("/a/b/c", 0), "");
    assert_eq!(pad_left("–", 8), "       –");
    assert_eq!(pad_left("123456789", 8), "123456789");
    assert_eq!(fmt_dur(Duration::from_secs(5), "x"), "5s");
    assert_eq!(fmt_dur(Duration::from_millis(1500), "1.5"), "1.5s");
    assert_eq!(value_decimals(Unit::Iops, reading(10000.0)), 0);
    assert_eq!(value_decimals(Unit::Iops, reading(9999.9)), 1);
    assert_eq!(value_decimals(Unit::MegabytesPerSec, reading(9999.9)), 2);
    assert_eq!(value_decimals(Unit::MegabytesPerSec, reading(f64::NAN)), 2);
    assert!(latency_form(reading(1000.0)).millis);
    assert_eq!(latency_form(reading(1000.0)).decimals, 2);
    assert!(!latency_form(reading(999.9)).millis);
    assert_eq!(fmt_latency(reading(1500.0), "1.50"), "1.50 ms");
    assert_eq!(fmt_latency(reading(42.0), "42.0"), "42.0 µs");
}

#[test]
fn fills_bars_by_eighths() {
    let bar = |w, filled| bar_cells(w, filled).iter().map(|c| c.symbol).collect::<String>();
    assert_eq!(bar(4, 0), "····");
    assert_eq!(bar(4, 32), "████");
    assert_eq!(bar(4, 13), "█▋··");
    assert_eq!(bar(4, 1), "▏···");
    assert_eq!(bar(4, 31), "███▉");
    assert_eq!(bar(0, 9), "");
    assert!(bar_cells(2, 8)[0].filled && !bar_cells(2, 8)[1].filled);
}

#[test]
fn detects_truecolor() {
    assert!(Palette::detect(Some("TrueColor")).truecolor);
    assert!(Palette::detect(Some("xterm-24BIT")).truecolor);
    assert!(!Palette::detect(Some("256")).truecolor);
    assert!(!Palette::detect(None).truecolor);
    assert_eq!(Palette { truecolor: true }.color(Tone::Live), Color::Rgb(229, 192, 123));
    assert_eq!(Palette { truecolor: false }.color(Tone::Live), Color::Yellow);
    assert_eq!(Palette { truecolor: false }.color(Tone::Error), Color::Red);
}

#[test]
fn divides_the_terminal() {
    let area = Area { x: 0, y: 0, width: 121, height: 50 };
    let p = panels(area, 4, 1);
    assert_eq!(p.header, Area { x: 10, y: 0, width: 100, height: 5 });
    assert_eq!(p.results, Area { x: 10, y: 5, width: 100, height: 11 });
    assert_eq!(p.status, Area { x: 10, y: 16, width: 100, height: 3 });
    assert_eq!(inner(p.header), Area { x: 11, y: 1, width: 98, height: 3 });
    assert_eq!(
        inner(Area { x: 3, y: 4, width: 1, height: 0 }),
        Area { x: 4, y: 4, width: 0, height: 0 }
    );
    assert_eq!(heights(4, 1), Heights { header: 5, results: 11, status: 3 });
    assert_eq!(heights(0, 0), Heights { header: 4, results: 3, status: 3 });
}

#[test]
fn shares_out_a_low_terminal() {
    for y in [0, 7, 40_000] {
        for tasks in 0..12 {
            for warnings in 0..6 {
                let asked = heights(tasks, warnings);
                for height in 0..asked.header + asked.results + asked.status + 3 {
                    let p = panels(Area { x: 0, y, width: 80, height }, tasks, warnings);
                    for part in [p.header, p.results, p.status] {
                        assert_eq!((part.x, part.width), (0, 80));
                    }
                    let all = height.min(asked.header + asked.results + asked.status);
                    assert_eq!(p.header.y, y);
                    assert_eq!(p.header.bottom(), p.results.y);
                    assert_eq!(p.results.bottom(), p.status.y);
                    assert_eq!(p.status.bottom(), y + all);
                    assert!(p.header.height <= asked.header);
                    assert!(p.results.height <= asked.results);
                    assert!(p.status.height <= asked.status);
                }
            }
        }
    }
}

fn texts(n: usize) -> Vec<CellText> {
    (0..n)
        .map(|_| CellText { value: "6531.10".to_string(), latency: "42.0 µs".to_string() })
        .collect()
}

fn at(draws: &[Draw], row: u16) -> Vec<(u16, String)> {
    draws
        .iter()
        .filter_map(|d| match d {
            Draw::Text { x, y, text, .. } if *y == row => Some((*x, text.clone())),
            _ => None,
        })
        .collect()
}

#[test]
fn lays_out_the_table() {
    let cfg = config();
    let mut app = App::new(&cfg, Unit::Iops);
    app.apply(done(&cfg, READ, 1.0, 5.0));
    app.apply(Event::Phase { cell: WRITE, phase: Phase::Warmup });
    let bounds = Area { x: 1, y: 6, width: 98, height: 5 };
    let draws = draw_results(bounds, &app, &cfg, &texts(4));
    let head = at(&draws, 6);
    assert_eq!(head[0], (32, "Read (IOPS)".to_string()));
    assert_eq!(head[1], (73, "Write (IOPS)".to_string()));
    assert_eq!(head[2..], [(17, "│".to_string()), (58, "│".to_string())]);
    let rule = at(&draws, 7);
    assert_eq!(rule.len(), 2 + 98);
    assert_eq!(rule.iter().filter(|(_, s)| s == "┼").count(), 2);
    let row = at(&draws, 8);
    assert_eq!(
        row[2..],
        [
            (3, "SEQ1M".to_string()),
            (9, "Q8T1".to_string()),
            (49, " 6531.10".to_string()),
            (40, "42.0 µs".to_string()),
            (90, "       –".to_string()),
        ]
    );
    let row = at(&draws, 10);
    assert_eq!(row[2], (1, "▶".to_string()));
    let bars: Vec<(Area, bool)> = draws
        .iter()
        .filter_map(|d| match d {
            Draw::Bar { area, dimmed, .. } => Some((*area, *dimmed)),
            _ => None,
        })
        .collect();
    assert_eq!(bars.len(), 4);
    assert_eq!(bars[0], (Area { x: 19, y: 8, width: 19, height: 1 }, false));
    assert_eq!(bars[3], (Area { x: 60, y: 10, width: 28, height: 1 }, true));
    for d in &draws {
        if let Draw::Text { x, y, max, .. } = d {
            assert!(*x >= 1 && x + max == 99 && (6..11).contains(y));
        }
    }
    assert!(draw_results(Area { width: 39, ..bounds }, &app, &cfg, &texts(4)).is_empty());
    assert!(draw_results(Area { height: 2, ..bounds }, &app, &cfg, &texts(4)).is_empty());
}

#[test]
fn keeps_latency_out_of_the_bandwidth_view() {
    let cfg = config();
    let mut app = App::new(&cfg, Unit::MegabytesPerSec);
    app.apply(done(&cfg, READ, 1.0, 5.0));
    let draws = draw_results(Area { x: 0, y: 0, width: 98, height: 9 }, &app, &cfg, &texts(4));
    assert!(draws.iter().all(|d| !matches!(d, Draw::Text { text, .. } if text == "42.0 µs")));
}

#[test]
fn puts_progress_at_the_right() {
    let cfg = config();
    let mut app = App::new(&cfg, Unit::Iops);
    let bounds = Area { x: 1, y: 20, width: 98, height: 1 };
    app.apply(Event::Phase { cell: READ, phase: Phase::Warmup });
    let status = draw_status(bounds, &app, "42", Duration::from_secs(9)).unwrap();
    assert_eq!(status.left, Area { x: 2, y: 20, width: 60, height: 1 });
    assert_eq!(status.bar, Some(Area { x: 63, y: 20, width: 16, height: 1 }));
    assert!(matches!(status.tail, Some(Draw::Text { x: 79, y: 20, max: 20, text, .. })
        if text == "  42% · ~1:02 left"));
    let narrow = draw_status(Area { width: 63, ..bounds }, &app, "42", Duration::zero()).unwrap();
    assert_eq!(narrow.left.width, 61);
    assert!(narrow.bar.is_none() && narrow.tail.is_none());
    assert!(draw_status(Area { height: 0, ..bounds }, &app, "0", Duration::zero()).is_none());
    app.apply(Event::Finished);
    assert!(draw_status(bounds, &app, "0", Duration::zero()).unwrap().bar.is_none());
}
