use clap::{Arg, ArgAction, Command};

use iomark::cli::{
    parse_bytes, parse_duration, parse_positive_duration, parse_runs, parse_tasks,
    reject_zero_duration, reject_zero_size, Args, Cli, CliError, Unit,
};
use iomark::duration::Duration;
use iomark::task::TaskSpec;

fn parse_from(argv: &[&str]) -> Cli {
    let option = |name: &'static str| Arg::new(name).long(name).action(ArgAction::Append);
    let command = Command::new("iomark")
        .arg(Arg::new("target"))
        .arg(option("tasks"))
        .arg(option("type"))
        .arg(option("runs"))
        .arg(option("size"))
        .arg(option("duration"))
        .arg(option("warmup"))
        .arg(option("interval"))
        .arg(Arg::new("json").long("json").action(ArgAction::SetTrue));
    let matches = command.get_matches_from(argv);
    let one = |name: &str| matches.get_one::<String>(name).cloned();
    let args = Args {
        target: one("target"),
        tasks: matches
            .get_many::<String>("tasks")
            .map(|v| v.cloned().collect())
            .unwrap_or_default(),
        unit: one("type"),
        runs: one("runs"),
        size: one("size"),
        duration: one("duration"),
        warmup: one("warmup"),
        interval: one("interval"),
        json: matches.get_flag("json"),
    };
    Cli::from_args(&args).expect("valid settings")
}

fn text(s: &str) -> Option<String> {
    Some(s.to_string())
}

#[test]
fn defaults_match_cdm9_nvme_preset() {
    let cli = parse_from(&["iomark"]);
    let ids: Vec<String> = cli.tasks.iter().map(TaskSpec::id).collect();
    assert_eq!(
        ids,
        ["SEQ1MQ8T1", "SEQ128KQ32T1", "RND4KQ32T16", "RND4KQ1T1"]
    );
    assert_eq!(cli.runs, 3);
    assert_eq!(cli.size, 1 << 30);
    assert_eq!(cli.duration, Duration::from_secs(5));
    assert_eq!(cli.warmup, Duration::from_secs(5));
    assert_eq!(cli.interval, Duration::from_secs(5));
    assert_eq!(cli.unit, Unit::MegabytesPerSec);
    assert!(!cli.json);
    assert_eq!(cli.target, ".");
}

#[test]
fn parses_sizes_as_binary_units() {
    let cli = parse_from(&["iomark", "--size", "512M"]);
    assert_eq!(cli.size, 512 << 20);
    let cli = parse_from(&["iomark", "--size", "2GiB"]);
    assert_eq!(cli.size, 2 << 30);
}

#[test]
fn parses_unit_names() {
    assert_eq!(
        parse_from(&["iomark", "--type", "IOPS"]).unit,
        Unit::Iops
    );
    assert_eq!(
        parse_from(&["iomark", "--type", "MB/s"]).unit,
        Unit::MegabytesPerSec
    );
}

#[test]
fn accepts_bare_second_durations() {
    let cli = parse_from(&["iomark", "--duration", "3", "--warmup", "0s"]);
    assert_eq!(cli.duration, Duration::from_secs(3));
    assert_eq!(cli.warmup, Duration::zero());
}

#[test]
fn takes_every_option() {
    let cli = parse_from(&[
        "iomark", "/mnt/disk", "--tasks", "RND8KQ4T4,SEQ1MQ1T1", "--tasks", "seq4kq1t1",
        "--type", "iops", "--runs", "7", "--size", "64KB", "--duration", "1500ms", "--warmup",
        "2m", "--interval", "1h", "--json",
    ]);
    let ids: Vec<String> = cli.tasks.iter().map(TaskSpec::id).collect();
    assert_eq!(ids, ["RND8KQ4T4", "SEQ1MQ1T1", "SEQ4KQ1T1"]);
    assert_eq!(cli.target, "/mnt/disk");
    assert_eq!(cli.unit, Unit::Iops);
    assert_eq!(cli.runs, 7);
    assert_eq!(cli.size, 65536);
    assert_eq!(cli.duration, Duration::from_millis(1500));
    assert_eq!(cli.warmup, Duration::from_secs(120));
    assert_eq!(cli.interval, Duration::from_secs(3600));
    assert!(cli.json);
}

#[test]
fn reports_the_rejected_option() {
    let mut args = Args::none();
    args.tasks = vec!["SEQ1MQ8T1,FOO".to_string()];
    assert!(matches!(Cli::from_args(&args), Err(CliError::Tasks(e)) if e.to_string()
        == "task must start with SEQ or RND: \"FOO\""));

    let mut args = Args::none();
    args.unit = text("KB/s");
    assert!(matches!(Cli::from_args(&args), Err(CliError::Unit(s)) if s == "KB/s"));

    for runs in ["0", "100", "-1", "x", ""] {
        let mut args = Args::none();
        args.runs = text(runs);
        assert!(matches!(Cli::from_args(&args), Err(CliError::Runs(s)) if s == runs));
    }

    let mut args = Args::none();
    args.size = text("0");
    assert!(
        matches!(Cli::from_args(&args), Err(CliError::Size(e)) if e == "size must be non-zero")
    );

    let mut args = Args::none();
    args.duration = text("0s");
    assert!(
        matches!(Cli::from_args(&args), Err(CliError::Duration(e)) if e == "duration must be non-zero")
    );

    let mut args = Args::none();
    args.duration = text("500us");
    assert!(
        matches!(Cli::from_args(&args), Err(CliError::Duration(e)) if e == "duration must be non-zero")
    );

    let mut args = Args::none();
    args.warmup = text("soon");
    assert!(matches!(Cli::from_args(&args), Err(CliError::Warmup(_))));

    let mut args = Args::none();
    args.interval = text("5 parsecs");
    assert!(matches!(Cli::from_args(&args), Err(CliError::Interval(_))));
}

#[test]
fn sizes_are_read_like_parse_size_reads_them() {
    let config =
        parse_size::Config::new().with_unit_system(parse_size::UnitSystem::Binary);
    for s in [
        "1", "1K", "1KB", "1KiB", "12MiB", "3 GiB", "1.5G", "7E", "15EiB", "1e3", "99999999999T",
        "", "K", "4X", "1__000k", "18446744073709551615e-5", "18446744073709551615e5",
        "1844674407370955161e0 59", "18446744073709551615.4", "#18446744073709551615 9",
        ".18446744073709551615 9", "1.8446744073709551614 9", "1.844674407370.9551615 9",
        "18446744073709551615_49",
    ] {
        let expected = config.parse_size(s).map_err(|e| e.to_string());
        assert_eq!(parse_bytes(s), expected, "{s}");
    }
    assert_eq!(parse_bytes("16KiB"), Ok(16384));
    assert!(parse_bytes("0").is_err());
    assert_eq!(parse_bytes("18446744073709551615"), Ok(u64::MAX));
    assert!(parse_bytes("18446744073709551616").is_err());
    // Here rounding would carry over the greatest number.
    for s in ["184467440737095516159", "1844674407370955161 5.9", "1.8446744073709551615_5K"] {
        assert_eq!(
            parse_bytes(s),
            Err("number too large to fit in target type".to_string()),
            "{s}"
        );
    }
    assert!(parse_bytes("184467440737095516154").is_err());
    assert_eq!(parse_bytes("0KiB"), Err("size must be non-zero".to_string()));
    assert_eq!(reject_zero_size(Ok(0)), Err("size must be non-zero".to_string()));
    assert_eq!(reject_zero_size(Ok(9)), Ok(9));
    assert_eq!(reject_zero_size(Err("no".to_string())), Err("no".to_string()));
}

#[test]
fn durations_are_read_like_humantime_reads_them() {
    for s in [
        "5s", "1500ms", "1h 30min", "2days 3h", "1.5h", "7us", "1y 2M 3w", "1 000s", "12", "",
        "x", "5", "5 s", "18446744073709551615s", "99999999999999999999s", "1h1h1h", "0.1ns",
        "5..1s", "3 minutes 4 seconds", "10µs 3ns", "1000000000000ns 1s", "1s 1000000000000000000000s",
        "18446744073709551615s 1ns", "18446744073709551614s 1ms", "18446744073709551614s 1000ms",
        "18446744073709551615s 999999999ns", "18446744073709551615s 1s", "18446744073709551615.5s",
        "18446744073709551615s 2000ms", "18446744073709551615s 1001ms", "5000000000000000y x",
        "5000000000000000y#", "5000000000000000y 1#s", "5000000000000000 years 1",
        "18446744073709551615s 1000#ms", "18446744073709551615s ms", "18446744073709551615s 1000",
        "18446744073709551615s\u{2003}5 00 ms", "1.00000000000000000000s", "584542046090y 1y",
        "584542046090.5y 0.5y 0.5y", "18446744073709551615s 0.0001ns", "1.s", ".5s", " 5s ",
        "18446744073709551615s 0.9s", "0.5ns 5000000000000000y", "1.5min 0.25h", "+5s", "5s+",
    ] {
        let bare = s.parse::<u64>().ok().map(std::time::Duration::from_secs);
        let expected = match bare {
            Some(d) => Ok(d),
            None => humantime::parse_duration(s).map_err(|e| e.to_string()),
        };
        let got = parse_duration(s)
            .map(|d| std::time::Duration::new(d.as_secs(), d.subsec_nanos()));
        assert_eq!(got, expected, "{s}");
    }
}

#[test]
fn refuses_sums_of_the_limit() {
    // Exactly 2^64 seconds, on which the outside parser does not return.
    for s in [
        "18446744073709551615s 1000ms",
        "18446744073709551615s 1 000 ms",
        "18446744073709551615s 500ms 500000us",
        "18446744073709551615s 999.5ms 500us 1h",
        "307445734561825860m 15s 1000000000ns 1#",
        "18446744073709551615s 1000.00001ms",
    ] {
        assert_eq!(
            parse_duration(s),
            Err("number is too large or cannot be represented without a lack of precision \
                (values below 1ns are not supported)"
                .to_string()),
            "{s}"
        );
    }
    assert!(parse_duration("9223372036854775808s 9223372036854775808s").is_err());
    assert_eq!(
        parse_duration("9223372036854775807s 1s"),
        Ok(Duration::from_secs(9223372036854775808))
    );
    assert_eq!(
        parse_duration("18446744073709551615s 1ns"),
        Ok(Duration::new(u64::MAX, 1))
    );
}

#[test]
fn rejects_durations_of_no_time() {
    assert!(parse_positive_duration("0").is_err());
    assert!(parse_positive_duration("0ms").is_err());
    assert_eq!(parse_positive_duration("1ms"), Ok(Duration::from_millis(1)));
    // Less than a millisecond would reach fio as no time.
    for s in ["500us", "999999ns", "1ns", "0.5ms"] {
        assert_eq!(
            parse_positive_duration(s),
            Err("duration must be non-zero".to_string()),
            "{s}"
        );
    }
    assert_eq!(parse_positive_duration("1500us"), Ok(Duration::new(0, 1_500_000)));
    assert_eq!(parse_duration("500us"), Ok(Duration::new(0, 500_000)));
    assert_eq!(
        reject_zero_duration(Ok(Duration::zero())),
        Err("duration must be non-zero".to_string())
    );
    assert_eq!(
        reject_zero_duration(Ok(Duration::from_secs(2))),
        Ok(Duration::from_secs(2))
    );
}

#[test]
fn runs_go_from_one_to_ninety_nine() {
    assert_eq!(parse_runs("1"), Some(1));
    assert_eq!(parse_runs("99"), Some(99));
    assert_eq!(parse_runs("+7"), Some(7));
    assert_eq!(parse_runs("0"), None);
    assert_eq!(parse_runs("100"), None);
    assert_eq!(parse_runs(" 1"), None);
}

#[test]
fn an_empty_item_is_no_task() {
    assert!(parse_tasks(&vec!["SEQ1MQ8T1,".to_string()]).is_err());
    assert_eq!(parse_tasks(&Vec::new()).unwrap().len(), 4);
}

#[test]
fn units_toggle_and_name_themselves() {
    for unit in [Unit::MegabytesPerSec, Unit::Iops] {
        assert_ne!(unit.toggled(), unit);
        assert_eq!(unit.toggled().toggled(), unit);
        assert_eq!(Unit::from_name(unit.heading()), Some(unit));
    }
    assert_eq!(Unit::from_name("mb"), Some(Unit::MegabytesPerSec));
    assert_eq!(Unit::from_name("mbs"), Some(Unit::MegabytesPerSec));
    assert_eq!(Unit::from_name("Iops"), None);
}

#[test]
fn durations_saturate() {
    let max = Duration::new(u64::MAX, 999_999_999);
    assert_eq!(max.saturating_add(Duration::from_secs(1)), max);
    assert_eq!(max.saturating_mul(2), max);
    assert_eq!(Duration::from_secs(1).saturating_sub(max), Duration::zero());
    let d = Duration::new(3, 250_000_000);
    assert_eq!(d.as_secs(), 3);
    assert_eq!(d.subsec_nanos(), 250_000_000);
    assert_eq!(d.subsec_millis(), 250);
    assert_eq!(d.as_millis(), 3250);
    assert_eq!(d.min(Duration::from_secs(2)), Duration::from_secs(2));
}
