use iomark::task::{format_block_size, parse_block_size, Pattern, SpecError, TaskSpec};

#[test]
fn parses_cdm_default_tasks() {
    let seq: TaskSpec = "SEQ1MQ8T1".parse().unwrap();
    assert_eq!(
        seq,
        TaskSpec {
            pattern: Pattern::Sequential,
            block_size: 1 << 20,
            queue_depth: 8,
            threads: 1,
        }
    );
    let rnd: TaskSpec = "RND4KQ32T16".parse().unwrap();
    assert_eq!(
        rnd,
        TaskSpec {
            pattern: Pattern::Random,
            block_size: 4096,
            queue_depth: 32,
            threads: 16,
        }
    );
}

#[test]
fn is_case_insensitive() {
    assert_eq!(
        "seq128kq32t1".parse::<TaskSpec>().unwrap(),
        "SEQ128KQ32T1".parse::<TaskSpec>().unwrap()
    );
}

#[test]
fn round_trips_through_id() {
    for id in [
        "SEQ1MQ8T1",
        "SEQ128KQ32T1",
        "RND4KQ32T16",
        "RND4KQ1T1",
        "RND8KQ4T4",
    ] {
        assert_eq!(id.parse::<TaskSpec>().unwrap().id(), id);
    }
}

#[test]
fn rejects_malformed_specs() {
    for bad in [
        "",
        "FOO4KQ1T1",
        "SEQQ1T1",
        "SEQ4K",
        "SEQ4KQ0T1",
        "SEQ4KQ1T0",
        "RND4KQXT1",
    ] {
        assert!(bad.parse::<TaskSpec>().is_err(), "{bad:?} should fail");
    }
}

#[test]
fn displays_cdm_style_label() {
    let spec: TaskSpec = "RND4KQ32T16".parse().unwrap();
    assert_eq!(spec.to_string(), "RND4K Q32T16");
}

#[test]
fn says_what_is_wrong() {
    let error = |s: &str| s.parse::<TaskSpec>().unwrap_err();
    assert_eq!(error("FOO4KQ1T1"), SpecError::Prefix("FOO4KQ1T1".to_string()));
    assert_eq!(error("SEQ0KQ1T1"), SpecError::BlockSize("SEQ0KQ1T1".to_string()));
    assert_eq!(
        error("SEQ99999999999999999999KQ1T1"),
        SpecError::BlockSize("SEQ99999999999999999999KQ1T1".to_string())
    );
    assert_eq!(error("SEQ4KQ1"), SpecError::QueueThreads("SEQ4KQ1".to_string()));
    assert_eq!(
        error("SEQ4KQ4294967296T1"),
        SpecError::QueueThreads("SEQ4KQ4294967296T1".to_string())
    );
    assert_eq!(error(" rnd4kq0t1"), SpecError::Zero(" rnd4kq0t1".to_string()));
    assert_eq!(
        error("SEQ4K").to_string(),
        "invalid queue/thread section in \"SEQ4K\" (expected Q<n>T<n>)"
    );
    assert_eq!(
        error("SEQ\tQ1T1").to_string(),
        "invalid block size in \"SEQ\\tQ1T1\" (expected e.g. 4K, 128K, 1M)"
    );
    assert_eq!(
        error("SEQ1Q0T0").to_string(),
        "queue depth and threads must be at least 1: \"SEQ1Q0T0\""
    );
    assert_eq!(
        SpecError::Prefix(String::new()).message("'x'"),
        "task must start with SEQ or RND: 'x'"
    );
}

#[test]
fn ignores_surrounding_white_space_and_allows_plus_signs() {
    let plain: TaskSpec = "SEQ1MQ8T1".parse().unwrap();
    assert_eq!(" \u{2003}seq+1mq+8t+1\n".parse::<TaskSpec>().unwrap(), plain);
}

#[test]
fn block_sizes_use_the_largest_exact_unit() {
    for (bytes, text) in [
        (1u64, "1"),
        (1000, "1000"),
        (1024, "1K"),
        (1536, "1536"),
        (131072, "128K"),
        (1 << 20, "1M"),
        (3 << 30, "3G"),
        (u64::MAX, "18446744073709551615"),
    ] {
        assert_eq!(format_block_size(bytes), text);
        let chars: Vec<char> = text.chars().collect();
        assert_eq!(parse_block_size(&chars), Some(bytes));
    }
    assert_eq!(parse_block_size(&['K']), None);
    assert_eq!(parse_block_size(&[]), None);
    assert_eq!(parse_block_size(&['1', 'k']), None);
}

#[test]
fn labels_in_two_lines() {
    let spec: TaskSpec = "SEQ1MQ8T1".parse().unwrap();
    assert_eq!(spec.label(), ("SEQ1M".to_string(), "Q8T1".to_string()));
}
