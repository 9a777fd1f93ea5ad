use sentinel::config::{Config, RulesSource, Secrets};
use sentinel::notify::Telegram;
use sentinel::parse::{is_float_literal, parse, readable, split_name_labels};
use sentinel::rpc::{parse_block_hex, RpcClient, RpcError};
use sentinel::time::{millis_to_i64, now_ms};

#[test]
fn now_ms_is_positive_and_recent() {
    let t = now_ms();
    assert!(t > 1_700_000_000_000, "expected ms timestamp, got {t}");
}

#[test]
fn clock_reading_converts_to_i64() {
    assert_eq!(millis_to_i64(None), 0);
    assert_eq!(millis_to_i64(Some(1_700_000_000_123)), 1_700_000_000_123);
}

#[test]
fn parses_hex_block_number() {
    assert_eq!(parse_block_hex("{\"jsonrpc\":\"2.0\",\"result\":\"0x2604a4f\",\"id\":1}").unwrap(), 0x2604a4f);
}

#[test]
fn errors_on_missing_result() {
    assert!(parse_block_hex("{\"jsonrpc\":\"2.0\",\"error\":{},\"id\":1}").is_err());
}

#[test]
fn block_hex_errors_by_kind() {
    assert_eq!(parse_block_hex("{\"error\":{}}"), Err(RpcError::NoResult));
    assert_eq!(parse_block_hex("{\"result\":\"0x12"), Err(RpcError::Unterminated));
    assert_eq!(parse_block_hex("{\"result\":\"0xzz\"}"), Err(RpcError::BadHex));
    assert_eq!(parse_block_hex("{\"result\":\"0x\"}"), Err(RpcError::BadHex));
    assert_eq!(parse_block_hex("{\"result\":\"0x10000000000000000\"}"), Err(RpcError::BadHex));
    assert_eq!(parse_block_hex("{\"result\":\"0xffffffffffffffff\"}"), Ok(u64::MAX));
    assert_eq!(parse_block_hex("{\"result\":\"0xAbC\"}"), Ok(0xabc));
    assert_eq!(parse_block_hex("{\"result\":\"0x+1\"}"), Ok(1));
}

#[test]
fn rpc_client_keeps_its_settings() {
    let c = RpcClient::new("http://localhost:8080".into(), 500);
    assert_eq!(c.url, "http://localhost:8080");
    assert_eq!(c.timeout_ms, 500);
}

#[test]
fn timeout_defaults() {
    let c = Config::default();
    assert_eq!(c.scrape_timeout_ms, 8000);
    assert_eq!(c.rpc_timeout_ms, 8000);
}

#[test]
fn rules_path_defaults_to_none() {
    let c = Config::default();
    assert!(c.rules_path.is_none());
}

#[test]
fn config_defaults_apply_for_empty_toml() {
    let c = Config::default();
    assert_eq!(c.metrics_url, "http://localhost:8889/metrics");
    assert_eq!(c.scrape_interval_ms, 5000);
}

#[test]
fn config_rpc_url_has_default() {
    let c = Config::default();
    assert_eq!(c.rpc_url, "http://localhost:8080");
}

#[test]
fn rules_source_follows_the_path() {
    let mut c = Config::default();
    assert!(matches!(c.rules_source(), RulesSource::BuiltIn));
    c.rules_path = Some("/etc/rules.toml".into());
    match c.rules_source() {
        RulesSource::File(f) => assert_eq!(f, "/etc/rules.toml"),
        RulesSource::BuiltIn => panic!("an explicit file must be used"),
    }
}

#[test]
fn telegram_url_and_chat() {
    let t = Telegram::new(&Secrets { telegram_token: "T0K".into(), telegram_chat_id: "42".into() });
    assert_eq!(t.send_url(), "https://api.telegram.org/botT0K/sendMessage");
    assert_eq!(t.chat_id(), "42");
}

#[test]
fn freshest_ts_picks_max_timestamp() {
    let text = "a{j=\"x\"} 1 1000\nb{j=\"x\"} 2 5000\nc{j=\"x\"} 3 3000";
    let snap = parse(text, 0);
    assert_eq!(snap.freshest_ts_ms(), Some(5000));
}

#[test]
fn freshest_ts_none_when_no_timestamps() {
    let snap = parse("a 1\nb 2", 0);
    assert_eq!(snap.freshest_ts_ms(), None);
}

#[test]
fn parse_skips_comments_and_blank_lines() {
    let text = "# HELP x\n\n  # TYPE x counter\nx_total{job=\"n\", k = \"v\"} 838117 1782098354704\ny 3.9794841e7\nbad\n";
    let snap = parse(text, 7);
    assert_eq!(snap.scraped_at_ms, 7);
    assert_eq!(snap.samples.len(), 2);
    let s = &snap.samples[0];
    assert_eq!(s.name, "x_total");
    assert_eq!(s.labels, vec![("job".to_string(), "n".to_string()), ("k".to_string(), "v".to_string())]);
    assert_eq!(s.value, "838117");
    assert_eq!(s.ts_ms, Some(1782098354704));
    assert_eq!(snap.samples[1].name, "y");
    assert_eq!(snap.samples[1].value, "3.9794841e7");
    assert_eq!(snap.samples[1].ts_ms, None);
}

#[test]
fn parse_timestamp_that_is_not_an_integer_is_dropped() {
    let snap = parse("m 1 12x\nn 2 -5\nq 3 99999999999999999999", 0);
    assert_eq!(snap.samples.len(), 3);
    assert_eq!(snap.samples[0].ts_ms, None);
    assert_eq!(snap.samples[1].ts_ms, Some(-5));
    assert_eq!(snap.samples[2].ts_ms, None);
    assert_eq!(snap.freshest_ts_ms(), Some(-5));
}

#[test]
fn split_name_labels_cases() {
    let (n, l) = split_name_labels("m{a=\"1\",b=2,junk}");
    assert_eq!(n, "m");
    assert_eq!(l, vec![("a".to_string(), "1".to_string()), ("b".to_string(), "2".to_string())]);
    let (n, l) = split_name_labels("plain");
    assert_eq!(n, "plain");
    assert!(l.is_empty());
}

#[test]
fn parse_drops_lines_whose_value_is_not_a_number() {
    let snap = parse("m abc 5000\nn 1e 7\no . 9\np 1.2.3 4", 0);
    assert!(snap.samples.is_empty());
    assert_eq!(snap.freshest_ts_ms(), None);
    let snap = parse("a .5\nb 5.\nc -inf\nd NaN\ne +Infinity\nf 1E-5\ng 1e+5 3", 0);
    let names: Vec<&str> = snap.samples.iter().map(|s| s.name.as_str()).collect();
    assert_eq!(names, ["a", "b", "c", "d", "e", "f", "g"]);
    for s in &snap.samples {
        assert!(s.value.parse::<f64>().is_ok(), "{} must parse", s.value);
    }
}

#[test]
fn float_literal_matches_std_parsing() {
    for w in ["0", "-1", "+2.5", ".5", "5.", "1e10", "1E-3", "2.5e+7", "inf", "-INF", "Infinity",
              "nan", "NaN", "+nan", "00.00e00", "1", "", "-", "+", ".", "e5", "1e", "1e+", "1.2.3",
              "1_000", "0x10", "infin", "nana", " 1", "1 ", "--1", "+-1", "1e5.0", "١"] {
        let chars: Vec<char> = w.chars().collect();
        assert_eq!(is_float_literal(&chars), w.parse::<f64>().is_ok(), "disagreement on {w:?}");
    }
}

#[test]
fn readable_flags_lines_that_would_cut_a_character() {
    assert!(readable("a{j=\"x\"} 1 1000\n# comment\n\nb 2"));
    assert!(!readable("a{ 1"));
    assert!(!readable("ok 1\na{\u{e9} 1"));
    assert!(readable("a{\u{e9}x 1"));
    assert!(readable("#a{ 1\n   "));
}

#[test]
fn first_sample_and_prefixed_positions() {
    let snap = parse("x_a 1\ny 2\nx_b 3\ny 4", 0);
    assert_eq!(snap.first_sample("y"), Some(1));
    assert_eq!(snap.first_sample("z"), None);
    assert_eq!(snap.prefixed("x_"), vec![0, 2]);
    assert_eq!(snap.prefixed(""), vec![0, 1, 2, 3]);
    assert!(snap.prefixed("q").is_empty());
}

#[test]
fn freshness_fires_when_metrics_stale() {
    let snap = parse("m{j=\"x\"} 1 1000", 1000);
    assert!(snap.older_than(100_000, 60_000));
}

#[test]
fn freshness_quiet_when_metrics_fresh() {
    let snap = parse("m{j=\"x\"} 1 99_000", 99_000);
    assert!(!snap.older_than(100_000, 60_000));
    let snap = parse("m{j=\"x\"} 1 99000", 99_000);
    assert!(!snap.older_than(100_000, 60_000));
    // Exactly at the limit is not older.
    assert!(!snap.older_than(159_000, 60_000));
    assert!(snap.older_than(159_001, 60_000));
}

#[test]
fn freshness_quiet_when_no_timestamps() {
    let snap = parse("m 1", 0);
    assert!(!snap.older_than(100_000, 60_000));
    assert!(!parse("m 1", 0).older_than(i64::MAX, i64::MIN));
    assert!(parse("m 1 -9223372036854775808", 0).older_than(i64::MAX, 0));
}

#[test]
fn block_height_round_trips_through_hex() {
    for n in [0u64, 1, 15, 16, 0x2604a4f, u64::MAX] {
        let body = format!("{{\"jsonrpc\":\"2.0\",\"result\":\"0x{n:x}\",\"id\":1}}");
        assert_eq!(parse_block_hex(&body), Ok(n));
    }
}
