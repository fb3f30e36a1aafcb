use loggen::config::{parse_interval, parse_total, Interval, Unit};
use loggen::emitter::{bounded_run, Emitter};
use loggen::record::{build_message, make_record, Level, SinkLevel};

const ACTIONS: [&str; 7] = [
    "processing request",
    "connecting to database",
    "fetching user data",
    "updating cache",
    "validating input",
    "generating report",
    "sending notification",
];
const USERS: [&str; 5] = ["user123", "admin", "guest", "service_account", "api_client"];
const ERRORS: [&str; 5] = [
    "connection timeout",
    "invalid credentials",
    "resource not found",
    "permission denied",
    "internal server error",
];

#[test]
fn interval_valid_units() {
    assert_eq!(parse_interval(Some("500ms")).total_millis(), 500);
    assert_eq!(parse_interval(Some("2s")).total_millis(), 2000);
    assert_eq!(parse_interval(Some("1m")).total_millis(), 60000);
    assert_eq!(parse_interval(Some("1h")).total_millis(), 3_600_000);
}

#[test]
fn interval_valid_structure() {
    assert_eq!(
        parse_interval(Some("500ms")),
        Interval { value: 500, unit: Unit::Millis }
    );
    assert_eq!(parse_interval(Some("2s")), Interval { value: 2, unit: Unit::Secs });
    assert_eq!(parse_interval(Some("3m")), Interval { value: 3, unit: Unit::Mins });
    assert_eq!(parse_interval(Some("4h")), Interval { value: 4, unit: Unit::Hours });
}

#[test]
fn interval_case_insensitive() {
    assert_eq!(parse_interval(Some("500MS")).total_millis(), 500);
    assert_eq!(parse_interval(Some("500Ms")).total_millis(), 500);
    assert_eq!(parse_interval(Some("2S")).total_millis(), 2000);
    assert_eq!(parse_interval(Some("7M")).total_millis(), 420_000);
    assert_eq!(parse_interval(Some("1H")).total_millis(), 3_600_000);
}

#[test]
fn interval_whitespace_tolerated() {
    assert_eq!(parse_interval(Some("  500ms  ")).total_millis(), 500);
    assert_eq!(parse_interval(Some("\t2s\n")).total_millis(), 2000);
    assert_eq!(parse_interval(Some(" 500 ms ")).total_millis(), 500);
}

#[test]
fn interval_plus_sign_accepted() {
    assert_eq!(parse_interval(Some("+5s")).total_millis(), 5000);
}

#[test]
fn interval_fallback_one_second() {
    let default = Interval { value: 1, unit: Unit::Secs };
    assert_eq!(parse_interval(None), default);
    assert_eq!(parse_interval(Some("")), default);
    assert_eq!(parse_interval(Some("   ")), default);
    assert_eq!(parse_interval(Some("abc")), default);
    assert_eq!(parse_interval(Some("5")), default);
    assert_eq!(parse_interval(Some("5x")), default);
    assert_eq!(parse_interval(Some("s")), default);
    assert_eq!(parse_interval(Some("-5s")), default);
    assert_eq!(parse_interval(Some("5.5s")), default);
    assert_eq!(parse_interval(Some("99999999999999999999999s")), default);
    assert_eq!(parse_interval(None).total_millis(), 1000);
}

#[test]
fn total_plain_values() {
    assert_eq!(parse_total(Some("5")), 5);
    assert_eq!(parse_total(Some("0")), 0);
    assert_eq!(parse_total(Some("-1")), -1);
    assert_eq!(parse_total(Some(" 42 ")), 42);
    assert_eq!(parse_total(Some("+7")), 7);
}

#[test]
fn total_extremes() {
    assert_eq!(parse_total(Some("9223372036854775807")), i64::MAX);
    assert_eq!(parse_total(Some("-9223372036854775808")), i64::MIN);
}

#[test]
fn total_fallback_unbounded() {
    assert_eq!(parse_total(None), -1);
    assert_eq!(parse_total(Some("")), -1);
    assert_eq!(parse_total(Some("abc")), -1);
    assert_eq!(parse_total(Some("1.5")), -1);
    assert_eq!(parse_total(Some("9223372036854775808")), -1);
    assert_eq!(parse_total(Some("-9223372036854775809")), -1);
}

#[test]
fn bounded_run_emits_exactly_five() {
    let total = parse_total(Some("5"));
    let records = bounded_run(total);
    assert_eq!(records.len(), 5);
    for (i, r) in records.iter().enumerate() {
        assert_eq!(r.sequence, i as i64 + 1);
    }
}

#[test]
fn bounded_run_zero_emits_nothing() {
    let total = parse_total(Some("0"));
    let records = bounded_run(total);
    assert_eq!(records.len(), 0);
}

#[test]
fn bounded_run_sequences_contiguous() {
    let records = bounded_run(25);
    assert_eq!(records.len(), 25);
    let mut expected: i64 = 1;
    for r in &records {
        assert_eq!(r.sequence, expected);
        expected += 1;
    }
}

#[test]
fn unbounded_emitter_keeps_going() {
    let total = parse_total(Some("not a number"));
    assert_eq!(total, -1);
    let mut em = Emitter::new(total);
    for _ in 0..100 {
        assert!(em.should_emit());
        let _ = em.emit();
    }
    assert!(em.should_emit());
}

#[test]
fn bounded_emitter_stops() {
    let mut em = Emitter::new(3);
    let mut count = 0;
    while em.should_emit() {
        let _ = em.emit();
        count += 1;
    }
    assert_eq!(count, 3);
    assert!(!em.should_emit());
}

#[test]
fn message_patterns_per_level() {
    assert_eq!(build_message(Level::Trace, 0, 0, 0), "trace processing request");
    assert_eq!(build_message(Level::Debug, 1, 0, 0), "debug connecting to database");
    assert_eq!(
        build_message(Level::Info, 2, 1, 0),
        "info fetching user data user=admin"
    );
    assert_eq!(
        build_message(Level::Warn, 3, 0, 0),
        "warn possible issue action=updating cache"
    );
    assert_eq!(
        build_message(Level::Error, 0, 4, 0),
        "error connection timeout user=api_client"
    );
    assert_eq!(
        build_message(Level::Critical, 0, 0, 3),
        "error permission denied user=user123"
    );
    assert_eq!(
        build_message(Level::Fatal, 6, 2, 4),
        "error internal server error user=guest"
    );
}

#[test]
fn make_record_carries_fields() {
    let r = make_record(9, 2, 2, 1, 0, Some(1234), None);
    assert_eq!(r.sequence, 9);
    assert_eq!(r.level, Level::Info);
    assert_eq!(r.message, "info fetching user data user=admin");
    assert_eq!(r.request_id, Some(1234));
    assert_eq!(r.duration_us, None);
}

#[test]
fn emitted_messages_use_fixed_vocabularies() {
    let records = bounded_run(200);
    for r in &records {
        let msg = r.message.as_str();
        match r.level {
            Level::Trace => {
                let rest = msg.strip_prefix("trace ").expect("trace prefix");
                assert!(ACTIONS.contains(&rest));
            }
            Level::Debug => {
                let rest = msg.strip_prefix("debug ").expect("debug prefix");
                assert!(ACTIONS.contains(&rest));
            }
            Level::Info => {
                let rest = msg.strip_prefix("info ").expect("info prefix");
                let (action, user) = rest.split_once(" user=").expect("user field");
                assert!(ACTIONS.contains(&action));
                assert!(USERS.contains(&user));
            }
            Level::Warn => {
                let rest = msg.strip_prefix("warn possible issue action=").expect("warn prefix");
                assert!(ACTIONS.contains(&rest));
            }
            Level::Error | Level::Critical | Level::Fatal => {
                let rest = msg.strip_prefix("error ").expect("error prefix");
                let (err, user) = rest.rsplit_once(" user=").expect("user field");
                assert!(ERRORS.contains(&err));
                assert!(USERS.contains(&user));
            }
        }
    }
}

#[test]
fn optional_fields_stay_in_range() {
    let records = bounded_run(500);
    let mut saw_request = false;
    let mut saw_duration = false;
    for r in &records {
        if let Some(id) = r.request_id {
            saw_request = true;
            assert!(id < 10000);
        }
        if let Some(us) = r.duration_us {
            saw_duration = true;
            assert!(us < 1_000_000);
            let ms = us as f64 / 1000.0;
            assert!((0.0..1000.0).contains(&ms));
        }
    }
    // with 500 draws at probabilities 1/2 and 3/10 both fields all but
    // surely show up at least once
    assert!(saw_request);
    assert!(saw_duration);
}

#[test]
fn sink_collapses_top_severities() {
    assert_eq!(Level::Trace.sink_level(), SinkLevel::Trace);
    assert_eq!(Level::Debug.sink_level(), SinkLevel::Debug);
    assert_eq!(Level::Info.sink_level(), SinkLevel::Info);
    assert_eq!(Level::Warn.sink_level(), SinkLevel::Warn);
    assert_eq!(Level::Error.sink_level(), SinkLevel::Error);
    assert_eq!(Level::Critical.sink_level(), SinkLevel::Error);
    assert_eq!(Level::Fatal.sink_level(), SinkLevel::Error);
}

#[test]
fn all_severities_eventually_drawn() {
    let records = bounded_run(500);
    let mut seen = [false; 7];
    for r in &records {
        let idx = match r.level {
            Level::Trace => 0,
            Level::Debug => 1,
            Level::Info => 2,
            Level::Warn => 3,
            Level::Error => 4,
            Level::Critical => 5,
            Level::Fatal => 6,
        };
        seen[idx] = true;
    }
    assert!(seen.iter().all(|s| *s));
}
