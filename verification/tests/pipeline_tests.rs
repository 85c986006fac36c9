use kelora::event::Event;
use kelora::formatters::{format_default, format_jsonl};
use kelora::jsonl::ParseError;
use kelora::parsers::{JsonlParser, LogParser, LogfmtParser, SyslogParser};
use kelora::pipeline::{
    create_formatter, create_parser, prepare_keys_filter, prepare_levels_filter, process_line,
    to_upper, Cli, InputFormat, LineOutcome, OutputFormat,
};
use kelora::stats::Stats;
use kelora::time::{format_timestamp, format_timestamp_full, parse_timestamp};
use kelora::value::{FieldValue, NumValue};

fn cli_with(input: InputFormat, output: OutputFormat) -> Cli {
    Cli {
        files: vec![],
        input_format: input,
        output_format: output,
        keys: vec![],
        levels: vec![],
        stats_only: false,
        stats: false,
        debug: false,
        common: false,
    }
}

fn run_lines(cli: &Cli, input: &str) -> (Vec<String>, Stats) {
    let parser = create_parser(&cli.input_format);
    let formatter = create_formatter(&cli.output_format);
    let levels_filter = prepare_levels_filter(&cli.levels);
    let keys_filter = prepare_keys_filter(cli);
    let mut stats = Stats::new();
    let mut out = Vec::new();
    for line in input.lines() {
        if stats.lines_seen == usize::MAX {
            panic!("too many lines");
        }
        match process_line(&parser, &formatter, &levels_filter, &keys_filter, &mut stats, line) {
            LineOutcome::Emitted(text) => out.push(text),
            _ => {}
        }
    }
    (out, stats)
}

#[test]
fn test_level_filter_case_insensitive() {
    let mut cli = cli_with(InputFormat::Jsonl, OutputFormat::Default);
    cli.levels = vec!["ERROR".to_string()];
    let input = "{\"level\":\"error\",\"message\":\"Lowercase error\"}\n{\"level\":\"ERROR\",\"message\":\"Uppercase error\"}\n{\"level\":\"Error\",\"message\":\"Mixed case error\"}\n{\"message\":\"No level at all\"}\n{\"level\":\"info\",\"message\":\"Info message\"}\n";
    let (out, stats) = run_lines(&cli, input);
    assert_eq!(out.len(), 3);
    assert!(out[0].contains("Lowercase error"));
    assert!(out[1].contains("Uppercase error"));
    assert!(out[2].contains("Mixed case error"));
    assert_eq!(stats.filtered_out, 2);
    assert_eq!(stats.events_shown, 3);
}

#[test]
fn test_key_projection_include_only() {
    let parser = LogfmtParser::new();
    let mut event = parser
        .parse("timestamp=\"2023-07-18T15:04:23.456Z\" level=ERROR message=\"Database failed\" host=db.example.com port=5432")
        .unwrap();
    let keys = vec!["timestamp".to_string(), "message".to_string()];
    event.filter_keys(&keys);
    assert!(event.timestamp.is_some());
    assert!(event.level.is_none());
    assert_eq!(event.message, Some("Database failed".to_string()));
    assert!(event.get_field("host").is_none());
    assert!(event.get_field("port").is_none());
    let out = format_default(&event);
    assert_eq!(
        out,
        "timestamp=\"2023-07-18T15:04:23.456Z\" message=\"Database failed\""
    );
}

#[test]
fn test_common_keys_shortcut() {
    let mut cli = cli_with(InputFormat::Jsonl, OutputFormat::Default);
    cli.common = true;
    let input = "{\"timestamp\":\"2023-07-18T15:04:23.456Z\",\"level\":\"ERROR\",\"message\":\"Database failed\",\"host\":\"db.example.com\",\"port\":5432}\n";
    let (out, _) = run_lines(&cli, input);
    assert_eq!(out.len(), 1);
    assert!(out[0].contains("timestamp=\"2023-07-18T15:04:23.456Z\""));
    assert!(out[0].contains("level=\"ERROR\""));
    assert!(out[0].contains("message=\"Database failed\""));
    assert!(!out[0].contains("host="));
    assert!(!out[0].contains("port="));
}

#[test]
fn test_jsonl_to_default_output() {
    let mut cli = cli_with(InputFormat::Jsonl, OutputFormat::Default);
    cli.levels = vec![];
    let input = "{\"level\":\"info\",\"message\":\"test\",\"count\":42}\n";
    let (out, _) = run_lines(&cli, input);
    assert_eq!(out.len(), 1);
    assert!(out[0].contains("level=\"info\""));
    assert!(out[0].contains("message=\"test\""));
    assert!(out[0].contains("count=42"));
    assert!(!out[0].contains("count=42.0"));
}

#[test]
fn test_syslog_priority_decoding() {
    let parser = SyslogParser::new();
    let event = parser.parse("<34>Oct 11 22:14:15 mymachine su: test").unwrap();
    assert_eq!(event.level, Some("CRITICAL".to_string()));
    assert_eq!(event.message, Some("test".to_string()));
    assert!(matches!(event.get_field("hostname"), Some(FieldValue::Text(s)) if s == "mymachine"));
    assert!(matches!(event.get_field("process"), Some(FieldValue::Text(s)) if s == "su"));
    assert!(matches!(
        event.get_field("priority"),
        Some(FieldValue::Number(NumValue::Int(34)))
    ));
    assert!(matches!(
        event.get_field("facility"),
        Some(FieldValue::Number(NumValue::Int(4)))
    ));
    assert!(matches!(
        event.get_field("severity"),
        Some(FieldValue::Number(NumValue::Int(2)))
    ));
    let out = format_default(&event);
    assert!(out.contains("hostname=\"mymachine\""));
    assert!(out.contains("process=\"su\""));
    assert!(out.contains("level=\"CRITICAL\""));
}

#[test]
fn test_syslog_pid_and_degrade() {
    let parser = SyslogParser::new();
    let event = parser
        .parse("<13>Oct 11 22:14:15 mymachine myapp[1234]: Application started successfully")
        .unwrap();
    assert!(matches!(event.get_field("process"), Some(FieldValue::Text(s)) if s == "myapp"));
    assert!(matches!(
        event.get_field("pid"),
        Some(FieldValue::Number(NumValue::Int(1234)))
    ));
    let out = format_default(&event);
    assert!(out.contains("pid=1234"));

    let degraded = parser.parse("this line is no syslog at all").unwrap();
    assert_eq!(degraded.message, Some("this line is no syslog at all".to_string()));
    assert!(degraded.level.is_none());
}

#[test]
fn test_malformed_json_counts_error_and_continues() {
    let cli = cli_with(InputFormat::Jsonl, OutputFormat::Default);
    let input = "{\"level\":\"INFO\",\"message\":\"Good line\"}\n{bad json}\n{\"level\":\"INFO\",\"message\":\"Another good line\"}\n";
    let (out, stats) = run_lines(&cli, input);
    assert_eq!(out.len(), 2);
    assert!(out[0].contains("Good line"));
    assert!(out[1].contains("Another good line"));
    assert_eq!(stats.parse_errors, 1);
    assert_eq!(stats.lines_seen, 3);
    assert_eq!(stats.events_shown, 2);
}

#[test]
fn test_json_error_variants() {
    let parser = kelora::parsers::JsonlParser::new();
    assert!(matches!(
        parser.parse("{bad json}"),
        Err(ParseError::JsonError(_))
    ));
    match parser.parse("[1,2,3]") {
        Err(ParseError::InvalidFormat(msg)) => assert_eq!(msg, "Expected JSON object"),
        _ => panic!("a non-object root must be rejected as InvalidFormat"),
    }
}

#[test]
fn test_empty_input_zero_stats() {
    let cli = cli_with(InputFormat::Jsonl, OutputFormat::Default);
    let (out, stats) = run_lines(&cli, "");
    assert!(out.is_empty());
    assert_eq!(stats.lines_seen, 0);
    assert_eq!(stats.events_shown, 0);
    assert_eq!(stats.parse_errors, 0);
    assert_eq!(stats.filtered_out, 0);
    let summary = stats.summary_lines();
    assert_eq!(summary.len(), 1);
    assert_eq!(
        summary[0],
        "Events shown: 0 (parse errors: 0, lines seen: 0, filtered: 0)"
    );
}

#[test]
fn test_stats_summary_levels_and_span() {
    let cli = cli_with(InputFormat::Jsonl, OutputFormat::Default);
    let input = "{\"timestamp\":\"2023-07-18T15:04:23.456Z\",\"level\":\"ERROR\",\"message\":\"Error 1\"}\n{\"timestamp\":\"2023-07-18T15:04:24.456Z\",\"level\":\"INFO\",\"message\":\"Info 1\"}\n{\"timestamp\":\"2023-07-18T16:05:25.456Z\",\"level\":\"ERROR\",\"message\":\"Error 2\"}\n";
    let (out, stats) = run_lines(&cli, input);
    assert_eq!(out.len(), 3);
    assert_eq!(stats.events_shown, 3);
    let summary = stats.summary_lines();
    assert_eq!(
        summary[0],
        "Events shown: 3 (parse errors: 0, lines seen: 3, filtered: 0)"
    );
    assert_eq!(
        summary[1],
        "Time span: 2023-07-18T15:04:23.456Z to 2023-07-18T16:05:25.456Z (duration: 1h1m2s)"
    );
    assert_eq!(summary[2], "Log levels: ERROR(2), INFO(1)");
}

#[test]
fn test_logfmt_round_trip_field_set() {
    let parser = LogfmtParser::new();
    let first = parser
        .parse("level=info msg=\"some text\" count=42 ratio=1.5 ok=true nothing=null")
        .unwrap();
    let text = format_default(&first);
    let second = parser.parse(&text).unwrap();
    assert_eq!(second.level, first.level);
    assert_eq!(second.message, first.message);
    for (k, v) in &first.fields {
        match second.get_field(k) {
            Some(w) => match (v, w) {
                (FieldValue::Text(a), FieldValue::Text(b)) => assert_eq!(a, b),
                (FieldValue::Number(NumValue::Int(a)), FieldValue::Number(NumValue::Int(b))) => {
                    assert_eq!(a, b)
                }
                (
                    FieldValue::Number(NumValue::Dec(a, _)),
                    FieldValue::Number(NumValue::Dec(b, _)),
                ) => assert_eq!(a, b),
                (FieldValue::Boolean(a), FieldValue::Boolean(b)) => assert_eq!(a, b),
                (FieldValue::Null, FieldValue::Null) => {}
                _ => panic!("field {} changed its kind in the round trip", k),
            },
            None => panic!("field {} lost in the round trip", k),
        }
    }
    assert_eq!(first.fields.len(), second.fields.len());
}

#[test]
fn test_json_round_trip_object() {
    let mut cli = cli_with(InputFormat::Jsonl, OutputFormat::Jsonl);
    cli.levels = vec![];
    let input = "{\"a\":\"x\",\"b\":7,\"c\":true,\"d\":null,\"e\":2.25}\n";
    let (out, _) = run_lines(&cli, input);
    assert_eq!(out.len(), 1);
    let reparsed: serde_json::Value = serde_json::from_str(&out[0]).unwrap();
    let original: serde_json::Value = serde_json::from_str(input.trim()).unwrap();
    assert_eq!(reparsed, original);
}

#[test]
fn test_jsonl_output_core_fields() {
    let mut cli = cli_with(InputFormat::Logfmt, OutputFormat::Jsonl);
    cli.levels = vec![];
    let input = "timestamp=\"2023-07-18T15:04:23.456Z\" level=ERROR message=\"Test message\"\n";
    let (out, _) = run_lines(&cli, input);
    assert_eq!(out.len(), 1);
    let parsed: serde_json::Value = serde_json::from_str(&out[0]).unwrap();
    assert_eq!(parsed["level"], "ERROR");
    assert_eq!(parsed["message"], "Test message");
    assert_eq!(parsed["timestamp"], "2023-07-18T15:04:23.456Z");
}

#[test]
fn test_mixed_logfmt_patterns() {
    let parser = LogfmtParser::new();
    let event = parser
        .parse("empty_value= quoted_empty=\"\" null_value=null flag=true count=42")
        .unwrap();
    assert!(event.get_field("empty_value").is_none());
    assert!(matches!(event.get_field("quoted_empty"), Some(FieldValue::Text(s)) if s == ""));
    assert!(matches!(event.get_field("null_value"), Some(FieldValue::Null)));
    let out = format_default(&event);
    assert!(out.contains("null_value=null"));
    assert!(out.contains("flag=true"));
    assert!(out.contains("count=42"));
    assert!(out.contains("quoted_empty=\"\""));
}

#[test]
fn test_blank_lines_skipped() {
    let cli = cli_with(InputFormat::Logfmt, OutputFormat::Default);
    let input = "a=1\n   \n\t\nb=2\n";
    let (out, stats) = run_lines(&cli, input);
    assert_eq!(out.len(), 2);
    assert_eq!(stats.lines_seen, 4);
    assert_eq!(stats.events_shown, 2);
}

#[test]
fn test_timestamp_wrappers_round_trip() {
    let t = parse_timestamp("2023-07-18T15:04:23.456Z").unwrap();
    assert_eq!(format_timestamp(t.0, t.1), "2023-07-18T15:04:23.456Z");
    assert!(parse_timestamp("Oct 11 22:14:15").is_none());
    // an offset is normalized to UTC
    let t2 = parse_timestamp("2023-07-18T17:04:23.456+02:00").unwrap();
    assert_eq!(t2, t);
}

#[test]
fn test_timestamp_full_precision() {
    // JSON output keeps every subsecond digit of the instant
    let parser = JsonlParser::new();
    let event = parser
        .parse("{\"timestamp\":\"2023-07-18T15:04:23.456789Z\",\"message\":\"x\"}")
        .unwrap();
    let out = format_jsonl(&event);
    assert!(out.contains("\"timestamp\":\"2023-07-18T15:04:23.456789Z\""));
    // logfmt output renders millisecond precision
    let text = format_default(&event);
    assert!(text.contains("timestamp=\"2023-07-18T15:04:23.456Z\""));
    // the full rendering round-trips down to nanoseconds
    let t = parse_timestamp("2023-07-18T15:04:23.456789123Z").unwrap();
    assert_eq!(format_timestamp_full(t.0, t.1), "2023-07-18T15:04:23.456789123Z");
}

#[test]
fn test_unicode_whitespace_lines_skipped() {
    let cli = cli_with(InputFormat::Logfmt, OutputFormat::Default);
    // a line of only Unicode whitespace carries nothing
    let input = "a=1\n\u{2028}\u{a0}\n b=2\n";
    let (out, stats) = run_lines(&cli, input);
    assert_eq!(out.len(), 2);
    assert_eq!(stats.lines_seen, 3);
    // a bareword value ends at Unicode whitespace
    let parser = LogfmtParser::new();
    let event = parser.parse("a=b\u{a0}c=d").unwrap();
    assert!(matches!(event.get_field("a"), Some(kelora::value::FieldValue::Text(s)) if s == "b"));
    assert!(matches!(event.get_field("c"), Some(kelora::value::FieldValue::Text(s)) if s == "d"));
}

#[test]
fn test_to_upper_wrapper() {
    assert_eq!(to_upper("error"), "ERROR");
    assert_eq!(to_upper("Error"), "ERROR");
}

#[test]
fn test_ts_alias_promotion() {
    let parser = LogfmtParser::new();
    let event = parser.parse("ts=\"2023-07-18T15:04:23.456Z\" msg=hello").unwrap();
    assert!(event.timestamp.is_some());
    assert!(event.get_field("ts").is_none());
    let out = format_default(&event);
    assert!(out.starts_with("timestamp=\"2023-07-18T15:04:23.456Z\""));
}

#[test]
fn test_unparseable_timestamp_not_promoted() {
    let parser = LogfmtParser::new();
    let event = parser.parse("time=\"Jul 18 15:04:25\" msg=hello").unwrap();
    assert!(event.timestamp.is_none());
    // the alias-named field is hidden from the remainder output
    let out = format_default(&event);
    assert_eq!(out, "message=\"hello\"");
}

#[test]
fn test_json_escaping_in_output() {
    let mut event = Event::new();
    event.message = Some("a\"b\\c\nd".to_string());
    let out = format_jsonl(&event);
    assert_eq!(out, "{\"message\":\"a\\\"b\\\\c\\nd\"}");
    let parsed: serde_json::Value = serde_json::from_str(&out).unwrap();
    assert_eq!(parsed["message"], "a\"b\\c\nd");
}

#[test]
fn test_level_alias_priority() {
    let parser = LogfmtParser::new();
    // the first present alias in priority order wins
    let event = parser.parse("lvl=warn severity=bad msg=hi").unwrap();
    assert_eq!(event.level, Some("warn".to_string()));
    // the unpromoted alias stays in the field map
    assert!(event.get_field("severity").is_some());
}

#[test]
fn test_numeric_level_not_promoted() {
    let mut cli = cli_with(InputFormat::Jsonl, OutputFormat::Jsonl);
    cli.levels = vec![];
    let input = "{\"level\":3,\"message\":\"x\"}\n";
    let (out, _) = run_lines(&cli, input);
    assert_eq!(out.len(), 1);
    let parsed: serde_json::Value = serde_json::from_str(&out[0]).unwrap();
    // a non-text level fills no core slot but is still emitted as a field
    assert_eq!(parsed["level"], 3);
    assert_eq!(parsed["message"], "x");
}

#[test]
fn test_syslog_message_mirrored_once() {
    let parser = SyslogParser::new();
    let event = parser.parse("<34>Oct 11 22:14:15 mymachine su: hello there").unwrap();
    let out = format_jsonl(&event);
    assert_eq!(out.matches("\"message\"").count(), 1);
}
